//! Text helpers shared by every phase: character access, comparison,
//! searching, and conversions between numbers and their decimal spelling.
use vstd::prelude::*;

verus! {

/// The characters of `s`, in order.
pub fn chars_of(s: &str) -> (v: Vec<char>)
    ensures
        v@ == s@,
{
    let mut v: Vec<char> = Vec::new();
    for c in it: s.chars()
        invariant
            v@ == it.seq().take(it.index() as int),
    {
        v.push(c);
    }
    v
}

/// `String::push`: appends one character.
#[verifier::external_body]
pub(crate) fn push_char(s: &mut String, c: char)
    ensures
        final(s)@ == old(s)@.push(c),
{
    s.push(c);
}

/// Appends `t` to `s`.
pub fn push_str(s: &mut String, t: &str)
    ensures
        final(s)@ == old(s)@ + t@,
{
    s.append(t);
}

/// A string holding exactly the given characters.
pub fn string_from_chars(v: &Vec<char>) -> (s: String)
    ensures
        s@ == v@,
{
    let mut s = String::new();
    for i in 0..v.len()
        invariant
            s@ == v@.take(i as int),
    {
        push_char(&mut s, v[i]);
        assert(v@.take(i + 1) == v@.take(i as int).push(v@[i as int]));
    }
    assert(v@.take(v.len() as int) == v@);
    s
}

/// A string holding the characters `v[from..to]`.
pub fn string_from_range(v: &Vec<char>, from: usize, to: usize) -> (s: String)
    requires
        from <= to <= v@.len(),
    ensures
        s@ == v@.subrange(from as int, to as int),
{
    let mut s = String::new();
    let mut i = from;
    while i < to
        invariant
            from <= i <= to <= v@.len(),
            s@ == v@.subrange(from as int, i as int),
        decreases to - i,
    {
        push_char(&mut s, v[i]);
        assert(v@.subrange(from as int, i + 1) == v@.subrange(from as int, i as int).push(
            v@[i as int],
        ));
        i += 1;
    }
    s
}

/// An owned copy of `s`.
pub fn to_owned_string(s: &str) -> (r: String)
    ensures
        r@ == s@,
{
    String::from_str(s)
}

/// Whether two character vectors are equal.
pub fn chars_eq(a: &Vec<char>, b: &Vec<char>) -> (r: bool)
    ensures
        r == (a@ == b@),
{
    if a.len() != b.len() {
        return false;
    }
    let mut i: usize = 0;
    while i < a.len()
        invariant
            a@.len() == b@.len(),
            i <= a@.len(),
            forall|j: int| 0 <= j < i ==> a@[j] == b@[j],
        decreases a.len() - i,
    {
        if a[i] != b[i] {
            return false;
        }
        i += 1;
    }
    assert(a@ =~= b@);
    true
}

/// Whether two strings hold the same characters.
pub fn str_eq(a: &str, b: &str) -> (r: bool)
    ensures
        r == (a@ == b@),
{
    let av = chars_of(a);
    let bv = chars_of(b);
    chars_eq(&av, &bv)
}

/// Whether `p` is a prefix of `s`.
pub open spec fn is_prefix(p: Seq<char>, s: Seq<char>) -> bool {
    p.len() <= s.len() && s.take(p.len() as int) == p
}

/// Whether `p` is a suffix of `s`.
pub open spec fn is_suffix(p: Seq<char>, s: Seq<char>) -> bool {
    p.len() <= s.len() && s.skip(s.len() - p.len()) == p
}

/// Whether `p` occurs in `v` at position `at`.
pub open spec fn occurs_at(v: Seq<char>, p: Seq<char>, at: int) -> bool {
    0 <= at && at + p.len() <= v.len() && v.subrange(at, at + p.len()) == p
}

/// Whether the pattern `p` occurs in `v` at position `at` (exec form).
pub fn chars_occur_at(v: &Vec<char>, p: &Vec<char>, at: usize) -> (r: bool)
    ensures
        r == occurs_at(v@, p@, at as int),
{
    if at > v.len() || p.len() > v.len() - at {
        return false;
    }
    let mut i: usize = 0;
    while i < p.len()
        invariant
            at + p@.len() <= v@.len(),
            at + p.len() <= v.len(),
            i <= p@.len(),
            forall|j: int| 0 <= j < i ==> v@[at + j] == p@[j],
        decreases p.len() - i,
    {
        assert(at + i < v@.len());
        if v[at + i] != p[i] {
            assert(v@.subrange(at as int, at + p@.len())[i as int] != p@[i as int]);
            return false;
        }
        i += 1;
    }
    assert(v@.subrange(at as int, at + p@.len()) =~= p@);
    true
}

/// Whether `name` is one of the strings in `list`.
pub fn str_in_list(list: &Vec<&'static str>, name: &str) -> (r: bool)
    ensures
        r == list@.map_values(|s: &'static str| s@).contains(name@),
{
    let ghost views = list@.map_values(|s: &'static str| s@);
    let mut i: usize = 0;
    while i < list.len()
        invariant
            i <= list@.len(),
            views == list@.map_values(|s: &'static str| s@),
            forall|j: int| 0 <= j < i ==> views[j] != name@,
        decreases list.len() - i,
    {
        if str_eq(list[i], name) {
            assert(views[i as int] == name@);
            return true;
        }
        i += 1;
    }
    proof {
        if views.contains(name@) {
            let j = choose|j: int| 0 <= j < views.len() && views[j] == name@;
            assert(views[j] != name@);
        }
    }
    false
}

/// Whether `s` starts with `p`.
pub fn starts_with(s: &str, p: &str) -> (r: bool)
    ensures
        r == is_prefix(p@, s@),
{
    let sv = chars_of(s);
    let pv = chars_of(p);
    let r = chars_occur_at(&sv, &pv, 0);
    proof {
        if r {
            assert(sv@.subrange(0, pv@.len() as int) == sv@.take(pv@.len() as int));
        } else if is_prefix(pv@, sv@) {
            assert(sv@.subrange(0, pv@.len() as int) == sv@.take(pv@.len() as int));
        }
    }
    r
}

/// Whether `s` ends with `p`.
pub fn ends_with(s: &str, p: &str) -> (r: bool)
    ensures
        r == is_suffix(p@, s@),
{
    let sv = chars_of(s);
    let pv = chars_of(p);
    if pv.len() > sv.len() {
        return false;
    }
    let at = sv.len() - pv.len();
    let r = chars_occur_at(&sv, &pv, at);
    assert(sv@.subrange(at as int, at + pv@.len()) == sv@.skip(at as int));
    r
}

/// The first position at or after `from` where `p` occurs in `v`, if any.
pub open spec fn first_occurrence_from(v: Seq<char>, p: Seq<char>, from: int) -> Option<int>
    decreases v.len() + 1 - from,
{
    if from < 0 || from + p.len() > v.len() {
        None
    } else if occurs_at(v, p, from) {
        Some(from)
    } else {
        first_occurrence_from(v, p, from + 1)
    }
}

/// The first position where `p` occurs in `v`.
pub open spec fn first_occurrence(v: Seq<char>, p: Seq<char>) -> Option<int> {
    first_occurrence_from(v, p, 0)
}

pub proof fn lemma_first_occurrence_from(v: Seq<char>, p: Seq<char>, from: int)
    requires
        0 <= from,
    ensures
        first_occurrence_from(v, p, from) matches Some(k) ==> from <= k && occurs_at(v, p, k)
            && forall|j: int| from <= j < k ==> !occurs_at(v, p, j),
        first_occurrence_from(v, p, from) is None ==> forall|j: int|
            from <= j ==> !occurs_at(v, p, j),
    decreases v.len() + 1 - from,
{
    if from + p.len() > v.len() {
    } else if occurs_at(v, p, from) {
    } else {
        lemma_first_occurrence_from(v, p, from + 1);
    }
}

/// Exec search: the first position at or after `from` where `p` occurs in `v`.
pub fn find_chars_from(v: &Vec<char>, p: &Vec<char>, from: usize) -> (r: Option<usize>)
    ensures
        r matches Some(k) ==> first_occurrence_from(v@, p@, from as int) == Some(k as int),
        r is None ==> first_occurrence_from(v@, p@, from as int) is None,
        r matches Some(k) ==> from <= k && occurs_at(v@, p@, k as int) && k + p@.len() <= v@.len(),
{
    proof {
        lemma_first_occurrence_from(v@, p@, from as int);
    }
    let mut i = from;
    if i > v.len() || p.len() > v.len() - i {
        return None;
    }
    let last = v.len() - p.len();
    loop
        invariant
            from <= i <= last,
            last + p@.len() == v@.len(),
            first_occurrence_from(v@, p@, from as int) == first_occurrence_from(
                v@,
                p@,
                i as int,
            ),
        decreases last - i,
    {
        if chars_occur_at(v, p, i) {
            return Some(i);
        }
        if i == last {
            assert(first_occurrence_from(v@, p@, i + 1) is None);
            return None;
        }
        i += 1;
    }
}

/// Whether `v` contains the character `c`.
pub fn chars_contain(v: &Vec<char>, c: char) -> (r: bool)
    ensures
        r == v@.contains(c),
{
    let mut i: usize = 0;
    while i < v.len()
        invariant
            i <= v@.len(),
            forall|j: int| 0 <= j < i ==> v@[j] != c,
        decreases v.len() - i,
    {
        if v[i] == c {
            return true;
        }
        i += 1;
    }
    false
}

/// Whether `s` contains the character `c`.
pub fn contains_char(s: &str, c: char) -> (r: bool)
    ensures
        r == s@.contains(c),
{
    let v = chars_of(s);
    chars_contain(&v, c)
}

/// Whether `s` contains `p` as a substring.
pub fn contains_str(s: &str, p: &str) -> (r: bool)
    ensures
        r == (first_occurrence(s@, p@) is Some),
{
    let sv = chars_of(s);
    let pv = chars_of(p);
    find_chars_from(&sv, &pv, 0).is_some()
}

/// The first index of character `c` in `v`, if any.
pub open spec fn index_of_char(v: Seq<char>, c: char) -> Option<int> {
    if v.contains(c) {
        Some(choose|i: int| 0 <= i < v.len() && v[i] == c && forall|j: int| 0 <= j < i ==> v[j] != c)
    } else {
        None
    }
}

/// Exec form of [`index_of_char`].
pub fn find_char(v: &Vec<char>, c: char) -> (r: Option<usize>)
    ensures
        r matches Some(i) ==> i < v@.len() && v@[i as int] == c && forall|j: int|
            0 <= j < i ==> v@[j] != c,
        r is None ==> !v@.contains(c),
        r matches Some(i) ==> index_of_char(v@, c) == Some(i as int),
        r is None ==> index_of_char(v@, c) is None,
{
    let mut i: usize = 0;
    while i < v.len()
        invariant
            i <= v@.len(),
            forall|j: int| 0 <= j < i ==> v@[j] != c,
        decreases v.len() - i,
    {
        if v[i] == c {
            proof {
                let k = choose|k: int|
                    0 <= k < v@.len() && v@[k] == c && forall|j: int| 0 <= j < k ==> v@[j] != c;
                assert(v@.contains(c));
                if k < i {
                } else if k > i {
                    assert(v@[i as int] == c);
                }
            }
            return Some(i);
        }
        i += 1;
    }
    None
}

/// `s` with every character `from` replaced by `to`.
pub open spec fn replace_char_spec(s: Seq<char>, from: char, to: char) -> Seq<char> {
    s.map_values(|c: char| if c == from { to } else { c })
}

/// Replaces every `from` character by `to`.
pub fn replace_char(s: &str, from: char, to: char) -> (r: String)
    ensures
        r@ == replace_char_spec(s@, from, to),
{
    let v = chars_of(s);
    let mut out: Vec<char> = Vec::new();
    for i in 0..v.len()
        invariant
            out@ == replace_char_spec(v@.take(i as int), from, to),
            v@ == s@,
    {
        let c = v[i];
        out.push(if c == from { to } else { c });
        assert(replace_char_spec(v@.take(i + 1), from, to) == replace_char_spec(
            v@.take(i as int),
            from,
            to,
        ).push(if c == from { to } else { c }));
    }
    assert(v@.take(v.len() as int) == v@);
    string_from_chars(&out)
}

/// The lowercase form of a string as `str::to_lowercase` computes it
/// (Unicode case mapping, independent of locale).
pub uninterp spec fn lowercase(s: Seq<char>) -> Seq<char>;

/// The ASCII lowercase of `c`: `A`-`Z` become `a`-`z`, every other
/// character stays.
pub open spec fn ascii_lower(c: char) -> char {
    if 'A' <= c && c <= 'Z' {
        ((c as u32) + 32) as char
    } else {
        c
    }
}

/// `str::to_lowercase`. Its Unicode lowercase mapping takes each ASCII
/// letter to its ASCII lowercase and leaves every other ASCII character, so
/// for ASCII text the result is stated; for other text it is left to the name.
#[verifier::external_body]
pub(crate) fn to_lowercase(s: &str) -> (r: String)
    ensures
        r@ == lowercase(s@),
        (forall|i: int| 0 <= i < s@.len() ==> (#[trigger] s@[i] as u32) < 128) ==> r@ == s@.map_values(
            |c: char| ascii_lower(c),
        ),
{
    s.to_lowercase()
}

/// The name form used for entity lookups: lowercased, with spaces as underscores.
pub open spec fn normalized_name(s: Seq<char>) -> Seq<char> {
    replace_char_spec(lowercase(s), ' ', '_')
}

/// Lowercases `s` and turns spaces into underscores.
pub fn normalize_name(s: &str) -> (r: String)
    ensures
        r@ == normalized_name(s@),
{
    let low = to_lowercase(s);
    replace_char(low.as_str(), ' ', '_')
}

// ── Decimal numbers ────────────────────────────────────────────────────────

/// The digit character for `d` (0..=9).
pub open spec fn digit_char(d: int) -> char {
    ((d + 48) as u8) as char
}

/// The decimal spelling of a natural number (no leading zeros; "0" for zero).
pub open spec fn nat_decimal(n: nat) -> Seq<char>
    decreases n,
{
    if n < 10 {
        seq![digit_char(n as int)]
    } else {
        nat_decimal((n / 10) as nat).push(digit_char((n % 10) as int))
    }
}

/// The decimal spelling of an integer, with a leading `-` for negatives.
pub open spec fn int_decimal(n: int) -> Seq<char> {
    if n < 0 {
        seq!['-'] + nat_decimal((-n) as nat)
    } else {
        nat_decimal(n as nat)
    }
}

fn digit_to_char(d: u64) -> (c: char)
    requires
        d < 10,
    ensures
        c == digit_char(d as int),
{
    let b: u8 = (d as u8) + 48;
    b as char
}

/// The decimal spelling of `n`.
pub fn u64_to_decimal(n: u64) -> (s: String)
    ensures
        s@ == nat_decimal(n as nat),
    decreases n,
{
    if n < 10 {
        let mut s = String::new();
        push_char(&mut s, digit_to_char(n));
        s
    } else {
        let mut s = u64_to_decimal(n / 10);
        push_char(&mut s, digit_to_char(n % 10));
        s
    }
}

/// The decimal spelling of `n`, with a `-` sign for negatives.
pub fn i64_to_decimal(n: i64) -> (s: String)
    ensures
        s@ == int_decimal(n as int),
{
    if n < 0 {
        let m: u64 = if n == i64::MIN {
            9223372036854775808u64
        } else {
            (-n) as u64
        };
        let digits = u64_to_decimal(m);
        let mut s = String::new();
        push_char(&mut s, '-');
        s.append(digits.as_str());
        assert(s@ == seq!['-'] + nat_decimal(m as nat));
        s
    } else {
        u64_to_decimal(n as u64)
    }
}

/// Whether `c` is an ASCII decimal digit.
pub open spec fn is_digit(c: char) -> bool {
    '0' <= c && c <= '9'
}

/// The value of the digit character `c`.
pub open spec fn digit_value(c: char) -> int {
    c as int - '0' as int
}

/// The value of a non-empty run of decimal digits.
pub open spec fn digits_value(s: Seq<char>) -> int
    decreases s.len(),
{
    if s.len() == 0 {
        0
    } else {
        digits_value(s.drop_last()) * 10 + digit_value(s.last())
    }
}

/// Whether every character of `s` is a decimal digit.
pub open spec fn all_digits(s: Seq<char>) -> bool {
    forall|i: int| 0 <= i < s.len() ==> is_digit(#[trigger] s[i])
}

/// The integer that `str::parse::<i64>`-style decimal text denotes, if it is one:
/// an optional `+` or `-` sign followed by at least one decimal digit.
pub open spec fn decimal_value(s: Seq<char>) -> Option<int> {
    if s.len() > 0 && (s[0] == '-' || s[0] == '+') {
        let rest = s.skip(1);
        if rest.len() > 0 && all_digits(rest) {
            Some(if s[0] == '-' { -digits_value(rest) } else { digits_value(rest) })
        } else {
            None
        }
    } else if s.len() > 0 && all_digits(s) {
        Some(digits_value(s))
    } else {
        None
    }
}

proof fn lemma_digits_value_nonneg(s: Seq<char>)
    requires
        all_digits(s),
    ensures
        digits_value(s) >= 0,
    decreases s.len(),
{
    if s.len() > 0 {
        assert(all_digits(s.drop_last()));
        lemma_digits_value_nonneg(s.drop_last());
    }
}

proof fn lemma_digits_value_mono(s: Seq<char>, k: int)
    requires
        all_digits(s),
        0 <= k <= s.len(),
    ensures
        digits_value(s.take(k)) <= digits_value(s),
    decreases s.len(),
{
    if k < s.len() {
        assert(all_digits(s.drop_last()));
        lemma_digits_value_mono(s.drop_last(), k);
        assert(s.drop_last().take(k) == s.take(k));
        lemma_digits_value_nonneg(s.drop_last());
        assert(is_digit(s[s.len() - 1]));
    } else {
        assert(s.take(k) == s);
    }
}

/// Parses decimal text as an integer within `[lo, hi]`; `None` when the text is
/// not decimal or its value is out of range (as `str::parse` does for bounded
/// integer types).
pub fn parse_decimal(v: &Vec<char>, lo: i64, hi: i64) -> (r: Option<i64>)
    requires
        lo <= 0 <= hi,
    ensures
        r matches Some(x) ==> decimal_value(v@) == Some(x as int) && lo <= x <= hi,
        r is None ==> (decimal_value(v@) matches Some(x) ==> x < lo || x > hi),
{
    if v.len() == 0 {
        return None;
    }
    let neg = v[0] == '-';
    let start: usize = if v[0] == '-' || v[0] == '+' { 1 } else { 0 };
    if start >= v.len() {
        return None;
    }
    let ghost digits = v@.skip(start as int);
    let mut acc: i64 = 0;
    let mut i = start;
    while i < v.len()
        invariant
            start <= i <= v@.len(),
            start < v@.len(),
            start == 0 || start == 1,
            start == 1 <==> (v@[0] == '-' || v@[0] == '+'),
            digits == v@.skip(start as int),
            lo <= 0 <= hi,
            all_digits(v@.subrange(start as int, i as int)),
            neg ==> acc == -digits_value(v@.subrange(start as int, i as int)),
            !neg ==> acc == digits_value(v@.subrange(start as int, i as int)),
            lo <= acc <= hi,
            neg == (v@[0] == '-'),
        decreases v.len() - i,
    {
        let c = v[i];
        if !('0' <= c && c <= '9') {
            proof {
                assert(!is_digit(digits[i - start]));
                if start == 0 {
                    assert(digits == v@);
                }
            }
            return None;
        }
        let d: i64 = (c as u32 - '0' as u32) as i64;
        let ghost prev = v@.subrange(start as int, i as int);
        let ghost next = v@.subrange(start as int, i + 1);
        assert(next.drop_last() == prev);
        assert(all_digits(next));
        assert(d == digit_value(c));
        assert(digits_value(next) == digits_value(prev) * 10 + digit_value(c));
        let nv: i128 = if neg { acc as i128 * 10 - d as i128 } else { acc as i128 * 10 + d as i128 };
        if nv < lo as i128 || nv > hi as i128 {
            proof {
                if decimal_value(v@) is Some {
                    if start == 0 {
                        assert(digits == v@);
                    }
                    assert(all_digits(digits));
                    lemma_digits_value_mono(digits, (i + 1 - start) as int);
                    assert(digits.take((i + 1 - start) as int) == next);
                    lemma_digits_value_nonneg(prev);
                    if start == 1 {
                        assert(v@.skip(1) == digits);
                    }
                }
            }
            return None;
        }
        acc = nv as i64;
        i += 1;
    }
    proof {
        assert(v@.subrange(start as int, v@.len() as int) == digits);
        if start == 0 {
            assert(digits == v@);
        }
    }
    Some(acc)
}

// ── Fields separated by a character ───────────────────────────────────────

/// The positions of `c` in `s`, in increasing order.
pub open spec fn char_positions(s: Seq<char>, c: char) -> Seq<int>
    decreases s.len(),
{
    if s.len() == 0 {
        seq![]
    } else {
        let p = char_positions(s.drop_last(), c);
        if s.last() == c {
            p.push(s.len() - 1)
        } else {
            p
        }
    }
}

/// Field `k` of `s` split at every `c` (field 0 runs up to the first `c`,
/// the last field runs to the end).
pub open spec fn field(s: Seq<char>, c: char, k: int) -> Seq<char> {
    let p = char_positions(s, c);
    let start = if k == 0 { 0 } else { p[k - 1] + 1 };
    let end = if k < p.len() { p[k] } else { s.len() as int };
    s.subrange(start, end)
}

/// The positions of `c` lie in `s` and increase.
pub proof fn lemma_char_positions(s: Seq<char>, c: char)
    ensures
        forall|i: int| 0 <= i < char_positions(s, c).len() ==> 0 <= #[trigger] char_positions(s, c)[i] < s.len(),
        forall|i: int| 0 <= i < char_positions(s, c).len() ==> s[#[trigger] char_positions(s, c)[i]] == c,
        forall|i: int, j: int| 0 <= i < j < char_positions(s, c).len() ==> #[trigger] char_positions(s, c)[i] < #[trigger] char_positions(s, c)[j],
    decreases s.len(),
{
    if s.len() > 0 {
        let t = s.drop_last();
        lemma_char_positions(t, c);
        let p = char_positions(t, c);
        assert forall|i: int| 0 <= i < p.len() implies s[p[i]] == c by {
            assert(s[p[i]] == t[p[i]]);
        }
    }
}

/// The positions of `c` in `v`.
pub fn positions_of(v: &Vec<char>, c: char) -> (p: Vec<usize>)
    ensures
        p@.map_values(|x: usize| x as int) == char_positions(v@, c),
{
    let mut p: Vec<usize> = Vec::new();
    let mut i: usize = 0;
    while i < v.len()
        invariant
            i <= v@.len(),
            p@.map_values(|x: usize| x as int) == char_positions(v@.take(i as int), c),
        decreases v.len() - i,
    {
        proof {
            assert(v@.take(i + 1).drop_last() =~= v@.take(i as int));
        }
        if v[i] == c {
            p.push(i);
            proof {
                assert(p@.map_values(|x: usize| x as int) =~= char_positions(v@.take(i as int), c).push(i as int));
            }
        }
        i += 1;
    }
    proof {
        assert(v@.take(v@.len() as int) =~= v@);
    }
    p
}

/// The characters `v[from..to]`.
pub fn sub_chars(v: &Vec<char>, from: usize, to: usize) -> (r: Vec<char>)
    requires
        from <= to <= v@.len(),
    ensures
        r@ == v@.subrange(from as int, to as int),
{
    let mut r: Vec<char> = Vec::new();
    let mut i = from;
    while i < to
        invariant
            from <= i <= to <= v@.len(),
            r@ == v@.subrange(from as int, i as int),
        decreases to - i,
    {
        r.push(v[i]);
        proof {
            assert(r@ =~= v@.subrange(from as int, i + 1));
        }
        i += 1;
    }
    r
}

/// Field `k` of `v` split at `c`, given the positions `p` of `c` in `v`.
pub fn field_of(v: &Vec<char>, c: char, p: &Vec<usize>, k: usize) -> (r: Vec<char>)
    requires
        p@.map_values(|x: usize| x as int) == char_positions(v@, c),
        k <= p@.len(),
    ensures
        r@ == field(v@, c, k as int),
{
    proof {
        lemma_char_positions(v@, c);
        assert(p@.len() == char_positions(v@, c).len());
        assert forall|i: int| 0 <= i < p@.len() implies p@[i] as int == char_positions(v@, c)[i] by {
            assert(p@.map_values(|x: usize| x as int)[i] == p@[i] as int);
        }
    }
    let start: usize = if k == 0 {
        0
    } else {
        proof {
            assert(p@[k - 1] as int == char_positions(v@, c)[k - 1]);
            assert(char_positions(v@, c)[k - 1] < v@.len());
            assert(v@.len() == v.len());
        }
        p[k - 1] + 1
    };
    let end: usize = if k < p.len() { p[k] } else { v.len() };
    proof {
        if k > 0 && k < p@.len() {
            assert(char_positions(v@, c)[k - 1] < char_positions(v@, c)[k as int]);
        }
    }
    sub_chars(v, start, end)
}

/// The value of decimal text that fits in an `i64`, as `str::parse::<i64>` gives it.
pub open spec fn i64_value(s: Seq<char>) -> Option<i64> {
    match decimal_value(s) {
        Some(x) => if i64::MIN <= x <= i64::MAX { Some(x as i64) } else { None },
        None => None,
    }
}

/// Parses decimal text as an `i64`, as `str::parse::<i64>` does.
pub fn parse_i64(v: &Vec<char>) -> (r: Option<i64>)
    ensures
        r == i64_value(v@),
{
    parse_decimal(v, i64::MIN, i64::MAX)
}

} // verus!
