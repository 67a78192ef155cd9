//! Lines of source text, and the small text edits the checkers suggest.
use vstd::prelude::*;
use crate::strings::{
    char_positions, chars_of, field, field_of, first_occurrence, find_chars_from, is_prefix,
    lemma_char_positions, lemma_first_occurrence_from, occurs_at, positions_of, push_char, push_str,
    string_from_chars, string_from_range, to_owned_string, u64_to_decimal,
};

verus! {

// ── Whitespace ─────────────────────────────────────────────────────────────

/// Unicode white space, as `char::is_whitespace` defines it.
pub open spec fn white(c: char) -> bool {
    ('\u{9}' <= c && c <= '\u{d}') || c == ' ' || c == '\u{85}' || c == '\u{a0}' || c == '\u{1680}'
        || ('\u{2000}' <= c && c <= '\u{200a}') || c == '\u{2028}' || c == '\u{2029}' || c
        == '\u{202f}' || c == '\u{205f}' || c == '\u{3000}'
}

/// Whether `c` is white space (`char::is_whitespace`).
pub fn is_white_char(c: char) -> (b: bool)
    ensures
        b == white(c),
{
    is_white(c)
}

fn is_white(c: char) -> (b: bool)
    ensures
        b == white(c),
{
    ('\u{9}' <= c && c <= '\u{d}') || c == ' ' || c == '\u{85}' || c == '\u{a0}' || c == '\u{1680}'
        || ('\u{2000}' <= c && c <= '\u{200a}') || c == '\u{2028}' || c == '\u{2029}' || c
        == '\u{202f}' || c == '\u{205f}' || c == '\u{3000}'
}

/// The index of the first non-white character at or after `i`.
pub open spec fn skip_white(s: Seq<char>, i: int) -> int
    decreases s.len() - i,
{
    if 0 <= i < s.len() && white(s[i]) {
        skip_white(s, i + 1)
    } else {
        i
    }
}

/// The end of `s` once trailing white space is dropped.
pub open spec fn end_white(s: Seq<char>, j: int) -> int
    decreases j,
{
    if 0 < j <= s.len() && white(s[j - 1]) {
        end_white(s, j - 1)
    } else {
        j
    }
}

/// `s` without leading white space (`str::trim_start`).
pub open spec fn trim_start(s: Seq<char>) -> Seq<char> {
    s.skip(skip_white(s, 0))
}

/// `s` without leading or trailing white space (`str::trim`).
pub open spec fn trim(s: Seq<char>) -> Seq<char> {
    let a = skip_white(s, 0);
    let b = end_white(s, s.len() as int);
    if a < b {
        s.subrange(a, b)
    } else {
        seq![]
    }
}

pub(crate) proof fn lemma_skip_white(s: Seq<char>, i: int)
    requires
        0 <= i <= s.len(),
    ensures
        i <= skip_white(s, i) <= s.len(),
        forall|k: int| i <= k < skip_white(s, i) ==> white(#[trigger] s[k]),
        skip_white(s, i) < s.len() ==> !white(s[skip_white(s, i)]),
    decreases s.len() - i,
{
    if i < s.len() && white(s[i]) {
        lemma_skip_white(s, i + 1);
    }
}

pub(crate) proof fn lemma_end_white(s: Seq<char>, j: int)
    requires
        0 <= j <= s.len(),
    ensures
        0 <= end_white(s, j) <= j,
        forall|k: int| end_white(s, j) <= k < j ==> white(#[trigger] s[k]),
        end_white(s, j) > 0 ==> !white(s[end_white(s, j) - 1]),
    decreases j,
{
    if 0 < j && white(s[j - 1]) {
        lemma_end_white(s, j - 1);
    }
}

pub(crate) fn first_non_white(v: &Vec<char>, from: usize) -> (r: usize)
    requires
        from <= v@.len(),
    ensures
        r == skip_white(v@, from as int),
        from <= r <= v@.len(),
{
    proof {
        lemma_skip_white(v@, from as int);
    }
    let mut i = from;
    while i < v.len() && is_white(v[i])
        invariant
            from <= i <= v@.len(),
            skip_white(v@, i as int) == skip_white(v@, from as int),
        decreases v@.len() - i,
    {
        i += 1;
    }
    i
}

pub(crate) fn last_non_white_end(v: &Vec<char>) -> (r: usize)
    ensures
        r == end_white(v@, v@.len() as int),
        r <= v@.len(),
{
    proof {
        lemma_end_white(v@, v@.len() as int);
    }
    let mut j = v.len();
    while j > 0 && is_white(v[j - 1])
        invariant
            j <= v@.len(),
            end_white(v@, j as int) == end_white(v@, v@.len() as int),
        decreases j,
    {
        j -= 1;
    }
    j
}

/// Whether the text is empty once trimmed.
fn trims_to_empty(v: &Vec<char>, from: usize, to: usize) -> (b: bool)
    requires
        from <= to <= v@.len(),
    ensures
        b == (trim(v@.subrange(from as int, to as int)).len() == 0),
{
    let sub = crate::strings::sub_chars(v, from, to);
    let a = first_non_white(&sub, 0);
    let b = last_non_white_end(&sub);
    proof {
        lemma_skip_white(sub@, 0);
        lemma_end_white(sub@, sub@.len() as int);
        if a < b {
            assert(sub@.subrange(a as int, b as int).len() > 0);
        }
    }
    !(a < b)
}

// ── Lines ──────────────────────────────────────────────────────────────────

proof fn lemma_positions_len(s: Seq<char>, c: char)
    ensures
        char_positions(s, c).len() <= s.len(),
        s.len() > 0 && s.last() != c ==> char_positions(s, c).len() < s.len(),
    decreases s.len(),
{
    if s.len() > 0 {
        lemma_positions_len(s.drop_last(), c);
    }
}

/// The number of lines of `s` as `str::lines` yields them: a final line
/// ending is optional and does not start another line.
pub open spec fn line_count(s: Seq<char>) -> int {
    let n = char_positions(s, '\n').len() as int;
    if s.len() == 0 {
        0
    } else if s.last() == '\n' {
        n
    } else {
        n + 1
    }
}

/// Line `k` (0-based) of `s`, without its line ending (`\n` or `\r\n`).
pub open spec fn line_at(s: Seq<char>, k: int) -> Seq<char> {
    let f = field(s, '\n', k);
    if k < char_positions(s, '\n').len() && f.len() > 0 && f.last() == '\r' {
        f.drop_last()
    } else {
        f
    }
}

pub(crate) fn line_of(v: &Vec<char>, p: &Vec<usize>, k: usize) -> (r: Vec<char>)
    requires
        p@.map_values(|x: usize| x as int) == char_positions(v@, '\n'),
        k <= p@.len(),
    ensures
        r@ == line_at(v@, k as int),
{
    let f = field_of(v, '\n', p, k);
    if k < p.len() && f.len() > 0 && f[f.len() - 1] == '\r' {
        crate::strings::sub_chars(&f, 0, f.len() - 1)
    } else {
        f
    }
}

/// Line `line_no` (1-based) of `text`, or `None` for 0 or past the last line.
pub fn nth_source_line(text: &str, line_no: usize) -> (r: Option<String>)
    ensures
        match r {
            Some(l) => 1 <= line_no <= line_count(text@) && l@ == line_at(text@, line_no - 1),
            None => line_no == 0 || line_no > line_count(text@),
        },
{
    if line_no == 0 {
        return None;
    }
    let v = chars_of(text);
    let p = positions_of(&v, '\n');
    let count: usize = if v.len() == 0 {
        0
    } else if v[v.len() - 1] == '\n' {
        p.len()
    } else {
        proof {
            lemma_char_positions(v@, '\n');
        }
        assert(p@.len() == char_positions(v@, '\n').len());
        proof {
            lemma_positions_len(v@, '\n');
        }
        p.len() + 1
    };
    if line_no - 1 < count {
        proof {
            if !(v@.len() > 0 && v@.last() != '\n') {
                assert(line_no - 1 < p@.len());
            }
        }
        let l = line_of(&v, &p, line_no - 1);
        Some(string_from_chars(&l))
    } else {
        None
    }
}

/// The 1-based line of `src` that declares `[trigger,name]` (leading white
/// space ignored, a parameter list may follow).
pub open spec fn header_line_spec(src: Seq<char>, trigger: Seq<char>, name: Seq<char>) -> Option<int> {
    header_line_from(src, "["@ + trigger + ","@ + name + "]"@, 0)
}

/// The first line at or after `k` whose trimmed text starts with `prefix`, 1-based.
pub open spec fn header_line_from(src: Seq<char>, prefix: Seq<char>, k: int) -> Option<int>
    decreases line_count(src) - k,
{
    if k < 0 || k >= line_count(src) {
        None
    } else if is_prefix(prefix, trim_start(line_at(src, k))) {
        Some(k + 1)
    } else {
        header_line_from(src, prefix, k + 1)
    }
}

/// The 1-based line of `src` that declares `[trigger,name]`.
pub fn find_header_line(src: &str, trigger: &str, name: &str) -> (r: Option<usize>)
    ensures
        match r {
            Some(l) => header_line_spec(src@, trigger@, name@) == Some(l as int),
            None => header_line_spec(src@, trigger@, name@) is None,
        },
{
    let mut prefix = to_owned_string("[");
    push_str(&mut prefix, trigger);
    push_str(&mut prefix, ",");
    push_str(&mut prefix, name);
    push_str(&mut prefix, "]");
    let pv = chars_of(prefix.as_str());
    let v = chars_of(src);
    let p = positions_of(&v, '\n');
    proof {
        lemma_positions_len(v@, '\n');
        assert(pv@ =~= "["@ + trigger@ + ","@ + name@ + "]"@);
    }
    let count: usize = if v.len() == 0 {
        0
    } else if v[v.len() - 1] == '\n' {
        p.len()
    } else {
        p.len() + 1
    };
    let mut k: usize = 0;
    while k < count
        invariant
            k <= count,
            count as int == line_count(v@),
            count <= p@.len() + 1,
            p@.map_values(|x: usize| x as int) == char_positions(v@, '\n'),
            pv@ == "["@ + trigger@ + ","@ + name@ + "]"@,
            header_line_from(v@, pv@, k as int) == header_line_from(v@, pv@, 0),
            v@ == src@,
        decreases count - k,
    {
        let l = line_of(&v, &p, k);
        let s = first_non_white(&l, 0);
        let t = crate::strings::sub_chars(&l, s, l.len());
        let ok = pv.len() <= t.len() && crate::strings::chars_occur_at(&t, &pv, 0);
        proof {
            assert(t@ =~= trim_start(line_at(v@, k as int)));
        }
        if ok {
            proof {
                assert(t@.take(pv@.len() as int) =~= pv@);
            }
            return Some(k + 1);
        }
        proof {
            if is_prefix(pv@, trim_start(line_at(v@, k as int))) {
                assert(t@.take(pv@.len() as int) == pv@);
            }
        }
        k += 1;
    }
    None
}

// ── Script names ───────────────────────────────────────────────────────────

/// The name half of a full script name `[trigger,name]`: leading `[`s and
/// trailing `]`s dropped, then what follows the first `,`.
pub open spec fn short_name_spec(full: Seq<char>) -> Option<Seq<char>> {
    let a = lead_count(full, '[', 0);
    let b = trail_end(full, ']', full.len() as int);
    let core = if a < b { full.subrange(a, b) } else { seq![] };
    match crate::strings::index_of_char(core, ',') {
        Some(i) => Some(core.skip(i + 1)),
        None => None,
    }
}

/// The index of the first character at or after `i` that is not `c`.
pub open spec fn lead_count(s: Seq<char>, c: char, i: int) -> int
    decreases s.len() - i,
{
    if 0 <= i < s.len() && s[i] == c {
        lead_count(s, c, i + 1)
    } else {
        i
    }
}

/// The end of `s[..j]` once trailing `c`s are dropped.
pub open spec fn trail_end(s: Seq<char>, c: char, j: int) -> int
    decreases j,
{
    if 0 < j <= s.len() && s[j - 1] == c {
        trail_end(s, c, j - 1)
    } else {
        j
    }
}

/// The name half of a full script name (see [`short_name_spec`]).
pub fn short_script_name(full_name: &str) -> (r: Option<String>)
    ensures
        match r {
            Some(n) => short_name_spec(full_name@) == Some(n@),
            None => short_name_spec(full_name@) is None,
        },
{
    let v = chars_of(full_name);
    let mut a: usize = 0;
    while a < v.len() && v[a] == '['
        invariant
            a <= v@.len(),
            lead_count(v@, '[', a as int) == lead_count(v@, '[', 0),
        decreases v@.len() - a,
    {
        a += 1;
    }
    let mut b: usize = v.len();
    while b > 0 && v[b - 1] == ']'
        invariant
            b <= v@.len(),
            trail_end(v@, ']', b as int) == trail_end(v@, ']', v@.len() as int),
        decreases b,
    {
        b -= 1;
    }
    let core = if a < b { crate::strings::sub_chars(&v, a, b) } else { Vec::new() };
    proof {
        if !(a < b) {
            assert(core@ =~= Seq::<char>::empty());
        }
    }
    match crate::strings::find_char(&core, ',') {
        Some(i) => {
            assert(i < core.len());
            let rest = string_from_range(&core, i + 1, core.len());
            proof {
                assert(rest@ == core@.skip(i + 1));
            }
            Some(rest)
        },
        None => None,
    }
}

// ── Corruptor lists ────────────────────────────────────────────────────────

/// How one corruptor is named: `` `name` at line N ``, or `` `name` `` when
/// its line is unknown (0).
pub open spec fn corruptor_text(name: Seq<char>, line: usize) -> Seq<char> {
    if line > 0 {
        "`"@ + name + "` at line "@ + crate::strings::nat_decimal(line as nat)
    } else {
        "`"@ + name + "`"@
    }
}

/// The clause naming the calls that may supersede a pointer: the first
/// three corruptors joined in English, a count of the rest, or a generic
/// phrase when there are none.
pub open spec fn corruptors_clause(c: Seq<(Seq<char>, usize)>) -> Seq<char> {
    if c.len() == 0 {
        "calls a delay or subroutine that may supersede it"@
    } else {
        let t0 = corruptor_text(c[0].0, c[0].1);
        let joined = if c.len() == 1 {
            t0
        } else if c.len() == 2 {
            t0 + " and "@ + corruptor_text(c[1].0, c[1].1)
        } else {
            t0 + ", "@ + corruptor_text(c[1].0, c[1].1) + ", and "@ + corruptor_text(c[2].0, c[2].1)
        };
        let suffix = if c.len() > 3 {
            " (and "@ + crate::strings::nat_decimal((c.len() - 3) as nat) + " more)"@
        } else {
            seq![]
        };
        "calls "@ + joined + suffix + " which may supersede it"@
    }
}

fn corruptor_piece(name: &String, line: usize) -> (r: String)
    ensures
        r@ == corruptor_text(name@, line),
{
    let mut s = to_owned_string("`");
    push_str(&mut s, name.as_str());
    if line > 0 {
        push_str(&mut s, "` at line ");
        let d = u64_to_decimal(line as u64);
        push_str(&mut s, d.as_str());
    } else {
        push_str(&mut s, "`");
    }
    s
}

/// The clause naming the corruptors (see [`corruptors_clause`]).
pub fn format_corruptors(corruptors: &[(String, usize)]) -> (r: String)
    ensures
        r@ == corruptors_clause(corruptors@.map_values(|p: (String, usize)| (p.0@, p.1))),
{
    let ghost views = corruptors@.map_values(|p: (String, usize)| (p.0@, p.1));
    if corruptors.len() == 0 {
        return to_owned_string("calls a delay or subroutine that may supersede it");
    }
    let mut out = to_owned_string("calls ");
    let first = corruptor_piece(&corruptors[0].0, corruptors[0].1);
    push_str(&mut out, first.as_str());
    if corruptors.len() == 2 {
        push_str(&mut out, " and ");
        let second = corruptor_piece(&corruptors[1].0, corruptors[1].1);
        push_str(&mut out, second.as_str());
    } else if corruptors.len() >= 3 {
        push_str(&mut out, ", ");
        let second = corruptor_piece(&corruptors[1].0, corruptors[1].1);
        push_str(&mut out, second.as_str());
        push_str(&mut out, ", and ");
        let third = corruptor_piece(&corruptors[2].0, corruptors[2].1);
        push_str(&mut out, third.as_str());
    }
    if corruptors.len() > 3 {
        push_str(&mut out, " (and ");
        let d = u64_to_decimal((corruptors.len() - 3) as u64);
        push_str(&mut out, d.as_str());
        push_str(&mut out, " more)");
    }
    push_str(&mut out, " which may supersede it");
    out
}

// ── Parentheses ────────────────────────────────────────────────────────────

/// The index of the `)` that closes the `(` at index 0, scanning from `i`
/// at nesting depth `depth`.
pub open spec fn close_from(s: Seq<char>, i: int, depth: int) -> Option<int>
    decreases s.len() - i,
{
    if i < 0 || i >= s.len() {
        None
    } else if s[i] == '(' {
        close_from(s, i + 1, depth + 1)
    } else if s[i] == ')' {
        if depth - 1 == 0 {
            Some(i)
        } else {
            close_from(s, i + 1, depth - 1)
        }
    } else {
        close_from(s, i + 1, depth)
    }
}

/// The character index of the `)` matching the `(` that `s` starts with.
pub open spec fn close_paren(s: Seq<char>) -> Option<int> {
    if s.len() > 0 && s[0] == '(' {
        close_from(s, 0, 0)
    } else {
        None
    }
}

/// The number of UTF-8 bytes of `c`.
pub open spec fn utf8_len(c: char) -> int {
    if (c as u32) < 0x80 {
        1
    } else if (c as u32) < 0x800 {
        2
    } else if (c as u32) < 0x10000 {
        3
    } else {
        4
    }
}

/// The number of UTF-8 bytes of `s`.
pub open spec fn utf8_count(s: Seq<char>) -> int
    decreases s.len(),
{
    if s.len() == 0 {
        0
    } else {
        utf8_count(s.drop_last()) + utf8_len(s.last())
    }
}

fn close_index(v: &Vec<char>) -> (r: Option<usize>)
    ensures
        match r {
            Some(i) => close_paren(v@) == Some(i as int) && 1 <= i < v@.len(),
            None => close_paren(v@) is None,
        },
{
    if v.len() == 0 || v[0] != '(' {
        return None;
    }
    let mut depth: i128 = 0;
    let mut i: usize = 0;
    while i < v.len()
        invariant
            i <= v@.len(),
            v@.len() > 0 && v@[0] == '(',
            0 <= depth <= i,
            i > 0 ==> depth >= 1,
            close_from(v@, i as int, depth as int) == close_from(v@, 0, 0),
        decreases v@.len() - i,
    {
        let c = v[i];
        if c == '(' {
            depth = depth + 1;
        } else if c == ')' {
            if depth - 1 == 0 {
                return Some(i);
            }
            depth = depth - 1;
        }
        i += 1;
    }
    None
}

fn byte_offset(v: &Vec<char>, n: usize) -> (r: u128)
    requires
        n <= v@.len(),
    ensures
        r == utf8_count(v@.take(n as int)),
{
    let mut total: u128 = 0;
    let mut i: usize = 0;
    while i < n
        invariant
            i <= n <= v@.len(),
            total == utf8_count(v@.take(i as int)),
            total <= 4 * i,
        decreases n - i,
    {
        proof {
            assert(v@.take(i + 1).drop_last() =~= v@.take(i as int));
        }
        let c = v[i];
        let l: u128 = if (c as u32) < 0x80 {
            1
        } else if (c as u32) < 0x800 {
            2
        } else if (c as u32) < 0x10000 {
            3
        } else {
            4
        };
        total = total + l;
        i += 1;
    }
    total
}

proof fn lemma_utf8_count_mono(s: Seq<char>, k: int)
    requires
        0 <= k <= s.len(),
    ensures
        utf8_count(s.take(k)) <= utf8_count(s),
    decreases s.len() - k,
{
    if k < s.len() {
        lemma_utf8_count_mono(s, k + 1);
        assert(s.take(k + 1).drop_last() =~= s.take(k));
    } else {
        assert(s.take(k) =~= s);
    }
}

/// The byte offset of the `)` matching the `(` that `s` starts with;
/// `None` when `s` does not start with `(` or it is never closed.
pub fn find_matching_close_paren(s: &str) -> (r: Option<usize>)
    ensures
        r matches Some(b) ==> close_paren(s@) matches Some(i) && b == utf8_count(s@.take(i)),
        r is None ==> close_paren(s@) is None || (close_paren(s@) matches Some(i) && utf8_count(
            s@.take(i),
        ) > usize::MAX),
{
    let v = chars_of(s);
    match close_index(&v) {
        Some(i) => {
            let b = byte_offset(&v, i);
            if b <= usize::MAX as u128 {
                Some(b as usize)
            } else {
                None
            }
        },
        None => None,
    }
}

// ── Call and header rewrites ───────────────────────────────────────────────

/// `line` with `arg` added as the last argument of the parenthesised list
/// that starts at index `open`; `None` when that list is never closed.
pub open spec fn add_to_list(line: Seq<char>, open: int, arg: Seq<char>) -> Option<Seq<char>> {
    match close_paren(line.skip(open)) {
        None => None,
        Some(c) => {
            let close = open + c;
            let inside = trim(line.subrange(open + 1, close));
            Some(line.take(close) + (if inside.len() == 0 { arg } else { ", "@ + arg }) + line.skip(close))
        },
    }
}

/// Whether `t`, once trimmed at the start, begins with `(`.
pub open spec fn opens_list(t: Seq<char>) -> bool {
    trim_start(t).len() > 0 && trim_start(t)[0] == '('
}

/// The caller line with `ptr_cmd` passed as one more argument of the first
/// call `<arrow><callee>`: `(ptr_cmd)` added where the call has no argument
/// list, `ptr_cmd` appended inside the list where it has one.
pub open spec fn call_site_rewrite(line: Seq<char>, arrow: Seq<char>, callee: Seq<char>, ptr_cmd: Seq<char>) -> Option<Seq<char>> {
    let needle = arrow + callee;
    match first_occurrence(line, needle) {
        None => None,
        Some(start) => {
            let after = start + needle.len();
            let tail = line.skip(after);
            if tail.len() == 0 || tail[0] == ';' || tail[0] == '\r' || tail[0] == '\n' || trim_start(tail).len() == 0 {
                Some(line.take(after) + "("@ + ptr_cmd + ")"@ + tail)
            } else if opens_list(tail) {
                match crate::strings::index_of_char(tail, '(') {
                    None => None,
                    Some(o) => add_to_list(line, after + o, ptr_cmd),
                }
            } else {
                None
            }
        },
    }
}

/// The header line with `<param_type> <param_name>` added as the last
/// parameter of `[...,callee]`: a new parameter list where it has none, else
/// appended inside its first list.
pub open spec fn header_rewrite(line: Seq<char>, callee: Seq<char>, param_type: Seq<char>, param_name: Seq<char>) -> Option<Seq<char>> {
    let needle = ","@ + callee + "]"@;
    let added = param_type + " "@ + param_name;
    match first_occurrence(line, needle) {
        None => None,
        Some(e) => {
            let after = e + needle.len();
            let rest = line.skip(after);
            if !opens_list(rest) {
                Some(line.take(after) + "("@ + added + ")"@ + rest)
            } else {
                match crate::strings::index_of_char(rest, '(') {
                    None => None,
                    Some(o) => add_to_list(line, after + o, added),
                }
            }
        },
    }
}

fn opens_list_at(v: &Vec<char>, from: usize) -> (b: bool)
    requires
        from <= v@.len(),
    ensures
        b == opens_list(v@.skip(from as int)),
{
    let s = first_non_white(v, from);
    proof {
        lemma_skip_white(v@, from as int);
        lemma_skip_white(v@.skip(from as int), 0);
        assert forall|k: int| 0 <= k <= v@.len() - from implies skip_white(v@.skip(from as int), k) == skip_white(v@, from + k) - from by {
            lemma_skip_shift(v@, from as int, k);
        }
        assert(trim_start(v@.skip(from as int)) =~= v@.skip(s as int));
    }
    s < v.len() && v[s] == '('
}

proof fn lemma_skip_shift(s: Seq<char>, from: int, k: int)
    requires
        0 <= from <= s.len(),
        0 <= k <= s.len() - from,
    ensures
        skip_white(s.skip(from), k) == skip_white(s, from + k) - from,
    decreases s.len() - from - k,
{
    if k < s.len() - from {
        lemma_skip_shift(s, from, k + 1);
    }
}

/// Adds `arg` to the list opening at `open` (see [`add_to_list`]).
fn add_to_list_exec(v: &Vec<char>, open: usize, arg: &str) -> (r: Option<String>)
    requires
        open <= v@.len(),
    ensures
        match r {
            Some(s) => add_to_list(v@, open as int, arg@) == Some(s@),
            None => add_to_list(v@, open as int, arg@) is None,
        },
{
    let suffix = crate::strings::sub_chars(v, open, v.len());
    match close_index(&suffix) {
        None => None,
        Some(c) => {
            let close = open + c;
            let empty = trims_to_empty(v, open + 1, close);
            let mut out = string_from_range(v, 0, close);
            if empty {
                push_str(&mut out, arg);
            } else {
                push_str(&mut out, ", ");
                push_str(&mut out, arg);
            }
            let tail = string_from_range(v, close, v.len());
            push_str(&mut out, tail.as_str());
            proof {
                assert(suffix@ =~= v@.skip(open as int));
            }
            Some(out)
        },
    }
}

/// The caller line with `ptr_cmd` passed to the call (see [`call_site_rewrite`]).
pub fn rewrite_call_site_arg(line: &str, arrow: &str, callee_short: &str, ptr_cmd: &str) -> (r: Option<String>)
    ensures
        match r {
            Some(s) => call_site_rewrite(line@, arrow@, callee_short@, ptr_cmd@) == Some(s@),
            None => call_site_rewrite(line@, arrow@, callee_short@, ptr_cmd@) is None,
        },
{
    let v = chars_of(line);
    let mut needle = to_owned_string(arrow);
    push_str(&mut needle, callee_short);
    let nv = chars_of(needle.as_str());
    let found = find_chars_from(&v, &nv, 0);
    let start = match found {
        Some(s) => s,
        None => {
            return None;
        },
    };
    assert(start + nv@.len() <= v@.len());
    assert(v@.len() == v.len());
    let n = nv.len();
    let after = start + n;
    let tail = crate::strings::sub_chars(&v, after, v.len());
    proof {
        assert(tail@ =~= v@.skip(after as int));
    }
    let ts = first_non_white(&tail, 0);
    proof {
        lemma_skip_white(tail@, 0);
    }
    if tail.len() == 0 || tail[0] == ';' || tail[0] == '\r' || tail[0] == '\n' || ts >= tail.len() {
        let mut out = string_from_range(&v, 0, after);
        push_str(&mut out, "(");
        push_str(&mut out, ptr_cmd);
        push_str(&mut out, ")");
        let t = string_from_chars(&tail);
        push_str(&mut out, t.as_str());
        return Some(out);
    }
    if opens_list_at(&v, after) {
        return match crate::strings::find_char(&tail, '(') {
            None => None,
            Some(o) => add_to_list_exec(&v, after + o, ptr_cmd),
        };
    }
    None
}

/// The header line with a parameter added (see [`header_rewrite`]).
pub fn rewrite_header_add_param(line: &str, callee_short: &str, param_type: &str, param_name: &str) -> (r: Option<String>)
    ensures
        match r {
            Some(s) => header_rewrite(line@, callee_short@, param_type@, param_name@) == Some(s@),
            None => header_rewrite(line@, callee_short@, param_type@, param_name@) is None,
        },
{
    let v = chars_of(line);
    let mut needle = to_owned_string(",");
    push_str(&mut needle, callee_short);
    push_str(&mut needle, "]");
    let nv = chars_of(needle.as_str());
    let mut added = to_owned_string(param_type);
    push_str(&mut added, " ");
    push_str(&mut added, param_name);
    let found = find_chars_from(&v, &nv, 0);
    let e = match found {
        Some(e) => e,
        None => {
            return None;
        },
    };
    assert(e + nv@.len() <= v@.len());
    assert(v@.len() == v.len());
    let n = nv.len();
    let after = e + n;
    let rest = crate::strings::sub_chars(&v, after, v.len());
    proof {
        assert(rest@ =~= v@.skip(after as int));
    }
    if !opens_list_at(&v, after) {
        let mut out = string_from_range(&v, 0, after);
        push_str(&mut out, "(");
        push_str(&mut out, added.as_str());
        push_str(&mut out, ")");
        let t = string_from_chars(&rest);
        push_str(&mut out, t.as_str());
        return Some(out);
    }
    match crate::strings::find_char(&rest, '(') {
        None => None,
        Some(o) => add_to_list_exec(&v, after + o, added.as_str()),
    }
}

// ── Whole-text helpers ─────────────────────────────────────────────────────

/// The characters of `v` without leading and trailing white space.
pub fn trim_chars(v: &Vec<char>) -> (r: Vec<char>)
    ensures
        r@ == trim(v@),
{
    let a = first_non_white(v, 0);
    let b = last_non_white_end(v);
    proof {
        lemma_end_white(v@, v@.len() as int);
    }
    if a < b {
        crate::strings::sub_chars(v, a, b)
    } else {
        Vec::new()
    }
}

/// `s` without leading and trailing white space (`str::trim`).
pub fn trim_str(s: &str) -> (r: String)
    ensures
        r@ == trim(s@),
{
    let v = chars_of(s);
    let t = trim_chars(&v);
    string_from_chars(&t)
}

/// The lines of `text` as `str::lines` yields them.
pub open spec fn text_lines(text: Seq<char>) -> Seq<Seq<char>> {
    Seq::new(line_count(text) as nat, |k: int| line_at(text, k))
}

/// The lines of `text` (see [`text_lines`]), each as characters.
pub fn lines_of(text: &str) -> (r: Vec<Vec<char>>)
    ensures
        r@.len() == text_lines(text@).len(),
        forall|k: int| 0 <= k < r@.len() ==> (#[trigger] r@[k])@ == text_lines(text@)[k],
{
    let v = chars_of(text);
    let p = positions_of(&v, '\n');
    proof {
        lemma_char_positions(v@, '\n');
        lemma_positions_len(v@, '\n');
    }
    assert(p@.len() == char_positions(v@, '\n').len());
    let count: usize = if v.len() == 0 {
        0
    } else if v[v.len() - 1] == '\n' {
        p.len()
    } else {
        p.len() + 1
    };
    assert(count == line_count(v@));
    let mut out: Vec<Vec<char>> = Vec::new();
    let mut k: usize = 0;
    while k < count
        invariant
            k <= count,
            count == line_count(v@),
            count <= p@.len() + 1,
            v@ == text@,
            p@.map_values(|x: usize| x as int) == char_positions(v@, '\n'),
            out@.len() == k,
            forall|j: int| 0 <= j < k ==> (#[trigger] out@[j])@ == line_at(v@, j),
        decreases count - k,
    {
        let l = line_of(&v, &p, k);
        out.push(l);
        k += 1;
    }
    out
}

} // verus!
