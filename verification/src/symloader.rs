//! Reading the symbol tables that scripts compile against: pack files
//! (`id=name` per line), constant and variable configs, db tables, and the
//! command signatures of `engine.rs2`. Every function here works on text
//! already read; finding and reading the files is the caller's business.
use vstd::prelude::*;
use crate::source_text::{
    end_white, first_non_white, last_non_white_end, lines_of, skip_white, text_lines, trim, trim_chars,
};
use crate::strings::{
    char_positions, chars_of, decimal_value, field, field_of, find_char, find_chars_from,
    first_occurrence_from, index_of_char, positions_of, string_from_chars, sub_chars,
};
use crate::symbol::{trigger_key, KindView, SymbolRegistry, SymbolView};
use crate::strmap::StrMap;
use crate::types::Type;

verus! {

// ── Pack lines ─────────────────────────────────────────────────────────────

/// The value of decimal text that fits in an `i32`, as `str::parse::<i32>` gives it.
pub open spec fn i32_value(s: Seq<char>) -> Option<i32> {
    match decimal_value(s) {
        Some(x) => if i32::MIN <= x <= i32::MAX {
            Some(x as i32)
        } else {
            None
        },
        None => None,
    }
}

/// The value of decimal text that fits in a `u16`, as `str::parse::<u16>`
/// gives it (a leading `-` is refused, even before zero).
pub open spec fn u16_value(s: Seq<char>) -> Option<u16> {
    if s.len() > 0 && s[0] == '-' {
        None
    } else {
        match decimal_value(s) {
            Some(x) => if 0 <= x <= u16::MAX {
                Some(x as u16)
            } else {
                None
            },
            None => None,
        }
    }
}

/// Parses decimal text as an `i32`.
pub fn parse_i32(v: &Vec<char>) -> (r: Option<i32>)
    ensures
        r == i32_value(v@),
{
    match crate::strings::parse_decimal(v, -2147483648i64, 2147483647i64) {
        Some(x) => Some(x as i32),
        None => None,
    }
}

/// Parses decimal text as a `u16`.
pub fn parse_u16(v: &Vec<char>) -> (r: Option<u16>)
    ensures
        r == u16_value(v@),
{
    if v.len() > 0 && v[0] == '-' {
        return None;
    }
    match crate::strings::parse_decimal(v, 0i64, 65535i64) {
        Some(x) => Some(x as u16),
        None => None,
    }
}

/// The two sides of a pack line: the text before the first `=` of the
/// trimmed line, and the trimmed text after it. `None` for a blank line or
/// one without `=`.
pub open spec fn pack_fields(line: Seq<char>) -> Option<(Seq<char>, Seq<char>)> {
    let t = trim(line);
    if t.len() == 0 {
        None
    } else {
        match index_of_char(t, '=') {
            Some(i) => Some((t.take(i), trim(t.skip(i + 1)))),
            None => None,
        }
    }
}

/// The entry of a pack line `id=name`: its integer id and non-empty name.
pub open spec fn pack_entry(line: Seq<char>) -> Option<(i32, Seq<char>)> {
    match pack_fields(line) {
        Some((id, name)) => match i32_value(id) {
            Some(v) => if name.len() > 0 {
                Some((v, name))
            } else {
                None
            },
            None => None,
        },
        None => None,
    }
}

/// The entries of the pack lines `lines`, in order.
pub open spec fn pack_entries(lines: Seq<Seq<char>>) -> Seq<(i32, Seq<char>)>
    decreases lines.len(),
{
    if lines.len() == 0 {
        seq![]
    } else {
        let prev = pack_entries(lines.drop_last());
        match pack_entry(lines.last()) {
            Some(e) => prev.push(e),
            None => prev,
        }
    }
}

fn pack_fields_of(line: &Vec<char>) -> (r: Option<(Vec<char>, Vec<char>)>)
    ensures
        match r {
            Some((a, b)) => pack_fields(line@) == Some((a@, b@)),
            None => pack_fields(line@) is None,
        },
{
    let t = trim_chars(line);
    if t.len() == 0 {
        return None;
    }
    match find_char(&t, '=') {
        Some(i) => {
            let a = sub_chars(&t, 0, i);
            let rest = sub_chars(&t, i + 1, t.len());
            let b = trim_chars(&rest);
            proof {
                assert(a@ == t@.take(i as int));
                assert(rest@ == t@.skip(i + 1));
            }
            Some((a, b))
        },
        None => None,
    }
}

fn pack_entry_of(line: &Vec<char>) -> (r: Option<(i32, Vec<char>)>)
    ensures
        match r {
            Some((id, name)) => pack_entry(line@) == Some((id, name@)),
            None => pack_entry(line@) is None,
        },
{
    match pack_fields_of(line) {
        Some((id_text, name)) => match parse_i32(&id_text) {
            Some(id) => if name.len() > 0 {
                Some((id, name))
            } else {
                None
            },
            None => None,
        },
        None => None,
    }
}

proof fn lemma_take_step<A>(s: Seq<A>, k: int)
    requires
        0 <= k < s.len(),
    ensures
        s.take(k + 1).drop_last() == s.take(k),
        s.take(k + 1).last() == s[k],
{
    assert(s.take(k + 1).drop_last() =~= s.take(k));
}

// ── command.pack, var packs ────────────────────────────────────────────────

/// The view of a command registered from `command.pack`: no parameters and
/// no results until `engine.rs2` supplies them.
pub open spec fn pack_command(opcode: i32, name: Seq<char>) -> SymbolView {
    SymbolView { name, kind: KindView::Command { opcode, param_types: seq![], return_types: seq![] } }
}

/// `m` with the commands of `entries` registered in order.
pub open spec fn with_commands(m: Map<Seq<char>, SymbolView>, entries: Seq<(i32, Seq<char>)>) -> Map<Seq<char>, SymbolView>
    decreases entries.len(),
{
    if entries.len() == 0 {
        m
    } else {
        let e = entries.last();
        with_commands(m, entries.drop_last()).insert(e.1, pack_command(e.0, e.1))
    }
}

/// Registers the commands of `command.pack` (`opcode=name` per line).
pub fn load_commands(registry: &mut SymbolRegistry, text: &str)
    ensures
        final(registry).command_map() == with_commands(old(registry).command_map(), pack_entries(text_lines(text@))),
        final(registry).entity_map() == old(registry).entity_map(),
        final(registry).script_map() == old(registry).script_map(),
        final(registry).interface_map() == old(registry).interface_map(),
        final(registry).component_map() == old(registry).component_map(),
        final(registry).game_var_map() == old(registry).game_var_map(),
        final(registry).type_char_map() == old(registry).type_char_map(),
        final(registry).preloaded_map() == old(registry).preloaded_map(),
{
    let lines = lines_of(text);
    let ghost ls = text_lines(text@);
    let mut k: usize = 0;
    while k < lines.len()
        invariant
            registry.interface_map() == old(registry).interface_map(),
            registry.component_map() == old(registry).component_map(),
            registry.game_var_map() == old(registry).game_var_map(),
            registry.type_char_map() == old(registry).type_char_map(),
            registry.preloaded_map() == old(registry).preloaded_map(),
            k <= lines@.len(),
            lines@.len() == ls.len(),
            forall|j: int| 0 <= j < lines@.len() ==> (#[trigger] lines@[j])@ == ls[j],
            registry.command_map() == with_commands(old(registry).command_map(), pack_entries(ls.take(k as int))),
            registry.entity_map() == old(registry).entity_map(),
            registry.script_map() == old(registry).script_map(),
        decreases lines@.len() - k,
    {
        proof {
            lemma_take_step(ls, k as int);
        }
        let ghost prev = pack_entries(ls.take(k as int));
        if let Some((opcode, name)) = pack_entry_of(&lines[k]) {
            let params: Vec<Type> = Vec::new();
            let results: Vec<Type> = Vec::new();
            registry.register_command(string_from_chars(&name), opcode, params, results);
            proof {
                assert(params@ == Seq::<Type>::empty());
                assert(results@ == Seq::<Type>::empty());
                assert(pack_entries(ls.take(k + 1)) == prev.push((opcode, name@)));
                assert(prev.push((opcode, name@)).drop_last() == prev);
            }
        } else {
            assert(pack_entries(ls.take(k + 1)) == prev);
        }
        k += 1;
    }
    assert(ls.take(ls.len() as int) == ls);
}

/// The view of a game variable registered from a var pack: `int` until its
/// config says otherwise.
pub open spec fn pack_var(name: Seq<char>, id: i32, category: Seq<char>) -> SymbolView {
    SymbolView { name, kind: KindView::GameVar { var_type: Type::Int, var_id: id, category } }
}

/// `m` with the variables of `entries` registered in order, each under its
/// name and under its `.`-prefixed secondary name.
pub open spec fn with_vars(m: Map<Seq<char>, SymbolView>, entries: Seq<(i32, Seq<char>)>, category: Seq<char>) -> Map<Seq<char>, SymbolView>
    decreases entries.len(),
{
    if entries.len() == 0 {
        m
    } else {
        let e = entries.last();
        let dotted = seq!['.'] + e.1;
        with_vars(m, entries.drop_last(), category).insert(dotted, pack_var(dotted, e.0, category)).insert(
            e.1,
            pack_var(e.1, e.0, category),
        )
    }
}

/// Registers the variables of a var pack (`id=name` per line) in `category`.
pub fn load_game_vars(registry: &mut SymbolRegistry, text: &str, category: &str)
    ensures
        final(registry).game_var_map() == with_vars(old(registry).game_var_map(), pack_entries(text_lines(text@)), category@),
        final(registry).command_map() == old(registry).command_map(),
        final(registry).entity_map() == old(registry).entity_map(),
        final(registry).script_map() == old(registry).script_map(),
        final(registry).interface_map() == old(registry).interface_map(),
        final(registry).component_map() == old(registry).component_map(),
        final(registry).type_char_map() == old(registry).type_char_map(),
        final(registry).preloaded_map() == old(registry).preloaded_map(),
{
    let lines = lines_of(text);
    let ghost ls = text_lines(text@);
    let mut k: usize = 0;
    while k < lines.len()
        invariant
            registry.interface_map() == old(registry).interface_map(),
            registry.component_map() == old(registry).component_map(),
            registry.type_char_map() == old(registry).type_char_map(),
            registry.preloaded_map() == old(registry).preloaded_map(),
            k <= lines@.len(),
            lines@.len() == ls.len(),
            forall|j: int| 0 <= j < lines@.len() ==> (#[trigger] lines@[j])@ == ls[j],
            registry.game_var_map() == with_vars(old(registry).game_var_map(), pack_entries(ls.take(k as int)), category@),
            registry.command_map() == old(registry).command_map(),
            registry.entity_map() == old(registry).entity_map(),
            registry.script_map() == old(registry).script_map(),
        decreases lines@.len() - k,
    {
        proof {
            lemma_take_step(ls, k as int);
        }
        let ghost prev = pack_entries(ls.take(k as int));
        if let Some((id, name)) = pack_entry_of(&lines[k]) {
            proof {
                assert(pack_entries(ls.take(k + 1)) == prev.push((id, name@)));
                assert(prev.push((id, name@)).drop_last() == prev);
            }
            let mut dotted = String::new();
            crate::strings::push_char(&mut dotted, '.');
            let plain = string_from_chars(&name);
            crate::strings::push_str(&mut dotted, plain.as_str());
            registry.register_game_var(dotted, Type::Int, id, crate::strings::to_owned_string(category));
            registry.register_game_var(plain, Type::Int, id, crate::strings::to_owned_string(category));
        } else {
            assert(pack_entries(ls.take(k + 1)) == prev);
        }
        k += 1;
    }
    assert(ls.take(ls.len() as int) == ls);
}

// ── dbtable.pack, script.pack ──────────────────────────────────────────────

/// The entry of a `dbtable.pack` line `id=name`: a `u16` id and a non-empty name.
pub open spec fn table_entry(line: Seq<char>) -> Option<(u16, Seq<char>)> {
    match pack_fields(line) {
        Some((id, name)) => match u16_value(id) {
            Some(v) => if name.len() > 0 {
                Some((v, name))
            } else {
                None
            },
            None => None,
        },
        None => None,
    }
}

/// The table ids named by the first `k` lines: each later line wins.
pub open spec fn table_ids(lines: Seq<Seq<char>>, k: int) -> Map<Seq<char>, u16>
    decreases k,
{
    if k <= 0 {
        Map::empty()
    } else {
        let prev = table_ids(lines, k - 1);
        match table_entry(lines[k - 1]) {
            Some((id, name)) => prev.insert(name, id),
            None => prev,
        }
    }
}

/// Reads `dbtable.pack` (`id=name` per line) as a map from table name to id.
pub fn load_dbtable_pack(text: &str) -> (r: StrMap<u16>)
    ensures
        r@ == table_ids(text_lines(text@), text_lines(text@).len() as int),
{
    let mut out: StrMap<u16> = StrMap::new();
    let lines = lines_of(text);
    let ghost ls = text_lines(text@);
    let mut k: usize = 0;
    while k < lines.len()
        invariant
            k <= lines@.len(),
            lines@.len() == ls.len(),
            forall|j: int| 0 <= j < lines@.len() ==> (#[trigger] lines@[j])@ == ls[j],
            out@ == table_ids(ls, k as int),
        decreases lines@.len() - k,
    {
        if let Some((id, name)) = table_entry_of(&lines[k]) {
            out.insert(string_from_chars(&name), id);
        }
        k += 1;
    }
    out
}

fn table_entry_of(line: &Vec<char>) -> (r: Option<(u16, Vec<char>)>)
    ensures
        match r {
            Some((id, name)) => table_entry(line@) == Some((id, name@)),
            None => table_entry(line@) is None,
        },
{
    match pack_fields_of(line) {
        Some((id_text, name)) => match parse_u16(&id_text) {
            Some(id) => if name.len() > 0 {
                Some((id, name))
            } else {
                None
            },
            None => None,
        },
        None => None,
    }
}

/// The entry of a `script.pack` line `id=[trigger,name]`: the id, trigger
/// and name, both non-empty.
pub open spec fn script_pack_entry(line: Seq<char>) -> Option<(i32, Seq<char>, Seq<char>)> {
    match pack_fields(line) {
        Some((id_text, rest)) => match i32_value(id_text) {
            Some(id) => if rest.len() >= 2 && rest[0] == '[' && rest.last() == ']' {
                let inner = rest.subrange(1, rest.len() - 1);
                match index_of_char(inner, ',') {
                    Some(c) => if c > 0 && c + 1 < inner.len() {
                        Some((id, inner.take(c), inner.skip(c + 1)))
                    } else {
                        None
                    },
                    None => None,
                }
            } else {
                None
            },
            None => None,
        },
        None => None,
    }
}

/// `m` with the ids of the first `k` lines of a `script.pack` preassigned.
pub open spec fn preloaded_after(m: Map<Seq<char>, i32>, lines: Seq<Seq<char>>, k: int) -> Map<Seq<char>, i32>
    decreases k,
{
    if k <= 0 {
        m
    } else {
        let prev = preloaded_after(m, lines, k - 1);
        match script_pack_entry(lines[k - 1]) {
            Some((id, trigger, name)) => prev.insert(trigger_key(trigger, name), id),
            None => prev,
        }
    }
}

fn script_pack_entry_of(line: &Vec<char>) -> (r: Option<(i32, String, String)>)
    ensures
        match r {
            Some((id, trigger, name)) => script_pack_entry(line@) == Some((id, trigger@, name@)),
            None => script_pack_entry(line@) is None,
        },
{
    let (id_text, rest) = match pack_fields_of(line) {
        Some(f) => f,
        None => {
            return None;
        },
    };
    let id = match parse_i32(&id_text) {
        Some(v) => v,
        None => {
            return None;
        },
    };
    let n = rest.len();
    if !(n >= 2 && rest[0] == '[' && rest[n - 1] == ']') {
        return None;
    }
    let inner = sub_chars(&rest, 1, n - 1);
    let c = match find_char(&inner, ',') {
        Some(c) => c,
        None => {
            return None;
        },
    };
    if !(c > 0 && c + 1 < inner.len()) {
        return None;
    }
    let trigger = string_from_chars(&sub_chars(&inner, 0, c));
    let name = string_from_chars(&sub_chars(&inner, c + 1, inner.len()));
    proof {
        assert(inner@.subrange(0, c as int) == inner@.take(c as int));
        assert(inner@.subrange(c + 1, inner@.len() as int) == inner@.skip(c + 1));
    }
    Some((id, trigger, name))
}

/// Preassigns the script ids of `script.pack` (`id=[trigger,name]` per line).
pub fn load_script_pack(registry: &mut SymbolRegistry, text: &str)
    ensures
        final(registry).preloaded_map() == preloaded_after(old(registry).preloaded_map(), text_lines(text@), text_lines(text@).len() as int),
        final(registry).script_map() == old(registry).script_map(),
        final(registry).next_id() == old(registry).next_id(),
        final(registry).entity_map() == old(registry).entity_map(),
        final(registry).interface_map() == old(registry).interface_map(),
        final(registry).component_map() == old(registry).component_map(),
        final(registry).command_map() == old(registry).command_map(),
        final(registry).game_var_map() == old(registry).game_var_map(),
        final(registry).type_char_map() == old(registry).type_char_map(),
{
    let lines = lines_of(text);
    let ghost ls = text_lines(text@);
    let mut k: usize = 0;
    while k < lines.len()
        invariant
            registry.entity_map() == old(registry).entity_map(),
            registry.interface_map() == old(registry).interface_map(),
            registry.component_map() == old(registry).component_map(),
            registry.command_map() == old(registry).command_map(),
            registry.game_var_map() == old(registry).game_var_map(),
            registry.type_char_map() == old(registry).type_char_map(),
            k <= lines@.len(),
            lines@.len() == ls.len(),
            forall|j: int| 0 <= j < lines@.len() ==> (#[trigger] lines@[j])@ == ls[j],
            registry.preloaded_map() == preloaded_after(old(registry).preloaded_map(), ls, k as int),
            registry.script_map() == old(registry).script_map(),
            registry.next_id() == old(registry).next_id(),
        decreases lines@.len() - k,
    {
        if let Some((id, trigger, name)) = script_pack_entry_of(&lines[k]) {
            registry.preload_script_id(trigger.as_str(), name.as_str(), id);
        }
        k += 1;
    }
}

// ── Type characters, command results ───────────────────────────────────────

/// The type names scripts may use as values, with their type characters.
pub open spec fn type_char_table() -> Seq<(Seq<char>, i32)> {
    seq![
        ("int"@, 105i32), ("string"@, 115i32), ("boolean"@, 49i32), ("bool"@, 49i32),
        ("coord"@, 99i32), ("loc"@, 108i32), ("npc"@, 110i32), ("obj"@, 111i32),
        ("namedobj"@, 79i32), ("playeruid"@, 112i32), ("player_uid"@, 112i32), ("npcuid"@, 117i32),
        ("npc_uid"@, 117i32), ("seq"@, 65i32), ("spotanim"@, 116i32), ("synth"@, 80i32),
        ("stat"@, 83i32), ("component"@, 73i32), ("interface"@, 97i32), ("toplevelinterface"@, 97i32),
        ("overlayinterface"@, 97i32), ("inv"@, 118i32), ("enum"@, 103i32), ("struct"@, 74i32),
        ("dbrow"@, 208i32), ("dbtable"@, 105i32), ("dbcolumn"@, 105i32), ("category"@, 121i32),
        ("varp"@, 86i32), ("npc_stat"@, 254i32), ("npcstat"@, 254i32), ("idkit"@, 75i32),
        ("idk"@, 75i32),
    ]
}

/// `m` with the first `k` entries of `t` inserted in order.
pub open spec fn with_entries(m: Map<Seq<char>, i32>, t: Seq<(Seq<char>, i32)>, k: int) -> Map<Seq<char>, i32>
    decreases k,
{
    if k <= 0 {
        m
    } else {
        with_entries(m, t, k - 1).insert(t[k - 1].0, t[k - 1].1)
    }
}

/// Registers the type names that scripts may use as values (see [`type_char_table`]).
pub fn register_type_chars(registry: &mut SymbolRegistry)
    ensures
        final(registry).type_char_map() == with_entries(old(registry).type_char_map(), type_char_table(), 33),
        final(registry).script_map() == old(registry).script_map(),
        final(registry).entity_map() == old(registry).entity_map(),
        final(registry).interface_map() == old(registry).interface_map(),
        final(registry).component_map() == old(registry).component_map(),
        final(registry).command_map() == old(registry).command_map(),
        final(registry).game_var_map() == old(registry).game_var_map(),
        final(registry).preloaded_map() == old(registry).preloaded_map(),
{
    let table: Vec<(&str, i32)> = vec![
        ("int", 105), ("string", 115), ("boolean", 49), ("bool", 49),
        ("coord", 99), ("loc", 108), ("npc", 110), ("obj", 111),
        ("namedobj", 79), ("playeruid", 112), ("player_uid", 112), ("npcuid", 117),
        ("npc_uid", 117), ("seq", 65), ("spotanim", 116), ("synth", 80),
        ("stat", 83), ("component", 73), ("interface", 97), ("toplevelinterface", 97),
        ("overlayinterface", 97), ("inv", 118), ("enum", 103), ("struct", 74),
        ("dbrow", 208), ("dbtable", 105), ("dbcolumn", 105), ("category", 121),
        ("varp", 86), ("npc_stat", 254), ("npcstat", 254), ("idkit", 75),
        ("idk", 75),
    ];
    proof {
        reveal_strlit("int"); reveal_strlit("string"); reveal_strlit("boolean"); reveal_strlit("bool");
        reveal_strlit("coord"); reveal_strlit("loc"); reveal_strlit("npc"); reveal_strlit("obj");
        reveal_strlit("namedobj"); reveal_strlit("playeruid"); reveal_strlit("player_uid"); reveal_strlit("npcuid");
        reveal_strlit("npc_uid"); reveal_strlit("seq"); reveal_strlit("spotanim"); reveal_strlit("synth");
        reveal_strlit("stat"); reveal_strlit("component"); reveal_strlit("interface"); reveal_strlit("toplevelinterface");
        reveal_strlit("overlayinterface"); reveal_strlit("inv"); reveal_strlit("enum"); reveal_strlit("struct");
        reveal_strlit("dbrow"); reveal_strlit("dbtable"); reveal_strlit("dbcolumn"); reveal_strlit("category");
        reveal_strlit("varp"); reveal_strlit("npc_stat"); reveal_strlit("npcstat"); reveal_strlit("idkit");
        reveal_strlit("idk");
        assert(table@.map_values(|e: (&str, i32)| (e.0@, e.1)) =~= type_char_table());
    }
    let mut k: usize = 0;
    while k < table.len()
        invariant
            registry.entity_map() == old(registry).entity_map(),
            registry.interface_map() == old(registry).interface_map(),
            registry.component_map() == old(registry).component_map(),
            registry.command_map() == old(registry).command_map(),
            registry.game_var_map() == old(registry).game_var_map(),
            registry.preloaded_map() == old(registry).preloaded_map(),
            k <= table@.len(),
            table@.len() == 33,
            table@.map_values(|e: (&str, i32)| (e.0@, e.1)) == type_char_table(),
            registry.type_char_map() == with_entries(old(registry).type_char_map(), type_char_table(), k as int),
            registry.script_map() == old(registry).script_map(),
        decreases table@.len() - k,
    {
        assert(table@.map_values(|e: (&str, i32)| (e.0@, e.1))[k as int] == (table@[k as int].0@, table@[k as int].1));
        registry.register_type_char(table[k].0, table[k].1);
        k += 1;
    }
}

/// `m` with command `name` given `results` if it is registered with none.
pub open spec fn patched_results(m: Map<Seq<char>, SymbolView>, name: Seq<char>, results: Seq<Type>) -> Map<Seq<char>, SymbolView> {
    if m.contains_key(name) && m[name].kind is Command && m[name].kind->Command_return_types.len() == 0 {
        m.insert(
            name,
            SymbolView {
                name: m[name].name,
                kind: KindView::Command {
                    opcode: m[name].kind->Command_opcode,
                    param_types: m[name].kind->Command_param_types,
                    return_types: results,
                },
            },
        )
    } else {
        m
    }
}

fn patch_one(registry: &mut SymbolRegistry, name: &str)
    ensures
        final(registry).command_map() == patched_results(old(registry).command_map(), name@, seq![Type::Int]),
        final(registry).command_params_map() == old(registry).command_params_map(),
        final(registry).command_names() == old(registry).command_names(),
        final(registry).entity_map() == old(registry).entity_map(),
        final(registry).game_var_map() == old(registry).game_var_map(),
{
    let empty = match registry.lookup_command(name) {
        Some(sym) => match &sym.kind {
            crate::symbol::SymbolKind::Command { return_types, .. } => return_types.len() == 0,
            _ => false,
        },
        None => false,
    };
    if empty {
        let results: Vec<Type> = vec![Type::Int];
        assert(results@ == seq![Type::Int]);
        registry.set_command_returns(name, results);
    }
}

/// Gives the counting db commands their `int` result where `engine.rs2`
/// declared none.
pub fn patch_command_return_types(registry: &mut SymbolRegistry)
    ensures
        final(registry).command_map() == patched_results(
            patched_results(
                patched_results(old(registry).command_map(), "db_find_with_count"@, seq![Type::Int]),
                "db_find_refine_with_count"@,
                seq![Type::Int],
            ),
            "db_listall_with_count"@,
            seq![Type::Int],
        ),
        final(registry).command_params_map() == old(registry).command_params_map(),
        final(registry).entity_map() == old(registry).entity_map(),
{
    proof {
        reveal_strlit("db_find_with_count");
        reveal_strlit("db_find_refine_with_count");
        reveal_strlit("db_listall_with_count");
    }
    patch_one(registry, "db_find_with_count");
    patch_one(registry, "db_find_refine_with_count");
    patch_one(registry, "db_listall_with_count");
}

// ── Constants ──────────────────────────────────────────────────────────────

/// The five integer fields of a coordinate `level_mx_mz_lx_lz`, if the text
/// is one.
pub open spec fn coord_parts(s: Seq<char>) -> Option<(i32, i32, i32, i32, i32)> {
    if char_positions(s, '_').len() != 4 {
        None
    } else {
        match (i32_value(field(s, '_', 0)), i32_value(field(s, '_', 1)), i32_value(field(s, '_', 2)),
            i32_value(field(s, '_', 3)), i32_value(field(s, '_', 4))) {
            (Some(y), Some(bx), Some(bz), Some(lx), Some(lz)) => Some((y, bx, bz, lx, lz)),
            _ => None,
        }
    }
}

/// Whether the absolute coordinates of `p` fit in an `i32`.
pub open spec fn coord_fits(p: (i32, i32, i32, i32, i32)) -> bool {
    i32::MIN <= p.1 * 64 + p.3 <= i32::MAX && i32::MIN <= p.2 * 64 + p.4 <= i32::MAX
}

/// The packed coordinate: `level << 28 | x << 14 | z` with `x = mx * 64 + lx`
/// and `z = mz * 64 + lz`, in 32-bit arithmetic.
pub open spec fn coord_packed(p: (i32, i32, i32, i32, i32)) -> i32 {
    let x = (p.1 * 64 + p.3) as i32;
    let z = (p.2 * 64 + p.4) as i32;
    (p.0 << 28u32) | (x << 14u32) | z
}

/// Parses a coordinate constant `level_mx_mz_lx_lz` and packs it. `Ok(None)`
/// when the text is not one; `Err` where the absolute coordinates do not fit
/// in an `i32`.
pub fn parse_coord_string(s: &str) -> (r: Result<Option<i32>, ()>)
    ensures
        match coord_parts(s@) {
            Some(p) => if coord_fits(p) {
                r == Ok::<Option<i32>, ()>(Some(coord_packed(p)))
            } else {
                r is Err
            },
            None => r == Ok::<Option<i32>, ()>(None),
        },
{
    let v = chars_of(s);
    let p = positions_of(&v, '_');
    if p.len() != 4 {
        return Ok(None);
    }
    let y = parse_i32(&field_of(&v, '_', &p, 0));
    let bx = parse_i32(&field_of(&v, '_', &p, 1));
    let bz = parse_i32(&field_of(&v, '_', &p, 2));
    let lx = parse_i32(&field_of(&v, '_', &p, 3));
    let lz = parse_i32(&field_of(&v, '_', &p, 4));
    match (y, bx, bz, lx, lz) {
        (Some(y), Some(bx), Some(bz), Some(lx), Some(lz)) => {
            let xw: i64 = bx as i64 * 64 + lx as i64;
            let zw: i64 = bz as i64 * 64 + lz as i64;
            if xw < -2147483648i64 || xw > 2147483647i64 || zw < -2147483648i64 || zw > 2147483647i64 {
                return Err(());
            }
            let x = xw as i32;
            let z = zw as i32;
            Ok(Some((y << 28u32) | (x << 14u32) | z))
        },
        _ => Ok(None),
    }
}

/// Whether `c` is a hexadecimal digit.
pub open spec fn hex_digit(c: char) -> bool {
    ('0' <= c && c <= '9') || ('a' <= c && c <= 'f') || ('A' <= c && c <= 'F')
}

/// The value of hexadecimal digit `c`.
pub open spec fn hex_digit_value(c: char) -> int {
    if '0' <= c && c <= '9' {
        c as int - '0' as int
    } else if 'a' <= c && c <= 'f' {
        c as int - 'a' as int + 10
    } else {
        c as int - 'A' as int + 10
    }
}

/// The value of a string of hexadecimal digits.
pub open spec fn hex_digits_value(s: Seq<char>) -> int
    decreases s.len(),
{
    if s.len() == 0 {
        0
    } else {
        hex_digits_value(s.drop_last()) * 16 + hex_digit_value(s.last())
    }
}

/// The value of hexadecimal text as `u32::from_str_radix(_, 16)` reads it: an
/// optional `+`, then at least one digit, the value below 2^32.
pub open spec fn hex_value(s: Seq<char>) -> Option<u32> {
    hex_digits_u32(if s.len() > 0 && s[0] == '+' { s.skip(1) } else { s })
}

/// The value of a non-empty string of hexadecimal digits below 2^32.
pub open spec fn hex_digits_u32(d: Seq<char>) -> Option<u32> {
    if d.len() > 0 && (forall|i: int| 0 <= i < d.len() ==> hex_digit(#[trigger] d[i])) && hex_digits_value(d) <= u32::MAX {
        Some(hex_digits_value(d) as u32)
    } else {
        None
    }
}

proof fn lemma_hex_nonneg(s: Seq<char>)
    requires
        forall|i: int| 0 <= i < s.len() ==> hex_digit(#[trigger] s[i]),
    ensures
        hex_digits_value(s) >= 0,
    decreases s.len(),
{
    if s.len() > 0 {
        lemma_hex_nonneg(s.drop_last());
    }
}

proof fn lemma_hex_mono(s: Seq<char>, k: int)
    requires
        forall|i: int| 0 <= i < s.len() ==> hex_digit(#[trigger] s[i]),
        0 <= k <= s.len(),
    ensures
        hex_digits_value(s.take(k)) <= hex_digits_value(s),
    decreases s.len(),
{
    if k < s.len() {
        lemma_hex_mono(s.drop_last(), k);
        assert(s.drop_last().take(k) == s.take(k));
        lemma_hex_nonneg(s.drop_last());
    } else {
        assert(s.take(k) == s);
    }
}

fn hex_digit_of(c: char) -> (r: Option<u64>)
    ensures
        r == if hex_digit(c) { Some(hex_digit_value(c) as u64) } else { None::<u64> },
        r matches Some(x) ==> x < 16,
{
    if '0' <= c && c <= '9' {
        Some((c as u64) - ('0' as u64))
    } else if 'a' <= c && c <= 'f' {
        Some((c as u64) - ('a' as u64) + 10)
    } else if 'A' <= c && c <= 'F' {
        Some((c as u64) - ('A' as u64) + 10)
    } else {
        None
    }
}

/// Parses hexadecimal text as `u32::from_str_radix(_, 16)` does.
pub fn parse_hex_u32(v: &Vec<char>) -> (r: Option<u32>)
    ensures
        r == hex_value(v@),
{
    let d = if v.len() > 0 && v[0] == '+' {
        sub_chars(v, 1, v.len())
    } else {
        sub_chars(v, 0, v.len())
    };
    assert(v@.subrange(0, v@.len() as int) == v@);
    parse_hex_digits(&d)
}

fn parse_hex_digits(d: &Vec<char>) -> (r: Option<u32>)
    ensures
        r == hex_digits_u32(d@),
{
    if d.len() == 0 {
        return None;
    }
    let mut acc: u64 = 0;
    let mut i: usize = 0;
    while i < d.len()
        invariant
            i <= d@.len(),
            forall|j: int| 0 <= j < i ==> hex_digit(#[trigger] d@[j]),
            acc == hex_digits_value(d@.take(i as int)),
            acc <= u32::MAX,
        decreases d@.len() - i,
    {
        let c = d[i];
        let dv: u64 = match hex_digit_of(c) {
            Some(x) => x,
            None => {
                proof {
                    assert(!hex_digit(d@[i as int]));
                }
                return None;
            },
        };
        proof {
            assert(d@.take(i + 1).drop_last() == d@.take(i as int));
            assert(d@.take(i + 1).last() == c);
        }
        let next = acc * 16 + dv;
        if next > 4294967295u64 {
            proof {
                assert(hex_digits_value(d@.take(i + 1)) == acc * 16 + hex_digit_value(c));
                if forall|j: int| 0 <= j < d@.len() ==> hex_digit(#[trigger] d@[j]) {
                    lemma_hex_mono(d@, i + 1);
                }
            }
            return None;
        }
        acc = next;
        i += 1;
    }
    assert(d@.take(d@.len() as int) == d@);
    Some(acc as u32)
}

/// Registers constant `name` with its value read from `val`: an `int` for
/// decimal text, an `int` for `0x`/`0X` hexadecimal text (0 where the digits
/// do not parse), a `coord` for `level_mx_mz_lx_lz`, else a `string`.
/// Returns false, registering nothing, where a coordinate's absolute
/// position does not fit in an `i32`.
pub fn register_constant_value(registry: &mut SymbolRegistry, name: String, val: &str) -> (ok: bool)
    ensures
        ok == !(i32_value(val@) is None && !hex_prefixed(val@) && (coord_parts(val@) matches Some(p) && !coord_fits(p))),
        ok ==> final(registry).constant_map() == old(registry).constant_map().insert(name@, constant_view(name@, val@)),
        !ok ==> final(registry).constant_map() == old(registry).constant_map(),
        final(registry).command_map() == old(registry).command_map(),
        final(registry).entity_map() == old(registry).entity_map(),
        final(registry).game_var_map() == old(registry).game_var_map(),
        final(registry).script_map() == old(registry).script_map(),
{
    let v = chars_of(val);
    if let Some(i) = parse_i32(&v) {
        registry.register_constant(name, Type::Int, Some(i), None);
        return true;
    }
    if v.len() >= 2 && v[0] == '0' && (v[1] == 'x' || v[1] == 'X') {
        let digits = sub_chars(&v, 2, v.len());
        let value: i32 = match parse_hex_u32(&digits) {
            Some(h) => h as i32,
            None => 0,
        };
        proof {
            assert(digits@ == val@.skip(2));
        }
        registry.register_constant(name, Type::Int, Some(value), None);
        return true;
    }
    match parse_coord_string(val) {
        Ok(Some(packed)) => {
            registry.register_constant(name, Type::Coord, Some(packed), None);
            true
        },
        Ok(None) => {
            registry.register_constant(name, Type::String, None, Some(crate::strings::to_owned_string(val)));
            true
        },
        Err(()) => false,
    }
}

/// Whether constant text starts with `0x` or `0X`.
pub open spec fn hex_prefixed(v: Seq<char>) -> bool {
    v.len() >= 2 && v[0] == '0' && (v[1] == 'x' || v[1] == 'X')
}

/// The symbol a constant with value text `v` is registered as.
pub open spec fn constant_view(name: Seq<char>, v: Seq<char>) -> SymbolView {
    SymbolView {
        name,
        kind: match i32_value(v) {
            Some(i) => KindView::Constant { const_type: Type::Int, int_value: Some(i), string_value: None },
            None => if hex_prefixed(v) {
                KindView::Constant {
                    const_type: Type::Int,
                    int_value: Some(match hex_value(v.skip(2)) {
                        Some(h) => h as i32,
                        None => 0i32,
                    }),
                    string_value: None,
                }
            } else {
                match coord_parts(v) {
                    Some(p) => KindView::Constant { const_type: Type::Coord, int_value: Some(coord_packed(p)), string_value: None },
                    None => KindView::Constant { const_type: Type::String, int_value: None, string_value: Some(v) },
                }
            },
        },
    }
}

// ── Comments in config files ───────────────────────────────────────────────

/// The lines of `lines`, trimmed, that are not blank.
pub open spec fn nonblank(lines: Seq<Seq<char>>) -> Seq<Seq<char>>
    decreases lines.len(),
{
    if lines.len() == 0 {
        seq![]
    } else {
        let prev = nonblank(lines.drop_last());
        if trim(lines.last()).len() > 0 {
            prev.push(trim(lines.last()))
        } else {
            prev
        }
    }
}

/// The first position `i` at or after `from` with `v[i] == a` and `v[i + 1] == b`.
pub open spec fn pair_from(v: Seq<char>, a: char, b: char, from: int) -> Option<int>
    decreases v.len() - from,
{
    if from < 0 || from + 1 >= v.len() {
        None
    } else if v[from] == a && v[from + 1] == b {
        Some(from)
    } else {
        pair_from(v, a, b, from + 1)
    }
}

proof fn lemma_pair_from(v: Seq<char>, a: char, b: char, from: int)
    requires
        0 <= from,
    ensures
        pair_from(v, a, b, from) matches Some(k) ==> from <= k && k + 1 < v.len() && v[k] == a && v[k + 1] == b,
    decreases v.len() - from,
{
    if from + 1 < v.len() && !(v[from] == a && v[from + 1] == b) {
        lemma_pair_from(v, a, b, from + 1);
    }
}

fn find2(v: &Vec<char>, a: char, b: char) -> (r: Option<usize>)
    ensures
        r matches Some(k) ==> k + 1 < v@.len() && v@[k as int] == a && v@[k + 1] == b,
        r is None ==> forall|k: int| 0 <= k < v@.len() - 1 ==> !(v@[k] == a && #[trigger] v@[k + 1] == b),
        match r {
            Some(k) => pair_from(v@, a, b, 0) == Some(k as int),
            None => pair_from(v@, a, b, 0) is None,
        },
{
    let mut k: usize = 0;
    while v.len() > 0 && k < v.len() - 1
        invariant
            forall|j: int| 0 <= j < k && j < v@.len() - 1 ==> !(v@[j] == a && #[trigger] v@[j + 1] == b),
            pair_from(v@, a, b, 0) == pair_from(v@, a, b, k as int),
        decreases v@.len() - k,
    {
        if v[k] == a && v[k + 1] == b {
            return Some(k);
        }
        k += 1;
    }
    None
}

proof fn lemma_trim_sub(s: Seq<char>, c: char)
    ensures
        trim(s).contains(c) ==> s.contains(c),
{
    crate::source_text::lemma_skip_white(s, 0);
    crate::source_text::lemma_end_white(s, s.len() as int);
    let a = skip_white(s, 0);
    let b = end_white(s, s.len() as int);
    if trim(s).contains(c) {
        let j = choose|j: int| 0 <= j < trim(s).len() && trim(s)[j] == c;
        assert(a < b);
        assert(s[a + j] == c);
    }
}

/// `v` from `from` on, without leading white space.
proof fn lemma_skip_white_shift(v: Seq<char>, from: int, i: int)
    requires
        0 <= from <= v.len(),
        0 <= i <= v.len() - from,
    ensures
        skip_white(v, from + i) == from + skip_white(v.skip(from), i),
    decreases v.len() - from - i,
{
    if from + i < v.len() && crate::source_text::white(v[from + i]) {
        assert(v.skip(from)[i] == v[from + i]);
        lemma_skip_white_shift(v, from, i + 1);
    } else if from + i < v.len() {
        assert(v.skip(from)[i] == v[from + i]);
    }
}

fn rest_trimmed_start(v: &Vec<char>, from: usize) -> (r: Vec<char>)
    requires
        from <= v@.len(),
    ensures
        r@.len() <= v@.len() - from,
        forall|c: char| r@.contains(c) ==> v@.contains(c),
        r@ == crate::source_text::trim_start(v@.skip(from as int)),
{
    let a = first_non_white(v, from);
    let r = sub_chars(v, a, v.len());
    proof {
        lemma_skip_white_shift(v@, from as int, 0);
        crate::source_text::lemma_skip_white(v@.skip(from as int), 0);
        assert(r@ =~= crate::source_text::trim_start(v@.skip(from as int)));
        assert forall|c: char| r@.contains(c) implies v@.contains(c) by {
            let j = choose|j: int| 0 <= j < r@.len() && r@[j] == c;
            assert(v@[a + j] == c);
        }
    }
    r
}

/// Inside an open comment: each further `/*` is consumed, deepening it.
pub closed spec fn eat_opens(line: Seq<char>, d: int) -> (Seq<char>, int)
    decreases line.len(),
{
    match pair_from(line, '/', '*', 0) {
        Some(st) => {
            proof {
                lemma_pair_from(line, '/', '*', 0);
                crate::source_text::lemma_skip_white(line.skip(st + 2), 0);
            }
            eat_opens(crate::source_text::trim_start(line.skip(st + 2)), d + 1)
        },
        None => (line, d),
    }
}

/// Inside an open comment: each `*/` is consumed, closing one level, until
/// none is left open.
pub closed spec fn eat_closes(line: Seq<char>, d: int) -> (Seq<char>, int)
    decreases line.len(),
{
    if d <= 0 {
        (line, d)
    } else {
        match pair_from(line, '*', '/', 0) {
            Some(e) => {
                proof {
                    lemma_pair_from(line, '*', '/', 0);
                    crate::source_text::lemma_skip_white(line.skip(e + 2), 0);
                }
                eat_closes(crate::source_text::trim_start(line.skip(e + 2)), d - 1)
            },
            None => (line, d),
        }
    }
}

/// One config line read at comment depth `d`: the depth after it, and the
/// text it contributes, if any. Inside an open comment, openings and
/// closings are consumed first and a line still inside contributes
/// nothing; then a `//` comment is cut (and trailing white space with it);
/// then a `/* ... */` pair is cut out, or an unclosed `/*` cuts the rest and
/// opens a comment.
pub open spec fn strip_line(d: int, raw: Seq<char>) -> (int, Option<Seq<char>>) {
    let t = trim(raw);
    let (l1, d1) = if d > 0 {
        let (a, da) = eat_opens(t, d);
        eat_closes(a, da)
    } else {
        (t, d)
    };
    if d > 0 && d1 > 0 {
        (d1, None)
    } else if l1.len() == 0 {
        (d1, None)
    } else {
        let l2 = match pair_from(l1, '/', '/', 0) {
            Some(i) => l1.take(i).take(end_white(l1.take(i), i)),
            None => l1,
        };
        if l2.len() == 0 {
            (d1, None)
        } else {
            match pair_from(l2, '/', '*', 0) {
                Some(st) => {
                    let (l3, d3) = match pair_from(l2, '*', '/', 0) {
                        Some(e) => (l2.take(st) + l2.skip(e + 2), d1),
                        None => (l2.take(st), d1 + 1),
                    };
                    if l3.len() == 0 {
                        (d3, None)
                    } else {
                        (d3, Some(l3))
                    }
                },
                None => (d1, Some(l2)),
            }
        }
    }
}

/// The comment depth after, and the text kept from, the first `n` lines.
pub open spec fn strip_lines(ls: Seq<Seq<char>>, n: int) -> (int, Seq<Seq<char>>)
    decreases n,
{
    if n <= 0 {
        (0, Seq::empty())
    } else {
        let (d, out) = strip_lines(ls, n - 1);
        let (d2, kept) = strip_line(d, ls[n - 1]);
        (d2, match kept {
            Some(l) => out.push(l),
            None => out,
        })
    }
}

proof fn lemma_plain_line(raw: Seq<char>)
    requires
        !raw.contains('/'),
    ensures
        strip_line(0, raw) == (0int, if trim(raw).len() > 0 { Some(trim(raw)) } else { None::<Seq<char>> }),
{
    let t = trim(raw);
    lemma_trim_sub(raw, '/');
    lemma_pair_from(t, '/', '/', 0);
    lemma_pair_from(t, '/', '*', 0);
    if pair_from(t, '/', '/', 0) is Some {
        let i = pair_from(t, '/', '/', 0)->Some_0;
        assert(t.contains('/')) by {
            assert(t[i] == '/');
        }
    }
    if pair_from(t, '/', '*', 0) is Some {
        let i = pair_from(t, '/', '*', 0)->Some_0;
        assert(t.contains('/')) by {
            assert(t[i] == '/');
        }
    }
}

proof fn lemma_plain_lines(ls: Seq<Seq<char>>, n: int)
    requires
        0 <= n <= ls.len(),
        forall|k: int| 0 <= k < ls.len() ==> !(#[trigger] ls[k]).contains('/'),
    ensures
        strip_lines(ls, n) == (0int, nonblank(ls.take(n))),
    decreases n,
{
    if n > 0 {
        lemma_plain_lines(ls, n - 1);
        lemma_take_step(ls, n - 1);
        lemma_plain_line(ls[n - 1]);
    } else {
        assert(ls.take(0) =~= Seq::<Seq<char>>::empty());
    }
}

/// Reads one config line at comment depth `depth` (see [`strip_line`]).
fn strip_line_exec(raw: &Vec<char>, depth: u128) -> (r: (Option<Vec<char>>, u128))
    requires
        depth + raw@.len() <= u128::MAX,
    ensures
        r.1 <= depth + raw@.len(),
        strip_line(depth as int, raw@) == (r.1 as int, match r.0 {
            Some(l) => Some(l@),
            None => None::<Seq<char>>,
        }),
{
    let mut depth = depth;
    let ghost d0 = depth as int;
    let mut line = trim_chars(raw);
    let ghost t = line@;
    proof {
        crate::source_text::lemma_skip_white(raw@, 0);
        crate::source_text::lemma_end_white(raw@, raw@.len() as int);
    }
    assert(t.len() <= raw@.len());
    let ghost l0 = t.len() as int;
    let mut skip_line = false;
    if depth > 0 {
        loop
            invariant
                depth > 0,
                line@.len() <= l0,
                l0 <= raw@.len(),
                d0 + raw@.len() <= u128::MAX,
                depth <= d0 + (l0 - line@.len()),
                d0 > 0,
                eat_opens(line@, depth as int) == eat_opens(t, d0),
            ensures
                pair_from(line@, '/', '*', 0) is None,
                depth <= d0 + (l0 - line@.len()),
                line@.len() <= l0,
                eat_opens(t, d0) == (line@, depth as int),
            decreases line@.len(),
        {
            match find2(&line, '/', '*') {
                Some(start) => {
                    let n = line.len();
                    assert(start + 1 < n);
                    proof {
                        crate::source_text::lemma_skip_white(line@.skip(start + 2), 0);
                    }
                    line = rest_trimmed_start(&line, start + 2);
                    depth = depth + 1;
                },
                None => {
                    break;
                },
            }
        }
        let ghost a = line@;
        let ghost da = depth as int;
        loop
            invariant
                line@.len() <= l0,
                l0 <= raw@.len(),
                d0 + raw@.len() <= u128::MAX,
                depth <= d0 + (l0 - line@.len()),
                eat_closes(line@, depth as int) == eat_closes(a, da),
            ensures
                depth <= d0 + (l0 - line@.len()),
                line@.len() <= l0,
                eat_closes(a, da) == (line@, depth as int),
            decreases line@.len(),
        {
            if depth == 0 {
                break;
            }
            match find2(&line, '*', '/') {
                Some(end) => {
                    let n = line.len();
                    assert(end + 1 < n);
                    proof {
                        crate::source_text::lemma_skip_white(line@.skip(end + 2), 0);
                    }
                    line = rest_trimmed_start(&line, end + 2);
                    depth = depth - 1;
                },
                None => {
                    break;
                },
            }
        }
        if depth > 0 {
            skip_line = true;
        }
    }
    let ghost l1 = line@;
    let ghost d1 = depth as int;
    if skip_line || line.len() == 0 {
        return (None, depth);
    }
    if let Some(idx) = find2(&line, '/', '/') {
        let head = sub_chars(&line, 0, idx);
        let end = last_non_white_end(&head);
        line = sub_chars(&head, 0, end);
        proof {
            assert(head@ == l1.take(idx as int));
            assert(line@ == head@.take(end as int));
        }
        if line.len() == 0 {
            return (None, depth);
        }
    }
    let ghost l2 = line@;
    if let Some(start) = find2(&line, '/', '*') {
        match find2(&line, '*', '/') {
            Some(end) => {
                let mut joined = sub_chars(&line, 0, start);
                let mut j = end + 2;
                while j < line.len()
                    invariant
                        end + 2 <= j <= line@.len(),
                        joined@ == line@.take(start as int) + line@.subrange(end + 2, j as int),
                    decreases line@.len() - j,
                {
                    joined.push(line[j]);
                    proof {
                        assert(line@.subrange(end + 2, j + 1) == line@.subrange(end + 2, j as int).push(line@[j as int]));
                    }
                    j += 1;
                }
                proof {
                    assert(line@.subrange(end + 2, line@.len() as int) == line@.skip(end + 2));
                }
                line = joined;
            },
            None => {
                line = sub_chars(&line, 0, start);
                depth = depth + 1;
            },
        }
        if line.len() == 0 {
            return (None, depth);
        }
    }
    (Some(line), depth)
}

/// The lines of a config file with `//` and `/* */` comments removed, each
/// trimmed, blank ones dropped (see [`strip_lines`]). A `/*` left open
/// swallows the lines up to its `*/` (nested openings count).
pub fn strip_comments(text: &str) -> (r: Vec<String>)
    ensures
        r@.map_values(|l: String| l@) == strip_lines(text_lines(text@), text_lines(text@).len() as int).1,
        (forall|k: int| 0 <= k < text_lines(text@).len() ==> !(#[trigger] text_lines(text@)[k]).contains('/'))
            ==> r@.map_values(|l: String| l@) == nonblank(text_lines(text@)),
{
    let lines = lines_of(text);
    let ghost ls = text_lines(text@);
    let mut result: Vec<String> = Vec::new();
    let mut depth: u128 = 0;
    let mut k: usize = 0;
    while k < lines.len()
        invariant
            k <= lines@.len(),
            lines@.len() == ls.len(),
            ls == text_lines(text@),
            forall|j: int| 0 <= j < lines@.len() ==> (#[trigger] lines@[j])@ == ls[j],
            depth <= k * 0x1_0000_0000_0000_0000,
            strip_lines(ls, k as int) == (depth as int, result@.map_values(|l: String| l@)),
        decreases lines@.len() - k,
    {
        let ghost before = result@.map_values(|l: String| l@);
        let _line_len = lines[k].len();
        let (kept, d2) = strip_line_exec(&lines[k], depth);
        depth = d2;
        match kept {
            Some(l) => {
                let ls_k = string_from_chars(&l);
                result.push(ls_k);
                proof {
                    assert(result@.map_values(|l: String| l@) =~= before.push(l@));
                }
            },
            None => {},
        }
        k += 1;
    }
    proof {
        if forall|j: int| 0 <= j < ls.len() ==> !(#[trigger] ls[j]).contains('/') {
            lemma_plain_lines(ls, ls.len() as int);
            assert(ls.take(ls.len() as int) =~= ls);
        }
    }
    result
}

/// Whether `v` starts with the characters of `p`.
fn chars_start_with(v: &Vec<char>, p: &str) -> (b: bool)
    ensures
        b == (p@.len() <= v@.len() && v@.take(p@.len() as int) == p@),
{
    let pv = chars_of(p);
    if pv.len() > v.len() {
        return false;
    }
    let mut i: usize = 0;
    while i < pv.len()
        invariant
            i <= pv@.len(),
            pv@.len() <= v@.len(),
            pv@ == p@,
            forall|j: int| 0 <= j < i ==> v@[j] == pv@[j],
        decreases pv@.len() - i,
    {
        if v[i] != pv[i] {
            proof {
                assert(v@.take(p@.len() as int)[i as int] != p@[i as int]);
            }
            return false;
        }
        i += 1;
    }
    assert(v@.take(p@.len() as int) =~= p@);
    true
}

/// The constant a config line defines: `^name = value` (the `^` optional),
/// with a value in double quotes losing them. Lines without `=` or without a
/// name define none.
pub open spec fn const_entry(line: Seq<char>) -> Option<(Seq<char>, Seq<char>)> {
    match index_of_char(line, '=') {
        Some(eq) => {
            let n0 = trim(line.take(eq));
            let value = trim(line.skip(eq + 1));
            let name = if n0.len() > 0 && n0[0] == '^' { n0.skip(1) } else { n0 };
            if name.len() > 0 {
                let val = if value.len() >= 2 && value[0] == '"' && value[value.len() - 1] == '"' {
                    value.subrange(1, value.len() - 1)
                } else {
                    value
                };
                Some((name, val))
            } else {
                None
            }
        },
        None => None,
    }
}

/// The constants `lines` define, in order.
pub open spec fn const_entries(lines: Seq<Seq<char>>) -> Seq<(Seq<char>, Seq<char>)>
    decreases lines.len(),
{
    if lines.len() == 0 {
        Seq::empty()
    } else {
        match const_entry(lines.last()) {
            Some(e) => const_entries(lines.drop_last()).push(e),
            None => const_entries(lines.drop_last()),
        }
    }
}

/// The constants of `.constant` file texts, file by file, after comments
/// are removed.
pub open spec fn file_constants(texts: Seq<Seq<char>>) -> Seq<(Seq<char>, Seq<char>)>
    decreases texts.len(),
{
    if texts.len() == 0 {
        Seq::empty()
    } else {
        let ls = text_lines(texts.last());
        file_constants(texts.drop_last()) + const_entries(strip_lines(ls, ls.len() as int).1)
    }
}

/// Whether a constant value can be registered: all but a coordinate whose
/// absolute position does not fit in an `i32`.
pub open spec fn value_ok(v: Seq<char>) -> bool {
    !(i32_value(v) is None && !hex_prefixed(v) && (coord_parts(v) matches Some(p) && !coord_fits(p)))
}

/// The constants after defining `es` in turn over `m`; `None` at the first
/// value that cannot be registered.
pub open spec fn define_constants(m: Map<Seq<char>, SymbolView>, es: Seq<(Seq<char>, Seq<char>)>) -> Option<Map<Seq<char>, SymbolView>>
    decreases es.len(),
{
    if es.len() == 0 {
        Some(m)
    } else {
        match define_constants(m, es.drop_last()) {
            Some(m1) => if value_ok(es.last().1) {
                Some(m1.insert(es.last().0, constant_view(es.last().0, es.last().1)))
            } else {
                None
            },
            None => None,
        }
    }
}

proof fn lemma_define_none(m: Map<Seq<char>, SymbolView>, es: Seq<(Seq<char>, Seq<char>)>, more: Seq<(Seq<char>, Seq<char>)>)
    requires
        define_constants(m, es) is None,
    ensures
        define_constants(m, es + more) is None,
    decreases more.len(),
{
    if more.len() == 0 {
        assert(es + more =~= es);
    } else {
        lemma_define_none(m, es, more.drop_last());
        assert((es + more).drop_last() =~= es + more.drop_last());
    }
}

/// The constant a config line defines (see [`const_entry`]).
fn const_line(line: &Vec<char>) -> (r: Option<(String, String)>)
    ensures
        match r {
            Some((n, v)) => const_entry(line@) == Some((n@, v@)),
            None => const_entry(line@) is None,
        },
{
    let vlen = line.len();
    if let Some(eq) = find_char(line, '=') {
        let mut name = trim_chars(&sub_chars(line, 0, eq));
        let value = trim_chars(&sub_chars(line, eq + 1, vlen));
        proof {
            assert(line@.subrange(0, eq as int) == line@.take(eq as int));
            assert(line@.subrange(eq + 1, vlen as int) == line@.skip(eq + 1));
        }
        if name.len() > 0 && name[0] == '^' {
            let nlen = name.len();
            name = sub_chars(&name, 1, nlen);
            proof {
                assert(name@ == trim(line@.take(eq as int)).skip(1));
            }
        }
        if name.len() > 0 {
            let n = value.len();
            let val = if n >= 2 && value[0] == '"' && value[n - 1] == '"' {
                sub_chars(&value, 1, n - 1)
            } else {
                value
            };
            return Some((string_from_chars(&name), string_from_chars(&val)));
        }
    }
    None
}

/// Registers the constants of `.constant` files (see [`file_constants`]),
/// file by file. Returns false, stopping there, where a coordinate value's
/// absolute position does not fit in an `i32`.
pub fn load_constant_files(registry: &mut SymbolRegistry, texts: &Vec<String>) -> (ok: bool)
    ensures
        ok == define_constants(old(registry).constant_map(), file_constants(texts@.map_values(|t: String| t@))) is Some,
        ok ==> define_constants(old(registry).constant_map(), file_constants(texts@.map_values(|t: String| t@)))
            == Some(final(registry).constant_map()),
        final(registry).command_map() == old(registry).command_map(),
        final(registry).entity_map() == old(registry).entity_map(),
        final(registry).game_var_map() == old(registry).game_var_map(),
        final(registry).script_map() == old(registry).script_map(),
{
    let ghost ts = texts@.map_values(|t: String| t@);
    let ghost m0 = registry.constant_map();
    let mut f: usize = 0;
    while f < texts.len()
        invariant
            f <= texts@.len(),
            ts == texts@.map_values(|t: String| t@),
            m0 == old(registry).constant_map(),
            define_constants(m0, file_constants(ts.take(f as int))) == Some(registry.constant_map()),
            registry.command_map() == old(registry).command_map(),
            registry.entity_map() == old(registry).entity_map(),
            registry.game_var_map() == old(registry).game_var_map(),
            registry.script_map() == old(registry).script_map(),
        decreases texts@.len() - f,
    {
        let lines = strip_comments(texts[f].as_str());
        let ghost ls = lines@.map_values(|l: String| l@);
        let ghost base = file_constants(ts.take(f as int));
        proof {
            assert(ts.take(f + 1).drop_last() =~= ts.take(f as int));
            assert(ts.take(f + 1).last() == texts@[f as int]@);
            assert(file_constants(ts.take(f + 1)) == base + const_entries(ls));
            assert(ls.take(0) =~= Seq::<Seq<char>>::empty());
            assert(base + const_entries(ls.take(0)) =~= base);
        }
        let mut k: usize = 0;
        while k < lines.len()
            invariant
                k <= lines@.len(),
                f < texts@.len(),
                ts == texts@.map_values(|t: String| t@),
                ls == lines@.map_values(|l: String| l@),
                base == file_constants(ts.take(f as int)),
                file_constants(ts.take(f + 1)) == base + const_entries(ls),
                m0 == old(registry).constant_map(),
                define_constants(m0, base + const_entries(ls.take(k as int))) == Some(registry.constant_map()),
                registry.command_map() == old(registry).command_map(),
                registry.entity_map() == old(registry).entity_map(),
                registry.game_var_map() == old(registry).game_var_map(),
                registry.script_map() == old(registry).script_map(),
            decreases lines@.len() - k,
        {
            let v = chars_of(lines[k].as_str());
            let ghost p = base + const_entries(ls.take(k as int));
            proof {
                assert(ls.take(k + 1).drop_last() =~= ls.take(k as int));
                assert(ls.take(k + 1).last() == v@);
            }
            match const_line(&v) {
                Some((name, val)) => {
                    let ghost e = (name@, val@);
                    proof {
                        assert(base + const_entries(ls.take(k + 1)) =~= p.push(e));
                        assert(p.push(e).drop_last() =~= p);
                    }
                    if !register_constant_value(registry, name, val.as_str()) {
                        proof {
                            assert(define_constants(m0, p.push(e)) is None);
                            lemma_define_fails(m0, ts, f as int, ls, k + 1);
                        }
                        return false;
                    }
                },
                None => {
                    proof {
                        assert(base + const_entries(ls.take(k + 1)) =~= p);
                    }
                },
            }
            k += 1;
        }
        proof {
            assert(ls.take(lines@.len() as int) =~= ls);
        }
        f += 1;
    }
    proof {
        assert(ts.take(texts@.len() as int) =~= ts);
    }
    true
}

proof fn lemma_define_fails(m0: Map<Seq<char>, SymbolView>, ts: Seq<Seq<char>>, f: int, ls: Seq<Seq<char>>, k: int)
    requires
        0 <= f < ts.len(),
        0 <= k <= ls.len(),
        file_constants(ts.take(f + 1)) == file_constants(ts.take(f)) + const_entries(ls),
        define_constants(m0, file_constants(ts.take(f)) + const_entries(ls.take(k))) is None,
    ensures
        define_constants(m0, file_constants(ts)) is None,
{
    let base = file_constants(ts.take(f));
    lemma_const_entries_prefix(ls, k);
    let rest_k = const_entries(ls).skip(const_entries(ls.take(k)).len() as int);
    lemma_define_none(m0, base + const_entries(ls.take(k)), rest_k);
    assert(base + const_entries(ls.take(k)) + rest_k =~= base + const_entries(ls));
    lemma_file_constants_split(ts, f + 1);
    let later = file_constants(ts).skip(file_constants(ts.take(f + 1)).len() as int);
    lemma_define_none(m0, base + const_entries(ls), later);
}

proof fn lemma_const_entries_prefix(ls: Seq<Seq<char>>, k: int)
    requires
        0 <= k <= ls.len(),
    ensures
        const_entries(ls.take(k)).len() <= const_entries(ls).len(),
        const_entries(ls) == const_entries(ls.take(k)) + const_entries(ls).skip(const_entries(ls.take(k)).len() as int),
    decreases ls.len() - k,
{
    if k == ls.len() {
        assert(ls.take(k) =~= ls);
        assert(const_entries(ls).skip(const_entries(ls).len() as int) =~= Seq::<(Seq<char>, Seq<char>)>::empty());
        assert(const_entries(ls) + Seq::<(Seq<char>, Seq<char>)>::empty() =~= const_entries(ls));
    } else {
        lemma_const_entries_prefix(ls, k + 1);
        lemma_take_step(ls, k);
        let a = const_entries(ls.take(k));
        let b = const_entries(ls.take(k + 1));
        let all = const_entries(ls);
        assert(all == b + all.skip(b.len() as int));
        if const_entry(ls[k]) is Some {
            assert(b == a.push(const_entry(ls[k])->Some_0));
            assert(all.skip(a.len() as int) =~= seq![const_entry(ls[k])->Some_0] + all.skip(b.len() as int));
            assert(all =~= a + all.skip(a.len() as int));
        } else {
            assert(b == a);
        }
    }
}

proof fn lemma_file_constants_split(ts: Seq<Seq<char>>, f: int)
    requires
        0 <= f <= ts.len(),
    ensures
        file_constants(ts.take(f)).len() <= file_constants(ts).len(),
        file_constants(ts) == file_constants(ts.take(f)) + file_constants(ts).skip(file_constants(ts.take(f)).len() as int),
    decreases ts.len() - f,
{
    if f == ts.len() {
        assert(ts.take(f) =~= ts);
        assert(file_constants(ts).skip(file_constants(ts).len() as int) =~= Seq::<(Seq<char>, Seq<char>)>::empty());
        assert(file_constants(ts) + Seq::<(Seq<char>, Seq<char>)>::empty() =~= file_constants(ts));
    } else {
        lemma_file_constants_split(ts, f + 1);
        lemma_take_step(ts, f);
        let a = file_constants(ts.take(f));
        let b = file_constants(ts.take(f + 1));
        let all = file_constants(ts);
        let ls = text_lines(ts[f]);
        let mid = const_entries(strip_lines(ls, ls.len() as int).1);
        assert(b == a + mid);
        assert(all.skip(a.len() as int) =~= mid + all.skip(b.len() as int));
        assert(all =~= a + all.skip(a.len() as int));
    }
}

/// The entity constants the engine defines for every revision, in
/// registration order: npc modes, npc stats, player stats, font metrics and
/// loc shapes.
pub open spec fn engine_constants() -> Seq<(Seq<char>, Type, i32)> {
    seq![
        ("null"@, Type::NpcMode, -1i32), ("none"@, Type::NpcMode, 0i32), ("wander"@, Type::NpcMode, 1i32),
        ("patrol"@, Type::NpcMode, 2i32), ("playerescape"@, Type::NpcMode, 3i32), ("playerfollow"@, Type::NpcMode, 4i32),
        ("playerface"@, Type::NpcMode, 5i32), ("playerfaceclose"@, Type::NpcMode, 6i32), ("opplayer1"@, Type::NpcMode, 7i32),
        ("opplayer2"@, Type::NpcMode, 8i32), ("opplayer3"@, Type::NpcMode, 9i32), ("opplayer4"@, Type::NpcMode, 10i32),
        ("opplayer5"@, Type::NpcMode, 11i32), ("applayer1"@, Type::NpcMode, 12i32), ("applayer2"@, Type::NpcMode, 13i32),
        ("applayer3"@, Type::NpcMode, 14i32), ("applayer4"@, Type::NpcMode, 15i32), ("applayer5"@, Type::NpcMode, 16i32),
        ("oploc1"@, Type::NpcMode, 17i32), ("oploc2"@, Type::NpcMode, 18i32), ("oploc3"@, Type::NpcMode, 19i32),
        ("oploc4"@, Type::NpcMode, 20i32), ("oploc5"@, Type::NpcMode, 21i32), ("aploc1"@, Type::NpcMode, 22i32),
        ("aploc2"@, Type::NpcMode, 23i32), ("aploc3"@, Type::NpcMode, 24i32), ("aploc4"@, Type::NpcMode, 25i32),
        ("aploc5"@, Type::NpcMode, 26i32), ("opobj1"@, Type::NpcMode, 27i32), ("opobj2"@, Type::NpcMode, 28i32),
        ("opobj3"@, Type::NpcMode, 29i32), ("opobj4"@, Type::NpcMode, 30i32), ("opobj5"@, Type::NpcMode, 31i32),
        ("apobj1"@, Type::NpcMode, 32i32), ("apobj2"@, Type::NpcMode, 33i32), ("apobj3"@, Type::NpcMode, 34i32),
        ("apobj4"@, Type::NpcMode, 35i32), ("apobj5"@, Type::NpcMode, 36i32), ("opnpc1"@, Type::NpcMode, 37i32),
        ("opnpc2"@, Type::NpcMode, 38i32), ("opnpc3"@, Type::NpcMode, 39i32), ("opnpc4"@, Type::NpcMode, 40i32),
        ("opnpc5"@, Type::NpcMode, 41i32), ("apnpc1"@, Type::NpcMode, 42i32), ("apnpc2"@, Type::NpcMode, 43i32),
        ("apnpc3"@, Type::NpcMode, 44i32), ("apnpc4"@, Type::NpcMode, 45i32), ("apnpc5"@, Type::NpcMode, 46i32),
        ("queue1"@, Type::NpcMode, 47i32), ("queue2"@, Type::NpcMode, 48i32), ("queue3"@, Type::NpcMode, 49i32),
        ("queue4"@, Type::NpcMode, 50i32), ("queue5"@, Type::NpcMode, 51i32), ("queue6"@, Type::NpcMode, 52i32),
        ("queue7"@, Type::NpcMode, 53i32), ("queue8"@, Type::NpcMode, 54i32), ("queue9"@, Type::NpcMode, 55i32),
        ("queue10"@, Type::NpcMode, 56i32), ("queue11"@, Type::NpcMode, 57i32), ("queue12"@, Type::NpcMode, 58i32),
        ("queue13"@, Type::NpcMode, 59i32), ("queue14"@, Type::NpcMode, 60i32), ("queue15"@, Type::NpcMode, 61i32),
        ("queue16"@, Type::NpcMode, 62i32), ("queue17"@, Type::NpcMode, 63i32), ("queue18"@, Type::NpcMode, 64i32),
        ("queue19"@, Type::NpcMode, 65i32), ("queue20"@, Type::NpcMode, 66i32), ("attack"@, Type::NpcStat, 0i32),
        ("defence"@, Type::NpcStat, 1i32), ("strength"@, Type::NpcStat, 2i32), ("hitpoints"@, Type::NpcStat, 3i32),
        ("ranged"@, Type::NpcStat, 4i32), ("magic"@, Type::NpcStat, 5i32), ("attack"@, Type::Stat, 0i32),
        ("defence"@, Type::Stat, 1i32), ("strength"@, Type::Stat, 2i32), ("hitpoints"@, Type::Stat, 3i32),
        ("ranged"@, Type::Stat, 4i32), ("prayer"@, Type::Stat, 5i32), ("magic"@, Type::Stat, 6i32),
        ("cooking"@, Type::Stat, 7i32), ("woodcutting"@, Type::Stat, 8i32), ("fletching"@, Type::Stat, 9i32),
        ("fishing"@, Type::Stat, 10i32), ("firemaking"@, Type::Stat, 11i32), ("crafting"@, Type::Stat, 12i32),
        ("smithing"@, Type::Stat, 13i32), ("mining"@, Type::Stat, 14i32), ("herblore"@, Type::Stat, 15i32),
        ("agility"@, Type::Stat, 16i32), ("thieving"@, Type::Stat, 17i32), ("slayer"@, Type::Stat, 18i32),
        ("stat18"@, Type::Stat, 18i32), ("farming"@, Type::Stat, 19i32), ("stat19"@, Type::Stat, 19i32),
        ("runecraft"@, Type::Stat, 20i32), ("hunter"@, Type::Stat, 21i32), ("construction"@, Type::Stat, 22i32),
        ("summoning"@, Type::Stat, 23i32), ("dungeoneering"@, Type::Stat, 24i32), ("p11"@, Type::FontMetrics, 0i32),
        ("p12"@, Type::FontMetrics, 1i32), ("b12"@, Type::FontMetrics, 2i32), ("q8"@, Type::FontMetrics, 3i32),
        ("p11_full"@, Type::FontMetrics, 0i32), ("p12_full"@, Type::FontMetrics, 1i32), ("b12_full"@, Type::FontMetrics, 2i32),
        ("q8_full"@, Type::FontMetrics, 3i32), ("wall_straight"@, Type::LocShape, 0i32), ("wall_diagonalcorner"@, Type::LocShape, 1i32),
        ("wall_l"@, Type::LocShape, 2i32), ("wall_squarecorner"@, Type::LocShape, 3i32), ("walldecor_straight_nooffset"@, Type::LocShape, 4i32),
        ("walldecor_straight_offset"@, Type::LocShape, 5i32), ("walldecor_diagonal_offset"@, Type::LocShape, 6i32), ("walldecor_diagonal_nooffset"@, Type::LocShape, 7i32),
        ("walldecor_diagonal_both"@, Type::LocShape, 8i32), ("wall_diagonal"@, Type::LocShape, 9i32), ("centrepiece_straight"@, Type::LocShape, 10i32),
        ("centrepiece_diagonal"@, Type::LocShape, 11i32), ("roof_straight"@, Type::LocShape, 12i32), ("roof_diagonal_with_roofedge"@, Type::LocShape, 13i32),
        ("roof_diagonal"@, Type::LocShape, 14i32), ("roof_l_concave"@, Type::LocShape, 15i32), ("roof_l_convex"@, Type::LocShape, 16i32),
        ("roof_flat"@, Type::LocShape, 17i32), ("roofedge_straight"@, Type::LocShape, 18i32), ("roofedge_diagonalcorner"@, Type::LocShape, 19i32),
        ("roofedge_l"@, Type::LocShape, 20i32), ("roofedge_squarecorner"@, Type::LocShape, 21i32), ("grounddecor"@, Type::LocShape, 22i32),
    ]
}

/// Whether no entry of `t` after `j` (and before `n`) names `t[j].0`.
pub open spec fn last_of_name(t: Seq<(Seq<char>, Type, i32)>, j: int, n: int) -> bool {
    forall|i: int| j < i < n ==> (#[trigger] t[i]).0 != t[j].0
}

/// Whether no entry of `t` before `n` names `name` with type `ty`, from `j` on.
pub open spec fn no_typed_from(t: Seq<(Seq<char>, Type, i32)>, name: Seq<char>, ty: Type, j: int, n: int) -> bool {
    forall|i: int| j <= i < n ==> !((#[trigger] t[i]).0 == name && t[i].1 == ty)
}

/// The id typed lookup gave for `name` and `ty` in `old`.
pub open spec fn old_variant(old: Map<Seq<char>, crate::symbol::EntityEntry>, name: Seq<char>, ty: Type) -> Option<i32> {
    if old.contains_key(name) {
        crate::symbol::variant_id(old[name].variants@, ty)
    } else {
        None
    }
}

/// Whether `new` is `old` after registering the first `n` entries of `t` in
/// turn (see `SymbolRegistry::register_entity_id`): every registered name is
/// present, its untyped winner is its last entry, each type's id is the last
/// entry of that type, other types keep the ids `old` gave, and names not
/// registered keep their old entries.
pub open spec fn entities_from(
    old: Map<Seq<char>, crate::symbol::EntityEntry>,
    new: Map<Seq<char>, crate::symbol::EntityEntry>,
    t: Seq<(Seq<char>, Type, i32)>,
    n: int,
) -> bool {
    &&& ef_present(new, t, n)
    &&& ef_primary(new, t, n)
    &&& ef_typed(new, t, n)
    &&& ef_kept(old, new, t, n)
    &&& ef_untouched(old, new, t, n)
}

/// Every name of the first `n` entries of `t` is present in `new`.
#[verifier::opaque]
pub open spec fn ef_present(new: Map<Seq<char>, crate::symbol::EntityEntry>, t: Seq<(Seq<char>, Type, i32)>, n: int) -> bool {
    forall|j: int| 0 <= j < n ==> new.contains_key(#[trigger] t[j].0)
}

/// The untyped winner of each name is its last entry among the first `n`.
#[verifier::opaque]
pub open spec fn ef_primary(new: Map<Seq<char>, crate::symbol::EntityEntry>, t: Seq<(Seq<char>, Type, i32)>, n: int) -> bool {
    forall|j: int|
        0 <= j < n && last_of_name(t, j, n) ==> new[(#[trigger] t[j]).0].primary == Some(
            crate::symbol::EntityRef { const_type: t[j].1, id: t[j].2 },
        )
}

/// Each name's id for a type is its last entry of that type among the first `n`.
#[verifier::opaque]
pub open spec fn ef_typed(new: Map<Seq<char>, crate::symbol::EntityEntry>, t: Seq<(Seq<char>, Type, i32)>, n: int) -> bool {
    forall|j: int|
        0 <= j < n && no_typed_from(t, t[j].0, t[j].1, j + 1, n) ==> crate::symbol::variant_id(
            new[(#[trigger] t[j]).0].variants@,
            t[j].1,
        ) == Some(t[j].2)
}

/// Types no entry registers keep the ids `old` gave.
#[verifier::opaque]
pub open spec fn ef_kept(
    old: Map<Seq<char>, crate::symbol::EntityEntry>,
    new: Map<Seq<char>, crate::symbol::EntityEntry>,
    t: Seq<(Seq<char>, Type, i32)>,
    n: int,
) -> bool {
    forall|name: Seq<char>, ty: Type|
        #![trigger new[name].variants@, no_typed_from(t, name, ty, 0, n)]
        new.contains_key(name) && no_typed_from(t, name, ty, 0, n) ==> crate::symbol::variant_id(new[name].variants@, ty)
            == old_variant(old, name, ty)
}

/// Names no entry registers keep their entries.
#[verifier::opaque]
pub open spec fn ef_untouched(
    old: Map<Seq<char>, crate::symbol::EntityEntry>,
    new: Map<Seq<char>, crate::symbol::EntityEntry>,
    t: Seq<(Seq<char>, Type, i32)>,
    n: int,
) -> bool {
    forall|name: Seq<char>|
        (forall|j: int| 0 <= j < n ==> (#[trigger] t[j]).0 != name) ==> #[trigger] new.get(name) == old.get(name)
}

/// What one `register_entity_id(name, ty, id)` does to the entity map.
pub open spec fn entity_step(
    prev: Map<Seq<char>, crate::symbol::EntityEntry>,
    cur: Map<Seq<char>, crate::symbol::EntityEntry>,
    e: (Seq<char>, Type, i32),
) -> bool {
    &&& cur.dom() == prev.dom().insert(e.0)
    &&& cur[e.0].primary == Some(crate::symbol::EntityRef { const_type: e.1, id: e.2 })
    &&& forall|ty: Type|
        crate::symbol::variant_id(#[trigger] cur[e.0].variants@, ty) == if ty == e.1 {
            Some(e.2)
        } else if prev.contains_key(e.0) {
            crate::symbol::variant_id(prev[e.0].variants@, ty)
        } else {
            None
        }
    &&& forall|k: Seq<char>| k != e.0 ==> #[trigger] cur.get(k) == prev.get(k)
}

proof fn lemma_entities_none(m: Map<Seq<char>, crate::symbol::EntityEntry>, t: Seq<(Seq<char>, Type, i32)>)
    ensures
        entities_from(m, m, t, 0),
{
    reveal(ef_present);
    reveal(ef_primary);
    reveal(ef_typed);
    reveal(ef_kept);
    reveal(ef_untouched);
}

proof fn lemma_entities_step(
    old: Map<Seq<char>, crate::symbol::EntityEntry>,
    prev: Map<Seq<char>, crate::symbol::EntityEntry>,
    cur: Map<Seq<char>, crate::symbol::EntityEntry>,
    t: Seq<(Seq<char>, Type, i32)>,
    k: int,
)
    requires
        0 <= k < t.len(),
        entities_from(old, prev, t, k),
        entity_step(prev, cur, t[k]),
    ensures
        entities_from(old, cur, t, k + 1),
{
    reveal(ef_present);
    reveal(ef_primary);
    reveal(ef_typed);
    reveal(ef_kept);
    reveal(ef_untouched);
    let e = t[k];
    assert forall|k2: Seq<char>| k2 != e.0 implies cur.contains_key(k2) == prev.contains_key(k2) && (prev.contains_key(k2) ==> cur[k2] == prev[k2]) by {
        assert(cur.get(k2) == prev.get(k2));
    }
    assert forall|j: int| 0 <= j < k + 1 implies cur.contains_key(#[trigger] t[j].0) by {
        if j < k && t[j].0 != e.0 {
            assert(prev.contains_key(t[j].0));
        }
    }
    assert forall|j: int| 0 <= j < k + 1 && last_of_name(t, j, k + 1) implies cur[(#[trigger] t[j]).0].primary == Some(
        crate::symbol::EntityRef { const_type: t[j].1, id: t[j].2 },
    ) by {
        if j < k {
            assert(t[k].0 != t[j].0);
            assert(last_of_name(t, j, k));
        }
    }
    assert forall|j: int| 0 <= j < k + 1 && no_typed_from(t, t[j].0, t[j].1, j + 1, k + 1) implies crate::symbol::variant_id(
        cur[(#[trigger] t[j]).0].variants@,
        t[j].1,
    ) == Some(t[j].2) by {
        if j < k {
            assert(!(t[k].0 == t[j].0 && t[k].1 == t[j].1));
            assert(no_typed_from(t, t[j].0, t[j].1, j + 1, k));
            assert(prev.contains_key(t[j].0));
            if t[j].0 == e.0 {
                assert(crate::symbol::variant_id(cur[e.0].variants@, t[j].1) == crate::symbol::variant_id(prev[e.0].variants@, t[j].1));
            }
        }
    }
    assert forall|name: Seq<char>, ty: Type|
        cur.contains_key(name) && no_typed_from(t, name, ty, 0, k + 1) implies crate::symbol::variant_id(cur[name].variants@, ty)
            == old_variant(old, name, ty) by {
        assert(no_typed_from(t, name, ty, 0, k));
        assert(!(t[k].0 == name && t[k].1 == ty));
        if name == e.0 {
            assert(crate::symbol::variant_id(cur[e.0].variants@, ty) == if prev.contains_key(e.0) {
                crate::symbol::variant_id(prev[e.0].variants@, ty)
            } else {
                None
            });
            if prev.contains_key(name) {
                assert(crate::symbol::variant_id(prev[name].variants@, ty) == old_variant(old, name, ty));
            } else {
                assert(forall|j: int| 0 <= j < k ==> (#[trigger] t[j]).0 != name);
                assert(prev.get(name) == old.get(name));
            }
        } else {
            assert(prev.contains_key(name));
            assert(cur[name] == prev[name]);
        }
    }
    assert forall|name: Seq<char>|
        (forall|j: int| 0 <= j < k + 1 ==> (#[trigger] t[j]).0 != name) implies #[trigger] cur.get(name) == old.get(name) by {
        assert(t[k].0 != name);
        assert(forall|j: int| 0 <= j < k ==> (#[trigger] t[j]).0 != name);
    }
}

#[verifier::spinoff_prover]
#[verifier::rlimit(40)]
proof fn lemma_compose_present(
    b: Map<Seq<char>, crate::symbol::EntityEntry>,
    c: Map<Seq<char>, crate::symbol::EntityEntry>,
    t1: Seq<(Seq<char>, Type, i32)>,
    t2: Seq<(Seq<char>, Type, i32)>,
)
    requires
        ef_present(b, t1, t1.len() as int),
        ef_present(c, t2, t2.len() as int),
        ef_untouched(b, c, t2, t2.len() as int),
    ensures
        ef_present(c, t1 + t2, (t1 + t2).len() as int),
{
    reveal(ef_present);
    reveal(ef_untouched);
    let t = t1 + t2;
    let n1 = t1.len() as int;
    let n2 = t2.len() as int;
    assert forall|j: int| 0 <= j < t.len() implies c.contains_key(#[trigger] t[j].0) by {
        if j < n1 {
            assert(t[j] == t1[j]);
            assert(b.contains_key(t1[j].0));
            if exists|i: int| 0 <= i < n2 && (#[trigger] t2[i]).0 == t1[j].0 {
                let i = choose|i: int| 0 <= i < n2 && (#[trigger] t2[i]).0 == t1[j].0;
                assert(c.contains_key(t2[i].0));
            } else {
                assert(c.get(t1[j].0) == b.get(t1[j].0));
            }
        } else {
            assert(t[j] == t2[j - n1]);
            assert(c.contains_key(t2[j - n1].0));
        }
    }
}

#[verifier::spinoff_prover]
#[verifier::rlimit(40)]
proof fn lemma_compose_primary(
    b: Map<Seq<char>, crate::symbol::EntityEntry>,
    c: Map<Seq<char>, crate::symbol::EntityEntry>,
    t1: Seq<(Seq<char>, Type, i32)>,
    t2: Seq<(Seq<char>, Type, i32)>,
)
    requires
        ef_primary(b, t1, t1.len() as int),
        ef_present(b, t1, t1.len() as int),
        ef_primary(c, t2, t2.len() as int),
        ef_untouched(b, c, t2, t2.len() as int),
    ensures
        ef_primary(c, t1 + t2, (t1 + t2).len() as int),
{
    reveal(ef_primary);
    reveal(ef_present);
    reveal(ef_untouched);
    let t = t1 + t2;
    let n1 = t1.len() as int;
    let n2 = t2.len() as int;
    let n = t.len() as int;
    assert forall|j: int|
        0 <= j < n && last_of_name(t, j, n) implies c[(#[trigger] t[j]).0].primary == Some(
            crate::symbol::EntityRef { const_type: t[j].1, id: t[j].2 },
        ) by {
        if j < n1 {
            assert(t[j] == t1[j]);
            assert(last_of_name(t1, j, n1)) by {
                assert forall|i: int| j < i < n1 implies (#[trigger] t1[i]).0 != t1[j].0 by {
                    assert(t[i] == t1[i]);
                }
            }
            assert forall|i: int| 0 <= i < n2 implies (#[trigger] t2[i]).0 != t1[j].0 by {
                assert(t[n1 + i] == t2[i]);
            }
            assert(c.get(t1[j].0) == b.get(t1[j].0));
            assert(b.contains_key(t1[j].0));
        } else {
            let k = j - n1;
            assert(t[j] == t2[k]);
            assert(last_of_name(t2, k, n2)) by {
                assert forall|i: int| k < i < n2 implies (#[trigger] t2[i]).0 != t2[k].0 by {
                    assert(t[n1 + i] == t2[i]);
                }
            }
        }
    }
}

#[verifier::spinoff_prover]
#[verifier::rlimit(40)]
proof fn lemma_compose_typed(
    b: Map<Seq<char>, crate::symbol::EntityEntry>,
    c: Map<Seq<char>, crate::symbol::EntityEntry>,
    t1: Seq<(Seq<char>, Type, i32)>,
    t2: Seq<(Seq<char>, Type, i32)>,
)
    requires
        ef_present(b, t1, t1.len() as int),
        ef_typed(b, t1, t1.len() as int),
        ef_present(c, t2, t2.len() as int),
        ef_typed(c, t2, t2.len() as int),
        ef_kept(b, c, t2, t2.len() as int),
        ef_untouched(b, c, t2, t2.len() as int),
    ensures
        ef_typed(c, t1 + t2, (t1 + t2).len() as int),
{
    reveal(ef_typed);
    let t = t1 + t2;
    let n1 = t1.len() as int;
    let n2 = t2.len() as int;
    let n = t.len() as int;
    assert forall|j: int|
        0 <= j < n && no_typed_from(t, t[j].0, t[j].1, j + 1, n) implies crate::symbol::variant_id(
            c[(#[trigger] t[j]).0].variants@,
            t[j].1,
        ) == Some(t[j].2) by {
        if j < n1 {
            assert(t[j] == t1[j]);
            let nm = t1[j].0;
            let ty = t1[j].1;
            assert(no_typed_from(t1, nm, ty, j + 1, n1)) by {
                assert forall|i: int| j + 1 <= i < n1 implies !((#[trigger] t1[i]).0 == nm && t1[i].1 == ty) by {
                    assert(t[i] == t1[i]);
                }
            }
            assert(no_typed_from(t2, nm, ty, 0, n2)) by {
                assert forall|i: int| 0 <= i < n2 implies !((#[trigger] t2[i]).0 == nm && t2[i].1 == ty) by {
                    assert(t[n1 + i] == t2[i]);
                }
            }
            assert(b.contains_key(nm)) by {
                reveal(ef_present);
            }
            if exists|i: int| 0 <= i < n2 && (#[trigger] t2[i]).0 == nm {
                let i = choose|i: int| 0 <= i < n2 && (#[trigger] t2[i]).0 == nm;
                assert(c.contains_key(t2[i].0)) by {
                    reveal(ef_present);
                }
                assert(crate::symbol::variant_id(c[nm].variants@, ty) == old_variant(b, nm, ty)) by {
                    reveal(ef_kept);
                }
            } else {
                assert(c.get(nm) == b.get(nm)) by {
                    reveal(ef_untouched);
                }
            }
        } else {
            let k = j - n1;
            assert(t[j] == t2[k]);
            assert(no_typed_from(t2, t2[k].0, t2[k].1, k + 1, n2)) by {
                assert forall|i: int| k + 1 <= i < n2 implies !((#[trigger] t2[i]).0 == t2[k].0 && t2[i].1 == t2[k].1) by {
                    assert(t[n1 + i] == t2[i]);
                }
            }
        }
    }
}

#[verifier::spinoff_prover]
#[verifier::rlimit(40)]
proof fn lemma_compose_kept(
    a: Map<Seq<char>, crate::symbol::EntityEntry>,
    b: Map<Seq<char>, crate::symbol::EntityEntry>,
    c: Map<Seq<char>, crate::symbol::EntityEntry>,
    t1: Seq<(Seq<char>, Type, i32)>,
    t2: Seq<(Seq<char>, Type, i32)>,
)
    requires
        ef_present(b, t1, t1.len() as int),
        ef_kept(a, b, t1, t1.len() as int),
        ef_untouched(a, b, t1, t1.len() as int),
        ef_kept(b, c, t2, t2.len() as int),
    ensures
        ef_kept(a, c, t1 + t2, (t1 + t2).len() as int),
{
    reveal(ef_kept);
    let t = t1 + t2;
    let n1 = t1.len() as int;
    let n2 = t2.len() as int;
    let n = t.len() as int;
    assert forall|name: Seq<char>, ty: Type|
        c.contains_key(name) && no_typed_from(t, name, ty, 0, n) implies crate::symbol::variant_id(c[name].variants@, ty)
            == old_variant(a, name, ty) by {
        assert(no_typed_from(t2, name, ty, 0, n2)) by {
            assert forall|i: int| 0 <= i < n2 implies !((#[trigger] t2[i]).0 == name && t2[i].1 == ty) by {
                assert(t[n1 + i] == t2[i]);
            }
        }
        assert(no_typed_from(t1, name, ty, 0, n1)) by {
            assert forall|i: int| 0 <= i < n1 implies !((#[trigger] t1[i]).0 == name && t1[i].1 == ty) by {
                assert(t[i] == t1[i]);
            }
        }
        assert(crate::symbol::variant_id(c[name].variants@, ty) == old_variant(b, name, ty));
        if b.contains_key(name) {
            assert(crate::symbol::variant_id(b[name].variants@, ty) == old_variant(a, name, ty));
        } else {
            assert forall|j: int| 0 <= j < n1 implies (#[trigger] t1[j]).0 != name by {
                reveal(ef_present);
                assert(b.contains_key(t1[j].0));
            }
            assert(b.get(name) == a.get(name)) by {
                reveal(ef_untouched);
            }
        }
    }
}

#[verifier::spinoff_prover]
#[verifier::rlimit(40)]
proof fn lemma_compose_untouched(
    a: Map<Seq<char>, crate::symbol::EntityEntry>,
    b: Map<Seq<char>, crate::symbol::EntityEntry>,
    c: Map<Seq<char>, crate::symbol::EntityEntry>,
    t1: Seq<(Seq<char>, Type, i32)>,
    t2: Seq<(Seq<char>, Type, i32)>,
)
    requires
        ef_untouched(a, b, t1, t1.len() as int),
        ef_untouched(b, c, t2, t2.len() as int),
    ensures
        ef_untouched(a, c, t1 + t2, (t1 + t2).len() as int),
{
    reveal(ef_untouched);
    let t = t1 + t2;
    let n1 = t1.len() as int;
    let n2 = t2.len() as int;
    let n = t.len() as int;
    assert forall|name: Seq<char>|
        (forall|j: int| 0 <= j < n ==> (#[trigger] t[j]).0 != name) implies #[trigger] c.get(name) == a.get(name) by {
        assert forall|j: int| 0 <= j < n1 implies (#[trigger] t1[j]).0 != name by {
            assert(t[j] == t1[j]);
        }
        assert forall|j: int| 0 <= j < n2 implies (#[trigger] t2[j]).0 != name by {
            assert(t[n1 + j] == t2[j]);
        }
    }
}

/// Registering `t1` and then `t2` is registering `t1 + t2`.
proof fn lemma_entities_compose(
    a: Map<Seq<char>, crate::symbol::EntityEntry>,
    b: Map<Seq<char>, crate::symbol::EntityEntry>,
    c: Map<Seq<char>, crate::symbol::EntityEntry>,
    t1: Seq<(Seq<char>, Type, i32)>,
    t2: Seq<(Seq<char>, Type, i32)>,
)
    requires
        entities_from(a, b, t1, t1.len() as int),
        entities_from(b, c, t2, t2.len() as int),
    ensures
        entities_from(a, c, t1 + t2, (t1 + t2).len() as int),
{
    lemma_compose_present(b, c, t1, t2);
    lemma_compose_primary(b, c, t1, t2);
    lemma_compose_typed(b, c, t1, t2);
    lemma_compose_kept(a, b, c, t1, t2);
    lemma_compose_untouched(a, b, c, t1, t2);
}

/// Registers each `(name, type, id)` of `table` in turn.
fn register_entities(registry: &mut SymbolRegistry, table: &Vec<(&str, Type, i32)>)
    ensures
        entities_from(
            old(registry).entity_map(),
            final(registry).entity_map(),
            table@.map_values(|e: (&str, Type, i32)| (e.0@, e.1, e.2)),
            table@.len() as int,
        ),
        final(registry).command_map() == old(registry).command_map(),
        final(registry).script_map() == old(registry).script_map(),
        final(registry).component_map() == old(registry).component_map(),
        final(registry).interface_map() == old(registry).interface_map(),
        final(registry).game_var_map() == old(registry).game_var_map(),
        final(registry).type_char_map() == old(registry).type_char_map(),
        final(registry).preloaded_map() == old(registry).preloaded_map(),
{
    let ghost t = table@.map_values(|e: (&str, Type, i32)| (e.0@, e.1, e.2));
    let ghost start = registry.entity_map();
    proof {
        lemma_entities_none(start, t);
    }
    let mut k: usize = 0;
    while k < table.len()
        invariant
            registry.interface_map() == old(registry).interface_map(),
            registry.game_var_map() == old(registry).game_var_map(),
            registry.type_char_map() == old(registry).type_char_map(),
            registry.preloaded_map() == old(registry).preloaded_map(),
            k <= table@.len(),
            t == table@.map_values(|e: (&str, Type, i32)| (e.0@, e.1, e.2)),
            start == old(registry).entity_map(),
            entities_from(start, registry.entity_map(), t, k as int),
            registry.command_map() == old(registry).command_map(),
            registry.script_map() == old(registry).script_map(),
            registry.component_map() == old(registry).component_map(),
        decreases table@.len() - k,
    {
        let (name, ty, id) = table[k];
        let ghost prev = registry.entity_map();
        registry.register_entity_id(crate::strings::to_owned_string(name), ty, id);
        proof {
            assert(t[k as int] == (name@, ty, id));
            lemma_entities_step(start, prev, registry.entity_map(), t, k as int);
        }
        k += 1;
    }
}

/// Registers the entity constants the engine defines for every revision:
/// npc modes, npc and player stats (a player stat wins over an npc stat of
/// the same name), font metrics and loc shapes.
pub fn register_engine_constants(registry: &mut SymbolRegistry)
    ensures
        entities_from(old(registry).entity_map(), final(registry).entity_map(), engine_constants(), engine_constants().len() as int),
        final(registry).command_map() == old(registry).command_map(),
        final(registry).script_map() == old(registry).script_map(),
        final(registry).component_map() == old(registry).component_map(),
        final(registry).interface_map() == old(registry).interface_map(),
        final(registry).game_var_map() == old(registry).game_var_map(),
        final(registry).type_char_map() == old(registry).type_char_map(),
        final(registry).preloaded_map() == old(registry).preloaded_map(),
{
    let table: Vec<(&str, Type, i32)> = vec![
        ("null", Type::NpcMode, -1), ("none", Type::NpcMode, 0), ("wander", Type::NpcMode, 1),
        ("patrol", Type::NpcMode, 2), ("playerescape", Type::NpcMode, 3), ("playerfollow", Type::NpcMode, 4),
        ("playerface", Type::NpcMode, 5), ("playerfaceclose", Type::NpcMode, 6),
        ("opplayer1", Type::NpcMode, 7), ("opplayer2", Type::NpcMode, 8), ("opplayer3", Type::NpcMode, 9),
        ("opplayer4", Type::NpcMode, 10), ("opplayer5", Type::NpcMode, 11),
        ("applayer1", Type::NpcMode, 12), ("applayer2", Type::NpcMode, 13), ("applayer3", Type::NpcMode, 14),
        ("applayer4", Type::NpcMode, 15), ("applayer5", Type::NpcMode, 16),
        ("oploc1", Type::NpcMode, 17), ("oploc2", Type::NpcMode, 18), ("oploc3", Type::NpcMode, 19),
        ("oploc4", Type::NpcMode, 20), ("oploc5", Type::NpcMode, 21),
        ("aploc1", Type::NpcMode, 22), ("aploc2", Type::NpcMode, 23), ("aploc3", Type::NpcMode, 24),
        ("aploc4", Type::NpcMode, 25), ("aploc5", Type::NpcMode, 26),
        ("opobj1", Type::NpcMode, 27), ("opobj2", Type::NpcMode, 28), ("opobj3", Type::NpcMode, 29),
        ("opobj4", Type::NpcMode, 30), ("opobj5", Type::NpcMode, 31),
        ("apobj1", Type::NpcMode, 32), ("apobj2", Type::NpcMode, 33), ("apobj3", Type::NpcMode, 34),
        ("apobj4", Type::NpcMode, 35), ("apobj5", Type::NpcMode, 36),
        ("opnpc1", Type::NpcMode, 37), ("opnpc2", Type::NpcMode, 38), ("opnpc3", Type::NpcMode, 39),
        ("opnpc4", Type::NpcMode, 40), ("opnpc5", Type::NpcMode, 41),
        ("apnpc1", Type::NpcMode, 42), ("apnpc2", Type::NpcMode, 43), ("apnpc3", Type::NpcMode, 44),
        ("apnpc4", Type::NpcMode, 45), ("apnpc5", Type::NpcMode, 46),
        ("queue1", Type::NpcMode, 47), ("queue2", Type::NpcMode, 48), ("queue3", Type::NpcMode, 49),
        ("queue4", Type::NpcMode, 50), ("queue5", Type::NpcMode, 51), ("queue6", Type::NpcMode, 52),
        ("queue7", Type::NpcMode, 53), ("queue8", Type::NpcMode, 54), ("queue9", Type::NpcMode, 55),
        ("queue10", Type::NpcMode, 56), ("queue11", Type::NpcMode, 57), ("queue12", Type::NpcMode, 58),
        ("queue13", Type::NpcMode, 59), ("queue14", Type::NpcMode, 60), ("queue15", Type::NpcMode, 61),
        ("queue16", Type::NpcMode, 62), ("queue17", Type::NpcMode, 63), ("queue18", Type::NpcMode, 64),
        ("queue19", Type::NpcMode, 65), ("queue20", Type::NpcMode, 66),
        ("attack", Type::NpcStat, 0), ("defence", Type::NpcStat, 1), ("strength", Type::NpcStat, 2),
        ("hitpoints", Type::NpcStat, 3), ("ranged", Type::NpcStat, 4), ("magic", Type::NpcStat, 5),
        ("attack", Type::Stat, 0), ("defence", Type::Stat, 1), ("strength", Type::Stat, 2),
        ("hitpoints", Type::Stat, 3), ("ranged", Type::Stat, 4), ("prayer", Type::Stat, 5),
        ("magic", Type::Stat, 6), ("cooking", Type::Stat, 7), ("woodcutting", Type::Stat, 8),
        ("fletching", Type::Stat, 9), ("fishing", Type::Stat, 10), ("firemaking", Type::Stat, 11),
        ("crafting", Type::Stat, 12), ("smithing", Type::Stat, 13), ("mining", Type::Stat, 14),
        ("herblore", Type::Stat, 15), ("agility", Type::Stat, 16), ("thieving", Type::Stat, 17),
        ("slayer", Type::Stat, 18), ("stat18", Type::Stat, 18), ("farming", Type::Stat, 19),
        ("stat19", Type::Stat, 19), ("runecraft", Type::Stat, 20), ("hunter", Type::Stat, 21),
        ("construction", Type::Stat, 22), ("summoning", Type::Stat, 23), ("dungeoneering", Type::Stat, 24),
        ("p11", Type::FontMetrics, 0), ("p12", Type::FontMetrics, 1), ("b12", Type::FontMetrics, 2),
        ("q8", Type::FontMetrics, 3), ("p11_full", Type::FontMetrics, 0), ("p12_full", Type::FontMetrics, 1),
        ("b12_full", Type::FontMetrics, 2), ("q8_full", Type::FontMetrics, 3),
        ("wall_straight", Type::LocShape, 0), ("wall_diagonalcorner", Type::LocShape, 1),
        ("wall_l", Type::LocShape, 2), ("wall_squarecorner", Type::LocShape, 3),
        ("walldecor_straight_nooffset", Type::LocShape, 4), ("walldecor_straight_offset", Type::LocShape, 5),
        ("walldecor_diagonal_offset", Type::LocShape, 6), ("walldecor_diagonal_nooffset", Type::LocShape, 7),
        ("walldecor_diagonal_both", Type::LocShape, 8), ("wall_diagonal", Type::LocShape, 9),
        ("centrepiece_straight", Type::LocShape, 10), ("centrepiece_diagonal", Type::LocShape, 11),
        ("roof_straight", Type::LocShape, 12), ("roof_diagonal_with_roofedge", Type::LocShape, 13),
        ("roof_diagonal", Type::LocShape, 14), ("roof_l_concave", Type::LocShape, 15),
        ("roof_l_convex", Type::LocShape, 16), ("roof_flat", Type::LocShape, 17),
        ("roofedge_straight", Type::LocShape, 18), ("roofedge_diagonalcorner", Type::LocShape, 19),
        ("roofedge_l", Type::LocShape, 20), ("roofedge_squarecorner", Type::LocShape, 21),
        ("grounddecor", Type::LocShape, 22),
    ];
    assert(table@.map_values(|e: (&str, Type, i32)| (e.0@, e.1, e.2)) =~= engine_constants());
    register_entities(registry, &table);
}

// ── Engine command signatures ──────────────────────────────────────────────

/// The end of the first word of `d` at or after `i` (the first white space).
pub open spec fn word_end(d: Seq<char>, i: int) -> int
    decreases d.len() - i,
{
    if 0 <= i < d.len() && !crate::source_text::white(d[i]) {
        word_end(d, i + 1)
    } else {
        i
    }
}

/// The type a parameter declaration like `synth $sound` or `int` names: its
/// first word, `int` where that names no type.
pub open spec fn decl_type(d: Seq<char>) -> Type {
    match crate::types::named_type(d.take(word_end(d, 0))) {
        Some(t) => t,
        None => Type::Int,
    }
}

/// `[x]` if `x` is not empty, else nothing.
pub open spec fn keep_nonempty(x: Seq<char>) -> Seq<Seq<char>> {
    if x.len() > 0 {
        seq![x]
    } else {
        Seq::empty()
    }
}

/// The comma-separated items of `s` from the item starting at `start`, with
/// the scan at `i`: each item trimmed, blank ones dropped.
pub open spec fn items_in(s: Seq<char>, start: int, i: int) -> Seq<Seq<char>>
    decreases s.len() - i,
{
    if i >= s.len() {
        keep_nonempty(trim(s.subrange(start, s.len() as int)))
    } else if s[i] == ',' {
        keep_nonempty(trim(s.subrange(start, i))) + items_in(s, i + 1, i + 1)
    } else {
        items_in(s, start, i + 1)
    }
}

/// The first position at or after `from` of `c` in `v`.
pub open spec fn first_at(v: Seq<char>, c: char, from: int) -> Option<int>
    decreases v.len() - from,
{
    if from < 0 || from >= v.len() {
        None
    } else if v[from] == c {
        Some(from)
    } else {
        first_at(v, c, from + 1)
    }
}

/// The known types among `names`, in order.
pub open spec fn known_types(names: Seq<Seq<char>>) -> Seq<Type>
    decreases names.len(),
{
    if names.len() == 0 {
        Seq::empty()
    } else {
        match crate::types::named_type(names.last()) {
            Some(t) => known_types(names.drop_last()).push(t),
            None => known_types(names.drop_last()),
        }
    }
}

/// A command signature line of `engine.rs2`: the command's name and, where
/// it has a parameter list, its parameter types and known result types.
pub type EngineDecl = (Seq<char>, Option<(Seq<Type>, Seq<Type>)>);

/// The signature a line declares: `[command,name]`, then optionally
/// `(params)` and `(results)`. A line whose parameter list does not close
/// declares nothing.
pub open spec fn engine_decl(line: Seq<char>) -> Option<EngineDecl> {
    let t = trim(line);
    if !crate::strings::is_prefix("[command,"@, t) {
        None
    } else {
        match first_at(t, ']', 9) {
            None => None,
            Some(name_end) => {
                let name = trim(t.subrange(9, name_end));
                match first_at(t, '(', name_end + 1) {
                    None => Some((name, None)),
                    Some(open) => match first_at(t, ')', open + 1) {
                        None => None,
                        Some(close) => {
                            let params = items_in(t.subrange(open + 1, close), 0, 0).map_values(
                                |d: Seq<char>| decl_type(d),
                            );
                            let results = match first_at(t, '(', close + 1) {
                                Some(ro) => match first_at(t, ')', ro + 1) {
                                    Some(rc) => known_types(items_in(t.subrange(ro + 1, rc), 0, 0)),
                                    None => Seq::empty(),
                                },
                                None => Seq::empty(),
                            };
                            Some((name, Some((params, results))))
                        },
                    },
                }
            },
        }
    }
}

/// The signatures declared by `lines`, in order.
pub open spec fn engine_decls(lines: Seq<Seq<char>>) -> Seq<EngineDecl>
    decreases lines.len(),
{
    if lines.len() == 0 {
        Seq::empty()
    } else {
        match engine_decl(lines.last()) {
            Some(d) => engine_decls(lines.drop_last()).push(d),
            None => engine_decls(lines.drop_last()),
        }
    }
}

/// `cmds` with the parameter types of command `name` set, where `name` is a
/// registered command.
pub open spec fn with_params(cmds: Map<Seq<char>, SymbolView>, name: Seq<char>, ps: Seq<Type>) -> Map<Seq<char>, SymbolView> {
    if cmds.contains_key(name) && cmds[name].kind is Command {
        cmds.insert(
            name,
            SymbolView {
                name: cmds[name].name,
                kind: KindView::Command {
                    opcode: cmds[name].kind->Command_opcode,
                    param_types: ps,
                    return_types: cmds[name].kind->Command_return_types,
                },
            },
        )
    } else {
        cmds
    }
}

/// `cmds` with the result types of command `name` set, where `name` is a
/// registered command.
pub open spec fn with_results(cmds: Map<Seq<char>, SymbolView>, name: Seq<char>, rs: Seq<Type>) -> Map<Seq<char>, SymbolView> {
    if cmds.contains_key(name) && cmds[name].kind is Command {
        cmds.insert(
            name,
            SymbolView {
                name: cmds[name].name,
                kind: KindView::Command {
                    opcode: cmds[name].kind->Command_opcode,
                    param_types: cmds[name].kind->Command_param_types,
                    return_types: rs,
                },
            },
        )
    } else {
        cmds
    }
}

/// The parameter table and commands after applying the signatures `ds` in
/// turn: each records its parameter types (none without a list) in the
/// table and on the command, and its result types, if any, on the command.
pub open spec fn apply_engine_decls(
    table: Map<Seq<char>, Seq<Type>>,
    cmds: Map<Seq<char>, SymbolView>,
    ds: Seq<EngineDecl>,
) -> (Map<Seq<char>, Seq<Type>>, Map<Seq<char>, SymbolView>)
    decreases ds.len(),
{
    if ds.len() == 0 {
        (table, cmds)
    } else {
        let (t0, c0) = apply_engine_decls(table, cmds, ds.drop_last());
        let d = ds.last();
        match d.1 {
            None => (t0.insert(d.0, Seq::empty()), c0),
            Some((ps, rs)) => {
                let c1 = with_params(c0, d.0, ps);
                (t0.insert(d.0, ps), if rs.len() > 0 { with_results(c1, d.0, rs) } else { c1 })
            },
        }
    }
}

fn param_decl_type(decl: &Vec<char>) -> (t: Type)
    ensures
        t == decl_type(decl@),
{
    let mut end: usize = 0;
    while end < decl.len() && !crate::source_text::is_white_char(decl[end])
        invariant
            end <= decl@.len(),
            word_end(decl@, 0) == word_end(decl@, end as int),
        decreases decl@.len() - end,
    {
        end += 1;
    }
    let word = string_from_chars(&sub_chars(decl, 0, end));
    proof {
        assert(decl@.subrange(0, end as int) == decl@.take(end as int));
    }
    match Type::from_name(word.as_str()) {
        Some(t) => t,
        None => Type::Int,
    }
}

/// The comma-separated items of `v[from..to]`, each trimmed, blank ones dropped.
fn list_items(v: &Vec<char>, from: usize, to: usize) -> (r: Vec<Vec<char>>)
    requires
        from <= to <= v@.len(),
    ensures
        r@.map_values(|x: Vec<char>| x@) == items_in(v@.subrange(from as int, to as int), 0, 0),
{
    let ghost s = v@.subrange(from as int, to as int);
    let mut items: Vec<Vec<char>> = Vec::new();
    let mut start = from;
    let mut i = from;
    while i < to
        invariant
            from <= start <= i <= to,
            to <= v@.len(),
            s == v@.subrange(from as int, to as int),
            items@.map_values(|x: Vec<char>| x@) + items_in(s, start - from, i - from) == items_in(s, 0, 0),
        decreases to - i,
    {
        let ghost before = items@.map_values(|x: Vec<char>| x@);
        if v[i] == ',' {
            let item = trim_chars(&sub_chars(v, start, i));
            proof {
                assert(s.subrange(start - from, i - from) =~= v@.subrange(start as int, i as int));
                assert(s[i - from] == v@[i as int]);
            }
            if item.len() > 0 {
                items.push(item);
                proof {
                    assert(items@.map_values(|x: Vec<char>| x@) =~= before.push(item@));
                    assert(before.push(item@) + items_in(s, i + 1 - from, i + 1 - from) =~= before + (
                    keep_nonempty(item@) + items_in(s, i + 1 - from, i + 1 - from)));
                }
            } else {
                proof {
                    assert(keep_nonempty(item@) =~= Seq::<Seq<char>>::empty());
                    assert(keep_nonempty(item@) + items_in(s, i + 1 - from, i + 1 - from) =~= items_in(s, i + 1 - from, i + 1 - from));
                }
            }
            start = i + 1;
        } else {
            proof {
                assert(s[i - from] == v@[i as int]);
            }
        }
        i += 1;
    }
    let last = trim_chars(&sub_chars(v, start, to));
    proof {
        assert(s.subrange(start - from, s.len() as int) =~= v@.subrange(start as int, to as int));
    }
    let ghost before = items@.map_values(|x: Vec<char>| x@);
    if last.len() > 0 {
        items.push(last);
        proof {
            assert(items@.map_values(|x: Vec<char>| x@) =~= before + keep_nonempty(last@));
        }
    } else {
        proof {
            assert(before + keep_nonempty(last@) =~= before);
        }
    }
    items
}

/// The first position at or after `from` of `c` in `v`.
fn find_char_from(v: &Vec<char>, c: char, from: usize) -> (r: Option<usize>)
    ensures
        match r {
            Some(k) => first_at(v@, c, from as int) == Some(k as int),
            None => first_at(v@, c, from as int) is None,
        },
{
    let mut k = from;
    while k < v.len()
        invariant
            from <= k,
            first_at(v@, c, from as int) == first_at(v@, c, k as int),
        decreases v@.len() - k,
    {
        if v[k] == c {
            return Some(k);
        }
        k += 1;
    }
    None
}

proof fn lemma_first_at_range(v: Seq<char>, c: char, from: int)
    ensures
        first_at(v, c, from) matches Some(k) ==> from <= k < v.len() && v[k] == c,
    decreases v.len() - from,
{
    if 0 <= from < v.len() && v[from] != c {
        lemma_first_at_range(v, c, from + 1);
    }
}

/// The known types among `names`.
fn known_types_of(names: &Vec<Vec<char>>) -> (r: Vec<Type>)
    ensures
        r@ == known_types(names@.map_values(|x: Vec<char>| x@)),
{
    let ghost ns = names@.map_values(|x: Vec<char>| x@);
    let mut out: Vec<Type> = Vec::new();
    let mut i: usize = 0;
    while i < names.len()
        invariant
            i <= names@.len(),
            ns == names@.map_values(|x: Vec<char>| x@),
            out@ == known_types(ns.take(i as int)),
        decreases names@.len() - i,
    {
        proof {
            assert(ns.take(i + 1).drop_last() =~= ns.take(i as int));
            assert(ns.take(i + 1).last() == names@[i as int]@);
        }
        let word = string_from_chars(&names[i]);
        if let Some(t) = Type::from_name(word.as_str()) {
            out.push(t);
        }
        i += 1;
    }
    assert(ns.take(names@.len() as int) =~= ns);
    out
}

/// The signature line `raw` declares (see [`engine_decl`]).
fn engine_line(raw: &Vec<char>) -> (r: Option<(String, Option<(Vec<Type>, Vec<Type>)>)>)
    ensures
        match r {
            Some((name, sig)) => engine_decl(raw@) == Some((name@, match sig {
                Some((ps, rs)) => Some((ps@, rs@)),
                None => None,
            })),
            None => engine_decl(raw@) is None,
        },
{
    let line = trim_chars(raw);
    let line_len = line.len();
    let ghost t = line@;
    proof {
        reveal_strlit("[command,");
    }
    if !chars_start_with(&line, "[command,") {
        return None;
    }
    let rest_start: usize = 9;
    let name_end = match find_char_from(&line, ']', rest_start) {
        Some(i) => i,
        None => {
            return None;
        },
    };
    proof {
        lemma_first_at_range(t, ']', 9);
    }
    let name = string_from_chars(&trim_chars(&sub_chars(&line, rest_start, name_end)));
    let after = name_end + 1;
    let params_open = match find_char_from(&line, '(', after) {
        Some(i) => i,
        None => {
            return Some((name, None));
        },
    };
    proof {
        lemma_first_at_range(t, '(', after as int);
    }
    let params_close = match find_char_from(&line, ')', params_open + 1) {
        Some(i) => i,
        None => {
            return None;
        },
    };
    proof {
        lemma_first_at_range(t, ')', params_open + 1);
    }
    let decls = list_items(&line, params_open + 1, params_close);
    let ghost ds = decls@.map_values(|x: Vec<char>| x@);
    let mut param_types: Vec<Type> = Vec::new();
    let mut d: usize = 0;
    while d < decls.len()
        invariant
            d <= decls@.len(),
            ds == decls@.map_values(|x: Vec<char>| x@),
            param_types@ == ds.take(d as int).map_values(|x: Seq<char>| decl_type(x)),
        decreases decls@.len() - d,
    {
        param_types.push(param_decl_type(&decls[d]));
        proof {
            assert(ds.take(d + 1).map_values(|x: Seq<char>| decl_type(x)) =~= ds.take(d as int).map_values(
                |x: Seq<char>| decl_type(x),
            ).push(decl_type(ds[d as int])));
        }
        d += 1;
    }
    assert(ds.take(decls@.len() as int) =~= ds);
    let mut results: Vec<Type> = Vec::new();
    if let Some(ret_open) = find_char_from(&line, '(', params_close + 1) {
        proof {
            lemma_first_at_range(t, '(', params_close + 1);
        }
        assert(ret_open < line_len);
        if let Some(ret_close) = find_char_from(&line, ')', ret_open + 1) {
            proof {
                lemma_first_at_range(t, ')', ret_open + 1);
            }
            let names = list_items(&line, ret_open + 1, ret_close);
            results = known_types_of(&names);
        }
    }
    Some((name, Some((param_types, results))))
}

/// Reads the command signatures of `engine.rs2` (see [`engine_decl`]): the
/// parameter types of each go to the table of command parameters and onto
/// the command (a type name that is not known counts as `int`, so the count
/// stays right); known result types, if any, onto the command. A
/// declaration without a parameter list records none.
pub fn load_engine_command_params(registry: &mut SymbolRegistry, text: &str)
    ensures
        (final(registry).command_params_map(), final(registry).command_map()) == apply_engine_decls(
            old(registry).command_params_map(),
            old(registry).command_map(),
            engine_decls(text_lines(text@)),
        ),
        final(registry).command_names() == old(registry).command_names(),
        final(registry).entity_map() == old(registry).entity_map(),
        final(registry).script_map() == old(registry).script_map(),
        final(registry).game_var_map() == old(registry).game_var_map(),
{
    let lines = lines_of(text);
    let ghost ls = text_lines(text@);
    let mut k: usize = 0;
    while k < lines.len()
        invariant
            k <= lines@.len(),
            ls == text_lines(text@),
            lines@.len() == ls.len(),
            forall|i: int| 0 <= i < lines@.len() ==> (#[trigger] lines@[i])@ == ls[i],
            (registry.command_params_map(), registry.command_map()) == apply_engine_decls(
                old(registry).command_params_map(),
                old(registry).command_map(),
                engine_decls(ls.take(k as int)),
            ),
            registry.command_names() == old(registry).command_names(),
            registry.entity_map() == old(registry).entity_map(),
            registry.script_map() == old(registry).script_map(),
            registry.game_var_map() == old(registry).game_var_map(),
        decreases lines@.len() - k,
    {
        proof {
            assert(ls.take(k + 1).drop_last() =~= ls.take(k as int));
            assert(ls.take(k + 1).last() == ls[k as int]);
        }
        let ghost d0 = engine_decls(ls.take(k as int));
        match engine_line(&lines[k]) {
            Some((name, None)) => {
                let empty: Vec<Type> = Vec::new();
                assert(empty@ =~= Seq::<Type>::empty());
                registry.set_command_param_table(name.as_str(), empty);
                proof {
                    let d = (name@, None::<(Seq<Type>, Seq<Type>)>);
                    assert(d0.push(d).drop_last() =~= d0);
                }
            },
            Some((name, Some((ps, rs)))) => {
                let has_results = rs.len() > 0;
                let ghost pv = ps@;
                let ghost rv = rs@;
                registry.set_command_params(name.as_str(), ps);
                if has_results {
                    registry.set_command_returns(name.as_str(), rs);
                }
                proof {
                    let d = (name@, Some((pv, rv)));
                    assert(d0.push(d).drop_last() =~= d0);
                }
            },
            None => {},
        }
        k += 1;
    }
    proof {
        assert(ls.take(lines@.len() as int) =~= ls);
    }
}

// ── Entity packs ───────────────────────────────────────────────────────────

/// The id text and name of a pack line `id=name` whose name is neither
/// empty nor `null`.
pub open spec fn named(line: Seq<char>) -> Option<(Seq<char>, Seq<char>)> {
    match pack_fields(line) {
        Some((id, name)) => if name.len() == 0 || name == "null"@ {
            None
        } else {
            Some((id, name))
        },
        None => None,
    }
}

/// The interface root of a pack line: `id=name` with no `:` on either side.
pub open spec fn root_of(line: Seq<char>) -> Option<(i32, Seq<char>)> {
    match named(line) {
        Some((id, name)) => if !id.contains(':') && !name.contains(':') {
            match i32_value(id) {
                Some(v) => Some((v, name)),
                None => None,
            }
        } else {
            None
        },
        None => None,
    }
}

/// The interface roots of `lines`, in order.
pub open spec fn roots(lines: Seq<Seq<char>>) -> Seq<(i32, Seq<char>)>
    decreases lines.len(),
{
    if lines.len() == 0 {
        Seq::empty()
    } else {
        match root_of(lines.last()) {
            Some(r) => roots(lines.drop_last()).push(r),
            None => roots(lines.drop_last()),
        }
    }
}

/// The name of the last root of `rs` with id `id`.
pub open spec fn iface_name(rs: Seq<(i32, Seq<char>)>, id: i32) -> Option<Seq<char>>
    decreases rs.len(),
{
    if rs.len() == 0 {
        None
    } else if rs.last().0 == id {
        Some(rs.last().1)
    } else {
        iface_name(rs.drop_last(), id)
    }
}

/// `m` with each root of `rs` filed in turn, name to id.
pub open spec fn insert_roots(m: Map<Seq<char>, i32>, rs: Seq<(i32, Seq<char>)>) -> Map<Seq<char>, i32>
    decreases rs.len(),
{
    if rs.len() == 0 {
        m
    } else {
        insert_roots(m, rs.drop_last()).insert(rs.last().1, rs.last().0)
    }
}

/// What registering one entity line does: the name, its type, its id, and
/// the interface and component it files, if any.
pub type LineReg = (Seq<char>, Type, i32, Option<(Seq<char>, Seq<char>)>);

/// The registration of pack line `line` of a pack of type `ty`, with the
/// interface roots `rs` (empty outside interface packs). A key
/// `iface:comp` packs the id as `iface << 16 | comp` and files a component
/// under a known interface; in an interface pack, a name `iface:comp` files
/// a component under that interface. Components register as `component`
/// entities.
#[verifier::opaque]
pub open spec fn line_reg(line: Seq<char>, ty: Type, rs: Seq<(i32, Seq<char>)>) -> Option<LineReg> {
    match named(line) {
        None => None,
        Some((id_text, name)) => match index_of_char(id_text, ':') {
            Some(c) => match (i32_value(id_text.take(c)), i32_value(id_text.skip(c + 1))) {
                (Some(iface), Some(comp)) => {
                    let comp_of = match iface_name(rs, iface) {
                        Some(n) => Some((n, name)),
                        None => None,
                    };
                    Some((
                        name,
                        if ty == Type::Interface && comp_of is Some { Type::Component } else { ty },
                        (iface << 16u32) | comp,
                        if ty == Type::Interface { comp_of } else { None },
                    ))
                },
                _ => None,
            },
            None => match i32_value(id_text) {
                Some(id) => {
                    let comp_of = if ty == Type::Interface {
                        match index_of_char(name, ':') {
                            Some(c) => Some((name.take(c), name.skip(c + 1))),
                            None => None,
                        }
                    } else {
                        None
                    };
                    Some((name, if comp_of is Some { Type::Component } else { ty }, id, comp_of))
                },
                None => None,
            },
        },
    }
}

/// The registrations of `lines`, in order.
pub open spec fn line_regs(lines: Seq<Seq<char>>, ty: Type, rs: Seq<(i32, Seq<char>)>) -> Seq<LineReg>
    decreases lines.len(),
{
    if lines.len() == 0 {
        Seq::empty()
    } else {
        match line_reg(lines.last(), ty, rs) {
            Some(r) => line_regs(lines.drop_last(), ty, rs).push(r),
            None => line_regs(lines.drop_last(), ty, rs),
        }
    }
}

/// The entity registrations of `regs`: normalized name, type, id.
pub open spec fn entity_regs(regs: Seq<LineReg>) -> Seq<(Seq<char>, Type, i32)> {
    regs.map_values(|r: LineReg| (crate::strings::normalized_name(r.0), r.1, r.2))
}

/// `m` with the components of `regs` filed in turn.
pub open spec fn insert_components(m: Map<Seq<char>, i32>, regs: Seq<LineReg>) -> Map<Seq<char>, i32>
    decreases regs.len(),
{
    if regs.len() == 0 {
        m
    } else {
        let prev = insert_components(m, regs.drop_last());
        match regs.last().3 {
            Some((iface, comp)) => prev.insert(
                trigger_key(iface, crate::symbol::comp_name_form(comp)),
                regs.last().2,
            ),
            None => prev,
        }
    }
}

/// The interface roots an entity pack of type `ty` defines.
pub open spec fn pack_roots(lines: Seq<Seq<char>>, ty: Type) -> Seq<(i32, Seq<char>)> {
    if ty == Type::Interface {
        roots(lines)
    } else {
        Seq::empty()
    }
}

fn named_pack_line(line: &Vec<char>) -> (r: Option<(Vec<char>, Vec<char>)>)
    ensures
        match r {
            Some((a, b)) => named(line@) == Some((a@, b@)),
            None => named(line@) is None,
        },
{
    match pack_fields_of(line) {
        Some((id_text, name)) => {
            let is_null = name.len() == 4 && name[0] == 'n' && name[1] == 'u' && name[2] == 'l' && name[3] == 'l';
            proof {
                reveal_strlit("null");
                if name@ == "null"@ {
                    assert(is_null);
                }
                if is_null {
                    assert(name@ =~= "null"@);
                }
            }
            if name.len() == 0 || is_null {
                None
            } else {
                Some((id_text, name))
            }
        },
        None => None,
    }
}

/// The name recorded for interface `id`: the last one.
fn interface_name_of(names: &Vec<(i32, String)>, id: i32) -> (r: Option<&String>)
    ensures
        match r {
            Some(n) => iface_name(names@.map_values(|e: (i32, String)| (e.0, e.1@)), id) == Some(n@),
            None => iface_name(names@.map_values(|e: (i32, String)| (e.0, e.1@)), id) is None,
        },
{
    let ghost rs = names@.map_values(|e: (i32, String)| (e.0, e.1@));
    assert(rs.take(names@.len() as int) =~= rs);
    let mut i = names.len();
    while i > 0
        invariant
            i <= names@.len(),
            rs == names@.map_values(|e: (i32, String)| (e.0, e.1@)),
            iface_name(rs, id) == iface_name(rs.take(i as int), id),
        decreases i,
    {
        i -= 1;
        proof {
            assert(rs.take(i + 1).drop_last() =~= rs.take(i as int));
            assert(rs.take(i + 1).last() == rs[i as int]);
        }
        if names[i].0 == id {
            return Some(&names[i].1);
        }
    }
    proof {
        assert(rs.take(0) =~= Seq::<(i32, Seq<char>)>::empty());
    }
    None
}

/// The registration of one pack line (see [`line_reg`]).
fn entity_line(line: &Vec<char>, entity_type: Type, iface_names: &Vec<(i32, String)>) -> (r: Option<(String, Type, i32, Option<(String, String)>)>)
    requires
        entity_type != Type::Interface ==> iface_names@.len() == 0,
    ensures
        match r {
            Some((name, t, idx, comp)) => line_reg(
                line@,
                entity_type,
                iface_names@.map_values(|e: (i32, String)| (e.0, e.1@)),
            ) == Some((name@, t, idx, match comp {
                Some((a, b)) => Some((a@, b@)),
                None => None,
            })),
            None => line_reg(line@, entity_type, iface_names@.map_values(|e: (i32, String)| (e.0, e.1@))) is None,
        },
        r matches Some((_, _, _, comp)) ==> (entity_type != Type::Interface ==> comp is None),
{
    reveal(line_reg);
    let ghost rs = iface_names@.map_values(|e: (i32, String)| (e.0, e.1@));
    let is_interface_pack = entity_type == Type::Interface;
    let (id_text, name) = match named_pack_line(line) {
        Some(f) => f,
        None => {
            return None;
        },
    };
    let name_text = string_from_chars(&name);
    let id_len = id_text.len();
    match find_char(&id_text, ':') {
        Some(colon) => {
            let iface = match parse_i32(&sub_chars(&id_text, 0, colon)) {
                Some(v) => v,
                None => {
                    return None;
                },
            };
            let comp = match parse_i32(&sub_chars(&id_text, colon + 1, id_len)) {
                Some(v) => v,
                None => {
                    return None;
                },
            };
            proof {
                assert(id_text@.subrange(0, colon as int) == id_text@.take(colon as int));
                assert(id_text@.subrange(colon + 1, id_len as int) == id_text@.skip(colon + 1));
            }
            let idx = (iface << 16u32) | comp;
            let component = match interface_name_of(iface_names, iface) {
                Some(iface_name) => {
                    proof {
                        if !is_interface_pack {
                            assert(rs.len() == 0);
                        }
                    }
                    Some((iface_name.clone(), crate::strings::to_owned_string(name_text.as_str())))
                },
                None => None,
            };
            let t = if is_interface_pack && component.is_some() {
                Type::Component
            } else {
                entity_type
            };
            Some((name_text, t, idx, component))
        },
        None => {
            let id = match parse_i32(&id_text) {
                Some(v) => v,
                None => {
                    return None;
                },
            };
            let mut component: Option<(String, String)> = None;
            if is_interface_pack {
                let name_len = name.len();
                if let Some(colon) = find_char(&name, ':') {
                    proof {
                        assert(name@.subrange(0, colon as int) == name@.take(colon as int));
                        assert(name@.subrange(colon + 1, name_len as int) == name@.skip(colon + 1));
                    }
                    component = Some((
                        string_from_chars(&sub_chars(&name, 0, colon)),
                        string_from_chars(&sub_chars(&name, colon + 1, name_len)),
                    ));
                }
            }
            let t = if component.is_some() {
                Type::Component
            } else {
                entity_type
            };
            Some((name_text, t, id, component))
        },
    }
}

proof fn lemma_line_regs_prefix(lines: Seq<Seq<char>>, ty: Type, rs: Seq<(i32, Seq<char>)>, m: int, n: int)
    requires
        0 <= m <= n <= lines.len(),
    ensures
        line_regs(lines.take(m), ty, rs).len() <= line_regs(lines.take(n), ty, rs).len(),
        line_regs(lines.take(n), ty, rs).take(line_regs(lines.take(m), ty, rs).len() as int) == line_regs(
            lines.take(m),
            ty,
            rs,
        ),
    decreases n,
{
    if m == n {
        assert(line_regs(lines.take(n), ty, rs).take(line_regs(lines.take(n), ty, rs).len() as int) =~= line_regs(lines.take(n), ty, rs));
    } else {
        lemma_line_regs_prefix(lines, ty, rs, m, n - 1);
        assert(lines.take(n).drop_last() =~= lines.take(n - 1));
        let a = line_regs(lines.take(n - 1), ty, rs);
        let b = line_regs(lines.take(n), ty, rs);
        let l = line_regs(lines.take(m), ty, rs).len() as int;
        assert(b.take(l) =~= a.take(l));
    }
}

/// Registers pack line `k` of `ls` (see [`load_entity_ids`]), keeping the
/// registry in step with the first `k + 1` lines.
fn register_pack_line(
    registry: &mut SymbolRegistry,
    line: &Vec<char>,
    entity_type: Type,
    iface_names: &Vec<(i32, String)>,
    Ghost(ls): Ghost<Seq<Seq<char>>>,
    Ghost(k): Ghost<int>,
    Ghost(start): Ghost<Map<Seq<char>, crate::symbol::EntityEntry>>,
    Ghost(start_comp): Ghost<Map<Seq<char>, i32>>,
)
    requires
        0 <= k < ls.len(),
        line@ == ls[k],
        entity_type != Type::Interface ==> iface_names@.len() == 0,
        iface_names@.map_values(|e: (i32, String)| (e.0, e.1@)) == pack_roots(ls, entity_type),
        old(registry).component_map() == insert_components(
            start_comp,
            line_regs(ls.take(k), entity_type, pack_roots(ls, entity_type)),
        ),
        entities_from(
            start,
            old(registry).entity_map(),
            entity_regs(line_regs(ls, entity_type, pack_roots(ls, entity_type))),
            line_regs(ls.take(k), entity_type, pack_roots(ls, entity_type)).len() as int,
        ),
    ensures
        final(registry).component_map() == insert_components(
            start_comp,
            line_regs(ls.take(k + 1), entity_type, pack_roots(ls, entity_type)),
        ),
        entities_from(
            start,
            final(registry).entity_map(),
            entity_regs(line_regs(ls, entity_type, pack_roots(ls, entity_type))),
            line_regs(ls.take(k + 1), entity_type, pack_roots(ls, entity_type)).len() as int,
        ),
        final(registry).interface_map() == old(registry).interface_map(),
        final(registry).command_map() == old(registry).command_map(),
        final(registry).script_map() == old(registry).script_map(),
        final(registry).game_var_map() == old(registry).game_var_map(),
        final(registry).type_char_map() == old(registry).type_char_map(),
        final(registry).preloaded_map() == old(registry).preloaded_map(),
{
    let ghost rs = pack_roots(ls, entity_type);
    let ghost all = line_regs(ls, entity_type, rs);
    let ghost er = entity_regs(all);
    let ghost n = line_regs(ls.take(k), entity_type, rs).len() as int;
    proof {
        assert(ls.take(k + 1).drop_last() =~= ls.take(k));
        assert(ls.take(k + 1).last() == ls[k]);
        lemma_line_regs_prefix(ls, entity_type, rs, k + 1, ls.len() as int);
        assert(ls.take(ls.len() as int) =~= ls);
    }
    let is_interface_pack = entity_type == Type::Interface;
    match entity_line(line, entity_type, iface_names) {
        Some((name, t, idx, comp)) => {
            let ghost prev = registry.entity_map();
            let norm = crate::strings::normalize_name(name.as_str());
            registry.register_entity_id(norm, t, idx);
            let ghost regs0 = line_regs(ls.take(k), entity_type, rs);
            let ghost reg = line_regs(ls.take(k + 1), entity_type, rs)[n];
            proof {
                assert(line_regs(ls.take(k + 1), entity_type, rs)[n] == all[n]);
                assert(er[n] == (crate::strings::normalized_name(name@), t, idx));
                lemma_entities_step(start, prev, registry.entity_map(), er, n);
                assert(line_regs(ls.take(k + 1), entity_type, rs) == regs0.push(reg));
                assert(regs0.push(reg).drop_last() =~= regs0);
            }
            if is_interface_pack {
                if let Some((iface_part, comp_part)) = comp {
                    registry.register_component(iface_part.as_str(), comp_part.as_str(), idx);
                }
            }
        },
        None => {},
    }
}

/// Registers the entities of a pack file of `entity_type` (`id=name` per
/// line; names lowercased, spaces as underscores). An interface pack also
/// records its interface roots first, and may hold components, in either of
/// two forms: `iface:comp=name` (packed id `iface << 16 | comp`) or
/// `id=iface:comp`; components register as `component` entities and under
/// `interface:component`. Lines named `null` are skipped.
pub fn load_entity_ids(registry: &mut SymbolRegistry, text: &str, entity_type: Type)
    ensures
        final(registry).interface_map() == insert_roots(
            old(registry).interface_map(),
            pack_roots(text_lines(text@), entity_type),
        ),
        final(registry).component_map() == insert_components(
            old(registry).component_map(),
            line_regs(text_lines(text@), entity_type, pack_roots(text_lines(text@), entity_type)),
        ),
        entities_from(
            old(registry).entity_map(),
            final(registry).entity_map(),
            entity_regs(line_regs(text_lines(text@), entity_type, pack_roots(text_lines(text@), entity_type))),
            line_regs(text_lines(text@), entity_type, pack_roots(text_lines(text@), entity_type)).len() as int,
        ),
        final(registry).command_map() == old(registry).command_map(),
        final(registry).script_map() == old(registry).script_map(),
        final(registry).game_var_map() == old(registry).game_var_map(),
        final(registry).type_char_map() == old(registry).type_char_map(),
        final(registry).preloaded_map() == old(registry).preloaded_map(),
{
    let lines = lines_of(text);
    let ghost ls = text_lines(text@);
    assert(lines@.map_values(|l: Vec<char>| l@) =~= ls);
    let is_interface_pack = entity_type == Type::Interface;
    let mut iface_names: Vec<(i32, String)> = Vec::new();
    if is_interface_pack {
        let mut k: usize = 0;
        while k < lines.len()
            invariant
                registry.game_var_map() == old(registry).game_var_map(),
                registry.type_char_map() == old(registry).type_char_map(),
                registry.preloaded_map() == old(registry).preloaded_map(),
                k <= lines@.len(),
                ls == text_lines(text@),
                lines@.len() == ls.len(),
                forall|i: int| 0 <= i < lines@.len() ==> (#[trigger] lines@[i])@ == ls[i],
                iface_names@.map_values(|e: (i32, String)| (e.0, e.1@)) == roots(ls.take(k as int)),
                registry.interface_map() == insert_roots(old(registry).interface_map(), roots(ls.take(k as int))),
                registry.component_map() == old(registry).component_map(),
                registry.entity_map() == old(registry).entity_map(),
                registry.command_map() == old(registry).command_map(),
                registry.script_map() == old(registry).script_map(),
            decreases lines@.len() - k,
        {
            let ghost before = iface_names@;
            proof {
                assert(ls.take(k + 1).drop_last() =~= ls.take(k as int));
                assert(ls.take(k + 1).last() == ls[k as int]);
            }
            if let Some((id_text, name)) = named_pack_line(&lines[k]) {
                if !crate::strings::chars_contain(&id_text, ':') && !crate::strings::chars_contain(&name, ':') {
                    if let Some(id) = parse_i32(&id_text) {
                        proof {
                            assert(named(ls[k as int]) == Some((id_text@, name@)));
                        }
                        let name_text = string_from_chars(&name);
                        registry.register_interface_id(name_text.as_str(), id);
                        iface_names.push((id, name_text));
                        proof {
                            assert(root_of(ls[k as int]) == Some((id, name@)));
                            let r0 = roots(ls.take(k as int));
                            assert(roots(ls.take(k + 1)) == r0.push((id, name@)));
                            assert(r0.push((id, name@)).drop_last() =~= r0);
                            assert(iface_names@.map_values(|e: (i32, String)| (e.0, e.1@)) =~= before.map_values(
                                |e: (i32, String)| (e.0, e.1@),
                            ).push((id, name@)));
                        }
                    }
                }
            }
            k += 1;
        }
        proof {
            assert(ls.take(lines@.len() as int) =~= ls);
        }
    } else {
        proof {
            assert(iface_names@.map_values(|e: (i32, String)| (e.0, e.1@)) =~= Seq::<(i32, Seq<char>)>::empty());
        }
    }
    let ghost rs = pack_roots(ls, entity_type);
    let ghost all = line_regs(ls, entity_type, rs);
    let ghost er = entity_regs(all);
    let ghost start = registry.entity_map();
    let ghost start_comp = registry.component_map();
    assert(iface_names@.map_values(|e: (i32, String)| (e.0, e.1@)) == rs);
    proof {
        assert(ls.take(0) =~= Seq::<Seq<char>>::empty());
        assert(ls.take(ls.len() as int) =~= ls);
        lemma_entities_none(start, er);
    }
    let mut k: usize = 0;
    while k < lines.len()
        invariant
            registry.game_var_map() == old(registry).game_var_map(),
            registry.type_char_map() == old(registry).type_char_map(),
            registry.preloaded_map() == old(registry).preloaded_map(),
            k <= lines@.len(),
            ls == text_lines(text@),
            lines@.len() == ls.len(),
            forall|i: int| 0 <= i < lines@.len() ==> (#[trigger] lines@[i])@ == ls[i],
            is_interface_pack == (entity_type == Type::Interface),
            !is_interface_pack ==> iface_names@.len() == 0,
            iface_names@.map_values(|e: (i32, String)| (e.0, e.1@)) == rs,
            rs == pack_roots(ls, entity_type),
            all == line_regs(ls, entity_type, rs),
            er == entity_regs(all),
            ls.take(ls.len() as int) == ls,
            start == old(registry).entity_map(),
            registry.interface_map() == insert_roots(old(registry).interface_map(), rs),
            registry.component_map() == insert_components(start_comp, line_regs(ls.take(k as int), entity_type, rs)),
            entities_from(start, registry.entity_map(), er, line_regs(ls.take(k as int), entity_type, rs).len() as int),
            registry.command_map() == old(registry).command_map(),
            registry.script_map() == old(registry).script_map(),
        decreases lines@.len() - k,
    {
        register_pack_line(registry, &lines[k], entity_type, &iface_names, Ghost(ls), Ghost(k as int), Ghost(start), Ghost(start_comp));
        k += 1;
    }
}

// ── Variable configs ───────────────────────────────────────────────────────

/// The name of a config section header `[name]`, trimmed.
pub open spec fn section_of(line: Seq<char>) -> Option<Seq<char>> {
    if line.len() >= 2 && line[0] == '[' && line[line.len() - 1] == ']' {
        Some(trim(line.subrange(1, line.len() - 1)))
    } else {
        None
    }
}

fn section_name(line: &Vec<char>) -> (r: Option<Vec<char>>)
    ensures
        match r {
            Some(n) => section_of(line@) == Some(n@),
            None => section_of(line@) is None,
        },
{
    let n = line.len();
    if n >= 2 && line[0] == '[' && line[n - 1] == ']' {
        Some(trim_chars(&sub_chars(line, 1, n - 1)))
    } else {
        None
    }
}

/// The game-variable categories, in the order their configs are read.
pub open spec fn var_categories() -> Seq<Seq<char>> {
    seq!["varp"@, "varn"@, "vars"@, "varbit"@]
}

/// `.name`.
pub open spec fn dotted(name: Seq<char>) -> Seq<char> {
    seq!['.'] + name
}

/// A game variable's symbol.
pub open spec fn var_symbol(name: Seq<char>, var_type: Type, var_id: i32, category: Seq<char>) -> SymbolView {
    SymbolView { name, kind: KindView::GameVar { var_type, var_id, category } }
}

/// `m` with the type of game variable `name` set, where it is one.
pub open spec fn with_var_type(m: Map<Seq<char>, SymbolView>, name: Seq<char>, ty: Type) -> Map<Seq<char>, SymbolView> {
    if m.contains_key(name) && m[name].kind is GameVar {
        m.insert(
            name,
            SymbolView {
                name: m[name].name,
                kind: KindView::GameVar {
                    var_type: ty,
                    var_id: m[name].kind->GameVar_var_id,
                    category: m[name].kind->GameVar_category,
                },
            },
        )
    } else {
        m
    }
}

/// Reading one config line of category `ext`, with the game variables
/// `st.0`, the next free id `st.1` and the open section `cur`: a `[name]`
/// header opens a section, registering `name` and `.name` as `int`
/// variables with the next id where `name` is unknown; a `type=` line in a
/// section sets the type of both. `None` where the id to hand out is
/// `i32::MAX`.
pub open spec fn var_line(
    st: (Map<Seq<char>, SymbolView>, int),
    cur: Option<Seq<char>>,
    ext: Seq<char>,
    raw: Seq<char>,
) -> Option<((Map<Seq<char>, SymbolView>, int), Option<Seq<char>>)> {
    let line = trim(raw);
    if line.len() == 0 || (line.len() >= 2 && line[0] == '/' && line[1] == '/') {
        Some((st, cur))
    } else {
        match section_of(line) {
            Some(name) => if !st.0.contains_key(name) {
                if st.1 >= i32::MAX {
                    None
                } else {
                    let id = st.1 as i32;
                    Some((
                        (
                            st.0.insert(name, var_symbol(name, Type::Int, id, ext)).insert(
                                dotted(name),
                                var_symbol(dotted(name), Type::Int, id, ext),
                            ),
                            st.1 + 1,
                        ),
                        Some(name),
                    ))
                }
            } else {
                Some((st, Some(name)))
            },
            None => match cur {
                None => Some((st, cur)),
                Some(name) => match index_of_char(line, '=') {
                    Some(eq) => if trim(line.take(eq)) == "type"@ {
                        match crate::types::named_type(trim(line.skip(eq + 1))) {
                            Some(ty) => Some(((with_var_type(with_var_type(st.0, name, ty), dotted(name), ty), st.1), cur)),
                            None => Some((st, cur)),
                        }
                    } else {
                        Some((st, cur))
                    },
                    None => Some((st, cur)),
                },
            },
        }
    }
}

/// Reading the first `n` lines of one config file (no section open at first).
pub open spec fn var_lines(
    st: (Map<Seq<char>, SymbolView>, int),
    ext: Seq<char>,
    lines: Seq<Seq<char>>,
    n: int,
) -> Option<((Map<Seq<char>, SymbolView>, int), Option<Seq<char>>)>
    decreases n,
{
    if n <= 0 {
        Some((st, None))
    } else {
        match var_lines(st, ext, lines, n - 1) {
            Some((st1, cur)) => var_line(st1, cur, ext, lines[n - 1]),
            None => None,
        }
    }
}

/// Reading, in order, the first `n` of `files` whose extension is `ext`.
pub open spec fn var_files(
    st: (Map<Seq<char>, SymbolView>, int),
    ext: Seq<char>,
    files: Seq<(Seq<char>, Seq<char>)>,
    n: int,
) -> Option<(Map<Seq<char>, SymbolView>, int)>
    decreases n,
{
    if n <= 0 {
        Some(st)
    } else {
        match var_files(st, ext, files, n - 1) {
            Some(st1) => if files[n - 1].0 == ext {
                let ls = text_lines(files[n - 1].1);
                match var_lines(st1, ext, ls, ls.len() as int) {
                    Some((st2, _)) => Some(st2),
                    None => None,
                }
            } else {
                Some(st1)
            },
            None => None,
        }
    }
}

/// The game variables after reading the configs of the first `c`
/// categories over `m`, each category's fresh ids starting past its highest
/// id in `m0`. `None` where ids run out.
pub open spec fn var_configs(
    m0: Map<Seq<char>, SymbolView>,
    m: Map<Seq<char>, SymbolView>,
    files: Seq<(Seq<char>, Seq<char>)>,
    c: int,
) -> Option<Map<Seq<char>, SymbolView>>
    decreases c,
{
    if c <= 0 {
        Some(m)
    } else {
        match var_configs(m0, m, files, c - 1) {
            Some(m1) => {
                let cat = var_categories()[c - 1];
                let top = crate::symbol::max_var_id(m0, cat);
                if top == i32::MAX {
                    None
                } else {
                    match var_files((m1, top + 1), cat, files, files.len() as int) {
                        Some(st) => Some(st.0),
                        None => None,
                    }
                }
            },
            None => None,
        }
    }
}

proof fn lemma_var_lines_none(st: (Map<Seq<char>, SymbolView>, int), ext: Seq<char>, lines: Seq<Seq<char>>, m: int, n: int)
    requires
        0 <= m <= n,
        var_lines(st, ext, lines, m) is None,
    ensures
        var_lines(st, ext, lines, n) is None,
    decreases n,
{
    if m < n {
        lemma_var_lines_none(st, ext, lines, m, n - 1);
    }
}

proof fn lemma_var_files_none(st: (Map<Seq<char>, SymbolView>, int), ext: Seq<char>, files: Seq<(Seq<char>, Seq<char>)>, m: int, n: int)
    requires
        0 <= m <= n,
        var_files(st, ext, files, m) is None,
    ensures
        var_files(st, ext, files, n) is None,
    decreases n,
{
    if m < n {
        lemma_var_files_none(st, ext, files, m, n - 1);
    }
}

proof fn lemma_var_configs_none(m0: Map<Seq<char>, SymbolView>, m: Map<Seq<char>, SymbolView>, files: Seq<(Seq<char>, Seq<char>)>, a: int, b: int)
    requires
        0 <= a <= b,
        var_configs(m0, m, files, a) is None,
    ensures
        var_configs(m0, m, files, b) is None,
    decreases b,
{
    if a < b {
        lemma_var_configs_none(m0, m, files, a, b - 1);
    }
}

fn dotted_name(name: &str) -> (r: String)
    ensures
        r@ == dotted(name@),
{
    let mut d = String::new();
    crate::strings::push_char(&mut d, '.');
    crate::strings::push_str(&mut d, name);
    proof {
        assert(d@ =~= dotted(name@));
    }
    d
}

spec fn first_ids_ok(m0: Map<Seq<char>, SymbolView>, ids: Seq<i32>, j: int) -> bool {
    crate::symbol::max_var_id(m0, var_categories()[j]) < i32::MAX && ids[j] == crate::symbol::max_var_id(
        m0,
        var_categories()[j],
    ) + 1
}

/// Reads one config line (see [`var_line`]); `false` where ids run out.
fn read_var_line(
    registry: &mut SymbolRegistry,
    raw: &Vec<char>,
    ext: &str,
    next: &mut i32,
    current: &mut Option<String>,
) -> (ok: bool)
    ensures
        ok == var_line((old(registry).game_var_map(), *old(next) as int), match *old(current) {
            Some(n) => Some(n@),
            None => None,
        }, ext@, raw@) is Some,
        ok ==> var_line((old(registry).game_var_map(), *old(next) as int), match *old(current) {
            Some(n) => Some(n@),
            None => None,
        }, ext@, raw@) == Some(((final(registry).game_var_map(), *final(next) as int), match *final(current) {
            Some(n) => Some(n@),
            None => None,
        })),
        final(registry).command_map() == old(registry).command_map(),
        final(registry).entity_map() == old(registry).entity_map(),
        final(registry).script_map() == old(registry).script_map(),
{
    let line = trim_chars(raw);
    if line.len() == 0 || (line.len() >= 2 && line[0] == '/' && line[1] == '/') {
        return true;
    }
    if let Some(section) = section_name(&line) {
        let name = string_from_chars(&section);
        if registry.lookup_game_var(name.as_str()).is_none() {
            let id = *next;
            if id == 2147483647i32 {
                return false;
            }
            *next = id + 1;
            registry.register_game_var(crate::strings::to_owned_string(name.as_str()), Type::Int, id, crate::strings::to_owned_string(ext));
            let dotted = dotted_name(name.as_str());
            registry.register_game_var(dotted, Type::Int, id, crate::strings::to_owned_string(ext));
        }
        *current = Some(name);
        return true;
    }
    let name = match &*current {
        Some(n) => n,
        None => {
            return true;
        },
    };
    if let Some(eq) = find_char(&line, '=') {
        let key = trim_chars(&sub_chars(&line, 0, eq));
        let key_text = string_from_chars(&key);
        proof {
            reveal_strlit("type");
            assert(line@.subrange(0, eq as int) == line@.take(eq as int));
            assert(line@.subrange(eq + 1, line@.len() as int) == line@.skip(eq + 1));
        }
        if crate::strings::str_eq(key_text.as_str(), "type") {
            let value = string_from_chars(&trim_chars(&sub_chars(&line, eq + 1, line.len())));
            if let Some(ty) = Type::from_name(value.as_str()) {
                registry.set_game_var_type(name.as_str(), ty);
                let dotted = dotted_name(name.as_str());
                registry.set_game_var_type(dotted.as_str(), ty);
            }
        }
    }
    true
}

/// Refines the types of game variables from their config files, given as
/// (extension, text) pairs (see [`var_line`]): within each `[name]` section,
/// a `type=` line sets the type of `name` and of `.name`. Sections of
/// variables no pack declared register them first, with the next free id of
/// their category. Categories are read in the order `varp`, `varn`, `vars`,
/// `varbit`. Returns false, stopping there, where a category's ids are
/// exhausted.
pub fn load_game_var_types(registry: &mut SymbolRegistry, files: &Vec<(String, String)>) -> (ok: bool)
    ensures
        ok == var_configs(
            old(registry).game_var_map(),
            old(registry).game_var_map(),
            files@.map_values(|f: (String, String)| (f.0@, f.1@)),
            4,
        ) is Some,
        ok ==> var_configs(
            old(registry).game_var_map(),
            old(registry).game_var_map(),
            files@.map_values(|f: (String, String)| (f.0@, f.1@)),
            4,
        ) == Some(final(registry).game_var_map()),
        final(registry).command_map() == old(registry).command_map(),
        final(registry).entity_map() == old(registry).entity_map(),
        final(registry).script_map() == old(registry).script_map(),
{
    let ghost m0 = registry.game_var_map();
    let ghost fs = files@.map_values(|f: (String, String)| (f.0@, f.1@));
    let categories: Vec<&str> = vec!["varp", "varn", "vars", "varbit"];
    assert(categories@.map_values(|c: &str| c@) =~= var_categories());
    let mut next_ids: Vec<i32> = Vec::new();
    let mut c: usize = 0;
    while c < categories.len()
        invariant
            c <= categories@.len(),
            next_ids@.len() == c,
            categories@.len() == 4,
            categories@.map_values(|c: &str| c@) == var_categories(),
            m0 == registry.game_var_map(),
            m0 == old(registry).game_var_map(),
            fs == files@.map_values(|f: (String, String)| (f.0@, f.1@)),
            forall|j: int| 0 <= j < c ==> #[trigger] first_ids_ok(m0, next_ids@, j),
        decreases categories@.len() - c,
    {
        let cat_c = categories[c];
        assert(categories@.map_values(|c: &str| c@)[c as int] == cat_c@);
        let max = registry.max_game_var_id(cat_c);
        assert(cat_c@ == var_categories()[c as int]);
        assert(max == crate::symbol::max_var_id(m0, var_categories()[c as int]));
        if max == 2147483647i32 {
            proof {
                if var_configs(m0, m0, fs, c as int) is Some {
                    assert(var_configs(m0, m0, fs, c + 1) is None);
                } else {
                    lemma_var_configs_none(m0, m0, fs, c as int, c + 1);
                }
                lemma_var_configs_none(m0, m0, fs, c + 1, 4);
            }
            return false;
        }
        let ghost before = next_ids@;
        next_ids.push(max + 1);
        proof {
            assert forall|j: int| 0 <= j < c + 1 implies #[trigger] first_ids_ok(m0, next_ids@, j) by {
                if j < c {
                    assert(first_ids_ok(m0, before, j));
                    assert(next_ids@[j] == before[j]);
                }
            }
        }
        c += 1;
    }
    let ghost ids = next_ids@;
    assert(forall|j: int| 0 <= j < 4 ==> #[trigger] first_ids_ok(m0, ids, j));
    let mut c: usize = 0;
    while c < categories.len()
        invariant
            c <= categories@.len(),
            next_ids@.len() == 4,
            categories@.len() == 4,
            categories@.map_values(|c: &str| c@) == var_categories(),
            m0 == old(registry).game_var_map(),
            fs == files@.map_values(|f: (String, String)| (f.0@, f.1@)),
            next_ids@ == ids,
            forall|j: int| 0 <= j < 4 ==> #[trigger] first_ids_ok(m0, ids, j),
            var_configs(m0, m0, fs, c as int) == Some(registry.game_var_map()),
            registry.command_map() == old(registry).command_map(),
            registry.entity_map() == old(registry).entity_map(),
            registry.script_map() == old(registry).script_map(),
        decreases categories@.len() - c,
    {
        let ext = categories[c];
        let ghost cat = var_categories()[c as int];
        assert(categories@.map_values(|c: &str| c@)[c as int] == ext@);
        assert(ext@ == cat);
        assert(first_ids_ok(m0, ids, c as int));
        assert(crate::symbol::max_var_id(m0, cat) < i32::MAX && ids[c as int] == crate::symbol::max_var_id(m0, cat) + 1);
        let ghost m_c = registry.game_var_map();
        let mut next: i32 = next_ids[c];
        let mut f: usize = 0;
        while f < files.len()
            invariant
                f <= files@.len(),
                c < 4,
                next_ids@.len() == 4,
                categories@.len() == 4,
                ext@ == cat,
                cat == var_categories()[c as int],
                m0 == old(registry).game_var_map(),
                fs == files@.map_values(|f: (String, String)| (f.0@, f.1@)),
                next_ids@ == ids,
                ids[c as int] == crate::symbol::max_var_id(m0, cat) + 1,
                crate::symbol::max_var_id(m0, cat) < i32::MAX,
                var_configs(m0, m0, fs, c as int) == Some(m_c),
                var_files((m_c, next_ids@[c as int] as int), cat, fs, f as int) == Some((registry.game_var_map(), next as int)),
                registry.command_map() == old(registry).command_map(),
                registry.entity_map() == old(registry).entity_map(),
                registry.script_map() == old(registry).script_map(),
            decreases files@.len() - f,
        {
            let ghost st_f = (registry.game_var_map(), next as int);
            assert(fs[f as int] == (files@[f as int].0@, files@[f as int].1@));
            if str_eq_string(&files[f].0, ext) {
                let lines = lines_of(files[f].1.as_str());
                let ghost ls = text_lines(fs[f as int].1);
                let mut current: Option<String> = None;
                let mut k: usize = 0;
                while k < lines.len()
                    invariant
                        k <= lines@.len(),
                        c < 4,
                        f < files@.len(),
                        ext@ == cat,
                        fs == files@.map_values(|f: (String, String)| (f.0@, f.1@)),
                        ls == text_lines(fs[f as int].1),
                        fs[f as int].0 == cat,
                        cat == var_categories()[c as int],
                        m0 == old(registry).game_var_map(),
                        next_ids@ == ids,
                        ids[c as int] == crate::symbol::max_var_id(m0, cat) + 1,
                        crate::symbol::max_var_id(m0, cat) < i32::MAX,
                        var_configs(m0, m0, fs, c as int) == Some(m_c),
                        var_files((m_c, next_ids@[c as int] as int), cat, fs, f as int) == Some(st_f),
                        lines@.len() == ls.len(),
                        forall|i: int| 0 <= i < lines@.len() ==> (#[trigger] lines@[i])@ == ls[i],
                        var_lines(st_f, cat, ls, k as int) == Some(((registry.game_var_map(), next as int), match current {
                            Some(n) => Some(n@),
                            None => None,
                        })),
                        registry.command_map() == old(registry).command_map(),
                        registry.entity_map() == old(registry).entity_map(),
                        registry.script_map() == old(registry).script_map(),
                    decreases lines@.len() - k,
                {
                    if !read_var_line(registry, &lines[k], ext, &mut next, &mut current) {
                        proof {
                            assert(var_lines(st_f, cat, ls, k + 1) is None);
                            lemma_var_lines_none(st_f, cat, ls, k + 1, ls.len() as int);
                            assert(var_files((m_c, next_ids@[c as int] as int), cat, fs, f + 1) is None);
                            lemma_var_files_none((m_c, next_ids@[c as int] as int), cat, fs, f + 1, fs.len() as int);
                            assert(var_configs(m0, m0, fs, c + 1) is None);
                            lemma_var_configs_none(m0, m0, fs, c + 1, 4);
                        }
                        return false;
                    }
                    k += 1;
                }
            }
            f += 1;
        }
        proof {
            assert(var_configs(m0, m0, fs, c + 1) == Some(registry.game_var_map()));
        }
        c += 1;
    }
    true
}

fn str_eq_string(a: &String, b: &str) -> (r: bool)
    ensures
        r == (a@ == b@),
{
    crate::strings::str_eq(a.as_str(), b)
}

// ── Db tables ──────────────────────────────────────────────────────────────

/// The comma-separated parts of `s`, from the part starting at `start`,
/// with the scan at `i`: each trimmed, blank ones kept.
pub open spec fn parts_in(s: Seq<char>, start: int, i: int) -> Seq<Seq<char>>
    decreases s.len() - i,
{
    if i >= s.len() {
        seq![trim(s.subrange(start, s.len() as int))]
    } else if s[i] == ',' {
        seq![trim(s.subrange(start, i))] + parts_in(s, i + 1, i + 1)
    } else {
        parts_in(s, start, i + 1)
    }
}

proof fn lemma_parts_nonempty(s: Seq<char>, start: int, i: int)
    ensures
        parts_in(s, start, i).len() >= 1,
    decreases s.len() - i,
{
    if i < s.len() {
        lemma_parts_nonempty(s, if s[i] == ',' { i + 1 } else { start }, i + 1);
    }
}

/// The column types named among `parts`: known type names other than the
/// `INDEXED` and `REQUIRED` flags, in order.
pub open spec fn column_types(parts: Seq<Seq<char>>) -> Seq<Type>
    decreases parts.len(),
{
    if parts.len() == 0 {
        Seq::empty()
    } else {
        let prev = column_types(parts.drop_last());
        let w = parts.last();
        if w == "INDEXED"@ || w == "REQUIRED"@ {
            prev
        } else {
            match crate::types::named_type(w) {
                Some(t) => prev.push(t),
                None => prev,
            }
        }
    }
}

/// The entity registrations of column `compound` with packed id `packed`
/// and types `types`: the whole column, then, for a multi-type column, each
/// slot `compound:i` with the low nibble `i + 1`.
pub open spec fn column_regs(compound: Seq<char>, packed: i32, types: Seq<Type>) -> Seq<(Seq<char>, Type, i32)> {
    seq![(compound, Type::DbColumn, packed)] + if types.len() > 1 {
        Seq::new(
            types.len(),
            |i: int| (
                compound + seq![':'] + crate::strings::nat_decimal(i as nat),
                Type::DbColumn,
                packed | ((((i + 1) as u64) & 0xFu64) as i32),
            ),
        )
    } else {
        Seq::empty()
    }
}

/// What one dbtable config line does, with the open table and the next
/// column index in `st`: the new state, the entity registrations, the
/// column type recorded, and whether the column index ran past `u16`.
/// A `[table]` header opens a table at column 0; a `column=name,types...`
/// line in a table `ids` knows registers `table:name` with id
/// `table_id << 12 | column << 4`.
pub open spec fn db_line(
    st: (Option<Seq<char>>, int),
    line: Seq<char>,
    ids: Map<Seq<char>, u16>,
) -> ((Option<Seq<char>>, int), Seq<(Seq<char>, Type, i32)>, Option<(Seq<char>, Type)>, bool) {
    match section_of(line) {
        Some(name) => ((Some(name), 0), Seq::empty(), None, false),
        None => if !crate::strings::is_prefix("column="@, line) {
            (st, Seq::empty(), None, false)
        } else {
            match st.0 {
                None => (st, Seq::empty(), None, false),
                Some(t) => if !ids.contains_key(t) {
                    (st, Seq::empty(), None, false)
                } else {
                    let parts = parts_in(line.skip(7), 0, 0);
                    let col = parts[0];
                    if col.len() == 0 {
                        (st, Seq::empty(), None, false)
                    } else {
                        let types = column_types(parts.skip(1));
                        let compound = t + seq![':'] + col;
                        let packed = (((ids[t] as i32) << 12u32) | (((st.1 as u16) as i32) << 4u32)) as i32;
                        (
                            (st.0, st.1 + 1),
                            column_regs(compound, packed, types),
                            if types.len() > 0 { Some((compound, types[0])) } else { None },
                            st.1 >= 65535,
                        )
                    }
                },
            }
        },
    }
}

/// Reading the first `n` lines of one dbtable config (no table open at
/// first): the state, the registrations and column types so far, and
/// whether a column index ran out.
pub open spec fn db_lines(
    ls: Seq<Seq<char>>,
    ids: Map<Seq<char>, u16>,
    n: int,
) -> ((Option<Seq<char>>, int), Seq<(Seq<char>, Type, i32)>, Seq<(Seq<char>, Type)>, bool)
    decreases n,
{
    if n <= 0 {
        ((None, 0), Seq::empty(), Seq::empty(), false)
    } else {
        let (st, regs, cols, over) = db_lines(ls, ids, n - 1);
        if over {
            (st, regs, cols, over)
        } else {
            let (st2, r, c, o) = db_line(st, ls[n - 1], ids);
            (st2, regs + r, match c {
                Some(x) => cols.push(x),
                None => cols,
            }, o)
        }
    }
}

/// The registrations, column types and overflow of the first `n` configs
/// (each after comments are removed).
pub open spec fn db_files(
    texts: Seq<Seq<char>>,
    ids: Map<Seq<char>, u16>,
    n: int,
) -> (Seq<(Seq<char>, Type, i32)>, Seq<(Seq<char>, Type)>, bool)
    decreases n,
{
    if n <= 0 {
        (Seq::empty(), Seq::empty(), false)
    } else {
        let (regs, cols, over) = db_files(texts, ids, n - 1);
        if over {
            (regs, cols, over)
        } else {
            let ls = text_lines(texts[n - 1]);
            let stripped = strip_lines(ls, ls.len() as int).1;
            let (_, r, c, o) = db_lines(stripped, ids, stripped.len() as int);
            (regs + r, cols + c, o)
        }
    }
}

/// `m` with each `(name, type)` of `cols` filed in turn.
pub open spec fn insert_types(m: Map<Seq<char>, Type>, cols: Seq<(Seq<char>, Type)>) -> Map<Seq<char>, Type>
    decreases cols.len(),
{
    if cols.len() == 0 {
        m
    } else {
        insert_types(m, cols.drop_last()).insert(cols.last().0, cols.last().1)
    }
}

/// The comma-separated parts of `v[from..to]`, each trimmed (blank ones kept).
fn column_parts(v: &Vec<char>, from: usize, to: usize) -> (r: Vec<Vec<char>>)
    requires
        from <= to <= v@.len(),
    ensures
        r@.len() >= 1,
        r@.map_values(|x: Vec<char>| x@) == parts_in(v@.subrange(from as int, to as int), 0, 0),
{
    let ghost s = v@.subrange(from as int, to as int);
    let mut parts: Vec<Vec<char>> = Vec::new();
    let mut start = from;
    let mut i = from;
    while i < to
        invariant
            from <= start <= i <= to,
            to <= v@.len(),
            s == v@.subrange(from as int, to as int),
            parts@.map_values(|x: Vec<char>| x@) + parts_in(s, start - from, i - from) == parts_in(s, 0, 0),
        decreases to - i,
    {
        let ghost before = parts@.map_values(|x: Vec<char>| x@);
        proof {
            assert(s[i - from] == v@[i as int]);
        }
        if v[i] == ',' {
            let item = trim_chars(&sub_chars(v, start, i));
            proof {
                assert(s.subrange(start - from, i - from) =~= v@.subrange(start as int, i as int));
            }
            parts.push(item);
            proof {
                assert(parts@.map_values(|x: Vec<char>| x@) =~= before.push(item@));
                assert(before.push(item@) + parts_in(s, i + 1 - from, i + 1 - from) =~= before + (
                seq![item@] + parts_in(s, i + 1 - from, i + 1 - from)));
            }
            start = i + 1;
        }
        i += 1;
    }
    let ghost before = parts@.map_values(|x: Vec<char>| x@);
    let last = trim_chars(&sub_chars(v, start, to));
    proof {
        assert(s.subrange(start - from, s.len() as int) =~= v@.subrange(start as int, to as int));
    }
    parts.push(last);
    proof {
        assert(parts@.map_values(|x: Vec<char>| x@) =~= before + seq![last@]);
    }
    parts
}

/// The column types named among `parts[1..]` (see [`column_types`]).
fn column_types_of(parts: &Vec<Vec<char>>) -> (r: Vec<Type>)
    requires
        parts@.len() >= 1,
    ensures
        r@ == column_types(parts@.map_values(|x: Vec<char>| x@).skip(1)),
{
    let ghost ps = parts@.map_values(|x: Vec<char>| x@).skip(1);
    let mut types: Vec<Type> = Vec::new();
    let mut p: usize = 1;
    while p < parts.len()
        invariant
            1 <= p <= parts@.len(),
            ps == parts@.map_values(|x: Vec<char>| x@).skip(1),
            types@ == column_types(ps.take(p - 1)),
        decreases parts@.len() - p,
    {
        proof {
            assert(ps.take(p as int).drop_last() =~= ps.take(p - 1));
            assert(ps.take(p as int).last() == parts@[p as int]@);
            reveal_strlit("INDEXED");
            reveal_strlit("REQUIRED");
        }
        let word = string_from_chars(&parts[p]);
        if !crate::strings::str_eq(word.as_str(), "INDEXED") && !crate::strings::str_eq(word.as_str(), "REQUIRED") {
            if let Some(t) = Type::from_name(word.as_str()) {
                types.push(t);
            }
        }
        p += 1;
    }
    proof {
        assert(ps.take(parts@.len() - 1) =~= ps);
    }
    types
}

/// Registers `regs` in turn, keeping `entities_from` with the full list `all`.
fn register_column(
    registry: &mut SymbolRegistry,
    compound: &String,
    packed: i32,
    types: &Vec<Type>,
    Ghost(all): Ghost<Seq<(Seq<char>, Type, i32)>>,
    Ghost(start): Ghost<Map<Seq<char>, crate::symbol::EntityEntry>>,
    Ghost(n): Ghost<int>,
)
    requires
        0 <= n,
        n + column_regs(compound@, packed, types@).len() <= all.len(),
        all.subrange(n, n + column_regs(compound@, packed, types@).len()) == column_regs(compound@, packed, types@),
        entities_from(start, old(registry).entity_map(), all, n),
    ensures
        entities_from(start, final(registry).entity_map(), all, n + column_regs(compound@, packed, types@).len()),
        final(registry).command_map() == old(registry).command_map(),
        final(registry).script_map() == old(registry).script_map(),
        final(registry).component_map() == old(registry).component_map(),
        final(registry).dbcolumn_map() == old(registry).dbcolumn_map(),
{
    let ghost regs = column_regs(compound@, packed, types@);
    let ghost prev = registry.entity_map();
    registry.register_entity_id(crate::strings::to_owned_string(compound.as_str()), Type::DbColumn, packed);
    proof {
        assert(all[n] == regs[0]);
        lemma_entities_step(start, prev, registry.entity_map(), all, n);
    }
    if types.len() > 1 {
        let mut i: usize = 0;
        while i < types.len()
            invariant
                i <= types@.len(),
                types@.len() > 1,
                0 <= n,
                regs == column_regs(compound@, packed, types@),
                n + regs.len() <= all.len(),
                all.subrange(n, n + regs.len()) == regs,
                entities_from(start, registry.entity_map(), all, n + 1 + i),
                registry.command_map() == old(registry).command_map(),
                registry.script_map() == old(registry).script_map(),
                registry.component_map() == old(registry).component_map(),
                registry.dbcolumn_map() == old(registry).dbcolumn_map(),
            decreases types@.len() - i,
        {
            let mut slot = crate::strings::to_owned_string(compound.as_str());
            crate::strings::push_char(&mut slot, ':');
            let digits = crate::strings::u64_to_decimal(i as u64);
            crate::strings::push_str(&mut slot, digits.as_str());
            let nibble: i32 = ((i as u64 + 1) & 0xF) as i32;
            let ghost prev = registry.entity_map();
            registry.register_entity_id(slot, Type::DbColumn, packed | nibble);
            proof {
                assert(regs.len() == 1 + types@.len());
                assert(all.subrange(n, n + regs.len())[1 + i] == all[n + 1 + i]);
                assert(all[n + 1 + i] == regs[1 + i]);
                assert(regs[1 + i] == (compound@ + seq![':'] + crate::strings::nat_decimal(i as nat), Type::DbColumn, packed | ((((i + 1) as u64) & 0xFu64) as i32)));
                assert(slot@ == compound@ + seq![':'] + crate::strings::nat_decimal(i as nat));
                lemma_entities_step(start, prev, registry.entity_map(), all, n + 1 + i);
            }
            i += 1;
        }
    }
}

/// Registers the columns of `.dbtable` configs (after comments are removed),
/// for the tables `table_ids` knows (see [`db_line`]): within a `[table]`
/// section, each `column=name,type...` line registers `table:name` as a
/// `dbcolumn` entity with id `table_id << 12 | column << 4`, each slot of a
/// multi-type column as `table:name:i` with the low nibble `i + 1`, and the
/// first type as the column's type (`INDEXED` and `REQUIRED` are flags, not
/// types). Returns false, stopping there, where a table has more columns
/// than a `u16` counts.
pub fn load_dbtable_configs(registry: &mut SymbolRegistry, texts: &Vec<String>, table_ids: &StrMap<u16>) -> (ok: bool)
    ensures
        ok == !db_files(texts@.map_values(|t: String| t@), table_ids@, texts@.len() as int).2,
        ok ==> entities_from(
            old(registry).entity_map(),
            final(registry).entity_map(),
            db_files(texts@.map_values(|t: String| t@), table_ids@, texts@.len() as int).0,
            db_files(texts@.map_values(|t: String| t@), table_ids@, texts@.len() as int).0.len() as int,
        ),
        ok ==> final(registry).dbcolumn_map() == insert_types(
            old(registry).dbcolumn_map(),
            db_files(texts@.map_values(|t: String| t@), table_ids@, texts@.len() as int).1,
        ),
        final(registry).command_map() == old(registry).command_map(),
        final(registry).script_map() == old(registry).script_map(),
        final(registry).component_map() == old(registry).component_map(),
{
    let ghost ts = texts@.map_values(|t: String| t@);
    let ghost ids = table_ids@;
    let ghost total = db_files(ts, ids, ts.len() as int);
    let ghost all = total.0;
    let ghost start = registry.entity_map();
    let ghost start_cols = registry.dbcolumn_map();
    proof {
        lemma_entities_none(start, all);
        lemma_db_files_prefix(ts, ids, 0, ts.len() as int);
    }
    let mut f: usize = 0;
    while f < texts.len()
        invariant
            f <= texts@.len(),
            ts == texts@.map_values(|t: String| t@),
            ids == table_ids@,
            total == db_files(ts, ids, ts.len() as int),
            all == total.0,
            start == old(registry).entity_map(),
            start_cols == old(registry).dbcolumn_map(),
            !db_files(ts, ids, f as int).2,
            db_files(ts, ids, f as int).0.len() <= all.len(),
            all.take(db_files(ts, ids, f as int).0.len() as int) == db_files(ts, ids, f as int).0,
            entities_from(start, registry.entity_map(), all, db_files(ts, ids, f as int).0.len() as int),
            registry.dbcolumn_map() == insert_types(start_cols, db_files(ts, ids, f as int).1),
            registry.command_map() == old(registry).command_map(),
            registry.script_map() == old(registry).script_map(),
            registry.component_map() == old(registry).component_map(),
        decreases texts@.len() - f,
    {
        let lines = strip_comments(texts[f].as_str());
        let ghost ls = lines@.map_values(|l: String| l@);
        let ghost prev = db_files(ts, ids, f as int);
        proof {
            assert(ts[f as int] == texts@[f as int]@);
            lemma_db_files_prefix(ts, ids, f + 1, ts.len() as int);
            lemma_db_lines_prefix(ls, ids, 0, ls.len() as int);
        }
        let mut current: Option<String> = None;
        let mut col_idx: u16 = 0;
        let mut k: usize = 0;
        while k < lines.len()
            invariant
                k <= lines@.len(),
                f < texts@.len(),
                ts == texts@.map_values(|t: String| t@),
                ids == table_ids@,
                all == total.0,
                total == db_files(ts, ids, ts.len() as int),
                ls == lines@.map_values(|l: String| l@),
                ls == strip_lines(text_lines(ts[f as int]), text_lines(ts[f as int]).len() as int).1,
                prev == db_files(ts, ids, f as int),
                !prev.2,
                start == old(registry).entity_map(),
                start_cols == old(registry).dbcolumn_map(),
                !db_lines(ls, ids, k as int).3,
                db_lines(ls, ids, k as int).0 == (match current {
                    Some(t) => Some(t@),
                    None => None,
                }, col_idx as int),
                db_lines(ls, ids, ls.len() as int).1.take(db_lines(ls, ids, k as int).1.len() as int) == db_lines(ls, ids, k as int).1,
                db_lines(ls, ids, k as int).1.len() <= db_lines(ls, ids, ls.len() as int).1.len(),
                db_files(ts, ids, f + 1) == (prev.0 + db_lines(ls, ids, ls.len() as int).1, prev.1 + db_lines(ls, ids, ls.len() as int).2, db_lines(ls, ids, ls.len() as int).3),
                db_files(ts, ids, f + 1).0.len() <= all.len(),
                all.take(db_files(ts, ids, f + 1).0.len() as int) == db_files(ts, ids, f + 1).0,
                entities_from(start, registry.entity_map(), all, (prev.0.len() + db_lines(ls, ids, k as int).1.len()) as int),
                registry.dbcolumn_map() == insert_types(start_cols, prev.1 + db_lines(ls, ids, k as int).2),
                registry.command_map() == old(registry).command_map(),
                registry.script_map() == old(registry).script_map(),
                registry.component_map() == old(registry).component_map(),
            decreases lines@.len() - k,
        {
            let line = chars_of(lines[k].as_str());
            let ghost dl = db_line(db_lines(ls, ids, k as int).0, line@, ids);
            proof {
                assert(line@ == ls[k as int]);
            }
            if let Some(section) = section_name(&line) {
                current = Some(string_from_chars(&section));
                col_idx = 0;
                proof {
                    assert(db_lines(ls, ids, k + 1).1 =~= db_lines(ls, ids, k as int).1);
                    assert(db_lines(ls, ids, k + 1).2 =~= db_lines(ls, ids, k as int).2);
                }
                k += 1;
                continue;
            }
            proof {
                reveal_strlit("column=");
            }
            if !chars_start_with(&line, "column=") {
                proof {
                    assert(db_lines(ls, ids, k + 1).1 =~= db_lines(ls, ids, k as int).1);
                }
                k += 1;
                continue;
            }
            let table = match &current {
                Some(t) => t,
                None => {
                    proof {
                        assert(db_lines(ls, ids, k + 1).1 =~= db_lines(ls, ids, k as int).1);
                    }
                    k += 1;
                    continue;
                },
            };
            let table_id: u16 = match table_ids.get(table.as_str()) {
                Some(id) => *id,
                None => {
                    proof {
                        assert(db_lines(ls, ids, k + 1).1 =~= db_lines(ls, ids, k as int).1);
                    }
                    k += 1;
                    continue;
                },
            };
            let line_len = line.len();
            let parts = column_parts(&line, 7, line_len);
            proof {
                assert(line@.subrange(7, line_len as int) =~= line@.skip(7));
            }
            if parts[0].len() == 0 {
                proof {
                    assert(db_lines(ls, ids, k + 1).1 =~= db_lines(ls, ids, k as int).1);
                }
                k += 1;
                continue;
            }
            let col_name = string_from_chars(&parts[0]);
            let types = column_types_of(&parts);
            let mut compound = crate::strings::to_owned_string(table.as_str());
            crate::strings::push_char(&mut compound, ':');
            crate::strings::push_str(&mut compound, col_name.as_str());
            let packed: i32 = ((table_id as i32) << 12u32) | ((col_idx as i32) << 4u32);
            let ghost before_regs = db_lines(ls, ids, k as int).1;
            let ghost n0 = (prev.0.len() + before_regs.len()) as int;
            proof {
                assert(compound@ == table@ + seq![':'] + parts@[0]@);
                assert(dl.1 == column_regs(compound@, packed, types@));
                assert(db_lines(ls, ids, k + 1).1 == before_regs + dl.1);
                lemma_db_lines_prefix(ls, ids, k + 1, ls.len() as int);
                assert(all.subrange(n0, n0 + dl.1.len() as int) =~= dl.1) by {
                    let big = db_lines(ls, ids, ls.len() as int).1;
                    assert(big.take((before_regs.len() + dl.1.len()) as int) == before_regs + dl.1);
                    let full = db_files(ts, ids, f + 1).0;
                    assert(full == prev.0 + big);
                    assert forall|j: int| 0 <= j < dl.1.len() implies all.subrange(n0, n0 + dl.1.len() as int)[j] == dl.1[j] by {
                        assert(all[n0 + j] == full[n0 + j]);
                        assert(full[n0 + j] == big[before_regs.len() + j]);
                        assert(big[before_regs.len() + j] == (before_regs + dl.1)[before_regs.len() + j]);
                    }
                }
            }
            register_column(registry, &compound, packed, &types, Ghost(all), Ghost(start), Ghost(n0));
            if types.len() > 0 {
                registry.register_dbcolumn_type(compound.as_str(), types[0]);
            }
            proof {
                let cols0 = prev.1 + db_lines(ls, ids, k as int).2;
                if types@.len() > 0 {
                    assert(prev.1 + db_lines(ls, ids, k + 1).2 =~= cols0.push((compound@, types@[0])));
                    assert(cols0.push((compound@, types@[0])).drop_last() =~= cols0);
                } else {
                    assert(prev.1 + db_lines(ls, ids, k + 1).2 =~= cols0);
                }
            }
            if col_idx == 65535u16 {
                proof {
                    assert(db_lines(ls, ids, k + 1).3);
                    lemma_db_lines_over(ls, ids, k + 1, ls.len() as int);
                    lemma_db_files_over(ts, ids, f + 1, ts.len() as int);
                }
                return false;
            }
            col_idx = col_idx + 1;
            k += 1;
        }
        proof {
            assert(db_files(ts, ids, f + 1).0 == prev.0 + db_lines(ls, ids, ls.len() as int).1);
        }
        f += 1;
    }
    proof {
        assert(db_files(ts, ids, ts.len() as int).0.len() == all.len());
    }
    true
}

proof fn lemma_db_lines_over(ls: Seq<Seq<char>>, ids: Map<Seq<char>, u16>, m: int, n: int)
    requires
        0 <= m <= n,
        db_lines(ls, ids, m).3,
    ensures
        db_lines(ls, ids, n).3,
    decreases n,
{
    if m < n {
        lemma_db_lines_over(ls, ids, m, n - 1);
    }
}

proof fn lemma_db_files_over(ts: Seq<Seq<char>>, ids: Map<Seq<char>, u16>, m: int, n: int)
    requires
        0 <= m <= n,
        db_files(ts, ids, m).2,
    ensures
        db_files(ts, ids, n).2,
    decreases n,
{
    if m < n {
        lemma_db_files_over(ts, ids, m, n - 1);
    }
}

proof fn lemma_db_lines_prefix(ls: Seq<Seq<char>>, ids: Map<Seq<char>, u16>, m: int, n: int)
    requires
        0 <= m <= n,
    ensures
        db_lines(ls, ids, m).1.len() <= db_lines(ls, ids, n).1.len(),
        db_lines(ls, ids, n).1.take(db_lines(ls, ids, m).1.len() as int) == db_lines(ls, ids, m).1,
    decreases n,
{
    if m == n {
        assert(db_lines(ls, ids, n).1.take(db_lines(ls, ids, n).1.len() as int) =~= db_lines(ls, ids, n).1);
    } else {
        lemma_db_lines_prefix(ls, ids, m, n - 1);
        let a = db_lines(ls, ids, n - 1).1;
        let b = db_lines(ls, ids, n).1;
        let l = db_lines(ls, ids, m).1.len() as int;
        assert(b.take(l) =~= a.take(l));
    }
}

proof fn lemma_db_files_prefix(ts: Seq<Seq<char>>, ids: Map<Seq<char>, u16>, m: int, n: int)
    requires
        0 <= m <= n,
    ensures
        db_files(ts, ids, m).0.len() <= db_files(ts, ids, n).0.len(),
        db_files(ts, ids, n).0.take(db_files(ts, ids, m).0.len() as int) == db_files(ts, ids, m).0,
    decreases n,
{
    if m == n {
        assert(db_files(ts, ids, n).0.take(db_files(ts, ids, n).0.len() as int) =~= db_files(ts, ids, n).0);
    } else {
        lemma_db_files_prefix(ts, ids, m, n - 1);
        let a = db_files(ts, ids, n - 1).0;
        let b = db_files(ts, ids, n).0;
        let l = db_files(ts, ids, m).0.len() as int;
        assert(b.take(l) =~= a.take(l));
    }
}

// ── All packs ──────────────────────────────────────────────────────────────

/// The entity packs and their types, from lowest to highest priority: a
/// name found in several packs resolves to the last.
pub open spec fn entity_packs() -> Seq<(Seq<char>, Type)> {
    seq![
        ("category.pack"@, Type::Category),
        ("idk.pack"@, Type::IdKit),
        ("interface.pack"@, Type::Interface),
        ("overlayinterface.pack"@, Type::OverlayInterface),
        ("struct.pack"@, Type::Struct),
        ("dbrow.pack"@, Type::DbRow),
        ("dbtable.pack"@, Type::DbTable),
        ("dbcolumn.pack"@, Type::DbColumn),
        ("param.pack"@, Type::Param),
        ("model.pack"@, Type::Model),
        ("fontmetrics.pack"@, Type::FontMetrics),
        ("mesanim.pack"@, Type::MesAnim),
        ("jingle.pack"@, Type::Jingle),
        ("midi.pack"@, Type::Midi),
        ("synth.pack"@, Type::Synth),
        ("spotanim.pack"@, Type::Spotanim),
        ("seq.pack"@, Type::Sequence),
        ("locshape.pack"@, Type::LocShape),
        ("hunt.pack"@, Type::Hunt),
        ("npc_mode.pack"@, Type::NpcMode),
        ("enum.pack"@, Type::Enum),
        ("writeinv.pack"@, Type::WriteinvObj),
        ("inv.pack"@, Type::Inv),
        ("loc.pack"@, Type::Loc),
        ("npc_stat.pack"@, Type::NpcStat),
        ("stat.pack"@, Type::Stat),
        ("npc.pack"@, Type::Npc),
        ("obj.pack"@, Type::Obj),
        ("controller.pack"@, Type::Controller),
    ]
}

/// The var packs and their categories, in load order.
pub open spec fn var_packs() -> Seq<(Seq<char>, Seq<char>)> {
    seq![("varp.pack"@, "varp"@), ("varn.pack"@, "varn"@), ("vars.pack"@, "vars"@), ("varbit.pack"@, "varbit"@)]
}

/// The entity packs, from lowest to highest priority (see [`entity_packs`]).
pub fn entity_pack_order() -> (v: Vec<(&'static str, Type)>)
    ensures
        v@.map_values(|e: (&'static str, Type)| (e.0@, e.1)) == entity_packs(),
{
    let v = vec![
        ("category.pack", Type::Category),
        ("idk.pack", Type::IdKit),
        ("interface.pack", Type::Interface),
        ("overlayinterface.pack", Type::OverlayInterface),
        ("struct.pack", Type::Struct),
        ("dbrow.pack", Type::DbRow),
        ("dbtable.pack", Type::DbTable),
        ("dbcolumn.pack", Type::DbColumn),
        ("param.pack", Type::Param),
        ("model.pack", Type::Model),
        ("fontmetrics.pack", Type::FontMetrics),
        ("mesanim.pack", Type::MesAnim),
        ("jingle.pack", Type::Jingle),
        ("midi.pack", Type::Midi),
        ("synth.pack", Type::Synth),
        ("spotanim.pack", Type::Spotanim),
        ("seq.pack", Type::Sequence),
        ("locshape.pack", Type::LocShape),
        ("hunt.pack", Type::Hunt),
        ("npc_mode.pack", Type::NpcMode),
        ("enum.pack", Type::Enum),
        ("writeinv.pack", Type::WriteinvObj),
        ("inv.pack", Type::Inv),
        ("loc.pack", Type::Loc),
        ("npc_stat.pack", Type::NpcStat),
        ("stat.pack", Type::Stat),
        ("npc.pack", Type::Npc),
        ("obj.pack", Type::Obj),
        ("controller.pack", Type::Controller),
    ];
    assert(v@.map_values(|e: (&'static str, Type)| (e.0@, e.1)) =~= entity_packs());
    v
}

/// The var packs and their categories, in load order.
pub fn var_pack_order() -> (v: Vec<(&'static str, &'static str)>)
    ensures
        v@.map_values(|e: (&'static str, &'static str)| (e.0@, e.1@)) == var_packs(),
{
    let v = vec![("varp.pack", "varp"), ("varn.pack", "varn"), ("vars.pack", "vars"), ("varbit.pack", "varbit")];
    assert(v@.map_values(|e: (&'static str, &'static str)| (e.0@, e.1@)) =~= var_packs());
    v
}

/// The lines of pack `name`, if the directory holds it.
pub open spec fn pack_lines(packs: Map<Seq<char>, String>, name: Seq<char>) -> Option<Seq<Seq<char>>> {
    if packs.contains_key(name) {
        Some(text_lines(packs[name]@))
    } else {
        None
    }
}

/// The entity registrations of the first `n` entity packs, in order.
pub open spec fn packs_regs(packs: Map<Seq<char>, String>, n: int) -> Seq<(Seq<char>, Type, i32)>
    decreases n,
{
    if n <= 0 {
        Seq::empty()
    } else {
        let (file, ty) = entity_packs()[n - 1];
        packs_regs(packs, n - 1) + match pack_lines(packs, file) {
            Some(ls) => entity_regs(line_regs(ls, ty, pack_roots(ls, ty))),
            None => Seq::empty(),
        }
    }
}

/// The interface ids after the first `n` entity packs.
pub open spec fn packs_interfaces(m: Map<Seq<char>, i32>, packs: Map<Seq<char>, String>, n: int) -> Map<Seq<char>, i32>
    decreases n,
{
    if n <= 0 {
        m
    } else {
        let (file, ty) = entity_packs()[n - 1];
        let prev = packs_interfaces(m, packs, n - 1);
        match pack_lines(packs, file) {
            Some(ls) => insert_roots(prev, pack_roots(ls, ty)),
            None => prev,
        }
    }
}

/// The component ids after the first `n` entity packs.
pub open spec fn packs_components(m: Map<Seq<char>, i32>, packs: Map<Seq<char>, String>, n: int) -> Map<Seq<char>, i32>
    decreases n,
{
    if n <= 0 {
        m
    } else {
        let (file, ty) = entity_packs()[n - 1];
        let prev = packs_components(m, packs, n - 1);
        match pack_lines(packs, file) {
            Some(ls) => insert_components(prev, line_regs(ls, ty, pack_roots(ls, ty))),
            None => prev,
        }
    }
}

/// The game variables after the first `n` var packs.
pub open spec fn packs_vars(m: Map<Seq<char>, SymbolView>, packs: Map<Seq<char>, String>, n: int) -> Map<Seq<char>, SymbolView>
    decreases n,
{
    if n <= 0 {
        m
    } else {
        let (file, cat) = var_packs()[n - 1];
        let prev = packs_vars(m, packs, n - 1);
        match pack_lines(packs, file) {
            Some(ls) => with_vars(prev, pack_entries(ls), cat),
            None => prev,
        }
    }
}

/// Loads the pack files of a pack directory, given by file name: first the
/// engine constants, then `command.pack`, the var packs, the entity packs in
/// priority order (see [`entity_packs`]), the type names, and last
/// `script.pack`. Missing files are skipped.
pub fn load_packs(registry: &mut SymbolRegistry, packs: &StrMap<String>)
    ensures
        entities_from(
            old(registry).entity_map(),
            final(registry).entity_map(),
            engine_constants() + packs_regs(packs@, 29),
            (engine_constants() + packs_regs(packs@, 29)).len() as int,
        ),
        final(registry).interface_map() == packs_interfaces(old(registry).interface_map(), packs@, 29),
        final(registry).component_map() == packs_components(old(registry).component_map(), packs@, 29),
        final(registry).command_map() == match pack_lines(packs@, "command.pack"@) {
            Some(ls) => with_commands(old(registry).command_map(), pack_entries(ls)),
            None => old(registry).command_map(),
        },
        final(registry).game_var_map() == packs_vars(old(registry).game_var_map(), packs@, 4),
        final(registry).type_char_map() == with_entries(old(registry).type_char_map(), type_char_table(), 33),
        final(registry).preloaded_map() == match pack_lines(packs@, "script.pack"@) {
            Some(ls) => preloaded_after(old(registry).preloaded_map(), ls, ls.len() as int),
            None => old(registry).preloaded_map(),
        },
        final(registry).script_map() == old(registry).script_map(),
{
    let ghost pm = packs@;
    register_engine_constants(registry);
    let ghost e1 = registry.entity_map();
    proof {
        reveal_strlit("command.pack");
        reveal_strlit("script.pack");
    }
    match packs.get("command.pack") {
        Some(t) => load_commands(registry, t.as_str()),
        None => {},
    }
    let vars = var_pack_order();
    let mut i: usize = 0;
    while i < vars.len()
        invariant
            i <= vars@.len(),
            vars@.map_values(|e: (&'static str, &'static str)| (e.0@, e.1@)) == var_packs(),
            pm == packs@,
            registry.game_var_map() == packs_vars(old(registry).game_var_map(), pm, i as int),
            registry.entity_map() == e1,
            registry.interface_map() == old(registry).interface_map(),
            registry.component_map() == old(registry).component_map(),
            registry.command_map() == match pack_lines(pm, "command.pack"@) {
                Some(ls) => with_commands(old(registry).command_map(), pack_entries(ls)),
                None => old(registry).command_map(),
            },
            registry.type_char_map() == old(registry).type_char_map(),
            registry.preloaded_map() == old(registry).preloaded_map(),
            registry.script_map() == old(registry).script_map(),
        decreases vars@.len() - i,
    {
        let (file, category) = vars[i];
        proof {
            assert(vars@.map_values(|e: (&'static str, &'static str)| (e.0@, e.1@))[i as int] == (file@, category@));
        }
        match packs.get(file) {
            Some(t) => load_game_vars(registry, t.as_str(), category),
            None => {},
        }
        i += 1;
    }
    assert(vars@.map_values(|e: (&'static str, &'static str)| (e.0@, e.1@)).len() == vars@.len());
    assert(var_packs().len() == 4);
    let entities = entity_pack_order();
    assert(entities@.map_values(|e: (&'static str, Type)| (e.0@, e.1)).len() == entities@.len());
    assert(entity_packs().len() == 29);
    let ghost e_start = registry.entity_map();
    proof {
        lemma_entities_none(e1, packs_regs(pm, 0));
    }
    let mut i: usize = 0;
    while i < entities.len()
        invariant
            i <= entities@.len(),
            entities@.map_values(|e: (&'static str, Type)| (e.0@, e.1)) == entity_packs(),
            pm == packs@,
            e_start == e1,
            entities_from(e1, registry.entity_map(), packs_regs(pm, i as int), packs_regs(pm, i as int).len() as int),
            registry.interface_map() == packs_interfaces(old(registry).interface_map(), pm, i as int),
            registry.component_map() == packs_components(old(registry).component_map(), pm, i as int),
            registry.game_var_map() == packs_vars(old(registry).game_var_map(), pm, 4),
            registry.command_map() == match pack_lines(pm, "command.pack"@) {
                Some(ls) => with_commands(old(registry).command_map(), pack_entries(ls)),
                None => old(registry).command_map(),
            },
            registry.type_char_map() == old(registry).type_char_map(),
            registry.preloaded_map() == old(registry).preloaded_map(),
            registry.script_map() == old(registry).script_map(),
        decreases entities@.len() - i,
    {
        let (file, t) = entities[i];
        proof {
            assert(entities@.map_values(|e: (&'static str, Type)| (e.0@, e.1))[i as int] == (file@, t));
        }
        let ghost prev = registry.entity_map();
        match packs.get(file) {
            Some(text) => {
                load_entity_ids(registry, text.as_str(), t);
                proof {
                    let ls = text_lines(text@);
                    let r = entity_regs(line_regs(ls, t, pack_roots(ls, t)));
                    assert(packs_regs(pm, i + 1) == packs_regs(pm, i as int) + r);
                    lemma_entities_compose(e1, prev, registry.entity_map(), packs_regs(pm, i as int), r);
                }
            },
            None => {
                proof {
                    assert(packs_regs(pm, i + 1) =~= packs_regs(pm, i as int));
                }
            },
        }
        i += 1;
    }
    register_type_chars(registry);
    match packs.get("script.pack") {
        Some(t) => load_script_pack(registry, t.as_str()),
        None => {},
    }
    proof {
        lemma_entities_compose(old(registry).entity_map(), e1, registry.entity_map(), engine_constants(), packs_regs(pm, 29));
    }
}

// ── script.pack ────────────────────────────────────────────────────────────

/// Whether the ids of `v` increase strictly.
pub open spec fn ids_increasing(v: Seq<(i32, String)>) -> bool {
    forall|i: int, j: int| 0 <= i < j < v.len() ==> (#[trigger] v[i]).0 < (#[trigger] v[j]).0
}

/// The `script.pack` lines of the first `n` entries of `v`: `id=name` each,
/// newline-terminated.
pub open spec fn pack_text(v: Seq<(i32, String)>, n: int) -> Seq<char>
    decreases n,
{
    if n <= 0 {
        Seq::empty()
    } else {
        pack_text(v, n - 1) + crate::strings::int_decimal(v[n - 1].0 as int) + seq!['='] + v[n - 1].1@ + seq!['\n']
    }
}

/// Whether `v` lists the entries of `ids` by increasing id.
pub open spec fn lists(v: Seq<(i32, String)>, ids: Map<i32, Seq<char>>) -> bool {
    &&& ids_increasing(v)
    &&& forall|k: int| 0 <= k < v.len() ==> ids.contains_key((#[trigger] v[k]).0) && ids[v[k].0] == v[k].1@
    &&& forall|id: i32| #[trigger] ids.contains_key(id) ==> exists|k: int| 0 <= k < v.len() && (#[trigger] v[k]).0 == id
}

/// The pack being regenerated: names by id, ids by name, and the next id.
pub type PackState = (Map<i32, Seq<char>>, Map<Seq<char>, i32>, int);

/// Reading one line of the existing pack: an `id=name` line files `name`
/// under `id` and moves the next id past it. `None` where that passes
/// `i32::MAX`.
pub open spec fn existing_line(st: PackState, line: Seq<char>) -> Option<PackState> {
    match pack_fields(line) {
        Some((id_text, name)) => match i32_value(id_text) {
            Some(id) => if id >= st.2 {
                if id == i32::MAX {
                    None
                } else {
                    Some((st.0.insert(id, name), st.1.insert(name, id), id + 1))
                }
            } else {
                Some((st.0.insert(id, name), st.1.insert(name, id), st.2))
            },
            None => Some(st),
        },
        None => Some(st),
    }
}

/// The pack after its first `n` existing lines.
pub open spec fn existing_pack(lines: Seq<Seq<char>>, n: int) -> Option<PackState>
    decreases n,
{
    if n <= 0 {
        Some((Map::empty(), Map::empty(), 0))
    } else {
        match existing_pack(lines, n - 1) {
            Some(st) => existing_line(st, lines[n - 1]),
            None => None,
        }
    }
}

/// The `[trigger,name]` a source line declares (comments after `//` aside,
/// `command` declarations skipped).
pub open spec fn declared(raw: Seq<char>) -> Option<Seq<char>> {
    let before = match pair_from(raw, '/', '/', 0) {
        Some(c) => raw.take(c),
        None => raw,
    };
    let line = trim(before);
    if line.len() == 0 || line[0] != '[' {
        None
    } else {
        match index_of_char(line, ']') {
            None => None,
            Some(be) => {
                let inner = line.subrange(1, be);
                match index_of_char(inner, ',') {
                    None => None,
                    Some(cm) => if inner.take(cm) == "command"@ {
                        None
                    } else {
                        Some(line.take(be + 1))
                    },
                }
            },
        }
    }
}

/// Filing a declared name that has no id yet under the next id. `None`
/// where that id is `i32::MAX`.
pub open spec fn declare(st: PackState, full: Seq<char>) -> Option<PackState> {
    if st.1.contains_key(full) {
        Some(st)
    } else if st.2 >= i32::MAX {
        None
    } else {
        Some((st.0.insert(st.2 as i32, full), st.1.insert(full, st.2 as i32), st.2 + 1))
    }
}

/// The pack after the first `n` lines of one source.
pub open spec fn source_lines(st: Option<PackState>, lines: Seq<Seq<char>>, n: int) -> Option<PackState>
    decreases n,
{
    if n <= 0 {
        st
    } else {
        match source_lines(st, lines, n - 1) {
            Some(s1) => match declared(lines[n - 1]) {
                Some(full) => declare(s1, full),
                None => Some(s1),
            },
            None => None,
        }
    }
}

/// The pack after the first `n` sources (`engine.rs2` skipped).
pub open spec fn source_files(st: Option<PackState>, files: Seq<(Seq<char>, Seq<char>)>, n: int) -> Option<PackState>
    decreases n,
{
    if n <= 0 {
        st
    } else {
        let prev = source_files(st, files, n - 1);
        if files[n - 1].0 == "engine.rs2"@ {
            prev
        } else {
            let ls = text_lines(files[n - 1].1);
            source_lines(prev, ls, ls.len() as int)
        }
    }
}

/// The regenerated pack: the existing entries, then the new declarations.
pub open spec fn regenerated(existing: Seq<char>, files: Seq<(Seq<char>, Seq<char>)>) -> Option<PackState> {
    let ls = text_lines(existing);
    source_files(existing_pack(ls, ls.len() as int), files, files.len() as int)
}

proof fn lemma_source_lines_none(lines: Seq<Seq<char>>, n: int)
    requires
        0 <= n,
    ensures
        source_lines(None, lines, n) is None,
    decreases n,
{
    if n > 0 {
        lemma_source_lines_none(lines, n - 1);
    }
}

proof fn lemma_source_files_none(files: Seq<(Seq<char>, Seq<char>)>, n: int)
    requires
        0 <= n,
    ensures
        source_files(None, files, n) is None,
    decreases n,
{
    if n > 0 {
        lemma_source_files_none(files, n - 1);
        if files[n - 1].0 != "engine.rs2"@ {
            let ls = text_lines(files[n - 1].1);
            lemma_source_lines_none(ls, ls.len() as int);
        }
    }
}

proof fn lemma_source_lines_stuck(st: Option<PackState>, lines: Seq<Seq<char>>, m: int, n: int)
    requires
        0 <= m <= n,
        source_lines(st, lines, m) is None,
    ensures
        source_lines(st, lines, n) is None,
    decreases n,
{
    if m < n {
        lemma_source_lines_stuck(st, lines, m, n - 1);
    }
}

proof fn lemma_source_files_stuck(st: Option<PackState>, files: Seq<(Seq<char>, Seq<char>)>, m: int, n: int)
    requires
        0 <= m <= n,
        source_files(st, files, m) is None,
    ensures
        source_files(st, files, n) is None,
    decreases n,
{
    if m < n {
        lemma_source_files_stuck(st, files, m, n - 1);
        if files[n - 1].0 != "engine.rs2"@ {
            let ls = text_lines(files[n - 1].1);
            lemma_source_lines_none(ls, ls.len() as int);
        }
    }
}

proof fn lemma_existing_stuck(lines: Seq<Seq<char>>, m: int, n: int)
    requires
        0 <= m <= n,
        existing_pack(lines, m) is None,
    ensures
        existing_pack(lines, n) is None,
    decreases n,
{
    if m < n {
        lemma_existing_stuck(lines, m, n - 1);
    }
}

/// Files `id` as `name` in `v`, kept in increasing id order; an existing
/// entry of that id is replaced.
fn insert_by_id(v: &mut Vec<(i32, String)>, id: i32, name: String, Ghost(ids): Ghost<Map<i32, Seq<char>>>)
    requires
        lists(old(v)@, ids),
    ensures
        lists(final(v)@, ids.insert(id, name@)),
{
    let ghost nv = name@;
    let mut j: usize = 0;
    while j < v.len() && v[j].0 < id
        invariant
            j <= v@.len(),
            forall|i: int| 0 <= i < j ==> (#[trigger] v@[i]).0 < id,
        decreases v@.len() - j,
    {
        j += 1;
    }
    let ghost before = v@;
    let ghost m2 = ids.insert(id, nv);
    if j < v.len() && v[j].0 == id {
        v.set(j, (id, name));
        proof {
            assert forall|a: int, b: int| 0 <= a < b < v@.len() implies (#[trigger] v@[a]).0 < (#[trigger] v@[b]).0 by {
                assert(v@[a].0 == before[a].0 && v@[b].0 == before[b].0);
            }
            assert forall|k: int| 0 <= k < v@.len() implies m2.contains_key((#[trigger] v@[k]).0) && m2[v@[k].0] == v@[k].1@ by {
                if k != j {
                    assert(v@[k] == before[k]);
                    if before[k].0 == id {
                        assert(before[j as int].0 == id);
                        assert(false);
                    }
                }
            }
            assert forall|x: i32| #[trigger] m2.contains_key(x) implies exists|k: int| 0 <= k < v@.len() && (#[trigger] v@[k]).0 == x by {
                if x == id {
                    assert(v@[j as int].0 == x);
                } else {
                    let k = choose|k: int| 0 <= k < before.len() && (#[trigger] before[k]).0 == x;
                    assert(v@[k].0 == x);
                }
            }
        }
    } else {
        v.insert(j, (id, name));
        proof {
            assert forall|a: int, b: int| 0 <= a < b < v@.len() implies (#[trigger] v@[a]).0 < (#[trigger] v@[b]).0 by {
                if b < j {
                    assert(v@[a] == before[a] && v@[b] == before[b]);
                } else if b == j {
                    assert(v@[a] == before[a]);
                } else if a == j {
                    assert(v@[b] == before[b - 1]);
                    assert(before[j as int].0 > id);
                    if b - 1 > j {
                        assert(before[j as int].0 < before[b - 1].0);
                    }
                } else if a < j {
                    assert(v@[a] == before[a] && v@[b] == before[b - 1]);
                } else {
                    assert(v@[a] == before[a - 1] && v@[b] == before[b - 1]);
                }
            }
            assert forall|k: int| 0 <= k < v@.len() implies m2.contains_key((#[trigger] v@[k]).0) && m2[v@[k].0] == v@[k].1@ by {
                if k < j {
                    assert(v@[k] == before[k]);
                } else if k > j {
                    assert(v@[k] == before[k - 1]);
                    assert(before[k - 1].0 != id) by {
                        if j < before.len() {
                            assert(before[j as int].0 > id);
                            if k - 1 > j {
                                assert(before[j as int].0 < before[k - 1].0);
                            }
                        }
                    }
                }
            }
            assert forall|x: i32| #[trigger] m2.contains_key(x) implies exists|k: int| 0 <= k < v@.len() && (#[trigger] v@[k]).0 == x by {
                if x == id {
                    assert(v@[j as int].0 == x);
                } else {
                    let k = choose|k: int| 0 <= k < before.len() && (#[trigger] before[k]).0 == x;
                    if k < j {
                        assert(v@[k].0 == x);
                    } else {
                        assert(v@[k + 1].0 == x);
                    }
                }
            }
        }
    }
}

/// Reads one line of the existing pack (see [`existing_line`]); `false`
/// where the next id would pass `i32::MAX`.
fn read_existing_line(
    line: &Vec<char>,
    id_to_name: &mut Vec<(i32, String)>,
    name_to_id: &mut StrMap<i32>,
    max_id: &mut i32,
    Ghost(ids): Ghost<Map<i32, Seq<char>>>,
) -> (r: bool)
    requires
        lists(old(id_to_name)@, ids),
    ensures
        match existing_line((ids, old(name_to_id)@, *old(max_id) as int), line@) {
            Some(st) => r && st.1 == final(name_to_id)@ && st.2 == *final(max_id) as int && lists(final(id_to_name)@, st.0),
            None => !r,
        },
{
    if let Some((id_text, name)) = pack_fields_of(line) {
        if let Some(id) = parse_i32(&id_text) {
            let name_text = string_from_chars(&name);
            name_to_id.insert(crate::strings::to_owned_string(name_text.as_str()), id);
            insert_by_id(id_to_name, id, name_text, Ghost(ids));
            if id >= *max_id {
                if id == 2147483647i32 {
                    return false;
                }
                *max_id = id + 1;
            }
        }
    }
    true
}

/// The `[trigger,name]` a source line declares (see [`declared`]).
fn declared_name(raw: &Vec<char>) -> (r: Option<String>)
    ensures
        match r {
            Some(n) => declared(raw@) == Some(n@),
            None => declared(raw@) is None,
        },
{
    let raw_len = raw.len();
    let before_comment = match find2(raw, '/', '/') {
        Some(c) => sub_chars(raw, 0, c),
        None => sub_chars(raw, 0, raw_len),
    };
    proof {
        assert(raw@.subrange(0, raw_len as int) =~= raw@);
    }
    let line = trim_chars(&before_comment);
    if line.len() == 0 || line[0] != '[' {
        return None;
    }
    let bracket_end = match find_char(&line, ']') {
        Some(i) => i,
        None => {
            return None;
        },
    };
    let inner = sub_chars(&line, 1, bracket_end);
    let comma = match find_char(&inner, ',') {
        Some(i) => i,
        None => {
            return None;
        },
    };
    let trigger = string_from_chars(&sub_chars(&inner, 0, comma));
    proof {
        reveal_strlit("command");
        assert(inner@.subrange(0, comma as int) == inner@.take(comma as int));
    }
    if crate::strings::str_eq(trigger.as_str(), "command") {
        return None;
    }
    proof {
        assert(line@.subrange(0, bracket_end + 1) == line@.take(bracket_end + 1));
    }
    Some(string_from_chars(&sub_chars(&line, 0, bracket_end + 1)))
}

/// Regenerates `script.pack` (see [`regenerated`]): the entries of the
/// existing pack keep their ids; every `[trigger,name]` declaration in the
/// script sources (given as file name and text, `engine.rs2` skipped,
/// `command` declarations skipped) that has no id gets the next one past
/// the highest. Returns the new pack text, one `id=[trigger,name]` line per
/// entry in increasing id order, and the number of entries; `None` where
/// the ids run past `i32::MAX`.
pub fn regenerate_script_pack(existing: &str, sources: &Vec<(String, String)>) -> (r: Option<(String, usize)>)
    ensures
        r is None <==> regenerated(existing@, sources@.map_values(|f: (String, String)| (f.0@, f.1@))) is None,
        r matches Some((text, n)) ==> exists|v: Seq<(i32, String)>|
            {
                &&& lists(v, regenerated(existing@, sources@.map_values(|f: (String, String)| (f.0@, f.1@)))->Some_0.0)
                &&& v.len() == n
                &&& text@ == pack_text(v, v.len() as int)
            },
{
    let ghost fs = sources@.map_values(|f: (String, String)| (f.0@, f.1@));
    let mut id_to_name: Vec<(i32, String)> = Vec::new();
    let mut name_to_id: StrMap<i32> = StrMap::new();
    let mut max_id: i32 = 0;
    let lines = lines_of(existing);
    let ghost els = text_lines(existing@);
    let ghost mut ids: Map<i32, Seq<char>> = Map::empty();
    proof {
        assert(lists(id_to_name@, ids));
    }
    let mut k: usize = 0;
    while k < lines.len()
        invariant
            k <= lines@.len(),
            lines@.len() == els.len(),
            els == text_lines(existing@),
            forall|i: int| 0 <= i < lines@.len() ==> (#[trigger] lines@[i])@ == els[i],
            existing_pack(els, k as int) == Some((ids, name_to_id@, max_id as int)),
            lists(id_to_name@, ids),
            fs == sources@.map_values(|f: (String, String)| (f.0@, f.1@)),
        decreases lines@.len() - k,
    {
        assert(lines@[k as int]@ == els[k as int]);
        let ghost st_k = (ids, name_to_id@, max_id as int);
        if !read_existing_line(&lines[k], &mut id_to_name, &mut name_to_id, &mut max_id, Ghost(ids)) {
            proof {
                assert(existing_pack(els, k + 1) is None);
                lemma_existing_stuck(els, k + 1, els.len() as int);
                lemma_source_files_none(fs, fs.len() as int);
            }
            return None;
        }
        proof {
            ids = existing_line(st_k, els[k as int])->Some_0.0;
        }
        k += 1;
    }
    proof {
        assert(els.len() == lines@.len());
    }
    let ghost st0 = existing_pack(els, els.len() as int);
    let mut f: usize = 0;
    while f < sources.len()
        invariant
            f <= sources@.len(),
            fs == sources@.map_values(|f: (String, String)| (f.0@, f.1@)),
            st0 == existing_pack(text_lines(existing@), text_lines(existing@).len() as int),
            source_files(st0, fs, f as int) == Some((ids, name_to_id@, max_id as int)),
            lists(id_to_name@, ids),
        decreases sources@.len() - f,
    {
        assert(fs[f as int] == (sources@[f as int].0@, sources@[f as int].1@));
        proof {
            reveal_strlit("engine.rs2");
        }
        if !str_eq_string(&sources[f].0, "engine.rs2") {
            let lines = lines_of(sources[f].1.as_str());
            let ghost ls = text_lines(fs[f as int].1);
            let ghost prev = source_files(st0, fs, f as int);
            let mut k: usize = 0;
            while k < lines.len()
                invariant
                    k <= lines@.len(),
                    f < sources@.len(),
                    fs == sources@.map_values(|f: (String, String)| (f.0@, f.1@)),
                    ls == text_lines(fs[f as int].1),
                    lines@.len() == ls.len(),
                    forall|i: int| 0 <= i < lines@.len() ==> (#[trigger] lines@[i])@ == ls[i],
                    fs[f as int].0 != "engine.rs2"@,
                    st0 == existing_pack(text_lines(existing@), text_lines(existing@).len() as int),
                    prev == source_files(st0, fs, f as int),
                    source_lines(prev, ls, k as int) == Some((ids, name_to_id@, max_id as int)),
                    lists(id_to_name@, ids),
                decreases lines@.len() - k,
            {
                if let Some(full) = declared_name(&lines[k]) {
                    if !name_to_id.contains_key(full.as_str()) {
                        name_to_id.insert(crate::strings::to_owned_string(full.as_str()), max_id);
                        let ghost fv = full@;
                        insert_by_id(&mut id_to_name, max_id, full, Ghost(ids));
                        proof {
                            ids = ids.insert(max_id, fv);
                        }
                        if max_id == 2147483647i32 {
                            proof {
                                assert(source_lines(prev, ls, k + 1) is None);
                                lemma_source_lines_stuck(prev, ls, k + 1, ls.len() as int);
                                assert(source_files(st0, fs, f + 1) is None);
                                lemma_source_files_stuck(st0, fs, f + 1, fs.len() as int);
                            }
                            return None;
                        }
                        max_id = max_id + 1;
                    }
                }
                k += 1;
            }
        }
        f += 1;
    }
    let mut out = String::new();
    let mut i: usize = 0;
    while i < id_to_name.len()
        invariant
            i <= id_to_name@.len(),
            out@ == pack_text(id_to_name@, i as int),
        decreases id_to_name@.len() - i,
    {
        let digits = crate::strings::i64_to_decimal(id_to_name[i].0 as i64);
        crate::strings::push_str(&mut out, digits.as_str());
        crate::strings::push_char(&mut out, '=');
        crate::strings::push_str(&mut out, id_to_name[i].1.as_str());
        crate::strings::push_char(&mut out, '\n');
        proof {
            assert(out@ =~= pack_text(id_to_name@, i + 1));
        }
        i += 1;
    }
    proof {
        assert(fs.len() == sources@.len());
        assert(lists(id_to_name@, regenerated(existing@, fs)->Some_0.0));
    }
    Some((out, id_to_name.len()))
}

} // verus!
