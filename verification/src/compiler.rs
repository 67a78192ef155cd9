//! Code generation from the syntax tree to bytecode, and the lookup keys by
//! which the engine dispatches a script to its trigger and subject.
use vstd::prelude::*;
use crate::strings::{
    char_positions, chars_of, field, field_of, find_char, i64_value, index_of_char, normalized_name,
    parse_i64, positions_of, push_str, str_eq, string_from_chars, string_from_range, to_owned_string,
};
use crate::symbol::{
    comp_name_form, scoped_lookup, script_id_spec, trigger_key, typed_entity, EntityEntry, KindView,
    Symbol, SymbolKind, SymbolRegistry, SymbolTable, SymbolView,
};
use crate::bytecode::{operand_within, targets_within, CompiledScript, Instruction, Opcode, Operand};
use crate::parser::{BinOp, Expr, LogicOp, ScriptDeclaration, Statement, StringPart, SwitchCase};
use crate::types::BaseVarType;
use crate::trigger_table;
use crate::trigger_table::trigger_info;
use crate::types::Type;

verus! {

// ── Lookup keys ────────────────────────────────────────────────────────────

/// `entity_id * 1024 + base`, wrapped to 32 bits.
pub open spec fn key_of(entity_id: int, base: int) -> i32 {
    (entity_id * 1024 + base) as i32
}

/// The entity id of a `level_bx_by` map-zone subject.
pub open spec fn mapzone_id(bx: i64, by: i64) -> i64 {
    ((bx & 3) << 20u64) | (by << 6u64)
}

/// The entity id of a `level_bx_by_lx_lz` zone subject.
pub open spec fn zone_id(bx: i64, by: i64, lx: i64, lz: i64) -> i64 {
    ((bx & 3) << 20u64) | (by << 6u64) | (lx << 14u64) | lz
}

/// The key of a map-zone subject `level_bx_by[_...]`; -1 when it has fewer
/// than three `_`-separated fields or its second or third field is not an `i64`.
pub open spec fn mapzone_key(entity: Seq<char>, byte: int) -> i32 {
    if char_positions(entity, '_').len() >= 2 {
        match (i64_value(field(entity, '_', 1)), i64_value(field(entity, '_', 2))) {
            (Some(bx), Some(by)) => key_of(mapzone_id(bx, by) as int, 512 + byte),
            _ => -1i32,
        }
    } else {
        -1i32
    }
}

/// The key of a zone subject `level_bx_by_lx_lz[_...]`; -1 when it has fewer
/// than five `_`-separated fields or one of fields one to four is not an `i64`.
pub open spec fn zone_key(entity: Seq<char>, byte: int) -> i32 {
    if char_positions(entity, '_').len() >= 4 {
        match (
            i64_value(field(entity, '_', 1)),
            i64_value(field(entity, '_', 2)),
            i64_value(field(entity, '_', 3)),
            i64_value(field(entity, '_', 4)),
        ) {
            (Some(bx), Some(by), Some(lx), Some(lz)) => key_of(
                zone_id(bx, by, lx, lz) as int,
                512 + byte,
            ),
            _ => -1i32,
        }
    } else {
        -1i32
    }
}

/// The key of an entity subject looked up by name: by the trigger's subject
/// type where one is given and registered, else by the name's primary entity.
pub open spec fn entity_key(
    entities: Map<Seq<char>, EntityEntry>,
    subject: Option<Type>,
    entity: Seq<char>,
    byte: int,
) -> i32 {
    let fallback = match entities.get(normalized_name(entity)) {
        Some(e) => match e.primary {
            Some(r) => key_of(r.id as int, 512 + byte),
            None => -1i32,
        },
        None => -1i32,
    };
    match subject {
        Some(t) => match typed_entity(entities, normalized_name(entity), t) {
            Some(id) => key_of(id as int, 512 + byte),
            None => fallback,
        },
        None => fallback,
    }
}

/// The lookup key of script `[trigger,entity]`: the trigger byte for the
/// wildcard subject `_`; `id * 1024 + 512 + byte` for a coordinate, an
/// `interface:component` or an entity subject; `id * 1024 + 256 + byte` for a
/// `_category` subject; -1 when the trigger has no byte or the subject does
/// not resolve.
pub open spec fn lookup_key(
    entities: Map<Seq<char>, EntityEntry>,
    components: Map<Seq<char>, i32>,
    trigger: Seq<char>,
    entity: Seq<char>,
) -> i32 {
    match trigger_info(trigger) {
        None => -1i32,
        Some(t) => {
            let b = t.byte as int;
            if entity == "_"@ {
                b as i32
            } else if trigger == "mapzone"@ || trigger == "mapzoneexit"@ {
                mapzone_key(entity, b)
            } else if trigger == "zone"@ || trigger == "zoneexit"@ {
                zone_key(entity, b)
            } else if entity.len() > 0 && entity[0] == '_' {
                match typed_entity(entities, normalized_name(entity.skip(1)), Type::Category) {
                    Some(id) => key_of(id as int, 256 + b),
                    None => -1i32,
                }
            } else {
                match index_of_char(entity, ':') {
                    Some(i) => match components.get(
                        trigger_key(entity.take(i), comp_name_form(entity.skip(i + 1))),
                    ) {
                        Some(packed) => key_of(packed as int, 512 + b),
                        None => -1i32,
                    },
                    None => entity_key(entities, t.subject_type, entity, b),
                }
            }
        },
    }
}

/// A `_category` subject whose category is registered with id `k` gets the
/// key `k * 1024 + 256 + byte` (wrapped to 32 bits) for a trigger of byte
/// `byte` that is not a zone trigger, which is never the key
/// `k * 1024 + 512 + byte` an entity subject with the same id gets.
pub proof fn lemma_category_subject_key(
    entities: Map<Seq<char>, EntityEntry>,
    components: Map<Seq<char>, i32>,
    trigger: Seq<char>,
    category: Seq<char>,
    k: i32,
)
    requires
        trigger_info(trigger) is Some,
        trigger != "mapzone"@,
        trigger != "mapzoneexit"@,
        trigger != "zone"@,
        trigger != "zoneexit"@,
        category.len() > 0,
        typed_entity(entities, normalized_name(category), Type::Category) == Some(k),
    ensures
        lookup_key(entities, components, trigger, seq!['_'] + category) == ((k as int) * 1024 + 256
            + trigger_info(trigger)->0.byte) as i32,
        lookup_key(entities, components, trigger, seq!['_'] + category) != ((k as int) * 1024 + 512
            + trigger_info(trigger)->0.byte) as i32,
{
    reveal_strlit("_");
    let e = seq!['_'] + category;
    assert(e.len() > 1);
    assert(e != "_"@);
    assert(e[0] == '_');
    assert(e.skip(1) =~= category);
    let b = trigger_info(trigger)->0.byte;
    let xi: int = (k as int) * 1024 + 256 + b as int;
    let x: i64 = xi as i64;
    let y: i64 = (xi + 256) as i64;
    assert(x == xi && y == xi + 256);
    assert(x as i32 != y as i32) by (bit_vector)
        requires
            y == x + 256,
    ;
}

/// The wildcard subject `_` is keyed by the trigger's byte alone.
pub proof fn lemma_wildcard_subject_key(
    entities: Map<Seq<char>, EntityEntry>,
    components: Map<Seq<char>, i32>,
    trigger: Seq<char>,
)
    requires
        trigger_info(trigger) is Some,
    ensures
        lookup_key(entities, components, trigger, "_"@) == trigger_info(trigger)->0.byte as i32,
{
}

/// A named subject (no leading `_`, no `:`) of a trigger that is not a zone
/// trigger gets the key `k * 1024 + 512 + byte` (wrapped to 32 bits), where
/// `k` is the id the name has for the trigger's subject type, or the name's
/// primary id when the trigger names no type or the name has no id of it.
pub proof fn lemma_named_subject_key(
    entities: Map<Seq<char>, EntityEntry>,
    components: Map<Seq<char>, i32>,
    trigger: Seq<char>,
    entity: Seq<char>,
    k: i32,
)
    requires
        trigger_info(trigger) is Some,
        trigger != "mapzone"@,
        trigger != "mapzoneexit"@,
        trigger != "zone"@,
        trigger != "zoneexit"@,
        entity.len() > 0,
        entity[0] != '_',
        !entity.contains(':'),
        (trigger_info(trigger)->0.subject_type matches Some(t) && typed_entity(
            entities,
            normalized_name(entity),
            t,
        ) == Some(k)) || ((trigger_info(trigger)->0.subject_type is None || typed_entity(
            entities,
            normalized_name(entity),
            trigger_info(trigger)->0.subject_type->0,
        ) is None) && entities.contains_key(normalized_name(entity)) && entities[normalized_name(
            entity,
        )].primary is Some && entities[normalized_name(entity)].primary->0.id == k),
    ensures
        lookup_key(entities, components, trigger, entity) == ((k as int) * 1024 + 512
            + trigger_info(trigger)->0.byte) as i32,
{
    reveal_strlit("_");
    assert(entity != "_"@) by {
        if entity == "_"@ {
            assert(entity[0] == '_');
        }
    }
    assert(entity.len() > 0 && entity[0] != '_');
}

/// The hint of an unresolved-subject warning.
pub open spec fn subject_hint(entity: Seq<char>) -> Seq<char> {
    match index_of_char(entity, ':') {
        Some(i) => "interface:component subject — check interface.pack for either an if3 entry `<iface_id>:<comp_id>=<comp_name>` (with iface_id matching `"@
            + entity.take(i) + "`) or an if1 entry `<flat_id>="@ + entity.take(i) + ":"@
            + entity.skip(i + 1) + "`"@,
        None => "Likely a typo or missing pack entry (check interface.pack / npc.pack / obj.pack / loc.pack)"@,
    }
}

/// The warning for a subject that did not resolve.
pub open spec fn subject_warning(trigger: Seq<char>, entity: Seq<char>) -> Seq<char> {
    "["@ + trigger + ","@ + entity + "] — subject `"@ + entity
        + "` did not resolve to an entity. "@ + subject_hint(entity)
        + ". Script will compile but never dispatch."@
}

/// Whether trigger `t` wants its named subjects to resolve.
pub open spec fn validates(t: Seq<char>) -> bool {
    match trigger_info(t) {
        Some(info) => info.validates_subject,
        None => false,
    }
}

/// `entity * 1024 + base`, wrapped to 32 bits.
fn key_value(entity: i64, base: i64) -> (r: i32)
    requires
        0 <= base < 1024,
    ensures
        r == key_of(entity as int, base as int),
{
    let x: i128 = entity as i128 * 1024 + base as i128;
    x as i32
}

fn parse_field(v: &Vec<char>, p: &Vec<usize>, k: usize) -> (r: Option<i64>)
    requires
        p@.map_values(|x: usize| x as int) == char_positions(v@, '_'),
        k <= p@.len(),
    ensures
        r == i64_value(field(v@, '_', k as int)),
{
    let f = field_of(v, '_', p, k);
    parse_i64(&f)
}

fn coord_mapzone_key(entity: &str, byte: i64) -> (r: i32)
    requires
        0 <= byte < 256,
    ensures
        r == mapzone_key(entity@, byte as int),
{
    let v = chars_of(entity);
    let p = positions_of(&v, '_');
    if p.len() >= 2 {
        let bx = parse_field(&v, &p, 1);
        let by = parse_field(&v, &p, 2);
        match (bx, by) {
            (Some(bx), Some(by)) => {
                let id: i64 = ((bx & 3) << 20u64) | (by << 6u64);
                key_value(id, 512 + byte)
            },
            _ => -1,
        }
    } else {
        -1
    }
}

fn coord_zone_key(entity: &str, byte: i64) -> (r: i32)
    requires
        0 <= byte < 256,
    ensures
        r == zone_key(entity@, byte as int),
{
    let v = chars_of(entity);
    let p = positions_of(&v, '_');
    if p.len() >= 4 {
        let bx = parse_field(&v, &p, 1);
        let by = parse_field(&v, &p, 2);
        let lx = parse_field(&v, &p, 3);
        let lz = parse_field(&v, &p, 4);
        match (bx, by, lx, lz) {
            (Some(bx), Some(by), Some(lx), Some(lz)) => {
                let id: i64 = ((bx & 3) << 20u64) | (by << 6u64) | (lx << 14u64) | lz;
                key_value(id, 512 + byte)
            },
            _ => -1,
        }
    } else {
        -1
    }
}

/// The hint text of [`subject_hint`].
fn hint_text(entity: &str) -> (r: String)
    ensures
        r@ == subject_hint(entity@),
{
    let v = chars_of(entity);
    match find_char(&v, ':') {
        Some(i) => {
            assert(i < v.len());
            let iface = string_from_range(&v, 0, i);
            let comp = string_from_range(&v, i + 1, v.len());
            let mut m = String::new();
            push_str(
                &mut m,
                "interface:component subject — check interface.pack for either an if3 entry `<iface_id>:<comp_id>=<comp_name>` (with iface_id matching `",
            );
            push_str(&mut m, iface.as_str());
            push_str(&mut m, "`) or an if1 entry `<flat_id>=");
            push_str(&mut m, iface.as_str());
            push_str(&mut m, ":");
            push_str(&mut m, comp.as_str());
            push_str(&mut m, "`");
            proof {
                assert(iface@ == entity@.take(i as int));
                assert(comp@ == entity@.skip(i + 1));
            }
            m
        },
        None => to_owned_string(
            "Likely a typo or missing pack entry (check interface.pack / npc.pack / obj.pack / loc.pack)",
        ),
    }
}

/// Code generator from the syntax tree to bytecode.
pub struct Compiler {
    pub registry: SymbolRegistry,
    /// Return types of the script being compiled.
    current_return_types: Vec<Type>,
    /// The line of the statement being compiled.
    current_stmt_line: usize,
}

impl Compiler {
    /// The registry the compiler resolves names in.
    pub closed spec fn registry_spec(&self) -> SymbolRegistry {
        self.registry
    }

    /// A compiler over the given registry.
    pub fn new(registry: SymbolRegistry) -> (c: Compiler)
        ensures
            c.registry_spec() == registry,
    {
        Compiler { registry, current_return_types: Vec::new(), current_stmt_line: 0 }
    }

    /// Hands back the registry the compiler resolved names in.
    pub fn into_registry(self) -> (r: SymbolRegistry)
        ensures
            r == self.registry_spec(),
    {
        self.registry
    }

    /// The lookup key of script `[trigger,entity_name]` (see [`lookup_key`]).
    pub fn compute_lookup_key(trigger: &str, entity_name: &str, registry: &SymbolRegistry) -> (r: i32)
        ensures
            r == lookup_key(registry.entity_map(), registry.component_map(), trigger@, entity_name@),
    {
        let byte: i64 = match trigger_table::byte(trigger) {
            Some(b) => b as i64,
            None => return -1,
        };
        if str_eq(entity_name, "_") {
            return byte as i32;
        }
        if str_eq(trigger, "mapzone") || str_eq(trigger, "mapzoneexit") {
            return coord_mapzone_key(entity_name, byte);
        }
        if str_eq(trigger, "zone") || str_eq(trigger, "zoneexit") {
            return coord_zone_key(entity_name, byte);
        }
        let v = chars_of(entity_name);
        if v.len() > 0 && v[0] == '_' {
            let cat = string_from_range(&v, 1, v.len());
            proof {
                assert(cat@ == entity_name@.skip(1));
            }
            return match registry.lookup_entity_id_typed(cat.as_str(), Type::Category) {
                Some(id) => key_value(id as i64, 256 + byte),
                None => -1,
            };
        }
        match find_char(&v, ':') {
            Some(i) => {
                let iface = string_from_range(&v, 0, i);
                let comp = string_from_range(&v, i + 1, v.len());
                proof {
                    assert(iface@ == entity_name@.take(i as int));
                    assert(comp@ == entity_name@.skip(i + 1));
                }
                match registry.lookup_component(iface.as_str(), comp.as_str()) {
                    Some(packed) => key_value(packed as i64, 512 + byte),
                    None => -1,
                }
            },
            None => {
                if let Some(t) = trigger_table::subject_type(trigger) {
                    if let Some(id) = registry.lookup_entity_id_typed(entity_name, t) {
                        return key_value(id as i64, 512 + byte);
                    }
                }
                match registry.lookup_entity_id(entity_name) {
                    Some(r) => key_value(r.id as i64, 512 + byte),
                    None => -1,
                }
            },
        }
    }

    /// A warning when `[trigger,entity_name]` names a subject that should
    /// resolve (a non-empty, non-`_`, non-category subject of a trigger that
    /// validates its subject) and its lookup key is -1, so that the script
    /// would never be dispatched; `None` otherwise.
    pub fn validate_trigger_subject(trigger: &str, entity_name: &str, registry: &SymbolRegistry) -> (r: Option<String>)
        ensures
            r is Some <==> (entity_name@.len() > 0 && entity_name@ != "_"@ && entity_name@[0] != '_'
                && validates(trigger@) && lookup_key(
                registry.entity_map(),
                registry.component_map(),
                trigger@,
                entity_name@,
            ) == -1),
            r matches Some(m) ==> m@ == subject_warning(trigger@, entity_name@),
    {
        let v = chars_of(entity_name);
        if v.len() == 0 || str_eq(entity_name, "_") {
            return None;
        }
        if v[0] == '_' {
            return None;
        }
        if !trigger_table::validates_subject(trigger) {
            return None;
        }
        let key = Self::compute_lookup_key(trigger, entity_name, registry);
        if key == -1 {
            let hint = hint_text(entity_name);
            let mut m = String::new();
            push_str(&mut m, "[");
            push_str(&mut m, trigger);
            push_str(&mut m, ",");
            push_str(&mut m, entity_name);
            push_str(&mut m, "] — subject `");
            push_str(&mut m, entity_name);
            push_str(&mut m, "` did not resolve to an entity. ");
            push_str(&mut m, hint.as_str());
            push_str(&mut m, ". Script will compile but never dispatch.");
            return Some(m);
        }
        None
    }
}

// ── Code generation ────────────────────────────────────────────────────────

/// `b` is `a` with instructions added (and jumps among the added ones
/// patched): its header is the same, every instruction of `a` stays as it
/// was, and its jump targets stay within it.
pub open spec fn grown(a: &CompiledScript, b: &CompiledScript) -> bool {
    &&& reshaped(a, b)
    &&& forall|i: int| 0 <= i < a.instructions@.len() ==> #[trigger] b.instructions@[i] == a.instructions@[i]
    &&& locals_grown(a.local_table@, b.local_table@)
}

/// Local table `b` is `a` with locals (not parameters) declared after it.
pub open spec fn locals_grown(a: Seq<crate::symbol::LocalEntry>, b: Seq<crate::symbol::LocalEntry>) -> bool {
    &&& b.len() >= a.len()
    &&& forall|i: int| 0 <= i < a.len() ==> #[trigger] b[i] == a[i]
    &&& forall|i: int| a.len() <= i < b.len() ==> !(#[trigger] b[i]).is_param
}

/// Whether the first entries of local table `t` are the parameters
/// `params`, in order.
pub open spec fn params_first(t: Seq<crate::symbol::LocalEntry>, params: Seq<crate::parser::ParamDef>) -> bool {
    &&& t.len() >= params.len()
    &&& forall|i: int|
        0 <= i < params.len() ==> {
            &&& (#[trigger] t[i]).name@ == params[i].name@
            &&& t[i].var_type == params[i].param_type
            &&& t[i].is_param
            &&& !t[i].is_array
        }
    &&& forall|i: int| params.len() <= i < t.len() ==> !(#[trigger] t[i]).is_param
}

/// The number of parameters of base type `base` among `params`.
pub open spec fn param_count(params: Seq<crate::parser::ParamDef>, base: BaseVarType) -> nat
    decreases params.len(),
{
    if params.len() == 0 {
        0
    } else {
        param_count(params.drop_last(), base) + if crate::types::base_of(params.last().param_type) == base {
            1nat
        } else {
            0nat
        }
    }
}

proof fn lemma_param_counts(t: Seq<crate::symbol::LocalEntry>, params: Seq<crate::parser::ParamDef>, base: BaseVarType)
    requires
        params_first(t, params),
    ensures
        crate::symbol::count_params(t, base) == param_count(params, base),
    decreases t.len(),
{
    if t.len() > params.len() {
        assert(!t.last().is_param);
        assert(params_first(t.drop_last(), params)) by {
            assert forall|i: int| 0 <= i < params.len() implies #[trigger] t.drop_last()[i] == t[i] by {}
        }
        lemma_param_counts(t.drop_last(), params, base);
    } else if t.len() > 0 {
        assert(params_first(t.drop_last(), params.drop_last())) by {
            assert forall|i: int| 0 <= i < params.drop_last().len() implies #[trigger] t.drop_last()[i] == t[i] by {}
        }
        lemma_param_counts(t.drop_last(), params.drop_last(), base);
    }
}

proof fn lemma_only_params_counts(t: Seq<crate::symbol::LocalEntry>, base: BaseVarType)
    requires
        forall|i: int| 0 <= i < t.len() ==> (#[trigger] t[i]).is_param,
    ensures
        crate::symbol::count_locals(t, base) == crate::symbol::count_params(t, base),
    decreases t.len(),
{
    if t.len() > 0 {
        assert(t.last() == t[t.len() - 1]);
        assert forall|i: int| 0 <= i < t.drop_last().len() implies (#[trigger] t.drop_last()[i]).is_param by {
            assert(t.drop_last()[i] == t[i]);
        }
        lemma_only_params_counts(t.drop_last(), base);
    }
}

proof fn lemma_case_ends_kept(
    ends: Seq<int>,
    i: int,
    ej0: Seq<usize>,
    ej1: Seq<usize>,
    top: Seq<Instruction>,
    now: Seq<Instruction>,
)
    requires
        0 <= i <= ends.len(),
        ej1.len() >= ej0.len(),
        forall|w: int| 0 <= w < ej0.len() ==> #[trigger] ej1[w] == ej0[w],
        forall|j: int| 0 <= j < i ==> ej0.contains(#[trigger] ends[j] as usize),
        forall|j: int| 0 <= j < i ==> 0 <= #[trigger] ends[j] < top.len() && top[ends[j]] == pending_branch(Opcode::Branch),
        now.len() >= top.len(),
        forall|k: int| 0 <= k < top.len() ==> #[trigger] now[k] == top[k],
    ensures
        forall|j: int| 0 <= j < i ==> ej1.contains(#[trigger] ends[j] as usize),
        forall|j: int| 0 <= j < i ==> now[#[trigger] ends[j]] == pending_branch(Opcode::Branch),
{
    assert forall|j: int| 0 <= j < i implies ej1.contains(#[trigger] ends[j] as usize) by {
        assert(ej0.contains(ends[j] as usize));
        let w = choose|w: int| 0 <= w < ej0.len() && ej0[w] == ends[j] as usize;
        assert(ej1[w] == ej0[w]);
    }
    assert forall|j: int| 0 <= j < i implies now[#[trigger] ends[j]] == pending_branch(Opcode::Branch) by {
        assert(now[ends[j]] == top[ends[j]]);
    }
}

/// `b` is `a` with code appended or jumps retargeted: the same header, at
/// least as many instructions, all jumps within the code.
pub open spec fn reshaped(a: &CompiledScript, b: &CompiledScript) -> bool {
    &&& b.name == a.name
    &&& b.id == a.id
    &&& b.trigger == a.trigger
    &&& b.lookup_key == a.lookup_key
    &&& b.param_types == a.param_types
    &&& b.instructions@.len() >= a.instructions@.len()
    &&& targets_within(b.instructions@)
}

proof fn lemma_within_mono(o: Operand, n: int, m: int)
    requires
        operand_within(o, n),
        n <= m,
    ensures
        operand_within(o, m),
{
}

/// Appends an instruction whose jump targets lie within the script so far.
fn emit(out: &mut CompiledScript, ins: Instruction)
    requires
        targets_within(old(out).instructions@),
        operand_within(ins.operand, old(out).instructions@.len() as int),
    ensures
        grown(old(out), final(out)),
        final(out).instructions@ == old(out).instructions@.push(ins),
        final(out).local_table == old(out).local_table,
{
    out.push(ins);
    proof {
        let n = out.instructions@.len() as int;
        assert forall|i: int| 0 <= i < out.instructions@.len() implies operand_within(
            #[trigger] out.instructions@[i].operand,
            n,
        ) by {
            if i < n - 1 {
                lemma_within_mono(out.instructions@[i].operand, n - 1, n);
            }
        }
    }
}

/// Points the jump at `index` to `target`, within the script.
fn patch(out: &mut CompiledScript, index: usize, target: usize)
    requires
        targets_within(old(out).instructions@),
        index < old(out).instructions@.len(),
        target <= old(out).instructions@.len(),
    ensures
        reshaped(old(out), final(out)),
        final(out).instructions@ == old(out).instructions@.update(index as int, retarget(old(out).instructions@[index as int], target as int)),
        final(out).local_table == old(out).local_table,
{
    out.patch_jump(index, target);
}

/// The instruction `ins` with its operand made a jump to `target`.
pub open spec fn retarget(ins: Instruction, target: int) -> Instruction {
    Instruction { operand: Operand::JumpTarget(target as usize), ..ins }
}

/// `ins` with the instruction at each of `positions` retargeted to `target`.
pub open spec fn patched(ins: Seq<Instruction>, positions: Seq<usize>, target: int) -> Seq<Instruction> {
    Seq::new(
        ins.len(),
        |i: int|
            if positions.contains(i as usize) {
                retarget(ins[i], target)
            } else {
                ins[i]
            },
    )
}

/// Patches every jump at the given positions to `target`.
fn patch_all(out: &mut CompiledScript, positions: &Vec<usize>, target: usize)
    requires
        targets_within(old(out).instructions@),
        forall|i: int| 0 <= i < positions@.len() ==> #[trigger] positions@[i] < old(out).instructions@.len(),
        target <= old(out).instructions@.len(),
    ensures
        reshaped(old(out), final(out)),
        final(out).instructions@ == patched(old(out).instructions@, positions@, target as int),
        final(out).local_table == old(out).local_table,
{
    let ghost start = *out;
    let mut k: usize = 0;
    while k < positions.len()
        invariant
            k <= positions@.len(),
            reshaped(&start, out),
            out.instructions@ == patched(start.instructions@, positions@.take(k as int), target as int),
            out.local_table == start.local_table,
            forall|i: int| 0 <= i < positions@.len() ==> #[trigger] positions@[i] < start.instructions@.len(),
            target <= start.instructions@.len(),
        decreases positions@.len() - k,
    {
        let ghost before = out.instructions@;
        let n_ins = out.len();
        patch(out, positions[k], target);
        proof {
            let p1 = positions@.take(k + 1);
            let p0 = positions@.take(k as int);
            assert forall|x: usize| #[trigger] p1.contains(x) == (p0.contains(x) || x == positions@[k as int]) by {
                if p1.contains(x) {
                    let j = choose|j: int| 0 <= j < p1.len() && p1[j] == x;
                    if j < k {
                        assert(p0[j] == x);
                    } else {
                        assert(j == k);
                    }
                }
                if p0.contains(x) {
                    let j = choose|j: int| 0 <= j < p0.len() && p0[j] == x;
                    assert(p1[j] == x);
                }
                if x == positions@[k as int] {
                    assert(p1[k as int] == x);
                }
            }
            let want = patched(start.instructions@, p1, target as int);
            let pk = positions@[k as int];
            assert forall|i: int| 0 <= i < want.len() implies out.instructions@[i] == want[i] by {
                assert(i < n_ins);
                assert(((i as usize) as int) == i);
                if i == pk as int {
                    assert(p1.contains(pk));
                } else {
                    assert((i as usize) != pk);
                    assert(out.instructions@[i] == before[i]);
                }
            }
            assert(out.instructions@ =~= want);
        }
        k += 1;
    }
    proof {
        assert(positions@.take(positions@.len() as int) =~= positions@);
    }
}

fn emit_line(line: usize, out: &mut CompiledScript)
    requires
        targets_within(old(out).instructions@),
    ensures
        grown(old(out), final(out)),
        final(out).instructions@ == old(out).instructions@.push(
            (Instruction { opcode: Opcode::LineNumber, operand: Operand::Int(line as i32), line: None }),
        ),
        final(out).local_table == old(out).local_table,
{
    emit(out, Instruction::new(Opcode::LineNumber, Operand::Int(line as i32)));
}

/// The name without a leading `.`, and whether there was one (a `.` addresses
/// the secondary entity).
fn strip_dot(name: &str) -> (r: (String, bool))
    ensures
        name@.len() > 0 && name@[0] == '.' ==> r.0@ == name@.skip(1) && r.1,
        !(name@.len() > 0 && name@[0] == '.') ==> r.0@ == name@ && !r.1,
{
    let v = chars_of(name);
    if v.len() > 0 && v[0] == '.' {
        let rest = string_from_range(&v, 1, v.len());
        proof {
            assert(rest@ == name@.skip(1));
        }
        (rest, true)
    } else {
        (to_owned_string(name), false)
    }
}

/// The script id of `name` for `trigger`, else as a proc, else by name, else -1.
pub open spec fn resolved_script_id(reg: SymbolRegistry, trigger: Seq<char>, name: Seq<char>) -> i32 {
    match script_id_spec(reg.trigger_script_map(), reg.fallback_trigger_ids(), trigger_key(trigger, name)) {
        Some(id) => id,
        None => match reg.proc_id_map().get(name) {
            Some(id) => id,
            None => match script_id_spec(reg.script_map(), reg.fallback_script_ids(), name) {
                Some(id) => id,
                None => -1i32,
            },
        },
    }
}

/// The script id of `name` for `trigger`, else as a proc, else by name, else -1.
fn resolve_script_id(reg: &SymbolRegistry, trigger: &str, name: &str) -> (id: i32)
    ensures
        id == resolved_script_id(*reg, trigger@, name@),
{
    match reg.script_id_for_trigger(trigger, name) {
        Some(id) => id,
        None => match reg.proc_script_id(name) {
            Some(id) => id,
            None => match reg.script_id(name) {
                Some(id) => id,
                None => -1,
            },
        },
    }
}

/// The push (or pop) opcode of a game-variable category; `varp` for any
/// other category.
pub open spec fn var_opcode(category: Seq<char>, push: bool) -> Opcode {
    if category == "varn"@ {
        if push { Opcode::PushVarn } else { Opcode::PopVarn }
    } else if category == "vars"@ {
        if push { Opcode::PushVars } else { Opcode::PopVars }
    } else if category == "varbit"@ {
        if push { Opcode::PushVarbit } else { Opcode::PopVarbit }
    } else {
        if push { Opcode::PushVarp } else { Opcode::PopVarp }
    }
}

/// The push and pop opcodes of a game-variable category.
fn game_var_opcode(category: &str, push: bool) -> (op: Opcode)
    ensures
        op == var_opcode(category@, push),
{
    if str_eq(category, "varn") {
        if push { Opcode::PushVarn } else { Opcode::PopVarn }
    } else if str_eq(category, "vars") {
        if push { Opcode::PushVars } else { Opcode::PopVars }
    } else if str_eq(category, "varbit") {
        if push { Opcode::PushVarbit } else { Opcode::PopVarbit }
    } else {
        if push { Opcode::PushVarp } else { Opcode::PopVarp }
    }
}

fn hint_at(types: &Vec<Type>, i: usize) -> (r: Option<Type>)
    ensures
        r == (if i < types@.len() { Some(types@[i as int]) } else { None }),
{
    if i < types.len() {
        Some(types[i])
    } else {
        None
    }
}

fn line_at(lines: &Vec<usize>, i: usize) -> (r: usize)
    ensures
        r == (if i < lines@.len() { lines@[i as int] } else { 0 }),
{
    if i < lines.len() {
        lines[i]
    } else {
        0
    }
}

/// The trigger of the script that the first argument of command `name` names.
pub open spec fn named_script_trigger(name: Seq<char>) -> Option<Seq<char>> {
    if name == "queue"@ || name == "queue*"@ || name == "longqueue"@ || name == "longqueue*"@ || name
        == "strongqueue"@ || name == "strongqueue*"@ || name == "weakqueue"@ || name == "weakqueue*"@
        || name == "clearqueue"@ {
        Some("queue"@)
    } else if name == "softtimer"@ || name == "softtimer*"@ {
        Some("softtimer"@)
    } else if name == "settimer"@ || name == "settimer*"@ || name == "cleartimer"@ {
        Some("timer"@)
    } else if name == "walktrigger"@ {
        Some("walktrigger"@)
    } else {
        None
    }
}

/// The trigger of the script that a command's first argument names.
fn command_script_trigger(cmd_name: &str) -> (r: Option<&'static str>)
    ensures
        match r {
            Some(t) => named_script_trigger(cmd_name@) == Some(t@),
            None => named_script_trigger(cmd_name@) is None,
        },
{
    if str_eq(cmd_name, "queue") || str_eq(cmd_name, "queue*") || str_eq(cmd_name, "longqueue")
        || str_eq(cmd_name, "longqueue*") || str_eq(cmd_name, "strongqueue") || str_eq(
        cmd_name,
        "strongqueue*",
    ) || str_eq(cmd_name, "weakqueue") || str_eq(cmd_name, "weakqueue*") || str_eq(
        cmd_name,
        "clearqueue",
    ) {
        Some("queue")
    } else if str_eq(cmd_name, "softtimer") || str_eq(cmd_name, "softtimer*") {
        Some("softtimer")
    } else if str_eq(cmd_name, "settimer") || str_eq(cmd_name, "settimer*") || str_eq(
        cmd_name,
        "cleartimer",
    ) {
        Some("timer")
    } else if str_eq(cmd_name, "walktrigger") {
        Some("walktrigger")
    } else {
        None
    }
}

/// The number of fixed arguments of command `name` when it pushes a type
/// descriptor of its remaining arguments.
pub open spec fn variadic_fixed(name: Seq<char>) -> Option<usize> {
    if name == "queue*"@ || name == "strongqueue*"@ || name == "weakqueue*"@ {
        Some(2usize)
    } else if name == "longqueue*"@ {
        Some(3usize)
    } else if name == "settimer"@ || name == "softtimer"@ {
        Some(2usize)
    } else if name == "runclientscript*"@ {
        Some(1usize)
    } else {
        None
    }
}

/// The number of fixed arguments of a command that pushes a type descriptor
/// of its remaining arguments.
fn command_variadic_info(cmd_name: &str) -> (r: Option<usize>)
    ensures
        r == variadic_fixed(cmd_name@),
{
    if str_eq(cmd_name, "queue*") || str_eq(cmd_name, "strongqueue*") || str_eq(cmd_name, "weakqueue*") {
        Some(2)
    } else if str_eq(cmd_name, "longqueue*") {
        Some(3)
    } else if str_eq(cmd_name, "settimer") || str_eq(cmd_name, "softtimer") {
        Some(2)
    } else if str_eq(cmd_name, "runclientscript*") {
        Some(1)
    } else {
        None
    }
}

/// The type character of command `name` where the symbol files leave its
/// return type out: `p`, `u`, `s` for the name commands, else `i`.
pub open spec fn known_type_char(name: Seq<char>) -> char {
    if name == "uid"@ {
        'p'
    } else if name == "npc_uid"@ {
        'u'
    } else if name == "displayname"@ || name == "name"@ || name == "npc_name"@ || name == "oc_name"@
        || name == "oc_cert"@ {
        's'
    } else {
        'i'
    }
}

/// The type character of a command whose return type the symbol files leave out.
fn known_command_type_char(name: &str) -> (c: char)
    ensures
        c == known_type_char(name@),
{
    if str_eq(name, "uid") {
        'p'
    } else if str_eq(name, "npc_uid") {
        'u'
    } else if str_eq(name, "displayname") || str_eq(name, "name") || str_eq(name, "npc_name") || str_eq(
        name,
        "oc_name",
    ) || str_eq(name, "oc_cert") {
        's'
    } else {
        'i'
    }
}

/// Whether command `name` reads type characters from its first two arguments.
pub open spec fn type_char_command(name: Seq<char>) -> bool {
    name == "enum"@ || name == "enum2"@ || name == "db_getfield"@ || name == "db_find"@ || name
        == "db_find_refine"@ || name == "db_findbyindex"@ || name == "db_find_with_count"@ || name
        == "param"@
}

/// Whether the command reads type characters from its first two arguments.
fn takes_type_chars(name: &str) -> (b: bool)
    ensures
        b == type_char_command(name@),
{
    str_eq(name, "enum") || str_eq(name, "enum2") || str_eq(name, "db_getfield") || str_eq(
        name,
        "db_find",
    ) || str_eq(name, "db_find_refine") || str_eq(name, "db_findbyindex") || str_eq(
        name,
        "db_find_with_count",
    ) || str_eq(name, "param")
}

/// `s` with every leading `.` removed.
pub open spec fn dots_trimmed(s: Seq<char>) -> Seq<char>
    decreases s.len(),
{
    if s.len() > 0 && s[0] == '.' {
        dots_trimmed(s.skip(1))
    } else {
        s
    }
}

/// The name with every leading `.` removed.
fn trim_dots(name: &str) -> (r: String)
    ensures
        r@ == dots_trimmed(name@),
{
    let v = chars_of(name);
    let mut i: usize = 0;
    proof {
        assert(v@.skip(0) =~= v@);
    }
    while i < v.len() && v[i] == '.'
        invariant
            i <= v@.len(),
            dots_trimmed(v@.skip(i as int)) == dots_trimmed(name@),
            v@ == name@,
        decreases v@.len() - i,
    {
        proof {
            assert(v@.skip(i as int).skip(1) =~= v@.skip(i + 1));
        }
        i += 1;
    }
    proof {
        assert(v@.skip(i as int) =~= v@.subrange(i as int, v@.len() as int));
    }
    string_from_range(&v, i, v.len())
}

/// A copy of the types.
fn copy_types(v: &Vec<Type>) -> (r: Vec<Type>)
    ensures
        r@ == v@,
{
    let mut r: Vec<Type> = Vec::new();
    let mut i: usize = 0;
    while i < v.len()
        invariant
            i <= v@.len(),
            r@ == v@.take(i as int),
        decreases v@.len() - i,
    {
        r.push(v[i]);
        proof {
            assert(r@ =~= v@.take(i + 1));
        }
        i += 1;
    }
    proof {
        assert(v@.take(v@.len() as int) =~= v@);
    }
    r
}

/// The parameter types registered for command `name`, or none.
pub open spec fn command_params_of(reg: SymbolRegistry, name: Seq<char>) -> Seq<Type> {
    match reg.command_params_map().get(name) {
        Some(v) => v,
        None => Seq::empty(),
    }
}

/// The parameter types of the script `name`, or none.
pub open spec fn script_params_of(reg: SymbolRegistry, name: Seq<char>) -> Seq<Type> {
    match reg.script_map().get(name) {
        Some(sv) => match sv.kind {
            KindView::Script { param_types, .. } => param_types,
            _ => Seq::empty(),
        },
        None => Seq::empty(),
    }
}

/// The type character registered for type `t`: the character of the first
/// registered type name from position `i` on that names `t`, else `i`.
pub open spec fn registered_type_char(names: Seq<Seq<char>>, chars: Map<Seq<char>, i32>, t: Type, i: int) -> char
    decreases names.len() - i,
{
    if i < 0 || i >= names.len() {
        'i'
    } else if crate::types::named_type(names[i]) == Some(t) {
        ((chars[names[i]] as u8) as char)
    } else {
        registered_type_char(names, chars, t, i + 1)
    }
}

/// The type character of `t`: `s`, `l`, or for integer types the registered
/// character of the type's name, else `i`.
pub open spec fn type_char_of(reg: SymbolRegistry, t: Type) -> char {
    match crate::types::base_of(t) {
        BaseVarType::String => 's',
        BaseVarType::Long => 'l',
        BaseVarType::Integer => registered_type_char(reg.type_char_names(), reg.type_char_map(), t, 0),
    }
}

/// The declared type of the local or parameter `name`.
pub open spec fn local_type_of(locals: SymbolTable, name: Seq<char>) -> Option<Type> {
    match scoped_lookup(locals, name) {
        Some(sym) => match sym.kind {
            SymbolKind::LocalVar { var_type, .. } => Some(var_type),
            SymbolKind::ScriptParam { param_type, .. } => Some(param_type),
            _ => None,
        },
        None => None,
    }
}

/// The type of the game variable `name`.
pub open spec fn game_var_type_of(reg: SymbolRegistry, name: Seq<char>) -> Option<Type> {
    match reg.game_var_map().get(name) {
        Some(sv) => match sv.kind {
            KindView::GameVar { var_type, .. } => Some(var_type),
            _ => None,
        },
        None => None,
    }
}

/// The first return type of the command `name`.
pub open spec fn command_return_of(reg: SymbolRegistry, name: Seq<char>) -> Option<Type> {
    match reg.command_map().get(name) {
        Some(sv) => match sv.kind {
            KindView::Command { return_types, .. } => if return_types.len() > 0 {
                Some(return_types[0])
            } else {
                None
            },
            _ => None,
        },
        None => None,
    }
}

/// The type character of `t` if there is a type, else `i`.
pub open spec fn char_or_int(reg: SymbolRegistry, t: Option<Type>) -> char {
    match t {
        Some(t) => type_char_of(reg, t),
        None => 'i',
    }
}

/// The type character of an expression for a variadic type descriptor: by
/// the declared type of a variable, the return type of a command or
/// procedure, or the type of a constant; `i` where none is known.
pub open spec fn expr_type_char(reg: SymbolRegistry, expr: Expr, locals: SymbolTable) -> char {
    match expr {
        Expr::StringLiteral(_) => 's',
        Expr::JoinedString { .. } => 's',
        Expr::LongLiteral(_) => 'l',
        Expr::LocalVar(name, _) => char_or_int(reg, local_type_of(locals, name@)),
        Expr::ArrayAccess { name, .. } => char_or_int(reg, local_type_of(locals, name@)),
        Expr::GameVar(name, _) => char_or_int(reg, game_var_type_of(reg, name@)),
        Expr::CommandCall { name, .. } => match command_return_of(reg, dots_trimmed(name@)) {
            Some(t) => type_char_of(reg, t),
            None => known_type_char(dots_trimmed(name@)),
        },
        Expr::Identifier(name) => match command_return_of(reg, dots_trimmed(name@)) {
            Some(t) => type_char_of(reg, t),
            None => known_type_char(dots_trimmed(name@)),
        },
        Expr::ProcCall { name, .. } => match reg.script_map().get(name@) {
            Some(sv) => match sv.kind {
                KindView::Script { return_types, .. } => if return_types.len() > 0 {
                    type_char_of(reg, return_types[0])
                } else {
                    'i'
                },
                _ => 'i',
            },
            None => 'i',
        },
        Expr::ConstantVar(name, _) => match reg.constant_map().get(name@) {
            Some(sv) => match sv.kind {
                KindView::Constant { const_type, .. } => type_char_of(reg, const_type),
                _ => 'i',
            },
            None => 'i',
        },
        _ => 'i',
    }
}

/// The name a `.`-prefixed game variable is looked up by.
pub open spec fn dot_stripped(name: Seq<char>) -> Seq<char> {
    if name.len() > 0 && name[0] == '.' {
        name.skip(1)
    } else {
        name
    }
}

/// The type of an assignment target: a variable's declared type.
pub open spec fn target_type_of(reg: SymbolRegistry, target: Expr, locals: SymbolTable) -> Option<Type> {
    match target {
        Expr::LocalVar(name, _) => local_type_of(locals, name@),
        Expr::ArrayAccess { name, .. } => local_type_of(locals, name@),
        Expr::GameVar(name, _) => game_var_type_of(reg, dot_stripped(name@)),
        _ => None,
    }
}

/// The type of an expression as a comparison hint: a variable's declared
/// type or a command's first return type.
pub open spec fn expr_type_of(reg: SymbolRegistry, expr: Expr, locals: SymbolTable) -> Option<Type> {
    match expr {
        Expr::CommandCall { name, .. } => command_return_of(reg, dots_trimmed(name@)),
        Expr::Identifier(name) => command_return_of(reg, dots_trimmed(name@)),
        _ => target_type_of(reg, expr, locals),
    }
}

impl Compiler {
    fn command_param_types(&self, name: &str) -> (r: Vec<Type>)
        ensures
            r@ == command_params_of(self.registry, name@),
    {
        match self.registry.command_param_types_of(name) {
            Some(v) => copy_types(v),
            None => Vec::new(),
        }
    }

    fn script_param_types(&self, name: &str) -> (r: Vec<Type>)
        ensures
            r@ == script_params_of(self.registry, name@),
    {
        match self.registry.lookup_script(name) {
            Some(sym) => match &sym.kind {
                SymbolKind::Script { param_types, .. } => copy_types(param_types),
                _ => Vec::new(),
            },
            None => Vec::new(),
        }
    }

    /// The type character of a type: `s`, `l`, or for integer types the
    /// registered character of the type's name, else `i`.
    fn type_to_type_char(&self, t: Type) -> (c: char)
        ensures
            c == type_char_of(self.registry, t),
    {
        match t.base_type() {
            BaseVarType::String => 's',
            BaseVarType::Long => 'l',
            BaseVarType::Integer => {
                let n = self.registry.type_char_count();
                let mut i: usize = 0;
                while i < n
                    invariant
                        i <= n,
                        n == self.registry.type_char_names().len(),
                        registered_type_char(self.registry.type_char_names(), self.registry.type_char_map(), t, i as int)
                            == type_char_of(self.registry, t),
                        crate::types::base_of(t) == BaseVarType::Integer,
                    decreases n - i,
                {
                    let (name, tc) = self.registry.type_char_at(i);
                    if let Some(from_type) = Type::from_name(name.as_str()) {
                        if from_type == t {
                            let b = tc as u8;
                            return b as char;
                        }
                    }
                    i += 1;
                }
                'i'
            },
        }
    }

    fn local_type(&self, name: &str, locals: &SymbolTable) -> (r: Option<Type>)
        ensures
            r == local_type_of(*locals, name@),
    {
        match locals.lookup(name) {
            Some(sym) => match &sym.kind {
                SymbolKind::LocalVar { var_type, .. } => Some(*var_type),
                SymbolKind::ScriptParam { param_type, .. } => Some(*param_type),
                _ => None,
            },
            None => None,
        }
    }

    fn game_var_type(&self, name: &str) -> (r: Option<Type>)
        ensures
            r == game_var_type_of(self.registry, name@),
    {
        match self.registry.lookup_game_var(name) {
            Some(sym) => match &sym.kind {
                SymbolKind::GameVar { var_type, .. } => Some(*var_type),
                _ => None,
            },
            None => None,
        }
    }

    fn command_first_return(&self, name: &str) -> (r: Option<Type>)
        ensures
            r == command_return_of(self.registry, name@),
    {
        match self.registry.lookup_command(name) {
            Some(sym) => match &sym.kind {
                SymbolKind::Command { return_types, .. } => if return_types.len() > 0 {
                    Some(return_types[0])
                } else {
                    None
                },
                _ => None,
            },
            None => None,
        }
    }

    /// The type character of an expression, for variadic type descriptors.
    fn infer_type_char(&self, expr: &Expr, locals: &SymbolTable) -> (c: char)
        ensures
            c == expr_type_char(self.registry, *expr, *locals),
    {
        match expr {
            Expr::StringLiteral(_) | Expr::JoinedString { .. } => 's',
            Expr::LongLiteral(_) => 'l',
            Expr::LocalVar(name, _) | Expr::ArrayAccess { name, .. } => match self.local_type(name.as_str(), locals) {
                Some(t) => self.type_to_type_char(t),
                None => 'i',
            },
            Expr::GameVar(name, _) => match self.game_var_type(name.as_str()) {
                Some(t) => self.type_to_type_char(t),
                None => 'i',
            },
            Expr::CommandCall { name, .. } | Expr::Identifier(name) => {
                let lookup = trim_dots(name.as_str());
                match self.command_first_return(lookup.as_str()) {
                    Some(t) => self.type_to_type_char(t),
                    None => known_command_type_char(lookup.as_str()),
                }
            },
            Expr::ProcCall { name, .. } => match self.registry.lookup_script(name.as_str()) {
                Some(sym) => match &sym.kind {
                    SymbolKind::Script { return_types, .. } => if return_types.len() > 0 {
                        self.type_to_type_char(return_types[0])
                    } else {
                        'i'
                    },
                    _ => 'i',
                },
                None => 'i',
            },
            Expr::ConstantVar(name, _) => match self.registry.lookup_constant(name.as_str()) {
                Some(sym) => match &sym.kind {
                    SymbolKind::Constant { const_type, .. } => self.type_to_type_char(*const_type),
                    _ => 'i',
                },
                None => 'i',
            },
            _ => 'i',
        }
    }

    /// The type of an assignment target, as a hint for the value.
    fn infer_target_type(&self, target: &Expr, locals: &SymbolTable) -> (r: Option<Type>)
        ensures
            r == target_type_of(self.registry, *target, *locals),
    {
        match target {
            Expr::LocalVar(name, _) | Expr::ArrayAccess { name, .. } => self.local_type(name.as_str(), locals),
            Expr::GameVar(name, _) => {
                let (lookup, _) = strip_dot(name.as_str());
                self.game_var_type(lookup.as_str())
            },
            _ => None,
        }
    }

    /// The type of an expression, as a hint for what it is compared with.
    fn infer_type(&self, expr: &Expr, locals: &SymbolTable) -> (r: Option<Type>)
        ensures
            r == expr_type_of(self.registry, *expr, *locals),
    {
        match expr {
            Expr::LocalVar(name, _) | Expr::ArrayAccess { name, .. } => self.local_type(name.as_str(), locals),
            Expr::GameVar(name, _) => {
                let (lookup, _) = strip_dot(name.as_str());
                self.game_var_type(lookup.as_str())
            },
            Expr::CommandCall { name, .. } | Expr::Identifier(name) => {
                let lookup = trim_dots(name.as_str());
                self.command_first_return(lookup.as_str())
            },
            _ => None,
        }
    }

    /// The type-descriptor string of the variadic arguments `args[fixed..]`.
    fn type_descriptor(&self, args: &Vec<Expr>, fixed: usize, locals: &SymbolTable) -> (r: String)
        ensures
            r@ == (if fixed < args@.len() {
                Seq::new((args@.len() - fixed) as nat, |k: int| expr_type_char(self.registry, args@[fixed + k], *locals))
            } else {
                Seq::<char>::empty()
            }),
    {
        let mut desc: Vec<char> = Vec::new();
        let mut i = fixed;
        while i < args.len()
            invariant
                fixed <= i,
                i <= args@.len() || i == fixed,
                desc@ == Seq::new((i - fixed) as nat, |k: int| expr_type_char(self.registry, args@[fixed + k], *locals)),
            decreases args@.len() - i,
        {
            let ghost before = desc@;
            let c = self.infer_type_char(&args[i], locals);
            desc.push(c);
            proof {
                let want = Seq::new((i + 1 - fixed) as nat, |k: int| expr_type_char(self.registry, args@[fixed + k], *locals));
                assert forall|k: int| 0 <= k < want.len() implies desc@[k] == want[k] by {
                    if k < before.len() {
                        assert(desc@[k] == before[k]);
                    } else {
                        assert(fixed + k == i);
                    }
                }
                assert(desc@ =~= want);
            }
            i += 1;
        }
        proof {
            if fixed >= args@.len() {
                assert(desc@ =~= Seq::<char>::empty());
            }
        }
        string_from_chars(&desc)
    }
}

/// The instruction that pushes integer `n`.
pub open spec fn push_int_ins(n: i32) -> Instruction {
    Instruction { opcode: Opcode::PushConstantInt, operand: Operand::Int(n), line: None }
}

/// The code that pushes one of two values by a comparison, placed at `at`:
/// a conditional branch to the branch value, the fall-through value, a jump
/// over the branch value, and the branch value.
pub open spec fn comparison_value_code(branch_opcode: Opcode, fallthrough_value: i32, branch_value: i32, at: int) -> Seq<Instruction> {
    seq![
        Instruction { opcode: branch_opcode, operand: Operand::JumpTarget((at + 3) as usize), line: None },
        push_int_ins(fallthrough_value),
        Instruction { opcode: Opcode::Branch, operand: Operand::JumpTarget((at + 4) as usize), line: None },
        push_int_ins(branch_value),
    ]
}

/// The code of a reference to command `lookup`: the registered command, or
/// for a `name*` reference to an unknown command with `try_vararg`, its
/// `namevararg` form.
pub open spec fn command_symbol(reg: SymbolRegistry, lookup: Seq<char>, try_vararg: bool) -> Option<SymbolView> {
    let vararg = lookup.drop_last() + "vararg"@;
    if !reg.command_map().contains_key(lookup) && try_vararg && lookup.len() > 0 && lookup.last() == '*'
        && reg.command_map().contains_key(vararg) {
        Some(reg.command_map()[vararg])
    } else {
        reg.command_map().get(lookup)
    }
}

/// The command instruction for `opcode`, with the secondary flag in bit 16.
pub open spec fn command_ins(opcode: i32, secondary: bool) -> Instruction {
    Instruction {
        opcode: Opcode::Command,
        operand: Operand::Int(opcode | (if secondary { 1i32 << 16u32 } else { 0i32 })),
        line: None,
    }
}

/// The instructions that discard values of types `types`.
pub open spec fn discard_code(types: Seq<Type>) -> Seq<Instruction> {
    Seq::new(
        types.len(),
        |i: int|
            Instruction {
                opcode: match crate::types::base_of(types[i]) {
                    BaseVarType::Integer => Opcode::PopIntDiscard,
                    BaseVarType::String => Opcode::PopStringDiscard,
                    BaseVarType::Long => Opcode::PopLongDiscard,
                },
                operand: Operand::NoValue,
                line: None,
            },
    )
}

/// The return types of the script or command that a call expression calls;
/// none for anything else or an unknown callee.
pub open spec fn call_result_types(reg: SymbolRegistry, expr: Expr) -> Seq<Type> {
    let sym = match expr {
        Expr::ProcCall { name, .. } => reg.script_map().get(name@),
        Expr::JumpCall { name, .. } => reg.script_map().get(name@),
        Expr::CommandCall { name, .. } => reg.command_map().get(dot_stripped(name@)),
        _ => None,
    };
    match sym {
        Some(sv) => match sv.kind {
            KindView::Script { return_types, .. } => return_types,
            KindView::Command { return_types, .. } => return_types,
            _ => Seq::empty(),
        },
        None => Seq::empty(),
    }
}

/// Whether argument `a` at position `i` of a call is pushed before the
/// statement's line: a string constant, or `null` for a string parameter.
pub open spec fn pre_stmt_arg(reg: SymbolRegistry, params: Seq<Type>, a: Expr, i: int) -> bool {
    match a {
        Expr::ConstantVar(c, _) => match reg.constant_map().get(c@) {
            Some(sv) => match sv.kind {
                KindView::Constant { string_value, .. } => string_value is Some,
                _ => false,
            },
            None => false,
        },
        Expr::NullLiteral => 0 <= i < params.len() && crate::types::base_of(params[i]) == BaseVarType::String,
        _ => false,
    }
}

/// The integer value of the constant `name`.
pub open spec fn constant_int(reg: SymbolRegistry, name: Seq<char>) -> Option<i32> {
    match reg.constant_map().get(name) {
        Some(sv) => match sv.kind {
            KindView::Constant { int_value, .. } => int_value,
            _ => None,
        },
        None => None,
    }
}

/// The packed id of the component that `iface:comp` names.
pub open spec fn named_component(reg: SymbolRegistry, name: Seq<char>) -> Option<i32> {
    match index_of_char(name, ':') {
        Some(k) => reg.component_map().get(
            trigger_key(name.subrange(0, k), comp_name_form(name.subrange(k + 1, name.len() as int))),
        ),
        None => None,
    }
}

/// The untyped entity id registered under the normalized `name`.
pub open spec fn primary_entity_id(reg: SymbolRegistry, name: Seq<char>) -> Option<i32> {
    match reg.entity_map().get(name) {
        Some(e) => match e.primary {
            Some(r) => Some(r.id),
            None => None,
        },
        None => None,
    }
}

/// The entity id of `name` typed by the hint, if there is one.
pub open spec fn hinted_entity(reg: SymbolRegistry, name: Seq<char>, hint: Option<Type>) -> Option<i32> {
    match hint {
        Some(h) => typed_entity(reg.entity_map(), normalized_name(name), h),
        None => None,
    }
}

/// The integer a case label stands for: a literal, an integer constant, a
/// component, an entity (by the hint's type first, else by exact name), or
/// an `a + b` entity name; none where nothing matches.
pub open spec fn case_value(reg: SymbolRegistry, e: Expr, hint: Option<Type>) -> Option<i32> {
    match e {
        Expr::IntLiteral(n) => Some(n),
        Expr::CoordLiteral(v) => Some(v),
        Expr::ConstantVar(c, _) => constant_int(reg, c@),
        Expr::Identifier(id) => match named_component(reg, id@) {
            Some(p) => Some(p),
            None => match hinted_entity(reg, id@, hint) {
                Some(x) => Some(x),
                None => if reg.entity_map().contains_key(id@) {
                    primary_entity_id(reg, id@)
                } else {
                    constant_int(reg, id@)
                },
            },
        },
        Expr::BinaryOp { op: BinOp::Add, lhs, rhs } => match (*lhs, *rhs) {
            (Expr::Identifier(l), Expr::Identifier(r)) => {
                let c = l@.push('+') + r@;
                match hint {
                    Some(h) => typed_entity(reg.entity_map(), normalized_name(c), h),
                    None => primary_entity_id(reg, normalized_name(c)),
                }
            },
            _ => None,
        },
        _ => None,
    }
}

/// The values of the case labels, in order, leaving out those that stand
/// for nothing.
pub open spec fn case_value_list(reg: SymbolRegistry, values: Seq<Expr>, hint: Option<Type>) -> Seq<i32>
    decreases values.len(),
{
    if values.len() == 0 {
        Seq::empty()
    } else {
        let rest = case_value_list(reg, values.drop_last(), hint);
        match case_value(reg, values.last(), hint) {
            Some(v) => rest.push(v),
            None => rest,
        }
    }
}

/// What a plain identifier compiles to.
pub enum IdentCode {
    /// A pushed integer.
    Int(i32),
    /// A pushed string constant.
    Text(Seq<char>),
    /// A command: the name it is looked up by and whether it addresses the
    /// secondary entity.
    Command(Seq<char>, bool),
    /// A game-variable push: its opcode and id.
    Var(Opcode, i32),
    /// Nothing: a constant with neither an integer nor a string value.
    Nothing,
}

/// The trigger of the scripts that a script-typed hint refers to.
pub open spec fn hint_trigger(t: Type) -> Option<Seq<char>> {
    match t {
        Type::Proc => Some("proc"@),
        Type::Label => Some("label"@),
        Type::Queue => Some("queue"@),
        Type::SoftTimer => Some("softtimer"@),
        Type::Timer => Some("timer"@),
        Type::Walktrigger => Some("walktrigger"@),
        _ => None,
    }
}

/// The untyped entity id an identifier is pushed as, unless it names a
/// parameter type (and the hint is not a parameter).
pub open spec fn pushed_entity(reg: SymbolRegistry, name: Seq<char>, hint: Option<Type>) -> Option<i32> {
    match reg.entity_map().get(normalized_name(name)) {
        Some(e) => match e.primary {
            Some(r) => if r.const_type == Type::Param && hint != Some(Type::Param)
                && reg.type_char_map().contains_key(name) {
                None
            } else {
                Some(r.id)
            },
            None => None,
        },
        None => None,
    }
}

/// The id an identifier gets from its hint: a script of a script-typed
/// hint, else an entity of the hint's type.
pub open spec fn hinted_id(reg: SymbolRegistry, name: Seq<char>, hint: Option<Type>) -> Option<i32> {
    match hint {
        Some(h) => match hint_trigger(h) {
            Some(t) => Some(resolved_script_id(reg, t, name)),
            None => typed_entity(reg.entity_map(), normalized_name(name), h),
        },
        None => None,
    }
}

/// What identifier `name` compiles to, by the first that applies: a
/// component, a script for a script-typed hint, an entity of the hint's type,
/// an untyped entity, a constant, a command, a game variable, a type
/// character, a proc or script id, else -1.
pub open spec fn identifier_code(reg: SymbolRegistry, name: Seq<char>, hint: Option<Type>) -> IdentCode {
    if named_component(reg, name) is Some {
        IdentCode::Int(named_component(reg, name)->0)
    } else if hinted_id(reg, name, hint) is Some {
        IdentCode::Int(hinted_id(reg, name, hint)->0)
    } else if pushed_entity(reg, name, hint) is Some {
        IdentCode::Int(pushed_entity(reg, name, hint)->0)
    } else if reg.constant_map().contains_key(name) {
        match reg.constant_map()[name].kind {
            KindView::Constant { int_value, string_value, .. } => match int_value {
                Some(iv) => IdentCode::Int(iv),
                None => match string_value {
                    Some(t) => IdentCode::Text(t),
                    None => IdentCode::Nothing,
                },
            },
            _ => IdentCode::Nothing,
        }
    } else if reg.command_map().contains_key(dot_stripped(name)) {
        IdentCode::Command(dot_stripped(name), name.len() > 0 && name[0] == '.')
    } else if reg.game_var_map().contains_key(name) && reg.game_var_map()[name].kind is GameVar {
        IdentCode::Var(
            var_opcode(reg.game_var_map()[name].kind->GameVar_category, true),
            reg.game_var_map()[name].kind->GameVar_var_id,
        )
    } else if reg.type_char_map().contains_key(name) {
        IdentCode::Int(reg.type_char_map()[name])
    } else if reg.proc_id_map().contains_key(name) {
        IdentCode::Int(reg.proc_id_map()[name])
    } else {
        match script_id_spec(reg.script_map(), reg.fallback_script_ids(), name) {
            Some(id) => IdentCode::Int(id),
            None => IdentCode::Int(-1i32),
        }
    }
}

/// The code of the known command `lookup`.
pub open spec fn known_command_code(reg: SymbolRegistry, lookup: Seq<char>, secondary: bool) -> Seq<Instruction> {
    match reg.command_map()[lookup].kind {
        KindView::Command { opcode, .. } => seq![command_ins(opcode, secondary)],
        _ => Seq::<Instruction>::empty(),
    }
}

/// The store into the local or parameter `name`: a pop into its slot by its
/// base type; nothing when it is not declared.
pub open spec fn local_store(locals: SymbolTable, name: Seq<char>) -> Seq<Instruction> {
    match scoped_lookup(locals, name) {
        Some(sym) => {
            let (slot, base) = match sym.kind {
                SymbolKind::LocalVar { var_type, slot, .. } => (slot, crate::types::base_of(var_type)),
                SymbolKind::ScriptParam { param_type, slot } => (slot, crate::types::base_of(param_type)),
                _ => (0i32, BaseVarType::Integer),
            };
            seq![
                Instruction {
                    opcode: match base {
                        BaseVarType::Integer => Opcode::PopIntLocal,
                        BaseVarType::String => Opcode::PopStringLocal,
                        BaseVarType::Long => Opcode::PopLongLocal,
                    },
                    operand: Operand::Int(slot),
                    line: None,
                },
            ]
        },
        None => Seq::empty(),
    }
}

/// The store into game variable `name`: its pop opcode and id, with the
/// secondary flag in bit 16 for a `.` name; nothing when it is unknown.
pub open spec fn var_store(reg: SymbolRegistry, name: Seq<char>) -> Seq<Instruction> {
    let secondary = name.len() > 0 && name[0] == '.';
    match reg.game_var_map().get(dot_stripped(name)) {
        Some(sv) => match sv.kind {
            KindView::GameVar { var_id, category, .. } => seq![
                Instruction {
                    opcode: var_opcode(category, false),
                    operand: Operand::Int(if secondary { (1i32 << 16u32) | var_id } else { var_id }),
                    line: None,
                },
            ],
            _ => Seq::empty(),
        },
        None => Seq::empty(),
    }
}

/// The slot of the local array `name`.
pub open spec fn array_slot(locals: SymbolTable, name: Seq<char>) -> i32 {
    match scoped_lookup(locals, name) {
        Some(sym) => match sym.kind {
            SymbolKind::LocalVar { slot, .. } => slot,
            _ => 0i32,
        },
        None => 0i32,
    }
}

/// The conditional branch a comparison operator compiles to.
pub open spec fn comparison_branch(op: BinOp) -> Opcode {
    match op {
        BinOp::Eq => Opcode::BranchEquals,
        BinOp::NotEq => Opcode::BranchNot,
        BinOp::Lt => Opcode::BranchLessThan,
        BinOp::Gt => Opcode::BranchGreaterThan,
        BinOp::LtEq => Opcode::BranchLessThanOrEquals,
        BinOp::GtEq => Opcode::BranchGreaterThanOrEquals,
        _ => Opcode::BranchNot,
    }
}

/// Whether the engine takes conditional branch `op` on operands `a` (pushed
/// first) and `b`; none for an instruction that is not such a branch.
pub open spec fn branch_taken(op: Opcode, a: int, b: int) -> Option<bool> {
    match op {
        Opcode::BranchEquals => Some(a == b),
        Opcode::BranchNot => Some(a != b),
        Opcode::BranchLessThan => Some(a < b),
        Opcode::BranchGreaterThan => Some(a > b),
        Opcode::BranchLessThanOrEquals => Some(a <= b),
        Opcode::BranchGreaterThanOrEquals => Some(a >= b),
        _ => None,
    }
}

/// Whether comparison `op` holds of `a` and `b`; none for an operator that
/// is not a comparison.
pub open spec fn comparison_holds(op: BinOp, a: int, b: int) -> Option<bool> {
    match op {
        BinOp::Eq => Some(a == b),
        BinOp::NotEq => Some(a != b),
        BinOp::Lt => Some(a < b),
        BinOp::Gt => Some(a > b),
        BinOp::LtEq => Some(a <= b),
        BinOp::GtEq => Some(a >= b),
        _ => None,
    }
}

/// A comparison used as a condition compiles to a conditional branch that
/// the engine takes exactly when the comparison holds of its operands.
pub proof fn lemma_condition_branch_semantics(op: BinOp, a: int, b: int)
    requires
        comparison_holds(op, a, b) is Some,
    ensures
        branch_taken(comparison_branch(op), a, b) == comparison_holds(op, a, b),
{
}

/// In the code of an `if` link whose condition is a comparison, the
/// condition ends in a branch to the then-part that the engine takes
/// exactly when the comparison holds, followed by a jump past the then-part.
pub proof fn lemma_if_enters_then_part_exactly_when_condition_holds(
    reg: SymbolRegistry,
    rets: Seq<Type>,
    stmt: Statement,
    k: int,
    ins: Seq<Instruction>,
    start: int,
    a: int,
    b: int,
)
    requires
        if_code(reg, rets, stmt, k, ins, start),
        if_link_condition(stmt, k) is BinaryOp,
        comparison_holds(if_link_condition(stmt, k)->BinaryOp_op, a, b) is Some,
    ensures
        exists|c: int, e: int|
            #[trigger] if_parts(c, e) && start + 2 <= c < e && ins[c - 2].operand == Operand::JumpTarget(c as usize)
                && branch_taken(ins[c - 2].opcode, a, b) == comparison_holds(if_link_condition(stmt, k)->BinaryOp_op, a, b)
                && ins[c - 1] == jump_to(Opcode::Branch, e) && if_then_code(reg, rets, stmt, k, ins, c, e - 1),
{
    let cond = if_link_condition(stmt, k);
    let (c, e) = choose|c: int, e: int|
        #[trigger] if_parts(c, e) && start < c < e <= ins.len() && ins[e - 1] == jump_to(Opcode::Branch, ins.len() as int)
            && if_then_code(reg, rets, stmt, k, ins, c, e - 1) && (!(cond is LogicalOp) ==> start + 2 <= c && ins[c - 2]
            == jump_to(condition_branch(cond), c) && ins[c - 1] == jump_to(Opcode::Branch, e));
    lemma_condition_branch_semantics(cond->BinaryOp_op, a, b);
    assert(if_parts(c, e));
}

/// A comparison used as a value compiles to code that pushes `1` when the
/// comparison holds of its operands and `0` when it does not: the engine
/// takes its first branch to the push of `1` exactly when it holds, and
/// otherwise falls through to the push of `0`.
pub proof fn lemma_comparison_value_semantics(op: BinOp, a: int, b: int, at: int)
    requires
        comparison_holds(op, a, b) is Some,
    ensures
        binary_op_code(op, at).len() == 4,
        binary_op_code(op, at)[0].operand == Operand::JumpTarget((at + 3) as usize),
        binary_op_code(op, at)[2] == (Instruction { opcode: Opcode::Branch, operand: Operand::JumpTarget((at + 4) as usize), line: None }),
        branch_taken(binary_op_code(op, at)[0].opcode, a, b) is Some,
        (if branch_taken(binary_op_code(op, at)[0].opcode, a, b)->0 {
            binary_op_code(op, at)[3]
        } else {
            binary_op_code(op, at)[1]
        }) == push_int_ins(if comparison_holds(op, a, b)->0 { 1 } else { 0 }),
{
}

/// A branch with opcode `op` whose target is still to be patched.
pub open spec fn pending_branch(op: Opcode) -> Instruction {
    Instruction { opcode: op, operand: Operand::JumpTarget(0), line: None }
}

/// Whether `new` is `old` with one string push of text `t` appended.
pub open spec fn pushed_text(old: Seq<Instruction>, new: Seq<Instruction>, t: Seq<char>) -> bool {
    &&& new.len() == old.len() + 1
    &&& new.drop_last() == old
    &&& new.last().opcode == Opcode::PushConstantString
    &&& new.last().line is None
    &&& new.last().operand matches Operand::Str(x) && x@ == t
}

/// Whether `new` is `old` with the code of `code` appended, the code of an
/// identifier.
pub open spec fn ident_emitted(reg: SymbolRegistry, code: IdentCode, old: Seq<Instruction>, new: Seq<Instruction>) -> bool {
    match code {
        IdentCode::Int(v) => new == old.push(push_int_ins(v)),
        IdentCode::Text(t) => pushed_text(old, new, t),
        IdentCode::Command(l, sec) => new == old + known_command_code(reg, l, sec),
        IdentCode::Var(op, id) => new == old.push((Instruction { opcode: op, operand: Operand::Int(id), line: None })),
        IdentCode::Nothing => new == old,
    }
}

/// What a string literal compiles to under an entity-typed hint: the entity
/// of the hint's type, else the untyped entity, else the text itself.
pub open spec fn string_literal_code(reg: SymbolRegistry, s: Seq<char>, hint: Option<Type>) -> IdentCode {
    match hint {
        Some(h) => if crate::types::base_of(h) == BaseVarType::Integer && h != Type::Int && h != Type::Boolean {
            match typed_entity(reg.entity_map(), normalized_name(s), h) {
                Some(id) => IdentCode::Int(id),
                None => match primary_entity_id(reg, normalized_name(s)) {
                    Some(id) => IdentCode::Int(id),
                    None => IdentCode::Text(s),
                },
            }
        } else {
            IdentCode::Text(s)
        },
        None => IdentCode::Text(s),
    }
}

/// The load of the local or parameter `name`: a push from its slot by its
/// base type; a push of 0 when it is not declared.
pub open spec fn local_load(locals: SymbolTable, name: Seq<char>) -> Instruction {
    match scoped_lookup(locals, name) {
        Some(sym) => {
            let (slot, base) = match sym.kind {
                SymbolKind::LocalVar { var_type, slot, .. } => (slot, crate::types::base_of(var_type)),
                SymbolKind::ScriptParam { param_type, slot } => (slot, crate::types::base_of(param_type)),
                _ => (0i32, BaseVarType::Integer),
            };
            Instruction {
                opcode: match base {
                    BaseVarType::Integer => Opcode::PushIntLocal,
                    BaseVarType::String => Opcode::PushStringLocal,
                    BaseVarType::Long => Opcode::PushLongLocal,
                },
                operand: Operand::Int(slot),
                line: None,
            }
        },
        None => push_int_ins(0),
    }
}

/// The load of game variable `name`: its push opcode and id, with the
/// secondary flag in bit 16 for a `.` name; nothing when it is unknown.
pub open spec fn var_load(reg: SymbolRegistry, name: Seq<char>) -> Seq<Instruction> {
    let secondary = name.len() > 0 && name[0] == '.';
    match reg.game_var_map().get(dot_stripped(name)) {
        Some(sv) => match sv.kind {
            KindView::GameVar { var_id, category, .. } => seq![
                Instruction {
                    opcode: var_opcode(category, true),
                    operand: Operand::Int(if secondary { (1i32 << 16u32) | var_id } else { var_id }),
                    line: None,
                },
            ],
            _ => Seq::empty(),
        },
        None => Seq::empty(),
    }
}

/// Whether `new` is `old` with the code of the leaf expression `e` appended
/// (a literal, a variable, a constant or an identifier); the other forms
/// are described by [`expr_emitted`], which leaves only the leaves to this
/// function.
pub open spec fn leaf_emitted(
    reg: SymbolRegistry,
    e: Expr,
    locals: SymbolTable,
    hint: Option<Type>,
    old: Seq<Instruction>,
    new: Seq<Instruction>,
) -> bool {
    match e {
        Expr::IntLiteral(n) => new == old.push(push_int_ins(n)),
        Expr::CoordLiteral(n) => new == old.push(push_int_ins(n)),
        Expr::BoolLiteral(b) => new == old.push(push_int_ins(if b { 1 } else { 0 })),
        Expr::CharLiteral(c) => new == old.push(push_int_ins(c as i32)),
        Expr::LongLiteral(n) => new == old.push(
            (Instruction { opcode: Opcode::PushConstantLong, operand: Operand::Long(n), line: None }),
        ),
        Expr::NullLiteral => if hint == Some(Type::String) {
            pushed_text(old, new, "null"@)
        } else {
            new == old.push(push_int_ins(-1i32))
        },
        Expr::StringLiteral(s) => ident_emitted(reg, string_literal_code(reg, s@, hint), old, new),
        Expr::LocalVar(name, _) => new == old.push(local_load(locals, name@)),
        Expr::GameVar(name, _) => new == old + var_load(reg, name@),
        Expr::ConstantVar(name, line) => match reg.constant_map().get(name@) {
            Some(sv) => match sv.kind {
                KindView::Constant { int_value, string_value, .. } => match int_value {
                    Some(v) => new == old.push(push_int_ins(v)),
                    None => match string_value {
                        Some(t) => if line > 0 {
                            pushed_text(
                                old.push(
                                    (Instruction {
                                        opcode: Opcode::LineNumber,
                                        operand: Operand::Int((line - 1) as i32),
                                        line: None,
                                    }),
                                ),
                                new,
                                t,
                            )
                        } else {
                            pushed_text(old, new, t)
                        },
                        None => new == old,
                    },
                },
                _ => new == old,
            },
            None => new == old,
        },
        Expr::Identifier(name) => ident_emitted(reg, identifier_code(reg, name@, hint), old, new),
        _ => true,
    }
}

/// The instruction that pushes the default value of type `t` is `ins`: the
/// type's default integer, an empty string or a zero long.
pub open spec fn default_push(ins: Instruction, t: Type) -> bool {
    &&& ins.line is None
    &&& match crate::types::base_of(t) {
        BaseVarType::Integer => ins == push_int_ins(crate::types::default_int_of(t)),
        BaseVarType::String => ins.opcode == Opcode::PushConstantString && (ins.operand matches Operand::Str(
            x,
        ) && x@.len() == 0),
        BaseVarType::Long => ins.opcode == Opcode::PushConstantLong && ins.operand == Operand::Long(0),
    }
}

/// The id a script is compiled with: its id for its trigger, else its id by
/// name, else -1.
pub open spec fn compiled_script_id(reg: SymbolRegistry, trigger: Seq<char>, name: Seq<char>) -> i32 {
    match script_id_spec(reg.trigger_script_map(), reg.fallback_trigger_ids(), trigger_key(trigger, name)) {
        Some(id) => id,
        None => match script_id_spec(reg.script_map(), reg.fallback_script_ids(), name) {
            Some(id) => id,
            None => -1i32,
        },
    }
}

/// The line marker instruction for `line`.
pub open spec fn line_ins(line: usize) -> Instruction {
    Instruction { opcode: Opcode::LineNumber, operand: Operand::Int(line as i32), line: None }
}

/// The pop into a local of base type `b`.
pub open spec fn local_pop_opcode(b: BaseVarType) -> Opcode {
    match b {
        BaseVarType::Integer => Opcode::PopIntLocal,
        BaseVarType::String => Opcode::PopStringLocal,
        BaseVarType::Long => Opcode::PopLongLocal,
    }
}

/// The type character of an array's element base type.
pub open spec fn array_type_char(b: BaseVarType) -> u8 {
    match b {
        BaseVarType::Integer => 105u8,
        BaseVarType::String => 115u8,
        BaseVarType::Long => 108u8,
    }
}

/// Whether local table `t2` is `t1` with one local `name` of type `t`
/// declared (an array when `array`).
pub open spec fn declared_local(
    t1: Seq<crate::symbol::LocalEntry>,
    t2: Seq<crate::symbol::LocalEntry>,
    name: Seq<char>,
    t: Type,
    array: bool,
) -> bool {
    &&& t2.len() == t1.len() + 1
    &&& t2.drop_last() == t1
    &&& t2.last().name@ == name
    &&& t2.last().var_type == t
    &&& !t2.last().is_param
    &&& t2.last().is_array == array
}

/// The shape of the code of statement `s` appended to `ins1` (giving
/// `ins2`, with local tables `lt1` and `lt2`, in scope `locals`): a
/// declaration records its local and ends storing into it (or defining the
/// array); the other statements but expressions start with their line
/// marker; an assignment is then the value's code (hinted by the target's
/// type) and the store into its target; an `if` is then laid out by
/// [`if_code`], a `while` by [`while_code`] and a `switch` by
/// [`switch_code`]; a return ends with `Return`;
/// an expression statement ends discarding its unused results; an orphan
/// case or empty statement emits nothing.
pub open spec fn statement_shape(
    reg: SymbolRegistry,
    rets: Seq<Type>,
    locals: SymbolTable,
    s: Statement,
    ins1: Seq<Instruction>,
    ins2: Seq<Instruction>,
    lt1: Seq<crate::symbol::LocalEntry>,
    lt2: Seq<crate::symbol::LocalEntry>,
) -> bool
    decreases s, 3nat,
{
    let n = ins1.len() as int;
    match s {
        Statement::VarDeclaration { var_type, name, value, line } => {
            let slot = crate::symbol::count_slots(lt1, crate::types::base_of(var_type), false) as i32;
            &&& declared_local(lt1, lt2, name@, var_type, false)
            &&& ins2.len() > n
            &&& ins2.last() == (Instruction {
                opcode: local_pop_opcode(crate::types::base_of(var_type)),
                operand: Operand::Int(slot),
                line: None,
            })
            &&& value is None ==> ins2.len() == n + 3 && ins2[n + 1] == line_ins(line)
            &&& value matches Some(init) ==> exists|sc: SymbolTable, m: Seq<Instruction>|
                #[trigger] decl_split(sc, m) && sc.scope()@ == locals.scope()@.insert(
                    name@,
                    Symbol { name, kind: SymbolKind::LocalVar { var_type, slot, is_array: false } },
                ) && sc.parent_scope() == locals.parent_scope() && expr_emitted(
                    reg,
                    sc,
                    init,
                    Some(var_type),
                    ins1.push(line_ins(line)),
                    m,
                ) && ins2 == m.push(line_ins(line)).push(ins2.last())
        },
        Statement::ArrayDeclaration { element_type, name, line, .. } => {
            &&& declared_local(lt1, lt2, name@, element_type, true)
            &&& ins2.len() > n + 1
            &&& ins2[n] == line_ins(line)
            &&& ins2.last() == (Instruction {
                opcode: Opcode::DefineArray,
                operand: Operand::ArrayDef(
                    crate::symbol::count_slots(lt1, crate::types::base_of(element_type), true) as i32,
                    array_type_char(crate::types::base_of(element_type)),
                ),
                line: None,
            })
        },
        Statement::Assignment { line, target, value } => {
            &&& ins2.len() > n
            &&& ins2[n] == line_ins(line)
            &&& exists|m: Seq<Instruction>|
                #[trigger] code_split(m, ins2) && expr_emitted(
                    reg,
                    locals,
                    value,
                    target_type_of(reg, target, locals),
                    ins1.push(line_ins(line)),
                    m,
                ) && store_emitted(reg, locals, target, m, ins2)
        },
        Statement::If { line, .. } => ins2.len() > n && ins2[n] == line_ins(line) && if_code(reg, rets, s, 0, ins2, n + 1),
        Statement::While { line, condition, body } => ins2.len() > n && ins2[n] == line_ins(line) && while_code(
            reg,
            rets,
            condition,
            body@,
            ins2,
            n + 1,
        ),
        Statement::Switch { line, .. } => ins2.len() > n && ins2[n] == line_ins(line) && switch_code(
            reg,
            rets,
            locals,
            s,
            ins2,
            n + 1,
        ),
        Statement::Return { line, values } => {
            &&& ins2.len() > n + 1
            &&& ins2[n] == line_ins(line)
            &&& ins2.last() == (Instruction { opcode: Opcode::Return, operand: Operand::NoValue, line: None })
            &&& values_code(reg, locals, values@, rets, ins1.push(line_ins(line)), ins2.drop_last())
        },
        Statement::Expression { expr, line } => {
            let d = discard_code(call_result_types(reg, expr));
            &&& ins2.len() >= n + d.len()
            &&& ins2.subrange(ins2.len() - d.len(), ins2.len() as int) == d
            &&& !(expr is CommandCall) ==> exists|m: Seq<Instruction>|
                #[trigger] code_split(m, ins2) && expr_emitted(reg, locals, expr, None, ins1.push(line_ins(line)), m)
                    && ins2 == m + d
        },
        _ => ins2 == ins1,
    }
}

/// A jump with opcode `op` to `target`.
pub open spec fn jump_to(op: Opcode, target: int) -> Instruction {
    Instruction { opcode: op, operand: Operand::JumpTarget(target as usize), line: None }
}

/// The opcode with which the code of a non-logical condition jumps when it
/// holds: the comparison's branch, or `branch_not` against `0` for a value.
pub open spec fn condition_branch(cond: Expr) -> Opcode {
    match cond {
        Expr::BinaryOp { op, .. } => comparison_branch(op),
        _ => Opcode::BranchNot,
    }
}

/// Marks where the condition's code of an `if` ends (`c`) and where its
/// then-part ends (`e`).
pub open spec fn if_parts(c: int, e: int) -> bool {
    c <= e
}

/// Whether `ins`, from `start` to its end, is the code of a `while` loop
/// with condition `cond` and statements `body`: the condition's code, the
/// statements' code, and a jump back to `start`, where the condition's code
/// begins. For a condition that is not `&&`/`||`, the condition's code ends
/// in its conditional jump to the body, which follows right after it, and a
/// jump to the end.
pub open spec fn while_code(
    reg: SymbolRegistry,
    rets: Seq<Type>,
    cond: Expr,
    body: Seq<Statement>,
    ins: Seq<Instruction>,
    start: int,
) -> bool
    decreases body, 2nat,
{
    let end = ins.len() as int;
    &&& end > start
    &&& ins.last() == jump_to(Opcode::Branch, start)
    &&& exists|c: int|
        #[trigger] if_parts(c, end) && start < c < end && part_code(reg, rets, body, ins, c, end - 1) && (!(
        cond is LogicalOp) ==> start + 2 <= c && ins[c - 2] == jump_to(condition_branch(cond), c) && ins[c - 1]
            == jump_to(Opcode::Branch, end))
}

/// Whether `new` is `old` with the store into assignment target `target`
/// appended: a local's or game variable's pop, an array element's pop where
/// the array is declared; several targets are left open here.
pub open spec fn store_emitted(
    reg: SymbolRegistry,
    locals: SymbolTable,
    target: Expr,
    old: Seq<Instruction>,
    new: Seq<Instruction>,
) -> bool {
    match target {
        Expr::LocalVar(name, _) => new == old + local_store(locals, name@),
        Expr::GameVar(name, _) => new == old + var_store(reg, name@),
        Expr::ArrayAccess { name, .. } => scoped_lookup(locals, name@) is Some ==> new.last() == (Instruction {
            opcode: Opcode::PopArrayInt,
            operand: Operand::Int(array_slot(locals, name@)),
            line: None,
        }),
        Expr::MultiAssign(..) => true,
        _ => new == old,
    }
}

/// Whether `ins`, from `start` to its end, is the code of switch statement
/// `s`: the scrutinee's code, then a `switch` at some `k` whose case table
/// maps each case key to the start of its case's code, laid out as
/// [`switch_layout`] says.
pub open spec fn switch_code(
    reg: SymbolRegistry,
    rets: Seq<Type>,
    locals: SymbolTable,
    s: Statement,
    ins: Seq<Instruction>,
    start: int,
) -> bool
    decreases s, 2nat,
{
    match s {
        Statement::Switch { switch_type, expr, cases, default, default_index, .. } => exists|
            k: int,
            starts: Seq<int>,
            ends: Seq<int>,
        |
            start <= k < ins.len() && #[trigger] switch_layout(
                ins,
                k,
                cases@.len() as int,
                default is Some,
                default_index as int,
                starts,
                ends,
            ) && (ins[k].operand matches Operand::SwitchTable(t) && t@ == case_table(
                reg,
                cases@,
                switch_hint(switch_type@),
                starts,
            )) && expr_emitted(reg, locals, expr, None, ins.take(start), ins.take(k)) && cases_code(
                reg,
                rets,
                cases@,
                ins,
                starts,
                ends,
            ),
        _ => true,
    }
}

/// Whether, for each case `i` of `cases`, `ins[starts[i]..ends[i])` holds
/// the code of its statements.
pub open spec fn cases_code(
    reg: SymbolRegistry,
    rets: Seq<Type>,
    cases: Seq<SwitchCase>,
    ins: Seq<Instruction>,
    starts: Seq<int>,
    ends: Seq<int>,
) -> bool
    decreases cases, 1nat,
{
    if cases.len() == 0 {
        true
    } else {
        let k = cases.len() - 1;
        cases_code(reg, rets, cases.drop_last(), ins, starts, ends) && part_code(
            reg,
            rets,
            cases.last().body@,
            ins,
            starts[k],
            ends[k],
        )
    }
}

proof fn lemma_case_step(
    reg: SymbolRegistry,
    rets: Seq<Type>,
    cases: Seq<SwitchCase>,
    i: int,
    top: Seq<Instruction>,
    pre_body: Seq<Instruction>,
    y: Seq<Instruction>,
    now: Seq<Instruction>,
    lt_pre: Seq<crate::symbol::LocalEntry>,
    lt_y: Seq<crate::symbol::LocalEntry>,
    starts: Seq<int>,
    ends: Seq<int>,
)
    requires
        0 <= i < cases.len(),
        cases_code(reg, rets, cases.take(i), top, starts, ends),
        starts.len() == i,
        ends.len() == i,
        forall|j: int| 0 <= j < i ==> 0 <= #[trigger] starts[j] <= ends[j] < top.len(),
        top.len() <= pre_body.len() <= y.len(),
        now.len() == y.len() + 1,
        forall|x: int| 0 <= x < top.len() ==> #[trigger] now[x] == top[x],
        forall|x: int| 0 <= x < y.len() ==> #[trigger] now[x] == y[x],
        block_code(reg, rets, cases[i].body@, pre_body, y, lt_pre, lt_y),
    ensures
        cases_code(
            reg,
            rets,
            cases.take(i + 1),
            now,
            starts.push(pre_body.len() as int),
            ends.push(y.len() as int),
        ),
{
    let s2 = starts.push(pre_body.len() as int);
    let e2 = ends.push(y.len() as int);
    assert forall|j: int, x: int|
        #![trigger starts[j], now[x]]
        0 <= j < cases.take(i).len() && starts[j] <= x < ends[j] implies now[x] == top[x] by {}
    lemma_cases_code_frame(reg, rets, cases.take(i), top, now, starts, ends, s2, e2);
    assert(part_split(pre_body, y, lt_pre, lt_y));
    assert(y.subrange(pre_body.len() as int, y.len() as int) =~= now.subrange(pre_body.len() as int, y.len() as int));
    assert(part_code(reg, rets, cases[i].body@, now, pre_body.len() as int, y.len() as int));
    assert(cases.take(i + 1).drop_last() =~= cases.take(i));
    assert(cases.take(i + 1).last() == cases[i]);
}

proof fn lemma_switch_tail(
    reg: SymbolRegistry,
    rets: Seq<Type>,
    cases: Seq<SwitchCase>,
    loop_exit: Seq<Instruction>,
    after_loop: Seq<Instruction>,
    pre_table: Seq<Instruction>,
    pre_patch: Seq<Instruction>,
    fin: Seq<Instruction>,
    after_expr: Seq<Instruction>,
    end_jumps: Seq<usize>,
    ej_loop: Seq<usize>,
    starts: Seq<int>,
    ends: Seq<int>,
    switch_idx: int,
    branch_pos: Option<usize>,
)
    requires
        starts.len() == cases.len(),
        ends.len() == cases.len(),
        cases_code(reg, rets, cases.take(cases.len() as int), loop_exit, starts, ends),
        loop_exit.len() <= usize::MAX,
        after_loop.len() >= loop_exit.len(),
        forall|x: int| 0 <= x < loop_exit.len() ==> #[trigger] after_loop[x] == loop_exit[x],
        pre_table.len() == after_loop.len(),
        forall|x: int| 0 <= x < after_loop.len() && branch_pos != Some(x as usize) ==> #[trigger] pre_table[x] == after_loop[x],
        pre_patch.len() == pre_table.len(),
        forall|x: int| 0 <= x < pre_table.len() && x != switch_idx ==> #[trigger] pre_patch[x] == pre_table[x],
        fin.len() == pre_patch.len(),
        forall|x: int| 0 <= x < fin.len() && !end_jumps.contains(x as usize) ==> #[trigger] fin[x] == pre_patch[x],
        ej_loop.len() <= end_jumps.len(),
        forall|w: int| 0 <= w < ej_loop.len() ==> #[trigger] end_jumps[w] == ej_loop[w],
        forall|w: int| ej_loop.len() <= w < end_jumps.len() ==> #[trigger] end_jumps[w] >= loop_exit.len(),
        forall|w: int, j: int|
            #![trigger ej_loop[w], starts[j]]
            0 <= w < ej_loop.len() && 0 <= j < cases.len() ==> !(starts[j] <= ej_loop[w] < ends[j]),
        forall|j: int| 0 <= j < cases.len() ==> switch_idx < #[trigger] starts[j] <= ends[j] < loop_exit.len(),
        branch_pos matches Some(q) ==> q == switch_idx + 1 && forall|j: int| 0 <= j < cases.len() ==> #[trigger] starts[j] > switch_idx + 1,
        forall|w: int| 0 <= w < end_jumps.len() ==> #[trigger] end_jumps[w] > switch_idx,
        0 <= switch_idx <= loop_exit.len(),
        after_expr.len() == switch_idx,
        forall|x: int| 0 <= x < switch_idx ==> #[trigger] loop_exit[x] == after_expr[x],
    ensures
        cases_code(reg, rets, cases, fin, starts, ends),
        fin.take(switch_idx) == after_expr,
{
    assert(cases.take(cases.len() as int) =~= cases);
    assert forall|j: int, x: int|
        #![trigger starts[j], fin[x]]
        0 <= j < cases.len() && starts[j] <= x < ends[j] implies fin[x] == loop_exit[x] by {
        assert(switch_idx < starts[j] <= ends[j] < loop_exit.len());
        assert(0 <= x < loop_exit.len());
        assert(x as usize as int == x);
        assert(after_loop[x] == loop_exit[x]);
        if let Some(q) = branch_pos {
            assert(starts[j] > switch_idx + 1);
            assert(branch_pos != Some(x as usize));
        }
        assert(pre_table[x] == after_loop[x]);
        assert(pre_patch[x] == pre_table[x]);
        assert(!end_jumps.contains(x as usize)) by {
            if end_jumps.contains(x as usize) {
                let w = choose|w: int| 0 <= w < end_jumps.len() && end_jumps[w] == x as usize;
                if w < ej_loop.len() {
                    assert(end_jumps[w] == ej_loop[w]);
                    assert(!(starts[j] <= ej_loop[w] < ends[j]));
                } else {
                    assert(end_jumps[w] >= loop_exit.len());
                }
            }
        }
    }
    lemma_cases_code_frame(reg, rets, cases, loop_exit, fin, starts, ends, starts, ends);
    assert forall|x: int| 0 <= x < switch_idx implies #[trigger] fin[x] == after_expr[x] by {
        assert(!end_jumps.contains(x as usize)) by {
            if end_jumps.contains(x as usize) {
                let w = choose|w: int| 0 <= w < end_jumps.len() && end_jumps[w] == x as usize;
                assert(end_jumps[w] > switch_idx);
            }
        }
        assert(fin[x] == pre_patch[x]);
        assert(pre_patch[x] == pre_table[x]);
        assert(pre_table[x] == after_loop[x]);
        assert(after_loop[x] == loop_exit[x]);
    }
    assert(fin.take(switch_idx) =~= after_expr);
}

proof fn lemma_part_code_frame(
    reg: SymbolRegistry,
    rets: Seq<Type>,
    body: Seq<Statement>,
    a: Seq<Instruction>,
    b: Seq<Instruction>,
    c: int,
    e: int,
)
    requires
        part_code(reg, rets, body, a, c, e),
        0 <= c <= e <= a.len(),
        e <= b.len(),
        forall|x: int| c <= x < e ==> #[trigger] b[x] == a[x],
    ensures
        part_code(reg, rets, body, b, c, e),
{
    let (x, y, lx, ly) = choose|x: Seq<Instruction>, y: Seq<Instruction>, lx: Seq<crate::symbol::LocalEntry>, ly: Seq<crate::symbol::LocalEntry>|
        #[trigger] part_split(x, y, lx, ly) && x.len() == c && y.len() == e && block_code(reg, rets, body, x, y, lx, ly)
            && y.subrange(c, e) == a.subrange(c, e);
    assert(part_split(x, y, lx, ly));
    assert(y.subrange(c, e) =~= b.subrange(c, e)) by {
        assert forall|t: int| 0 <= t < e - c implies y.subrange(c, e)[t] == b.subrange(c, e)[t] by {
            assert(y.subrange(c, e)[t] == a.subrange(c, e)[t]);
            assert(b[c + t] == a[c + t]);
        }
    }
}

#[verifier::spinoff_prover]
proof fn lemma_cases_code_frame(
    reg: SymbolRegistry,
    rets: Seq<Type>,
    cases: Seq<SwitchCase>,
    a: Seq<Instruction>,
    b: Seq<Instruction>,
    starts: Seq<int>,
    ends: Seq<int>,
    starts2: Seq<int>,
    ends2: Seq<int>,
)
    requires
        cases_code(reg, rets, cases, a, starts, ends),
        starts.len() >= cases.len(),
        ends.len() >= cases.len(),
        forall|j: int| 0 <= j < cases.len() ==> #[trigger] starts2[j] == starts[j] && ends2[j] == ends[j],
        forall|j: int| 0 <= j < cases.len() ==> 0 <= #[trigger] starts[j] <= ends[j] <= a.len() && ends[j] <= b.len(),
        forall|j: int, x: int|
            #![trigger starts[j], b[x]]
            0 <= j < cases.len() && starts[j] <= x < ends[j] ==> b[x] == a[x],
    ensures
        cases_code(reg, rets, cases, b, starts2, ends2),
    decreases cases.len(),
{
    if cases.len() > 0 {
        let k = cases.len() - 1;
        assert forall|j: int| 0 <= j < cases.drop_last().len() implies #[trigger] starts2[j] == starts[j] && ends2[j] == ends[j] by {
            assert(0 <= j < cases.len());
        }
        lemma_cases_code_frame(reg, rets, cases.drop_last(), a, b, starts, ends, starts2, ends2);
        assert(starts2[k] == starts[k]);
        assert forall|x: int| starts[k] <= x < ends[k] implies #[trigger] b[x] == a[x] by {
            assert(starts[k] <= x);
        }
        lemma_part_code_frame(reg, rets, cases.last().body@, a, b, starts[k], ends[k]);
    }
}


/// Whether `b` (with local table `ltb`) is `a` (with local table `lta`)
/// with the code of statements `stmts` appended, one after the other, each
/// of the shape [`statement_shape`] gives it in the scope it is compiled in.
pub open spec fn block_code(
    reg: SymbolRegistry,
    rets: Seq<Type>,
    stmts: Seq<Statement>,
    a: Seq<Instruction>,
    b: Seq<Instruction>,
    lta: Seq<crate::symbol::LocalEntry>,
    ltb: Seq<crate::symbol::LocalEntry>,
) -> bool
    decreases stmts, 0nat,
{
    if stmts.len() == 0 {
        a == b && lta == ltb
    } else {
        exists|m: Seq<Instruction>, ltm: Seq<crate::symbol::LocalEntry>, scope: SymbolTable|
            #[trigger] block_split(m, ltm, scope) && block_code(reg, rets, stmts.drop_last(), a, m, lta, ltm)
                && statement_shape(reg, rets, scope, stmts.last(), m, b, ltm, ltb)
    }
}

/// Marks the point between two statements of a block: the code and local
/// table after the first, and the scope the second is compiled in.
pub open spec fn block_split(
    m: Seq<Instruction>,
    ltm: Seq<crate::symbol::LocalEntry>,
    scope: SymbolTable,
) -> bool {
    m.len() >= 0
}

/// The condition of link `k` of an `if` chain: the `if` itself for `0`,
/// else the condition of the `k`th `else if`.
pub open spec fn if_link_condition(stmt: Statement, k: int) -> Expr {
    match stmt {
        Statement::If { condition, else_if, .. } => if k == 0 {
            condition
        } else {
            else_if[k - 1].0
        },
        _ => Expr::NullLiteral,
    }
}

/// Marks a stretch of code compiled on its own: the code and local table
/// before it and after it.
pub open spec fn part_split(
    x: Seq<Instruction>,
    y: Seq<Instruction>,
    lx: Seq<crate::symbol::LocalEntry>,
    ly: Seq<crate::symbol::LocalEntry>,
) -> bool {
    x.len() <= y.len()
}

/// Whether `ins[c..e)` holds the code of the statements `body`, compiled
/// after code of length `c` as [`block_code`] says.
pub open spec fn part_code(reg: SymbolRegistry, rets: Seq<Type>, body: Seq<Statement>, ins: Seq<Instruction>, c: int, e: int) -> bool
    decreases body, 1nat,
{
    exists|x: Seq<Instruction>, y: Seq<Instruction>, lx: Seq<crate::symbol::LocalEntry>, ly: Seq<crate::symbol::LocalEntry>|
        #[trigger] part_split(x, y, lx, ly) && x.len() == c && y.len() == e && block_code(reg, rets, body, x, y, lx, ly)
            && y.subrange(c, e) == ins.subrange(c, e)
}

/// The statements of link `k` of an `if` chain.
pub open spec fn if_link_body(stmt: Statement, k: int) -> Seq<Statement> {
    match stmt {
        Statement::If { body, else_if, .. } => if k == 0 {
            body@
        } else {
            else_if[k - 1].1@
        },
        _ => Seq::empty(),
    }
}

/// The statements of the `else` of an `if` chain, if it has one.
pub open spec fn if_else_body(stmt: Statement) -> Option<Seq<Statement>> {
    match stmt {
        Statement::If { else_body, .. } => match else_body {
            Some(b) => Some(b@),
            None => None,
        },
        _ => None,
    }
}

/// The number of `else if` links of an `if` chain.
pub open spec fn if_link_count(stmt: Statement) -> int {
    match stmt {
        Statement::If { else_if, .. } => else_if@.len() as int,
        _ => 0,
    }
}

/// Whether `ins`, from `start` to its end, is the code of link `k` of the
/// `if` chain `stmt`: the link's condition's code, then its statements'
/// code (the then-part), then a jump to the end of the whole, then the
/// rest, ending in a jump to the end. For a condition that is not
/// `&&`/`||`, the condition's code ends in its conditional jump to the
/// then-part and a jump past it. On the last link the rest is the `else`
/// statements' code, or nothing when there is no `else`. The code of later
/// `else if` links is left open here.
pub open spec fn if_code(reg: SymbolRegistry, rets: Seq<Type>, stmt: Statement, k: int, ins: Seq<Instruction>, start: int) -> bool
    decreases stmt, 2nat,
{
    let end = ins.len() as int;
    let cond = if_link_condition(stmt, k);
    &&& end > start
    &&& ins.last() == jump_to(Opcode::Branch, end)
    &&& exists|c: int, e: int|
        #[trigger] if_parts(c, e) && start < c < e <= end && ins[e - 1] == jump_to(Opcode::Branch, end)
            && if_then_code(reg, rets, stmt, k, ins, c, e - 1) && (!(cond is LogicalOp) ==> start + 2 <= c && ins[c - 2]
            == jump_to(condition_branch(cond), c) && ins[c - 1] == jump_to(Opcode::Branch, e)) && (k
            == if_link_count(stmt) ==> if_else_code(reg, rets, stmt, ins, e, end))
}

/// Whether `ins[c..e)` is the code of the statements of link `k` of `stmt`.
pub open spec fn if_then_code(reg: SymbolRegistry, rets: Seq<Type>, stmt: Statement, k: int, ins: Seq<Instruction>, c: int, e: int) -> bool
    decreases stmt, 1nat,
{
    if let Statement::If { body, else_if, .. } = stmt {
        if k == 0 {
            part_code(reg, rets, body@, ins, c, e)
        } else if 0 < k <= else_if@.len() {
            proof {
                assert(decreases_to!(stmt => else_if));
                assert(decreases_to!(else_if => else_if@));
                assert(decreases_to!(else_if@ => else_if@[k - 1]));
                assert(decreases_to!(else_if@[k - 1] => else_if@[k - 1].1));
                assert(decreases_to!(else_if@[k - 1].1 => else_if@[k - 1].1@));
            }
            part_code(reg, rets, else_if@[k - 1].1@, ins, c, e)
        } else {
            false
        }
    } else {
        false
    }
}

/// Whether `ins[e..end)` is the `else` part of the last link of `stmt`: the
/// `else` statements' code and a jump, or nothing without an `else`.
pub open spec fn if_else_code(reg: SymbolRegistry, rets: Seq<Type>, stmt: Statement, ins: Seq<Instruction>, e: int, end: int) -> bool
    decreases stmt, 1nat,
{
    if let Statement::If { else_body, .. } = stmt {
        match else_body {
            Some(b) => {
                proof {
                    assert(decreases_to!(stmt => else_body));
                    assert(decreases_to!(else_body => b));
                    assert(decreases_to!(b => b@));
                }
                e < end && part_code(reg, rets, b@, ins, e, end - 1)
            },
            None => e == end,
        }
    } else {
        false
    }
}

/// Whether `b` is `a` with the code of the parts of a joined string
/// appended, one after the other: a text part as the push of its text, an
/// embedded expression as its code.
pub open spec fn parts_code(
    reg: SymbolRegistry,
    locals: SymbolTable,
    parts: Seq<StringPart>,
    a: Seq<Instruction>,
    b: Seq<Instruction>,
) -> bool
    decreases parts, 0nat,
{
    if parts.len() == 0 {
        a == b
    } else {
        exists|m: Seq<Instruction>|
            #[trigger] code_split(m, b) && parts_code(reg, locals, parts.drop_last(), a, m) && match parts.last() {
                StringPart::Literal(text) => pushed_text(m, b, text@),
                StringPart::Expr(e) => expr_emitted(reg, locals, e, None, m, b),
            }
    }
}

/// Whether `b` is `a` with the code of call arguments `args` appended, one
/// after the other: each preceded by its line marker where its line (from
/// `lines`, `0` past their end) is not `0`, and hinted by the parameter type
/// at its position in `types` (none past their end).
pub open spec fn args_code(
    reg: SymbolRegistry,
    locals: SymbolTable,
    args: Seq<Expr>,
    lines: Seq<usize>,
    types: Seq<Type>,
    trigger: Option<Seq<char>>,
    type_chars: bool,
    a: Seq<Instruction>,
    b: Seq<Instruction>,
) -> bool
    decreases args, 0nat,
{
    if args.len() == 0 {
        a == b
    } else {
        let k = args.len() - 1;
        let line = if k < lines.len() { lines[k] } else { 0usize };
        exists|m: Seq<Instruction>|
            #[trigger] code_split(m, b) && args_code(reg, locals, args.drop_last(), lines, types, trigger, type_chars, a, m)
                && arg_emitted(
                reg,
                locals,
                args.last(),
                k,
                if k < types.len() { Some(types[k]) } else { None },
                trigger,
                type_chars,
                if line > 0 { m.push(line_ins(line)) } else { m },
                b,
            )
    }
}

/// Whether `b` is `a` with the code of argument `e` at position `k`
/// appended: for the first argument of a command that takes a script of
/// trigger `trigger`, a name pushes that script's id; for the first two
/// arguments of a command that takes type characters, a name of a known
/// type pushes its type character; any other argument is its value's code,
/// hinted by `hint`.
pub open spec fn arg_emitted(
    reg: SymbolRegistry,
    locals: SymbolTable,
    e: Expr,
    k: int,
    hint: Option<Type>,
    trigger: Option<Seq<char>>,
    type_chars: bool,
    a: Seq<Instruction>,
    b: Seq<Instruction>,
) -> bool
    decreases e, 1nat,
{
    if k == 0 && trigger is Some && e is Identifier {
        b == a.push(push_int_ins(resolved_script_id(reg, trigger->0, e->Identifier_0@)))
    } else if type_chars && k < 2 && e is Identifier && reg.type_char_map().contains_key(e->Identifier_0@) {
        b == a.push(push_int_ins(reg.type_char_map()[e->Identifier_0@]))
    } else {
        expr_emitted(reg, locals, e, hint, a, b)
    }
}

/// Marks the scope a declaration's initializer is compiled in and the code
/// after it.
pub open spec fn decl_split(sc: SymbolTable, m: Seq<Instruction>) -> bool {
    m.len() >= 0
}

/// Whether `b` is `a` with the code of the values `vs` appended, one after
/// the other, each hinted by the type at its position in `types` (none past
/// their end).
pub open spec fn values_code(
    reg: SymbolRegistry,
    locals: SymbolTable,
    vs: Seq<Expr>,
    types: Seq<Type>,
    a: Seq<Instruction>,
    b: Seq<Instruction>,
) -> bool
    decreases vs.len(),
{
    if vs.len() == 0 {
        a == b
    } else {
        let k = vs.len() - 1;
        exists|m: Seq<Instruction>|
            #[trigger] code_split(m, b) && values_code(reg, locals, vs.drop_last(), types, a, m) && expr_emitted(
                reg,
                locals,
                vs.last(),
                if k < types.len() { Some(types[k]) } else { None },
                m,
                b,
            )
    }
}

/// The case type of a switch `switch_T` (or `T`): the type named `T`.
pub open spec fn switch_hint(switch_type: Seq<char>) -> Option<Type> {
    crate::types::named_type(
        if crate::strings::is_prefix("switch_"@, switch_type) {
            switch_type.skip(7)
        } else {
            switch_type
        },
    )
}

/// The switch table of `cases` whose bodies start at `starts`: each case's
/// label values, in order, each mapped to the start of its case's body.
pub open spec fn case_table(reg: SymbolRegistry, cases: Seq<SwitchCase>, hint: Option<Type>, starts: Seq<int>) -> Seq<
    (i32, usize),
>
    decreases cases.len(),
{
    if cases.len() == 0 || starts.len() < cases.len() {
        Seq::empty()
    } else {
        case_table(reg, cases.drop_last(), hint, starts.take(cases.len() - 1)) + case_value_list(
            reg,
            cases.last().values@,
            hint,
        ).map_values(|v: i32| (v, starts[cases.len() - 1] as usize))
    }
}

/// An unconditional jump to `target`.
pub open spec fn branch_to(target: int) -> Instruction {
    Instruction { opcode: Opcode::Branch, operand: Operand::JumpTarget(target as usize), line: None }
}

/// The layout of a switch's code in `ins` (ending at `ins.len()`): the
/// switch instruction at `k`; case `i`'s body from `starts[i]` to its jump
/// to the end at `ends[i]`, in order; each case right after the previous
/// one's jump unless the default body stands between; without a default
/// body first, a jump at `k + 1` (to the end when there is no default) and
/// the first case right after it; without a default, the code ending with
/// the last case's jump.
pub open spec fn switch_layout(
    ins: Seq<Instruction>,
    k: int,
    n: int,
    has_default: bool,
    default_index: int,
    starts: Seq<int>,
    ends: Seq<int>,
) -> bool {
    let end = ins.len() as int;
    let default_first = has_default && default_index == 0;
    &&& ins[k].opcode == Opcode::Switch
    &&& starts.len() == n && ends.len() == n
    &&& forall|i: int| 0 <= i < n ==> k < #[trigger] starts[i] <= ends[i] < end && ins[ends[i]] == branch_to(end)
    &&& forall|i: int| 0 <= i < n - 1 ==> #[trigger] ends[i] < starts[i + 1]
    &&& forall|i: int|
        0 < i < n && !(has_default && i == default_index) ==> #[trigger] starts[i] == ends[i - 1] + 1
    &&& !default_first ==> ins[k + 1].opcode == Opcode::Branch && (n > 0 ==> starts[0] == k + 2)
    &&& !has_default ==> ins[k + 1] == branch_to(end) && end == (if n > 0 { ends[n - 1] + 1 } else { k + 2 })
}


/// The code of binary operator `op` applied to two values on the stack,
/// placed at `at`: an arithmetic or bitwise instruction, or for a
/// comparison the code that pushes 1 when it holds and 0 otherwise.
pub open spec fn binary_op_code(op: BinOp, at: int) -> Seq<Instruction> {
    let simple = |o: Opcode| seq![Instruction { opcode: o, operand: Operand::NoValue, line: None }];
    match op {
        BinOp::Add => simple(Opcode::Add),
        BinOp::Sub => simple(Opcode::Sub),
        BinOp::Mul => simple(Opcode::Multiply),
        BinOp::Div => simple(Opcode::Divide),
        BinOp::Mod => simple(Opcode::Modulo),
        BinOp::BitAnd => simple(Opcode::And),
        BinOp::BitOr => simple(Opcode::Or),
        BinOp::Eq => comparison_value_code(Opcode::BranchEquals, 0, 1, at),
        BinOp::NotEq => comparison_value_code(Opcode::BranchEquals, 1, 0, at),
        BinOp::Lt => comparison_value_code(Opcode::BranchLessThan, 0, 1, at),
        BinOp::Gt => comparison_value_code(Opcode::BranchGreaterThan, 0, 1, at),
        BinOp::LtEq => comparison_value_code(Opcode::BranchLessThanOrEquals, 0, 1, at),
        BinOp::GtEq => comparison_value_code(Opcode::BranchGreaterThanOrEquals, 0, 1, at),
    }
}

/// The hint a binary operation gives its right operand: the left
/// operand's type for a comparison.
pub open spec fn rhs_hint(reg: SymbolRegistry, op: BinOp, lhs: Expr, locals: SymbolTable) -> Option<Type> {
    if is_comparison(op) {
        expr_type_of(reg, lhs, locals)
    } else {
        None
    }
}

/// Whether `op` compares its operands.
pub open spec fn is_comparison(op: BinOp) -> bool {
    op == BinOp::Eq || op == BinOp::NotEq || op == BinOp::Lt || op == BinOp::Gt || op == BinOp::LtEq || op
        == BinOp::GtEq
}

/// The entity that `l+r` names, for an `a + b` of two identifiers.
pub open spec fn plus_entity(reg: SymbolRegistry, op: BinOp, lhs: Expr, rhs: Expr) -> Option<i32> {
    if op == BinOp::Add {
        match (lhs, rhs) {
            (Expr::Identifier(l), Expr::Identifier(r)) => primary_entity_id(reg, normalized_name(l@.push('+') + r@)),
            _ => None,
        }
    } else {
        None
    }
}

proof fn lemma_array_emitted(
    reg: SymbolRegistry,
    locals: SymbolTable,
    name: String,
    index: Box<Expr>,
    hint: Option<Type>,
    before: Seq<Instruction>,
    mid: Seq<Instruction>,
    after: Seq<Instruction>,
)
    requires
        expr_emitted(reg, locals, *index, None, before, mid),
        after == mid + (if scoped_lookup(locals, name@) is Some {
            seq![
                Instruction {
                    opcode: Opcode::PushArrayInt,
                    operand: Operand::Int(array_slot(locals, name@)),
                    line: None,
                },
            ]
        } else {
            Seq::empty()
        }),
    ensures
        expr_emitted(reg, locals, Expr::ArrayAccess { name, index }, hint, before, after),
{
    assert(code_split(mid, mid));
}

/// Marks the points at which an expression's code splits into the code of
/// its operands.
pub open spec fn code_split(first: Seq<Instruction>, second: Seq<Instruction>) -> bool {
    first.len() <= second.len()
}

/// Whether `new` is `old` with the code of expression `e` appended (under
/// type hint `hint`): a leaf by [`leaf_emitted`]; an `a + b` naming an
/// entity as that entity's id; another binary operation as its left
/// operand's code, its right operand's code (hinted by the left operand's
/// type for a comparison) and the operator's code; a logical operation as
/// both operands' code and `and`/`or`; `calc(e)` as the code of `e`; an
/// array element as the index's code and the element push; a command call
/// as code that ends in the command's instruction (by name where the
/// command is unknown); a script call or jump as code that ends in the
/// `gosub`/`jump` to the named script's id (`-1` when unknown); a joined
/// string as code that ends in joining as many values as it has parts. The
/// code of a call starts with its arguments' code ([`args_code`]) and that of
/// a joined string with its parts' code ([`parts_code`]); the pushes a
/// command call adds between its arguments and its instruction (a variadic
/// type descriptor, a `db_find` column type, a line marker) are left open.
pub open spec fn expr_emitted(
    reg: SymbolRegistry,
    locals: SymbolTable,
    e: Expr,
    hint: Option<Type>,
    old: Seq<Instruction>,
    new: Seq<Instruction>,
) -> bool
    decreases e, 0nat,
{
    match e {
        Expr::BinaryOp { op, lhs, rhs } => if plus_entity(reg, op, *lhs, *rhs) is Some {
            new == old.push(push_int_ins(plus_entity(reg, op, *lhs, *rhs)->0))
        } else {
            exists|m1: Seq<Instruction>, m2: Seq<Instruction>|
                #[trigger] code_split(m1, m2) && expr_emitted(reg, locals, *lhs, None, old, m1) && expr_emitted(
                    reg,
                    locals,
                    *rhs,
                    rhs_hint(reg, op, *lhs, locals),
                    m1,
                    m2,
                ) && new == m2 + binary_op_code(op, m2.len() as int)
        },
        Expr::LogicalOp { op, lhs, rhs, .. } => exists|m1: Seq<Instruction>, m2: Seq<Instruction>|
            #[trigger] code_split(m1, m2) && expr_emitted(reg, locals, *lhs, None, old, m1) && expr_emitted(
                reg,
                locals,
                *rhs,
                None,
                m1,
                m2,
            ) && new == m2.push(
                Instruction {
                    opcode: match op {
                        LogicOp::And => Opcode::And,
                        LogicOp::Or => Opcode::Or,
                    },
                    operand: Operand::NoValue,
                    line: None,
                },
            ),
        Expr::Calc(inner) => expr_emitted(reg, locals, *inner, None, old, new),
        Expr::ArrayAccess { name, index } => exists|m: Seq<Instruction>|
            #[trigger] code_split(m, m) && expr_emitted(reg, locals, *index, None, old, m) && new == m + (if scoped_lookup(
                locals,
                name@,
            ) is Some {
                seq![
                    Instruction {
                        opcode: Opcode::PushArrayInt,
                        operand: Operand::Int(array_slot(locals, name@)),
                        line: None,
                    },
                ]
            } else {
                Seq::empty()
            }),
        Expr::CommandCall { name, args, arg_lines, .. } => {
            let dotted = name@.len() > 0 && name@[0] == '.';
            let lookup = if dotted { name@.skip(1) } else { name@ };
            &&& exists|m: Seq<Instruction>|
                #[trigger] code_split(m, new) && m.len() <= new.len() && new.take(m.len() as int) == m && args_code(
                    reg,
                    locals,
                    args@,
                    arg_lines@,
                    command_params_of(reg, lookup),
                    named_script_trigger(lookup),
                    type_char_command(lookup),
                    old,
                    m,
                )
            &&& match command_symbol(reg, lookup, true) {
                Some(sv) => match sv.kind {
                    KindView::Command { opcode, .. } => new.len() > old.len() && new.last() == command_ins(opcode, dotted),
                    _ => true,
                },
                None => {
                    &&& new.len() > old.len()
                    &&& new.last().opcode == Opcode::Command
                    &&& new.last().operand matches Operand::Str(t) && t@ == name@
                },
            }
        },
        Expr::MultiAssign(..) => new == old,
        Expr::JoinedString { parts } => {
            &&& new.len() > old.len()
            &&& parts_code(reg, locals, parts@, old, new.drop_last())
            &&& new.last() == (Instruction {
                opcode: Opcode::JoinString,
                operand: Operand::StringCount(
                    (if parts@.len() < u32::MAX { parts@.len() as int } else { u32::MAX as int }) as u32,
                ),
                line: None,
            })
        },
        Expr::ProcCall { name, args, arg_lines, call_line } => {
            &&& new.len() > old.len()
            &&& exists|m: Seq<Instruction>|
                #[trigger] code_split(m, new) && args_code(
                    reg,
                    locals,
                    args@,
                    arg_lines@,
                    script_params_of(reg, name@),
                    None,
                    false,
                    old,
                    m,
                ) && new.drop_last() == (if call_line > 0 { m.push(line_ins(call_line)) } else { m })
            &&& new.last() == (Instruction {
                opcode: Opcode::GosubWithParams,
                operand: Operand::Int(
                    match reg.proc_id_map().get(name@) {
                        Some(id) => id,
                        None => -1i32,
                    },
                ),
                line: None,
            })
        },
        Expr::JumpCall { name, args, arg_lines, call_line } => {
            &&& new.len() > old.len()
            &&& exists|m: Seq<Instruction>|
                #[trigger] code_split(m, new) && args_code(
                    reg,
                    locals,
                    args@,
                    arg_lines@,
                    script_params_of(reg, name@),
                    None,
                    false,
                    old,
                    m,
                ) && new.drop_last() == (if call_line > 0 { m.push(line_ins(call_line)) } else { m })
            &&& new.last() == (Instruction {
                opcode: Opcode::JumpWithParams,
                operand: Operand::Int(
                    match reg.label_id_map().get(name@) {
                        Some(id) => id,
                        None => match script_id_spec(reg.script_map(), reg.fallback_script_ids(), name@) {
                            Some(id) => id,
                            None => -1i32,
                        },
                    },
                ),
                line: None,
            })
        },
        _ => leaf_emitted(reg, e, locals, hint, old, new),
    }
}

impl Compiler {
    /// Pushes 0 or 1 by a comparison: a conditional branch over the
    /// fall-through value to the branch value.
    fn emit_comparison_value(branch_opcode: Opcode, fallthrough_value: i32, branch_value: i32, out: &mut CompiledScript)
        requires
            targets_within(old(out).instructions@),
        ensures
            grown(old(out), final(out)),
            final(out).instructions@ == old(out).instructions@ + comparison_value_code(
                branch_opcode,
                fallthrough_value,
                branch_value,
                old(out).instructions@.len() as int,
            ),
            final(out).local_table == old(out).local_table,
    {
        let ghost start = *out;
        let branch_pos = out.len();
        emit(out, Instruction::new(branch_opcode, Operand::JumpTarget(0)));
        emit(out, Instruction::push_int(fallthrough_value));
        let jump_pos = out.len();
        emit(out, Instruction::new(Opcode::Branch, Operand::JumpTarget(0)));
        let branch_target = out.len();
        emit(out, Instruction::push_int(branch_value));
        let end_pos = out.len();
        patch(out, branch_pos, branch_target);
        patch(out, jump_pos, end_pos);
        proof {
            assert(out.instructions@ =~= start.instructions@ + comparison_value_code(
                branch_opcode,
                fallthrough_value,
                branch_value,
                start.instructions@.len() as int,
            ));
        }
    }

    fn compile_expr(&self, expr: &Expr, out: &mut CompiledScript, locals: &SymbolTable)
        requires
            targets_within(old(out).instructions@),
        ensures
            grown(old(out), final(out)),
            final(out).local_table == old(out).local_table,
            expr_emitted(self.registry, *locals, *expr, None, old(out).instructions@, final(out).instructions@),
        decreases expr, 2nat,
    {
        self.compile_expr_hinted(expr, out, locals, None)
    }

    /// Emits the pushes of `args` from position `from` on, each with its
    /// line and its parameter type as hint; a first argument naming a
    /// script of `script_trigger` is pushed as that script's id, and for a
    /// type-character command the first two plain identifiers are pushed
    /// as type characters.
    fn compile_call_args(
        &self,
        call: &Expr,
        args: &Vec<Expr>,
        arg_lines: &Vec<usize>,
        from: usize,
        param_types: &Vec<Type>,
        script_trigger: Option<&'static str>,
        type_char_args: bool,
        out: &mut CompiledScript,
        locals: &SymbolTable,
    )
        requires
            targets_within(old(out).instructions@),
            forall|i: int| 0 <= i < args@.len() ==> decreases_to!(*call => #[trigger] args@[i]),
        ensures
            grown(old(out), final(out)),
            final(out).local_table == old(out).local_table,
            from == 0 ==> args_code(
                self.registry,
                *locals,
                args@,
                arg_lines@,
                param_types@,
                match script_trigger {
                    Some(t) => Some(t@),
                    None => None,
                },
                type_char_args,
                old(out).instructions@,
                final(out).instructions@,
            ),
        decreases call, 0nat,
    {
        let ghost start = *out;
        let ghost plain = from == 0;
        let ghost trig = match script_trigger {
            Some(t) => Some(t@),
            None => None,
        };
        let mut i = from;
        proof {
            assert(args@.take(0) =~= Seq::<Expr>::empty());
        }
        while i < args.len()
            invariant
                grown(&start, out),
                out.local_table == start.local_table,
                forall|k: int| 0 <= k < args@.len() ==> decreases_to!(*call => #[trigger] args@[k]),
                plain == (from == 0),
                trig == (match script_trigger {
                    Some(t) => Some(t@),
                    None => None,
                }),
                plain ==> i <= args@.len(),
                plain ==> args_code(
                    self.registry,
                    *locals,
                    args@.take(i as int),
                    arg_lines@,
                    param_types@,
                    trig,
                    type_char_args,
                    start.instructions@,
                    out.instructions@,
                ),
            decreases args@.len() - i,
        {
            let ghost m = out.instructions@;
            let al = line_at(arg_lines, i);
            if al > 0 {
                emit_line(al, out);
            }
            let ghost m1 = out.instructions@;
            let arg = &args[i];
            let mut done = false;
            if i == 0 {
                if let Some(trigger) = script_trigger {
                    if let Expr::Identifier(script_name) = arg {
                        let id = resolve_script_id(&self.registry, trigger, script_name.as_str());
                        emit(out, Instruction::push_int(id));
                        done = true;
                    }
                }
            }
            if !done && type_char_args && i < 2 {
                if let Expr::Identifier(n) = arg {
                    if let Some(tc) = self.registry.type_char(n.as_str()) {
                        emit(out, Instruction::push_int(tc));
                        done = true;
                    }
                }
            }
            if !done {
                let hint = hint_at(param_types, i);
                proof {
                    assert(decreases_to!(*call => args@[i as int]));
                }
                self.compile_expr_hinted(arg, out, locals, hint);
            }
            proof {
                if plain {
                    assert(m1 == (if al > 0 { m.push(line_ins(al)) } else { m }));
                    assert(arg_emitted(
                        self.registry,
                        *locals,
                        args@[i as int],
                        i as int,
                        if (i as int) < param_types@.len() { Some(param_types@[i as int]) } else { None },
                        trig,
                        type_char_args,
                        m1,
                        out.instructions@,
                    ));
                    assert(args@.take(i + 1).drop_last() =~= args@.take(i as int));
                    assert(args@.take(i + 1).last() == args@[i as int]);
                    assert(code_split(m, out.instructions@));
                }
            }
            i += 1;
        }
        proof {
            if plain {
                assert(args@.take(i as int) =~= args@);
            }
        }
    }

    /// Emits an expression's value, resolving identifiers and literals by
    /// the type the context expects where one is given.
    #[verifier::spinoff_prover]
    #[verifier::rlimit(100)]
    fn compile_expr_hinted(&self, expr: &Expr, out: &mut CompiledScript, locals: &SymbolTable, type_hint: Option<Type>)
        requires
            targets_within(old(out).instructions@),
        ensures
            grown(old(out), final(out)),
            final(out).local_table == old(out).local_table,
            expr_emitted(
                self.registry,
                *locals,
                *expr,
                type_hint,
                old(out).instructions@,
                final(out).instructions@,
            ),
        decreases expr, 1nat,
    {
        let ghost start = *out;
        match expr {
            Expr::IntLiteral(n) => {
                emit(out, Instruction::push_int(*n));
            },
            Expr::LongLiteral(n) => {
                emit(out, Instruction::push_long(*n));
            },
            Expr::StringLiteral(s) => {
                if let Some(h) = type_hint {
                    if h.base_type() == BaseVarType::Integer && h != Type::Int && h != Type::Boolean {
                        if let Some(id) = self.registry.lookup_entity_id_typed(s.as_str(), h) {
                            emit(out, Instruction::push_int(id));
                            return;
                        }
                        if let Some(r) = self.registry.lookup_entity_id(s.as_str()) {
                            emit(out, Instruction::push_int(r.id));
                            return;
                        }
                    }
                }
                emit(out, Instruction::push_string(s.clone()));
                proof {
                    assert(out.instructions@.drop_last() =~= start.instructions@);
                }
            },
            Expr::BoolLiteral(b) => {
                emit(out, Instruction::push_int(if *b { 1 } else { 0 }));
            },
            Expr::NullLiteral => {
                if type_hint == Some(Type::String) {
                    emit(out, Instruction::push_string(to_owned_string("null")));
                    proof {
                        assert(out.instructions@.drop_last() =~= start.instructions@);
                    }
                } else {
                    emit(out, Instruction::push_int(-1));
                }
            },
            Expr::CharLiteral(c) => {
                emit(out, Instruction::push_int(*c as i32));
            },
            Expr::CoordLiteral(c) => {
                emit(out, Instruction::push_int(*c));
            },
            Expr::LocalVar(name, _) => {
                match locals.lookup(name.as_str()) {
                    Some(sym) => {
                        let (slot, base) = match &sym.kind {
                            SymbolKind::LocalVar { var_type, slot, .. } => (*slot, var_type.base_type()),
                            SymbolKind::ScriptParam { param_type, slot } => (*slot, param_type.base_type()),
                            _ => (0, BaseVarType::Integer),
                        };
                        let opcode = match base {
                            BaseVarType::Integer => Opcode::PushIntLocal,
                            BaseVarType::String => Opcode::PushStringLocal,
                            BaseVarType::Long => Opcode::PushLongLocal,
                        };
                        emit(out, Instruction::new(opcode, Operand::Int(slot)));
                    },
                    None => {
                        emit(out, Instruction::push_int(0));
                    },
                }
            },
            Expr::GameVar(name, _) => {
                let (lookup, secondary) = strip_dot(name.as_str());
                if let Some(sym) = self.registry.lookup_game_var(lookup.as_str()) {
                    if let SymbolKind::GameVar { var_id, category, .. } = &sym.kind {
                        let opcode = game_var_opcode(category.as_str(), true);
                        let encoded = if secondary { (1i32 << 16u32) | *var_id } else { *var_id };
                        emit(out, Instruction::new(opcode, Operand::Int(encoded)));
                    }
                }
                proof {
                    assert(out.instructions@ =~= start.instructions@ + var_load(self.registry, name@));
                }
            },
            Expr::ConstantVar(name, const_line) => {
                if let Some(sym) = self.registry.lookup_constant(name.as_str()) {
                    if let SymbolKind::Constant { int_value, string_value, .. } = &sym.kind {
                        if let Some(v) = int_value {
                            emit(out, Instruction::push_int(*v));
                        } else if let Some(sv) = string_value {
                            if *const_line > 0 {
                                emit_line(*const_line - 1, out);
                            }
                            let ghost mid = out.instructions@;
                            emit(out, Instruction::push_string(sv.clone()));
                            proof {
                                assert(out.instructions@.drop_last() =~= mid);
                            }
                        }
                    }
                }
            },
            Expr::Identifier(name) => {
                self.compile_identifier(name.as_str(), out, type_hint);
            },
            Expr::ArrayAccess { name, index } => {
                self.compile_expr(index, out, locals);
                let ghost m = out.instructions@;
                if let Some(sym) = locals.lookup(name.as_str()) {
                    let slot = match &sym.kind {
                        SymbolKind::LocalVar { slot, .. } => *slot,
                        _ => 0,
                    };
                    emit(out, Instruction::new(Opcode::PushArrayInt, Operand::Int(slot)));
                }
                proof {
                    let tail = if scoped_lookup(*locals, name@) is Some {
                        seq![
                            Instruction {
                                opcode: Opcode::PushArrayInt,
                                operand: Operand::Int(array_slot(*locals, name@)),
                                line: None,
                            },
                        ]
                    } else {
                        Seq::empty()
                    };
                    assert(out.instructions@ =~= m + tail);
                    assert(expr_emitted(self.registry, *locals, **index, None, start.instructions@, m));
                    lemma_array_emitted(self.registry, *locals, *name, *index, type_hint, start.instructions@, m, out.instructions@);
                    assert(expr_emitted(self.registry, *locals, *expr, type_hint, start.instructions@, out.instructions@));
                }
            },
            Expr::BinaryOp { op, lhs, rhs } => {
                if *op == BinOp::Add {
                    if let (Expr::Identifier(l), Expr::Identifier(r)) = (&**lhs, &**rhs) {
                        let mut combined = l.clone();
                        crate::strings::push_char(&mut combined, '+');
                        push_str(&mut combined, r.as_str());
                        proof {
                            assert(combined@ == l@.push('+') + r@);
                        }
                        if let Some(e) = self.registry.lookup_entity_id(combined.as_str()) {
                            emit(out, Instruction::push_int(e.id));
                            proof {
                                assert(plus_entity(self.registry, *op, **lhs, **rhs) == Some(e.id));
                                assert(expr_emitted(self.registry, *locals, *expr, type_hint, start.instructions@, out.instructions@));
                            }
                            return;
                        }
                    }
                }
                let is_comparison = *op == BinOp::Eq || *op == BinOp::NotEq || *op == BinOp::Lt || *op == BinOp::Gt
                    || *op == BinOp::LtEq || *op == BinOp::GtEq;
                let lhs_hint = if is_comparison { self.infer_type(lhs, locals) } else { None };
                self.compile_expr(lhs, out, locals);
                let ghost m1 = out.instructions@;
                self.compile_expr_hinted(rhs, out, locals, lhs_hint);
                let ghost m2 = out.instructions@;
                proof {
                    assert(lhs_hint == rhs_hint(self.registry, *op, **lhs, *locals));
                }
                match op {
                    BinOp::Add => emit(out, Instruction::simple(Opcode::Add)),
                    BinOp::Sub => emit(out, Instruction::simple(Opcode::Sub)),
                    BinOp::Mul => emit(out, Instruction::simple(Opcode::Multiply)),
                    BinOp::Div => emit(out, Instruction::simple(Opcode::Divide)),
                    BinOp::Mod => emit(out, Instruction::simple(Opcode::Modulo)),
                    BinOp::BitAnd => emit(out, Instruction::simple(Opcode::And)),
                    BinOp::BitOr => emit(out, Instruction::simple(Opcode::Or)),
                    BinOp::Eq => Self::emit_comparison_value(Opcode::BranchEquals, 0, 1, out),
                    BinOp::NotEq => Self::emit_comparison_value(Opcode::BranchEquals, 1, 0, out),
                    BinOp::Lt => Self::emit_comparison_value(Opcode::BranchLessThan, 0, 1, out),
                    BinOp::Gt => Self::emit_comparison_value(Opcode::BranchGreaterThan, 0, 1, out),
                    BinOp::LtEq => Self::emit_comparison_value(Opcode::BranchLessThanOrEquals, 0, 1, out),
                    BinOp::GtEq => Self::emit_comparison_value(Opcode::BranchGreaterThanOrEquals, 0, 1, out),
                }
                proof {
                    assert(out.instructions@ =~= m2 + binary_op_code(*op, m2.len() as int));
                    assert(expr_emitted(self.registry, *locals, **lhs, None, start.instructions@, m1));
                    assert(expr_emitted(self.registry, *locals, **rhs, rhs_hint(self.registry, *op, **lhs, *locals), m1, m2));
                    assert(code_split(m1, m2));
                    assert(expr_emitted(self.registry, *locals, *expr, type_hint, start.instructions@, out.instructions@));
                }
            },
            Expr::LogicalOp { op, lhs, rhs, .. } => {
                self.compile_expr(lhs, out, locals);
                let ghost m1 = out.instructions@;
                self.compile_expr(rhs, out, locals);
                let ghost m2 = out.instructions@;
                match op {
                    LogicOp::And => emit(out, Instruction::simple(Opcode::And)),
                    LogicOp::Or => emit(out, Instruction::simple(Opcode::Or)),
                }
                proof {
                    assert(expr_emitted(self.registry, *locals, **lhs, None, start.instructions@, m1));
                    assert(expr_emitted(self.registry, *locals, **rhs, None, m1, m2));
                    assert(code_split(m1, m2));
                    assert(expr_emitted(self.registry, *locals, *expr, type_hint, start.instructions@, out.instructions@));
                }
            },
            Expr::Calc(inner) => {
                self.compile_expr(inner, out, locals);
                assert(expr_emitted(self.registry, *locals, *expr, type_hint, start.instructions@, out.instructions@));
            },
            Expr::CommandCall { name, args, arg_lines, call_line } => {
                let (lookup, secondary) = strip_dot(name.as_str());
                let param_types = self.command_param_types(lookup.as_str());
                let script_trigger = command_script_trigger(lookup.as_str());
                let variadic = command_variadic_info(lookup.as_str());
                let type_chars = takes_type_chars(lookup.as_str());
                proof {
                    assert forall|i: int| 0 <= i < args@.len() implies decreases_to!(*expr => #[trigger] args@[i]) by {
                        assert(decreases_to!(*expr => *args));
                        assert(decreases_to!(*args => args@));
                        assert(decreases_to!(args@ => args@[i]));
                    }
                }
                self.compile_call_args(expr, args, arg_lines, 0, &param_types, script_trigger, type_chars, out, locals);
                let ghost m_args = out.instructions@;
                if let Some(fixed) = variadic {
                    let desc = self.type_descriptor(args, fixed, locals);
                    emit(out, Instruction::push_string(desc));
                }
                if str_eq(lookup.as_str(), "db_find") || str_eq(lookup.as_str(), "db_find_refine") {
                    let ordinal: i32 = if args.len() > 0 {
                        match &args[0] {
                            Expr::Identifier(col) => match self.registry.dbcolumn_type(col.as_str()) {
                                Some(t) => match t.base_type() {
                                    BaseVarType::Integer => 0,
                                    BaseVarType::Long => 1,
                                    BaseVarType::String => 2,
                                },
                                None => 0,
                            },
                            _ => 0,
                        }
                    } else {
                        0
                    };
                    emit(out, Instruction::push_int(ordinal));
                }
                if *call_line > 0 {
                    emit_line(*call_line, out);
                }
                self.emit_command(lookup.as_str(), name.as_str(), secondary, true, out);
                proof {
                    assert(code_split(m_args, out.instructions@));
                    assert(out.instructions@.take(m_args.len() as int) =~= m_args);
                }
            },
            Expr::ProcCall { name, args, arg_lines, call_line } => {
                let param_types = self.script_param_types(name.as_str());
                proof {
                    assert forall|i: int| 0 <= i < args@.len() implies decreases_to!(*expr => #[trigger] args@[i]) by {
                        assert(decreases_to!(*expr => *args));
                        assert(decreases_to!(*args => args@));
                        assert(decreases_to!(args@ => args@[i]));
                    }
                }
                self.compile_call_args(expr, args, arg_lines, 0, &param_types, None, false, out, locals);
                let ghost m = out.instructions@;
                if *call_line > 0 {
                    emit_line(*call_line, out);
                }
                let ghost before_call = out.instructions@;
                let id = match self.registry.proc_script_id(name.as_str()) {
                    Some(id) => id,
                    None => -1,
                };
                emit(out, Instruction::gosub_with_params(id));
                proof {
                    assert(out.instructions@.drop_last() =~= before_call);
                    assert(code_split(m, out.instructions@));
                }
            },
            Expr::JumpCall { name, args, arg_lines, call_line } => {
                let param_types = self.script_param_types(name.as_str());
                proof {
                    assert forall|i: int| 0 <= i < args@.len() implies decreases_to!(*expr => #[trigger] args@[i]) by {
                        assert(decreases_to!(*expr => *args));
                        assert(decreases_to!(*args => args@));
                        assert(decreases_to!(args@ => args@[i]));
                    }
                }
                self.compile_call_args(expr, args, arg_lines, 0, &param_types, None, false, out, locals);
                let ghost m = out.instructions@;
                if *call_line > 0 {
                    emit_line(*call_line, out);
                }
                let ghost before_call = out.instructions@;
                let id = match self.registry.label_script_id(name.as_str()) {
                    Some(id) => id,
                    None => match self.registry.script_id(name.as_str()) {
                        Some(id) => id,
                        None => -1,
                    },
                };
                emit(out, Instruction::new(Opcode::JumpWithParams, Operand::Int(id)));
                proof {
                    assert(out.instructions@.drop_last() =~= before_call);
                    assert(code_split(m, out.instructions@));
                }
            },
            Expr::JoinedString { parts } => {
                let ghost start = *out;
                let mut count: u32 = 0;
                let mut i: usize = 0;
                proof {
                    assert forall|k: int| 0 <= k < parts@.len() implies decreases_to!(*expr => #[trigger] parts@[k]) by {
                        assert(decreases_to!(*expr => *parts));
                        assert(decreases_to!(*parts => parts@));
                        assert(decreases_to!(parts@ => parts@[k]));
                    }
                }
                proof {
                    assert(parts@.take(0) =~= Seq::<StringPart>::empty());
                }
                while i < parts.len()
                    invariant
                        forall|k: int| 0 <= k < parts@.len() ==> decreases_to!(*expr => #[trigger] parts@[k]),
                        parts_code(self.registry, *locals, parts@.take(i as int), start.instructions@, out.instructions@),
                        grown(&start, out),
                        out.local_table == start.local_table,
                        count <= i,
                        count == (if i < u32::MAX { i as int } else { u32::MAX as int }),
                        i <= parts@.len(),
                        parts@.len() < u32::MAX || i <= parts@.len(),
                    decreases parts@.len() - i,
                {
                    let ghost m = out.instructions@;
                    match &parts[i] {
                        StringPart::Literal(text) => {
                            emit(out, Instruction::push_string(text.clone()));
                            proof {
                                assert(out.instructions@.drop_last() =~= m);
                            }
                        },
                        StringPart::Expr(e) => {
                            proof {
                                assert(decreases_to!(*expr => parts@[i as int]));
                                assert(decreases_to!(parts@[i as int] => *e));
                            }
                            self.compile_expr(e, out, locals);
                        },
                    }
                    proof {
                        assert(parts@.take(i + 1).drop_last() =~= parts@.take(i as int));
                        assert(parts@.take(i + 1).last() == parts@[i as int]);
                        assert(code_split(m, out.instructions@));
                    }
                    if count < u32::MAX {
                        count = count + 1;
                    }
                    i += 1;
                }
                proof {
                    assert(parts@.take(i as int) =~= parts@);
                }
                let ghost before_join = out.instructions@;
                emit(out, Instruction::join_string(count));
                proof {
                    assert(out.instructions@.drop_last() =~= before_join);
                }
            },
            Expr::MultiAssign(..) => {},
        }
    }

    /// Emits a command instruction: the registered opcode of `lookup` (or of
    /// its `vararg` form for a `name*` command), with the secondary flag in
    /// bit 16; the bare name when the command is unknown.
    fn emit_command(&self, lookup: &str, name: &str, secondary: bool, try_vararg: bool, out: &mut CompiledScript)
        requires
            targets_within(old(out).instructions@),
        ensures
            grown(old(out), final(out)),
            final(out).local_table == old(out).local_table,
            match command_symbol(self.registry, lookup@, try_vararg) {
                Some(sv) => final(out).instructions@ == old(out).instructions@ + match sv.kind {
                    KindView::Command { opcode, .. } => seq![command_ins(opcode, secondary)],
                    _ => Seq::<Instruction>::empty(),
                },
                None => {
                    &&& final(out).instructions@.len() == old(out).instructions@.len() + 1
                    &&& final(out).instructions@.drop_last() == old(out).instructions@
                    &&& final(out).instructions@.last().opcode == Opcode::Command
                    &&& final(out).instructions@.last().line is None
                    &&& final(out).instructions@.last().operand matches Operand::Str(t) && t@ == name@
                },
            },
    {
        let ghost start = *out;
        let mut sym = self.registry.lookup_command(lookup);
        if sym.is_none() && try_vararg {
            let v = chars_of(lookup);
            if v.len() > 0 && v[v.len() - 1] == '*' {
                let mut vararg_name = string_from_range(&v, 0, v.len() - 1);
                push_str(&mut vararg_name, "vararg");
                proof {
                    assert(v@.subrange(0, v@.len() - 1) =~= lookup@.drop_last());
                }
                if let Some(s2) = self.registry.lookup_command(vararg_name.as_str()) {
                    let flag: i32 = if secondary { 1i32 << 16u32 } else { 0 };
                    if let SymbolKind::Command { opcode, .. } = &s2.kind {
                        emit(out, Instruction::new(Opcode::Command, Operand::Int(*opcode | flag)));
                    }
                    proof {
                        assert(out.instructions@ =~= start.instructions@ + match s2.kind@ {
                            KindView::Command { opcode, .. } => seq![command_ins(opcode, secondary)],
                            _ => Seq::<Instruction>::empty(),
                        });
                    }
                    return;
                }
            }
        }
        match sym {
            Some(s) => {
                let flag: i32 = if secondary { 1i32 << 16u32 } else { 0 };
                if let SymbolKind::Command { opcode, .. } = &s.kind {
                    emit(out, Instruction::new(Opcode::Command, Operand::Int(*opcode | flag)));
                }
                proof {
                    assert(out.instructions@ =~= start.instructions@ + match s.kind@ {
                        KindView::Command { opcode, .. } => seq![command_ins(opcode, secondary)],
                        _ => Seq::<Instruction>::empty(),
                    });
                }
            },
            None => {
                emit(out, Instruction::new(Opcode::Command, Operand::Str(to_owned_string(name))));
                proof {
                    assert(out.instructions@.drop_last() =~= start.instructions@);
                }
            },
        }
    }

    /// Emits a plain identifier: a component, a script for a script-typed
    /// hint, an entity (by the hint's type first), a constant, a command, a
    /// game variable, a type character or a script id, else -1.
    fn compile_identifier(&self, name: &str, out: &mut CompiledScript, type_hint: Option<Type>)
        requires
            targets_within(old(out).instructions@),
        ensures
            grown(old(out), final(out)),
            final(out).local_table == old(out).local_table,
            ident_emitted(
                self.registry,
                identifier_code(self.registry, name@, type_hint),
                old(out).instructions@,
                final(out).instructions@,
            ),
    {
        let ghost start = *out;
        let v = chars_of(name);
        if let Some(i) = find_char(&v, ':') {
            assert(i < v.len());
            let iface = string_from_range(&v, 0, i);
            let comp = string_from_range(&v, i + 1, v.len());
            if let Some(packed) = self.registry.lookup_component(iface.as_str(), comp.as_str()) {
                emit(out, Instruction::push_int(packed));
                return;
            }
        }
        if let Some(hint) = type_hint {
            let trigger: Option<&'static str> = match hint {
                Type::Proc => Some("proc"),
                Type::Label => Some("label"),
                Type::Queue => Some("queue"),
                Type::SoftTimer => Some("softtimer"),
                Type::Timer => Some("timer"),
                Type::Walktrigger => Some("walktrigger"),
                _ => None,
            };
            if let Some(t) = trigger {
                emit(out, Instruction::push_int(resolve_script_id(&self.registry, t, name)));
                return;
            }
            if let Some(id) = self.registry.lookup_entity_id_typed(name, hint) {
                emit(out, Instruction::push_int(id));
                return;
            }
        }
        if let Some(e) = self.registry.lookup_entity_id(name) {
            let skip = e.const_type == Type::Param && type_hint != Some(Type::Param)
                && self.registry.type_char(name).is_some();
            if !skip {
                emit(out, Instruction::push_int(e.id));
                return;
            }
        }
        if let Some(sym) = self.registry.lookup_constant(name) {
            if let SymbolKind::Constant { int_value, string_value, .. } = &sym.kind {
                if let Some(iv) = int_value {
                    emit(out, Instruction::push_int(*iv));
                } else if let Some(sv) = string_value {
                    emit(out, Instruction::push_string(sv.clone()));
                    proof {
                        assert(out.instructions@.drop_last() =~= start.instructions@);
                    }
                }
            }
            return;
        }
        let (lookup, secondary) = strip_dot(name);
        if self.registry.lookup_command(lookup.as_str()).is_some() {
            self.emit_command(lookup.as_str(), name, secondary, false, out);
            return;
        }
        if let Some(sym) = self.registry.lookup_game_var(name) {
            if let SymbolKind::GameVar { var_id, category, .. } = &sym.kind {
                emit(out, Instruction::new(game_var_opcode(category.as_str(), true), Operand::Int(*var_id)));
                return;
            }
        }
        if let Some(tc) = self.registry.type_char(name) {
            emit(out, Instruction::push_int(tc));
            return;
        }
        let id = match self.registry.proc_script_id(name) {
            Some(id) => Some(id),
            None => self.registry.script_id(name),
        };
        match id {
            Some(id) => emit(out, Instruction::push_int(id)),
            None => emit(out, Instruction::push_int(-1)),
        }
    }
}

/// Replaces the operand of the switch instruction at `index` with its table.
fn set_switch_table(out: &mut CompiledScript, index: usize, table: Vec<(i32, usize)>)
    requires
        targets_within(old(out).instructions@),
        index < old(out).instructions@.len(),
        forall|j: int| 0 <= j < table@.len() ==> (#[trigger] table@[j]).1 <= old(out).instructions@.len(),
    ensures
        reshaped(old(out), final(out)),
        final(out).instructions@ == old(out).instructions@.update(
            index as int,
            Instruction { opcode: Opcode::Switch, operand: Operand::SwitchTable(table), line: None },
        ),
        final(out).local_table == old(out).local_table,
{
    let ins = Instruction::new(Opcode::Switch, Operand::SwitchTable(table));
    out.instructions.set(index, ins);
}

/// The positions are all instruction indices of `out`.
pub open spec fn positions_in(p: Seq<usize>, n: int) -> bool {
    forall|i: int| 0 <= i < p.len() ==> #[trigger] p[i] < n
}

fn append_positions(a: &mut Vec<usize>, b: Vec<usize>, n: Ghost<int>)
    requires
        positions_in(old(a)@, n@),
        positions_in(b@, n@),
    ensures
        positions_in(final(a)@, n@),
        final(a)@ == old(a)@ + b@,
{
    let mut b = b;
    a.append(&mut b);
}

/// How a statement ranks among statements at the same place in the tree: an
/// `if` above its own else-if chain, a switch above its cases.
pub open spec fn stmt_rank(s: Statement) -> nat {
    match s {
        Statement::If { else_if, .. } => else_if@.len() + 2,
        Statement::Switch { .. } => 2,
        _ => 0,
    }
}

impl Compiler {
    /// Emits a condition as a branch to the body when true followed by a
    /// branch away when false; the positions of the true and the false
    /// branches, for the caller to patch.
    fn compile_condition(&self, condition: &Expr, out: &mut CompiledScript, locals: &SymbolTable) -> (r: (Vec<usize>, Vec<usize>))
        requires
            targets_within(old(out).instructions@),
        ensures
            grown(old(out), final(out)),
            final(out).local_table == old(out).local_table,
            positions_in(r.0@, final(out).instructions@.len() as int),
            positions_in(r.1@, final(out).instructions@.len() as int),
            r.0@.len() > 0,
            r.1@.len() > 0,
            ({
                let ins = final(out).instructions@;
                let n = ins.len() as int;
                match *condition {
                    Expr::BinaryOp { op, .. } => {
                        &&& n >= 2
                        &&& r.0@ == seq![(n - 2) as usize]
                        &&& r.1@ == seq![(n - 1) as usize]
                        &&& ins[n - 2] == pending_branch(comparison_branch(op))
                        &&& ins[n - 1] == pending_branch(Opcode::Branch)
                    },
                    Expr::LogicalOp { .. } => true,
                    _ => {
                        &&& n >= 3
                        &&& r.0@ == seq![(n - 2) as usize]
                        &&& r.1@ == seq![(n - 1) as usize]
                        &&& ins[n - 3] == push_int_ins(0)
                        &&& ins[n - 2] == pending_branch(Opcode::BranchNot)
                        &&& ins[n - 1] == pending_branch(Opcode::Branch)
                    },
                }
            }),
            forall|i: int| 0 <= i < r.0@.len() ==> #[trigger] r.0@[i] >= old(out).instructions@.len(),
            forall|i: int| 0 <= i < r.1@.len() ==> #[trigger] r.1@[i] >= old(out).instructions@.len(),
        decreases condition, 3nat,
    {
        match condition {
            Expr::BinaryOp { op, lhs, rhs } => {
                let lhs_hint = self.infer_type(lhs, locals);
                self.compile_expr(lhs, out, locals);
                self.compile_expr_hinted(rhs, out, locals, lhs_hint);
                let opcode = match op {
                    BinOp::Eq => Opcode::BranchEquals,
                    BinOp::NotEq => Opcode::BranchNot,
                    BinOp::Lt => Opcode::BranchLessThan,
                    BinOp::Gt => Opcode::BranchGreaterThan,
                    BinOp::LtEq => Opcode::BranchLessThanOrEquals,
                    BinOp::GtEq => Opcode::BranchGreaterThanOrEquals,
                    _ => Opcode::BranchNot,
                };
                let true_pos = out.len();
                emit(out, Instruction::new(opcode, Operand::JumpTarget(0)));
                let false_pos = out.len();
                emit(out, Instruction::new(Opcode::Branch, Operand::JumpTarget(0)));
                (vec![true_pos], vec![false_pos])
            },
            Expr::LogicalOp { op, lhs, rhs, rhs_line } => {
                let (lhs_true, lhs_false) = self.compile_condition(lhs, out, locals);
                let rhs_start = out.len();
                match op {
                    LogicOp::And => {
                        patch_all(out, &lhs_true, rhs_start);
                        emit_line(*rhs_line, out);
                        let (rhs_true, rhs_false) = self.compile_condition(rhs, out, locals);
                        let mut false_branches = lhs_false;
                        append_positions(&mut false_branches, rhs_false, Ghost(out.instructions@.len() as int));
                        (rhs_true, false_branches)
                    },
                    LogicOp::Or => {
                        patch_all(out, &lhs_false, rhs_start);
                        emit_line(*rhs_line, out);
                        let (rhs_true, rhs_false) = self.compile_condition(rhs, out, locals);
                        let mut true_branches = lhs_true;
                        append_positions(&mut true_branches, rhs_true, Ghost(out.instructions@.len() as int));
                        (true_branches, rhs_false)
                    },
                }
            },
            _ => {
                self.compile_expr(condition, out, locals);
                emit(out, Instruction::push_int(0));
                let true_pos = out.len();
                emit(out, Instruction::new(Opcode::BranchNot, Operand::JumpTarget(0)));
                let false_pos = out.len();
                emit(out, Instruction::new(Opcode::Branch, Operand::JumpTarget(0)));
                (vec![true_pos], vec![false_pos])
            },
        }
    }

    /// Emits the store of the value on the stack into an assignment target;
    /// for several targets, the last value first.
    fn compile_store(&self, target: &Expr, out: &mut CompiledScript, locals: &SymbolTable)
        requires
            targets_within(old(out).instructions@),
        ensures
            grown(old(out), final(out)),
            final(out).local_table == old(out).local_table,
            match *target {
                Expr::LocalVar(name, _) => final(out).instructions@ == old(out).instructions@ + local_store(
                    *locals,
                    name@,
                ),
                Expr::GameVar(name, _) => final(out).instructions@ == old(out).instructions@ + var_store(
                    self.registry,
                    name@,
                ),
                Expr::ArrayAccess { name, .. } => scoped_lookup(*locals, name@) is Some
                    ==> final(out).instructions@.last() == (Instruction {
                    opcode: Opcode::PopArrayInt,
                    operand: Operand::Int(array_slot(*locals, name@)),
                    line: None,
                }),
                Expr::MultiAssign(..) => true,
                _ => final(out).instructions@ == old(out).instructions@,
            },
        decreases target,
    {
        let ghost s0 = *out;
        match target {
            Expr::LocalVar(name, _) => {
                if let Some(sym) = locals.lookup(name.as_str()) {
                    let (slot, base) = match &sym.kind {
                        SymbolKind::LocalVar { var_type, slot, .. } => (*slot, var_type.base_type()),
                        SymbolKind::ScriptParam { param_type, slot } => (*slot, param_type.base_type()),
                        _ => (0, BaseVarType::Integer),
                    };
                    let opcode = match base {
                        BaseVarType::Integer => Opcode::PopIntLocal,
                        BaseVarType::String => Opcode::PopStringLocal,
                        BaseVarType::Long => Opcode::PopLongLocal,
                    };
                    emit(out, Instruction::new(opcode, Operand::Int(slot)));
                }
                proof {
                    assert(out.instructions@ =~= s0.instructions@ + local_store(*locals, name@));
                }
            },
            Expr::GameVar(name, _) => {
                let (lookup, secondary) = strip_dot(name.as_str());
                if let Some(sym) = self.registry.lookup_game_var(lookup.as_str()) {
                    if let SymbolKind::GameVar { var_id, category, .. } = &sym.kind {
                        let opcode = game_var_opcode(category.as_str(), false);
                        let encoded = if secondary { (1i32 << 16u32) | *var_id } else { *var_id };
                        emit(out, Instruction::new(opcode, Operand::Int(encoded)));
                    }
                }
                proof {
                    assert(out.instructions@ =~= s0.instructions@ + var_store(self.registry, name@));
                }
            },
            Expr::ArrayAccess { name, index } => {
                self.compile_expr(index, out, locals);
                if let Some(sym) = locals.lookup(name.as_str()) {
                    let slot = match &sym.kind {
                        SymbolKind::LocalVar { slot, .. } => *slot,
                        _ => 0,
                    };
                    emit(out, Instruction::new(Opcode::PopArrayInt, Operand::Int(slot)));
                }
            },
            Expr::MultiAssign(targets, target_lines) => {
                let ghost start = *out;
                proof {
                    assert forall|k: int| 0 <= k < targets@.len() implies decreases_to!(*target => #[trigger] targets@[k]) by {
                        assert(decreases_to!(*target => *targets));
                        assert(decreases_to!(*targets => targets@));
                        assert(decreases_to!(targets@ => targets@[k]));
                    }
                }
                let mut i = targets.len();
                while i > 0
                    invariant
                        i <= targets@.len(),
                        grown(&start, out),
                        out.local_table == start.local_table,
                        forall|k: int| 0 <= k < targets@.len() ==> decreases_to!(*target => #[trigger] targets@[k]),
                    decreases i,
                {
                    i -= 1;
                    let tl = line_at(target_lines, i);
                    if tl > 0 {
                        emit_line(tl, out);
                    }
                    proof {
                        assert(decreases_to!(*target => targets@[i as int]));
                    }
                    self.compile_store(&targets[i], out, locals);
                }
            },
            _ => {},
        }
    }

    /// How many leading arguments of a command call are pushed before the
    /// statement's line: string constants, and `null` where the parameter is
    /// a string.
    fn count_pre_stmt_string_args(&self, name: &str, args: &Vec<Expr>) -> (n: usize)
        ensures
            n <= args@.len(),
            forall|i: int|
                0 <= i < n ==> pre_stmt_arg(
                    self.registry,
                    command_params_of(self.registry, dot_stripped(name@)),
                    #[trigger] args@[i],
                    i,
                ),
            n < args@.len() ==> !pre_stmt_arg(
                self.registry,
                command_params_of(self.registry, dot_stripped(name@)),
                args@[n as int],
                n as int,
            ),
    {
        let (lookup, _) = strip_dot(name);
        let param_types = self.command_param_types(lookup.as_str());
        let mut count: usize = 0;
        while count < args.len()
            invariant
                count <= args@.len(),
                param_types@ == command_params_of(self.registry, dot_stripped(name@)),
                forall|i: int|
                    0 <= i < count ==> pre_stmt_arg(self.registry, param_types@, #[trigger] args@[i], i),
            ensures
                count <= args@.len(),
                forall|i: int|
                    0 <= i < count ==> pre_stmt_arg(self.registry, param_types@, #[trigger] args@[i], i),
                count < args@.len() ==> !pre_stmt_arg(self.registry, param_types@, args@[count as int], count as int),
            decreases args@.len() - count,
        {
            let is_string_param = count < param_types.len() && param_types[count].base_type() == BaseVarType::String;
            match &args[count] {
                Expr::ConstantVar(cname, _) => {
                    let is_string_const = match self.registry.lookup_constant(cname.as_str()) {
                        Some(sym) => match &sym.kind {
                            SymbolKind::Constant { string_value, .. } => string_value.is_some(),
                            _ => false,
                        },
                        None => false,
                    };
                    if !is_string_const {
                        break;
                    }
                },
                Expr::NullLiteral => {
                    if !is_string_param {
                        break;
                    }
                },
                _ => {
                    break;
                },
            }
            count += 1;
        }
        count
    }

    /// Emits the pops that discard the values of a call whose results go unused.
    fn emit_discards(&self, expr: &Expr, out: &mut CompiledScript)
        requires
            targets_within(old(out).instructions@),
        ensures
            grown(old(out), final(out)),
            final(out).instructions@ == old(out).instructions@ + discard_code(call_result_types(self.registry, *expr)),
            final(out).local_table == old(out).local_table,
    {
        let ghost s0 = *out;
        let sym = match expr {
            Expr::ProcCall { name, .. } | Expr::JumpCall { name, .. } => self.registry.lookup_script(name.as_str()),
            Expr::CommandCall { name, .. } => {
                let (lookup, _) = strip_dot(name.as_str());
                self.registry.lookup_command(lookup.as_str())
            },
            _ => None,
        };
        if let Some(sym) = sym {
            let types = match &sym.kind {
                SymbolKind::Script { return_types, .. } => return_types,
                SymbolKind::Command { return_types, .. } => return_types,
                _ => {
                    proof {
                        assert(discard_code(call_result_types(self.registry, *expr)) =~= Seq::<Instruction>::empty());
                        assert(out.instructions@ =~= s0.instructions@ + Seq::<Instruction>::empty());
                    }
                    return;
                },
            };
            let ghost start = *out;
            proof {
                assert(types@ == call_result_types(self.registry, *expr));
                assert(out.instructions@ =~= start.instructions@ + discard_code(types@.take(0)));
            }
            let mut i: usize = 0;
            while i < types.len()
                invariant
                    i <= types@.len(),
                    grown(&start, out),
                    out.local_table == start.local_table,
                    out.instructions@ == start.instructions@ + discard_code(types@.take(i as int)),
                decreases types@.len() - i,
            {
                let op = match types[i].base_type() {
                    BaseVarType::Integer => Opcode::PopIntDiscard,
                    BaseVarType::String => Opcode::PopStringDiscard,
                    BaseVarType::Long => Opcode::PopLongDiscard,
                };
                emit(out, Instruction::simple(op));
                proof {
                    assert(discard_code(types@.take(i + 1)) =~= discard_code(types@.take(i as int)).push(
                        (Instruction { opcode: op, operand: Operand::NoValue, line: None })));
                    assert(out.instructions@ =~= start.instructions@ + discard_code(types@.take(i + 1)));
                }
                i += 1;
            }
            proof {
                assert(types@.take(types@.len() as int) =~= types@);
            }
        } else {
            proof {
                assert(discard_code(call_result_types(self.registry, *expr)) =~= Seq::<Instruction>::empty());
                assert(out.instructions@ =~= s0.instructions@ + Seq::<Instruction>::empty());
            }
        }
    }

    /// The integer values a case label stands for.
    fn case_values(&self, values: &Vec<Expr>, case_hint: Option<Type>) -> (r: Vec<i32>)
        ensures
            r@ == case_value_list(self.registry, values@, case_hint),
    {
        let mut out: Vec<i32> = Vec::new();
        let mut i: usize = 0;
        proof {
            assert(values@.take(0) =~= Seq::<Expr>::empty());
        }
        while i < values.len()
            invariant
                i <= values@.len(),
                out@ == case_value_list(self.registry, values@.take(i as int), case_hint),
            decreases values@.len() - i,
        {
            let ghost before = out@;
            proof {
                assert(values@.take(i + 1).drop_last() =~= values@.take(i as int));
                assert(values@.take(i + 1).last() == values@[i as int]);
            }
            match &values[i] {
                Expr::IntLiteral(n) => out.push(*n),
                Expr::CoordLiteral(v) => out.push(*v),
                Expr::ConstantVar(cname, _) => {
                    if let Some(sym) = self.registry.lookup_constant(cname.as_str()) {
                        if let SymbolKind::Constant { int_value: Some(v), .. } = &sym.kind {
                            out.push(*v);
                        }
                    }
                },
                Expr::Identifier(ident) => {
                    let mut resolved = false;
                    let v = chars_of(ident.as_str());
                    if let Some(k) = find_char(&v, ':') {
                        assert(k < v.len());
                        let iface = string_from_range(&v, 0, k);
                        let comp = string_from_range(&v, k + 1, v.len());
                        if let Some(packed) = self.registry.lookup_component(iface.as_str(), comp.as_str()) {
                            out.push(packed);
                            resolved = true;
                        }
                    }
                    if !resolved {
                        if let Some(hint) = case_hint {
                            if let Some(id) = self.registry.lookup_entity_id_typed(ident.as_str(), hint) {
                                out.push(id);
                                resolved = true;
                            }
                        }
                    }
                    if !resolved {
                        match self.registry.entity_entry(ident.as_str()) {
                            Some(e) => {
                                if let Some(r) = e.primary {
                                    out.push(r.id);
                                }
                            },
                            None => {
                                if let Some(sym) = self.registry.lookup_constant(ident.as_str()) {
                                    if let SymbolKind::Constant { int_value: Some(v), .. } = &sym.kind {
                                        out.push(*v);
                                    }
                                }
                            },
                        }
                    }
                },
                Expr::BinaryOp { op: BinOp::Add, lhs, rhs } => {
                    if let (Expr::Identifier(l), Expr::Identifier(r)) = (&**lhs, &**rhs) {
                        let mut combined = l.clone();
                        crate::strings::push_char(&mut combined, '+');
                        push_str(&mut combined, r.as_str());
                        match case_hint {
                            Some(hint) => {
                                if let Some(id) = self.registry.lookup_entity_id_typed(combined.as_str(), hint) {
                                    out.push(id);
                                }
                            },
                            None => {
                                if let Some(e) = self.registry.lookup_entity_id(combined.as_str()) {
                                    out.push(e.id);
                                }
                            },
                        }
                    }
                },
                _ => {},
            }
            proof {
                assert(out@ == (match case_value(self.registry, values@[i as int], case_hint) {
                    Some(v) => before.push(v),
                    None => before,
                }));
            }
            i += 1;
        }
        proof {
            assert(values@.take(values@.len() as int) =~= values@);
        }
        out
    }
}

impl Compiler {
    /// Compiles each statement of `stmts` in order.
    fn compile_block(&mut self, owner: &Statement, stmts: &Vec<Statement>, out: &mut CompiledScript, locals: &mut SymbolTable)
        requires
            targets_within(old(out).instructions@),
            forall|i: int| 0 <= i < stmts@.len() ==> decreases_to!(*owner => #[trigger] stmts@[i]),
        ensures
            grown(old(out), final(out)),
            final(self).registry == old(self).registry,
            final(self).current_return_types == old(self).current_return_types,
            block_code(
                old(self).registry,
                old(self).current_return_types@,
                stmts@,
                old(out).instructions@,
                final(out).instructions@,
                old(out).local_table@,
                final(out).local_table@,
            ),
        decreases owner, 0nat, 0nat,
    {
        let ghost start = *out;
        let mut i: usize = 0;
        proof {
            assert(stmts@.take(0).len() == 0);
        }
        while i < stmts.len()
            invariant
                grown(&start, out),
                self.registry == old(self).registry,
                self.current_return_types == old(self).current_return_types,
                forall|k: int| 0 <= k < stmts@.len() ==> decreases_to!(*owner => #[trigger] stmts@[k]),
                i <= stmts@.len(),
                block_code(
                    self.registry,
                    self.current_return_types@,
                    stmts@.take(i as int),
                    start.instructions@,
                    out.instructions@,
                    start.local_table@,
                    out.local_table@,
                ),
            decreases stmts@.len() - i,
        {
            proof {
                assert(decreases_to!(*owner => stmts@[i as int]));
            }
            let ghost m = out.instructions@;
            let ghost ltm = out.local_table@;
            let ghost scope = *locals;
            self.compile_statement(&stmts[i], out, locals);
            proof {
                assert(stmts@.take(i + 1).drop_last() =~= stmts@.take(i as int));
                assert(stmts@.take(i + 1).last() == stmts@[i as int]);
                assert(block_split(m, ltm, scope));
            }
            i += 1;
        }
        proof {
            assert(stmts@.take(i as int) =~= stmts@);
        }
    }

    /// Compiles one statement.
    fn compile_statement(&mut self, stmt: &Statement, out: &mut CompiledScript, locals: &mut SymbolTable)
        requires
            targets_within(old(out).instructions@),
        ensures
            grown(old(out), final(out)),
            final(self).registry == old(self).registry,
            final(self).current_return_types == old(self).current_return_types,
            statement_shape(
                old(self).registry,
                old(self).current_return_types@,
                *old(locals),
                *stmt,
                old(out).instructions@,
                final(out).instructions@,
                old(out).local_table@,
                final(out).local_table@,
            ),
        decreases stmt, 2nat, 0nat,
    {
        let ghost s0 = *out;
        match stmt {
            Statement::VarDeclaration { line, .. } | Statement::ArrayDeclaration { line, .. }
            | Statement::Assignment { line, .. } | Statement::If { line, .. } | Statement::While { line, .. }
            | Statement::Switch { line, .. } | Statement::Return { line, .. } | Statement::Expression { line, .. }
            | Statement::OrphanCase { line, .. } => {
                self.current_stmt_line = *line;
            },
            Statement::Empty => {},
        }
        match stmt {
            Statement::VarDeclaration { var_type, name, value, line } => {
                let slot = out.local_table.push_local(name.clone(), *var_type, false);
                locals.define(name.clone(), SymbolKind::LocalVar { var_type: *var_type, slot, is_array: false });
                match value {
                    Some(init) => {
                        emit_line(*line, out);
                        self.compile_expr_hinted(init, out, locals, Some(*var_type));
                        proof {
                            assert(decl_split(*locals, out.instructions@));
                        }
                        emit_line(*line, out);
                    },
                    None => {
                        match var_type.base_type() {
                            BaseVarType::Integer => emit(out, Instruction::push_int(var_type.default_int_value())),
                            BaseVarType::String => emit(out, Instruction::push_string(String::new())),
                            BaseVarType::Long => emit(out, Instruction::push_long(0)),
                        }
                        emit_line(*line, out);
                    },
                }
                let pop = match var_type.base_type() {
                    BaseVarType::Integer => Opcode::PopIntLocal,
                    BaseVarType::String => Opcode::PopStringLocal,
                    BaseVarType::Long => Opcode::PopLongLocal,
                };
                emit(out, Instruction::new(pop, Operand::Int(slot)));
                proof {
                    assert(out.local_table@.drop_last() =~= s0.local_table@);
                }
            },
            Statement::ArrayDeclaration { element_type, name, size, line } => {
                emit_line(*line, out);
                let slot = out.local_table.push_local(name.clone(), *element_type, true);
                locals.define(name.clone(), SymbolKind::LocalVar { var_type: *element_type, slot, is_array: true });
                self.compile_expr(size, out, locals);
                emit(out, Instruction::pop_int_local(slot));
                let type_char: u8 = match element_type.base_type() {
                    BaseVarType::Integer => 105,
                    BaseVarType::String => 115,
                    BaseVarType::Long => 108,
                };
                emit(out, Instruction::new(Opcode::DefineArray, Operand::ArrayDef(slot, type_char)));
                proof {
                    assert(out.local_table@.drop_last() =~= s0.local_table@);
                }
            },
            Statement::Assignment { target, value, line } => {
                emit_line(*line, out);
                let hint = self.infer_target_type(target, locals);
                self.compile_expr_hinted(value, out, locals, hint);
                let ghost m = out.instructions@;
                self.compile_store(target, out, locals);
                proof {
                    assert(code_split(m, out.instructions@));
                }
            },
            Statement::If { line, .. } => {
                emit_line(*line, out);
                self.compile_if(stmt, 0, out, locals);
            },
            Statement::While { condition, body, line } => {
                emit_line(*line, out);
                let loop_start = out.len();
                let (true_positions, false_positions) = self.compile_condition(condition, out, locals);
                let body_start = out.len();
                patch_all(out, &true_positions, body_start);
                proof {
                    if !(*condition is LogicalOp) {
                        let c = body_start as int;
                        assert(true_positions@[0] == (c - 2) as usize);
                        assert(true_positions@.contains((c - 2) as usize));
                        assert(!true_positions@.contains((c - 1) as usize));
                        assert(out.instructions@[c - 2] == jump_to(condition_branch(*condition), c));
                        assert(out.instructions@[c - 1] == pending_branch(Opcode::Branch));
                    }
                }
                let ghost after_true = out.instructions@;
                proof {
                    assert forall|k: int| 0 <= k < body@.len() implies decreases_to!(*stmt => #[trigger] body@[k]) by {
                        assert(decreases_to!(*stmt => *body));
                        assert(decreases_to!(*body => body@));
                        assert(decreases_to!(body@ => body@[k]));
                    }
                }
                let ghost lt_body = out.local_table@;
                self.compile_block(stmt, body, out, locals);
                let ghost after_body = out.instructions@;
                let ghost lt_after = out.local_table@;
                proof {
                    assert(part_split(after_true, after_body, lt_body, lt_after));
                }
                emit(out, Instruction::new(Opcode::Branch, Operand::JumpTarget(loop_start)));
                let exit_pos = out.len();
                let ghost before_exit = out.instructions@;
                proof {
                    if !(*condition is LogicalOp) {
                        assert(before_exit[body_start - 2] == after_true[body_start - 2]);
                        assert(before_exit[body_start - 1] == after_true[body_start - 1]);
                    }
                }
                patch_all(out, &false_positions, exit_pos);
                proof {
                    let ins = out.instructions@;
                    let end = exit_pos as int;
                    assert(!false_positions@.contains((end - 1) as usize)) by {
                        if false_positions@.contains((end - 1) as usize) {
                            let j = choose|j: int| 0 <= j < false_positions@.len() && false_positions@[j] == (end - 1) as usize;
                            assert(false_positions@[j] < body_start);
                        }
                    }
                    assert(ins.last() == ins[end - 1]);
                    assert(ins.last() == jump_to(Opcode::Branch, loop_start as int));
                    if !(*condition is LogicalOp) {
                        let c = body_start as int;
                        assert(false_positions@[0] == (c - 1) as usize);
                        assert(false_positions@.contains((c - 1) as usize));
                        assert(!false_positions@.contains((c - 2) as usize));
                        assert(ins[c - 2] == jump_to(condition_branch(*condition), c));
                        assert(ins[c - 1] == jump_to(Opcode::Branch, end));
                    }
                    let c = body_start as int;
                    assert(true_positions@.len() > 0 && true_positions@[0] >= loop_start);
                    assert forall|i: int| c <= i < end - 1 implies #[trigger] ins[i] == after_body[i] by {
                        assert(before_exit[i] == after_body[i]);
                        if false_positions@.contains(i as usize) {
                            let j = choose|j: int| 0 <= j < false_positions@.len() && false_positions@[j] == i as usize;
                            assert(false_positions@[j] < body_start);
                        }
                    }
                    assert(after_body.subrange(c, end - 1) =~= ins.subrange(c, end - 1));
                    assert(part_code(self.registry, self.current_return_types@, body@, ins, c, end - 1));
                    assert(if_parts(c, end));
                }
            },
            Statement::Switch { line, .. } => {
                emit_line(*line, out);
                self.compile_switch(stmt, out, locals);
            },
            Statement::Return { values, line } => {
                emit_line(*line, out);
                let ghost start = *out;
                let mut i: usize = 0;
                proof {
                    assert(values@.take(0) =~= Seq::<Expr>::empty());
                }
                while i < values.len()
                    invariant
                        grown(&start, out),
                        self.registry == old(self).registry,
                        self.current_return_types == old(self).current_return_types,
                        i <= values@.len(),
                        values_code(
                            self.registry,
                            *locals,
                            values@.take(i as int),
                            self.current_return_types@,
                            start.instructions@,
                            out.instructions@,
                        ),
                    decreases values@.len() - i,
                {
                    let hint = hint_at(&self.current_return_types, i);
                    let ghost m = out.instructions@;
                    self.compile_expr_hinted(&values[i], out, locals, hint);
                    proof {
                        assert(values@.take(i + 1).drop_last() =~= values@.take(i as int));
                        assert(values@.take(i + 1).last() == values@[i as int]);
                        assert(code_split(m, out.instructions@));
                    }
                    i += 1;
                }
                proof {
                    assert(values@.take(i as int) =~= values@);
                }
                let ghost before_ret = out.instructions@;
                emit(out, Instruction::simple(Opcode::Return));
                proof {
                    assert(out.instructions@.drop_last() =~= before_ret);
                }
            },
            Statement::Expression { expr, line } => {
                let mut offset: usize = 0;
                if let Expr::CommandCall { name, args, .. } = expr {
                    let n = self.count_pre_stmt_string_args(name.as_str(), args);
                    if n > 0 {
                        let first_is_const = match &args[0] {
                            Expr::ConstantVar(..) => true,
                            _ => false,
                        };
                        if first_is_const && *line > 1 {
                            emit_line(*line - 1, out);
                        }
                        let (lookup, _) = strip_dot(name.as_str());
                        let ptypes = self.command_param_types(lookup.as_str());
                        let ghost start = *out;
                        let mut j: usize = 0;
                        while j < n
                            invariant
                                n <= args@.len(),
                                grown(&start, out),
                                self.registry == old(self).registry,
                                self.current_return_types == old(self).current_return_types,
                            decreases n - j,
                        {
                            let hint = hint_at(&ptypes, j);
                            self.compile_expr_hinted(&args[j], out, locals, hint);
                            j += 1;
                        }
                    }
                    offset = n;
                }
                emit_line(*line, out);
                if offset > 0 {
                    if let Expr::CommandCall { name, args, arg_lines, .. } = expr {
                        self.compile_command_call_args_from(expr, name.as_str(), args, arg_lines, offset, out, locals);
                    }
                } else {
                    self.compile_expr(expr, out, locals);
                }
                let ghost m = out.instructions@;
                self.emit_discards(expr, out);
                proof {
                    assert(code_split(m, out.instructions@));
                }
                proof {
                    let d = discard_code(call_result_types(self.registry, *expr));
                    assert(out.instructions@.subrange(out.instructions@.len() - d.len(), out.instructions@.len() as int) =~= d);
                }
            },
            Statement::OrphanCase { .. } => {},
            Statement::Empty => {},
        }
    }

    /// Emits a command call's arguments from position `start` on (the ones
    /// before it were pushed already) and the command.
    fn compile_command_call_args_from(
        &self,
        call: &Expr,
        name: &str,
        args: &Vec<Expr>,
        arg_lines: &Vec<usize>,
        start: usize,
        out: &mut CompiledScript,
        locals: &SymbolTable,
    )
        requires
            targets_within(old(out).instructions@),
            *call matches Expr::CommandCall { args: a, .. } && a@ == args@,
        ensures
            grown(old(out), final(out)),
            final(out).local_table == old(out).local_table,
    {
        let (lookup, secondary) = strip_dot(name);
        let param_types = self.command_param_types(lookup.as_str());
        let script_trigger = command_script_trigger(lookup.as_str());
        let variadic = command_variadic_info(lookup.as_str());
        proof {
            assert forall|i: int| 0 <= i < args@.len() implies decreases_to!(*call => #[trigger] args@[i]) by {
                if let Expr::CommandCall { args: a, .. } = *call {
                    assert(decreases_to!(*call => a));
                    assert(decreases_to!(a => a@));
                    assert(decreases_to!(a@ => a@[i]));
                }
            }
        }
        self.compile_call_args(call, args, arg_lines, start, &param_types, script_trigger, false, out, locals);
        if let Some(fixed) = variadic {
            let desc = self.type_descriptor(args, fixed, locals);
            emit(out, Instruction::push_string(desc));
        }
        self.emit_command(lookup.as_str(), name, secondary, false, out);
    }

    /// Compiles the `if` statement `stmt` from link `k` of its else-if chain
    /// (0 is the `if` itself): the condition, the body, then the rest of the
    /// chain nested as an else branch, or the plain else body.
    #[verifier::spinoff_prover]
    #[verifier::rlimit(100)]
    fn compile_if(&mut self, stmt: &Statement, k: usize, out: &mut CompiledScript, locals: &mut SymbolTable)
        requires
            targets_within(old(out).instructions@),
        ensures
            grown(old(out), final(out)),
            final(self).registry == old(self).registry,
            final(self).current_return_types == old(self).current_return_types,
            (stmt matches Statement::If { else_if, .. } && k <= else_if@.len()) ==> if_code(
                old(self).registry,
                old(self).current_return_types@,
                *stmt,
                k as int,
                final(out).instructions@,
                old(out).instructions@.len() as int,
            ),
        decreases stmt, 1nat, (if let Statement::If { else_if, .. } = stmt { else_if@.len() + 1 - k } else { 0int }) as nat,
    {
        if let Statement::If { condition, body, else_if, else_body, .. } = stmt {
            if k > else_if.len() {
                return;
            }
            proof {
                assert forall|i: int| 0 <= i < body@.len() implies decreases_to!(*stmt => #[trigger] body@[i]) by {
                    assert(decreases_to!(*stmt => *body));
                    assert(decreases_to!(*body => body@));
                    assert(decreases_to!(body@ => body@[i]));
                }
            }
            let mut end_jumps: Vec<usize> = Vec::new();
            let (true_positions, false_positions) = if k == 0 {
                self.compile_condition(condition, out, locals)
            } else {
                self.compile_condition(&else_if[k - 1].0, out, locals)
            };
            let ghost n0 = old(out).instructions@.len() as int;
            let ghost cond = if_link_condition(*stmt, k as int);
            let body_start = out.len();
            patch_all(out, &true_positions, body_start);
            proof {
                if !(cond is LogicalOp) {
                    let c = body_start as int;
                    assert(true_positions@ == seq![(c - 2) as usize]);
                    assert(true_positions@[0] == (c - 2) as usize);
                    assert(true_positions@.contains((c - 2) as usize));
                    assert(!true_positions@.contains((c - 1) as usize));
                    assert(out.instructions@[c - 2] == jump_to(condition_branch(cond), c));
                    assert(out.instructions@[c - 1] == pending_branch(Opcode::Branch));
                }
            }
            let ghost after_true = out.instructions@;
            let ghost lt_then = out.local_table@;
            if k == 0 {
                self.compile_block(stmt, body, out, locals);
            } else {
                let link_body = &else_if[k - 1].1;
                proof {
                    assert forall|i: int| 0 <= i < link_body@.len() implies decreases_to!(*stmt => #[trigger] link_body@[i]) by {
                        assert(decreases_to!(*stmt => *else_if));
                        assert(decreases_to!(*else_if => else_if@));
                        assert(decreases_to!(else_if@ => else_if@[k - 1]));
                        assert(decreases_to!(else_if@[k - 1] => else_if@[k - 1].1));
                        assert(decreases_to!(else_if@[k - 1].1 => else_if@[k - 1].1@));
                        assert(decreases_to!(else_if@[k - 1].1@ => else_if@[k - 1].1@[i]));
                    }
                }
                self.compile_block(stmt, link_body, out, locals);
            }
            let ghost after_then = out.instructions@;
            let ghost lt_after_then = out.local_table@;
            proof {
                assert(block_code(self.registry, self.current_return_types@, if_link_body(*stmt, k as int), after_true, after_then, lt_then, lt_after_then));
                assert(part_split(after_true, after_then, lt_then, lt_after_then));
            }
            let end_jump_pos = out.len();
            emit(out, Instruction::new(Opcode::Branch, Operand::JumpTarget(0)));
            end_jumps.push(end_jump_pos);
            let else_start = out.len();
            patch_all(out, &false_positions, else_start);
            proof {
                if !(cond is LogicalOp) {
                    let c = body_start as int;
                    assert(false_positions@ == seq![(c - 1) as usize]);
                    assert(false_positions@[0] == (c - 1) as usize);
                    assert(false_positions@.contains((c - 1) as usize));
                    assert(!false_positions@.contains((c - 2) as usize));
                    assert(after_true[c - 2] == jump_to(condition_branch(cond), c));
                    assert(out.instructions@[c - 2] == jump_to(condition_branch(cond), c));
                    assert(out.instructions@[c - 1] == jump_to(Opcode::Branch, else_start as int));
                }
            }
            let ghost after_false = out.instructions@;
            let ghost mut after_else: Seq<Instruction> = Seq::empty();
            proof {
                assert forall|i: int| body_start <= i < end_jump_pos implies #[trigger] after_false[i] == after_then[i] by {
                    if false_positions@.contains(i as usize) {
                        let j = choose|j: int| 0 <= j < false_positions@.len() && false_positions@[j] == i as usize;
                        assert(false_positions@[j] < body_start);
                    }
                }
            }
            if k < else_if.len() {
                emit_line(else_if[k].2, out);
                self.compile_if(stmt, k + 1, out, locals);
                let wrapper = out.len();
                emit(out, Instruction::new(Opcode::Branch, Operand::JumpTarget(0)));
                end_jumps.push(wrapper);
            } else if let Some(else_stmts) = else_body {
                proof {
                    assert forall|i: int| 0 <= i < else_stmts@.len() implies decreases_to!(*stmt => #[trigger] else_stmts@[i]) by {
                        assert(decreases_to!(*stmt => *else_body));
                        assert(decreases_to!(*else_body => *else_stmts));
                        assert(decreases_to!(*else_stmts => else_stmts@));
                        assert(decreases_to!(else_stmts@ => else_stmts@[i]));
                    }
                }
                let ghost lt_else = out.local_table@;
                let ghost before_else = out.instructions@;
                self.compile_block(stmt, else_stmts, out, locals);
                proof {
                    assert(part_split(before_else, out.instructions@, lt_else, out.local_table@));
                    after_else = out.instructions@;
                }
                let p = out.len();
                emit(out, Instruction::new(Opcode::Branch, Operand::JumpTarget(0)));
                end_jumps.push(p);
            }
            let end_pos = out.len();
            let ghost before_end = out.instructions@;
            proof {
                assert(end_jumps@.len() >= 1 && end_jumps@[0] == end_jump_pos);
                assert(end_jumps@.last() == end_pos - 1);
                assert(before_end[end_pos - 1].opcode == Opcode::Branch && before_end[end_pos - 1].line is None);
                assert(before_end[end_jump_pos as int] == after_false[end_jump_pos as int]);
                if !(cond is LogicalOp) {
                    let c = body_start as int;
                    assert(before_end[c - 2] == after_false[c - 2]);
                    assert(before_end[c - 1] == after_false[c - 1]);
                    assert(forall|i: int| 0 <= i < end_jumps@.len() ==> end_jumps@[i] >= end_jump_pos);
                }
            }
            patch_all(out, &end_jumps, end_pos);
            proof {
                let ins = out.instructions@;
                let end = end_pos as int;
                assert(end_jumps@.contains((end - 1) as usize));
                assert(ins.last() == ins[end - 1]);
                assert(ins[end - 1] == retarget(before_end[end - 1], end));
                assert(ins.last() == jump_to(Opcode::Branch, end));
                if !(cond is LogicalOp) {
                    let c = body_start as int;
                    let e = else_start as int;
                    assert(end_jumps@.contains((e - 1) as usize));
                    assert(!end_jumps@.contains((c - 2) as usize));
                    assert(!end_jumps@.contains((c - 1) as usize));
                    assert(ins[c - 2] == jump_to(condition_branch(cond), c));
                    assert(ins[c - 1] == jump_to(Opcode::Branch, e));
                    assert(ins[e - 1] == jump_to(Opcode::Branch, end));
                }
                let c = body_start as int;
                let e = else_start as int;
                assert(end_jumps@.contains((e - 1) as usize));
                assert(ins[e - 1] == jump_to(Opcode::Branch, end));
                assert(true_positions@.len() > 0 && true_positions@[0] >= old(out).instructions@.len());
                assert forall|i: int| c <= i < e - 1 implies #[trigger] ins[i] == after_then[i] by {
                    assert(before_end[i] == after_false[i]);
                    if end_jumps@.contains(i as usize) {
                        let j = choose|j: int| 0 <= j < end_jumps@.len() && end_jumps@[j] == i as usize;
                        assert(end_jumps@[j] >= end_jump_pos);
                    }
                }
                assert(after_then.subrange(c, e - 1) =~= ins.subrange(c, e - 1));
                assert(part_code(self.registry, self.current_return_types@, if_link_body(*stmt, k as int), ins, c, e - 1));
                assert(if_then_code(self.registry, self.current_return_types@, *stmt, k as int, ins, c, e - 1));
                if k == else_if.len() {
                    if let Some(eb) = else_body {
                        assert(end_jumps@.contains((end - 1) as usize));
                        assert forall|i: int| e <= i < end - 1 implies #[trigger] ins[i] == after_else[i] by {
                            assert(before_end[i] == after_else[i]);
                            if end_jumps@.contains(i as usize) {
                                let j = choose|j: int| 0 <= j < end_jumps@.len() && end_jumps@[j] == i as usize;
                                assert(end_jumps@[j] == end_jump_pos || end_jumps@[j] == end - 1);
                            }
                        }
                        assert(after_else.subrange(e, end - 1) =~= ins.subrange(e, end - 1));
                        assert(part_code(self.registry, self.current_return_types@, eb@, ins, e, end - 1));
                    }
                    assert(if_else_code(self.registry, self.current_return_types@, *stmt, ins, e, end));
                }
                assert(if_parts(c, e));
            }
        }
    }
}

impl Compiler {
    /// Compiles the `switch` statement `stmt`: the value, the switch
    /// instruction, then the case bodies in source order with the default
    /// body at the place it had among them, each ending in a jump to the end;
    /// the switch table maps each case value to its body.
    #[verifier::spinoff_prover]
    #[verifier::rlimit(100)]
    fn compile_switch(&mut self, stmt: &Statement, out: &mut CompiledScript, locals: &mut SymbolTable)
        requires
            targets_within(old(out).instructions@),
        ensures
            grown(old(out), final(out)),
            final(self).registry == old(self).registry,
            final(self).current_return_types == old(self).current_return_types,
            *stmt is Switch ==> switch_code(
                old(self).registry,
                old(self).current_return_types@,
                *old(locals),
                *stmt,
                final(out).instructions@,
                old(out).instructions@.len() as int,
            ),
            !(*stmt is Switch) ==> final(out).instructions@ == old(out).instructions@,
        decreases stmt, 1nat, 0nat,
    {
        if let Statement::Switch { switch_type, expr, cases, default, default_index, .. } = stmt {
            let default_index = *default_index;
            let ghost s0 = *out;
            self.compile_expr(expr, out, locals);
            let ghost after_expr = out.instructions@;
            let case_type_word = {
                let v = chars_of(switch_type.as_str());
                if crate::strings::starts_with(switch_type.as_str(), "switch_") {
                    proof {
                        reveal_strlit("switch_");
                    }
                    string_from_range(&v, 7, v.len())
                } else {
                    to_owned_string(switch_type.as_str())
                }
            };
            let case_hint = Type::from_name(case_type_word.as_str());
            let switch_idx = out.len();
            emit(out, Instruction::new(Opcode::Switch, Operand::SwitchTable(Vec::new())));
            let mut end_jumps: Vec<usize> = Vec::new();
            let default_first = default_index == 0 && default.is_some();
            proof {
                assert forall|i: int| 0 <= i < cases@.len() implies decreases_to!(*stmt => #[trigger] cases@[i]) by {
                    assert(decreases_to!(*stmt => *cases));
                    assert(decreases_to!(*cases => cases@));
                    assert(decreases_to!(cases@ => cases@[i]));
                }
            }
            let mut branch_pos: Option<usize> = None;
            if default_first {
                if let Some(d) = default {
                    proof {
                        assert forall|i: int| 0 <= i < d@.len() implies decreases_to!(*stmt => #[trigger] d@[i]) by {
                            assert(decreases_to!(*stmt => *default));
                            assert(decreases_to!(*default => *d));
                            assert(decreases_to!(*d => d@));
                            assert(decreases_to!(d@ => d@[i]));
                        }
                    }
                    self.compile_block(stmt, d, out, locals);
                    let p = out.len();
                    emit(out, Instruction::new(Opcode::Branch, Operand::JumpTarget(0)));
                    end_jumps.push(p);
                }
            } else {
                let p = out.len();
                emit(out, Instruction::new(Opcode::Branch, Operand::JumpTarget(0)));
                branch_pos = Some(p);
            }
            let mut table: Vec<(i32, usize)> = Vec::new();
            let mut default_body_pos: usize = 0;
            let ghost start = *out;
            let ghost hint = switch_hint(switch_type@);
            let ghost mut starts: Seq<int> = Seq::empty();
            let ghost mut ends: Seq<int> = Seq::empty();
            proof {
                assert(case_hint == hint);
                assert(cases@.take(0) =~= Seq::<SwitchCase>::empty());
                assert(table@ =~= case_table(self.registry, cases@.take(0), hint, starts));
            }
            let mut i: usize = 0;
            while i < cases.len()
                invariant
                    grown(&start, out),
                    grown(&s0, &start),
                    self.registry == old(self).registry,
                    self.current_return_types == old(self).current_return_types,
                    switch_idx < start.instructions@.len(),
                    switch_idx >= s0.instructions@.len(),
                    forall|j: int| 0 <= j < end_jumps@.len() ==> #[trigger] end_jumps@[j] >= s0.instructions@.len(),
                    branch_pos matches Some(p) ==> p >= s0.instructions@.len(),
                    forall|j: int| 0 <= j < end_jumps@.len() ==> #[trigger] end_jumps@[j] > switch_idx,
                    branch_pos matches Some(p) ==> p > switch_idx,
                    forall|j: int| 0 <= j < table@.len() ==> (#[trigger] table@[j]).1 > switch_idx,
                    i <= cases@.len(),
                    case_hint == hint,
                    hint == switch_hint(switch_type@),
                    table@ == case_table(self.registry, cases@.take(i as int), hint, starts),
                    starts.len() == i && ends.len() == i,
                    forall|j: int| 0 <= j < i ==> switch_idx < #[trigger] starts[j] <= ends[j] < out.instructions@.len()
                        && out.instructions@[ends[j]] == pending_branch(Opcode::Branch)
                        && end_jumps@.contains(ends[j] as usize),
                    forall|j: int| 0 <= j < i - 1 ==> #[trigger] ends[j] < starts[j + 1],
                    forall|j: int| 0 < j < i && !(default.is_some() && j == default_index) ==> #[trigger] starts[j] == ends[j - 1] + 1,
                    i > 0 ==> out.instructions@.len() == ends[i - 1] + 1,
                    default_first == (default_index == 0 && default.is_some()),
                    !default_first ==> branch_pos == Some((switch_idx + 1) as usize) && out.instructions@[switch_idx + 1]
                        == pending_branch(Opcode::Branch),
                    !default_first ==> forall|j: int| 0 <= j < end_jumps@.len() ==> #[trigger] end_jumps@[j] > switch_idx + 1,
                    !default_first && i == 0 ==> out.instructions@.len() == switch_idx + 2,
                    !default_first && i > 0 ==> starts[0] == switch_idx + 2,
                    out.instructions@[switch_idx as int].opcode == Opcode::Switch,
                    !default.is_some() ==> end_jumps@.len() == i,
                    *stmt matches Statement::Switch { switch_type: st0, cases: c0, .. } && st0 == *switch_type && c0 == *cases,
                    positions_in(end_jumps@, out.instructions@.len() as int),
                    forall|j: int| 0 <= j < table@.len() ==> (#[trigger] table@[j]).1 <= out.instructions@.len(),
                    default_body_pos <= out.instructions@.len(),
                    branch_pos matches Some(p) ==> p < start.instructions@.len(),
                    forall|k: int| 0 <= k < cases@.len() ==> decreases_to!(*stmt => #[trigger] cases@[k]),
                    *stmt matches Statement::Switch { default: d0, .. } && d0 == *default,
                    cases_code(self.registry, self.current_return_types@, cases@.take(i as int), out.instructions@, starts, ends),
                    forall|w: int, j: int|
                        #![trigger end_jumps@[w], starts[j]]
                        0 <= w < end_jumps@.len() && 0 <= j < i ==> !(starts[j] <= end_jumps@[w] < ends[j]),
                    !default_first ==> forall|j: int| 0 <= j < i ==> #[trigger] starts[j] > switch_idx + 1,
                    after_expr.len() == switch_idx,
                    forall|x: int| 0 <= x < switch_idx ==> #[trigger] out.instructions@[x] == after_expr[x],
                decreases cases@.len() - i,
            {
                let ghost ej0 = end_jumps@;
                let ghost top = *out;
                if !default_first && i == default_index {
                    default_body_pos = out.len();
                    if let Some(d) = default {
                        proof {
                            assert forall|j: int| 0 <= j < d@.len() implies decreases_to!(*stmt => #[trigger] d@[j]) by {
                                assert(decreases_to!(*stmt => *default));
                                assert(decreases_to!(*default => *d));
                                assert(decreases_to!(*d => d@));
                                assert(decreases_to!(d@ => d@[j]));
                            }
                        }
                        self.compile_block(stmt, d, out, locals);
                        let p = out.len();
                        emit(out, Instruction::new(Opcode::Branch, Operand::JumpTarget(0)));
                        end_jumps.push(p);
                    }
                }
                let body_start = out.len();
                let case = &cases[i];
                let values = self.case_values(&case.values, case_hint);
                let ghost t0 = table@;
                let mut v: usize = 0;
                proof {
                    assert(t0 + values@.take(0).map_values(|x: i32| (x, body_start)) =~= t0);
                }
                while v < values.len()
                    invariant
                        forall|j: int| 0 <= j < table@.len() ==> (#[trigger] table@[j]).1 <= out.instructions@.len(),
                        forall|j: int| 0 <= j < table@.len() ==> (#[trigger] table@[j]).1 > switch_idx,
                        body_start <= out.instructions@.len(),
                        body_start > switch_idx,
                        v <= values@.len(),
                        table@ == t0 + values@.take(v as int).map_values(|x: i32| (x, body_start)),
                    decreases values@.len() - v,
                {
                    table.push((values[v], body_start));
                    proof {
                        assert(values@.take(v + 1).map_values(|x: i32| (x, body_start)) =~= values@.take(
                            v as int,
                        ).map_values(|x: i32| (x, body_start)).push((values@[v as int], body_start)));
                        assert(table@ =~= t0 + values@.take(v + 1).map_values(|x: i32| (x, body_start)));
                    }
                    v += 1;
                }
                proof {
                    assert(values@.take(values@.len() as int) =~= values@);
                    let c1 = cases@.take(i + 1);
                    let st1 = starts.push(body_start as int);
                    assert(c1.drop_last() =~= cases@.take(i as int));
                    assert(c1.last() == cases@[i as int]);
                    assert(st1.take(i as int) =~= starts);
                    assert(table@ =~= case_table(self.registry, c1, hint, st1));
                }
                let ghost pre_body = out.instructions@;
                proof {
                    assert(decreases_to!(*stmt => cases@[i as int]));
                    assert forall|j: int| 0 <= j < case.body@.len() implies decreases_to!(*stmt => #[trigger] case.body@[j]) by {
                        assert(decreases_to!(cases@[i as int] => case.body));
                        assert(decreases_to!(case.body => case.body@));
                        assert(decreases_to!(case.body@ => case.body@[j]));
                    }
                }
                let ghost lt_pre = out.local_table@;
                self.compile_block(stmt, &case.body, out, locals);
                let ghost y = out.instructions@;
                let ghost lt_y = out.local_table@;
                let p = out.len();
                emit(out, Instruction::new(Opcode::Branch, Operand::JumpTarget(0)));
                end_jumps.push(p);
                proof {
                    lemma_case_step(
                        self.registry,
                        self.current_return_types@,
                        cases@,
                        i as int,
                        top.instructions@,
                        pre_body,
                        y,
                        out.instructions@,
                        lt_pre,
                        lt_y,
                        starts,
                        ends,
                    );
                }
                proof {
                    assert forall|j: int| 0 <= j < i implies ej0.contains(#[trigger] ends[j] as usize) && 0 <= ends[j]
                        < top.instructions@.len() && top.instructions@[ends[j]] == pending_branch(Opcode::Branch) by {
                        assert(switch_idx < starts[j]);
                    }
                    lemma_case_ends_kept(ends, i as int, ej0, end_jumps@, top.instructions@, out.instructions@);
                    assert(end_jumps@[end_jumps@.len() - 1] == p);
                    assert forall|w: int, j: int|
                        #![trigger end_jumps@[w], starts.push(body_start as int)[j]]
                        0 <= w < end_jumps@.len() && 0 <= j < i + 1 implies !(starts.push(body_start as int)[j]
                        <= end_jumps@[w] < ends.push(p as int)[j]) by {
                        if w < ej0.len() {
                            assert(end_jumps@[w] == ej0[w]);
                            assert(ej0[w] < top.instructions@.len());
                            if j < i {
                                assert(starts.push(body_start as int)[j] == starts[j]);
                                assert(!(starts[j] <= ej0[w] < ends[j]));
                            }
                        } else if j < i {
                            assert(end_jumps@[w] >= top.instructions@.len());
                            assert(ends[j] < top.instructions@.len());
                        }
                    }
                    starts = starts.push(body_start as int);
                    ends = ends.push(p as int);
                }
                i += 1;
            }
            let ghost ej_loop = end_jumps@;
            let ghost loop_exit = *out;
            if !default_first && default_index >= cases.len() {
                default_body_pos = out.len();
                if let Some(d) = default {
                    proof {
                        assert forall|j: int| 0 <= j < d@.len() implies decreases_to!(*stmt => #[trigger] d@[j]) by {
                            assert(decreases_to!(*stmt => *default));
                            assert(decreases_to!(*default => *d));
                            assert(decreases_to!(*d => d@));
                            assert(decreases_to!(d@ => d@[j]));
                        }
                    }
                    self.compile_block(stmt, d, out, locals);
                    let p = out.len();
                    emit(out, Instruction::new(Opcode::Branch, Operand::JumpTarget(0)));
                    end_jumps.push(p);
                }
            }
            let ghost after_loop = *out;
            let end_pos = out.len();
            if let Some(dbp) = branch_pos {
                let target = if default.is_some() { default_body_pos } else { end_pos };
                patch(out, dbp, target);
            }
            proof {
                assert(cases@.take(cases@.len() as int) =~= cases@);
            }
            let ghost pre_table = *out;
            set_switch_table(out, switch_idx, table);
            let ghost pre_patch = *out;
            patch_all(out, &end_jumps, end_pos);
            proof {
                assert(!end_jumps@.contains(switch_idx)) by {
                    if end_jumps@.contains(switch_idx) {
                        let j = choose|j: int| 0 <= j < end_jumps@.len() && end_jumps@[j] == switch_idx;
                        assert(end_jumps@[j] > switch_idx);
                    }
                }
                assert(out.instructions@[switch_idx as int] == pre_patch.instructions@[switch_idx as int]);
                assert(out.instructions@[switch_idx as int].opcode == Opcode::Switch);
                let fin = out.instructions@;
                let n = cases@.len() as int;
                let endp = fin.len() as int;
                assert(endp == end_pos);
                assert forall|j: int| 0 <= j < n implies switch_idx < #[trigger] starts[j] <= ends[j] < endp
                    && fin[ends[j]] == branch_to(endp) by {
                    assert(switch_idx < starts[j]);
                    assert(ej_loop.contains(ends[j] as usize));
                    let w = choose|w: int| 0 <= w < ej_loop.len() && ej_loop[w] == ends[j] as usize;
                    assert(end_jumps@[w] == ej_loop[w]);
                    assert(end_jumps@.contains(ends[j] as usize));
                    assert(end_jumps@[w] > switch_idx);
                    assert(loop_exit.instructions@[ends[j]] == pending_branch(Opcode::Branch));
                    assert(after_loop.instructions@[ends[j]] == loop_exit.instructions@[ends[j]]);
                    assert(pre_table.instructions@[ends[j]] == after_loop.instructions@[ends[j]]);
                    assert(pre_patch.instructions@[ends[j]] == pre_table.instructions@[ends[j]]);
                    if !default_first {
                        assert(end_jumps@[w] > switch_idx + 1);
                    }
                }
                if !default_first {
                    assert(!end_jumps@.contains((switch_idx + 1) as usize)) by {
                        if end_jumps@.contains((switch_idx + 1) as usize) {
                            let w = choose|w: int| 0 <= w < end_jumps@.len() && end_jumps@[w] == (switch_idx + 1) as usize;
                            assert(end_jumps@[w] > switch_idx + 1);
                        }
                    }
                    assert(fin[switch_idx + 1] == pre_patch.instructions@[switch_idx + 1]);
                }
                assert(switch_layout(fin, switch_idx as int, n, default.is_some(), default_index as int, starts, ends));
                assert(cases@.take(n) =~= cases@);
                assert forall|w: int| ej_loop.len() <= w < end_jumps@.len() implies #[trigger] end_jumps@[w]
                    >= loop_exit.instructions@.len() by {}
                lemma_switch_tail(
                    self.registry,
                    self.current_return_types@,
                    cases@,
                    loop_exit.instructions@,
                    after_loop.instructions@,
                    pre_table.instructions@,
                    pre_patch.instructions@,
                    fin,
                    after_expr,
                    end_jumps@,
                    ej_loop,
                    starts,
                    ends,
                    switch_idx as int,
                    branch_pos,
                );
                assert forall|k: int| 0 <= k < s0.instructions@.len() implies #[trigger] fin[k] == s0.instructions@[k] by {
                    assert(fin.take(switch_idx as int)[k] == after_expr[k]);
                }
                assert(fin.take(s0.instructions@.len() as int) =~= s0.instructions@);
            }
        }
    }

    /// Compiles a script declaration into bytecode: its parameters as the
    /// first locals, its body, a fall-through return of each return type's
    /// default value, and the local and argument counts per base type.
    pub fn compile_script(&mut self, script: &ScriptDeclaration) -> (c: CompiledScript)
        ensures
            c.name@ == "["@ + script.trigger@ + ","@ + script.name@ + "]"@,
            c.trigger@ == script.trigger@,
            c.lookup_key == lookup_key(
                old(self).registry_spec().entity_map(),
                old(self).registry_spec().component_map(),
                script.trigger@,
                script.name@,
            ),
            c.param_types@ == script.params@.map_values(|p: crate::parser::ParamDef| p.param_type),
            c.id == compiled_script_id(old(self).registry_spec(), script.trigger@, script.name@),
            c.instructions@.len() > script.return_types@.len(),
            c.instructions@.last() == (Instruction { opcode: Opcode::Return, operand: Operand::NoValue, line: None }),
            forall|i: int|
                0 <= i < script.return_types@.len() ==> default_push(
                    #[trigger] c.instructions@[c.instructions@.len() - 1 - script.return_types@.len() + i],
                    script.return_types@[i],
                ),
            script.body@.len() == 0 ==> c.instructions@.len() == script.return_types@.len() + 1,
            params_first(c.local_table@, script.params@),
            script.body@.len() == 0 ==> c.local_table@.len() == script.params@.len(),
            exists|lt0: Seq<crate::symbol::LocalEntry>|
                #[trigger] params_first(lt0, script.params@) && lt0.len() == script.params@.len() && block_code(
                    old(self).registry_spec(),
                    script.return_types@,
                    script.body@,
                    Seq::empty(),
                    c.instructions@.take(c.instructions@.len() - 1 - script.return_types@.len()),
                    lt0,
                    c.local_table@,
                ),
            script.body@.len() == 0 ==> c.int_local_count == c.int_arg_count && c.string_local_count
                == c.string_arg_count && c.long_local_count == c.long_arg_count,
            c.int_arg_count == param_count(script.params@, BaseVarType::Integer) as u16,
            c.string_arg_count == param_count(script.params@, BaseVarType::String) as u16,
            c.long_arg_count == param_count(script.params@, BaseVarType::Long) as u16,
            targets_within(c.instructions@),
            c.int_local_count == crate::symbol::count_locals(c.local_table@, BaseVarType::Integer) as u16,
            c.string_local_count == crate::symbol::count_locals(c.local_table@, BaseVarType::String) as u16,
            c.long_local_count == crate::symbol::count_locals(c.local_table@, BaseVarType::Long) as u16,
            c.int_arg_count == crate::symbol::count_params(c.local_table@, BaseVarType::Integer) as u16,
            c.string_arg_count == crate::symbol::count_params(c.local_table@, BaseVarType::String) as u16,
            c.long_arg_count == crate::symbol::count_params(c.local_table@, BaseVarType::Long) as u16,
            final(self).registry_spec() == old(self).registry_spec(),
    {
        let id = match self.registry.script_id_for_trigger(script.trigger.as_str(), script.name.as_str()) {
            Some(id) => id,
            None => match self.registry.script_id(script.name.as_str()) {
                Some(id) => id,
                None => -1,
            },
        };
        let mut full_name = to_owned_string("[");
        push_str(&mut full_name, script.trigger.as_str());
        push_str(&mut full_name, ",");
        push_str(&mut full_name, script.name.as_str());
        push_str(&mut full_name, "]");
        let mut param_types: Vec<Type> = Vec::new();
        let mut table = crate::symbol::LocalTable::new();
        let mut locals = SymbolTable::new();
        let mut i: usize = 0;
        while i < script.params.len()
            invariant
                i <= script.params@.len(),
                param_types@ == script.params@.take(i as int).map_values(|p: crate::parser::ParamDef| p.param_type),
                table@.len() == i,
                params_first(table@, script.params@.take(i as int)),
            decreases script.params@.len() - i,
        {
            let ghost t0 = table@;
            let param = &script.params[i];
            let slot = table.push_param(param.name.clone(), param.param_type);
            locals.define(param.name.clone(), SymbolKind::ScriptParam { param_type: param.param_type, slot });
            param_types.push(param.param_type);
            proof {
                let ps = script.params@.take(i + 1);
                assert forall|j: int| 0 <= j < ps.len() implies {
                    &&& (#[trigger] table@[j]).name@ == ps[j].name@
                    &&& table@[j].var_type == ps[j].param_type
                    &&& table@[j].is_param
                    &&& !table@[j].is_array
                } by {
                    if j < i {
                        assert(table@[j] == t0[j]);
                        assert(ps[j] == script.params@.take(i as int)[j]);
                    }
                }
                assert(script.params@.take(i + 1).map_values(|p: crate::parser::ParamDef| p.param_type)
                    =~= script.params@.take(i as int).map_values(|p: crate::parser::ParamDef| p.param_type).push(param.param_type));
            }
            i += 1;
        }
        proof {
            assert(script.params@.take(script.params@.len() as int) =~= script.params@);
        }
        let mut compiled = CompiledScript::new(full_name, id);
        compiled.trigger = to_owned_string(script.trigger.as_str());
        compiled.lookup_key = Self::compute_lookup_key(script.trigger.as_str(), script.name.as_str(), &self.registry);
        compiled.param_types = param_types;
        compiled.local_table = table;
        self.current_return_types = script.return_types.clone();
        let ghost header = compiled;
        proof {
            assert(self.current_return_types@ =~= script.return_types@);
            assert(script.params@.take(script.params@.len() as int) =~= script.params@);
        }
        let mut k: usize = 0;
        proof {
            assert(script.body@.take(0).len() == 0);
            assert(compiled.instructions@ =~= Seq::<Instruction>::empty());
        }
        while k < script.body.len()
            invariant
                grown(&header, &compiled),
                k <= script.body@.len(),
                header.instructions@.len() == 0,
                k == 0 ==> compiled.instructions@.len() == 0,
                k == 0 ==> compiled.local_table@ == header.local_table@,
                self.registry == old(self).registry,
                self.current_return_types@ == script.return_types@,
                block_code(
                    self.registry,
                    script.return_types@,
                    script.body@.take(k as int),
                    Seq::empty(),
                    compiled.instructions@,
                    header.local_table@,
                    compiled.local_table@,
                ),
            decreases script.body@.len() - k,
        {
            let ghost m = compiled.instructions@;
            let ghost ltm = compiled.local_table@;
            let ghost scope = locals;
            self.compile_statement(&script.body[k], &mut compiled, &mut locals);
            proof {
                assert(script.body@.take(k + 1).drop_last() =~= script.body@.take(k as int));
                assert(script.body@.take(k + 1).last() == script.body@[k as int]);
                assert(block_split(m, ltm, scope));
            }
            k += 1;
        }
        proof {
            assert(script.body@.take(k as int) =~= script.body@);
        }
        let ghost body_code = compiled.instructions@;
        let ghost body_end = compiled.instructions@.len();
        let ghost lt_body = compiled.local_table@;
        proof {
            if script.body@.len() == 0 {
                assert(k == 0);
            }
        }
        let mut r: usize = 0;
        while r < script.return_types.len()
            invariant
                grown(&header, &compiled),
                r <= script.return_types@.len(),
                compiled.instructions@.len() == body_end + r,
                compiled.local_table@ == lt_body,
                compiled.id == header.id,
                body_code.len() == body_end,
                forall|i: int| 0 <= i < body_end ==> #[trigger] compiled.instructions@[i] == body_code[i],
                forall|i: int| 0 <= i < r ==> default_push(
                    #[trigger] compiled.instructions@[body_end + i],
                    script.return_types@[i],
                ),
            decreases script.return_types@.len() - r,
        {
            let ghost before = compiled.instructions@;
            let t = script.return_types[r];
            match t.base_type() {
                BaseVarType::Integer => emit(&mut compiled, Instruction::push_int(t.default_return_value())),
                BaseVarType::String => emit(&mut compiled, Instruction::push_string(String::new())),
                BaseVarType::Long => emit(&mut compiled, Instruction::push_long(0)),
            }
            proof {
                assert forall|i: int| 0 <= i < r + 1 implies default_push(
                    #[trigger] compiled.instructions@[body_end + i],
                    script.return_types@[i],
                ) by {
                    if i < r {
                        assert(compiled.instructions@[body_end + i] == before[body_end + i]);
                    }
                }
                assert forall|i: int| 0 <= i < body_end implies #[trigger] compiled.instructions@[i] == body_code[i] by {
                    assert(compiled.instructions@[i] == before[i]);
                }
            }
            r += 1;
        }
        let ghost before_ret = compiled.instructions@;
        emit(&mut compiled, Instruction::simple(Opcode::Return));
        proof {
            assert forall|i: int| 0 <= i < script.return_types@.len() implies default_push(
                #[trigger] compiled.instructions@[compiled.instructions@.len() - 1 - script.return_types@.len() + i],
                script.return_types@[i],
            ) by {
                assert(compiled.instructions@[body_end + i] == before_ret[body_end + i]);
            }
        }
        compiled.int_local_count = compiled.local_table.get_local_count(BaseVarType::Integer);
        compiled.string_local_count = compiled.local_table.get_local_count(BaseVarType::String);
        compiled.long_local_count = compiled.local_table.get_local_count(BaseVarType::Long);
        compiled.int_arg_count = compiled.local_table.get_param_count(BaseVarType::Integer);
        compiled.string_arg_count = compiled.local_table.get_param_count(BaseVarType::String);
        compiled.long_arg_count = compiled.local_table.get_param_count(BaseVarType::Long);
        proof {
            assert(params_first(compiled.local_table@, script.params@)) by {
                assert forall|j: int| 0 <= j < script.params@.len() implies #[trigger] compiled.local_table@[j]
                    == header.local_table@[j] by {}
            }
            lemma_param_counts(compiled.local_table@, script.params@, BaseVarType::Integer);
            lemma_param_counts(compiled.local_table@, script.params@, BaseVarType::String);
            lemma_param_counts(compiled.local_table@, script.params@, BaseVarType::Long);
            assert forall|i: int| 0 <= i < body_end implies #[trigger] compiled.instructions@[i] == body_code[i] by {
                assert(compiled.instructions@[i] == before_ret[i]);
            }
            assert(compiled.instructions@.take(compiled.instructions@.len() - 1 - script.return_types@.len())
                =~= body_code);
            assert(params_first(header.local_table@, script.params@)) by {
                assert forall|j: int| 0 <= j < script.params@.len() implies #[trigger] compiled.local_table@[j]
                    == header.local_table@[j] by {}
            }
            if script.body@.len() == 0 {
                lemma_only_params_counts(compiled.local_table@, BaseVarType::Integer);
                lemma_only_params_counts(compiled.local_table@, BaseVarType::String);
                lemma_only_params_counts(compiled.local_table@, BaseVarType::Long);
            }
        }
        compiled
    }
}

} // verus!
