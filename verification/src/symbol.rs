//! Symbols: per-script local tables, scoped symbol tables, and the global
//! registry of scripts, commands, game variables, constants and entity ids.
use vstd::prelude::*;
use crate::strings::{chars_of, string_from_chars, to_owned_string, normalize_name, normalized_name};
use crate::strmap::StrMap;
use crate::types::{BaseVarType, Type, base_of};

verus! {

// ── LocalTable ─────────────────────────────────────────────────────────────

/// One declaration in a script's local table.
#[derive(Debug)]
pub struct LocalEntry {
    pub name: String,
    pub var_type: Type,
    pub is_param: bool,
    pub is_array: bool,
}

impl Clone for LocalEntry {
    fn clone(&self) -> (r: Self)
        ensures
            r == *self,
    {
        LocalEntry {
            name: self.name.clone(),
            var_type: self.var_type,
            is_param: self.is_param,
            is_array: self.is_array,
        }
    }
}

/// Whether entry `e` takes a slot in the id space of `(base, is_array)`:
/// arrays share one id space; every other entry takes a slot of its base
/// type unless it is a non-parameter array.
pub open spec fn occupies_slot(e: LocalEntry, base: BaseVarType, is_array: bool) -> bool {
    if is_array {
        e.is_array
    } else {
        base_of(e.var_type) == base && (!e.is_array || e.is_param)
    }
}

/// The number of entries of `s` that take a slot in the id space of `(base, is_array)`.
pub open spec fn count_slots(s: Seq<LocalEntry>, base: BaseVarType, is_array: bool) -> nat
    decreases s.len(),
{
    if s.len() == 0 {
        0
    } else {
        count_slots(s.drop_last(), base, is_array) + if occupies_slot(s.last(), base, is_array) {
            1nat
        } else {
            0nat
        }
    }
}

/// The number of entries of `s` that are non-array locals or parameters of base type `base`.
pub open spec fn count_locals(s: Seq<LocalEntry>, base: BaseVarType) -> nat {
    count_slots(s, base, false)
}

/// The number of parameters of base type `base` in `s`.
pub open spec fn count_params(s: Seq<LocalEntry>, base: BaseVarType) -> nat
    decreases s.len(),
{
    if s.len() == 0 {
        0
    } else {
        count_params(s.drop_last(), base) + if s.last().is_param && base_of(s.last().var_type)
            == base {
            1nat
        } else {
            0nat
        }
    }
}

proof fn lemma_count_slots_le(s: Seq<LocalEntry>, base: BaseVarType, is_array: bool)
    ensures
        count_slots(s, base, is_array) <= s.len(),
    decreases s.len(),
{
    if s.len() > 0 {
        lemma_count_slots_le(s.drop_last(), base, is_array);
    }
}

proof fn lemma_count_params_le(s: Seq<LocalEntry>, base: BaseVarType)
    ensures
        count_params(s, base) <= s.len(),
    decreases s.len(),
{
    if s.len() > 0 {
        lemma_count_params_le(s.drop_last(), base);
    }
}

/// The flat, ordered list of every variable declaration of a script, used to
/// assign variable ids.
#[derive(Debug)]
pub struct LocalTable {
    pub(crate) all: Vec<LocalEntry>,
}

impl View for LocalTable {
    type V = Seq<LocalEntry>;

    closed spec fn view(&self) -> Seq<LocalEntry> {
        self.all@
    }
}

impl LocalTable {
    pub fn new() -> (t: Self)
        ensures
            t@ == Seq::<LocalEntry>::empty(),
    {
        LocalTable { all: Vec::new() }
    }

    /// The ordered entries.
    pub fn entries(&self) -> (r: &[LocalEntry])
        ensures
            r@ == self@,
    {
        self.all.as_slice()
    }

    /// Appends an entry as it stands (used to build tables directly).
    pub fn push_entry(&mut self, entry: LocalEntry)
        ensures
            final(self)@ == old(self)@.push(entry),
    {
        self.all.push(entry);
    }

    /// Releases spare capacity.
    pub fn shrink_to_fit(&mut self)
        ensures
            final(self)@ == old(self)@,
    {
    }

    /// Records a parameter; returns its variable id (its position among the
    /// slots of its base type).
    pub fn push_param(&mut self, name: String, param_type: Type) -> (id: i32)
        ensures
            final(self)@ == old(self)@.push(
                LocalEntry { name, var_type: param_type, is_param: true, is_array: false },
            ),
            id == count_slots(old(self)@, base_of(param_type), false) as i32,
    {
        let id = self.get_variable_id_for_next(param_type, false);
        self.all.push(LocalEntry { name, var_type: param_type, is_param: true, is_array: false });
        id
    }

    /// Records a local (or local array); returns its variable id.
    pub fn push_local(&mut self, name: String, var_type: Type, is_array: bool) -> (id: i32)
        ensures
            final(self)@ == old(self)@.push(
                LocalEntry { name, var_type, is_param: false, is_array },
            ),
            id == count_slots(old(self)@, base_of(var_type), is_array) as i32,
    {
        let id = self.get_variable_id_for_next(var_type, is_array);
        self.all.push(LocalEntry { name, var_type, is_param: false, is_array });
        id
    }

    fn count_prefix(&self, end: usize, base: BaseVarType, is_array: bool) -> (n: usize)
        requires
            end <= self@.len(),
        ensures
            n == count_slots(self@.take(end as int), base, is_array),
    {
        let mut n: usize = 0;
        let mut i: usize = 0;
        while i < end
            invariant
                i <= end <= self@.len(),
                n == count_slots(self@.take(i as int), base, is_array),
                n <= i,
            decreases end - i,
        {
            let e = &self.all[i];
            let hit = if is_array {
                e.is_array
            } else {
                e.var_type.base_type() == base && (!e.is_array || e.is_param)
            };
            assert(self@.take(i + 1).drop_last() == self@.take(i as int));
            if hit {
                n += 1;
            }
            i += 1;
        }
        n
    }

    fn get_variable_id_for_next(&self, var_type: Type, is_array: bool) -> (id: i32)
        ensures
            id == count_slots(self@, base_of(var_type), is_array) as i32,
    {
        let n = self.count_prefix(self.all.len(), var_type.base_type(), is_array);
        assert(self@.take(self@.len() as int) == self@);
        n as i32
    }

    /// The variable id of the entry at `index`: its position among the
    /// earlier entries that share its id space.
    pub fn get_variable_id(&self, index: usize) -> (id: i32)
        requires
            index < self@.len(),
        ensures
            id == count_slots(
                self@.take(index as int),
                base_of(self@[index as int].var_type),
                self@[index as int].is_array,
            ) as i32,
    {
        let entry = &self.all[index];
        let n = self.count_prefix(index, entry.var_type.base_type(), entry.is_array);
        n as i32
    }

    /// The number of non-array locals and parameters of base type `base`.
    pub fn get_local_count(&self, base: BaseVarType) -> (n: u16)
        ensures
            n == count_locals(self@, base) as u16,
    {
        let n = self.count_prefix(self.all.len(), base, false);
        assert(self@.take(self@.len() as int) == self@);
        n as u16
    }

    /// The number of parameters of base type `base`.
    pub fn get_param_count(&self, base: BaseVarType) -> (n: u16)
        ensures
            n == count_params(self@, base) as u16,
    {
        let mut n: usize = 0;
        let mut i: usize = 0;
        while i < self.all.len()
            invariant
                i <= self@.len(),
                n == count_params(self@.take(i as int), base),
                n <= i,
            decreases self@.len() - i,
        {
            let e = &self.all[i];
            assert(self@.take(i + 1).drop_last() == self@.take(i as int));
            if e.is_param && e.var_type.base_type() == base {
                n += 1;
            }
            i += 1;
        }
        assert(self@.take(self@.len() as int) == self@);
        n as u16
    }
}

// ── Symbols ────────────────────────────────────────────────────────────────

fn copy_types(v: &Vec<Type>) -> (r: Vec<Type>)
    ensures
        r@ == v@,
{
    let mut r: Vec<Type> = Vec::new();
    for i in 0..v.len()
        invariant
            r@ == v@.take(i as int),
    {
        r.push(v[i]);
        assert(v@.take(i + 1) == v@.take(i as int).push(v@[i as int]));
    }
    assert(v@.take(v@.len() as int) == v@);
    r
}

/// The kind of a symbol.
#[derive(Debug)]
pub enum SymbolKind {
    /// A local variable within a script.
    LocalVar { var_type: Type, slot: i32, is_array: bool },
    /// A script parameter.
    ScriptParam { param_type: Type, slot: i32 },
    /// A script.
    Script { id: i32, trigger: String, param_types: Vec<Type>, return_types: Vec<Type> },
    /// A game variable (varp, varn, vars, varbit).
    GameVar { var_type: Type, var_id: i32, category: String },
    /// A constant value.
    Constant { const_type: Type, int_value: Option<i32>, string_value: Option<String> },
    /// An engine command.
    Command { opcode: i32, param_types: Vec<Type>, return_types: Vec<Type> },
}

/// The mathematical form of a [`SymbolKind`].
pub enum KindView {
    LocalVar { var_type: Type, slot: i32, is_array: bool },
    ScriptParam { param_type: Type, slot: i32 },
    Script { id: i32, trigger: Seq<char>, param_types: Seq<Type>, return_types: Seq<Type> },
    GameVar { var_type: Type, var_id: i32, category: Seq<char> },
    Constant { const_type: Type, int_value: Option<i32>, string_value: Option<Seq<char>> },
    Command { opcode: i32, param_types: Seq<Type>, return_types: Seq<Type> },
}

/// The mathematical form of a [`Symbol`].
pub struct SymbolView {
    pub name: Seq<char>,
    pub kind: KindView,
}

impl View for SymbolKind {
    type V = KindView;

    open spec fn view(&self) -> KindView {
        match self {
            SymbolKind::LocalVar { var_type, slot, is_array } => KindView::LocalVar {
                var_type: *var_type,
                slot: *slot,
                is_array: *is_array,
            },
            SymbolKind::ScriptParam { param_type, slot } => KindView::ScriptParam {
                param_type: *param_type,
                slot: *slot,
            },
            SymbolKind::Script { id, trigger, param_types, return_types } => KindView::Script {
                id: *id,
                trigger: trigger@,
                param_types: param_types@,
                return_types: return_types@,
            },
            SymbolKind::GameVar { var_type, var_id, category } => KindView::GameVar {
                var_type: *var_type,
                var_id: *var_id,
                category: category@,
            },
            SymbolKind::Constant { const_type, int_value, string_value } => KindView::Constant {
                const_type: *const_type,
                int_value: *int_value,
                string_value: match string_value {
                    Some(s) => Some(s@),
                    None => None,
                },
            },
            SymbolKind::Command { opcode, param_types, return_types } => KindView::Command {
                opcode: *opcode,
                param_types: param_types@,
                return_types: return_types@,
            },
        }
    }
}

impl View for Symbol {
    type V = SymbolView;

    open spec fn view(&self) -> SymbolView {
        SymbolView { name: self.name@, kind: self.kind@ }
    }
}

/// The views of the values of a string map of symbols.
pub open spec fn symbol_views(m: Map<Seq<char>, Symbol>) -> Map<Seq<char>, SymbolView> {
    m.map_values(|s: Symbol| s@)
}

impl Clone for SymbolKind {
    fn clone(&self) -> (r: Self)
        ensures
            r@ == self@,
    {
        match self {
            SymbolKind::LocalVar { var_type, slot, is_array } => SymbolKind::LocalVar {
                var_type: *var_type,
                slot: *slot,
                is_array: *is_array,
            },
            SymbolKind::ScriptParam { param_type, slot } => SymbolKind::ScriptParam {
                param_type: *param_type,
                slot: *slot,
            },
            SymbolKind::Script { id, trigger, param_types, return_types } => SymbolKind::Script {
                id: *id,
                trigger: trigger.clone(),
                param_types: copy_types(param_types),
                return_types: copy_types(return_types),
            },
            SymbolKind::GameVar { var_type, var_id, category } => SymbolKind::GameVar {
                var_type: *var_type,
                var_id: *var_id,
                category: category.clone(),
            },
            SymbolKind::Constant { const_type, int_value, string_value } => {
                let sv = match string_value {
                    Some(s) => Some(s.clone()),
                    None => None,
                };
                SymbolKind::Constant { const_type: *const_type, int_value: *int_value, string_value: sv }
            },
            SymbolKind::Command { opcode, param_types, return_types } => SymbolKind::Command {
                opcode: *opcode,
                param_types: copy_types(param_types),
                return_types: copy_types(return_types),
            },
        }
    }
}

impl SymbolKind {
    /// The name of the variant.
    pub fn kind_name(&self) -> (s: &'static str)
        ensures
            s@ == (match self {
                SymbolKind::LocalVar { .. } => "LocalVar"@,
                SymbolKind::ScriptParam { .. } => "ScriptParam"@,
                SymbolKind::Script { .. } => "Script"@,
                SymbolKind::GameVar { .. } => "GameVar"@,
                SymbolKind::Constant { .. } => "Constant"@,
                SymbolKind::Command { .. } => "Command"@,
            }),
    {
        match self {
            SymbolKind::LocalVar { .. } => "LocalVar",
            SymbolKind::ScriptParam { .. } => "ScriptParam",
            SymbolKind::Script { .. } => "Script",
            SymbolKind::GameVar { .. } => "GameVar",
            SymbolKind::Constant { .. } => "Constant",
            SymbolKind::Command { .. } => "Command",
        }
    }
}

/// A named symbol.
#[derive(Debug)]
pub struct Symbol {
    pub name: String,
    pub kind: SymbolKind,
}

impl Clone for Symbol {
    fn clone(&self) -> (r: Self)
        ensures
            r@ == self@,
    {
        Symbol { name: self.name.clone(), kind: self.kind.clone() }
    }
}

/// A resolved entity id and its type.
#[derive(Debug, Clone, Copy, PartialEq, Eq, Structural)]
pub struct EntityRef {
    pub const_type: Type,
    pub id: i32,
}

/// The id registered for type `t` among `variants` (the first entry of that type).
pub open spec fn variant_id(variants: Seq<(Type, i32)>, t: Type) -> Option<i32>
    decreases variants.len(),
{
    if variants.len() == 0 {
        None
    } else if variants[0].0 == t {
        Some(variants[0].1)
    } else {
        variant_id(variants.skip(1), t)
    }
}

/// All ids registered under one entity name.
#[derive(Debug)]
pub struct EntityEntry {
    /// The winner for untyped lookup (the last `register_entity_id`); `None`
    /// for names registered only for typed lookup.
    pub primary: Option<EntityRef>,
    /// Every `(type, id)` registered under this name.
    pub variants: Vec<(Type, i32)>,
}

impl EntityEntry {
    fn empty() -> (e: Self)
        ensures
            e.primary is None,
            e.variants@.len() == 0,
    {
        EntityEntry { primary: None, variants: Vec::new() }
    }

    /// Records `id` for `entity_type` (the last write per type wins).
    fn set_variant(&mut self, entity_type: Type, id: i32)
        ensures
            final(self).primary == old(self).primary,
            forall|t: Type|
                variant_id(final(self).variants@, t) == if t == entity_type {
                    Some(id)
                } else {
                    variant_id(old(self).variants@, t)
                },
    {
        let mut i: usize = 0;
        while i < self.variants.len()
            invariant
                i <= self.variants@.len(),
                self.variants@ == old(self).variants@,
                self.primary == old(self).primary,
                forall|j: int| 0 <= j < i ==> (#[trigger] self.variants@[j]).0 != entity_type,
            decreases self.variants.len() - i,
        {
            if self.variants[i].0 == entity_type {
                let ghost old_v = self.variants@;
                self.variants.set(i, (entity_type, id));
                proof {
                    assert forall|t: Type| variant_id(self.variants@, t) == if t == entity_type {
                        Some(id)
                    } else {
                        variant_id(old_v, t)
                    } by {
                        lemma_variant_id_update(old_v, i as int, entity_type, id, t);
                    }
                }
                return;
            }
            i += 1;
        }
        let ghost old_v = self.variants@;
        self.variants.push((entity_type, id));
        proof {
            assert forall|t: Type| variant_id(self.variants@, t) == if t == entity_type {
                Some(id)
            } else {
                variant_id(old_v, t)
            } by {
                lemma_variant_id_push(old_v, entity_type, id, t);
            }
        }
    }
}

proof fn lemma_variant_id_update(v: Seq<(Type, i32)>, i: int, ty: Type, id: i32, t: Type)
    requires
        0 <= i < v.len(),
        v[i].0 == ty,
        forall|j: int| 0 <= j < i ==> (#[trigger] v[j]).0 != ty,
    ensures
        variant_id(v.update(i, (ty, id)), t) == if t == ty {
            Some(id)
        } else {
            variant_id(v, t)
        },
    decreases v.len(),
{
    if i == 0 {
        assert(v.update(i, (ty, id)).skip(1) == v.skip(1));
    } else {
        assert(v.update(i, (ty, id)).skip(1) == v.skip(1).update(i - 1, (ty, id)));
        assert forall|j: int| 0 <= j < i - 1 implies (#[trigger] v.skip(1)[j]).0 != ty by {
            assert(v.skip(1)[j] == v[j + 1]);
        }
        lemma_variant_id_update(v.skip(1), i - 1, ty, id, t);
    }
}

proof fn lemma_variant_id_push(v: Seq<(Type, i32)>, ty: Type, id: i32, t: Type)
    requires
        forall|j: int| 0 <= j < v.len() ==> (#[trigger] v[j]).0 != ty,
    ensures
        variant_id(v.push((ty, id)), t) == if t == ty {
            Some(id)
        } else {
            variant_id(v, t)
        },
    decreases v.len(),
{
    assert(v.push((ty, id))[0] == if v.len() == 0 { (ty, id) } else { v[0] });
    if v.len() == 0 {
        assert(v.push((ty, id)).skip(1).len() == 0);
        assert(variant_id(v.push((ty, id)).skip(1), t) is None);
    } else {
        assert(v.push((ty, id)).skip(1) == v.skip(1).push((ty, id)));
        assert forall|j: int| 0 <= j < v.skip(1).len() implies (#[trigger] v.skip(1)[j]).0 != ty by {
            assert(v.skip(1)[j] == v[j + 1]);
        }
        lemma_variant_id_push(v.skip(1), ty, id, t);
    }
}

fn find_variant(variants: &Vec<(Type, i32)>, t: Type) -> (r: Option<i32>)
    ensures
        r == variant_id(variants@, t),
{
    let mut i: usize = 0;
    assert(variants@.skip(0) == variants@);
    while i < variants.len()
        invariant
            i <= variants@.len(),
            variant_id(variants@, t) == variant_id(variants@.skip(i as int), t),
        decreases variants.len() - i,
    {
        assert(variants@.skip(i as int).skip(1) == variants@.skip(i + 1));
        if variants[i].0 == t {
            return Some(variants[i].1);
        }
        i += 1;
    }
    None
}

// ── SymbolTable ────────────────────────────────────────────────────────────

/// A scoped symbol table: symbols of this scope, an optional parent scope,
/// slot counters for each storage class and declaration totals.
pub struct SymbolTable {
    symbols: StrMap<Symbol>,
    parent: Option<Box<SymbolTable>>,
    next_int_local: i32,
    next_string_local: i32,
    next_long_local: i32,
    total_int_decls: i32,
    total_string_decls: i32,
    total_long_decls: i32,
}

/// The symbol that `name` resolves to in table `t`: this scope first, then
/// the parent chain.
pub open spec fn scoped_lookup(t: SymbolTable, name: Seq<char>) -> Option<Symbol>
    decreases t,
{
    if t.scope()@.contains_key(name) {
        Some(t.scope()@[name])
    } else {
        match t.parent_scope() {
            Some(p) => scoped_lookup(*p, name),
            None => None,
        }
    }
}

impl SymbolTable {
    /// The symbols of this scope.
    pub closed spec fn scope(&self) -> StrMap<Symbol> {
        self.symbols
    }

    /// The parent scope.
    pub closed spec fn parent_scope(&self) -> Option<Box<SymbolTable>>
        decreases self,
    {
        self.parent
    }

    /// The next free slot of each storage class (int, string, long).
    pub closed spec fn next_slots(&self) -> (i32, i32, i32) {
        (self.next_int_local, self.next_string_local, self.next_long_local)
    }

    /// The number of declarations counted for each storage class (int, string, long).
    pub closed spec fn decl_totals(&self) -> (i32, i32, i32) {
        (self.total_int_decls, self.total_string_decls, self.total_long_decls)
    }

    /// A fresh root scope.
    pub fn new() -> (t: Self)
        ensures
            t.scope()@ == Map::<Seq<char>, Symbol>::empty(),
            t.parent_scope() is None,
            t.next_slots() == (0i32, 0i32, 0i32),
            t.decl_totals() == (0i32, 0i32, 0i32),
    {
        SymbolTable {
            symbols: StrMap::new(),
            parent: None,
            next_int_local: 0,
            next_string_local: 0,
            next_long_local: 0,
            total_int_decls: 0,
            total_string_decls: 0,
            total_long_decls: 0,
        }
    }

    /// A child scope of `parent`, continuing its counters.
    pub fn child(parent: SymbolTable) -> (t: Self)
        ensures
            t.scope()@ == Map::<Seq<char>, Symbol>::empty(),
            t.parent_scope() == Some(Box::new(parent)),
            t.next_slots() == parent.next_slots(),
            t.decl_totals() == parent.decl_totals(),
    {
        let int_local = parent.next_int_local;
        let string_local = parent.next_string_local;
        let long_local = parent.next_long_local;
        let int_decls = parent.total_int_decls;
        let string_decls = parent.total_string_decls;
        let long_decls = parent.total_long_decls;
        SymbolTable {
            symbols: StrMap::new(),
            parent: Some(Box::new(parent)),
            next_int_local: int_local,
            next_string_local: string_local,
            next_long_local: long_local,
            total_int_decls: int_decls,
            total_string_decls: string_decls,
            total_long_decls: long_decls,
        }
    }

    /// Defines (or redefines) `name` in this scope.
    pub fn define(&mut self, name: String, kind: SymbolKind)
        ensures
            final(self).scope()@ == old(self).scope()@.insert(
                name@,
                Symbol { name, kind },
            ),
            final(self).parent_scope() == old(self).parent_scope(),
            final(self).next_slots() == old(self).next_slots(),
            final(self).decl_totals() == old(self).decl_totals(),
    {
        let key = name.clone();
        self.symbols.insert(key, Symbol { name, kind });
    }

    fn allocate_slot(&mut self, var_type: Type) -> (slot: i32)
        requires
            old(self).next_slots().0 < i32::MAX,
            old(self).next_slots().1 < i32::MAX,
            old(self).next_slots().2 < i32::MAX,
        ensures
            final(self).scope() == old(self).scope(),
            final(self).parent_scope() == old(self).parent_scope(),
            final(self).decl_totals() == old(self).decl_totals(),
            slot == slot_of(old(self).next_slots(), base_of(var_type)),
            final(self).next_slots() == advance_slot(old(self).next_slots(), base_of(var_type)),
    {
        match var_type.base_type() {
            BaseVarType::Integer => {
                let slot = self.next_int_local;
                self.next_int_local = self.next_int_local + 1;
                slot
            },
            BaseVarType::String => {
                let slot = self.next_string_local;
                self.next_string_local = self.next_string_local + 1;
                slot
            },
            BaseVarType::Long => {
                let slot = self.next_long_local;
                self.next_long_local = self.next_long_local + 1;
                slot
            },
        }
    }

    fn count_decl(&mut self, base: BaseVarType)
        requires
            old(self).decl_totals().0 < i32::MAX,
            old(self).decl_totals().1 < i32::MAX,
            old(self).decl_totals().2 < i32::MAX,
        ensures
            final(self).scope() == old(self).scope(),
            final(self).parent_scope() == old(self).parent_scope(),
            final(self).next_slots() == old(self).next_slots(),
            final(self).decl_totals() == advance_slot(old(self).decl_totals(), base),
    {
        match base {
            BaseVarType::Integer => self.total_int_decls = self.total_int_decls + 1,
            BaseVarType::String => self.total_string_decls = self.total_string_decls + 1,
            BaseVarType::Long => self.total_long_decls = self.total_long_decls + 1,
        }
    }

    /// Defines a local and returns its slot. Each declaration takes a fresh
    /// slot of its storage class, but redeclaring a local of this scope keeps
    /// the earlier slot. Non-array declarations are counted in the totals.
    pub fn define_local(&mut self, name: String, var_type: Type, is_array: bool) -> (slot: i32)
        requires
            old(self).next_slots().0 < i32::MAX,
            old(self).next_slots().1 < i32::MAX,
            old(self).next_slots().2 < i32::MAX,
            old(self).decl_totals().0 < i32::MAX,
            old(self).decl_totals().1 < i32::MAX,
            old(self).decl_totals().2 < i32::MAX,
        ensures
            slot == (match old(self).scope()@.get(name@) {
                Some(s) => match s.kind {
                    SymbolKind::LocalVar { slot, .. } => slot,
                    _ => slot_of(old(self).next_slots(), base_of(var_type)),
                },
                None => slot_of(old(self).next_slots(), base_of(var_type)),
            }),
            final(self).scope()@ == old(self).scope()@.insert(
                name@,
                Symbol { name, kind: SymbolKind::LocalVar { var_type, slot, is_array } },
            ),
            final(self).next_slots() == advance_slot(old(self).next_slots(), base_of(var_type)),
            final(self).decl_totals() == if is_array {
                old(self).decl_totals()
            } else {
                advance_slot(old(self).decl_totals(), base_of(var_type))
            },
            final(self).parent_scope() == old(self).parent_scope(),
    {
        if !is_array {
            self.count_decl(var_type.base_type());
        }
        let new_slot = self.allocate_slot(var_type);
        let slot = match self.symbols.get(name.as_str()) {
            Some(existing) => match &existing.kind {
                SymbolKind::LocalVar { slot, .. } => *slot,
                _ => new_slot,
            },
            None => new_slot,
        };
        self.define(name, SymbolKind::LocalVar { var_type, slot, is_array });
        slot
    }

    /// Defines a parameter and returns its (fresh) slot; the declaration is counted.
    pub fn define_param(&mut self, name: String, param_type: Type) -> (slot: i32)
        requires
            old(self).next_slots().0 < i32::MAX,
            old(self).next_slots().1 < i32::MAX,
            old(self).next_slots().2 < i32::MAX,
            old(self).decl_totals().0 < i32::MAX,
            old(self).decl_totals().1 < i32::MAX,
            old(self).decl_totals().2 < i32::MAX,
        ensures
            slot == slot_of(old(self).next_slots(), base_of(param_type)),
            final(self).scope()@ == old(self).scope()@.insert(
                name@,
                Symbol { name, kind: SymbolKind::ScriptParam { param_type, slot } },
            ),
            final(self).next_slots() == advance_slot(old(self).next_slots(), base_of(param_type)),
            final(self).decl_totals() == advance_slot(old(self).decl_totals(), base_of(param_type)),
            final(self).parent_scope() == old(self).parent_scope(),
    {
        self.count_decl(param_type.base_type());
        let slot = self.allocate_slot(param_type);
        self.define(name, SymbolKind::ScriptParam { param_type, slot });
        slot
    }

    /// Resolves `name` in this scope or, failing that, in the parent chain.
    pub fn lookup(&self, name: &str) -> (r: Option<&Symbol>)
        ensures
            r matches Some(s) ==> scoped_lookup(*self, name@) == Some(*s),
            r is None ==> scoped_lookup(*self, name@) is None,
        decreases *self,
    {
        match self.symbols.get(name) {
            Some(sym) => Some(sym),
            None => match &self.parent {
                Some(parent) => parent.lookup(name),
                None => None,
            },
        }
    }

    /// Resolves `name` in this scope only.
    pub fn lookup_local(&self, name: &str) -> (r: Option<&Symbol>)
        ensures
            r matches Some(s) ==> self.scope()@.contains_key(name@) && self.scope()@[name@] == *s,
            r is None ==> !self.scope()@.contains_key(name@),
    {
        self.symbols.get(name)
    }

    /// Whether `name` resolves in this scope or a parent.
    pub fn contains(&self, name: &str) -> (b: bool)
        ensures
            b == (scoped_lookup(*self, name@) is Some),
    {
        self.lookup(name).is_some()
    }

    /// The current slot counters (int, string, long).
    pub fn save_slots(&self) -> (r: (i32, i32, i32))
        ensures
            r == self.next_slots(),
    {
        (self.next_int_local, self.next_string_local, self.next_long_local)
    }

    /// Sets the slot counters back to `saved`.
    pub fn restore_slots(&mut self, saved: (i32, i32, i32))
        ensures
            final(self).next_slots() == saved,
            final(self).scope() == old(self).scope(),
            final(self).parent_scope() == old(self).parent_scope(),
            final(self).decl_totals() == old(self).decl_totals(),
    {
        self.next_int_local = saved.0;
        self.next_string_local = saved.1;
        self.next_long_local = saved.2;
    }

    /// Raises each slot counter to at least the matching value of `other`.
    pub fn merge_slots(&mut self, other: (i32, i32, i32))
        ensures
            final(self).next_slots() == (
                max_i32(old(self).next_slots().0, other.0),
                max_i32(old(self).next_slots().1, other.1),
                max_i32(old(self).next_slots().2, other.2),
            ),
            final(self).scope() == old(self).scope(),
            final(self).parent_scope() == old(self).parent_scope(),
            final(self).decl_totals() == old(self).decl_totals(),
    {
        if other.0 > self.next_int_local {
            self.next_int_local = other.0;
        }
        if other.1 > self.next_string_local {
            self.next_string_local = other.1;
        }
        if other.2 > self.next_long_local {
            self.next_long_local = other.2;
        }
    }

    /// Takes over the declaration totals of `child`.
    pub fn merge_decls(&mut self, child: &SymbolTable)
        ensures
            final(self).decl_totals() == child.decl_totals(),
            final(self).scope() == old(self).scope(),
            final(self).parent_scope() == old(self).parent_scope(),
            final(self).next_slots() == old(self).next_slots(),
    {
        self.total_int_decls = child.total_int_decls;
        self.total_string_decls = child.total_string_decls;
        self.total_long_decls = child.total_long_decls;
    }

    /// The int declaration total, as the engine's 16-bit count.
    pub fn int_local_count(&self) -> (n: u16)
        ensures
            n == self.decl_totals().0 as u16,
    {
        self.total_int_decls as u16
    }

    /// The string declaration total, as the engine's 16-bit count.
    pub fn string_local_count(&self) -> (n: u16)
        ensures
            n == self.decl_totals().1 as u16,
    {
        self.total_string_decls as u16
    }

    /// The long declaration total, as the engine's 16-bit count.
    pub fn long_local_count(&self) -> (n: u16)
        ensures
            n == self.decl_totals().2 as u16,
    {
        self.total_long_decls as u16
    }

    /// Sets the slot counters to zero.
    pub fn reset_locals(&mut self)
        ensures
            final(self).next_slots() == (0i32, 0i32, 0i32),
            final(self).scope() == old(self).scope(),
            final(self).parent_scope() == old(self).parent_scope(),
            final(self).decl_totals() == old(self).decl_totals(),
    {
        self.next_int_local = 0;
        self.next_string_local = 0;
        self.next_long_local = 0;
    }

    /// The number of symbols of this scope.
    pub fn len(&self) -> (n: usize)
        ensures
            n == self.scope().keys().len(),
    {
        self.symbols.len()
    }

    /// The `i`-th symbol of this scope, in definition order.
    pub fn entry_at(&self, i: usize) -> (r: (&String, &Symbol))
        requires
            i < self.scope().keys().len(),
        ensures
            r.0@ == self.scope().keys()[i as int],
            *r.1 == self.scope().values()[i as int],
    {
        self.symbols.entry_at(i)
    }
}

/// The slot of storage class `base` in the counters `c`.
pub open spec fn slot_of(c: (i32, i32, i32), base: BaseVarType) -> i32 {
    match base {
        BaseVarType::Integer => c.0,
        BaseVarType::String => c.1,
        BaseVarType::Long => c.2,
    }
}

/// The counters `c` with the one of storage class `base` advanced by one.
pub open spec fn advance_slot(c: (i32, i32, i32), base: BaseVarType) -> (i32, i32, i32) {
    match base {
        BaseVarType::Integer => ((c.0 + 1) as i32, c.1, c.2),
        BaseVarType::String => (c.0, (c.1 + 1) as i32, c.2),
        BaseVarType::Long => (c.0, c.1, (c.2 + 1) as i32),
    }
}

pub open spec fn max_i32(a: i32, b: i32) -> i32 {
    if a >= b {
        a
    } else {
        b
    }
}

// ── SymbolRegistry ─────────────────────────────────────────────────────────

/// The key under which a script is filed by trigger: `trigger:name`.
/// Whether `k` names a game variable of category `cat` in `m`.
pub open spec fn in_category(m: Map<Seq<char>, SymbolView>, k: Seq<char>, cat: Seq<char>) -> bool {
    &&& m.contains_key(k)
    &&& m[k].kind is GameVar
    &&& m[k].kind->GameVar_category == cat
}

/// Whether `r` is the highest id among the game variables of `cat` in `m`.
pub open spec fn is_max_var_id(m: Map<Seq<char>, SymbolView>, cat: Seq<char>, r: i32) -> bool {
    &&& forall|k: Seq<char>| #[trigger] in_category(m, k, cat) ==> m[k].kind->GameVar_var_id <= r
    &&& exists|k: Seq<char>| #[trigger] in_category(m, k, cat) && m[k].kind->GameVar_var_id == r
}

/// The highest id among the game variables of `cat` in `m`, or -1 when
/// there is none.
pub open spec fn max_var_id(m: Map<Seq<char>, SymbolView>, cat: Seq<char>) -> i32 {
    if exists|k: Seq<char>| #[trigger] in_category(m, k, cat) {
        choose|r: i32| is_max_var_id(m, cat, r)
    } else {
        -1i32
    }
}

pub open spec fn trigger_key(trigger: Seq<char>, name: Seq<char>) -> Seq<char> {
    trigger + seq![':'] + name
}

fn make_trigger_key(trigger: &str, name: &str) -> (k: String)
    ensures
        k@ == trigger_key(trigger@, name@),
{
    let mut k = to_owned_string(trigger);
    crate::strings::push_char(&mut k, ':');
    k.append(name);
    k
}

/// The global symbol registry.
pub struct SymbolRegistry {
    pub(crate) scripts: StrMap<Symbol>,
    pub(crate) commands: StrMap<Symbol>,
    pub(crate) game_vars: StrMap<Symbol>,
    pub(crate) constants: StrMap<Symbol>,
    pub(crate) entity_ids: StrMap<EntityEntry>,
    pub(crate) command_param_types: StrMap<Vec<Type>>,
    pub(crate) type_chars: StrMap<i32>,
    pub(crate) script_ids: StrMap<i32>,
    pub(crate) proc_script_ids: StrMap<i32>,
    pub(crate) label_script_ids: StrMap<i32>,
    pub(crate) trigger_script_ids: StrMap<i32>,
    pub(crate) scripts_by_trigger: StrMap<Symbol>,
    pub(crate) preloaded_script_ids: StrMap<i32>,
    pub(crate) dbcolumn_types: StrMap<Type>,
    pub(crate) components: StrMap<i32>,
    pub(crate) interface_ids: StrMap<i32>,
    pub(crate) test_scripts: StrMap<bool>,
    next_script_id: i32,
}

impl SymbolRegistry {
    /// Scripts by name.
    pub closed spec fn script_map(&self) -> Map<Seq<char>, SymbolView> {
        symbol_views(self.scripts@)
    }

    /// Scripts by `trigger:name`.
    pub closed spec fn trigger_script_map(&self) -> Map<Seq<char>, SymbolView> {
        symbol_views(self.scripts_by_trigger@)
    }

    /// Engine commands by name.
    pub closed spec fn command_map(&self) -> Map<Seq<char>, SymbolView> {
        symbol_views(self.commands@)
    }

    /// Parameter types of engine commands by name.
    pub closed spec fn command_params_map(&self) -> Map<Seq<char>, Seq<Type>> {
        self.command_param_types@.map_values(|v: Vec<Type>| v@)
    }

    /// Game variables by name.
    pub closed spec fn game_var_map(&self) -> Map<Seq<char>, SymbolView> {
        symbol_views(self.game_vars@)
    }

    /// Constants by name.
    pub closed spec fn constant_map(&self) -> Map<Seq<char>, SymbolView> {
        symbol_views(self.constants@)
    }

    /// Entity ids by (normalized) name.
    pub closed spec fn entity_map(&self) -> Map<Seq<char>, EntityEntry> {
        self.entity_ids@
    }

    /// Entity names in registration order.
    pub closed spec fn entity_names(&self) -> Seq<Seq<char>> {
        self.entity_ids.keys()
    }

    /// Command names in registration order.
    pub closed spec fn command_names(&self) -> Seq<Seq<char>> {
        self.commands.keys()
    }

    /// Type-name characters by type name.
    pub closed spec fn type_char_map(&self) -> Map<Seq<char>, i32> {
        self.type_chars@
    }

    /// Clientscript-pack script ids by name.
    pub closed spec fn fallback_script_ids(&self) -> Map<Seq<char>, i32> {
        self.script_ids@
    }

    /// Proc ids by name.
    pub closed spec fn proc_id_map(&self) -> Map<Seq<char>, i32> {
        self.proc_script_ids@
    }

    /// Label ids by name.
    pub closed spec fn label_id_map(&self) -> Map<Seq<char>, i32> {
        self.label_script_ids@
    }

    /// Clientscript-pack script ids by `trigger:name`.
    pub closed spec fn fallback_trigger_ids(&self) -> Map<Seq<char>, i32> {
        self.trigger_script_ids@
    }

    /// Ids assigned ahead of registration, by `trigger:name`.
    pub closed spec fn preloaded_map(&self) -> Map<Seq<char>, i32> {
        self.preloaded_script_ids@
    }

    /// Packed component ids by `interface:component` (component name normalized).
    pub closed spec fn component_map(&self) -> Map<Seq<char>, i32> {
        self.components@
    }

    /// Interface ids by name.
    pub closed spec fn interface_map(&self) -> Map<Seq<char>, i32> {
        self.interface_ids@
    }

    /// Test scripts, by `trigger:name`.
    pub closed spec fn test_script_set(&self) -> Set<Seq<char>> {
        self.test_scripts@.dom()
    }

    /// The id the next registered script without a preassigned id receives.
    pub closed spec fn next_id(&self) -> i32 {
        self.next_script_id
    }

    /// An empty registry.
    pub fn new() -> (r: Self)
        ensures
            r.script_map() == Map::<Seq<char>, SymbolView>::empty(),
            r.trigger_script_map() == Map::<Seq<char>, SymbolView>::empty(),
            r.command_map() == Map::<Seq<char>, SymbolView>::empty(),
            r.command_params_map() == Map::<Seq<char>, Seq<Type>>::empty(),
            r.game_var_map() == Map::<Seq<char>, SymbolView>::empty(),
            r.constant_map() == Map::<Seq<char>, SymbolView>::empty(),
            r.entity_map() == Map::<Seq<char>, EntityEntry>::empty(),
            r.entity_names().len() == 0,
            r.command_names().len() == 0,
            r.type_char_map() == Map::<Seq<char>, i32>::empty(),
            r.fallback_script_ids() == Map::<Seq<char>, i32>::empty(),
            r.proc_id_map() == Map::<Seq<char>, i32>::empty(),
            r.label_id_map() == Map::<Seq<char>, i32>::empty(),
            r.fallback_trigger_ids() == Map::<Seq<char>, i32>::empty(),
            r.preloaded_map() == Map::<Seq<char>, i32>::empty(),
            r.component_map() == Map::<Seq<char>, i32>::empty(),
            r.interface_map() == Map::<Seq<char>, i32>::empty(),
            r.test_script_set() == Set::<Seq<char>>::empty(),
            r.next_id() == 0,
    {
        SymbolRegistry {
            scripts: StrMap::new(),
            commands: StrMap::new(),
            game_vars: StrMap::new(),
            constants: StrMap::new(),
            entity_ids: StrMap::new(),
            command_param_types: StrMap::new(),
            type_chars: StrMap::new(),
            script_ids: StrMap::new(),
            proc_script_ids: StrMap::new(),
            label_script_ids: StrMap::new(),
            trigger_script_ids: StrMap::new(),
            scripts_by_trigger: StrMap::new(),
            preloaded_script_ids: StrMap::new(),
            dbcolumn_types: StrMap::new(),
            components: StrMap::new(),
            interface_ids: StrMap::new(),
            test_scripts: StrMap::new(),
            next_script_id: 0,
        }
    }

    /// Registers a script and returns its id: the preassigned id for its
    /// `trigger:name` if there is one, else the next sequential id. The
    /// script is filed by name (the last registration wins) and by
    /// `trigger:name`; procs and labels are also filed in their own id maps.
    pub fn register_script(
        &mut self,
        name: String,
        trigger: String,
        param_types: Vec<Type>,
        return_types: Vec<Type>,
    ) -> (id: i32)
        requires
            !old(self).preloaded_map().contains_key(trigger_key(trigger@, name@)) ==> old(self).next_id()
                < i32::MAX,
        ensures
            id == if old(self).preloaded_map().contains_key(trigger_key(trigger@, name@)) {
                old(self).preloaded_map()[trigger_key(trigger@, name@)]
            } else {
                old(self).next_id()
            },
            final(self).next_id() == if old(self).preloaded_map().contains_key(
                trigger_key(trigger@, name@),
            ) {
                old(self).next_id()
            } else {
                (old(self).next_id() + 1) as i32
            },
            final(self).script_map() == old(self).script_map().insert(
                name@,
                script_symbol(name@, id, trigger@, param_types@, return_types@),
            ),
            final(self).trigger_script_map() == old(self).trigger_script_map().insert(
                trigger_key(trigger@, name@),
                script_symbol(name@, id, trigger@, param_types@, return_types@),
            ),
            final(self).proc_id_map() == if trigger@ == "proc"@ {
                old(self).proc_id_map().insert(name@, id)
            } else {
                old(self).proc_id_map()
            },
            final(self).label_id_map() == if trigger@ == "label"@ && trigger@ != "proc"@ {
                old(self).label_id_map().insert(name@, id)
            } else {
                old(self).label_id_map()
            },
            final(self).preloaded_map() == old(self).preloaded_map(),
            final(self).command_map() == old(self).command_map(),
            final(self).entity_map() == old(self).entity_map(),
            final(self).component_map() == old(self).component_map(),
            final(self).fallback_script_ids() == old(self).fallback_script_ids(),
            final(self).fallback_trigger_ids() == old(self).fallback_trigger_ids(),
            final(self).test_script_set() == old(self).test_script_set(),
    {
        let key = make_trigger_key(trigger.as_str(), name.as_str());
        let id = match self.preloaded_script_ids.get(key.as_str()) {
            Some(preloaded) => *preloaded,
            None => {
                let id = self.next_script_id;
                self.next_script_id = self.next_script_id + 1;
                id
            },
        };
        if crate::strings::str_eq(trigger.as_str(), "proc") {
            self.proc_script_ids.insert(name.clone(), id);
        } else if crate::strings::str_eq(trigger.as_str(), "label") {
            self.label_script_ids.insert(name.clone(), id);
        }
        let symbol = Symbol {
            name: name.clone(),
            kind: SymbolKind::Script { id, trigger, param_types, return_types },
        };
        let copy = symbol.clone();
        let ghost old_by_trigger = self.scripts_by_trigger@;
        let ghost old_scripts = self.scripts@;
        let ghost kv = key@;
        let ghost nv = name@;
        self.scripts_by_trigger.insert(key, copy);
        self.scripts.insert(name, symbol);
        proof {
            assert(symbol_views(old_by_trigger.insert(kv, copy)) =~= symbol_views(old_by_trigger).insert(kv, copy@));
            assert(symbol_views(old_scripts.insert(nv, symbol)) =~= symbol_views(old_scripts).insert(nv, symbol@));
        }
        id
    }

    /// Registers an engine command and its parameter types.
    pub fn register_command(
        &mut self,
        name: String,
        opcode: i32,
        param_types: Vec<Type>,
        return_types: Vec<Type>,
    )
        ensures
            final(self).command_map() == old(self).command_map().insert(
                name@,
                SymbolView {
                    name: name@,
                    kind: KindView::Command {
                        opcode,
                        param_types: param_types@,
                        return_types: return_types@,
                    },
                },
            ),
            final(self).command_params_map() == old(self).command_params_map().insert(
                name@,
                param_types@,
            ),
            final(self).command_names() == if old(self).command_map().contains_key(name@) {
                old(self).command_names()
            } else {
                old(self).command_names().push(name@)
            },
            final(self).script_map() == old(self).script_map(),
            final(self).entity_map() == old(self).entity_map(),
            final(self).interface_map() == old(self).interface_map(),
            final(self).component_map() == old(self).component_map(),
            final(self).game_var_map() == old(self).game_var_map(),
            final(self).type_char_map() == old(self).type_char_map(),
            final(self).preloaded_map() == old(self).preloaded_map(),
    {
        let ghost old_params = self.command_param_types@;
        let ghost old_cmds = self.commands@;
        let ghost nv = name@;
        let copied = copy_types(&param_types);
        self.command_param_types.insert(name.clone(), copied);
        let key = name.clone();
        let sym = Symbol { name, kind: SymbolKind::Command { opcode, param_types, return_types } };
        let ghost sv = sym@;
        self.commands.insert(key, sym);
        proof {
            assert(old_params.insert(nv, copied).map_values(|v: Vec<Type>| v@) =~= old_params.map_values(|v: Vec<Type>| v@).insert(nv, copied@));
            assert(symbol_views(old_cmds.insert(nv, sym)) =~= symbol_views(old_cmds).insert(nv, sv));
        }
    }

    /// Registers a game variable.
    pub fn register_game_var(&mut self, name: String, var_type: Type, var_id: i32, category: String)
        ensures
            final(self).game_var_map() == old(self).game_var_map().insert(
                name@,
                Symbol { name, kind: SymbolKind::GameVar { var_type, var_id, category } }@,
            ),
            final(self).command_map() == old(self).command_map(),
            final(self).entity_map() == old(self).entity_map(),
            final(self).script_map() == old(self).script_map(),
            final(self).interface_map() == old(self).interface_map(),
            final(self).component_map() == old(self).component_map(),
            final(self).type_char_map() == old(self).type_char_map(),
            final(self).preloaded_map() == old(self).preloaded_map(),
    {
        let key = name.clone();
        let ghost old_m = self.game_vars@;
        let sym = Symbol { name, kind: SymbolKind::GameVar { var_type, var_id, category } };
        let ghost kv = key@;
        self.game_vars.insert(key, sym);
        proof {
            assert(symbol_views(old_m.insert(kv, sym)) =~= symbol_views(old_m).insert(kv, sym@));
        }
    }

    /// Registers a constant.
    pub fn register_constant(
        &mut self,
        name: String,
        const_type: Type,
        int_value: Option<i32>,
        string_value: Option<String>,
    )
        ensures
            final(self).constant_map() == old(self).constant_map().insert(
                name@,
                Symbol { name, kind: SymbolKind::Constant { const_type, int_value, string_value } }@,
            ),
            final(self).command_map() == old(self).command_map(),
            final(self).entity_map() == old(self).entity_map(),
            final(self).game_var_map() == old(self).game_var_map(),
            final(self).script_map() == old(self).script_map(),
    {
        let key = name.clone();
        let ghost old_m = self.constants@;
        let sym = Symbol { name, kind: SymbolKind::Constant { const_type, int_value, string_value } };
        let ghost kv = key@;
        self.constants.insert(key, sym);
        proof {
            assert(symbol_views(old_m.insert(kv, sym)) =~= symbol_views(old_m).insert(kv, sym@));
        }
    }

    /// Registers an entity id: it becomes the name's winner for untyped
    /// lookup and its id for typed lookup of `entity_type`.
    pub fn register_entity_id(&mut self, name: String, entity_type: Type, id: i32)
        ensures
            final(self).entity_map().dom() == old(self).entity_map().dom().insert(name@),
            final(self).entity_map()[name@].primary == Some(
                EntityRef { const_type: entity_type, id },
            ),
            forall|t: Type|
                variant_id(final(self).entity_map()[name@].variants@, t) == if t == entity_type {
                    Some(id)
                } else if old(self).entity_map().contains_key(name@) {
                    variant_id(old(self).entity_map()[name@].variants@, t)
                } else {
                    None
                },
            forall|k: Seq<char>|
                k != name@ ==> #[trigger] final(self).entity_map().get(k) == old(
                    self,
                ).entity_map().get(k),
            final(self).component_map() == old(self).component_map(),
            final(self).command_map() == old(self).command_map(),
            final(self).script_map() == old(self).script_map(),
            final(self).interface_map() == old(self).interface_map(),
            final(self).game_var_map() == old(self).game_var_map(),
            final(self).dbcolumn_map() == old(self).dbcolumn_map(),
            final(self).type_char_map() == old(self).type_char_map(),
            final(self).preloaded_map() == old(self).preloaded_map(),
    {
        let mut entry = match self.entity_ids.get(name.as_str()) {
            Some(e) => EntityEntry { primary: e.primary, variants: copy_variants(&e.variants) },
            None => EntityEntry::empty(),
        };
        entry.primary = Some(EntityRef { const_type: entity_type, id });
        entry.set_variant(entity_type, id);
        self.entity_ids.insert(name, entry);
    }

    /// Registers an entity id for typed lookup only; the untyped winner is unchanged.
    pub fn register_entity_id_typed_only(&mut self, name: String, entity_type: Type, id: i32)
        ensures
            final(self).entity_map().dom() == old(self).entity_map().dom().insert(name@),
            final(self).entity_map()[name@].primary == if old(self).entity_map().contains_key(
                name@,
            ) {
                old(self).entity_map()[name@].primary
            } else {
                None
            },
            forall|t: Type|
                variant_id(final(self).entity_map()[name@].variants@, t) == if t == entity_type {
                    Some(id)
                } else if old(self).entity_map().contains_key(name@) {
                    variant_id(old(self).entity_map()[name@].variants@, t)
                } else {
                    None
                },
            forall|k: Seq<char>|
                k != name@ ==> #[trigger] final(self).entity_map().get(k) == old(
                    self,
                ).entity_map().get(k),
            final(self).component_map() == old(self).component_map(),
    {
        let mut entry = match self.entity_ids.get(name.as_str()) {
            Some(e) => EntityEntry { primary: e.primary, variants: copy_variants(&e.variants) },
            None => EntityEntry::empty(),
        };
        entry.set_variant(entity_type, id);
        self.entity_ids.insert(name, entry);
    }

    /// The id registered for `name` (normalized: lowercased, spaces as
    /// underscores) under type `expected`.
    pub fn lookup_entity_id_typed(&self, name: &str, expected: Type) -> (r: Option<i32>)
        ensures
            r == typed_entity(self.entity_map(), normalized_name(name@), expected),
    {
        let normalized = normalize_name(name);
        match self.entity_ids.get(normalized.as_str()) {
            Some(e) => find_variant(&e.variants, expected),
            None => None,
        }
    }

    /// Looks up a script by name.
    pub fn lookup_script(&self, name: &str) -> (r: Option<&Symbol>)
        ensures
            found_in(r, self.script_map(), name@),
    {
        self.scripts.get(name)
    }

    /// Looks up a script by trigger and name.
    pub fn lookup_script_by_trigger(&self, trigger: &str, name: &str) -> (r: Option<&Symbol>)
        ensures
            found_in(r, self.trigger_script_map(), trigger_key(trigger@, name@)),
    {
        let key = make_trigger_key(trigger, name);
        self.scripts_by_trigger.get(key.as_str())
    }

    /// Looks up a command by name.
    pub fn lookup_command(&self, name: &str) -> (r: Option<&Symbol>)
        ensures
            found_in(r, self.command_map(), name@),
    {
        self.commands.get(name)
    }

    /// Looks up a game variable by name.
    pub fn lookup_game_var(&self, name: &str) -> (r: Option<&Symbol>)
        ensures
            found_in(r, self.game_var_map(), name@),
    {
        self.game_vars.get(name)
    }

    /// Looks up a constant by name.
    pub fn lookup_constant(&self, name: &str) -> (r: Option<&Symbol>)
        ensures
            found_in(r, self.constant_map(), name@),
    {
        self.constants.get(name)
    }

    /// The untyped winner registered for `name` (normalized).
    pub fn lookup_entity_id(&self, name: &str) -> (r: Option<EntityRef>)
        ensures
            r == (match self.entity_map().get(normalized_name(name@)) {
                Some(e) => e.primary,
                None => None,
            }),
    {
        let normalized = normalize_name(name);
        match self.entity_ids.get(normalized.as_str()) {
            Some(e) => e.primary,
            None => None,
        }
    }

    /// Forgets the preassigned script ids.
    pub(crate) fn drop_registration_scratch(&mut self)
        ensures
            final(self).preloaded_map() == Map::<Seq<char>, i32>::empty(),
            final(self).script_map() == old(self).script_map(),
            final(self).trigger_script_map() == old(self).trigger_script_map(),
    {
        self.preloaded_script_ids.clear();
    }

    /// The id preassigned to `[trigger,name]`, if any.
    pub fn preloaded_id(&self, trigger: &str, name: &str) -> (r: Option<i32>)
        ensures
            match r {
                Some(id) => self.preloaded_map().contains_key(trigger_key(trigger@, name@))
                    && self.preloaded_map()[trigger_key(trigger@, name@)] == id,
                None => !self.preloaded_map().contains_key(trigger_key(trigger@, name@)),
            },
    {
        let key = make_trigger_key(trigger, name);
        match self.preloaded_script_ids.get(key.as_str()) {
            Some(id) => Some(*id),
            None => None,
        }
    }

    /// The id the next registered script without a preassigned id receives.
    pub fn next_script_id(&self) -> (r: i32)
        ensures
            r == self.next_id(),
    {
        self.next_script_id
    }

    /// Preassigns `id` to the script filed under `trigger:name`.
    pub fn preload_script_id(&mut self, trigger: &str, name: &str, id: i32)
        ensures
            final(self).preloaded_map() == old(self).preloaded_map().insert(
                trigger_key(trigger@, name@),
                id,
            ),
            final(self).next_id() == old(self).next_id(),
            final(self).script_map() == old(self).script_map(),
            final(self).trigger_script_map() == old(self).trigger_script_map(),
            final(self).entity_map() == old(self).entity_map(),
            final(self).command_map() == old(self).command_map(),
            final(self).game_var_map() == old(self).game_var_map(),
            final(self).interface_map() == old(self).interface_map(),
            final(self).component_map() == old(self).component_map(),
            final(self).type_char_map() == old(self).type_char_map(),
    {
        let key = make_trigger_key(trigger, name);
        self.preloaded_script_ids.insert(key, id);
    }

    /// Records a clientscript-pack id by name and by `clientscript:name`.
    pub fn register_clientscript_id(&mut self, name: &str, id: i32)
        ensures
            final(self).fallback_script_ids() == old(self).fallback_script_ids().insert(name@, id),
            final(self).fallback_trigger_ids() == old(self).fallback_trigger_ids().insert(
                trigger_key("clientscript"@, name@),
                id,
            ),
            final(self).script_map() == old(self).script_map(),
            final(self).trigger_script_map() == old(self).trigger_script_map(),
    {
        self.script_ids.insert(to_owned_string(name), id);
        let key = make_trigger_key("clientscript", name);
        self.trigger_script_ids.insert(key, id);
    }

    /// The id of the script named `name`: a registered script first, else a
    /// clientscript-pack id.
    pub fn script_id(&self, name: &str) -> (r: Option<i32>)
        ensures
            r == script_id_spec(self.script_map(), self.fallback_script_ids(), name@),
    {
        if let Some(s) = self.scripts.get(name) {
            if let SymbolKind::Script { id, .. } = &s.kind {
                return Some(*id);
            }
        }
        match self.script_ids.get(name) {
            Some(id) => Some(*id),
            None => None,
        }
    }

    /// The id of the proc `name`.
    pub fn proc_script_id(&self, name: &str) -> (r: Option<i32>)
        ensures
            r == self.proc_id_map().get(name@),
    {
        match self.proc_script_ids.get(name) {
            Some(id) => Some(*id),
            None => None,
        }
    }

    /// The id of the label `name`.
    pub fn label_script_id(&self, name: &str) -> (r: Option<i32>)
        ensures
            r == self.label_id_map().get(name@),
    {
        match self.label_script_ids.get(name) {
            Some(id) => Some(*id),
            None => None,
        }
    }

    /// The id of `[trigger,name]`: a registered script first, else a
    /// clientscript-pack id under the same key.
    pub fn script_id_for_trigger(&self, trigger: &str, name: &str) -> (r: Option<i32>)
        ensures
            r == script_id_spec(
                self.trigger_script_map(),
                self.fallback_trigger_ids(),
                trigger_key(trigger@, name@),
            ),
    {
        let key = make_trigger_key(trigger, name);
        if let Some(s) = self.scripts_by_trigger.get(key.as_str()) {
            if let SymbolKind::Script { id, .. } = &s.kind {
                return Some(*id);
            }
        }
        match self.trigger_script_ids.get(key.as_str()) {
            Some(id) => Some(*id),
            None => None,
        }
    }

    /// The opcode of the command `name`.
    pub fn command_opcode(&self, name: &str) -> (r: Option<i32>)
        ensures
            r == (match self.command_map().get(name@) {
                Some(s) => match s.kind {
                    KindView::Command { opcode, .. } => Some(opcode),
                    _ => None,
                },
                None => None,
            }),
    {
        match self.commands.get(name) {
            Some(sym) => match &sym.kind {
                SymbolKind::Command { opcode, .. } => Some(*opcode),
                _ => None,
            },
            None => None,
        }
    }

    /// The `i`-th registered command, in registration order.
    pub fn command_at(&self, i: usize) -> (r: (&String, &Symbol))
        requires
            i < self.command_names().len(),
        ensures
            r.0@ == self.command_names()[i as int],
            self.command_map().contains_key(r.0@),
            r.1@ == self.command_map()[r.0@],
    {
        let _n = self.commands.len();
        self.commands.entry_at(i)
    }

    /// The number of registered commands.
    pub fn command_count(&self) -> (n: usize)
        ensures
            n == self.command_names().len(),
    {
        self.commands.len()
    }

    /// The number of registered entity names.
    pub fn entity_count(&self) -> (n: usize)
        ensures
            n == self.entity_names().len(),
    {
        self.entity_ids.len()
    }

    /// The `i`-th registered entity name and its entry.
    pub fn entity_at(&self, i: usize) -> (r: (&String, &EntityEntry))
        requires
            i < self.entity_names().len(),
        ensures
            r.0@ == self.entity_names()[i as int],
            self.entity_map().contains_key(r.0@),
            *r.1 == self.entity_map()[r.0@],
    {
        let _n = self.entity_ids.len();
        self.entity_ids.entry_at(i)
    }

    /// Marks `[trigger,name]` as a test script.
    pub fn mark_test_script(&mut self, trigger: &str, name: &str)
        ensures
            final(self).test_script_set() == old(self).test_script_set().insert(
                trigger_key(trigger@, name@),
            ),
            final(self).script_map() == old(self).script_map(),
            final(self).trigger_script_map() == old(self).trigger_script_map(),
            final(self).next_id() == old(self).next_id(),
            final(self).preloaded_map() == old(self).preloaded_map(),
            final(self).command_map() == old(self).command_map(),
            final(self).entity_map() == old(self).entity_map(),
            final(self).component_map() == old(self).component_map(),
    {
        let key = make_trigger_key(trigger, name);
        self.test_scripts.insert(key, true);
    }

    /// Whether `[trigger,name]` is a test script.
    pub fn is_test_script(&self, trigger: &str, name: &str) -> (b: bool)
        ensures
            b == self.test_script_set().contains(trigger_key(trigger@, name@)),
    {
        let key = make_trigger_key(trigger, name);
        self.test_scripts.contains_key(key.as_str())
    }

    /// The id of interface `name`, if registered.
    pub fn interface_id(&self, name: &str) -> (r: Option<i32>)
        ensures
            r == self.interface_map().get(name@),
    {
        match self.interface_ids.get(name) {
            Some(id) => Some(*id),
            None => None,
        }
    }

    /// Records a packed component id under `interface:component`, with the
    /// component name in normalized form.
    pub fn register_component(&mut self, iface_name: &str, comp_name: &str, packed: i32)
        ensures
            final(self).component_map() == old(self).component_map().insert(
                trigger_key(iface_name@, comp_name_form(comp_name@)),
                packed,
            ),
            final(self).entity_map() == old(self).entity_map(),
            final(self).interface_map() == old(self).interface_map(),
            final(self).command_map() == old(self).command_map(),
            final(self).script_map() == old(self).script_map(),
            final(self).game_var_map() == old(self).game_var_map(),
            final(self).type_char_map() == old(self).type_char_map(),
            final(self).preloaded_map() == old(self).preloaded_map(),
    {
        let comp = normalize_comp_name(comp_name);
        let key = make_trigger_key(iface_name, comp.as_str());
        self.components.insert(key, packed);
    }

    /// Records an interface id.
    pub fn register_interface_id(&mut self, name: &str, id: i32)
        ensures
            final(self).interface_map() == old(self).interface_map().insert(name@, id),
            final(self).component_map() == old(self).component_map(),
            final(self).entity_map() == old(self).entity_map(),
            final(self).command_map() == old(self).command_map(),
            final(self).script_map() == old(self).script_map(),
            final(self).game_var_map() == old(self).game_var_map(),
            final(self).type_char_map() == old(self).type_char_map(),
            final(self).preloaded_map() == old(self).preloaded_map(),
    {
        self.interface_ids.insert(to_owned_string(name), id);
    }

    /// Records the type character of a type name.
    pub fn register_type_char(&mut self, name: &str, value: i32)
        ensures
            final(self).type_char_map() == old(self).type_char_map().insert(name@, value),
            final(self).script_map() == old(self).script_map(),
            final(self).command_map() == old(self).command_map(),
            final(self).entity_map() == old(self).entity_map(),
            final(self).game_var_map() == old(self).game_var_map(),
            final(self).interface_map() == old(self).interface_map(),
            final(self).component_map() == old(self).component_map(),
            final(self).preloaded_map() == old(self).preloaded_map(),
    {
        self.type_chars.insert(to_owned_string(name), value);
    }

    /// Records the parameter types of command `name`, in the table of command
    /// parameters and on the command itself where it is registered.
    pub fn set_command_params(&mut self, name: &str, param_types: Vec<Type>)
        ensures
            final(self).command_params_map() == old(self).command_params_map().insert(name@, param_types@),
            final(self).command_map() == if old(self).command_map().contains_key(name@)
                && old(self).command_map()[name@].kind is Command {
                old(self).command_map().insert(
                    name@,
                    SymbolView {
                        name: old(self).command_map()[name@].name,
                        kind: KindView::Command {
                            opcode: old(self).command_map()[name@].kind->Command_opcode,
                            param_types: param_types@,
                            return_types: old(self).command_map()[name@].kind->Command_return_types,
                        },
                    },
                )
            } else {
                old(self).command_map()
            },
            final(self).command_names() == old(self).command_names(),
            final(self).entity_map() == old(self).entity_map(),
            final(self).script_map() == old(self).script_map(),
            final(self).game_var_map() == old(self).game_var_map(),
    {
        let ghost old_params = self.command_param_types@;
        let copied = copy_types(&param_types);
        self.command_param_types.insert(to_owned_string(name), copied);
        proof {
            assert(old_params.insert(name@, copied).map_values(|v: Vec<Type>| v@) =~= old_params.map_values(|v: Vec<Type>| v@).insert(name@, copied@));
        }
        let replacement = match self.commands.get(name) {
            Some(sym) => match &sym.kind {
                SymbolKind::Command { opcode, return_types, .. } => Some(Symbol {
                    name: sym.name.clone(),
                    kind: SymbolKind::Command {
                        opcode: *opcode,
                        param_types,
                        return_types: copy_types(return_types),
                    },
                }),
                _ => None,
            },
            None => None,
        };
        if let Some(sym) = replacement {
            let ghost old_cmds = self.commands@;
            let ghost sv = sym@;
            self.commands.insert(to_owned_string(name), sym);
            proof {
                assert(symbol_views(old_cmds.insert(name@, sym)) =~= symbol_views(old_cmds).insert(name@, sv));
            }
        }
    }

    /// Records the parameter types of command `name` in the table of command
    /// parameters only.
    pub fn set_command_param_table(&mut self, name: &str, param_types: Vec<Type>)
        ensures
            final(self).command_params_map() == old(self).command_params_map().insert(name@, param_types@),
            final(self).command_map() == old(self).command_map(),
            final(self).command_names() == old(self).command_names(),
            final(self).entity_map() == old(self).entity_map(),
            final(self).script_map() == old(self).script_map(),
            final(self).game_var_map() == old(self).game_var_map(),
    {
        let ghost old_params = self.command_param_types@;
        let ghost pv = param_types@;
        self.command_param_types.insert(to_owned_string(name), param_types);
        proof {
            assert(old_params.insert(name@, param_types).map_values(|v: Vec<Type>| v@) =~= old_params.map_values(|v: Vec<Type>| v@).insert(name@, pv));
        }
    }

    /// Records the return types of command `name` where it is registered.
    pub fn set_command_returns(&mut self, name: &str, return_types: Vec<Type>)
        ensures
            final(self).command_map() == if old(self).command_map().contains_key(name@)
                && old(self).command_map()[name@].kind is Command {
                old(self).command_map().insert(
                    name@,
                    SymbolView {
                        name: old(self).command_map()[name@].name,
                        kind: KindView::Command {
                            opcode: old(self).command_map()[name@].kind->Command_opcode,
                            param_types: old(self).command_map()[name@].kind->Command_param_types,
                            return_types: return_types@,
                        },
                    },
                )
            } else {
                old(self).command_map()
            },
            final(self).command_params_map() == old(self).command_params_map(),
            final(self).command_names() == old(self).command_names(),
            final(self).entity_map() == old(self).entity_map(),
            final(self).script_map() == old(self).script_map(),
            final(self).game_var_map() == old(self).game_var_map(),
    {
        let replacement = match self.commands.get(name) {
            Some(sym) => match &sym.kind {
                SymbolKind::Command { opcode, param_types, .. } => Some(Symbol {
                    name: sym.name.clone(),
                    kind: SymbolKind::Command {
                        opcode: *opcode,
                        param_types: copy_types(param_types),
                        return_types,
                    },
                }),
                _ => None,
            },
            None => None,
        };
        if let Some(sym) = replacement {
            let ghost old_cmds = self.commands@;
            let ghost sv = sym@;
            self.commands.insert(to_owned_string(name), sym);
            proof {
                assert(symbol_views(old_cmds.insert(name@, sym)) =~= symbol_views(old_cmds).insert(name@, sv));
            }
        }
    }

    /// Sets the type of game variable `name` where it is registered.
    pub fn set_game_var_type(&mut self, name: &str, var_type: Type)
        ensures
            final(self).game_var_map() == if old(self).game_var_map().contains_key(name@)
                && old(self).game_var_map()[name@].kind is GameVar {
                old(self).game_var_map().insert(
                    name@,
                    SymbolView {
                        name: old(self).game_var_map()[name@].name,
                        kind: KindView::GameVar {
                            var_type,
                            var_id: old(self).game_var_map()[name@].kind->GameVar_var_id,
                            category: old(self).game_var_map()[name@].kind->GameVar_category,
                        },
                    },
                )
            } else {
                old(self).game_var_map()
            },
            final(self).command_map() == old(self).command_map(),
            final(self).entity_map() == old(self).entity_map(),
            final(self).script_map() == old(self).script_map(),
            final(self).component_map() == old(self).component_map(),
    {
        let replacement = match self.game_vars.get(name) {
            Some(sym) => match &sym.kind {
                SymbolKind::GameVar { var_id, category, .. } => Some(Symbol {
                    name: sym.name.clone(),
                    kind: SymbolKind::GameVar { var_type, var_id: *var_id, category: category.clone() },
                }),
                _ => None,
            },
            None => None,
        };
        if let Some(sym) = replacement {
            let ghost old_vars = self.game_vars@;
            let ghost sv = sym@;
            self.game_vars.insert(to_owned_string(name), sym);
            proof {
                assert(symbol_views(old_vars.insert(name@, sym)) =~= symbol_views(old_vars).insert(name@, sv));
            }
        }
    }

    /// The highest id among game variables of `category`, or -1 when there is none.
    pub fn max_game_var_id(&self, category: &str) -> (r: i32)
        ensures
            r == max_var_id(self.game_var_map(), category@),
    {
        let n = self.game_vars.len();
        let mut best: i32 = -1;
        let mut found = false;
        let mut i: usize = 0;
        while i < n
            invariant
                i <= n,
                n == self.game_vars.keys().len(),
                forall|j: int| 0 <= j < self.game_vars.keys().len() ==> self.game_vars@.contains_key(#[trigger] self.game_vars.keys()[j])
                    && self.game_vars@[self.game_vars.keys()[j]] == self.game_vars.values()[j],
                forall|k: Seq<char>| #[trigger] self.game_vars@.contains_key(k) ==> exists|j: int|
                    0 <= j < self.game_vars.keys().len() && self.game_vars.keys()[j] == k,
                forall|j: int| 0 <= j < i ==> (#[trigger] self.game_vars.values()[j]).kind is GameVar
                    && self.game_vars.values()[j].kind->GameVar_category@ == category@
                    ==> self.game_vars.values()[j].kind->GameVar_var_id <= best || !found,
                found ==> forall|j: int| 0 <= j < i ==> (#[trigger] self.game_vars.values()[j]).kind is GameVar
                    && self.game_vars.values()[j].kind->GameVar_category@ == category@
                    ==> self.game_vars.values()[j].kind->GameVar_var_id <= best,
                !found ==> best == -1 && forall|j: int| 0 <= j < i ==> !((#[trigger] self.game_vars.values()[j]).kind is GameVar
                    && self.game_vars.values()[j].kind->GameVar_category@ == category@),
                found ==> exists|j: int| 0 <= j < i && (#[trigger] self.game_vars.values()[j]).kind is GameVar
                    && self.game_vars.values()[j].kind->GameVar_category@ == category@
                    && self.game_vars.values()[j].kind->GameVar_var_id == best,
            decreases n - i,
        {
            let (_, sym) = self.game_vars.entry_at(i);
            if let SymbolKind::GameVar { var_id, category: cat, .. } = &sym.kind {
                if crate::strings::str_eq(cat.as_str(), category) {
                    if !found || *var_id > best {
                        best = *var_id;
                    }
                    found = true;
                }
            }
            i += 1;
        }
        proof {
            assert forall|k: Seq<char>|
                #[trigger] self.game_var_map().contains_key(k) && self.game_var_map()[k].kind is GameVar
                    && self.game_var_map()[k].kind->GameVar_category == category@
                    implies self.game_var_map()[k].kind->GameVar_var_id <= best by {
                let j = choose|j: int| 0 <= j < self.game_vars.keys().len() && self.game_vars.keys()[j] == k;
                assert(self.game_vars@[k] == self.game_vars.values()[j]);
            }
            let m = self.game_var_map();
            if found {
                let j = choose|j: int| 0 <= j < i && (#[trigger] self.game_vars.values()[j]).kind is GameVar
                    && self.game_vars.values()[j].kind->GameVar_category@ == category@
                    && self.game_vars.values()[j].kind->GameVar_var_id == best;
                let k = self.game_vars.keys()[j];
                assert(self.game_var_map().contains_key(k));
                assert(in_category(m, k, category@));
                assert(is_max_var_id(m, category@, best));
                let r2 = choose|r: i32| is_max_var_id(m, category@, r);
                assert(is_max_var_id(m, category@, r2));
                let k2 = choose|k2: Seq<char>| in_category(m, k2, category@) && m[k2].kind->GameVar_var_id == r2;
                assert(m[k2].kind->GameVar_var_id <= best);
                assert(m[k].kind->GameVar_var_id <= r2);
            } else {
                assert forall|k: Seq<char>| !in_category(m, k, category@) by {
                    if in_category(m, k, category@) {
                        let j = choose|j: int| 0 <= j < self.game_vars.keys().len() && self.game_vars.keys()[j] == k;
                        assert(self.game_vars@[k] == self.game_vars.values()[j]);
                    }
                }
            }
        }
        best
    }

    /// Column types of db tables by column name.
    pub closed spec fn dbcolumn_map(&self) -> Map<Seq<char>, Type> {
        self.dbcolumn_types@
    }

    /// Records the type of a db column.
    pub fn register_dbcolumn_type(&mut self, name: &str, t: Type)
        ensures
            final(self).dbcolumn_map() == old(self).dbcolumn_map().insert(name@, t),
            final(self).command_map() == old(self).command_map(),
            final(self).script_map() == old(self).script_map(),
            final(self).component_map() == old(self).component_map(),
            final(self).entity_map() == old(self).entity_map(),
    {
        self.dbcolumn_types.insert(to_owned_string(name), t);
    }

    /// The type of db column `name`.
    pub fn dbcolumn_type(&self, name: &str) -> (r: Option<Type>)
        ensures
            r == self.dbcolumn_map().get(name@),
    {
        match self.dbcolumn_types.get(name) {
            Some(t) => Some(*t),
            None => None,
        }
    }

    /// The parameter types of command `name`.
    pub fn command_param_types_of(&self, name: &str) -> (r: Option<&Vec<Type>>)
        ensures
            r matches Some(v) ==> self.command_params_map().get(name@) == Some(v@),
            r is None ==> self.command_params_map().get(name@) is None,
    {
        self.command_param_types.get(name)
    }

    /// The type character registered for type name `name`.
    pub fn type_char(&self, name: &str) -> (r: Option<i32>)
        ensures
            r == self.type_char_map().get(name@),
    {
        match self.type_chars.get(name) {
            Some(v) => Some(*v),
            None => None,
        }
    }

    /// The number of registered type characters.
    pub fn type_char_count(&self) -> (n: usize)
        ensures
            n == self.type_char_names().len(),
    {
        self.type_chars.len()
    }

    /// Type names with a registered character, in registration order.
    pub closed spec fn type_char_names(&self) -> Seq<Seq<char>> {
        self.type_chars.keys()
    }

    /// The `i`th registered type name and its character.
    pub fn type_char_at(&self, i: usize) -> (r: (&String, i32))
        requires
            i < self.type_char_names().len(),
        ensures
            r.0@ == self.type_char_names()[i as int],
            self.type_char_map().get(r.0@) == Some(r.1),
    {
        let _n = self.type_chars.len();
        let (k, v) = self.type_chars.entry_at(i);
        (k, *v)
    }

    /// The entity entry stored under exactly `name` (not normalized).
    pub fn entity_entry(&self, name: &str) -> (r: Option<&EntityEntry>)
        ensures
            r matches Some(e) ==> self.entity_map().get(name@) == Some(*e),
            r is None ==> self.entity_map().get(name@) is None,
    {
        self.entity_ids.get(name)
    }

    /// The packed id of component `comp_name` of interface `iface_name`; the
    /// component name is normalized so `com2` and `com_2` both match.
    pub fn lookup_component(&self, iface_name: &str, comp_name: &str) -> (r: Option<i32>)
        ensures
            r == self.component_map().get(trigger_key(iface_name@, comp_name_form(comp_name@))),
    {
        let comp = normalize_comp_name(comp_name);
        let key = make_trigger_key(iface_name, comp.as_str());
        match self.components.get(key.as_str()) {
            Some(v) => Some(*v),
            None => None,
        }
    }
}

fn copy_variants(v: &Vec<(Type, i32)>) -> (r: Vec<(Type, i32)>)
    ensures
        r@ == v@,
{
    let mut r: Vec<(Type, i32)> = Vec::new();
    for i in 0..v.len()
        invariant
            r@ == v@.take(i as int),
    {
        r.push(v[i]);
        assert(v@.take(i + 1) == v@.take(i as int).push(v@[i as int]));
    }
    assert(v@.take(v@.len() as int) == v@);
    r
}

/// The view of the symbol registered for a script.
pub open spec fn script_symbol(
    name: Seq<char>,
    id: i32,
    trigger: Seq<char>,
    param_types: Seq<Type>,
    return_types: Seq<Type>,
) -> SymbolView {
    SymbolView { name, kind: KindView::Script { id, trigger, param_types, return_types } }
}

/// Whether the optional symbol `r` is (by view) what `m` holds under `k`.
pub open spec fn found_in<'a>(r: Option<&'a Symbol>, m: Map<Seq<char>, SymbolView>, k: Seq<char>) -> bool {
    match r {
        Some(v) => m.contains_key(k) && v@ == m[k],
        None => !m.contains_key(k),
    }
}

/// The typed entity id of `name` for type `t`.
pub open spec fn typed_entity(m: Map<Seq<char>, EntityEntry>, name: Seq<char>, t: Type) -> Option<
    i32,
> {
    if m.contains_key(name) {
        variant_id(m[name].variants@, t)
    } else {
        None
    }
}

/// A script's id from the primary map, else from the fallback id map.
pub open spec fn script_id_spec(
    primary: Map<Seq<char>, SymbolView>,
    fallback: Map<Seq<char>, i32>,
    key: Seq<char>,
) -> Option<i32> {
    if primary.contains_key(key) && primary[key].kind is Script {
        Some(primary[key].kind->Script_id)
    } else {
        fallback.get(key)
    }
}

/// Whether `c` is an ASCII letter.
pub open spec fn is_alpha(c: char) -> bool {
    ('a' <= c && c <= 'z') || ('A' <= c && c <= 'Z')
}

/// The component-name form used as a lookup key: an underscore between a
/// letter and a digit is dropped, so `com_2` and `com2` agree.
pub open spec fn comp_name_form(s: Seq<char>) -> Seq<char>
    decreases s.len(),
{
    comp_name_prefix(s, s.len() as int)
}

/// [`comp_name_form`] of the first `n` characters, judging each underscore by
/// its neighbours in the whole name.
pub open spec fn comp_name_prefix(s: Seq<char>, n: int) -> Seq<char>
    decreases n,
{
    if n <= 0 {
        seq![]
    } else {
        let i = n - 1;
        let rest = comp_name_prefix(s, i);
        if s[i] == '_' && i > 0 && is_alpha(s[i - 1]) && i + 1 < s.len() && crate::strings::is_digit(
            s[i + 1],
        ) {
            rest
        } else {
            rest.push(s[i])
        }
    }
}

/// Whether the underscore at `i` of `s` is dropped from its component form.
spec fn drop_at(s: Seq<char>, i: int) -> bool {
    s[i] == '_' && i > 0 && is_alpha(s[i - 1]) && i + 1 < s.len() && crate::strings::is_digit(s[i + 1])
}

proof fn lemma_comp_prefix_agree(s1: Seq<char>, s2: Seq<char>, n: int)
    requires
        0 <= n <= s1.len(),
        n <= s2.len(),
        forall|i: int| 0 <= i < n ==> s1[i] == s2[i],
        forall|i: int| 0 <= i < n ==> #[trigger] drop_at(s1, i) == drop_at(s2, i),
    ensures
        comp_name_prefix(s1, n) == comp_name_prefix(s2, n),
    decreases n,
{
    if n > 0 {
        lemma_comp_prefix_agree(s1, s2, n - 1);
        assert(drop_at(s1, n - 1) == drop_at(s2, n - 1));
    }
}

proof fn lemma_comp_prefix_shift(s1: Seq<char>, s2: Seq<char>, k: int, j: int)
    requires
        0 <= k,
        0 <= j,
        k + 1 + j <= s1.len(),
        k + j <= s2.len(),
        comp_name_prefix(s1, k + 1) == comp_name_prefix(s2, k),
        forall|i: int| k + 1 <= i < k + 1 + j ==> #[trigger] s1[i] == s2[i - 1],
        forall|i: int| k + 1 <= i < k + 1 + j ==> #[trigger] drop_at(s1, i) == drop_at(s2, i - 1),
    ensures
        comp_name_prefix(s1, k + 1 + j) == comp_name_prefix(s2, k + j),
    decreases j,
{
    if j > 0 {
        lemma_comp_prefix_shift(s1, s2, k, j - 1);
        assert(drop_at(s1, k + j) == drop_at(s2, k + j - 1));
        assert(s1[k + j] == s2[k + j - 1]);
    }
}

/// A reference written `name_2` and one written `name2` find the same
/// component (`lookup_component` keys by [`comp_name_form`]): where `p` ends
/// with a letter and `d` starts with a digit, `p_d` and `pd` have the same
/// form, so a reference in either spelling resolves against a pack written
/// in the other.
pub proof fn lemma_component_forms_agree(p: Seq<char>, d: Seq<char>)
    requires
        p.len() > 0,
        is_alpha(p.last()),
        d.len() > 0,
        crate::strings::is_digit(d[0]),
    ensures
        comp_name_form(p + seq!['_'] + d) == comp_name_form(p + d),
{
    let s1 = p + seq!['_'] + d;
    let s2 = p + d;
    let k = p.len() as int;
    let j = d.len() as int;
    assert(s1.len() == k + 1 + j);
    assert(s2.len() == k + j);
    assert forall|i: int| 0 <= i < k implies s1[i] == s2[i] by {
        assert(s1[i] == p[i]);
        assert(s2[i] == p[i]);
    }
    assert forall|i: int| 0 <= i < k implies #[trigger] drop_at(s1, i) == drop_at(s2, i) by {
        assert(s1[i] == p[i]);
        assert(s2[i] == p[i]);
        if i > 0 {
            assert(s1[i - 1] == p[i - 1]);
            assert(s2[i - 1] == p[i - 1]);
        }
        if i < k - 1 {
            assert(s1[i + 1] == p[i + 1]);
            assert(s2[i + 1] == p[i + 1]);
        } else {
            assert(p[i] == p.last());
        }
    }
    lemma_comp_prefix_agree(s1, s2, k);
    assert(s1[k] == '_');
    assert(s1[k - 1] == p.last());
    assert(s1[k + 1] == d[0]);
    assert(drop_at(s1, k));
    assert(comp_name_prefix(s1, k + 1) == comp_name_prefix(s1, k));
    assert forall|i: int| k + 1 <= i < k + 1 + j implies #[trigger] s1[i] == s2[i - 1] by {
        assert(s1[i] == d[i - k - 1]);
        assert(s2[i - 1] == d[i - 1 - k]);
    }
    assert forall|i: int| k + 1 <= i < k + 1 + j implies #[trigger] drop_at(s1, i) == drop_at(
        s2,
        i - 1,
    ) by {
        assert(s1[i] == d[i - k - 1]);
        assert(s2[i - 1] == d[i - 1 - k]);
        if i == k + 1 {
            assert(s1[i] == d[0]);
            assert(!drop_at(s1, i));
            assert(s2[i - 1] == d[0]);
            assert(!drop_at(s2, i - 1));
        } else {
            assert(s1[i - 1] == d[i - k - 2]);
            assert(s2[i - 2] == d[i - k - 2]);
            if i + 1 < k + 1 + j {
                assert(s1[i + 1] == d[i - k]);
                assert(s2[i] == d[i - k]);
            }
        }
    }
    lemma_comp_prefix_shift(s1, s2, k, j);
}

/// Drops each underscore that stands between a letter and a digit
/// (`com_2` → `com2`), leaving every other character.
pub fn normalize_comp_name(name: &str) -> (r: String)
    ensures
        r@ == comp_name_form(name@),
{
    let v = chars_of(name);
    let mut out: Vec<char> = Vec::new();
    let mut i: usize = 0;
    while i < v.len()
        invariant
            i <= v@.len(),
            v@ == name@,
            out@ == comp_name_prefix(v@, i as int),
        decreases v.len() - i,
    {
        let c = v[i];
        let strip = c == '_' && i > 0 && (('a' <= v[i - 1] && v[i - 1] <= 'z') || ('A' <= v[i - 1]
            && v[i - 1] <= 'Z')) && i + 1 < v.len() && '0' <= v[i + 1] && v[i + 1] <= '9';
        if !strip {
            out.push(c);
        }
        i += 1;
    }
    string_from_chars(&out)
}

} // verus!
