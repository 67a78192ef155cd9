//! Pointer types, sets of pointers, and which pointers each trigger grants
//! and each engine command requires, sets or corrupts.
use vstd::prelude::*;
use crate::strings::{str_eq, to_lowercase, lowercase, ascii_lower};
use crate::strmap::StrMap;

verus! {

/// The pointer types tracked by the pointer checker.
#[derive(Debug, Clone, Copy, PartialEq, Eq, Structural, Hash)]
pub enum PointerType {
    ActivePlayer,
    ActivePlayer2,
    PActivePlayer,
    PActivePlayer2,
    ActiveNpc,
    ActiveNpc2,
    ActiveLoc,
    ActiveLoc2,
    ActiveObj,
    ActiveObj2,
    FindPlayer,
    FindNpc,
    FindLoc,
    FindObj,
    FindDb,
    LastCom,
    LastInt,
    LastItem,
    LastSlot,
    LastTargetslot,
    LastUseitem,
    LastUseslot,
}

/// The number of pointer types.
pub const POINTER_COUNT: usize = 22;

/// The position of each pointer type (its bit in a [`PointerSet`]).
pub open spec fn ptr_index(p: PointerType) -> nat {
    match p {
        PointerType::ActivePlayer => 0nat,
        PointerType::ActivePlayer2 => 1nat,
        PointerType::PActivePlayer => 2nat,
        PointerType::PActivePlayer2 => 3nat,
        PointerType::ActiveNpc => 4nat,
        PointerType::ActiveNpc2 => 5nat,
        PointerType::ActiveLoc => 6nat,
        PointerType::ActiveLoc2 => 7nat,
        PointerType::ActiveObj => 8nat,
        PointerType::ActiveObj2 => 9nat,
        PointerType::FindPlayer => 10nat,
        PointerType::FindNpc => 11nat,
        PointerType::FindLoc => 12nat,
        PointerType::FindObj => 13nat,
        PointerType::FindDb => 14nat,
        PointerType::LastCom => 15nat,
        PointerType::LastInt => 16nat,
        PointerType::LastItem => 17nat,
        PointerType::LastSlot => 18nat,
        PointerType::LastTargetslot => 19nat,
        PointerType::LastUseitem => 20nat,
        PointerType::LastUseslot => 21nat,
    }
}

/// The pointer type at position `i`.
pub open spec fn ptr_at(i: nat) -> PointerType
    recommends
        i < 22,
{
    if i == 0 {
        PointerType::ActivePlayer
    } else if i == 1 {
        PointerType::ActivePlayer2
    } else if i == 2 {
        PointerType::PActivePlayer
    } else if i == 3 {
        PointerType::PActivePlayer2
    } else if i == 4 {
        PointerType::ActiveNpc
    } else if i == 5 {
        PointerType::ActiveNpc2
    } else if i == 6 {
        PointerType::ActiveLoc
    } else if i == 7 {
        PointerType::ActiveLoc2
    } else if i == 8 {
        PointerType::ActiveObj
    } else if i == 9 {
        PointerType::ActiveObj2
    } else if i == 10 {
        PointerType::FindPlayer
    } else if i == 11 {
        PointerType::FindNpc
    } else if i == 12 {
        PointerType::FindLoc
    } else if i == 13 {
        PointerType::FindObj
    } else if i == 14 {
        PointerType::FindDb
    } else if i == 15 {
        PointerType::LastCom
    } else if i == 16 {
        PointerType::LastInt
    } else if i == 17 {
        PointerType::LastItem
    } else if i == 18 {
        PointerType::LastSlot
    } else if i == 19 {
        PointerType::LastTargetslot
    } else if i == 20 {
        PointerType::LastUseitem
    } else {
        PointerType::LastUseslot
    }
}

/// The name of each pointer type in diagnostics.
pub open spec fn ptr_repr(p: PointerType) -> Seq<char> {
    match p {
        PointerType::ActivePlayer => "active_player"@,
        PointerType::ActivePlayer2 => ".active_player"@,
        PointerType::PActivePlayer => "p_active_player"@,
        PointerType::PActivePlayer2 => ".p_active_player"@,
        PointerType::ActiveNpc => "active_npc"@,
        PointerType::ActiveNpc2 => ".active_npc"@,
        PointerType::ActiveLoc => "active_loc"@,
        PointerType::ActiveLoc2 => ".active_loc"@,
        PointerType::ActiveObj => "active_obj"@,
        PointerType::ActiveObj2 => ".active_obj"@,
        PointerType::FindPlayer => "find_player"@,
        PointerType::FindNpc => "find_npc"@,
        PointerType::FindLoc => "find_loc"@,
        PointerType::FindObj => "find_obj"@,
        PointerType::FindDb => "find_db"@,
        PointerType::LastCom => "last_com"@,
        PointerType::LastInt => "last_int"@,
        PointerType::LastItem => "last_item"@,
        PointerType::LastSlot => "last_slot"@,
        PointerType::LastTargetslot => "last_targetslot"@,
        PointerType::LastUseitem => "last_useitem"@,
        PointerType::LastUseslot => "last_useslot"@,
    }
}

/// Distinct pointer types have distinct names.
pub proof fn lemma_ptr_repr_injective(p: PointerType, q: PointerType)
    requires
        ptr_repr(p) == ptr_repr(q),
    ensures
        p == q,
{
    reveal_strlit("active_player");
    reveal_strlit(".active_player");
    reveal_strlit("p_active_player");
    reveal_strlit(".p_active_player");
    reveal_strlit("active_npc");
    reveal_strlit(".active_npc");
    reveal_strlit("active_loc");
    reveal_strlit(".active_loc");
    reveal_strlit("active_obj");
    reveal_strlit(".active_obj");
    reveal_strlit("find_player");
    reveal_strlit("find_npc");
    reveal_strlit("find_loc");
    reveal_strlit("find_obj");
    reveal_strlit("find_db");
    reveal_strlit("last_com");
    reveal_strlit("last_int");
    reveal_strlit("last_item");
    reveal_strlit("last_slot");
    reveal_strlit("last_targetslot");
    reveal_strlit("last_useitem");
    reveal_strlit("last_useslot");
    let s = ptr_repr(p);
    let t = ptr_repr(q);
    assert(s.len() == t.len());
    assert(s[0] == t[0] && s[1] == t[1] && s[2] == t[2] && s[3] == t[3] && s[4] == t[4] && s[5] == t[5]
        && s[6] == t[6]);
    assert(s.len() > 7 ==> s[7] == t[7]);
    assert(s.len() > 8 ==> s[8] == t[8]);
    assert(s.len() > 9 ==> s[9] == t[9]);
    assert(s.len() > 10 ==> s[10] == t[10]);
}

proof fn lemma_ptr_repr_lowercase(p: PointerType)
    ensures
        forall|i: int| 0 <= i < ptr_repr(p).len() ==> (#[trigger] ptr_repr(p)[i] as u32) < 128,
        ptr_repr(p).map_values(|c: char| ascii_lower(c)) == ptr_repr(p),
{
    reveal_strlit("active_player");
    reveal_strlit(".active_player");
    reveal_strlit("p_active_player");
    reveal_strlit(".p_active_player");
    reveal_strlit("active_npc");
    reveal_strlit(".active_npc");
    reveal_strlit("active_loc");
    reveal_strlit(".active_loc");
    reveal_strlit("active_obj");
    reveal_strlit(".active_obj");
    reveal_strlit("find_player");
    reveal_strlit("find_npc");
    reveal_strlit("find_loc");
    reveal_strlit("find_obj");
    reveal_strlit("find_db");
    reveal_strlit("last_com");
    reveal_strlit("last_int");
    reveal_strlit("last_item");
    reveal_strlit("last_slot");
    reveal_strlit("last_targetslot");
    reveal_strlit("last_useitem");
    reveal_strlit("last_useslot");
    let s = ptr_repr(p);
    assert(s.len() <= 16);
    assert forall|i: int| 0 <= i < s.len() implies (#[trigger] s[i] as u32) < 128 && ascii_lower(s[i]) == s[i] by {
        assert(i == 0 || i == 1 || i == 2 || i == 3 || i == 4 || i == 5 || i == 6 || i == 7 || i == 8 || i == 9
            || i == 10 || i == 11 || i == 12 || i == 13 || i == 14 || i == 15);
    }
    assert(s.map_values(|c: char| ascii_lower(c)) =~= s);
}

pub proof fn lemma_ptr_index(p: PointerType)
    ensures
        ptr_index(p) < 22,
        ptr_at(ptr_index(p)) == p,
{
}

pub proof fn lemma_ptr_at(i: nat)
    requires
        i < 22,
    ensures
        ptr_index(ptr_at(i)) == i,
{
}

impl PointerType {
    /// Every pointer type, in position order.
    pub fn all_types() -> (v: Vec<PointerType>)
        ensures
            v@.len() == 22,
            forall|i: int| 0 <= i < 22 ==> v@[i] == ptr_at(i as nat),
    {
        vec![
            PointerType::ActivePlayer,
            PointerType::ActivePlayer2,
            PointerType::PActivePlayer,
            PointerType::PActivePlayer2,
            PointerType::ActiveNpc,
            PointerType::ActiveNpc2,
            PointerType::ActiveLoc,
            PointerType::ActiveLoc2,
            PointerType::ActiveObj,
            PointerType::ActiveObj2,
            PointerType::FindPlayer,
            PointerType::FindNpc,
            PointerType::FindLoc,
            PointerType::FindObj,
            PointerType::FindDb,
            PointerType::LastCom,
            PointerType::LastInt,
            PointerType::LastItem,
            PointerType::LastSlot,
            PointerType::LastTargetslot,
            PointerType::LastUseitem,
            PointerType::LastUseslot,
        ]
    }

    /// The name used in diagnostics.
    pub fn representation(self) -> (s: &'static str)
        ensures
            s@ == ptr_repr(self),
    {
        match self {
            PointerType::ActivePlayer => "active_player",
            PointerType::ActivePlayer2 => ".active_player",
            PointerType::PActivePlayer => "p_active_player",
            PointerType::PActivePlayer2 => ".p_active_player",
            PointerType::ActiveNpc => "active_npc",
            PointerType::ActiveNpc2 => ".active_npc",
            PointerType::ActiveLoc => "active_loc",
            PointerType::ActiveLoc2 => ".active_loc",
            PointerType::ActiveObj => "active_obj",
            PointerType::ActiveObj2 => ".active_obj",
            PointerType::FindPlayer => "find_player",
            PointerType::FindNpc => "find_npc",
            PointerType::FindLoc => "find_loc",
            PointerType::FindObj => "find_obj",
            PointerType::FindDb => "find_db",
            PointerType::LastCom => "last_com",
            PointerType::LastInt => "last_int",
            PointerType::LastItem => "last_item",
            PointerType::LastSlot => "last_slot",
            PointerType::LastTargetslot => "last_targetslot",
            PointerType::LastUseitem => "last_useitem",
            PointerType::LastUseslot => "last_useslot",
        }
    }

    /// The position of this pointer type.
    pub fn index(self) -> (i: usize)
        ensures
            i == ptr_index(self),
    {
        match self {
            PointerType::ActivePlayer => 0,
            PointerType::ActivePlayer2 => 1,
            PointerType::PActivePlayer => 2,
            PointerType::PActivePlayer2 => 3,
            PointerType::ActiveNpc => 4,
            PointerType::ActiveNpc2 => 5,
            PointerType::ActiveLoc => 6,
            PointerType::ActiveLoc2 => 7,
            PointerType::ActiveObj => 8,
            PointerType::ActiveObj2 => 9,
            PointerType::FindPlayer => 10,
            PointerType::FindNpc => 11,
            PointerType::FindLoc => 12,
            PointerType::FindObj => 13,
            PointerType::FindDb => 14,
            PointerType::LastCom => 15,
            PointerType::LastInt => 16,
            PointerType::LastItem => 17,
            PointerType::LastSlot => 18,
            PointerType::LastTargetslot => 19,
            PointerType::LastUseitem => 20,
            PointerType::LastUseslot => 21,
        }
    }

    /// The pointer type whose name is `name` in lowercase, if any.
    pub fn from_name(name: &str) -> (r: Option<PointerType>)
        ensures
            r matches Some(p) ==> ptr_repr(p) == lowercase(name@),
            r is None ==> forall|p: PointerType| ptr_repr(p) != lowercase(name@),
            forall|p: PointerType| #[trigger] ptr_repr(p) == name@ ==> r == Some(p),
    {
        let lower = to_lowercase(name);
        proof {
            assert forall|p: PointerType| #[trigger] ptr_repr(p) == name@ implies lower@ == name@ by {
                lemma_ptr_repr_lowercase(p);
            }
        }
        let all = PointerType::all_types();
        let mut i: usize = 0;
        while i < all.len()
            invariant
                i <= 22,
                all@.len() == 22,
                forall|k: int| 0 <= k < 22 ==> all@[k] == ptr_at(k as nat),
                forall|k: int| 0 <= k < i ==> ptr_repr(#[trigger] ptr_at(k as nat)) != lower@,
                lower@ == lowercase(name@),
                forall|q: PointerType| #[trigger] ptr_repr(q) == name@ ==> lower@ == name@,
            decreases 22 - i,
        {
            let p = all[i];
            if str_eq(p.representation(), lower.as_str()) {
                proof {
                    assert forall|q: PointerType| #[trigger] ptr_repr(q) == name@ implies p == q by {
                        lemma_ptr_repr_injective(p, q);
                    }
                }
                return Some(p);
            }
            i += 1;
        }
        proof {
            assert forall|p: PointerType| ptr_repr(p) != lowercase(name@) by {
                lemma_ptr_index(p);
                let k = ptr_index(p) as int;
                assert(ptr_repr(ptr_at(k as nat)) != lower@);
            }
        }
        None
    }
}

/// Whether bit `i` of `x` is set.
pub open spec fn bit_set(x: u32, i: nat) -> bool {
    x & (1u32 << (i as u32)) != 0
}

proof fn lemma_bit_ops(x: u32, y: u32, i: u32, j: u32)
    by (bit_vector)
    requires
        i < 32,
        j < 32,
    ensures
        ((x | (1u32 << i)) & (1u32 << j) != 0) == ((x & (1u32 << j) != 0) || i == j),
        ((x & !(1u32 << i)) & (1u32 << j) != 0) == ((x & (1u32 << j) != 0) && i != j),
        ((x | y) & (1u32 << j) != 0) == ((x & (1u32 << j) != 0) || (y & (1u32 << j) != 0)),
        0u32 & (1u32 << j) == 0,
        j < 22 ==> 0x3fffffu32 & (1u32 << j) != 0,
        x < 0x400000 && i < 22 ==> (x | (1u32 << i)) < 0x400000,
        x < 0x400000 ==> (x & !(1u32 << i)) < 0x400000,
        x < 0x400000 && y < 0x400000 ==> (x | y) < 0x400000,
        x < 0x400000 && j >= 22 ==> x & (1u32 << j) == 0,
{
}

proof fn lemma_nonzero_has_bit(x: u32)
    requires
        x != 0,
        x < 0x400000,
    ensures
        exists|i: nat| i < 22 && #[trigger] bit_set(x, i),
{
    assert(x != 0 && x < 0x400000 ==> ((x & (1u32 << 0u32) != 0 || x & (1u32 << 1u32) != 0 || x & (1u32 << 2u32) != 0 || x & (1u32 << 3u32) != 0 || x & (1u32 << 4u32) != 0 || x & (1u32 << 5u32) != 0 || x & (1u32 << 6u32) != 0 || x & (1u32 << 7u32) != 0 || x & (1u32 << 8u32) != 0 || x & (1u32 << 9u32) != 0 || x & (1u32 << 10u32) != 0 || x & (1u32 << 11u32) != 0 || x & (1u32 << 12u32) != 0 || x & (1u32 << 13u32) != 0 || x & (1u32 << 14u32) != 0 || x & (1u32 << 15u32) != 0 || x & (1u32 << 16u32) != 0 || x & (1u32 << 17u32) != 0 || x & (1u32 << 18u32) != 0 || x & (1u32 << 19u32) != 0 || x & (1u32 << 20u32) != 0 || x & (1u32 << 21u32) != 0))) by (bit_vector);
    lemma_bits_witness(x);
}

proof fn lemma_bits_witness(x: u32)
    requires
        (x & (1u32 << 0u32) != 0 || x & (1u32 << 1u32) != 0 || x & (1u32 << 2u32) != 0 || x & (1u32 << 3u32) != 0 || x & (1u32 << 4u32) != 0 || x & (1u32 << 5u32) != 0 || x & (1u32 << 6u32) != 0 || x & (1u32 << 7u32) != 0 || x & (1u32 << 8u32) != 0 || x & (1u32 << 9u32) != 0 || x & (1u32 << 10u32) != 0 || x & (1u32 << 11u32) != 0 || x & (1u32 << 12u32) != 0 || x & (1u32 << 13u32) != 0 || x & (1u32 << 14u32) != 0 || x & (1u32 << 15u32) != 0 || x & (1u32 << 16u32) != 0 || x & (1u32 << 17u32) != 0 || x & (1u32 << 18u32) != 0 || x & (1u32 << 19u32) != 0 || x & (1u32 << 20u32) != 0 || x & (1u32 << 21u32) != 0),
    ensures
        exists|i: nat| i < 22 && #[trigger] bit_set(x, i),
{
    if x & (1u32 << 0u32) != 0 {
        assert(bit_set(x, 0nat));
    }
    if x & (1u32 << 1u32) != 0 {
        assert(bit_set(x, 1nat));
    }
    if x & (1u32 << 2u32) != 0 {
        assert(bit_set(x, 2nat));
    }
    if x & (1u32 << 3u32) != 0 {
        assert(bit_set(x, 3nat));
    }
    if x & (1u32 << 4u32) != 0 {
        assert(bit_set(x, 4nat));
    }
    if x & (1u32 << 5u32) != 0 {
        assert(bit_set(x, 5nat));
    }
    if x & (1u32 << 6u32) != 0 {
        assert(bit_set(x, 6nat));
    }
    if x & (1u32 << 7u32) != 0 {
        assert(bit_set(x, 7nat));
    }
    if x & (1u32 << 8u32) != 0 {
        assert(bit_set(x, 8nat));
    }
    if x & (1u32 << 9u32) != 0 {
        assert(bit_set(x, 9nat));
    }
    if x & (1u32 << 10u32) != 0 {
        assert(bit_set(x, 10nat));
    }
    if x & (1u32 << 11u32) != 0 {
        assert(bit_set(x, 11nat));
    }
    if x & (1u32 << 12u32) != 0 {
        assert(bit_set(x, 12nat));
    }
    if x & (1u32 << 13u32) != 0 {
        assert(bit_set(x, 13nat));
    }
    if x & (1u32 << 14u32) != 0 {
        assert(bit_set(x, 14nat));
    }
    if x & (1u32 << 15u32) != 0 {
        assert(bit_set(x, 15nat));
    }
    if x & (1u32 << 16u32) != 0 {
        assert(bit_set(x, 16nat));
    }
    if x & (1u32 << 17u32) != 0 {
        assert(bit_set(x, 17nat));
    }
    if x & (1u32 << 18u32) != 0 {
        assert(bit_set(x, 18nat));
    }
    if x & (1u32 << 19u32) != 0 {
        assert(bit_set(x, 19nat));
    }
    if x & (1u32 << 20u32) != 0 {
        assert(bit_set(x, 20nat));
    }
    if x & (1u32 << 21u32) != 0 {
        assert(bit_set(x, 21nat));
    }
}

/// A set of pointer types, one bit per type.
#[derive(Debug, Clone, Copy, PartialEq, Eq, Structural)]
pub struct PointerSet(u32);

impl View for PointerSet {
    type V = Set<PointerType>;

    closed spec fn view(&self) -> Set<PointerType> {
        Set::new(|p: PointerType| bit_set(self.0, ptr_index(p)))
    }
}

impl PointerSet {
    #[verifier::type_invariant]
    spec fn inv(self) -> bool {
        self.0 < 0x400000
    }

    /// The empty set.
    pub fn new() -> (s: Self)
        ensures
            s@ == Set::<PointerType>::empty(),
    {
        let s = PointerSet(0);
        proof {
            assert forall|p: PointerType| !s@.contains(p) by {
                lemma_ptr_index(p);
                lemma_bit_ops(0, 0, 0, ptr_index(p) as u32);
            }
            assert(s@ =~= Set::<PointerType>::empty());
        }
        s
    }

    /// The set of all pointer types.
    pub fn all() -> (s: Self)
        ensures
            s@ == Set::<PointerType>::full(),
    {
        let s = PointerSet(0x3fffff);
        proof {
            assert forall|p: PointerType| s@.contains(p) by {
                lemma_ptr_index(p);
                lemma_bit_ops(0, 0, 0, ptr_index(p) as u32);
            }
            assert(s@ =~= Set::<PointerType>::full());
        }
        s
    }

    /// Adds `ptr`.
    pub fn insert(&mut self, ptr: PointerType)
        ensures
            final(self)@ == old(self)@.insert(ptr),
    {
        proof {
            use_type_invariant(&*self);
        }
        let ghost x = self.0;
        let i = ptr.index() as u32;
        let bits = self.0 | (1u32 << i);
        proof {
            lemma_bit_ops(x, 0, i, 0);
            assert forall|p: PointerType| #[trigger] bit_set(bits, ptr_index(p)) == (bit_set(x, ptr_index(p)) || p == ptr) by {
                lemma_ptr_index(p);
                lemma_ptr_index(ptr);
                lemma_bit_ops(x, 0, i, ptr_index(p) as u32);
            }
        }
        *self = PointerSet(bits);
        proof {
            assert(self@ =~= old(self)@.insert(ptr));
        }
    }

    /// Removes `ptr`.
    pub fn remove(&mut self, ptr: PointerType)
        ensures
            final(self)@ == old(self)@.remove(ptr),
    {
        proof {
            use_type_invariant(&*self);
        }
        let ghost x = self.0;
        let i = ptr.index() as u32;
        let bits = self.0 & !(1u32 << i);
        proof {
            lemma_bit_ops(x, 0, i, 0);
            assert forall|p: PointerType| #[trigger] bit_set(bits, ptr_index(p)) == (bit_set(x, ptr_index(p)) && p != ptr) by {
                lemma_ptr_index(p);
                lemma_ptr_index(ptr);
                lemma_bit_ops(x, 0, i, ptr_index(p) as u32);
            }
        }
        *self = PointerSet(bits);
        proof {
            assert(self@ =~= old(self)@.remove(ptr));
        }
    }

    /// Whether `ptr` is in the set.
    pub fn contains(self, ptr: PointerType) -> (b: bool)
        ensures
            b == self@.contains(ptr),
    {
        (self.0 & (1u32 << (ptr.index() as u32))) != 0
    }

    /// The union of two sets.
    pub fn union(self, other: PointerSet) -> (r: PointerSet)
        ensures
            r@ == self@.union(other@),
    {
        proof {
            use_type_invariant(self);
            use_type_invariant(other);
        }
        let bits = self.0 | other.0;
        proof {
            lemma_bit_ops(self.0, other.0, 0, 0);
            assert forall|p: PointerType| #[trigger] bit_set(bits, ptr_index(p)) == (bit_set(self.0, ptr_index(p)) || bit_set(other.0, ptr_index(p))) by {
                lemma_ptr_index(p);
                lemma_bit_ops(self.0, other.0, 0, ptr_index(p) as u32);
            }
        }
        let r = PointerSet(bits);
        proof {
            assert(r@ =~= self@.union(other@));
        }
        r
    }

    /// Whether the set is empty.
    pub fn is_empty(self) -> (b: bool)
        ensures
            b == (self@ == Set::<PointerType>::empty()),
    {
        proof {
            use_type_invariant(self);
            if self.0 == 0 {
                assert forall|p: PointerType| !self@.contains(p) by {
                    lemma_ptr_index(p);
                    lemma_bit_ops(0, 0, 0, ptr_index(p) as u32);
                }
                assert(self@ =~= Set::<PointerType>::empty());
            } else {
                lemma_nonzero_has_bit(self.0);
                let i = choose|i: nat| i < 22 && #[trigger] bit_set(self.0, i);
                lemma_ptr_at(i);
                assert(self@.contains(ptr_at(i)));
            }
        }
        self.0 == 0
    }

    /// This set with `ptr` added.
    pub fn with(self, ptr: PointerType) -> (r: PointerSet)
        ensures
            r@ == self@.insert(ptr),
    {
        let mut r = self;
        r.insert(ptr);
        r
    }

    /// An iterator over the members, lowest position first.
    pub fn iter(self) -> (it: PointerSetIter)
        ensures
            it@ == self@,
    {
        PointerSetIter { rest: self }
    }

    /// The set of the pointer types in `ptrs`.
    pub fn from_slice(ptrs: &[PointerType]) -> (s: PointerSet)
        ensures
            s@ == ptrs@.to_set(),
    {
        let mut s = PointerSet::new();
        let mut i: usize = 0;
        while i < ptrs.len()
            invariant
                i <= ptrs@.len(),
                s@ == ptrs@.take(i as int).to_set(),
            decreases ptrs.len() - i,
        {
            s.insert(ptrs[i]);
            proof {
                assert(ptrs@.take(i + 1) == ptrs@.take(i as int).push(ptrs@[i as int]));
                ptrs@.take(i as int).lemma_push_to_set_commute(ptrs@[i as int]);
            }
            i += 1;
        }
        assert(ptrs@.take(ptrs@.len() as int) == ptrs@);
        s
    }

    /// The members in position order.
    pub fn to_vec(self) -> (v: Vec<PointerType>)
        ensures
            forall|i: int, j: int| 0 <= i < j < v@.len() ==> ptr_index(v@[i]) < ptr_index(v@[j]),
            v@.to_set() == self@,
    {
        let all = PointerType::all_types();
        let mut v: Vec<PointerType> = Vec::new();
        let mut i: usize = 0;
        while i < 22
            invariant
                i <= 22,
                all@.len() == 22,
                forall|k: int| 0 <= k < 22 ==> all@[k] == ptr_at(k as nat),
                forall|a: int, b: int| 0 <= a < b < v@.len() ==> ptr_index(v@[a]) < ptr_index(v@[b]),
                forall|a: int| 0 <= a < v@.len() ==> ptr_index(#[trigger] v@[a]) < i,
                forall|p: PointerType| v@.contains(p) <==> (self@.contains(p) && ptr_index(p) < i),
            decreases 22 - i,
        {
            let p = all[i];
            proof {
                lemma_ptr_at(i as nat);
            }
            let ghost old_v = v@;
            if self.contains(p) {
                v.push(p);
                proof {
                    assert forall|q: PointerType| v@.contains(q) <==> (self@.contains(q) && ptr_index(q) < i + 1) by {
                        if v@.contains(q) && q != p {
                            let k = choose|k: int| 0 <= k < v@.len() && v@[k] == q;
                            assert(old_v[k] == q);
                        }
                        if old_v.contains(q) {
                            let k = choose|k: int| 0 <= k < old_v.len() && old_v[k] == q;
                            assert(v@[k] == q);
                        }
                        if self@.contains(q) && ptr_index(q) == i {
                            lemma_ptr_index(q);
                            assert(v@[v@.len() - 1] == q);
                        }
                    }
                }
            } else {
                proof {
                    assert forall|q: PointerType| v@.contains(q) <==> (self@.contains(q) && ptr_index(q) < i + 1) by {
                        if self@.contains(q) && ptr_index(q) == i {
                            lemma_ptr_index(q);
                        }
                    }
                }
            }
            i += 1;
        }
        proof {
            assert forall|p: PointerType| v@.to_set().contains(p) == self@.contains(p) by {
                lemma_ptr_index(p);
            }
            assert(v@.to_set() =~= self@);
        }
        v
    }
}

/// Iterates over the members of a [`PointerSet`] in position order.
pub struct PointerSetIter {
    rest: PointerSet,
}

impl View for PointerSetIter {
    type V = Set<PointerType>;

    /// The members not yet handed out.
    closed spec fn view(&self) -> Set<PointerType> {
        self.rest@
    }
}

impl PointerSetIter {
    /// Hands out the remaining member of lowest position, or `None` once
    /// every member has been handed out.
    pub fn next(&mut self) -> (r: Option<PointerType>)
        ensures
            r is None <==> old(self)@ == Set::<PointerType>::empty(),
            r is None ==> final(self)@ == old(self)@,
            r matches Some(p) ==> {
                &&& old(self)@.contains(p)
                &&& forall|q: PointerType| #[trigger] old(self)@.contains(q) ==> ptr_index(p) <= ptr_index(q)
                &&& final(self)@ == old(self)@.remove(p)
            },
    {
        let all = PointerType::all_types();
        let mut i: usize = 0;
        while i < 22
            invariant
                i <= 22,
                all@.len() == 22,
                forall|k: int| 0 <= k < 22 ==> all@[k] == ptr_at(k as nat),
                forall|q: PointerType| #[trigger] self.rest@.contains(q) ==> ptr_index(q) >= i,
                self.rest == old(self).rest,
            decreases 22 - i,
        {
            let p = all[i];
            proof {
                lemma_ptr_at(i as nat);
            }
            if self.rest.contains(p) {
                proof {
                    assert forall|q: PointerType| #[trigger] old(self)@.contains(q) implies ptr_index(p) <= ptr_index(q) by {}
                }
                self.rest.remove(p);
                return Some(p);
            }
            proof {
                assert forall|q: PointerType| #[trigger] self.rest@.contains(q) implies ptr_index(q) >= i + 1 by {
                    lemma_ptr_index(q);
                    if ptr_index(q) == i {
                        lemma_ptr_index(p);
                    }
                }
            }
            i += 1;
        }
        proof {
            assert forall|q: PointerType| !self.rest@.contains(q) by {
                lemma_ptr_index(q);
            }
            assert(self.rest@ =~= Set::<PointerType>::empty());
        }
        None
    }
}

/// What an engine command needs, gives and takes away: the pointers it
/// requires, the pointers it sets (only conditionally, where
/// `conditional_set`), and the pointers it leaves corrupted.
#[derive(Debug, Clone, Copy)]
pub struct PointerHolder {
    pub required: PointerSet,
    pub set: PointerSet,
    pub conditional_set: bool,
    pub corrupted: PointerSet,
}

/// The mathematical form of a [`PointerHolder`].
pub struct HolderView {
    pub required: Set<PointerType>,
    pub set: Set<PointerType>,
    pub conditional_set: bool,
    pub corrupted: Set<PointerType>,
}

impl View for PointerHolder {
    type V = HolderView;

    open spec fn view(&self) -> HolderView {
        HolderView {
            required: self.required@,
            set: self.set@,
            conditional_set: self.conditional_set,
            corrupted: self.corrupted@,
        }
    }
}

impl PointerHolder {
    /// A holder that requires, sets and corrupts nothing.
    pub fn empty() -> (h: PointerHolder)
        ensures
            h@ == (HolderView {
                required: Set::empty(),
                set: Set::empty(),
                conditional_set: false,
                corrupted: Set::empty(),
            }),
    {
        PointerHolder {
            required: PointerSet::new(),
            set: PointerSet::new(),
            conditional_set: false,
            corrupted: PointerSet::new(),
        }
    }
}

/// The pointers a script of trigger `t` starts with: every pointer for
/// `proc` and `label`, which run in their caller's context, none for a
/// trigger that is not listed.
pub open spec fn trigger_pointer_set(t: Seq<char>) -> Set<PointerType> {
    trigger_pointer_set_part1(t)
}

/// Part 1 of the table of [`trigger_pointer_set`].
pub open spec fn trigger_pointer_set_part1(t: Seq<char>) -> Set<PointerType> {
    if t == "proc"@ || t == "label"@ {
        Set::full()
    } else if t == "debugproc"@ {
        set![PointerType::ActivePlayer]
    } else if t == "apnpc1"@ || t == "apnpc2"@ || t == "apnpc3"@ || t == "apnpc4"@ || t == "apnpc5"@ {
        set![PointerType::ActivePlayer, PointerType::PActivePlayer, PointerType::ActiveNpc]
    } else if t == "apnpcu"@ {
        set![PointerType::ActivePlayer, PointerType::PActivePlayer, PointerType::LastUseitem, PointerType::LastUseslot, PointerType::ActiveNpc]
    } else if t == "apnpct"@ {
        set![PointerType::ActivePlayer, PointerType::PActivePlayer, PointerType::ActiveNpc]
    } else if t == "opnpc1"@ || t == "opnpc2"@ || t == "opnpc3"@ || t == "opnpc4"@ || t == "opnpc5"@ {
        set![PointerType::ActivePlayer, PointerType::PActivePlayer, PointerType::ActiveNpc]
    } else if t == "opnpcu"@ {
        set![PointerType::ActivePlayer, PointerType::PActivePlayer, PointerType::LastUseitem, PointerType::LastUseslot, PointerType::ActiveNpc]
    } else if t == "opnpct"@ {
        set![PointerType::ActivePlayer, PointerType::PActivePlayer, PointerType::ActiveNpc]
    } else {
        trigger_pointer_set_part2(t)
    }
}

/// Part 2 of the table of [`trigger_pointer_set`].
pub open spec fn trigger_pointer_set_part2(t: Seq<char>) -> Set<PointerType> {
    if t == "ai_apnpc1"@ || t == "ai_apnpc2"@ || t == "ai_apnpc3"@ || t == "ai_apnpc4"@ || t == "ai_apnpc5"@ {
        set![PointerType::ActiveNpc, PointerType::ActiveNpc2]
    } else if t == "ai_opnpc1"@ || t == "ai_opnpc2"@ || t == "ai_opnpc3"@ || t == "ai_opnpc4"@ || t == "ai_opnpc5"@ {
        set![PointerType::ActiveNpc, PointerType::ActiveNpc2]
    } else if t == "apobj1"@ || t == "apobj2"@ || t == "apobj3"@ || t == "apobj4"@ || t == "apobj5"@ {
        set![PointerType::ActivePlayer, PointerType::PActivePlayer, PointerType::ActiveObj]
    } else if t == "apobju"@ {
        set![PointerType::ActivePlayer, PointerType::PActivePlayer, PointerType::LastUseitem, PointerType::LastUseslot, PointerType::ActiveObj]
    } else if t == "apobjt"@ {
        set![PointerType::ActivePlayer, PointerType::PActivePlayer, PointerType::ActiveObj]
    } else if t == "opobj1"@ || t == "opobj2"@ || t == "opobj3"@ || t == "opobj4"@ || t == "opobj5"@ {
        set![PointerType::ActivePlayer, PointerType::PActivePlayer, PointerType::ActiveObj]
    } else if t == "opobju"@ {
        set![PointerType::ActivePlayer, PointerType::PActivePlayer, PointerType::LastUseitem, PointerType::LastUseslot, PointerType::ActiveObj]
    } else if t == "opobjt"@ {
        set![PointerType::ActivePlayer, PointerType::PActivePlayer, PointerType::ActiveObj]
    } else {
        trigger_pointer_set_part3(t)
    }
}

/// Part 3 of the table of [`trigger_pointer_set`].
pub open spec fn trigger_pointer_set_part3(t: Seq<char>) -> Set<PointerType> {
    if t == "ai_apobj1"@ || t == "ai_apobj2"@ || t == "ai_apobj3"@ || t == "ai_apobj4"@ || t == "ai_apobj5"@ {
        set![PointerType::ActiveNpc, PointerType::ActiveObj]
    } else if t == "ai_opobj1"@ || t == "ai_opobj2"@ || t == "ai_opobj3"@ || t == "ai_opobj4"@ || t == "ai_opobj5"@ {
        set![PointerType::ActiveNpc, PointerType::ActiveObj]
    } else if t == "aploc1"@ || t == "aploc2"@ || t == "aploc3"@ || t == "aploc4"@ || t == "aploc5"@ {
        set![PointerType::ActivePlayer, PointerType::PActivePlayer, PointerType::ActiveLoc]
    } else if t == "aplocu"@ {
        set![PointerType::ActivePlayer, PointerType::PActivePlayer, PointerType::LastUseitem, PointerType::LastUseslot, PointerType::ActiveLoc]
    } else if t == "aploct"@ {
        set![PointerType::ActivePlayer, PointerType::PActivePlayer, PointerType::ActiveLoc]
    } else if t == "oploc1"@ || t == "oploc2"@ || t == "oploc3"@ || t == "oploc4"@ || t == "oploc5"@ {
        set![PointerType::ActivePlayer, PointerType::PActivePlayer, PointerType::ActiveLoc]
    } else if t == "oplocu"@ {
        set![PointerType::ActivePlayer, PointerType::PActivePlayer, PointerType::LastUseitem, PointerType::LastUseslot, PointerType::ActiveLoc]
    } else if t == "oploct"@ {
        set![PointerType::ActivePlayer, PointerType::PActivePlayer, PointerType::ActiveLoc]
    } else {
        trigger_pointer_set_part4(t)
    }
}

/// Part 4 of the table of [`trigger_pointer_set`].
pub open spec fn trigger_pointer_set_part4(t: Seq<char>) -> Set<PointerType> {
    if t == "ai_aploc1"@ || t == "ai_aploc2"@ || t == "ai_aploc3"@ || t == "ai_aploc4"@ || t == "ai_aploc5"@ {
        set![PointerType::ActiveNpc, PointerType::ActiveLoc]
    } else if t == "ai_oploc1"@ || t == "ai_oploc2"@ || t == "ai_oploc3"@ || t == "ai_oploc4"@ || t == "ai_oploc5"@ {
        set![PointerType::ActiveNpc, PointerType::ActiveLoc]
    } else if t == "applayer1"@ || t == "applayer2"@ || t == "applayer3"@ || t == "applayer4"@ || t == "applayer5"@ {
        set![PointerType::ActivePlayer, PointerType::PActivePlayer, PointerType::ActivePlayer2]
    } else if t == "applayeru"@ {
        set![PointerType::ActivePlayer, PointerType::PActivePlayer, PointerType::LastUseitem, PointerType::LastUseslot, PointerType::ActivePlayer2]
    } else if t == "applayert"@ {
        set![PointerType::ActivePlayer, PointerType::PActivePlayer, PointerType::ActivePlayer2]
    } else if t == "opplayer1"@ || t == "opplayer2"@ || t == "opplayer3"@ || t == "opplayer4"@ || t == "opplayer5"@ {
        set![PointerType::ActivePlayer, PointerType::PActivePlayer, PointerType::ActivePlayer2]
    } else if t == "opplayeru"@ {
        set![PointerType::ActivePlayer, PointerType::PActivePlayer, PointerType::LastUseitem, PointerType::LastUseslot, PointerType::ActivePlayer2]
    } else if t == "opplayert"@ {
        set![PointerType::ActivePlayer, PointerType::PActivePlayer, PointerType::ActivePlayer2]
    } else {
        trigger_pointer_set_part5(t)
    }
}

/// Part 5 of the table of [`trigger_pointer_set`].
pub open spec fn trigger_pointer_set_part5(t: Seq<char>) -> Set<PointerType> {
    if t == "ai_applayer1"@ || t == "ai_applayer2"@ || t == "ai_applayer3"@ || t == "ai_applayer4"@ || t == "ai_applayer5"@ {
        set![PointerType::ActiveNpc, PointerType::ActivePlayer]
    } else if t == "ai_opplayer1"@ || t == "ai_opplayer2"@ || t == "ai_opplayer3"@ || t == "ai_opplayer4"@ || t == "ai_opplayer5"@ {
        set![PointerType::ActiveNpc, PointerType::ActivePlayer]
    } else if t == "queue"@ {
        set![PointerType::ActivePlayer, PointerType::PActivePlayer]
    } else if t == "ai_queue1"@ || t == "ai_queue2"@ || t == "ai_queue3"@ || t == "ai_queue4"@ || t == "ai_queue5"@ || t == "ai_queue6"@ || t == "ai_queue7"@ || t == "ai_queue8"@ || t == "ai_queue9"@ || t == "ai_queue10"@ || t == "ai_queue11"@ || t == "ai_queue12"@ || t == "ai_queue13"@ || t == "ai_queue14"@ || t == "ai_queue15"@ || t == "ai_queue16"@ || t == "ai_queue17"@ || t == "ai_queue18"@ || t == "ai_queue19"@ || t == "ai_queue20"@ {
        set![PointerType::ActiveNpc, PointerType::LastInt]
    } else if t == "softtimer"@ {
        set![PointerType::ActivePlayer]
    } else if t == "timer"@ {
        set![PointerType::ActivePlayer, PointerType::PActivePlayer]
    } else if t == "ai_timer"@ {
        set![PointerType::ActiveNpc]
    } else if t == "opheld1"@ || t == "opheld2"@ || t == "opheld3"@ || t == "opheld4"@ || t == "opheld5"@ {
        set![PointerType::ActivePlayer, PointerType::PActivePlayer, PointerType::LastItem, PointerType::LastSlot]
    } else {
        trigger_pointer_set_part6(t)
    }
}

/// Part 6 of the table of [`trigger_pointer_set`].
pub open spec fn trigger_pointer_set_part6(t: Seq<char>) -> Set<PointerType> {
    if t == "opheldu"@ {
        set![PointerType::ActivePlayer, PointerType::PActivePlayer, PointerType::LastItem, PointerType::LastSlot, PointerType::LastUseitem, PointerType::LastUseslot]
    } else if t == "opheldt"@ {
        set![PointerType::ActivePlayer, PointerType::PActivePlayer, PointerType::LastItem, PointerType::LastSlot]
    } else if t == "opheld6"@ || t == "opheld7"@ || t == "opheld8"@ || t == "opheld9"@ || t == "opheld10"@ {
        set![PointerType::ActivePlayer, PointerType::PActivePlayer, PointerType::LastItem, PointerType::LastSlot]
    } else if t == "if_button"@ {
        set![PointerType::ActivePlayer, PointerType::LastCom, PointerType::LastSlot, PointerType::LastItem]
    } else if t == "if_close"@ {
        set![PointerType::ActivePlayer]
    } else if t == "inv_button1"@ || t == "inv_button2"@ || t == "inv_button3"@ || t == "inv_button4"@ || t == "inv_button5"@ {
        set![PointerType::ActivePlayer, PointerType::LastItem, PointerType::LastSlot]
    } else if t == "if_button1"@ || t == "if_button2"@ || t == "if_button3"@ || t == "if_button4"@ || t == "if_button5"@ {
        set![PointerType::ActivePlayer, PointerType::LastItem, PointerType::LastSlot]
    } else if t == "inv_buttond"@ || t == "if_buttond"@ {
        set![PointerType::ActivePlayer, PointerType::LastSlot, PointerType::LastTargetslot]
    } else {
        trigger_pointer_set_part7(t)
    }
}

/// Part 7 of the table of [`trigger_pointer_set`].
pub open spec fn trigger_pointer_set_part7(t: Seq<char>) -> Set<PointerType> {
    if t == "inv_button6"@ || t == "inv_button7"@ || t == "inv_button8"@ || t == "inv_button9"@ || t == "inv_button10"@ {
        set![PointerType::ActivePlayer, PointerType::LastItem, PointerType::LastSlot]
    } else if t == "walktrigger"@ {
        set![PointerType::ActivePlayer, PointerType::PActivePlayer]
    } else if t == "login"@ || t == "logout"@ || t == "tutorial"@ || t == "switch_window_mode"@ {
        set![PointerType::ActivePlayer, PointerType::PActivePlayer]
    } else if t == "advancestat"@ || t == "changestat"@ {
        set![PointerType::ActivePlayer, PointerType::PActivePlayer]
    } else if t == "mapzone"@ || t == "mapzoneexit"@ || t == "zone"@ || t == "zoneexit"@ {
        set![PointerType::ActivePlayer, PointerType::PActivePlayer]
    } else if t == "ai_spawn"@ || t == "ai_despawn"@ {
        set![PointerType::ActiveNpc]
    } else if t == "ai_walktrigger"@ {
        set![PointerType::ActiveNpc]
    } else {
        Set::empty()
    }
}

/// The set of pointers that a script of the given trigger starts with.
pub fn trigger_pointers(trigger: &str) -> (s: PointerSet)
    ensures
        s@ == trigger_pointer_set(trigger@),
{
    trigger_pointers_part1(trigger)
}

fn trigger_pointers_part1(trigger: &str) -> (s: PointerSet)
    ensures
        s@ == trigger_pointer_set_part1(trigger@),
{
    if str_eq(trigger, "proc") || str_eq(trigger, "label") {
        PointerSet::all()
    } else if str_eq(trigger, "debugproc") {
        PointerSet::new().with(PointerType::ActivePlayer)
    } else if str_eq(trigger, "apnpc1") || str_eq(trigger, "apnpc2") || str_eq(trigger, "apnpc3") || str_eq(trigger, "apnpc4") || str_eq(trigger, "apnpc5") {
        PointerSet::new().with(PointerType::ActivePlayer).with(PointerType::PActivePlayer).with(PointerType::ActiveNpc)
    } else if str_eq(trigger, "apnpcu") {
        PointerSet::new().with(PointerType::ActivePlayer).with(PointerType::PActivePlayer).with(PointerType::LastUseitem).with(PointerType::LastUseslot).with(PointerType::ActiveNpc)
    } else if str_eq(trigger, "apnpct") {
        PointerSet::new().with(PointerType::ActivePlayer).with(PointerType::PActivePlayer).with(PointerType::ActiveNpc)
    } else if str_eq(trigger, "opnpc1") || str_eq(trigger, "opnpc2") || str_eq(trigger, "opnpc3") || str_eq(trigger, "opnpc4") || str_eq(trigger, "opnpc5") {
        PointerSet::new().with(PointerType::ActivePlayer).with(PointerType::PActivePlayer).with(PointerType::ActiveNpc)
    } else if str_eq(trigger, "opnpcu") {
        PointerSet::new().with(PointerType::ActivePlayer).with(PointerType::PActivePlayer).with(PointerType::LastUseitem).with(PointerType::LastUseslot).with(PointerType::ActiveNpc)
    } else if str_eq(trigger, "opnpct") {
        PointerSet::new().with(PointerType::ActivePlayer).with(PointerType::PActivePlayer).with(PointerType::ActiveNpc)
    } else {
        trigger_pointers_part2(trigger)
    }
}

fn trigger_pointers_part2(trigger: &str) -> (s: PointerSet)
    ensures
        s@ == trigger_pointer_set_part2(trigger@),
{
    if str_eq(trigger, "ai_apnpc1") || str_eq(trigger, "ai_apnpc2") || str_eq(trigger, "ai_apnpc3") || str_eq(trigger, "ai_apnpc4") || str_eq(trigger, "ai_apnpc5") {
        PointerSet::new().with(PointerType::ActiveNpc).with(PointerType::ActiveNpc2)
    } else if str_eq(trigger, "ai_opnpc1") || str_eq(trigger, "ai_opnpc2") || str_eq(trigger, "ai_opnpc3") || str_eq(trigger, "ai_opnpc4") || str_eq(trigger, "ai_opnpc5") {
        PointerSet::new().with(PointerType::ActiveNpc).with(PointerType::ActiveNpc2)
    } else if str_eq(trigger, "apobj1") || str_eq(trigger, "apobj2") || str_eq(trigger, "apobj3") || str_eq(trigger, "apobj4") || str_eq(trigger, "apobj5") {
        PointerSet::new().with(PointerType::ActivePlayer).with(PointerType::PActivePlayer).with(PointerType::ActiveObj)
    } else if str_eq(trigger, "apobju") {
        PointerSet::new().with(PointerType::ActivePlayer).with(PointerType::PActivePlayer).with(PointerType::LastUseitem).with(PointerType::LastUseslot).with(PointerType::ActiveObj)
    } else if str_eq(trigger, "apobjt") {
        PointerSet::new().with(PointerType::ActivePlayer).with(PointerType::PActivePlayer).with(PointerType::ActiveObj)
    } else if str_eq(trigger, "opobj1") || str_eq(trigger, "opobj2") || str_eq(trigger, "opobj3") || str_eq(trigger, "opobj4") || str_eq(trigger, "opobj5") {
        PointerSet::new().with(PointerType::ActivePlayer).with(PointerType::PActivePlayer).with(PointerType::ActiveObj)
    } else if str_eq(trigger, "opobju") {
        PointerSet::new().with(PointerType::ActivePlayer).with(PointerType::PActivePlayer).with(PointerType::LastUseitem).with(PointerType::LastUseslot).with(PointerType::ActiveObj)
    } else if str_eq(trigger, "opobjt") {
        PointerSet::new().with(PointerType::ActivePlayer).with(PointerType::PActivePlayer).with(PointerType::ActiveObj)
    } else {
        trigger_pointers_part3(trigger)
    }
}

fn trigger_pointers_part3(trigger: &str) -> (s: PointerSet)
    ensures
        s@ == trigger_pointer_set_part3(trigger@),
{
    if str_eq(trigger, "ai_apobj1") || str_eq(trigger, "ai_apobj2") || str_eq(trigger, "ai_apobj3") || str_eq(trigger, "ai_apobj4") || str_eq(trigger, "ai_apobj5") {
        PointerSet::new().with(PointerType::ActiveNpc).with(PointerType::ActiveObj)
    } else if str_eq(trigger, "ai_opobj1") || str_eq(trigger, "ai_opobj2") || str_eq(trigger, "ai_opobj3") || str_eq(trigger, "ai_opobj4") || str_eq(trigger, "ai_opobj5") {
        PointerSet::new().with(PointerType::ActiveNpc).with(PointerType::ActiveObj)
    } else if str_eq(trigger, "aploc1") || str_eq(trigger, "aploc2") || str_eq(trigger, "aploc3") || str_eq(trigger, "aploc4") || str_eq(trigger, "aploc5") {
        PointerSet::new().with(PointerType::ActivePlayer).with(PointerType::PActivePlayer).with(PointerType::ActiveLoc)
    } else if str_eq(trigger, "aplocu") {
        PointerSet::new().with(PointerType::ActivePlayer).with(PointerType::PActivePlayer).with(PointerType::LastUseitem).with(PointerType::LastUseslot).with(PointerType::ActiveLoc)
    } else if str_eq(trigger, "aploct") {
        PointerSet::new().with(PointerType::ActivePlayer).with(PointerType::PActivePlayer).with(PointerType::ActiveLoc)
    } else if str_eq(trigger, "oploc1") || str_eq(trigger, "oploc2") || str_eq(trigger, "oploc3") || str_eq(trigger, "oploc4") || str_eq(trigger, "oploc5") {
        PointerSet::new().with(PointerType::ActivePlayer).with(PointerType::PActivePlayer).with(PointerType::ActiveLoc)
    } else if str_eq(trigger, "oplocu") {
        PointerSet::new().with(PointerType::ActivePlayer).with(PointerType::PActivePlayer).with(PointerType::LastUseitem).with(PointerType::LastUseslot).with(PointerType::ActiveLoc)
    } else if str_eq(trigger, "oploct") {
        PointerSet::new().with(PointerType::ActivePlayer).with(PointerType::PActivePlayer).with(PointerType::ActiveLoc)
    } else {
        trigger_pointers_part4(trigger)
    }
}

fn trigger_pointers_part4(trigger: &str) -> (s: PointerSet)
    ensures
        s@ == trigger_pointer_set_part4(trigger@),
{
    if str_eq(trigger, "ai_aploc1") || str_eq(trigger, "ai_aploc2") || str_eq(trigger, "ai_aploc3") || str_eq(trigger, "ai_aploc4") || str_eq(trigger, "ai_aploc5") {
        PointerSet::new().with(PointerType::ActiveNpc).with(PointerType::ActiveLoc)
    } else if str_eq(trigger, "ai_oploc1") || str_eq(trigger, "ai_oploc2") || str_eq(trigger, "ai_oploc3") || str_eq(trigger, "ai_oploc4") || str_eq(trigger, "ai_oploc5") {
        PointerSet::new().with(PointerType::ActiveNpc).with(PointerType::ActiveLoc)
    } else if str_eq(trigger, "applayer1") || str_eq(trigger, "applayer2") || str_eq(trigger, "applayer3") || str_eq(trigger, "applayer4") || str_eq(trigger, "applayer5") {
        PointerSet::new().with(PointerType::ActivePlayer).with(PointerType::PActivePlayer).with(PointerType::ActivePlayer2)
    } else if str_eq(trigger, "applayeru") {
        PointerSet::new().with(PointerType::ActivePlayer).with(PointerType::PActivePlayer).with(PointerType::LastUseitem).with(PointerType::LastUseslot).with(PointerType::ActivePlayer2)
    } else if str_eq(trigger, "applayert") {
        PointerSet::new().with(PointerType::ActivePlayer).with(PointerType::PActivePlayer).with(PointerType::ActivePlayer2)
    } else if str_eq(trigger, "opplayer1") || str_eq(trigger, "opplayer2") || str_eq(trigger, "opplayer3") || str_eq(trigger, "opplayer4") || str_eq(trigger, "opplayer5") {
        PointerSet::new().with(PointerType::ActivePlayer).with(PointerType::PActivePlayer).with(PointerType::ActivePlayer2)
    } else if str_eq(trigger, "opplayeru") {
        PointerSet::new().with(PointerType::ActivePlayer).with(PointerType::PActivePlayer).with(PointerType::LastUseitem).with(PointerType::LastUseslot).with(PointerType::ActivePlayer2)
    } else if str_eq(trigger, "opplayert") {
        PointerSet::new().with(PointerType::ActivePlayer).with(PointerType::PActivePlayer).with(PointerType::ActivePlayer2)
    } else {
        trigger_pointers_part5(trigger)
    }
}

fn trigger_pointers_part5(trigger: &str) -> (s: PointerSet)
    ensures
        s@ == trigger_pointer_set_part5(trigger@),
{
    if str_eq(trigger, "ai_applayer1") || str_eq(trigger, "ai_applayer2") || str_eq(trigger, "ai_applayer3") || str_eq(trigger, "ai_applayer4") || str_eq(trigger, "ai_applayer5") {
        PointerSet::new().with(PointerType::ActiveNpc).with(PointerType::ActivePlayer)
    } else if str_eq(trigger, "ai_opplayer1") || str_eq(trigger, "ai_opplayer2") || str_eq(trigger, "ai_opplayer3") || str_eq(trigger, "ai_opplayer4") || str_eq(trigger, "ai_opplayer5") {
        PointerSet::new().with(PointerType::ActiveNpc).with(PointerType::ActivePlayer)
    } else if str_eq(trigger, "queue") {
        PointerSet::new().with(PointerType::ActivePlayer).with(PointerType::PActivePlayer)
    } else if str_eq(trigger, "ai_queue1") || str_eq(trigger, "ai_queue2") || str_eq(trigger, "ai_queue3") || str_eq(trigger, "ai_queue4") || str_eq(trigger, "ai_queue5") || str_eq(trigger, "ai_queue6") || str_eq(trigger, "ai_queue7") || str_eq(trigger, "ai_queue8") || str_eq(trigger, "ai_queue9") || str_eq(trigger, "ai_queue10") || str_eq(trigger, "ai_queue11") || str_eq(trigger, "ai_queue12") || str_eq(trigger, "ai_queue13") || str_eq(trigger, "ai_queue14") || str_eq(trigger, "ai_queue15") || str_eq(trigger, "ai_queue16") || str_eq(trigger, "ai_queue17") || str_eq(trigger, "ai_queue18") || str_eq(trigger, "ai_queue19") || str_eq(trigger, "ai_queue20") {
        PointerSet::new().with(PointerType::ActiveNpc).with(PointerType::LastInt)
    } else if str_eq(trigger, "softtimer") {
        PointerSet::new().with(PointerType::ActivePlayer)
    } else if str_eq(trigger, "timer") {
        PointerSet::new().with(PointerType::ActivePlayer).with(PointerType::PActivePlayer)
    } else if str_eq(trigger, "ai_timer") {
        PointerSet::new().with(PointerType::ActiveNpc)
    } else if str_eq(trigger, "opheld1") || str_eq(trigger, "opheld2") || str_eq(trigger, "opheld3") || str_eq(trigger, "opheld4") || str_eq(trigger, "opheld5") {
        PointerSet::new().with(PointerType::ActivePlayer).with(PointerType::PActivePlayer).with(PointerType::LastItem).with(PointerType::LastSlot)
    } else {
        trigger_pointers_part6(trigger)
    }
}

fn trigger_pointers_part6(trigger: &str) -> (s: PointerSet)
    ensures
        s@ == trigger_pointer_set_part6(trigger@),
{
    if str_eq(trigger, "opheldu") {
        PointerSet::new().with(PointerType::ActivePlayer).with(PointerType::PActivePlayer).with(PointerType::LastItem).with(PointerType::LastSlot).with(PointerType::LastUseitem).with(PointerType::LastUseslot)
    } else if str_eq(trigger, "opheldt") {
        PointerSet::new().with(PointerType::ActivePlayer).with(PointerType::PActivePlayer).with(PointerType::LastItem).with(PointerType::LastSlot)
    } else if str_eq(trigger, "opheld6") || str_eq(trigger, "opheld7") || str_eq(trigger, "opheld8") || str_eq(trigger, "opheld9") || str_eq(trigger, "opheld10") {
        PointerSet::new().with(PointerType::ActivePlayer).with(PointerType::PActivePlayer).with(PointerType::LastItem).with(PointerType::LastSlot)
    } else if str_eq(trigger, "if_button") {
        PointerSet::new().with(PointerType::ActivePlayer).with(PointerType::LastCom).with(PointerType::LastSlot).with(PointerType::LastItem)
    } else if str_eq(trigger, "if_close") {
        PointerSet::new().with(PointerType::ActivePlayer)
    } else if str_eq(trigger, "inv_button1") || str_eq(trigger, "inv_button2") || str_eq(trigger, "inv_button3") || str_eq(trigger, "inv_button4") || str_eq(trigger, "inv_button5") {
        PointerSet::new().with(PointerType::ActivePlayer).with(PointerType::LastItem).with(PointerType::LastSlot)
    } else if str_eq(trigger, "if_button1") || str_eq(trigger, "if_button2") || str_eq(trigger, "if_button3") || str_eq(trigger, "if_button4") || str_eq(trigger, "if_button5") {
        PointerSet::new().with(PointerType::ActivePlayer).with(PointerType::LastItem).with(PointerType::LastSlot)
    } else if str_eq(trigger, "inv_buttond") || str_eq(trigger, "if_buttond") {
        PointerSet::new().with(PointerType::ActivePlayer).with(PointerType::LastSlot).with(PointerType::LastTargetslot)
    } else {
        trigger_pointers_part7(trigger)
    }
}

fn trigger_pointers_part7(trigger: &str) -> (s: PointerSet)
    ensures
        s@ == trigger_pointer_set_part7(trigger@),
{
    if str_eq(trigger, "inv_button6") || str_eq(trigger, "inv_button7") || str_eq(trigger, "inv_button8") || str_eq(trigger, "inv_button9") || str_eq(trigger, "inv_button10") {
        PointerSet::new().with(PointerType::ActivePlayer).with(PointerType::LastItem).with(PointerType::LastSlot)
    } else if str_eq(trigger, "walktrigger") {
        PointerSet::new().with(PointerType::ActivePlayer).with(PointerType::PActivePlayer)
    } else if str_eq(trigger, "login") || str_eq(trigger, "logout") || str_eq(trigger, "tutorial") || str_eq(trigger, "switch_window_mode") {
        PointerSet::new().with(PointerType::ActivePlayer).with(PointerType::PActivePlayer)
    } else if str_eq(trigger, "advancestat") || str_eq(trigger, "changestat") {
        PointerSet::new().with(PointerType::ActivePlayer).with(PointerType::PActivePlayer)
    } else if str_eq(trigger, "mapzone") || str_eq(trigger, "mapzoneexit") || str_eq(trigger, "zone") || str_eq(trigger, "zoneexit") {
        PointerSet::new().with(PointerType::ActivePlayer).with(PointerType::PActivePlayer)
    } else if str_eq(trigger, "ai_spawn") || str_eq(trigger, "ai_despawn") {
        PointerSet::new().with(PointerType::ActiveNpc)
    } else if str_eq(trigger, "ai_walktrigger") {
        PointerSet::new().with(PointerType::ActiveNpc)
    } else {
        PointerSet::new()
    }
}


} // verus!
