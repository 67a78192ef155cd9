//! The value types of RuneScript: the declared types of locals, parameters,
//! return values and entity ids, and the three storage classes they map to.
use vstd::prelude::*;
use crate::strings::str_eq;

verus! {

/// How a value of a given type is stored by the script engine.
#[derive(Debug, Clone, Copy, PartialEq, Eq, Structural, Hash)]
pub enum BaseVarType {
    Integer,
    String,
    Long,
}

/// A RuneScript value type.
#[derive(Debug, Clone, Copy, PartialEq, Eq, Structural, Hash)]
pub enum Type {
    Int,
    Boolean,
    String,
    Long,
    Char,
    Coord,
    Obj,
    NamedObj,
    Npc,
    Loc,
    Stat,
    Inv,
    Enum,
    Struct,
    Param,
    DbRow,
    DbTable,
    DbColumn,
    Component,
    Interface,
    OverlayInterface,
    Category,
    Sequence,
    Spotanim,
    Synth,
    Midi,
    Jingle,
    MesAnim,
    IdKit,
    Model,
    FontMetrics,
    Hunt,
    NpcMode,
    NpcStat,
    LocShape,
    PlayerUid,
    NpcUid,
    Controller,
    WriteinvObj,
    Proc,
    Label,
    Queue,
    Timer,
    SoftTimer,
    Walktrigger,
    IfButton,
}

/// The type that a type name (as written in parameter lists, return lists and
/// `def_` keywords) denotes, if any.
pub open spec fn named_type(s: Seq<char>) -> Option<Type> {
    if s == "int"@ {
        Some(Type::Int)
    } else if s == "boolean"@ {
        Some(Type::Boolean)
    } else if s == "string"@ {
        Some(Type::String)
    } else if s == "long"@ {
        Some(Type::Long)
    } else if s == "char"@ {
        Some(Type::Char)
    } else if s == "coord"@ {
        Some(Type::Coord)
    } else if s == "obj"@ {
        Some(Type::Obj)
    } else if s == "namedobj"@ {
        Some(Type::NamedObj)
    } else if s == "npc"@ {
        Some(Type::Npc)
    } else if s == "loc"@ {
        Some(Type::Loc)
    } else if s == "stat"@ {
        Some(Type::Stat)
    } else if s == "inv"@ {
        Some(Type::Inv)
    } else if s == "enum"@ {
        Some(Type::Enum)
    } else if s == "struct"@ {
        Some(Type::Struct)
    } else if s == "param"@ {
        Some(Type::Param)
    } else if s == "dbrow"@ {
        Some(Type::DbRow)
    } else if s == "dbtable"@ {
        Some(Type::DbTable)
    } else if s == "dbcolumn"@ {
        Some(Type::DbColumn)
    } else if s == "component"@ {
        Some(Type::Component)
    } else if s == "interface"@ {
        Some(Type::Interface)
    } else if s == "overlayinterface"@ {
        Some(Type::OverlayInterface)
    } else if s == "category"@ {
        Some(Type::Category)
    } else if s == "seq"@ {
        Some(Type::Sequence)
    } else if s == "spotanim"@ {
        Some(Type::Spotanim)
    } else if s == "synth"@ {
        Some(Type::Synth)
    } else if s == "midi"@ {
        Some(Type::Midi)
    } else if s == "jingle"@ {
        Some(Type::Jingle)
    } else if s == "mesanim"@ {
        Some(Type::MesAnim)
    } else if s == "idk"@ {
        Some(Type::IdKit)
    } else if s == "model"@ {
        Some(Type::Model)
    } else if s == "fontmetrics"@ {
        Some(Type::FontMetrics)
    } else if s == "hunt"@ {
        Some(Type::Hunt)
    } else if s == "npc_mode"@ {
        Some(Type::NpcMode)
    } else if s == "npc_stat"@ {
        Some(Type::NpcStat)
    } else if s == "locshape"@ {
        Some(Type::LocShape)
    } else if s == "player_uid"@ {
        Some(Type::PlayerUid)
    } else if s == "npc_uid"@ {
        Some(Type::NpcUid)
    } else if s == "controller"@ {
        Some(Type::Controller)
    } else if s == "writeinv"@ {
        Some(Type::WriteinvObj)
    } else if s == "proc"@ {
        Some(Type::Proc)
    } else if s == "label"@ {
        Some(Type::Label)
    } else if s == "queue"@ {
        Some(Type::Queue)
    } else if s == "timer"@ {
        Some(Type::Timer)
    } else if s == "softtimer"@ {
        Some(Type::SoftTimer)
    } else if s == "walktrigger"@ {
        Some(Type::Walktrigger)
    } else if s == "if_button"@ {
        Some(Type::IfButton)
    } else if s == "idkit"@ {
        Some(Type::IdKit)
    } else {
        None
    }
}

/// The storage class of each type.
pub open spec fn base_of(t: Type) -> BaseVarType {
    match t {
        Type::String => BaseVarType::String,
        Type::Long => BaseVarType::Long,
        _ => BaseVarType::Integer,
    }
}

/// The value an integer-stored variable of type `t` holds before any write:
/// `0` for `int` and `boolean`, `-1` (null) for every other integer type.
pub open spec fn default_int_of(t: Type) -> i32 {
    match t {
        Type::Int | Type::Boolean => 0i32,
        _ => -1i32,
    }
}

impl Type {
    /// Resolves a type name such as `int`, `obj` or `npc_stat`.
    pub fn from_name(name: &str) -> (r: Option<Type>)
        ensures
            r == named_type(name@),
    {
        if str_eq(name, "int") {
            Some(Type::Int)
        } else if str_eq(name, "boolean") {
            Some(Type::Boolean)
        } else if str_eq(name, "string") {
            Some(Type::String)
        } else if str_eq(name, "long") {
            Some(Type::Long)
        } else if str_eq(name, "char") {
            Some(Type::Char)
        } else if str_eq(name, "coord") {
            Some(Type::Coord)
        } else if str_eq(name, "obj") {
            Some(Type::Obj)
        } else if str_eq(name, "namedobj") {
            Some(Type::NamedObj)
        } else if str_eq(name, "npc") {
            Some(Type::Npc)
        } else if str_eq(name, "loc") {
            Some(Type::Loc)
        } else if str_eq(name, "stat") {
            Some(Type::Stat)
        } else if str_eq(name, "inv") {
            Some(Type::Inv)
        } else if str_eq(name, "enum") {
            Some(Type::Enum)
        } else if str_eq(name, "struct") {
            Some(Type::Struct)
        } else if str_eq(name, "param") {
            Some(Type::Param)
        } else if str_eq(name, "dbrow") {
            Some(Type::DbRow)
        } else if str_eq(name, "dbtable") {
            Some(Type::DbTable)
        } else if str_eq(name, "dbcolumn") {
            Some(Type::DbColumn)
        } else if str_eq(name, "component") {
            Some(Type::Component)
        } else if str_eq(name, "interface") {
            Some(Type::Interface)
        } else if str_eq(name, "overlayinterface") {
            Some(Type::OverlayInterface)
        } else if str_eq(name, "category") {
            Some(Type::Category)
        } else if str_eq(name, "seq") {
            Some(Type::Sequence)
        } else if str_eq(name, "spotanim") {
            Some(Type::Spotanim)
        } else if str_eq(name, "synth") {
            Some(Type::Synth)
        } else if str_eq(name, "midi") {
            Some(Type::Midi)
        } else if str_eq(name, "jingle") {
            Some(Type::Jingle)
        } else if str_eq(name, "mesanim") {
            Some(Type::MesAnim)
        } else if str_eq(name, "idk") {
            Some(Type::IdKit)
        } else if str_eq(name, "model") {
            Some(Type::Model)
        } else if str_eq(name, "fontmetrics") {
            Some(Type::FontMetrics)
        } else if str_eq(name, "hunt") {
            Some(Type::Hunt)
        } else if str_eq(name, "npc_mode") {
            Some(Type::NpcMode)
        } else if str_eq(name, "npc_stat") {
            Some(Type::NpcStat)
        } else if str_eq(name, "locshape") {
            Some(Type::LocShape)
        } else if str_eq(name, "player_uid") {
            Some(Type::PlayerUid)
        } else if str_eq(name, "npc_uid") {
            Some(Type::NpcUid)
        } else if str_eq(name, "controller") {
            Some(Type::Controller)
        } else if str_eq(name, "writeinv") {
            Some(Type::WriteinvObj)
        } else if str_eq(name, "proc") {
            Some(Type::Proc)
        } else if str_eq(name, "label") {
            Some(Type::Label)
        } else if str_eq(name, "queue") {
            Some(Type::Queue)
        } else if str_eq(name, "timer") {
            Some(Type::Timer)
        } else if str_eq(name, "softtimer") {
            Some(Type::SoftTimer)
        } else if str_eq(name, "walktrigger") {
            Some(Type::Walktrigger)
        } else if str_eq(name, "if_button") {
            Some(Type::IfButton)
        } else if str_eq(name, "idkit") {
            Some(Type::IdKit)
        } else {
            None
        }
    }

    /// Resolves a `def_<type>` keyword to the declared type.
    pub fn from_def_str(word: &str) -> (r: Option<Type>)
        ensures
            r == (if crate::strings::is_prefix("def_"@, word@) {
                named_type(word@.skip(4))
            } else {
                None
            }),
    {
        proof {
            reveal_strlit("def_");
        }
        if !crate::strings::starts_with(word, "def_") {
            return None;
        }
        let v = crate::strings::chars_of(word);
        let rest = crate::strings::string_from_range(&v, 4, v.len());
        assert(v@.subrange(4, v@.len() as int) == word@.skip(4));
        Type::from_name(rest.as_str())
    }

    /// The storage class of this type.
    pub fn base_type(self) -> (b: BaseVarType)
        ensures
            b == base_of(self),
    {
        match self {
            Type::String => BaseVarType::String,
            Type::Long => BaseVarType::Long,
            _ => BaseVarType::Integer,
        }
    }

    /// The initial value of an integer-stored variable of this type.
    pub fn default_int_value(self) -> (v: i32)
        ensures
            v == default_int_of(self),
    {
        match self {
            Type::Int | Type::Boolean => 0,
            _ => -1,
        }
    }

    /// The value returned for this type when a script falls off its end.
    pub fn default_return_value(self) -> (v: i32)
        ensures
            v == default_int_of(self),
    {
        self.default_int_value()
    }
}

} // verus!
