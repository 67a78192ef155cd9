//! The table of what each engine command requires, sets and corrupts, and
//! the map from command name to [`PointerHolder`] built from it.
use vstd::prelude::*;
use crate::pointer::{PointerType, PointerSet, PointerHolder, HolderView};
use crate::strings::{to_lowercase, lowercase, push_char, push_str};
use crate::strmap::StrMap;

verus! {

/// One row of the command table: a command's primary requirements and, for
/// a command with a secondary (`.`-prefixed) form, those of that form.
#[derive(Debug, Clone, Copy)]
pub struct CommandRow {
    pub name: &'static str,
    pub required: PointerSet,
    pub set: PointerSet,
    pub corrupted: PointerSet,
    pub required2: PointerSet,
    pub set2: PointerSet,
    pub corrupted2: PointerSet,
    pub conditional: bool,
}

/// The mathematical form of a [`CommandRow`].
pub struct CommandRowView {
    pub name: Seq<char>,
    pub required: Set<PointerType>,
    pub set: Set<PointerType>,
    pub corrupted: Set<PointerType>,
    pub required2: Set<PointerType>,
    pub set2: Set<PointerType>,
    pub corrupted2: Set<PointerType>,
    pub conditional: bool,
}

impl View for CommandRow {
    type V = CommandRowView;

    open spec fn view(&self) -> CommandRowView {
        CommandRowView {
            name: self.name@,
            required: self.required@,
            set: self.set@,
            corrupted: self.corrupted@,
            required2: self.required2@,
            set2: self.set2@,
            corrupted2: self.corrupted2@,
            conditional: self.conditional,
        }
    }
}

pub open spec fn row(
    name: Seq<char>,
    required: Set<PointerType>,
    set: Set<PointerType>,
    corrupted: Set<PointerType>,
    required2: Set<PointerType>,
    set2: Set<PointerType>,
    corrupted2: Set<PointerType>,
    conditional: bool,
) -> CommandRowView {
    CommandRowView { name, required, set, corrupted, required2, set2, corrupted2, conditional }
}

/// The find pointers and every `last_*` pointer: what a player delay leaves corrupted.
pub open spec fn delay_corrupt_set() -> Set<PointerType> {
    set![
        PointerType::FindPlayer,
        PointerType::FindNpc,
        PointerType::FindLoc,
        PointerType::FindObj,
        PointerType::FindDb,
        PointerType::LastCom,
        PointerType::LastInt,
        PointerType::LastItem,
        PointerType::LastSlot,
        PointerType::LastTargetslot,
        PointerType::LastUseitem,
        PointerType::LastUseslot,
    ]
}

/// [`delay_corrupt_set`] without `last_int`.
pub open spec fn delay_corrupt_but_int_set() -> Set<PointerType> {
    set![
        PointerType::FindPlayer,
        PointerType::FindNpc,
        PointerType::FindLoc,
        PointerType::FindObj,
        PointerType::FindDb,
        PointerType::LastCom,
        PointerType::LastItem,
        PointerType::LastSlot,
        PointerType::LastTargetslot,
        PointerType::LastUseitem,
        PointerType::LastUseslot,
    ]
}

/// [`delay_corrupt_set`] without `last_com`.
pub open spec fn delay_corrupt_but_com_set() -> Set<PointerType> {
    set![
        PointerType::FindPlayer,
        PointerType::FindNpc,
        PointerType::FindLoc,
        PointerType::FindObj,
        PointerType::FindDb,
        PointerType::LastInt,
        PointerType::LastItem,
        PointerType::LastSlot,
        PointerType::LastTargetslot,
        PointerType::LastUseitem,
        PointerType::LastUseslot,
    ]
}

/// What an npc delay leaves corrupted: the protected player pointers, the
/// find pointers and every `last_*` pointer.
pub open spec fn npc_delay_corrupt_set() -> Set<PointerType> {
    set![
        PointerType::PActivePlayer,
        PointerType::PActivePlayer2,
        PointerType::FindPlayer,
        PointerType::FindNpc,
        PointerType::FindLoc,
        PointerType::FindObj,
        PointerType::FindDb,
        PointerType::LastCom,
        PointerType::LastInt,
        PointerType::LastItem,
        PointerType::LastSlot,
        PointerType::LastTargetslot,
        PointerType::LastUseitem,
        PointerType::LastUseslot,
    ]
}

fn delay_corrupt() -> (s: PointerSet)
    ensures
        s@ == delay_corrupt_set(),
{
    PointerSet::new().with(PointerType::FindPlayer).with(PointerType::FindNpc).with(
        PointerType::FindLoc,
    ).with(PointerType::FindObj).with(PointerType::FindDb).with(PointerType::LastCom).with(
        PointerType::LastInt,
    ).with(PointerType::LastItem).with(PointerType::LastSlot).with(PointerType::LastTargetslot).with(
        PointerType::LastUseitem,
    ).with(PointerType::LastUseslot)
}

fn delay_corrupt_but_int() -> (s: PointerSet)
    ensures
        s@ == delay_corrupt_but_int_set(),
{
    PointerSet::new().with(PointerType::FindPlayer).with(PointerType::FindNpc).with(
        PointerType::FindLoc,
    ).with(PointerType::FindObj).with(PointerType::FindDb).with(PointerType::LastCom).with(
        PointerType::LastItem,
    ).with(PointerType::LastSlot).with(PointerType::LastTargetslot).with(
        PointerType::LastUseitem,
    ).with(PointerType::LastUseslot)
}

fn delay_corrupt_but_com() -> (s: PointerSet)
    ensures
        s@ == delay_corrupt_but_com_set(),
{
    PointerSet::new().with(PointerType::FindPlayer).with(PointerType::FindNpc).with(
        PointerType::FindLoc,
    ).with(PointerType::FindObj).with(PointerType::FindDb).with(PointerType::LastInt).with(
        PointerType::LastItem,
    ).with(PointerType::LastSlot).with(PointerType::LastTargetslot).with(
        PointerType::LastUseitem,
    ).with(PointerType::LastUseslot)
}

fn npc_delay_corrupt() -> (s: PointerSet)
    ensures
        s@ == npc_delay_corrupt_set(),
{
    PointerSet::new().with(PointerType::PActivePlayer).with(PointerType::PActivePlayer2).with(
        PointerType::FindPlayer,
    ).with(PointerType::FindNpc).with(PointerType::FindLoc).with(PointerType::FindObj).with(
        PointerType::FindDb,
    ).with(PointerType::LastCom).with(PointerType::LastInt).with(PointerType::LastItem).with(
        PointerType::LastSlot,
    ).with(PointerType::LastTargetslot).with(PointerType::LastUseitem).with(
        PointerType::LastUseslot,
    )
}

/// The views of the holders in a map.
pub open spec fn holder_views(m: Map<Seq<char>, PointerHolder>) -> Map<Seq<char>, HolderView> {
    m.map_values(|h: PointerHolder| h@)
}

/// Whether a row has a secondary form: any of its secondary sets is non-empty.
pub open spec fn has_secondary(r: CommandRowView) -> bool {
    r.required2 != Set::<PointerType>::empty() || r.set2 != Set::<PointerType>::empty()
        || r.corrupted2 != Set::<PointerType>::empty()
}

/// The map after one row is entered: the primary holder under the
/// lowercased name, and, where the row has a secondary form, the secondary
/// holder under the same key with a `.` in front. A later row replaces an
/// earlier one with the same key.
pub open spec fn apply_row(m: Map<Seq<char>, HolderView>, r: CommandRowView) -> Map<Seq<char>, HolderView> {
    let key = lowercase(r.name);
    let m1 = m.insert(
        key,
        HolderView {
            required: r.required,
            set: r.set,
            conditional_set: r.conditional,
            corrupted: r.corrupted,
        },
    );
    if has_secondary(r) {
        m1.insert(
            seq!['.'] + key,
            HolderView {
                required: r.required2,
                set: r.set2,
                conditional_set: r.conditional,
                corrupted: r.corrupted2,
            },
        )
    } else {
        m1
    }
}

/// The map after the rows are entered in order.
pub open spec fn apply_rows(m: Map<Seq<char>, HolderView>, rows: Seq<CommandRowView>) -> Map<Seq<char>, HolderView>
    decreases rows.len(),
{
    if rows.len() == 0 {
        m
    } else {
        apply_row(apply_rows(m, rows.drop_last()), rows.last())
    }
}

/// The map that [`command_pointers`] builds.
pub open spec fn command_pointer_map() -> Map<Seq<char>, HolderView> {
    apply_rows(Map::empty(), command_table())
}

/// Entering two runs of rows one after the other is entering their concatenation.
pub proof fn lemma_apply_rows_concat(m: Map<Seq<char>, HolderView>, a: Seq<CommandRowView>, b: Seq<CommandRowView>)
    ensures
        apply_rows(m, a + b) == apply_rows(apply_rows(m, a), b),
    decreases b.len(),
{
    if b.len() == 0 {
        assert(a + b =~= a);
    } else {
        lemma_apply_rows_concat(m, a, b.drop_last());
        assert((a + b).drop_last() =~= a + b.drop_last());
        assert((a + b).last() == b.last());
    }
}

proof fn lemma_holder_views_insert(m: Map<Seq<char>, PointerHolder>, k: Seq<char>, h: PointerHolder)
    ensures
        holder_views(m.insert(k, h)) == holder_views(m).insert(k, h@),
{
    assert(holder_views(m.insert(k, h)) =~= holder_views(m).insert(k, h@));
}

/// Enters the rows into `map`, in order.
fn add_rows(map: &mut StrMap<PointerHolder>, rows: &Vec<CommandRow>)
    ensures
        holder_views(final(map)@) == apply_rows(holder_views(old(map)@), rows@.map_values(|r: CommandRow| r@)),
{
    let ghost start = holder_views(map@);
    let ghost views = rows@.map_values(|r: CommandRow| r@);
    let mut i: usize = 0;
    while i < rows.len()
        invariant
            i <= rows@.len(),
            views == rows@.map_values(|r: CommandRow| r@),
            holder_views(map@) == apply_rows(start, views.take(i as int)),
        decreases rows.len() - i,
    {
        let r = rows[i];
        let key = to_lowercase(r.name);
        let ghost before = map@;
        let primary = PointerHolder {
            required: r.required,
            set: r.set,
            conditional_set: r.conditional,
            corrupted: r.corrupted,
        };
        map.insert(key.clone(), primary);
        proof {
            lemma_holder_views_insert(before, key@, primary);
        }
        if !r.required2.is_empty() || !r.set2.is_empty() || !r.corrupted2.is_empty() {
            let mut dotted = String::new();
            push_char(&mut dotted, '.');
            push_str(&mut dotted, key.as_str());
            let ghost before2 = map@;
            let secondary = PointerHolder {
                required: r.required2,
                set: r.set2,
                conditional_set: r.conditional,
                corrupted: r.corrupted2,
            };
            map.insert(dotted, secondary);
            proof {
                lemma_holder_views_insert(before2, dotted@, secondary);
                assert(dotted@ == seq!['.'] + key@);
            }
        }
        proof {
            assert(views.take(i + 1).drop_last() =~= views.take(i as int));
            assert(views.take(i + 1).last() == r@);
        }
        i += 1;
    }
    proof {
        assert(views.take(rows@.len() as int) =~= views);
    }
}

/// The command table, in the order its rows are applied.
pub open spec fn command_table() -> Seq<CommandRowView> {
    command_table_part1()
        + command_table_part2()
        + command_table_part3()
        + command_table_part4()
        + command_table_part5()
        + command_table_part6()
        + command_table_part7()
        + command_table_part8()
        + command_table_part9()
        + command_table_part10()
        + command_table_part11()
        + command_table_part12()
        + command_table_part13()
        + command_table_part14()
        + command_table_part15()
        + command_table_part16()
}

/// Rows 1 to 16 of [`command_table`].
pub open spec fn command_table_part1() -> Seq<CommandRowView> {
    seq![
        row("allowdesign"@, set![PointerType::ActivePlayer], set![], set![], set![], set![], set![], false),
        row("anim"@, set![PointerType::ActivePlayer], set![], set![], set![PointerType::ActivePlayer2], set![], set![], false),
        row("readyanim"@, set![PointerType::ActivePlayer], set![], set![], set![], set![], set![], false),
        row("runanim"@, set![PointerType::ActivePlayer], set![], set![], set![], set![], set![], false),
        row("turnanim"@, set![PointerType::ActivePlayer], set![], set![], set![], set![], set![], false),
        row("walkanim_b"@, set![PointerType::ActivePlayer], set![], set![], set![], set![], set![], false),
        row("walkanim"@, set![PointerType::ActivePlayer], set![], set![], set![], set![], set![], false),
        row("walkanim_l"@, set![PointerType::ActivePlayer], set![], set![], set![], set![], set![], false),
        row("walkanim_r"@, set![PointerType::ActivePlayer], set![], set![], set![], set![], set![], false),
        row("buildappearance"@, set![PointerType::ActivePlayer], set![], set![], set![], set![], set![], false),
        row("busy"@, set![PointerType::ActivePlayer], set![], set![], set![PointerType::ActivePlayer2], set![], set![], false),
        row("busy2"@, set![PointerType::ActivePlayer], set![], set![], set![PointerType::ActivePlayer2], set![], set![], false),
        row("cam_lookat"@, set![PointerType::ActivePlayer], set![], set![], set![PointerType::ActivePlayer2], set![], set![], false),
        row("cam_moveto"@, set![PointerType::ActivePlayer], set![], set![], set![PointerType::ActivePlayer2], set![], set![], false),
        row("cam_reset"@, set![PointerType::ActivePlayer], set![], set![], set![PointerType::ActivePlayer2], set![], set![], false),
        row("cam_shake"@, set![PointerType::ActivePlayer], set![], set![], set![PointerType::ActivePlayer2], set![], set![], false),
    ]
}

/// Rows 17 to 32 of [`command_table`].
pub open spec fn command_table_part2() -> Seq<CommandRowView> {
    seq![
        row("clearqueue"@, set![PointerType::ActivePlayer], set![], set![], set![], set![], set![], false),
        row("clearsofttimer"@, set![PointerType::ActivePlayer], set![], set![], set![PointerType::ActivePlayer2], set![], set![], false),
        row("cleartimer"@, set![PointerType::ActivePlayer], set![], set![], set![PointerType::ActivePlayer2], set![], set![], false),
        row("gettimer"@, set![PointerType::ActivePlayer], set![], set![], set![PointerType::ActivePlayer2], set![], set![], false),
        row("coord"@, set![PointerType::ActivePlayer], set![], set![], set![PointerType::ActivePlayer2], set![], set![], false),
        row("damage"@, set![PointerType::ActivePlayer], set![], set![], set![PointerType::ActivePlayer2], set![], set![], false),
        row("displayname"@, set![PointerType::ActivePlayer], set![], set![], set![PointerType::ActivePlayer2], set![], set![], false),
        row("facesquare"@, set![PointerType::ActivePlayer], set![], set![], set![PointerType::ActivePlayer2], set![], set![], false),
        row("finduid"@, set![], set![PointerType::ActivePlayer], set![PointerType::PActivePlayer], set![], set![PointerType::ActivePlayer2], set![PointerType::PActivePlayer2], true),
        row("gender"@, set![PointerType::ActivePlayer], set![], set![], set![PointerType::ActivePlayer2], set![], set![], false),
        row("getqueue"@, set![PointerType::ActivePlayer], set![], set![], set![PointerType::ActivePlayer2], set![], set![], false),
        row("stat_advance"@, set![PointerType::ActivePlayer], set![], set![], set![], set![], set![], false),
        row("headicons_get"@, set![PointerType::ActivePlayer], set![], set![], set![], set![], set![], false),
        row("headicons_set"@, set![PointerType::ActivePlayer], set![], set![], set![], set![], set![], false),
        row("healenergy"@, set![PointerType::ActivePlayer], set![], set![], set![], set![], set![], false),
        row("hint_coord"@, set![PointerType::ActivePlayer], set![], set![], set![], set![], set![], false),
    ]
}

/// Rows 33 to 48 of [`command_table`].
pub open spec fn command_table_part3() -> Seq<CommandRowView> {
    seq![
        row("hint_npc"@, set![PointerType::ActivePlayer, PointerType::ActiveNpc], set![], set![], set![], set![], set![], false),
        row("hint_pl"@, set![PointerType::ActivePlayer, PointerType::ActivePlayer2], set![], set![], set![], set![], set![], false),
        row("hint_stop"@, set![PointerType::ActivePlayer], set![], set![], set![], set![], set![], false),
        row("huntall"@, set![], set![PointerType::FindPlayer], set![], set![], set![], set![], false),
        row("huntnext"@, set![PointerType::FindPlayer], set![PointerType::ActivePlayer], set![], set![PointerType::FindPlayer], set![PointerType::ActivePlayer2], set![], true),
        row("npc_hunt"@, set![], set![PointerType::ActiveNpc], set![], set![], set![PointerType::ActiveNpc2], set![], false),
        row("npc_huntall"@, set![], set![PointerType::FindNpc], set![], set![], set![], set![], false),
        row("npc_hasop"@, set![PointerType::ActiveNpc], set![], set![], set![PointerType::ActiveNpc2], set![], set![], false),
        row("if_close"@, set![PointerType::ActivePlayer], set![], set![], set![PointerType::ActivePlayer2], set![], set![], false),
        row("tut_close"@, set![PointerType::ActivePlayer], set![], set![], set![], set![], set![], false),
        row("if_openchat"@, set![PointerType::ActivePlayer], set![], set![], set![], set![], set![], false),
        row("tut_open"@, set![PointerType::ActivePlayer], set![], set![], set![], set![], set![], false),
        row("if_openmain"@, set![PointerType::ActivePlayer], set![], set![], set![PointerType::ActivePlayer2], set![], set![], false),
        row("if_opentop"@, set![PointerType::ActivePlayer], set![], set![], set![PointerType::ActivePlayer2], set![], set![], false),
        row("if_openmain_side"@, set![PointerType::ActivePlayer], set![], set![], set![PointerType::ActivePlayer2], set![], set![], false),
        row("if_openoverlay"@, set![PointerType::ActivePlayer], set![], set![], set![PointerType::ActivePlayer2], set![], set![], false),
    ]
}

/// Rows 49 to 64 of [`command_table`].
pub open spec fn command_table_part4() -> Seq<CommandRowView> {
    seq![
        row("if_openside"@, set![PointerType::ActivePlayer], set![], set![], set![], set![], set![], false),
        row("if_setanim"@, set![PointerType::ActivePlayer], set![], set![], set![], set![], set![], false),
        row("if_setcolour"@, set![PointerType::ActivePlayer], set![], set![], set![], set![], set![], false),
        row("if_sethide"@, set![PointerType::ActivePlayer], set![], set![], set![PointerType::ActivePlayer2], set![], set![], false),
        row("if_setmodel"@, set![PointerType::ActivePlayer], set![], set![], set![], set![], set![], false),
        row("if_setnpchead"@, set![PointerType::ActivePlayer], set![], set![], set![], set![], set![], false),
        row("if_setobject"@, set![PointerType::ActivePlayer], set![], set![], set![], set![], set![], false),
        row("if_setplayerhead"@, set![PointerType::ActivePlayer], set![], set![], set![], set![], set![], false),
        row("if_setposition"@, set![PointerType::ActivePlayer], set![], set![], set![], set![], set![], false),
        row("if_addresumebutton"@, set![PointerType::ActivePlayer], set![], set![], set![], set![], set![], false),
        row("if_settab"@, set![PointerType::ActivePlayer], set![], set![], set![], set![], set![], false),
        row("if_settabactive"@, set![PointerType::ActivePlayer], set![], set![], set![PointerType::ActivePlayer2], set![], set![], false),
        row("tut_flash"@, set![PointerType::ActivePlayer], set![], set![], set![], set![], set![], false),
        row("if_settext"@, set![PointerType::ActivePlayer], set![], set![], set![PointerType::ActivePlayer2], set![], set![], false),
        row("last_login_info"@, set![PointerType::ActivePlayer], set![], set![], set![], set![], set![], false),
        row("last_com"@, set![PointerType::LastCom], set![], set![], set![], set![], set![], false),
    ]
}

/// Rows 65 to 80 of [`command_table`].
pub open spec fn command_table_part5() -> Seq<CommandRowView> {
    seq![
        row("last_int"@, set![PointerType::LastInt], set![], set![], set![], set![], set![], false),
        row("last_item"@, set![PointerType::LastItem], set![], set![], set![], set![], set![], false),
        row("last_slot"@, set![PointerType::LastSlot], set![], set![], set![], set![], set![], false),
        row("last_targetslot"@, set![PointerType::LastTargetslot], set![], set![], set![], set![], set![], false),
        row("last_useitem"@, set![PointerType::LastUseitem], set![], set![], set![], set![], set![], false),
        row("last_useslot"@, set![PointerType::LastUseslot], set![], set![], set![], set![], set![], false),
        row("longqueue"@, set![PointerType::ActivePlayer], set![], set![], set![PointerType::ActivePlayer2], set![], set![], false),
        row("longqueue*"@, set![PointerType::ActivePlayer], set![], set![], set![PointerType::ActivePlayer2], set![], set![], false),
        row("lowmem"@, set![PointerType::ActivePlayer], set![], set![], set![], set![], set![], false),
        row("mes"@, set![PointerType::ActivePlayer], set![], set![], set![PointerType::ActivePlayer2], set![], set![], false),
        row("midi_jingle"@, set![PointerType::ActivePlayer], set![], set![], set![], set![], set![], false),
        row("midi_song"@, set![PointerType::ActivePlayer], set![], set![], set![], set![], set![], false),
        row("minimap_toggle"@, set![PointerType::ActivePlayer], set![], set![], set![PointerType::ActivePlayer2], set![], set![], false),
        row("name"@, set![PointerType::ActivePlayer], set![], set![], set![PointerType::ActivePlayer2], set![], set![], false),
        row("p_aprange"@, set![PointerType::PActivePlayer], set![], set![], set![], set![], set![], false),
        row("p_arrivedelay"@, set![PointerType::PActivePlayer], set![], delay_corrupt_set(), set![], set![], set![], false),
    ]
}

/// Rows 81 to 96 of [`command_table`].
pub open spec fn command_table_part6() -> Seq<CommandRowView> {
    seq![
        row("p_countdialog"@, set![PointerType::PActivePlayer], set![PointerType::LastInt], delay_corrupt_but_int_set(), set![], set![], set![], false),
        row("p_delay"@, set![PointerType::PActivePlayer], set![], delay_corrupt_set(), set![], set![], set![], false),
        row("p_exactmove"@, set![PointerType::PActivePlayer], set![], set![], set![], set![], set![], false),
        row("p_finduid"@, set![], set![PointerType::PActivePlayer, PointerType::ActivePlayer], set![], set![], set![PointerType::PActivePlayer2, PointerType::ActivePlayer2], set![], true),
        row("p_locmerge"@, set![PointerType::PActivePlayer], set![], set![], set![], set![], set![], false),
        row("p_logout"@, set![PointerType::PActivePlayer], set![], set![], set![], set![], set![], false),
        row("p_preventlogout"@, set![PointerType::PActivePlayer], set![], set![], set![PointerType::PActivePlayer2], set![], set![], false),
        row("p_opheld"@, set![PointerType::PActivePlayer], set![], set![], set![], set![], set![], false),
        row("p_oploc"@, set![PointerType::PActivePlayer, PointerType::ActiveLoc], set![], set![], set![], set![], set![], false),
        row("p_opnpc"@, set![PointerType::PActivePlayer, PointerType::ActiveNpc], set![], set![], set![], set![], set![], false),
        row("p_opnpct"@, set![PointerType::PActivePlayer, PointerType::ActiveNpc], set![], set![], set![], set![], set![], false),
        row("p_opobj"@, set![PointerType::PActivePlayer, PointerType::ActiveObj], set![], set![], set![], set![], set![], false),
        row("p_opplayer"@, set![PointerType::PActivePlayer, PointerType::ActivePlayer2], set![], set![], set![PointerType::PActivePlayer2, PointerType::ActivePlayer], set![], set![], false),
        row("p_opplayert"@, set![PointerType::PActivePlayer, PointerType::ActivePlayer2], set![], set![], set![PointerType::PActivePlayer2, PointerType::ActivePlayer], set![], set![], false),
        row("p_pausebutton"@, set![PointerType::PActivePlayer], set![PointerType::LastCom], delay_corrupt_but_com_set(), set![], set![], set![], false),
        row("p_stopaction"@, set![PointerType::PActivePlayer], set![], set![], set![PointerType::PActivePlayer2], set![], set![], false),
    ]
}

/// Rows 97 to 112 of [`command_table`].
pub open spec fn command_table_part7() -> Seq<CommandRowView> {
    seq![
        row("p_clearpendingaction"@, set![PointerType::PActivePlayer], set![], set![], set![PointerType::PActivePlayer2], set![], set![], false),
        row("p_telejump"@, set![PointerType::PActivePlayer], set![], set![], set![PointerType::PActivePlayer2], set![], set![], false),
        row("p_teleport"@, set![PointerType::PActivePlayer], set![], set![], set![PointerType::PActivePlayer2], set![], set![], false),
        row("p_walk"@, set![PointerType::PActivePlayer], set![], set![], set![PointerType::PActivePlayer2], set![], set![], false),
        row("projanim_pl"@, set![PointerType::ActivePlayer], set![], set![], set![PointerType::ActivePlayer2], set![], set![], false),
        row("queue"@, set![PointerType::ActivePlayer], set![], set![], set![PointerType::ActivePlayer2], set![], set![], false),
        row("queue*"@, set![PointerType::ActivePlayer], set![], set![], set![PointerType::ActivePlayer2], set![], set![], false),
        row("say"@, set![PointerType::ActivePlayer], set![], set![], set![PointerType::ActivePlayer2], set![], set![], false),
        row("setidkit"@, set![PointerType::PActivePlayer], set![], set![], set![], set![], set![], false),
        row("walktrigger"@, set![PointerType::ActivePlayer], set![], set![], set![PointerType::ActivePlayer2], set![], set![], false),
        row("getwalktrigger"@, set![PointerType::ActivePlayer], set![], set![], set![PointerType::ActivePlayer2], set![], set![], false),
        row("settimer"@, set![PointerType::ActivePlayer], set![], set![], set![PointerType::ActivePlayer2], set![], set![], false),
        row("softtimer"@, set![PointerType::ActivePlayer], set![], set![], set![PointerType::ActivePlayer2], set![], set![], false),
        row("sound_synth"@, set![PointerType::ActivePlayer], set![], set![], set![PointerType::ActivePlayer2], set![], set![], false),
        row("spotanim_pl"@, set![PointerType::ActivePlayer], set![], set![], set![PointerType::ActivePlayer2], set![], set![], false),
        row("staffmodlevel"@, set![PointerType::ActivePlayer], set![], set![], set![PointerType::ActivePlayer2], set![], set![], false),
    ]
}

/// Rows 113 to 128 of [`command_table`].
pub open spec fn command_table_part8() -> Seq<CommandRowView> {
    seq![
        row("stat"@, set![PointerType::ActivePlayer], set![], set![], set![PointerType::ActivePlayer2], set![], set![], false),
        row("stat_add"@, set![PointerType::ActivePlayer], set![], set![], set![PointerType::ActivePlayer2], set![], set![], false),
        row("stat_base"@, set![PointerType::ActivePlayer], set![], set![], set![PointerType::ActivePlayer2], set![], set![], false),
        row("stat_heal"@, set![PointerType::ActivePlayer], set![], set![], set![PointerType::ActivePlayer2], set![], set![], false),
        row("stat_sub"@, set![PointerType::ActivePlayer], set![], set![], set![PointerType::ActivePlayer2], set![], set![], false),
        row("stat_boost"@, set![PointerType::ActivePlayer], set![], set![], set![PointerType::ActivePlayer2], set![], set![], false),
        row("stat_drain"@, set![PointerType::ActivePlayer], set![], set![], set![PointerType::ActivePlayer2], set![], set![], false),
        row("stat_random"@, set![PointerType::ActivePlayer], set![], set![], set![PointerType::ActivePlayer2], set![], set![], false),
        row("uid"@, set![PointerType::ActivePlayer], set![], set![], set![PointerType::ActivePlayer2], set![], set![], false),
        row("weakqueue"@, set![PointerType::ActivePlayer], set![], set![], set![PointerType::ActivePlayer2], set![], set![], false),
        row("weakqueue*"@, set![PointerType::ActivePlayer], set![], set![], set![PointerType::ActivePlayer2], set![], set![], false),
        row("findhero"@, set![], set![PointerType::ActivePlayer2], set![], set![], set![PointerType::ActivePlayer], set![], true),
        row("both_heropoints"@, set![PointerType::ActivePlayer, PointerType::ActivePlayer2], set![], set![], set![PointerType::ActivePlayer2, PointerType::ActivePlayer], set![], set![], false),
        row("setgender"@, set![PointerType::PActivePlayer], set![], set![], set![], set![], set![], false),
        row("setidkcolour"@, set![PointerType::PActivePlayer], set![], set![], set![], set![], set![], false),
        row("p_animprotect"@, set![PointerType::PActivePlayer], set![], set![], set![PointerType::PActivePlayer2], set![], set![], false),
    ]
}

/// Rows 129 to 144 of [`command_table`].
pub open spec fn command_table_part9() -> Seq<CommandRowView> {
    seq![
        row("runenergy"@, set![PointerType::ActivePlayer], set![], set![], set![PointerType::ActivePlayer2], set![], set![], false),
        row("weight"@, set![PointerType::PActivePlayer], set![], set![], set![PointerType::PActivePlayer2], set![], set![], false),
        row("p_run"@, set![PointerType::PActivePlayer], set![], set![], set![PointerType::PActivePlayer2], set![], set![], false),
        row("if_setscrollpos"@, set![PointerType::ActivePlayer], set![], set![], set![], set![], set![], false),
        row("if_movesub"@, set![PointerType::ActivePlayer], set![], set![], set![], set![], set![], false),
        row("set_player_op"@, set![PointerType::ActivePlayer], set![], set![], set![], set![], set![], false),
        row("set_skill_level"@, set![PointerType::ActivePlayer], set![], set![], set![PointerType::ActivePlayer2], set![], set![], false),
        row("strongqueue"@, set![PointerType::ActivePlayer], set![], set![], set![PointerType::ActivePlayer2], set![], set![], false),
        row("strongqueue*"@, set![PointerType::ActivePlayer], set![], set![], set![PointerType::ActivePlayer2], set![], set![], false),
        row("npc_add"@, set![], set![PointerType::ActiveNpc], set![], set![], set![PointerType::ActiveNpc2], set![], false),
        row("npc_anim"@, set![PointerType::ActiveNpc], set![], set![], set![PointerType::ActiveNpc2], set![], set![], false),
        row("npc_basestat"@, set![PointerType::ActiveNpc], set![], set![], set![PointerType::ActiveNpc2], set![], set![], false),
        row("npc_category"@, set![PointerType::ActiveNpc], set![], set![], set![PointerType::ActiveNpc2], set![], set![], false),
        row("npc_changetype"@, set![PointerType::ActiveNpc], set![], set![], set![PointerType::ActiveNpc2], set![], set![], false),
        row("npc_changetype_keepall"@, set![PointerType::ActiveNpc], set![], set![], set![PointerType::ActiveNpc2], set![], set![], false),
        row("npc_coord"@, set![PointerType::ActiveNpc], set![], set![], set![PointerType::ActiveNpc2], set![], set![], false),
    ]
}

/// Rows 145 to 160 of [`command_table`].
pub open spec fn command_table_part10() -> Seq<CommandRowView> {
    seq![
        row("npc_damage"@, set![PointerType::ActiveNpc], set![], set![], set![PointerType::ActiveNpc2], set![], set![], false),
        row("npc_del"@, set![PointerType::ActiveNpc], set![], set![], set![PointerType::ActiveNpc2], set![], set![], false),
        row("npc_delay"@, set![PointerType::ActiveNpc], set![], npc_delay_corrupt_set(), set![PointerType::ActiveNpc2], set![], set![], false),
        row("npc_facesquare"@, set![PointerType::ActiveNpc], set![], set![], set![PointerType::ActiveNpc2], set![], set![], false),
        row("npc_find"@, set![], set![PointerType::ActiveNpc], set![], set![], set![PointerType::ActiveNpc2], set![], true),
        row("npc_findcat"@, set![], set![PointerType::ActiveNpc], set![], set![], set![PointerType::ActiveNpc2], set![], true),
        row("npc_findallany"@, set![], set![PointerType::FindNpc], set![], set![], set![], set![], false),
        row("npc_findall"@, set![], set![PointerType::FindNpc], set![], set![], set![], set![], false),
        row("npc_findallzone"@, set![], set![PointerType::FindNpc], set![], set![], set![], set![], false),
        row("npc_findnext"@, set![PointerType::FindNpc], set![PointerType::ActiveNpc], set![], set![], set![PointerType::ActiveNpc2], set![], true),
        row("npc_findexact"@, set![], set![PointerType::ActiveNpc], set![], set![], set![PointerType::ActiveNpc2], set![], true),
        row("npc_findhero"@, set![PointerType::ActiveNpc], set![PointerType::ActivePlayer], set![], set![PointerType::ActiveNpc2], set![PointerType::ActivePlayer2], set![], true),
        row("npc_finduid"@, set![], set![PointerType::ActiveNpc], set![], set![], set![PointerType::ActiveNpc2], set![], true),
        row("npc_getmode"@, set![PointerType::ActiveNpc], set![], set![], set![PointerType::ActiveNpc2], set![], set![], false),
        row("npc_heropoints"@, set![PointerType::ActiveNpc, PointerType::ActivePlayer], set![], set![], set![], set![], set![], false),
        row("npc_name"@, set![PointerType::ActiveNpc], set![], set![], set![PointerType::ActiveNpc2], set![], set![], false),
    ]
}

/// Rows 161 to 176 of [`command_table`].
pub open spec fn command_table_part11() -> Seq<CommandRowView> {
    seq![
        row("npc_param"@, set![PointerType::ActiveNpc], set![], set![], set![PointerType::ActiveNpc2], set![], set![], false),
        row("npc_queue"@, set![PointerType::ActiveNpc], set![], set![], set![PointerType::ActiveNpc2], set![], set![], false),
        row("npc_range"@, set![PointerType::ActiveNpc], set![], set![], set![PointerType::ActiveNpc2], set![], set![], false),
        row("npc_say"@, set![PointerType::ActiveNpc], set![], set![], set![PointerType::ActiveNpc2], set![], set![], false),
        row("npc_sethunt"@, set![PointerType::ActiveNpc], set![], set![], set![PointerType::ActiveNpc2], set![], set![], false),
        row("npc_sethuntmode"@, set![PointerType::ActiveNpc], set![], set![], set![PointerType::ActiveNpc2], set![], set![], false),
        row("npc_setmode"@, set![PointerType::ActiveNpc], set![], set![], set![PointerType::ActiveNpc2], set![], set![], false),
        row("npc_walktrigger"@, set![PointerType::ActiveNpc], set![], set![], set![PointerType::ActiveNpc2], set![], set![], false),
        row("npc_settimer"@, set![PointerType::ActiveNpc], set![], set![], set![PointerType::ActiveNpc2], set![], set![], false),
        row("npc_stat"@, set![PointerType::ActiveNpc], set![], set![], set![PointerType::ActiveNpc2], set![], set![], false),
        row("npc_statadd"@, set![PointerType::ActiveNpc], set![], set![], set![PointerType::ActiveNpc2], set![], set![], false),
        row("npc_statheal"@, set![PointerType::ActiveNpc], set![], set![], set![PointerType::ActiveNpc2], set![], set![], false),
        row("npc_statsub"@, set![PointerType::ActiveNpc], set![], set![], set![PointerType::ActiveNpc2], set![], set![], false),
        row("npc_tele"@, set![PointerType::ActiveNpc], set![], set![], set![PointerType::ActiveNpc2], set![], set![], false),
        row("npc_type"@, set![PointerType::ActiveNpc], set![], set![], set![PointerType::ActiveNpc2], set![], set![], false),
        row("npc_uid"@, set![PointerType::ActiveNpc], set![], set![], set![PointerType::ActiveNpc2], set![], set![], false),
    ]
}

/// Rows 177 to 192 of [`command_table`].
pub open spec fn command_table_part12() -> Seq<CommandRowView> {
    seq![
        row("projanim_npc"@, set![PointerType::ActiveNpc], set![], set![], set![PointerType::ActiveNpc2], set![], set![], false),
        row("spotanim_npc"@, set![PointerType::ActiveNpc], set![], set![], set![PointerType::ActiveNpc2], set![], set![], false),
        row("npc_walk"@, set![PointerType::ActiveNpc], set![], set![], set![PointerType::ActiveNpc2], set![], set![], false),
        row("npc_attackrange"@, set![PointerType::ActiveNpc], set![], set![], set![PointerType::ActiveNpc2], set![], set![], false),
        row("npc_arrivedelay"@, set![PointerType::ActiveNpc], set![], npc_delay_corrupt_set(), set![PointerType::ActiveNpc2], set![], set![], false),
        row("npc_inrange"@, set![PointerType::ActiveNpc], set![], set![], set![PointerType::ActiveNpc2], set![], set![], false),
        row("loc_add"@, set![], set![PointerType::ActiveLoc], set![], set![], set![PointerType::ActiveLoc2], set![], false),
        row("loc_angle"@, set![PointerType::ActiveLoc], set![], set![], set![PointerType::ActiveLoc2], set![], set![], false),
        row("loc_anim"@, set![PointerType::ActiveLoc], set![], set![], set![PointerType::ActiveLoc2], set![], set![], false),
        row("loc_category"@, set![PointerType::ActiveLoc], set![], set![], set![PointerType::ActiveLoc2], set![], set![], false),
        row("loc_change"@, set![PointerType::ActiveLoc], set![], set![], set![PointerType::ActiveLoc2], set![], set![], false),
        row("loc_coord"@, set![PointerType::ActiveLoc], set![], set![], set![PointerType::ActiveLoc2], set![], set![], false),
        row("loc_del"@, set![PointerType::ActiveLoc], set![], set![], set![PointerType::ActiveLoc2], set![], set![], false),
        row("loc_find"@, set![], set![PointerType::ActiveLoc], set![], set![], set![PointerType::ActiveLoc2], set![], true),
        row("loc_findallzone"@, set![], set![PointerType::FindLoc], set![], set![], set![PointerType::FindLoc], set![], false),
        row("loc_findnext"@, set![PointerType::FindLoc], set![PointerType::ActiveLoc], set![], set![PointerType::FindLoc], set![PointerType::ActiveLoc2], set![], true),
    ]
}

/// Rows 193 to 208 of [`command_table`].
pub open spec fn command_table_part13() -> Seq<CommandRowView> {
    seq![
        row("loc_name"@, set![PointerType::ActiveLoc], set![], set![], set![PointerType::ActiveLoc2], set![], set![], false),
        row("loc_param"@, set![PointerType::ActiveLoc], set![], set![], set![PointerType::ActiveLoc2], set![], set![], false),
        row("loc_shape"@, set![PointerType::ActiveLoc], set![], set![], set![PointerType::ActiveLoc2], set![], set![], false),
        row("loc_type"@, set![PointerType::ActiveLoc], set![], set![], set![PointerType::ActiveLoc2], set![], set![], false),
        row("obj_add"@, set![PointerType::ActivePlayer], set![PointerType::ActiveObj], set![], set![PointerType::ActivePlayer2], set![PointerType::ActiveObj2], set![], false),
        row("obj_addall"@, set![], set![PointerType::ActiveObj], set![], set![], set![PointerType::ActiveObj2], set![], false),
        row("obj_coord"@, set![PointerType::ActiveObj], set![], set![], set![PointerType::ActiveObj2], set![], set![], false),
        row("obj_count"@, set![PointerType::ActiveObj], set![], set![], set![PointerType::ActiveObj2], set![], set![], false),
        row("obj_del"@, set![PointerType::ActiveObj], set![], set![], set![PointerType::ActiveObj2], set![], set![], false),
        row("obj_name"@, set![PointerType::ActiveObj], set![], set![], set![PointerType::ActiveObj2], set![], set![], false),
        row("obj_param"@, set![PointerType::ActiveObj], set![], set![], set![PointerType::ActiveObj2], set![], set![], false),
        row("obj_takeitem"@, set![PointerType::ActiveObj, PointerType::ActivePlayer], set![], set![], set![PointerType::ActiveObj2, PointerType::ActivePlayer2], set![], set![], false),
        row("obj_type"@, set![PointerType::ActiveObj], set![], set![], set![PointerType::ActiveObj2], set![], set![], false),
        row("obj_find"@, set![], set![PointerType::ActiveObj], set![], set![], set![PointerType::ActiveObj2], set![], false),
        row("obj_findallzone"@, set![], set![PointerType::FindObj], set![], set![], set![PointerType::FindObj], set![], false),
        row("obj_findnext"@, set![PointerType::FindObj], set![PointerType::ActiveObj], set![], set![PointerType::FindObj], set![PointerType::ActiveObj2], set![], true),
    ]
}

/// Rows 209 to 224 of [`command_table`].
pub open spec fn command_table_part14() -> Seq<CommandRowView> {
    seq![
        row("inv_add"@, set![PointerType::ActivePlayer], set![], set![], set![PointerType::ActivePlayer2], set![], set![], false),
        row("inv_changeslot"@, set![PointerType::ActivePlayer], set![], set![], set![PointerType::ActivePlayer2], set![], set![], false),
        row("inv_clear"@, set![PointerType::ActivePlayer], set![], set![], set![PointerType::ActivePlayer2], set![], set![], false),
        row("inv_del"@, set![PointerType::ActivePlayer], set![], set![], set![PointerType::ActivePlayer2], set![], set![], false),
        row("inv_delslot"@, set![PointerType::ActivePlayer], set![], set![], set![PointerType::ActivePlayer2], set![], set![], false),
        row("inv_dropitem"@, set![PointerType::ActivePlayer], set![PointerType::ActiveObj], set![], set![PointerType::ActivePlayer2], set![PointerType::ActiveObj2], set![], false),
        row("inv_dropitem_delayed"@, set![PointerType::ActivePlayer], set![PointerType::ActiveObj], set![], set![PointerType::ActivePlayer2], set![PointerType::ActiveObj2], set![], false),
        row("inv_dropslot"@, set![PointerType::ActivePlayer], set![PointerType::ActiveObj], set![], set![PointerType::ActivePlayer2], set![PointerType::ActiveObj2], set![], false),
        row("inv_freespace"@, set![PointerType::ActivePlayer], set![], set![], set![PointerType::ActivePlayer2], set![], set![], false),
        row("inv_getnum"@, set![PointerType::ActivePlayer], set![], set![], set![PointerType::ActivePlayer2], set![], set![], false),
        row("inv_getobj"@, set![PointerType::ActivePlayer], set![], set![], set![PointerType::ActivePlayer2], set![], set![], false),
        row("inv_itemspace"@, set![PointerType::ActivePlayer], set![], set![], set![PointerType::ActivePlayer2], set![], set![], false),
        row("inv_itemspace2"@, set![PointerType::ActivePlayer], set![], set![], set![PointerType::ActivePlayer2], set![], set![], false),
        row("inv_movefromslot"@, set![PointerType::ActivePlayer], set![], set![], set![PointerType::ActivePlayer2], set![], set![], false),
        row("inv_movetoslot"@, set![PointerType::ActivePlayer], set![], set![], set![PointerType::ActivePlayer2], set![], set![], false),
        row("both_moveinv"@, set![PointerType::ActivePlayer, PointerType::ActivePlayer2], set![], set![], set![PointerType::ActivePlayer2, PointerType::ActivePlayer], set![], set![], false),
    ]
}

/// Rows 225 to 240 of [`command_table`].
pub open spec fn command_table_part15() -> Seq<CommandRowView> {
    seq![
        row("inv_moveitem"@, set![PointerType::ActivePlayer], set![], set![], set![PointerType::ActivePlayer2], set![], set![], false),
        row("inv_moveitem_cert"@, set![PointerType::ActivePlayer], set![], set![], set![PointerType::ActivePlayer2], set![], set![], false),
        row("inv_moveitem_uncert"@, set![PointerType::ActivePlayer], set![], set![], set![PointerType::ActivePlayer2], set![], set![], false),
        row("inv_setslot"@, set![PointerType::ActivePlayer], set![], set![], set![PointerType::ActivePlayer2], set![], set![], false),
        row("inv_total"@, set![PointerType::ActivePlayer], set![], set![], set![PointerType::ActivePlayer2], set![], set![], false),
        row("inv_totalcat"@, set![PointerType::ActivePlayer], set![], set![], set![PointerType::ActivePlayer2], set![], set![], false),
        row("inv_transmit"@, set![PointerType::ActivePlayer], set![], set![], set![PointerType::ActivePlayer2], set![], set![], false),
        row("invother_transmit"@, set![PointerType::ActivePlayer, PointerType::ActivePlayer2], set![], set![], set![PointerType::ActivePlayer2, PointerType::ActivePlayer], set![], set![], false),
        row("inv_stoptransmit"@, set![PointerType::ActivePlayer], set![], set![], set![PointerType::ActivePlayer2], set![], set![], false),
        row("both_dropslot"@, set![PointerType::ActivePlayer, PointerType::ActivePlayer2], set![], set![], set![PointerType::ActivePlayer2, PointerType::ActivePlayer], set![], set![], false),
        row("inv_dropall"@, set![PointerType::ActivePlayer], set![], set![], set![PointerType::ActivePlayer2], set![], set![], false),
        row("inv_totalparam"@, set![PointerType::ActivePlayer], set![], set![], set![PointerType::ActivePlayer2], set![], set![], false),
        row("inv_totalparam_stack"@, set![PointerType::ActivePlayer], set![], set![], set![PointerType::ActivePlayer2], set![], set![], false),
        row("text_gender"@, set![PointerType::ActivePlayer], set![], set![], set![PointerType::ActivePlayer2], set![], set![], false),
        row("db_findnext"@, set![PointerType::FindDb], set![], set![], set![], set![], set![], false),
        row("db_find"@, set![], set![PointerType::FindDb], set![], set![], set![], set![], false),
    ]
}

/// Rows 241 to 243 of [`command_table`].
pub open spec fn command_table_part16() -> Seq<CommandRowView> {
    seq![
        row("db_find_refine"@, set![PointerType::FindDb], set![], set![], set![], set![], set![], false),
        row("db_listall"@, set![], set![PointerType::FindDb], set![], set![], set![], set![], false),
        row("db_listall_with_count"@, set![], set![PointerType::FindDb], set![], set![], set![], set![], false),
    ]
}

fn command_rows_part1() -> (v: Vec<CommandRow>)
    ensures
        v@.map_values(|r: CommandRow| r@) == command_table_part1(),
{
    let v = vec![
        CommandRow {
            name: "allowdesign",
            required: PointerSet::new().with(PointerType::ActivePlayer),
            set: PointerSet::new(),
            corrupted: PointerSet::new(),
            required2: PointerSet::new(),
            set2: PointerSet::new(),
            corrupted2: PointerSet::new(),
            conditional: false,
        },
        CommandRow {
            name: "anim",
            required: PointerSet::new().with(PointerType::ActivePlayer),
            set: PointerSet::new(),
            corrupted: PointerSet::new(),
            required2: PointerSet::new().with(PointerType::ActivePlayer2),
            set2: PointerSet::new(),
            corrupted2: PointerSet::new(),
            conditional: false,
        },
        CommandRow {
            name: "readyanim",
            required: PointerSet::new().with(PointerType::ActivePlayer),
            set: PointerSet::new(),
            corrupted: PointerSet::new(),
            required2: PointerSet::new(),
            set2: PointerSet::new(),
            corrupted2: PointerSet::new(),
            conditional: false,
        },
        CommandRow {
            name: "runanim",
            required: PointerSet::new().with(PointerType::ActivePlayer),
            set: PointerSet::new(),
            corrupted: PointerSet::new(),
            required2: PointerSet::new(),
            set2: PointerSet::new(),
            corrupted2: PointerSet::new(),
            conditional: false,
        },
        CommandRow {
            name: "turnanim",
            required: PointerSet::new().with(PointerType::ActivePlayer),
            set: PointerSet::new(),
            corrupted: PointerSet::new(),
            required2: PointerSet::new(),
            set2: PointerSet::new(),
            corrupted2: PointerSet::new(),
            conditional: false,
        },
        CommandRow {
            name: "walkanim_b",
            required: PointerSet::new().with(PointerType::ActivePlayer),
            set: PointerSet::new(),
            corrupted: PointerSet::new(),
            required2: PointerSet::new(),
            set2: PointerSet::new(),
            corrupted2: PointerSet::new(),
            conditional: false,
        },
        CommandRow {
            name: "walkanim",
            required: PointerSet::new().with(PointerType::ActivePlayer),
            set: PointerSet::new(),
            corrupted: PointerSet::new(),
            required2: PointerSet::new(),
            set2: PointerSet::new(),
            corrupted2: PointerSet::new(),
            conditional: false,
        },
        CommandRow {
            name: "walkanim_l",
            required: PointerSet::new().with(PointerType::ActivePlayer),
            set: PointerSet::new(),
            corrupted: PointerSet::new(),
            required2: PointerSet::new(),
            set2: PointerSet::new(),
            corrupted2: PointerSet::new(),
            conditional: false,
        },
        CommandRow {
            name: "walkanim_r",
            required: PointerSet::new().with(PointerType::ActivePlayer),
            set: PointerSet::new(),
            corrupted: PointerSet::new(),
            required2: PointerSet::new(),
            set2: PointerSet::new(),
            corrupted2: PointerSet::new(),
            conditional: false,
        },
        CommandRow {
            name: "buildappearance",
            required: PointerSet::new().with(PointerType::ActivePlayer),
            set: PointerSet::new(),
            corrupted: PointerSet::new(),
            required2: PointerSet::new(),
            set2: PointerSet::new(),
            corrupted2: PointerSet::new(),
            conditional: false,
        },
        CommandRow {
            name: "busy",
            required: PointerSet::new().with(PointerType::ActivePlayer),
            set: PointerSet::new(),
            corrupted: PointerSet::new(),
            required2: PointerSet::new().with(PointerType::ActivePlayer2),
            set2: PointerSet::new(),
            corrupted2: PointerSet::new(),
            conditional: false,
        },
        CommandRow {
            name: "busy2",
            required: PointerSet::new().with(PointerType::ActivePlayer),
            set: PointerSet::new(),
            corrupted: PointerSet::new(),
            required2: PointerSet::new().with(PointerType::ActivePlayer2),
            set2: PointerSet::new(),
            corrupted2: PointerSet::new(),
            conditional: false,
        },
        CommandRow {
            name: "cam_lookat",
            required: PointerSet::new().with(PointerType::ActivePlayer),
            set: PointerSet::new(),
            corrupted: PointerSet::new(),
            required2: PointerSet::new().with(PointerType::ActivePlayer2),
            set2: PointerSet::new(),
            corrupted2: PointerSet::new(),
            conditional: false,
        },
        CommandRow {
            name: "cam_moveto",
            required: PointerSet::new().with(PointerType::ActivePlayer),
            set: PointerSet::new(),
            corrupted: PointerSet::new(),
            required2: PointerSet::new().with(PointerType::ActivePlayer2),
            set2: PointerSet::new(),
            corrupted2: PointerSet::new(),
            conditional: false,
        },
        CommandRow {
            name: "cam_reset",
            required: PointerSet::new().with(PointerType::ActivePlayer),
            set: PointerSet::new(),
            corrupted: PointerSet::new(),
            required2: PointerSet::new().with(PointerType::ActivePlayer2),
            set2: PointerSet::new(),
            corrupted2: PointerSet::new(),
            conditional: false,
        },
        CommandRow {
            name: "cam_shake",
            required: PointerSet::new().with(PointerType::ActivePlayer),
            set: PointerSet::new(),
            corrupted: PointerSet::new(),
            required2: PointerSet::new().with(PointerType::ActivePlayer2),
            set2: PointerSet::new(),
            corrupted2: PointerSet::new(),
            conditional: false,
        },
    ];
    proof {
        assert(v@.map_values(|r: CommandRow| r@) =~= command_table_part1());
    }
    v
}

fn command_rows_part2() -> (v: Vec<CommandRow>)
    ensures
        v@.map_values(|r: CommandRow| r@) == command_table_part2(),
{
    let v = vec![
        CommandRow {
            name: "clearqueue",
            required: PointerSet::new().with(PointerType::ActivePlayer),
            set: PointerSet::new(),
            corrupted: PointerSet::new(),
            required2: PointerSet::new(),
            set2: PointerSet::new(),
            corrupted2: PointerSet::new(),
            conditional: false,
        },
        CommandRow {
            name: "clearsofttimer",
            required: PointerSet::new().with(PointerType::ActivePlayer),
            set: PointerSet::new(),
            corrupted: PointerSet::new(),
            required2: PointerSet::new().with(PointerType::ActivePlayer2),
            set2: PointerSet::new(),
            corrupted2: PointerSet::new(),
            conditional: false,
        },
        CommandRow {
            name: "cleartimer",
            required: PointerSet::new().with(PointerType::ActivePlayer),
            set: PointerSet::new(),
            corrupted: PointerSet::new(),
            required2: PointerSet::new().with(PointerType::ActivePlayer2),
            set2: PointerSet::new(),
            corrupted2: PointerSet::new(),
            conditional: false,
        },
        CommandRow {
            name: "gettimer",
            required: PointerSet::new().with(PointerType::ActivePlayer),
            set: PointerSet::new(),
            corrupted: PointerSet::new(),
            required2: PointerSet::new().with(PointerType::ActivePlayer2),
            set2: PointerSet::new(),
            corrupted2: PointerSet::new(),
            conditional: false,
        },
        CommandRow {
            name: "coord",
            required: PointerSet::new().with(PointerType::ActivePlayer),
            set: PointerSet::new(),
            corrupted: PointerSet::new(),
            required2: PointerSet::new().with(PointerType::ActivePlayer2),
            set2: PointerSet::new(),
            corrupted2: PointerSet::new(),
            conditional: false,
        },
        CommandRow {
            name: "damage",
            required: PointerSet::new().with(PointerType::ActivePlayer),
            set: PointerSet::new(),
            corrupted: PointerSet::new(),
            required2: PointerSet::new().with(PointerType::ActivePlayer2),
            set2: PointerSet::new(),
            corrupted2: PointerSet::new(),
            conditional: false,
        },
        CommandRow {
            name: "displayname",
            required: PointerSet::new().with(PointerType::ActivePlayer),
            set: PointerSet::new(),
            corrupted: PointerSet::new(),
            required2: PointerSet::new().with(PointerType::ActivePlayer2),
            set2: PointerSet::new(),
            corrupted2: PointerSet::new(),
            conditional: false,
        },
        CommandRow {
            name: "facesquare",
            required: PointerSet::new().with(PointerType::ActivePlayer),
            set: PointerSet::new(),
            corrupted: PointerSet::new(),
            required2: PointerSet::new().with(PointerType::ActivePlayer2),
            set2: PointerSet::new(),
            corrupted2: PointerSet::new(),
            conditional: false,
        },
        CommandRow {
            name: "finduid",
            required: PointerSet::new(),
            set: PointerSet::new().with(PointerType::ActivePlayer),
            corrupted: PointerSet::new().with(PointerType::PActivePlayer),
            required2: PointerSet::new(),
            set2: PointerSet::new().with(PointerType::ActivePlayer2),
            corrupted2: PointerSet::new().with(PointerType::PActivePlayer2),
            conditional: true,
        },
        CommandRow {
            name: "gender",
            required: PointerSet::new().with(PointerType::ActivePlayer),
            set: PointerSet::new(),
            corrupted: PointerSet::new(),
            required2: PointerSet::new().with(PointerType::ActivePlayer2),
            set2: PointerSet::new(),
            corrupted2: PointerSet::new(),
            conditional: false,
        },
        CommandRow {
            name: "getqueue",
            required: PointerSet::new().with(PointerType::ActivePlayer),
            set: PointerSet::new(),
            corrupted: PointerSet::new(),
            required2: PointerSet::new().with(PointerType::ActivePlayer2),
            set2: PointerSet::new(),
            corrupted2: PointerSet::new(),
            conditional: false,
        },
        CommandRow {
            name: "stat_advance",
            required: PointerSet::new().with(PointerType::ActivePlayer),
            set: PointerSet::new(),
            corrupted: PointerSet::new(),
            required2: PointerSet::new(),
            set2: PointerSet::new(),
            corrupted2: PointerSet::new(),
            conditional: false,
        },
        CommandRow {
            name: "headicons_get",
            required: PointerSet::new().with(PointerType::ActivePlayer),
            set: PointerSet::new(),
            corrupted: PointerSet::new(),
            required2: PointerSet::new(),
            set2: PointerSet::new(),
            corrupted2: PointerSet::new(),
            conditional: false,
        },
        CommandRow {
            name: "headicons_set",
            required: PointerSet::new().with(PointerType::ActivePlayer),
            set: PointerSet::new(),
            corrupted: PointerSet::new(),
            required2: PointerSet::new(),
            set2: PointerSet::new(),
            corrupted2: PointerSet::new(),
            conditional: false,
        },
        CommandRow {
            name: "healenergy",
            required: PointerSet::new().with(PointerType::ActivePlayer),
            set: PointerSet::new(),
            corrupted: PointerSet::new(),
            required2: PointerSet::new(),
            set2: PointerSet::new(),
            corrupted2: PointerSet::new(),
            conditional: false,
        },
        CommandRow {
            name: "hint_coord",
            required: PointerSet::new().with(PointerType::ActivePlayer),
            set: PointerSet::new(),
            corrupted: PointerSet::new(),
            required2: PointerSet::new(),
            set2: PointerSet::new(),
            corrupted2: PointerSet::new(),
            conditional: false,
        },
    ];
    proof {
        assert(v@.map_values(|r: CommandRow| r@) =~= command_table_part2());
    }
    v
}

fn command_rows_part3() -> (v: Vec<CommandRow>)
    ensures
        v@.map_values(|r: CommandRow| r@) == command_table_part3(),
{
    let v = vec![
        CommandRow {
            name: "hint_npc",
            required: PointerSet::new().with(PointerType::ActivePlayer).with(PointerType::ActiveNpc),
            set: PointerSet::new(),
            corrupted: PointerSet::new(),
            required2: PointerSet::new(),
            set2: PointerSet::new(),
            corrupted2: PointerSet::new(),
            conditional: false,
        },
        CommandRow {
            name: "hint_pl",
            required: PointerSet::new().with(PointerType::ActivePlayer).with(PointerType::ActivePlayer2),
            set: PointerSet::new(),
            corrupted: PointerSet::new(),
            required2: PointerSet::new(),
            set2: PointerSet::new(),
            corrupted2: PointerSet::new(),
            conditional: false,
        },
        CommandRow {
            name: "hint_stop",
            required: PointerSet::new().with(PointerType::ActivePlayer),
            set: PointerSet::new(),
            corrupted: PointerSet::new(),
            required2: PointerSet::new(),
            set2: PointerSet::new(),
            corrupted2: PointerSet::new(),
            conditional: false,
        },
        CommandRow {
            name: "huntall",
            required: PointerSet::new(),
            set: PointerSet::new().with(PointerType::FindPlayer),
            corrupted: PointerSet::new(),
            required2: PointerSet::new(),
            set2: PointerSet::new(),
            corrupted2: PointerSet::new(),
            conditional: false,
        },
        CommandRow {
            name: "huntnext",
            required: PointerSet::new().with(PointerType::FindPlayer),
            set: PointerSet::new().with(PointerType::ActivePlayer),
            corrupted: PointerSet::new(),
            required2: PointerSet::new().with(PointerType::FindPlayer),
            set2: PointerSet::new().with(PointerType::ActivePlayer2),
            corrupted2: PointerSet::new(),
            conditional: true,
        },
        CommandRow {
            name: "npc_hunt",
            required: PointerSet::new(),
            set: PointerSet::new().with(PointerType::ActiveNpc),
            corrupted: PointerSet::new(),
            required2: PointerSet::new(),
            set2: PointerSet::new().with(PointerType::ActiveNpc2),
            corrupted2: PointerSet::new(),
            conditional: false,
        },
        CommandRow {
            name: "npc_huntall",
            required: PointerSet::new(),
            set: PointerSet::new().with(PointerType::FindNpc),
            corrupted: PointerSet::new(),
            required2: PointerSet::new(),
            set2: PointerSet::new(),
            corrupted2: PointerSet::new(),
            conditional: false,
        },
        CommandRow {
            name: "npc_hasop",
            required: PointerSet::new().with(PointerType::ActiveNpc),
            set: PointerSet::new(),
            corrupted: PointerSet::new(),
            required2: PointerSet::new().with(PointerType::ActiveNpc2),
            set2: PointerSet::new(),
            corrupted2: PointerSet::new(),
            conditional: false,
        },
        CommandRow {
            name: "if_close",
            required: PointerSet::new().with(PointerType::ActivePlayer),
            set: PointerSet::new(),
            corrupted: PointerSet::new(),
            required2: PointerSet::new().with(PointerType::ActivePlayer2),
            set2: PointerSet::new(),
            corrupted2: PointerSet::new(),
            conditional: false,
        },
        CommandRow {
            name: "tut_close",
            required: PointerSet::new().with(PointerType::ActivePlayer),
            set: PointerSet::new(),
            corrupted: PointerSet::new(),
            required2: PointerSet::new(),
            set2: PointerSet::new(),
            corrupted2: PointerSet::new(),
            conditional: false,
        },
        CommandRow {
            name: "if_openchat",
            required: PointerSet::new().with(PointerType::ActivePlayer),
            set: PointerSet::new(),
            corrupted: PointerSet::new(),
            required2: PointerSet::new(),
            set2: PointerSet::new(),
            corrupted2: PointerSet::new(),
            conditional: false,
        },
        CommandRow {
            name: "tut_open",
            required: PointerSet::new().with(PointerType::ActivePlayer),
            set: PointerSet::new(),
            corrupted: PointerSet::new(),
            required2: PointerSet::new(),
            set2: PointerSet::new(),
            corrupted2: PointerSet::new(),
            conditional: false,
        },
        CommandRow {
            name: "if_openmain",
            required: PointerSet::new().with(PointerType::ActivePlayer),
            set: PointerSet::new(),
            corrupted: PointerSet::new(),
            required2: PointerSet::new().with(PointerType::ActivePlayer2),
            set2: PointerSet::new(),
            corrupted2: PointerSet::new(),
            conditional: false,
        },
        CommandRow {
            name: "if_opentop",
            required: PointerSet::new().with(PointerType::ActivePlayer),
            set: PointerSet::new(),
            corrupted: PointerSet::new(),
            required2: PointerSet::new().with(PointerType::ActivePlayer2),
            set2: PointerSet::new(),
            corrupted2: PointerSet::new(),
            conditional: false,
        },
        CommandRow {
            name: "if_openmain_side",
            required: PointerSet::new().with(PointerType::ActivePlayer),
            set: PointerSet::new(),
            corrupted: PointerSet::new(),
            required2: PointerSet::new().with(PointerType::ActivePlayer2),
            set2: PointerSet::new(),
            corrupted2: PointerSet::new(),
            conditional: false,
        },
        CommandRow {
            name: "if_openoverlay",
            required: PointerSet::new().with(PointerType::ActivePlayer),
            set: PointerSet::new(),
            corrupted: PointerSet::new(),
            required2: PointerSet::new().with(PointerType::ActivePlayer2),
            set2: PointerSet::new(),
            corrupted2: PointerSet::new(),
            conditional: false,
        },
    ];
    proof {
        assert(v@.map_values(|r: CommandRow| r@) =~= command_table_part3());
    }
    v
}

fn command_rows_part4() -> (v: Vec<CommandRow>)
    ensures
        v@.map_values(|r: CommandRow| r@) == command_table_part4(),
{
    let v = vec![
        CommandRow {
            name: "if_openside",
            required: PointerSet::new().with(PointerType::ActivePlayer),
            set: PointerSet::new(),
            corrupted: PointerSet::new(),
            required2: PointerSet::new(),
            set2: PointerSet::new(),
            corrupted2: PointerSet::new(),
            conditional: false,
        },
        CommandRow {
            name: "if_setanim",
            required: PointerSet::new().with(PointerType::ActivePlayer),
            set: PointerSet::new(),
            corrupted: PointerSet::new(),
            required2: PointerSet::new(),
            set2: PointerSet::new(),
            corrupted2: PointerSet::new(),
            conditional: false,
        },
        CommandRow {
            name: "if_setcolour",
            required: PointerSet::new().with(PointerType::ActivePlayer),
            set: PointerSet::new(),
            corrupted: PointerSet::new(),
            required2: PointerSet::new(),
            set2: PointerSet::new(),
            corrupted2: PointerSet::new(),
            conditional: false,
        },
        CommandRow {
            name: "if_sethide",
            required: PointerSet::new().with(PointerType::ActivePlayer),
            set: PointerSet::new(),
            corrupted: PointerSet::new(),
            required2: PointerSet::new().with(PointerType::ActivePlayer2),
            set2: PointerSet::new(),
            corrupted2: PointerSet::new(),
            conditional: false,
        },
        CommandRow {
            name: "if_setmodel",
            required: PointerSet::new().with(PointerType::ActivePlayer),
            set: PointerSet::new(),
            corrupted: PointerSet::new(),
            required2: PointerSet::new(),
            set2: PointerSet::new(),
            corrupted2: PointerSet::new(),
            conditional: false,
        },
        CommandRow {
            name: "if_setnpchead",
            required: PointerSet::new().with(PointerType::ActivePlayer),
            set: PointerSet::new(),
            corrupted: PointerSet::new(),
            required2: PointerSet::new(),
            set2: PointerSet::new(),
            corrupted2: PointerSet::new(),
            conditional: false,
        },
        CommandRow {
            name: "if_setobject",
            required: PointerSet::new().with(PointerType::ActivePlayer),
            set: PointerSet::new(),
            corrupted: PointerSet::new(),
            required2: PointerSet::new(),
            set2: PointerSet::new(),
            corrupted2: PointerSet::new(),
            conditional: false,
        },
        CommandRow {
            name: "if_setplayerhead",
            required: PointerSet::new().with(PointerType::ActivePlayer),
            set: PointerSet::new(),
            corrupted: PointerSet::new(),
            required2: PointerSet::new(),
            set2: PointerSet::new(),
            corrupted2: PointerSet::new(),
            conditional: false,
        },
        CommandRow {
            name: "if_setposition",
            required: PointerSet::new().with(PointerType::ActivePlayer),
            set: PointerSet::new(),
            corrupted: PointerSet::new(),
            required2: PointerSet::new(),
            set2: PointerSet::new(),
            corrupted2: PointerSet::new(),
            conditional: false,
        },
        CommandRow {
            name: "if_addresumebutton",
            required: PointerSet::new().with(PointerType::ActivePlayer),
            set: PointerSet::new(),
            corrupted: PointerSet::new(),
            required2: PointerSet::new(),
            set2: PointerSet::new(),
            corrupted2: PointerSet::new(),
            conditional: false,
        },
        CommandRow {
            name: "if_settab",
            required: PointerSet::new().with(PointerType::ActivePlayer),
            set: PointerSet::new(),
            corrupted: PointerSet::new(),
            required2: PointerSet::new(),
            set2: PointerSet::new(),
            corrupted2: PointerSet::new(),
            conditional: false,
        },
        CommandRow {
            name: "if_settabactive",
            required: PointerSet::new().with(PointerType::ActivePlayer),
            set: PointerSet::new(),
            corrupted: PointerSet::new(),
            required2: PointerSet::new().with(PointerType::ActivePlayer2),
            set2: PointerSet::new(),
            corrupted2: PointerSet::new(),
            conditional: false,
        },
        CommandRow {
            name: "tut_flash",
            required: PointerSet::new().with(PointerType::ActivePlayer),
            set: PointerSet::new(),
            corrupted: PointerSet::new(),
            required2: PointerSet::new(),
            set2: PointerSet::new(),
            corrupted2: PointerSet::new(),
            conditional: false,
        },
        CommandRow {
            name: "if_settext",
            required: PointerSet::new().with(PointerType::ActivePlayer),
            set: PointerSet::new(),
            corrupted: PointerSet::new(),
            required2: PointerSet::new().with(PointerType::ActivePlayer2),
            set2: PointerSet::new(),
            corrupted2: PointerSet::new(),
            conditional: false,
        },
        CommandRow {
            name: "last_login_info",
            required: PointerSet::new().with(PointerType::ActivePlayer),
            set: PointerSet::new(),
            corrupted: PointerSet::new(),
            required2: PointerSet::new(),
            set2: PointerSet::new(),
            corrupted2: PointerSet::new(),
            conditional: false,
        },
        CommandRow {
            name: "last_com",
            required: PointerSet::new().with(PointerType::LastCom),
            set: PointerSet::new(),
            corrupted: PointerSet::new(),
            required2: PointerSet::new(),
            set2: PointerSet::new(),
            corrupted2: PointerSet::new(),
            conditional: false,
        },
    ];
    proof {
        assert(v@.map_values(|r: CommandRow| r@) =~= command_table_part4());
    }
    v
}

fn command_rows_part5() -> (v: Vec<CommandRow>)
    ensures
        v@.map_values(|r: CommandRow| r@) == command_table_part5(),
{
    let v = vec![
        CommandRow {
            name: "last_int",
            required: PointerSet::new().with(PointerType::LastInt),
            set: PointerSet::new(),
            corrupted: PointerSet::new(),
            required2: PointerSet::new(),
            set2: PointerSet::new(),
            corrupted2: PointerSet::new(),
            conditional: false,
        },
        CommandRow {
            name: "last_item",
            required: PointerSet::new().with(PointerType::LastItem),
            set: PointerSet::new(),
            corrupted: PointerSet::new(),
            required2: PointerSet::new(),
            set2: PointerSet::new(),
            corrupted2: PointerSet::new(),
            conditional: false,
        },
        CommandRow {
            name: "last_slot",
            required: PointerSet::new().with(PointerType::LastSlot),
            set: PointerSet::new(),
            corrupted: PointerSet::new(),
            required2: PointerSet::new(),
            set2: PointerSet::new(),
            corrupted2: PointerSet::new(),
            conditional: false,
        },
        CommandRow {
            name: "last_targetslot",
            required: PointerSet::new().with(PointerType::LastTargetslot),
            set: PointerSet::new(),
            corrupted: PointerSet::new(),
            required2: PointerSet::new(),
            set2: PointerSet::new(),
            corrupted2: PointerSet::new(),
            conditional: false,
        },
        CommandRow {
            name: "last_useitem",
            required: PointerSet::new().with(PointerType::LastUseitem),
            set: PointerSet::new(),
            corrupted: PointerSet::new(),
            required2: PointerSet::new(),
            set2: PointerSet::new(),
            corrupted2: PointerSet::new(),
            conditional: false,
        },
        CommandRow {
            name: "last_useslot",
            required: PointerSet::new().with(PointerType::LastUseslot),
            set: PointerSet::new(),
            corrupted: PointerSet::new(),
            required2: PointerSet::new(),
            set2: PointerSet::new(),
            corrupted2: PointerSet::new(),
            conditional: false,
        },
        CommandRow {
            name: "longqueue",
            required: PointerSet::new().with(PointerType::ActivePlayer),
            set: PointerSet::new(),
            corrupted: PointerSet::new(),
            required2: PointerSet::new().with(PointerType::ActivePlayer2),
            set2: PointerSet::new(),
            corrupted2: PointerSet::new(),
            conditional: false,
        },
        CommandRow {
            name: "longqueue*",
            required: PointerSet::new().with(PointerType::ActivePlayer),
            set: PointerSet::new(),
            corrupted: PointerSet::new(),
            required2: PointerSet::new().with(PointerType::ActivePlayer2),
            set2: PointerSet::new(),
            corrupted2: PointerSet::new(),
            conditional: false,
        },
        CommandRow {
            name: "lowmem",
            required: PointerSet::new().with(PointerType::ActivePlayer),
            set: PointerSet::new(),
            corrupted: PointerSet::new(),
            required2: PointerSet::new(),
            set2: PointerSet::new(),
            corrupted2: PointerSet::new(),
            conditional: false,
        },
        CommandRow {
            name: "mes",
            required: PointerSet::new().with(PointerType::ActivePlayer),
            set: PointerSet::new(),
            corrupted: PointerSet::new(),
            required2: PointerSet::new().with(PointerType::ActivePlayer2),
            set2: PointerSet::new(),
            corrupted2: PointerSet::new(),
            conditional: false,
        },
        CommandRow {
            name: "midi_jingle",
            required: PointerSet::new().with(PointerType::ActivePlayer),
            set: PointerSet::new(),
            corrupted: PointerSet::new(),
            required2: PointerSet::new(),
            set2: PointerSet::new(),
            corrupted2: PointerSet::new(),
            conditional: false,
        },
        CommandRow {
            name: "midi_song",
            required: PointerSet::new().with(PointerType::ActivePlayer),
            set: PointerSet::new(),
            corrupted: PointerSet::new(),
            required2: PointerSet::new(),
            set2: PointerSet::new(),
            corrupted2: PointerSet::new(),
            conditional: false,
        },
        CommandRow {
            name: "minimap_toggle",
            required: PointerSet::new().with(PointerType::ActivePlayer),
            set: PointerSet::new(),
            corrupted: PointerSet::new(),
            required2: PointerSet::new().with(PointerType::ActivePlayer2),
            set2: PointerSet::new(),
            corrupted2: PointerSet::new(),
            conditional: false,
        },
        CommandRow {
            name: "name",
            required: PointerSet::new().with(PointerType::ActivePlayer),
            set: PointerSet::new(),
            corrupted: PointerSet::new(),
            required2: PointerSet::new().with(PointerType::ActivePlayer2),
            set2: PointerSet::new(),
            corrupted2: PointerSet::new(),
            conditional: false,
        },
        CommandRow {
            name: "p_aprange",
            required: PointerSet::new().with(PointerType::PActivePlayer),
            set: PointerSet::new(),
            corrupted: PointerSet::new(),
            required2: PointerSet::new(),
            set2: PointerSet::new(),
            corrupted2: PointerSet::new(),
            conditional: false,
        },
        CommandRow {
            name: "p_arrivedelay",
            required: PointerSet::new().with(PointerType::PActivePlayer),
            set: PointerSet::new(),
            corrupted: delay_corrupt(),
            required2: PointerSet::new(),
            set2: PointerSet::new(),
            corrupted2: PointerSet::new(),
            conditional: false,
        },
    ];
    proof {
        assert(v@.map_values(|r: CommandRow| r@) =~= command_table_part5());
    }
    v
}

fn command_rows_part6() -> (v: Vec<CommandRow>)
    ensures
        v@.map_values(|r: CommandRow| r@) == command_table_part6(),
{
    let v = vec![
        CommandRow {
            name: "p_countdialog",
            required: PointerSet::new().with(PointerType::PActivePlayer),
            set: PointerSet::new().with(PointerType::LastInt),
            corrupted: delay_corrupt_but_int(),
            required2: PointerSet::new(),
            set2: PointerSet::new(),
            corrupted2: PointerSet::new(),
            conditional: false,
        },
        CommandRow {
            name: "p_delay",
            required: PointerSet::new().with(PointerType::PActivePlayer),
            set: PointerSet::new(),
            corrupted: delay_corrupt(),
            required2: PointerSet::new(),
            set2: PointerSet::new(),
            corrupted2: PointerSet::new(),
            conditional: false,
        },
        CommandRow {
            name: "p_exactmove",
            required: PointerSet::new().with(PointerType::PActivePlayer),
            set: PointerSet::new(),
            corrupted: PointerSet::new(),
            required2: PointerSet::new(),
            set2: PointerSet::new(),
            corrupted2: PointerSet::new(),
            conditional: false,
        },
        CommandRow {
            name: "p_finduid",
            required: PointerSet::new(),
            set: PointerSet::new().with(PointerType::PActivePlayer).with(PointerType::ActivePlayer),
            corrupted: PointerSet::new(),
            required2: PointerSet::new(),
            set2: PointerSet::new().with(PointerType::PActivePlayer2).with(PointerType::ActivePlayer2),
            corrupted2: PointerSet::new(),
            conditional: true,
        },
        CommandRow {
            name: "p_locmerge",
            required: PointerSet::new().with(PointerType::PActivePlayer),
            set: PointerSet::new(),
            corrupted: PointerSet::new(),
            required2: PointerSet::new(),
            set2: PointerSet::new(),
            corrupted2: PointerSet::new(),
            conditional: false,
        },
        CommandRow {
            name: "p_logout",
            required: PointerSet::new().with(PointerType::PActivePlayer),
            set: PointerSet::new(),
            corrupted: PointerSet::new(),
            required2: PointerSet::new(),
            set2: PointerSet::new(),
            corrupted2: PointerSet::new(),
            conditional: false,
        },
        CommandRow {
            name: "p_preventlogout",
            required: PointerSet::new().with(PointerType::PActivePlayer),
            set: PointerSet::new(),
            corrupted: PointerSet::new(),
            required2: PointerSet::new().with(PointerType::PActivePlayer2),
            set2: PointerSet::new(),
            corrupted2: PointerSet::new(),
            conditional: false,
        },
        CommandRow {
            name: "p_opheld",
            required: PointerSet::new().with(PointerType::PActivePlayer),
            set: PointerSet::new(),
            corrupted: PointerSet::new(),
            required2: PointerSet::new(),
            set2: PointerSet::new(),
            corrupted2: PointerSet::new(),
            conditional: false,
        },
        CommandRow {
            name: "p_oploc",
            required: PointerSet::new().with(PointerType::PActivePlayer).with(PointerType::ActiveLoc),
            set: PointerSet::new(),
            corrupted: PointerSet::new(),
            required2: PointerSet::new(),
            set2: PointerSet::new(),
            corrupted2: PointerSet::new(),
            conditional: false,
        },
        CommandRow {
            name: "p_opnpc",
            required: PointerSet::new().with(PointerType::PActivePlayer).with(PointerType::ActiveNpc),
            set: PointerSet::new(),
            corrupted: PointerSet::new(),
            required2: PointerSet::new(),
            set2: PointerSet::new(),
            corrupted2: PointerSet::new(),
            conditional: false,
        },
        CommandRow {
            name: "p_opnpct",
            required: PointerSet::new().with(PointerType::PActivePlayer).with(PointerType::ActiveNpc),
            set: PointerSet::new(),
            corrupted: PointerSet::new(),
            required2: PointerSet::new(),
            set2: PointerSet::new(),
            corrupted2: PointerSet::new(),
            conditional: false,
        },
        CommandRow {
            name: "p_opobj",
            required: PointerSet::new().with(PointerType::PActivePlayer).with(PointerType::ActiveObj),
            set: PointerSet::new(),
            corrupted: PointerSet::new(),
            required2: PointerSet::new(),
            set2: PointerSet::new(),
            corrupted2: PointerSet::new(),
            conditional: false,
        },
        CommandRow {
            name: "p_opplayer",
            required: PointerSet::new().with(PointerType::PActivePlayer).with(PointerType::ActivePlayer2),
            set: PointerSet::new(),
            corrupted: PointerSet::new(),
            required2: PointerSet::new().with(PointerType::PActivePlayer2).with(PointerType::ActivePlayer),
            set2: PointerSet::new(),
            corrupted2: PointerSet::new(),
            conditional: false,
        },
        CommandRow {
            name: "p_opplayert",
            required: PointerSet::new().with(PointerType::PActivePlayer).with(PointerType::ActivePlayer2),
            set: PointerSet::new(),
            corrupted: PointerSet::new(),
            required2: PointerSet::new().with(PointerType::PActivePlayer2).with(PointerType::ActivePlayer),
            set2: PointerSet::new(),
            corrupted2: PointerSet::new(),
            conditional: false,
        },
        CommandRow {
            name: "p_pausebutton",
            required: PointerSet::new().with(PointerType::PActivePlayer),
            set: PointerSet::new().with(PointerType::LastCom),
            corrupted: delay_corrupt_but_com(),
            required2: PointerSet::new(),
            set2: PointerSet::new(),
            corrupted2: PointerSet::new(),
            conditional: false,
        },
        CommandRow {
            name: "p_stopaction",
            required: PointerSet::new().with(PointerType::PActivePlayer),
            set: PointerSet::new(),
            corrupted: PointerSet::new(),
            required2: PointerSet::new().with(PointerType::PActivePlayer2),
            set2: PointerSet::new(),
            corrupted2: PointerSet::new(),
            conditional: false,
        },
    ];
    proof {
        assert(v@.map_values(|r: CommandRow| r@) =~= command_table_part6());
    }
    v
}

fn command_rows_part7() -> (v: Vec<CommandRow>)
    ensures
        v@.map_values(|r: CommandRow| r@) == command_table_part7(),
{
    let v = vec![
        CommandRow {
            name: "p_clearpendingaction",
            required: PointerSet::new().with(PointerType::PActivePlayer),
            set: PointerSet::new(),
            corrupted: PointerSet::new(),
            required2: PointerSet::new().with(PointerType::PActivePlayer2),
            set2: PointerSet::new(),
            corrupted2: PointerSet::new(),
            conditional: false,
        },
        CommandRow {
            name: "p_telejump",
            required: PointerSet::new().with(PointerType::PActivePlayer),
            set: PointerSet::new(),
            corrupted: PointerSet::new(),
            required2: PointerSet::new().with(PointerType::PActivePlayer2),
            set2: PointerSet::new(),
            corrupted2: PointerSet::new(),
            conditional: false,
        },
        CommandRow {
            name: "p_teleport",
            required: PointerSet::new().with(PointerType::PActivePlayer),
            set: PointerSet::new(),
            corrupted: PointerSet::new(),
            required2: PointerSet::new().with(PointerType::PActivePlayer2),
            set2: PointerSet::new(),
            corrupted2: PointerSet::new(),
            conditional: false,
        },
        CommandRow {
            name: "p_walk",
            required: PointerSet::new().with(PointerType::PActivePlayer),
            set: PointerSet::new(),
            corrupted: PointerSet::new(),
            required2: PointerSet::new().with(PointerType::PActivePlayer2),
            set2: PointerSet::new(),
            corrupted2: PointerSet::new(),
            conditional: false,
        },
        CommandRow {
            name: "projanim_pl",
            required: PointerSet::new().with(PointerType::ActivePlayer),
            set: PointerSet::new(),
            corrupted: PointerSet::new(),
            required2: PointerSet::new().with(PointerType::ActivePlayer2),
            set2: PointerSet::new(),
            corrupted2: PointerSet::new(),
            conditional: false,
        },
        CommandRow {
            name: "queue",
            required: PointerSet::new().with(PointerType::ActivePlayer),
            set: PointerSet::new(),
            corrupted: PointerSet::new(),
            required2: PointerSet::new().with(PointerType::ActivePlayer2),
            set2: PointerSet::new(),
            corrupted2: PointerSet::new(),
            conditional: false,
        },
        CommandRow {
            name: "queue*",
            required: PointerSet::new().with(PointerType::ActivePlayer),
            set: PointerSet::new(),
            corrupted: PointerSet::new(),
            required2: PointerSet::new().with(PointerType::ActivePlayer2),
            set2: PointerSet::new(),
            corrupted2: PointerSet::new(),
            conditional: false,
        },
        CommandRow {
            name: "say",
            required: PointerSet::new().with(PointerType::ActivePlayer),
            set: PointerSet::new(),
            corrupted: PointerSet::new(),
            required2: PointerSet::new().with(PointerType::ActivePlayer2),
            set2: PointerSet::new(),
            corrupted2: PointerSet::new(),
            conditional: false,
        },
        CommandRow {
            name: "setidkit",
            required: PointerSet::new().with(PointerType::PActivePlayer),
            set: PointerSet::new(),
            corrupted: PointerSet::new(),
            required2: PointerSet::new(),
            set2: PointerSet::new(),
            corrupted2: PointerSet::new(),
            conditional: false,
        },
        CommandRow {
            name: "walktrigger",
            required: PointerSet::new().with(PointerType::ActivePlayer),
            set: PointerSet::new(),
            corrupted: PointerSet::new(),
            required2: PointerSet::new().with(PointerType::ActivePlayer2),
            set2: PointerSet::new(),
            corrupted2: PointerSet::new(),
            conditional: false,
        },
        CommandRow {
            name: "getwalktrigger",
            required: PointerSet::new().with(PointerType::ActivePlayer),
            set: PointerSet::new(),
            corrupted: PointerSet::new(),
            required2: PointerSet::new().with(PointerType::ActivePlayer2),
            set2: PointerSet::new(),
            corrupted2: PointerSet::new(),
            conditional: false,
        },
        CommandRow {
            name: "settimer",
            required: PointerSet::new().with(PointerType::ActivePlayer),
            set: PointerSet::new(),
            corrupted: PointerSet::new(),
            required2: PointerSet::new().with(PointerType::ActivePlayer2),
            set2: PointerSet::new(),
            corrupted2: PointerSet::new(),
            conditional: false,
        },
        CommandRow {
            name: "softtimer",
            required: PointerSet::new().with(PointerType::ActivePlayer),
            set: PointerSet::new(),
            corrupted: PointerSet::new(),
            required2: PointerSet::new().with(PointerType::ActivePlayer2),
            set2: PointerSet::new(),
            corrupted2: PointerSet::new(),
            conditional: false,
        },
        CommandRow {
            name: "sound_synth",
            required: PointerSet::new().with(PointerType::ActivePlayer),
            set: PointerSet::new(),
            corrupted: PointerSet::new(),
            required2: PointerSet::new().with(PointerType::ActivePlayer2),
            set2: PointerSet::new(),
            corrupted2: PointerSet::new(),
            conditional: false,
        },
        CommandRow {
            name: "spotanim_pl",
            required: PointerSet::new().with(PointerType::ActivePlayer),
            set: PointerSet::new(),
            corrupted: PointerSet::new(),
            required2: PointerSet::new().with(PointerType::ActivePlayer2),
            set2: PointerSet::new(),
            corrupted2: PointerSet::new(),
            conditional: false,
        },
        CommandRow {
            name: "staffmodlevel",
            required: PointerSet::new().with(PointerType::ActivePlayer),
            set: PointerSet::new(),
            corrupted: PointerSet::new(),
            required2: PointerSet::new().with(PointerType::ActivePlayer2),
            set2: PointerSet::new(),
            corrupted2: PointerSet::new(),
            conditional: false,
        },
    ];
    proof {
        assert(v@.map_values(|r: CommandRow| r@) =~= command_table_part7());
    }
    v
}

fn command_rows_part8() -> (v: Vec<CommandRow>)
    ensures
        v@.map_values(|r: CommandRow| r@) == command_table_part8(),
{
    let v = vec![
        CommandRow {
            name: "stat",
            required: PointerSet::new().with(PointerType::ActivePlayer),
            set: PointerSet::new(),
            corrupted: PointerSet::new(),
            required2: PointerSet::new().with(PointerType::ActivePlayer2),
            set2: PointerSet::new(),
            corrupted2: PointerSet::new(),
            conditional: false,
        },
        CommandRow {
            name: "stat_add",
            required: PointerSet::new().with(PointerType::ActivePlayer),
            set: PointerSet::new(),
            corrupted: PointerSet::new(),
            required2: PointerSet::new().with(PointerType::ActivePlayer2),
            set2: PointerSet::new(),
            corrupted2: PointerSet::new(),
            conditional: false,
        },
        CommandRow {
            name: "stat_base",
            required: PointerSet::new().with(PointerType::ActivePlayer),
            set: PointerSet::new(),
            corrupted: PointerSet::new(),
            required2: PointerSet::new().with(PointerType::ActivePlayer2),
            set2: PointerSet::new(),
            corrupted2: PointerSet::new(),
            conditional: false,
        },
        CommandRow {
            name: "stat_heal",
            required: PointerSet::new().with(PointerType::ActivePlayer),
            set: PointerSet::new(),
            corrupted: PointerSet::new(),
            required2: PointerSet::new().with(PointerType::ActivePlayer2),
            set2: PointerSet::new(),
            corrupted2: PointerSet::new(),
            conditional: false,
        },
        CommandRow {
            name: "stat_sub",
            required: PointerSet::new().with(PointerType::ActivePlayer),
            set: PointerSet::new(),
            corrupted: PointerSet::new(),
            required2: PointerSet::new().with(PointerType::ActivePlayer2),
            set2: PointerSet::new(),
            corrupted2: PointerSet::new(),
            conditional: false,
        },
        CommandRow {
            name: "stat_boost",
            required: PointerSet::new().with(PointerType::ActivePlayer),
            set: PointerSet::new(),
            corrupted: PointerSet::new(),
            required2: PointerSet::new().with(PointerType::ActivePlayer2),
            set2: PointerSet::new(),
            corrupted2: PointerSet::new(),
            conditional: false,
        },
        CommandRow {
            name: "stat_drain",
            required: PointerSet::new().with(PointerType::ActivePlayer),
            set: PointerSet::new(),
            corrupted: PointerSet::new(),
            required2: PointerSet::new().with(PointerType::ActivePlayer2),
            set2: PointerSet::new(),
            corrupted2: PointerSet::new(),
            conditional: false,
        },
        CommandRow {
            name: "stat_random",
            required: PointerSet::new().with(PointerType::ActivePlayer),
            set: PointerSet::new(),
            corrupted: PointerSet::new(),
            required2: PointerSet::new().with(PointerType::ActivePlayer2),
            set2: PointerSet::new(),
            corrupted2: PointerSet::new(),
            conditional: false,
        },
        CommandRow {
            name: "uid",
            required: PointerSet::new().with(PointerType::ActivePlayer),
            set: PointerSet::new(),
            corrupted: PointerSet::new(),
            required2: PointerSet::new().with(PointerType::ActivePlayer2),
            set2: PointerSet::new(),
            corrupted2: PointerSet::new(),
            conditional: false,
        },
        CommandRow {
            name: "weakqueue",
            required: PointerSet::new().with(PointerType::ActivePlayer),
            set: PointerSet::new(),
            corrupted: PointerSet::new(),
            required2: PointerSet::new().with(PointerType::ActivePlayer2),
            set2: PointerSet::new(),
            corrupted2: PointerSet::new(),
            conditional: false,
        },
        CommandRow {
            name: "weakqueue*",
            required: PointerSet::new().with(PointerType::ActivePlayer),
            set: PointerSet::new(),
            corrupted: PointerSet::new(),
            required2: PointerSet::new().with(PointerType::ActivePlayer2),
            set2: PointerSet::new(),
            corrupted2: PointerSet::new(),
            conditional: false,
        },
        CommandRow {
            name: "findhero",
            required: PointerSet::new(),
            set: PointerSet::new().with(PointerType::ActivePlayer2),
            corrupted: PointerSet::new(),
            required2: PointerSet::new(),
            set2: PointerSet::new().with(PointerType::ActivePlayer),
            corrupted2: PointerSet::new(),
            conditional: true,
        },
        CommandRow {
            name: "both_heropoints",
            required: PointerSet::new().with(PointerType::ActivePlayer).with(PointerType::ActivePlayer2),
            set: PointerSet::new(),
            corrupted: PointerSet::new(),
            required2: PointerSet::new().with(PointerType::ActivePlayer2).with(PointerType::ActivePlayer),
            set2: PointerSet::new(),
            corrupted2: PointerSet::new(),
            conditional: false,
        },
        CommandRow {
            name: "setgender",
            required: PointerSet::new().with(PointerType::PActivePlayer),
            set: PointerSet::new(),
            corrupted: PointerSet::new(),
            required2: PointerSet::new(),
            set2: PointerSet::new(),
            corrupted2: PointerSet::new(),
            conditional: false,
        },
        CommandRow {
            name: "setidkcolour",
            required: PointerSet::new().with(PointerType::PActivePlayer),
            set: PointerSet::new(),
            corrupted: PointerSet::new(),
            required2: PointerSet::new(),
            set2: PointerSet::new(),
            corrupted2: PointerSet::new(),
            conditional: false,
        },
        CommandRow {
            name: "p_animprotect",
            required: PointerSet::new().with(PointerType::PActivePlayer),
            set: PointerSet::new(),
            corrupted: PointerSet::new(),
            required2: PointerSet::new().with(PointerType::PActivePlayer2),
            set2: PointerSet::new(),
            corrupted2: PointerSet::new(),
            conditional: false,
        },
    ];
    proof {
        assert(v@.map_values(|r: CommandRow| r@) =~= command_table_part8());
    }
    v
}

fn command_rows_part9() -> (v: Vec<CommandRow>)
    ensures
        v@.map_values(|r: CommandRow| r@) == command_table_part9(),
{
    let v = vec![
        CommandRow {
            name: "runenergy",
            required: PointerSet::new().with(PointerType::ActivePlayer),
            set: PointerSet::new(),
            corrupted: PointerSet::new(),
            required2: PointerSet::new().with(PointerType::ActivePlayer2),
            set2: PointerSet::new(),
            corrupted2: PointerSet::new(),
            conditional: false,
        },
        CommandRow {
            name: "weight",
            required: PointerSet::new().with(PointerType::PActivePlayer),
            set: PointerSet::new(),
            corrupted: PointerSet::new(),
            required2: PointerSet::new().with(PointerType::PActivePlayer2),
            set2: PointerSet::new(),
            corrupted2: PointerSet::new(),
            conditional: false,
        },
        CommandRow {
            name: "p_run",
            required: PointerSet::new().with(PointerType::PActivePlayer),
            set: PointerSet::new(),
            corrupted: PointerSet::new(),
            required2: PointerSet::new().with(PointerType::PActivePlayer2),
            set2: PointerSet::new(),
            corrupted2: PointerSet::new(),
            conditional: false,
        },
        CommandRow {
            name: "if_setscrollpos",
            required: PointerSet::new().with(PointerType::ActivePlayer),
            set: PointerSet::new(),
            corrupted: PointerSet::new(),
            required2: PointerSet::new(),
            set2: PointerSet::new(),
            corrupted2: PointerSet::new(),
            conditional: false,
        },
        CommandRow {
            name: "if_movesub",
            required: PointerSet::new().with(PointerType::ActivePlayer),
            set: PointerSet::new(),
            corrupted: PointerSet::new(),
            required2: PointerSet::new(),
            set2: PointerSet::new(),
            corrupted2: PointerSet::new(),
            conditional: false,
        },
        CommandRow {
            name: "set_player_op",
            required: PointerSet::new().with(PointerType::ActivePlayer),
            set: PointerSet::new(),
            corrupted: PointerSet::new(),
            required2: PointerSet::new(),
            set2: PointerSet::new(),
            corrupted2: PointerSet::new(),
            conditional: false,
        },
        CommandRow {
            name: "set_skill_level",
            required: PointerSet::new().with(PointerType::ActivePlayer),
            set: PointerSet::new(),
            corrupted: PointerSet::new(),
            required2: PointerSet::new().with(PointerType::ActivePlayer2),
            set2: PointerSet::new(),
            corrupted2: PointerSet::new(),
            conditional: false,
        },
        CommandRow {
            name: "strongqueue",
            required: PointerSet::new().with(PointerType::ActivePlayer),
            set: PointerSet::new(),
            corrupted: PointerSet::new(),
            required2: PointerSet::new().with(PointerType::ActivePlayer2),
            set2: PointerSet::new(),
            corrupted2: PointerSet::new(),
            conditional: false,
        },
        CommandRow {
            name: "strongqueue*",
            required: PointerSet::new().with(PointerType::ActivePlayer),
            set: PointerSet::new(),
            corrupted: PointerSet::new(),
            required2: PointerSet::new().with(PointerType::ActivePlayer2),
            set2: PointerSet::new(),
            corrupted2: PointerSet::new(),
            conditional: false,
        },
        CommandRow {
            name: "npc_add",
            required: PointerSet::new(),
            set: PointerSet::new().with(PointerType::ActiveNpc),
            corrupted: PointerSet::new(),
            required2: PointerSet::new(),
            set2: PointerSet::new().with(PointerType::ActiveNpc2),
            corrupted2: PointerSet::new(),
            conditional: false,
        },
        CommandRow {
            name: "npc_anim",
            required: PointerSet::new().with(PointerType::ActiveNpc),
            set: PointerSet::new(),
            corrupted: PointerSet::new(),
            required2: PointerSet::new().with(PointerType::ActiveNpc2),
            set2: PointerSet::new(),
            corrupted2: PointerSet::new(),
            conditional: false,
        },
        CommandRow {
            name: "npc_basestat",
            required: PointerSet::new().with(PointerType::ActiveNpc),
            set: PointerSet::new(),
            corrupted: PointerSet::new(),
            required2: PointerSet::new().with(PointerType::ActiveNpc2),
            set2: PointerSet::new(),
            corrupted2: PointerSet::new(),
            conditional: false,
        },
        CommandRow {
            name: "npc_category",
            required: PointerSet::new().with(PointerType::ActiveNpc),
            set: PointerSet::new(),
            corrupted: PointerSet::new(),
            required2: PointerSet::new().with(PointerType::ActiveNpc2),
            set2: PointerSet::new(),
            corrupted2: PointerSet::new(),
            conditional: false,
        },
        CommandRow {
            name: "npc_changetype",
            required: PointerSet::new().with(PointerType::ActiveNpc),
            set: PointerSet::new(),
            corrupted: PointerSet::new(),
            required2: PointerSet::new().with(PointerType::ActiveNpc2),
            set2: PointerSet::new(),
            corrupted2: PointerSet::new(),
            conditional: false,
        },
        CommandRow {
            name: "npc_changetype_keepall",
            required: PointerSet::new().with(PointerType::ActiveNpc),
            set: PointerSet::new(),
            corrupted: PointerSet::new(),
            required2: PointerSet::new().with(PointerType::ActiveNpc2),
            set2: PointerSet::new(),
            corrupted2: PointerSet::new(),
            conditional: false,
        },
        CommandRow {
            name: "npc_coord",
            required: PointerSet::new().with(PointerType::ActiveNpc),
            set: PointerSet::new(),
            corrupted: PointerSet::new(),
            required2: PointerSet::new().with(PointerType::ActiveNpc2),
            set2: PointerSet::new(),
            corrupted2: PointerSet::new(),
            conditional: false,
        },
    ];
    proof {
        assert(v@.map_values(|r: CommandRow| r@) =~= command_table_part9());
    }
    v
}

fn command_rows_part10() -> (v: Vec<CommandRow>)
    ensures
        v@.map_values(|r: CommandRow| r@) == command_table_part10(),
{
    let v = vec![
        CommandRow {
            name: "npc_damage",
            required: PointerSet::new().with(PointerType::ActiveNpc),
            set: PointerSet::new(),
            corrupted: PointerSet::new(),
            required2: PointerSet::new().with(PointerType::ActiveNpc2),
            set2: PointerSet::new(),
            corrupted2: PointerSet::new(),
            conditional: false,
        },
        CommandRow {
            name: "npc_del",
            required: PointerSet::new().with(PointerType::ActiveNpc),
            set: PointerSet::new(),
            corrupted: PointerSet::new(),
            required2: PointerSet::new().with(PointerType::ActiveNpc2),
            set2: PointerSet::new(),
            corrupted2: PointerSet::new(),
            conditional: false,
        },
        CommandRow {
            name: "npc_delay",
            required: PointerSet::new().with(PointerType::ActiveNpc),
            set: PointerSet::new(),
            corrupted: npc_delay_corrupt(),
            required2: PointerSet::new().with(PointerType::ActiveNpc2),
            set2: PointerSet::new(),
            corrupted2: PointerSet::new(),
            conditional: false,
        },
        CommandRow {
            name: "npc_facesquare",
            required: PointerSet::new().with(PointerType::ActiveNpc),
            set: PointerSet::new(),
            corrupted: PointerSet::new(),
            required2: PointerSet::new().with(PointerType::ActiveNpc2),
            set2: PointerSet::new(),
            corrupted2: PointerSet::new(),
            conditional: false,
        },
        CommandRow {
            name: "npc_find",
            required: PointerSet::new(),
            set: PointerSet::new().with(PointerType::ActiveNpc),
            corrupted: PointerSet::new(),
            required2: PointerSet::new(),
            set2: PointerSet::new().with(PointerType::ActiveNpc2),
            corrupted2: PointerSet::new(),
            conditional: true,
        },
        CommandRow {
            name: "npc_findcat",
            required: PointerSet::new(),
            set: PointerSet::new().with(PointerType::ActiveNpc),
            corrupted: PointerSet::new(),
            required2: PointerSet::new(),
            set2: PointerSet::new().with(PointerType::ActiveNpc2),
            corrupted2: PointerSet::new(),
            conditional: true,
        },
        CommandRow {
            name: "npc_findallany",
            required: PointerSet::new(),
            set: PointerSet::new().with(PointerType::FindNpc),
            corrupted: PointerSet::new(),
            required2: PointerSet::new(),
            set2: PointerSet::new(),
            corrupted2: PointerSet::new(),
            conditional: false,
        },
        CommandRow {
            name: "npc_findall",
            required: PointerSet::new(),
            set: PointerSet::new().with(PointerType::FindNpc),
            corrupted: PointerSet::new(),
            required2: PointerSet::new(),
            set2: PointerSet::new(),
            corrupted2: PointerSet::new(),
            conditional: false,
        },
        CommandRow {
            name: "npc_findallzone",
            required: PointerSet::new(),
            set: PointerSet::new().with(PointerType::FindNpc),
            corrupted: PointerSet::new(),
            required2: PointerSet::new(),
            set2: PointerSet::new(),
            corrupted2: PointerSet::new(),
            conditional: false,
        },
        CommandRow {
            name: "npc_findnext",
            required: PointerSet::new().with(PointerType::FindNpc),
            set: PointerSet::new().with(PointerType::ActiveNpc),
            corrupted: PointerSet::new(),
            required2: PointerSet::new(),
            set2: PointerSet::new().with(PointerType::ActiveNpc2),
            corrupted2: PointerSet::new(),
            conditional: true,
        },
        CommandRow {
            name: "npc_findexact",
            required: PointerSet::new(),
            set: PointerSet::new().with(PointerType::ActiveNpc),
            corrupted: PointerSet::new(),
            required2: PointerSet::new(),
            set2: PointerSet::new().with(PointerType::ActiveNpc2),
            corrupted2: PointerSet::new(),
            conditional: true,
        },
        CommandRow {
            name: "npc_findhero",
            required: PointerSet::new().with(PointerType::ActiveNpc),
            set: PointerSet::new().with(PointerType::ActivePlayer),
            corrupted: PointerSet::new(),
            required2: PointerSet::new().with(PointerType::ActiveNpc2),
            set2: PointerSet::new().with(PointerType::ActivePlayer2),
            corrupted2: PointerSet::new(),
            conditional: true,
        },
        CommandRow {
            name: "npc_finduid",
            required: PointerSet::new(),
            set: PointerSet::new().with(PointerType::ActiveNpc),
            corrupted: PointerSet::new(),
            required2: PointerSet::new(),
            set2: PointerSet::new().with(PointerType::ActiveNpc2),
            corrupted2: PointerSet::new(),
            conditional: true,
        },
        CommandRow {
            name: "npc_getmode",
            required: PointerSet::new().with(PointerType::ActiveNpc),
            set: PointerSet::new(),
            corrupted: PointerSet::new(),
            required2: PointerSet::new().with(PointerType::ActiveNpc2),
            set2: PointerSet::new(),
            corrupted2: PointerSet::new(),
            conditional: false,
        },
        CommandRow {
            name: "npc_heropoints",
            required: PointerSet::new().with(PointerType::ActiveNpc).with(PointerType::ActivePlayer),
            set: PointerSet::new(),
            corrupted: PointerSet::new(),
            required2: PointerSet::new(),
            set2: PointerSet::new(),
            corrupted2: PointerSet::new(),
            conditional: false,
        },
        CommandRow {
            name: "npc_name",
            required: PointerSet::new().with(PointerType::ActiveNpc),
            set: PointerSet::new(),
            corrupted: PointerSet::new(),
            required2: PointerSet::new().with(PointerType::ActiveNpc2),
            set2: PointerSet::new(),
            corrupted2: PointerSet::new(),
            conditional: false,
        },
    ];
    proof {
        assert(v@.map_values(|r: CommandRow| r@) =~= command_table_part10());
    }
    v
}

fn command_rows_part11() -> (v: Vec<CommandRow>)
    ensures
        v@.map_values(|r: CommandRow| r@) == command_table_part11(),
{
    let v = vec![
        CommandRow {
            name: "npc_param",
            required: PointerSet::new().with(PointerType::ActiveNpc),
            set: PointerSet::new(),
            corrupted: PointerSet::new(),
            required2: PointerSet::new().with(PointerType::ActiveNpc2),
            set2: PointerSet::new(),
            corrupted2: PointerSet::new(),
            conditional: false,
        },
        CommandRow {
            name: "npc_queue",
            required: PointerSet::new().with(PointerType::ActiveNpc),
            set: PointerSet::new(),
            corrupted: PointerSet::new(),
            required2: PointerSet::new().with(PointerType::ActiveNpc2),
            set2: PointerSet::new(),
            corrupted2: PointerSet::new(),
            conditional: false,
        },
        CommandRow {
            name: "npc_range",
            required: PointerSet::new().with(PointerType::ActiveNpc),
            set: PointerSet::new(),
            corrupted: PointerSet::new(),
            required2: PointerSet::new().with(PointerType::ActiveNpc2),
            set2: PointerSet::new(),
            corrupted2: PointerSet::new(),
            conditional: false,
        },
        CommandRow {
            name: "npc_say",
            required: PointerSet::new().with(PointerType::ActiveNpc),
            set: PointerSet::new(),
            corrupted: PointerSet::new(),
            required2: PointerSet::new().with(PointerType::ActiveNpc2),
            set2: PointerSet::new(),
            corrupted2: PointerSet::new(),
            conditional: false,
        },
        CommandRow {
            name: "npc_sethunt",
            required: PointerSet::new().with(PointerType::ActiveNpc),
            set: PointerSet::new(),
            corrupted: PointerSet::new(),
            required2: PointerSet::new().with(PointerType::ActiveNpc2),
            set2: PointerSet::new(),
            corrupted2: PointerSet::new(),
            conditional: false,
        },
        CommandRow {
            name: "npc_sethuntmode",
            required: PointerSet::new().with(PointerType::ActiveNpc),
            set: PointerSet::new(),
            corrupted: PointerSet::new(),
            required2: PointerSet::new().with(PointerType::ActiveNpc2),
            set2: PointerSet::new(),
            corrupted2: PointerSet::new(),
            conditional: false,
        },
        CommandRow {
            name: "npc_setmode",
            required: PointerSet::new().with(PointerType::ActiveNpc),
            set: PointerSet::new(),
            corrupted: PointerSet::new(),
            required2: PointerSet::new().with(PointerType::ActiveNpc2),
            set2: PointerSet::new(),
            corrupted2: PointerSet::new(),
            conditional: false,
        },
        CommandRow {
            name: "npc_walktrigger",
            required: PointerSet::new().with(PointerType::ActiveNpc),
            set: PointerSet::new(),
            corrupted: PointerSet::new(),
            required2: PointerSet::new().with(PointerType::ActiveNpc2),
            set2: PointerSet::new(),
            corrupted2: PointerSet::new(),
            conditional: false,
        },
        CommandRow {
            name: "npc_settimer",
            required: PointerSet::new().with(PointerType::ActiveNpc),
            set: PointerSet::new(),
            corrupted: PointerSet::new(),
            required2: PointerSet::new().with(PointerType::ActiveNpc2),
            set2: PointerSet::new(),
            corrupted2: PointerSet::new(),
            conditional: false,
        },
        CommandRow {
            name: "npc_stat",
            required: PointerSet::new().with(PointerType::ActiveNpc),
            set: PointerSet::new(),
            corrupted: PointerSet::new(),
            required2: PointerSet::new().with(PointerType::ActiveNpc2),
            set2: PointerSet::new(),
            corrupted2: PointerSet::new(),
            conditional: false,
        },
        CommandRow {
            name: "npc_statadd",
            required: PointerSet::new().with(PointerType::ActiveNpc),
            set: PointerSet::new(),
            corrupted: PointerSet::new(),
            required2: PointerSet::new().with(PointerType::ActiveNpc2),
            set2: PointerSet::new(),
            corrupted2: PointerSet::new(),
            conditional: false,
        },
        CommandRow {
            name: "npc_statheal",
            required: PointerSet::new().with(PointerType::ActiveNpc),
            set: PointerSet::new(),
            corrupted: PointerSet::new(),
            required2: PointerSet::new().with(PointerType::ActiveNpc2),
            set2: PointerSet::new(),
            corrupted2: PointerSet::new(),
            conditional: false,
        },
        CommandRow {
            name: "npc_statsub",
            required: PointerSet::new().with(PointerType::ActiveNpc),
            set: PointerSet::new(),
            corrupted: PointerSet::new(),
            required2: PointerSet::new().with(PointerType::ActiveNpc2),
            set2: PointerSet::new(),
            corrupted2: PointerSet::new(),
            conditional: false,
        },
        CommandRow {
            name: "npc_tele",
            required: PointerSet::new().with(PointerType::ActiveNpc),
            set: PointerSet::new(),
            corrupted: PointerSet::new(),
            required2: PointerSet::new().with(PointerType::ActiveNpc2),
            set2: PointerSet::new(),
            corrupted2: PointerSet::new(),
            conditional: false,
        },
        CommandRow {
            name: "npc_type",
            required: PointerSet::new().with(PointerType::ActiveNpc),
            set: PointerSet::new(),
            corrupted: PointerSet::new(),
            required2: PointerSet::new().with(PointerType::ActiveNpc2),
            set2: PointerSet::new(),
            corrupted2: PointerSet::new(),
            conditional: false,
        },
        CommandRow {
            name: "npc_uid",
            required: PointerSet::new().with(PointerType::ActiveNpc),
            set: PointerSet::new(),
            corrupted: PointerSet::new(),
            required2: PointerSet::new().with(PointerType::ActiveNpc2),
            set2: PointerSet::new(),
            corrupted2: PointerSet::new(),
            conditional: false,
        },
    ];
    proof {
        assert(v@.map_values(|r: CommandRow| r@) =~= command_table_part11());
    }
    v
}

fn command_rows_part12() -> (v: Vec<CommandRow>)
    ensures
        v@.map_values(|r: CommandRow| r@) == command_table_part12(),
{
    let v = vec![
        CommandRow {
            name: "projanim_npc",
            required: PointerSet::new().with(PointerType::ActiveNpc),
            set: PointerSet::new(),
            corrupted: PointerSet::new(),
            required2: PointerSet::new().with(PointerType::ActiveNpc2),
            set2: PointerSet::new(),
            corrupted2: PointerSet::new(),
            conditional: false,
        },
        CommandRow {
            name: "spotanim_npc",
            required: PointerSet::new().with(PointerType::ActiveNpc),
            set: PointerSet::new(),
            corrupted: PointerSet::new(),
            required2: PointerSet::new().with(PointerType::ActiveNpc2),
            set2: PointerSet::new(),
            corrupted2: PointerSet::new(),
            conditional: false,
        },
        CommandRow {
            name: "npc_walk",
            required: PointerSet::new().with(PointerType::ActiveNpc),
            set: PointerSet::new(),
            corrupted: PointerSet::new(),
            required2: PointerSet::new().with(PointerType::ActiveNpc2),
            set2: PointerSet::new(),
            corrupted2: PointerSet::new(),
            conditional: false,
        },
        CommandRow {
            name: "npc_attackrange",
            required: PointerSet::new().with(PointerType::ActiveNpc),
            set: PointerSet::new(),
            corrupted: PointerSet::new(),
            required2: PointerSet::new().with(PointerType::ActiveNpc2),
            set2: PointerSet::new(),
            corrupted2: PointerSet::new(),
            conditional: false,
        },
        CommandRow {
            name: "npc_arrivedelay",
            required: PointerSet::new().with(PointerType::ActiveNpc),
            set: PointerSet::new(),
            corrupted: npc_delay_corrupt(),
            required2: PointerSet::new().with(PointerType::ActiveNpc2),
            set2: PointerSet::new(),
            corrupted2: PointerSet::new(),
            conditional: false,
        },
        CommandRow {
            name: "npc_inrange",
            required: PointerSet::new().with(PointerType::ActiveNpc),
            set: PointerSet::new(),
            corrupted: PointerSet::new(),
            required2: PointerSet::new().with(PointerType::ActiveNpc2),
            set2: PointerSet::new(),
            corrupted2: PointerSet::new(),
            conditional: false,
        },
        CommandRow {
            name: "loc_add",
            required: PointerSet::new(),
            set: PointerSet::new().with(PointerType::ActiveLoc),
            corrupted: PointerSet::new(),
            required2: PointerSet::new(),
            set2: PointerSet::new().with(PointerType::ActiveLoc2),
            corrupted2: PointerSet::new(),
            conditional: false,
        },
        CommandRow {
            name: "loc_angle",
            required: PointerSet::new().with(PointerType::ActiveLoc),
            set: PointerSet::new(),
            corrupted: PointerSet::new(),
            required2: PointerSet::new().with(PointerType::ActiveLoc2),
            set2: PointerSet::new(),
            corrupted2: PointerSet::new(),
            conditional: false,
        },
        CommandRow {
            name: "loc_anim",
            required: PointerSet::new().with(PointerType::ActiveLoc),
            set: PointerSet::new(),
            corrupted: PointerSet::new(),
            required2: PointerSet::new().with(PointerType::ActiveLoc2),
            set2: PointerSet::new(),
            corrupted2: PointerSet::new(),
            conditional: false,
        },
        CommandRow {
            name: "loc_category",
            required: PointerSet::new().with(PointerType::ActiveLoc),
            set: PointerSet::new(),
            corrupted: PointerSet::new(),
            required2: PointerSet::new().with(PointerType::ActiveLoc2),
            set2: PointerSet::new(),
            corrupted2: PointerSet::new(),
            conditional: false,
        },
        CommandRow {
            name: "loc_change",
            required: PointerSet::new().with(PointerType::ActiveLoc),
            set: PointerSet::new(),
            corrupted: PointerSet::new(),
            required2: PointerSet::new().with(PointerType::ActiveLoc2),
            set2: PointerSet::new(),
            corrupted2: PointerSet::new(),
            conditional: false,
        },
        CommandRow {
            name: "loc_coord",
            required: PointerSet::new().with(PointerType::ActiveLoc),
            set: PointerSet::new(),
            corrupted: PointerSet::new(),
            required2: PointerSet::new().with(PointerType::ActiveLoc2),
            set2: PointerSet::new(),
            corrupted2: PointerSet::new(),
            conditional: false,
        },
        CommandRow {
            name: "loc_del",
            required: PointerSet::new().with(PointerType::ActiveLoc),
            set: PointerSet::new(),
            corrupted: PointerSet::new(),
            required2: PointerSet::new().with(PointerType::ActiveLoc2),
            set2: PointerSet::new(),
            corrupted2: PointerSet::new(),
            conditional: false,
        },
        CommandRow {
            name: "loc_find",
            required: PointerSet::new(),
            set: PointerSet::new().with(PointerType::ActiveLoc),
            corrupted: PointerSet::new(),
            required2: PointerSet::new(),
            set2: PointerSet::new().with(PointerType::ActiveLoc2),
            corrupted2: PointerSet::new(),
            conditional: true,
        },
        CommandRow {
            name: "loc_findallzone",
            required: PointerSet::new(),
            set: PointerSet::new().with(PointerType::FindLoc),
            corrupted: PointerSet::new(),
            required2: PointerSet::new(),
            set2: PointerSet::new().with(PointerType::FindLoc),
            corrupted2: PointerSet::new(),
            conditional: false,
        },
        CommandRow {
            name: "loc_findnext",
            required: PointerSet::new().with(PointerType::FindLoc),
            set: PointerSet::new().with(PointerType::ActiveLoc),
            corrupted: PointerSet::new(),
            required2: PointerSet::new().with(PointerType::FindLoc),
            set2: PointerSet::new().with(PointerType::ActiveLoc2),
            corrupted2: PointerSet::new(),
            conditional: true,
        },
    ];
    proof {
        assert(v@.map_values(|r: CommandRow| r@) =~= command_table_part12());
    }
    v
}

fn command_rows_part13() -> (v: Vec<CommandRow>)
    ensures
        v@.map_values(|r: CommandRow| r@) == command_table_part13(),
{
    let v = vec![
        CommandRow {
            name: "loc_name",
            required: PointerSet::new().with(PointerType::ActiveLoc),
            set: PointerSet::new(),
            corrupted: PointerSet::new(),
            required2: PointerSet::new().with(PointerType::ActiveLoc2),
            set2: PointerSet::new(),
            corrupted2: PointerSet::new(),
            conditional: false,
        },
        CommandRow {
            name: "loc_param",
            required: PointerSet::new().with(PointerType::ActiveLoc),
            set: PointerSet::new(),
            corrupted: PointerSet::new(),
            required2: PointerSet::new().with(PointerType::ActiveLoc2),
            set2: PointerSet::new(),
            corrupted2: PointerSet::new(),
            conditional: false,
        },
        CommandRow {
            name: "loc_shape",
            required: PointerSet::new().with(PointerType::ActiveLoc),
            set: PointerSet::new(),
            corrupted: PointerSet::new(),
            required2: PointerSet::new().with(PointerType::ActiveLoc2),
            set2: PointerSet::new(),
            corrupted2: PointerSet::new(),
            conditional: false,
        },
        CommandRow {
            name: "loc_type",
            required: PointerSet::new().with(PointerType::ActiveLoc),
            set: PointerSet::new(),
            corrupted: PointerSet::new(),
            required2: PointerSet::new().with(PointerType::ActiveLoc2),
            set2: PointerSet::new(),
            corrupted2: PointerSet::new(),
            conditional: false,
        },
        CommandRow {
            name: "obj_add",
            required: PointerSet::new().with(PointerType::ActivePlayer),
            set: PointerSet::new().with(PointerType::ActiveObj),
            corrupted: PointerSet::new(),
            required2: PointerSet::new().with(PointerType::ActivePlayer2),
            set2: PointerSet::new().with(PointerType::ActiveObj2),
            corrupted2: PointerSet::new(),
            conditional: false,
        },
        CommandRow {
            name: "obj_addall",
            required: PointerSet::new(),
            set: PointerSet::new().with(PointerType::ActiveObj),
            corrupted: PointerSet::new(),
            required2: PointerSet::new(),
            set2: PointerSet::new().with(PointerType::ActiveObj2),
            corrupted2: PointerSet::new(),
            conditional: false,
        },
        CommandRow {
            name: "obj_coord",
            required: PointerSet::new().with(PointerType::ActiveObj),
            set: PointerSet::new(),
            corrupted: PointerSet::new(),
            required2: PointerSet::new().with(PointerType::ActiveObj2),
            set2: PointerSet::new(),
            corrupted2: PointerSet::new(),
            conditional: false,
        },
        CommandRow {
            name: "obj_count",
            required: PointerSet::new().with(PointerType::ActiveObj),
            set: PointerSet::new(),
            corrupted: PointerSet::new(),
            required2: PointerSet::new().with(PointerType::ActiveObj2),
            set2: PointerSet::new(),
            corrupted2: PointerSet::new(),
            conditional: false,
        },
        CommandRow {
            name: "obj_del",
            required: PointerSet::new().with(PointerType::ActiveObj),
            set: PointerSet::new(),
            corrupted: PointerSet::new(),
            required2: PointerSet::new().with(PointerType::ActiveObj2),
            set2: PointerSet::new(),
            corrupted2: PointerSet::new(),
            conditional: false,
        },
        CommandRow {
            name: "obj_name",
            required: PointerSet::new().with(PointerType::ActiveObj),
            set: PointerSet::new(),
            corrupted: PointerSet::new(),
            required2: PointerSet::new().with(PointerType::ActiveObj2),
            set2: PointerSet::new(),
            corrupted2: PointerSet::new(),
            conditional: false,
        },
        CommandRow {
            name: "obj_param",
            required: PointerSet::new().with(PointerType::ActiveObj),
            set: PointerSet::new(),
            corrupted: PointerSet::new(),
            required2: PointerSet::new().with(PointerType::ActiveObj2),
            set2: PointerSet::new(),
            corrupted2: PointerSet::new(),
            conditional: false,
        },
        CommandRow {
            name: "obj_takeitem",
            required: PointerSet::new().with(PointerType::ActiveObj).with(PointerType::ActivePlayer),
            set: PointerSet::new(),
            corrupted: PointerSet::new(),
            required2: PointerSet::new().with(PointerType::ActiveObj2).with(PointerType::ActivePlayer2),
            set2: PointerSet::new(),
            corrupted2: PointerSet::new(),
            conditional: false,
        },
        CommandRow {
            name: "obj_type",
            required: PointerSet::new().with(PointerType::ActiveObj),
            set: PointerSet::new(),
            corrupted: PointerSet::new(),
            required2: PointerSet::new().with(PointerType::ActiveObj2),
            set2: PointerSet::new(),
            corrupted2: PointerSet::new(),
            conditional: false,
        },
        CommandRow {
            name: "obj_find",
            required: PointerSet::new(),
            set: PointerSet::new().with(PointerType::ActiveObj),
            corrupted: PointerSet::new(),
            required2: PointerSet::new(),
            set2: PointerSet::new().with(PointerType::ActiveObj2),
            corrupted2: PointerSet::new(),
            conditional: false,
        },
        CommandRow {
            name: "obj_findallzone",
            required: PointerSet::new(),
            set: PointerSet::new().with(PointerType::FindObj),
            corrupted: PointerSet::new(),
            required2: PointerSet::new(),
            set2: PointerSet::new().with(PointerType::FindObj),
            corrupted2: PointerSet::new(),
            conditional: false,
        },
        CommandRow {
            name: "obj_findnext",
            required: PointerSet::new().with(PointerType::FindObj),
            set: PointerSet::new().with(PointerType::ActiveObj),
            corrupted: PointerSet::new(),
            required2: PointerSet::new().with(PointerType::FindObj),
            set2: PointerSet::new().with(PointerType::ActiveObj2),
            corrupted2: PointerSet::new(),
            conditional: true,
        },
    ];
    proof {
        assert(v@.map_values(|r: CommandRow| r@) =~= command_table_part13());
    }
    v
}

fn command_rows_part14() -> (v: Vec<CommandRow>)
    ensures
        v@.map_values(|r: CommandRow| r@) == command_table_part14(),
{
    let v = vec![
        CommandRow {
            name: "inv_add",
            required: PointerSet::new().with(PointerType::ActivePlayer),
            set: PointerSet::new(),
            corrupted: PointerSet::new(),
            required2: PointerSet::new().with(PointerType::ActivePlayer2),
            set2: PointerSet::new(),
            corrupted2: PointerSet::new(),
            conditional: false,
        },
        CommandRow {
            name: "inv_changeslot",
            required: PointerSet::new().with(PointerType::ActivePlayer),
            set: PointerSet::new(),
            corrupted: PointerSet::new(),
            required2: PointerSet::new().with(PointerType::ActivePlayer2),
            set2: PointerSet::new(),
            corrupted2: PointerSet::new(),
            conditional: false,
        },
        CommandRow {
            name: "inv_clear",
            required: PointerSet::new().with(PointerType::ActivePlayer),
            set: PointerSet::new(),
            corrupted: PointerSet::new(),
            required2: PointerSet::new().with(PointerType::ActivePlayer2),
            set2: PointerSet::new(),
            corrupted2: PointerSet::new(),
            conditional: false,
        },
        CommandRow {
            name: "inv_del",
            required: PointerSet::new().with(PointerType::ActivePlayer),
            set: PointerSet::new(),
            corrupted: PointerSet::new(),
            required2: PointerSet::new().with(PointerType::ActivePlayer2),
            set2: PointerSet::new(),
            corrupted2: PointerSet::new(),
            conditional: false,
        },
        CommandRow {
            name: "inv_delslot",
            required: PointerSet::new().with(PointerType::ActivePlayer),
            set: PointerSet::new(),
            corrupted: PointerSet::new(),
            required2: PointerSet::new().with(PointerType::ActivePlayer2),
            set2: PointerSet::new(),
            corrupted2: PointerSet::new(),
            conditional: false,
        },
        CommandRow {
            name: "inv_dropitem",
            required: PointerSet::new().with(PointerType::ActivePlayer),
            set: PointerSet::new().with(PointerType::ActiveObj),
            corrupted: PointerSet::new(),
            required2: PointerSet::new().with(PointerType::ActivePlayer2),
            set2: PointerSet::new().with(PointerType::ActiveObj2),
            corrupted2: PointerSet::new(),
            conditional: false,
        },
        CommandRow {
            name: "inv_dropitem_delayed",
            required: PointerSet::new().with(PointerType::ActivePlayer),
            set: PointerSet::new().with(PointerType::ActiveObj),
            corrupted: PointerSet::new(),
            required2: PointerSet::new().with(PointerType::ActivePlayer2),
            set2: PointerSet::new().with(PointerType::ActiveObj2),
            corrupted2: PointerSet::new(),
            conditional: false,
        },
        CommandRow {
            name: "inv_dropslot",
            required: PointerSet::new().with(PointerType::ActivePlayer),
            set: PointerSet::new().with(PointerType::ActiveObj),
            corrupted: PointerSet::new(),
            required2: PointerSet::new().with(PointerType::ActivePlayer2),
            set2: PointerSet::new().with(PointerType::ActiveObj2),
            corrupted2: PointerSet::new(),
            conditional: false,
        },
        CommandRow {
            name: "inv_freespace",
            required: PointerSet::new().with(PointerType::ActivePlayer),
            set: PointerSet::new(),
            corrupted: PointerSet::new(),
            required2: PointerSet::new().with(PointerType::ActivePlayer2),
            set2: PointerSet::new(),
            corrupted2: PointerSet::new(),
            conditional: false,
        },
        CommandRow {
            name: "inv_getnum",
            required: PointerSet::new().with(PointerType::ActivePlayer),
            set: PointerSet::new(),
            corrupted: PointerSet::new(),
            required2: PointerSet::new().with(PointerType::ActivePlayer2),
            set2: PointerSet::new(),
            corrupted2: PointerSet::new(),
            conditional: false,
        },
        CommandRow {
            name: "inv_getobj",
            required: PointerSet::new().with(PointerType::ActivePlayer),
            set: PointerSet::new(),
            corrupted: PointerSet::new(),
            required2: PointerSet::new().with(PointerType::ActivePlayer2),
            set2: PointerSet::new(),
            corrupted2: PointerSet::new(),
            conditional: false,
        },
        CommandRow {
            name: "inv_itemspace",
            required: PointerSet::new().with(PointerType::ActivePlayer),
            set: PointerSet::new(),
            corrupted: PointerSet::new(),
            required2: PointerSet::new().with(PointerType::ActivePlayer2),
            set2: PointerSet::new(),
            corrupted2: PointerSet::new(),
            conditional: false,
        },
        CommandRow {
            name: "inv_itemspace2",
            required: PointerSet::new().with(PointerType::ActivePlayer),
            set: PointerSet::new(),
            corrupted: PointerSet::new(),
            required2: PointerSet::new().with(PointerType::ActivePlayer2),
            set2: PointerSet::new(),
            corrupted2: PointerSet::new(),
            conditional: false,
        },
        CommandRow {
            name: "inv_movefromslot",
            required: PointerSet::new().with(PointerType::ActivePlayer),
            set: PointerSet::new(),
            corrupted: PointerSet::new(),
            required2: PointerSet::new().with(PointerType::ActivePlayer2),
            set2: PointerSet::new(),
            corrupted2: PointerSet::new(),
            conditional: false,
        },
        CommandRow {
            name: "inv_movetoslot",
            required: PointerSet::new().with(PointerType::ActivePlayer),
            set: PointerSet::new(),
            corrupted: PointerSet::new(),
            required2: PointerSet::new().with(PointerType::ActivePlayer2),
            set2: PointerSet::new(),
            corrupted2: PointerSet::new(),
            conditional: false,
        },
        CommandRow {
            name: "both_moveinv",
            required: PointerSet::new().with(PointerType::ActivePlayer).with(PointerType::ActivePlayer2),
            set: PointerSet::new(),
            corrupted: PointerSet::new(),
            required2: PointerSet::new().with(PointerType::ActivePlayer2).with(PointerType::ActivePlayer),
            set2: PointerSet::new(),
            corrupted2: PointerSet::new(),
            conditional: false,
        },
    ];
    proof {
        assert(v@.map_values(|r: CommandRow| r@) =~= command_table_part14());
    }
    v
}

fn command_rows_part15() -> (v: Vec<CommandRow>)
    ensures
        v@.map_values(|r: CommandRow| r@) == command_table_part15(),
{
    let v = vec![
        CommandRow {
            name: "inv_moveitem",
            required: PointerSet::new().with(PointerType::ActivePlayer),
            set: PointerSet::new(),
            corrupted: PointerSet::new(),
            required2: PointerSet::new().with(PointerType::ActivePlayer2),
            set2: PointerSet::new(),
            corrupted2: PointerSet::new(),
            conditional: false,
        },
        CommandRow {
            name: "inv_moveitem_cert",
            required: PointerSet::new().with(PointerType::ActivePlayer),
            set: PointerSet::new(),
            corrupted: PointerSet::new(),
            required2: PointerSet::new().with(PointerType::ActivePlayer2),
            set2: PointerSet::new(),
            corrupted2: PointerSet::new(),
            conditional: false,
        },
        CommandRow {
            name: "inv_moveitem_uncert",
            required: PointerSet::new().with(PointerType::ActivePlayer),
            set: PointerSet::new(),
            corrupted: PointerSet::new(),
            required2: PointerSet::new().with(PointerType::ActivePlayer2),
            set2: PointerSet::new(),
            corrupted2: PointerSet::new(),
            conditional: false,
        },
        CommandRow {
            name: "inv_setslot",
            required: PointerSet::new().with(PointerType::ActivePlayer),
            set: PointerSet::new(),
            corrupted: PointerSet::new(),
            required2: PointerSet::new().with(PointerType::ActivePlayer2),
            set2: PointerSet::new(),
            corrupted2: PointerSet::new(),
            conditional: false,
        },
        CommandRow {
            name: "inv_total",
            required: PointerSet::new().with(PointerType::ActivePlayer),
            set: PointerSet::new(),
            corrupted: PointerSet::new(),
            required2: PointerSet::new().with(PointerType::ActivePlayer2),
            set2: PointerSet::new(),
            corrupted2: PointerSet::new(),
            conditional: false,
        },
        CommandRow {
            name: "inv_totalcat",
            required: PointerSet::new().with(PointerType::ActivePlayer),
            set: PointerSet::new(),
            corrupted: PointerSet::new(),
            required2: PointerSet::new().with(PointerType::ActivePlayer2),
            set2: PointerSet::new(),
            corrupted2: PointerSet::new(),
            conditional: false,
        },
        CommandRow {
            name: "inv_transmit",
            required: PointerSet::new().with(PointerType::ActivePlayer),
            set: PointerSet::new(),
            corrupted: PointerSet::new(),
            required2: PointerSet::new().with(PointerType::ActivePlayer2),
            set2: PointerSet::new(),
            corrupted2: PointerSet::new(),
            conditional: false,
        },
        CommandRow {
            name: "invother_transmit",
            required: PointerSet::new().with(PointerType::ActivePlayer).with(PointerType::ActivePlayer2),
            set: PointerSet::new(),
            corrupted: PointerSet::new(),
            required2: PointerSet::new().with(PointerType::ActivePlayer2).with(PointerType::ActivePlayer),
            set2: PointerSet::new(),
            corrupted2: PointerSet::new(),
            conditional: false,
        },
        CommandRow {
            name: "inv_stoptransmit",
            required: PointerSet::new().with(PointerType::ActivePlayer),
            set: PointerSet::new(),
            corrupted: PointerSet::new(),
            required2: PointerSet::new().with(PointerType::ActivePlayer2),
            set2: PointerSet::new(),
            corrupted2: PointerSet::new(),
            conditional: false,
        },
        CommandRow {
            name: "both_dropslot",
            required: PointerSet::new().with(PointerType::ActivePlayer).with(PointerType::ActivePlayer2),
            set: PointerSet::new(),
            corrupted: PointerSet::new(),
            required2: PointerSet::new().with(PointerType::ActivePlayer2).with(PointerType::ActivePlayer),
            set2: PointerSet::new(),
            corrupted2: PointerSet::new(),
            conditional: false,
        },
        CommandRow {
            name: "inv_dropall",
            required: PointerSet::new().with(PointerType::ActivePlayer),
            set: PointerSet::new(),
            corrupted: PointerSet::new(),
            required2: PointerSet::new().with(PointerType::ActivePlayer2),
            set2: PointerSet::new(),
            corrupted2: PointerSet::new(),
            conditional: false,
        },
        CommandRow {
            name: "inv_totalparam",
            required: PointerSet::new().with(PointerType::ActivePlayer),
            set: PointerSet::new(),
            corrupted: PointerSet::new(),
            required2: PointerSet::new().with(PointerType::ActivePlayer2),
            set2: PointerSet::new(),
            corrupted2: PointerSet::new(),
            conditional: false,
        },
        CommandRow {
            name: "inv_totalparam_stack",
            required: PointerSet::new().with(PointerType::ActivePlayer),
            set: PointerSet::new(),
            corrupted: PointerSet::new(),
            required2: PointerSet::new().with(PointerType::ActivePlayer2),
            set2: PointerSet::new(),
            corrupted2: PointerSet::new(),
            conditional: false,
        },
        CommandRow {
            name: "text_gender",
            required: PointerSet::new().with(PointerType::ActivePlayer),
            set: PointerSet::new(),
            corrupted: PointerSet::new(),
            required2: PointerSet::new().with(PointerType::ActivePlayer2),
            set2: PointerSet::new(),
            corrupted2: PointerSet::new(),
            conditional: false,
        },
        CommandRow {
            name: "db_findnext",
            required: PointerSet::new().with(PointerType::FindDb),
            set: PointerSet::new(),
            corrupted: PointerSet::new(),
            required2: PointerSet::new(),
            set2: PointerSet::new(),
            corrupted2: PointerSet::new(),
            conditional: false,
        },
        CommandRow {
            name: "db_find",
            required: PointerSet::new(),
            set: PointerSet::new().with(PointerType::FindDb),
            corrupted: PointerSet::new(),
            required2: PointerSet::new(),
            set2: PointerSet::new(),
            corrupted2: PointerSet::new(),
            conditional: false,
        },
    ];
    proof {
        assert(v@.map_values(|r: CommandRow| r@) =~= command_table_part15());
    }
    v
}

fn command_rows_part16() -> (v: Vec<CommandRow>)
    ensures
        v@.map_values(|r: CommandRow| r@) == command_table_part16(),
{
    let v = vec![
        CommandRow {
            name: "db_find_refine",
            required: PointerSet::new().with(PointerType::FindDb),
            set: PointerSet::new(),
            corrupted: PointerSet::new(),
            required2: PointerSet::new(),
            set2: PointerSet::new(),
            corrupted2: PointerSet::new(),
            conditional: false,
        },
        CommandRow {
            name: "db_listall",
            required: PointerSet::new(),
            set: PointerSet::new().with(PointerType::FindDb),
            corrupted: PointerSet::new(),
            required2: PointerSet::new(),
            set2: PointerSet::new(),
            corrupted2: PointerSet::new(),
            conditional: false,
        },
        CommandRow {
            name: "db_listall_with_count",
            required: PointerSet::new(),
            set: PointerSet::new().with(PointerType::FindDb),
            corrupted: PointerSet::new(),
            required2: PointerSet::new(),
            set2: PointerSet::new(),
            corrupted2: PointerSet::new(),
            conditional: false,
        },
    ];
    proof {
        assert(v@.map_values(|r: CommandRow| r@) =~= command_table_part16());
    }
    v
}

/// Part `k` (from 0) of the command table.
pub open spec fn table_part(k: int) -> Seq<CommandRowView> {
    if k == 0 {
        command_table_part1()
    } else if k == 1 {
        command_table_part2()
    } else if k == 2 {
        command_table_part3()
    } else if k == 3 {
        command_table_part4()
    } else if k == 4 {
        command_table_part5()
    } else if k == 5 {
        command_table_part6()
    } else if k == 6 {
        command_table_part7()
    } else if k == 7 {
        command_table_part8()
    } else if k == 8 {
        command_table_part9()
    } else if k == 9 {
        command_table_part10()
    } else if k == 10 {
        command_table_part11()
    } else if k == 11 {
        command_table_part12()
    } else if k == 12 {
        command_table_part13()
    } else if k == 13 {
        command_table_part14()
    } else if k == 14 {
        command_table_part15()
    } else {
        command_table_part16()
    }
}

/// The first `k` parts of the command table, joined in order.
pub open spec fn table_prefix(k: nat) -> Seq<CommandRowView>
    decreases k,
{
    if k == 0 {
        Seq::empty()
    } else if k == 1 {
        table_part(0)
    } else {
        table_prefix((k - 1) as nat) + table_part(k - 1)
    }
}

/// The rows of part `k` (from 0) of the command table.
fn command_rows_part(k: usize) -> (v: Vec<CommandRow>)
    requires
        k < 16,
    ensures
        v@.map_values(|r: CommandRow| r@) == table_part(k as int),
{
    match k {
        0 => command_rows_part1(),
        1 => command_rows_part2(),
        2 => command_rows_part3(),
        3 => command_rows_part4(),
        4 => command_rows_part5(),
        5 => command_rows_part6(),
        6 => command_rows_part7(),
        7 => command_rows_part8(),
        8 => command_rows_part9(),
        9 => command_rows_part10(),
        10 => command_rows_part11(),
        11 => command_rows_part12(),
        12 => command_rows_part13(),
        13 => command_rows_part14(),
        14 => command_rows_part15(),
        _ => command_rows_part16(),
    }
}

/// The pointer requirements of every engine command, keyed by the
/// lowercased command name, with a `.`-prefixed entry for the secondary
/// form of each command that has one.
pub fn command_pointers() -> (m: StrMap<PointerHolder>)
    ensures
        holder_views(m@) == command_pointer_map(),
{
    let mut m: StrMap<PointerHolder> = StrMap::new();
    proof {
        assert(holder_views(m@) =~= Map::<Seq<char>, HolderView>::empty());
    }
    let mut k: usize = 0;
    while k < 16
        invariant
            k <= 16,
            holder_views(m@) == apply_rows(Map::empty(), table_prefix(k as nat)),
        decreases 16 - k,
    {
        let rows = command_rows_part(k);
        add_rows(&mut m, &rows);
        proof {
            lemma_apply_rows_concat(Map::empty(), table_prefix(k as nat), table_part(k as int));
            if k == 0 {
                assert(table_prefix(0) + table_part(0) =~= table_part(0));
            }
        }
        k += 1;
    }
    proof {
        reveal_with_fuel(table_prefix, 17);
        assert(table_prefix(16) == command_table());
    }
    m
}

} // verus!
