//! Trigger metadata: for every trigger keyword, its byte discriminant for
//! lookup-key dispatch, the entity type its subject names, whether its
//! subject must resolve, and whether it is a button trigger.
use vstd::prelude::*;
use crate::strings::{str_eq, str_in_list};
use crate::types::Type;

verus! {

/// Metadata of one byte-keyed trigger.
#[derive(Debug, Clone, Copy)]
pub struct TriggerInfo {
    pub name: &'static str,
    pub byte: u8,
    /// The entity type a subject is looked up as; `None` falls back to the
    /// untyped entity lookup.
    pub subject_type: Option<Type>,
    /// Whether a named (non-`_`, non-category, non-coord) subject must resolve.
    pub validates_subject: bool,
    /// Whether this is an interface or inventory button trigger.
    pub is_button: bool,
}

/// The mathematical form of a [`TriggerInfo`].
pub struct TriggerView {
    pub name: Seq<char>,
    pub byte: u8,
    pub subject_type: Option<Type>,
    pub validates_subject: bool,
    pub is_button: bool,
}

impl View for TriggerInfo {
    type V = TriggerView;

    open spec fn view(&self) -> TriggerView {
        TriggerView {
            name: self.name@,
            byte: self.byte,
            subject_type: self.subject_type,
            validates_subject: self.validates_subject,
            is_button: self.is_button,
        }
    }
}

pub open spec fn info(
    name: Seq<char>,
    byte: u8,
    subject_type: Option<Type>,
    validates_subject: bool,
    is_button: bool,
) -> TriggerView {
    TriggerView { name, byte, subject_type, validates_subject, is_button }
}

/// The table of byte-keyed triggers, in table order.
pub open spec fn trigger_table() -> Seq<TriggerView> {
    seq![
        info("apnpc1"@, 3u8, Some(Type::Npc), true, false),
        info("apnpc2"@, 4u8, Some(Type::Npc), true, false),
        info("apnpc3"@, 5u8, Some(Type::Npc), true, false),
        info("apnpc4"@, 6u8, Some(Type::Npc), true, false),
        info("apnpc5"@, 7u8, Some(Type::Npc), true, false),
        info("apnpcu"@, 8u8, Some(Type::Npc), true, false),
        info("apnpct"@, 9u8, Some(Type::Npc), true, false),
        info("opnpc1"@, 10u8, Some(Type::Npc), true, false),
        info("opnpc2"@, 11u8, Some(Type::Npc), true, false),
        info("opnpc3"@, 12u8, Some(Type::Npc), true, false),
        info("opnpc4"@, 13u8, Some(Type::Npc), true, false),
        info("opnpc5"@, 14u8, Some(Type::Npc), true, false),
        info("opnpcu"@, 15u8, Some(Type::Npc), true, false),
        info("opnpct"@, 16u8, Some(Type::Npc), true, false),
        info("ai_apnpc1"@, 17u8, Some(Type::Npc), true, false),
        info("ai_apnpc2"@, 18u8, Some(Type::Npc), true, false),
        info("ai_apnpc3"@, 19u8, Some(Type::Npc), true, false),
        info("ai_apnpc4"@, 20u8, Some(Type::Npc), true, false),
        info("ai_apnpc5"@, 21u8, Some(Type::Npc), true, false),
        info("ai_opnpc1"@, 24u8, Some(Type::Npc), true, false),
        info("ai_opnpc2"@, 25u8, Some(Type::Npc), true, false),
        info("ai_opnpc3"@, 26u8, Some(Type::Npc), true, false),
        info("ai_opnpc4"@, 27u8, Some(Type::Npc), true, false),
        info("ai_opnpc5"@, 28u8, Some(Type::Npc), true, false),
        info("apobj1"@, 31u8, Some(Type::Obj), true, false),
        info("apobj2"@, 32u8, Some(Type::Obj), true, false),
        info("apobj3"@, 33u8, Some(Type::Obj), true, false),
        info("apobj4"@, 34u8, Some(Type::Obj), true, false),
        info("apobj5"@, 35u8, Some(Type::Obj), true, false),
        info("apobju"@, 36u8, Some(Type::Obj), true, false),
        info("apobjt"@, 37u8, Some(Type::Obj), true, false),
        info("opobj1"@, 38u8, Some(Type::Obj), true, false),
        info("opobj2"@, 39u8, Some(Type::Obj), true, false),
        info("opobj3"@, 40u8, Some(Type::Obj), true, false),
        info("opobj4"@, 41u8, Some(Type::Obj), true, false),
        info("opobj5"@, 42u8, Some(Type::Obj), true, false),
        info("opobju"@, 43u8, Some(Type::Obj), true, false),
        info("opobjt"@, 44u8, Some(Type::Obj), true, false),
        info("ai_apobj1"@, 45u8, Some(Type::Obj), true, false),
        info("ai_apobj2"@, 46u8, Some(Type::Obj), true, false),
        info("ai_apobj3"@, 47u8, Some(Type::Obj), true, false),
        info("ai_apobj4"@, 48u8, Some(Type::Obj), true, false),
        info("ai_apobj5"@, 49u8, Some(Type::Obj), true, false),
        info("ai_opobj1"@, 52u8, Some(Type::Obj), true, false),
        info("ai_opobj2"@, 53u8, Some(Type::Obj), true, false),
        info("ai_opobj3"@, 54u8, Some(Type::Obj), true, false),
        info("ai_opobj4"@, 55u8, Some(Type::Obj), true, false),
        info("ai_opobj5"@, 56u8, Some(Type::Obj), true, false),
        info("aploc1"@, 59u8, Some(Type::Loc), true, false),
        info("aploc2"@, 60u8, Some(Type::Loc), true, false),
        info("aploc3"@, 61u8, Some(Type::Loc), true, false),
        info("aploc4"@, 62u8, Some(Type::Loc), true, false),
        info("aploc5"@, 63u8, Some(Type::Loc), true, false),
        info("aplocu"@, 64u8, Some(Type::Loc), true, false),
        info("aploct"@, 65u8, Some(Type::Loc), true, false),
        info("oploc1"@, 66u8, Some(Type::Loc), true, false),
        info("oploc2"@, 67u8, Some(Type::Loc), true, false),
        info("oploc3"@, 68u8, Some(Type::Loc), true, false),
        info("oploc4"@, 69u8, Some(Type::Loc), true, false),
        info("oploc5"@, 70u8, Some(Type::Loc), true, false),
        info("oplocu"@, 71u8, Some(Type::Loc), true, false),
        info("oploct"@, 72u8, Some(Type::Loc), true, false),
        info("ai_aploc1"@, 73u8, Some(Type::Loc), true, false),
        info("ai_aploc2"@, 74u8, Some(Type::Loc), true, false),
        info("ai_aploc3"@, 75u8, Some(Type::Loc), true, false),
        info("ai_aploc4"@, 76u8, Some(Type::Loc), true, false),
        info("ai_aploc5"@, 77u8, Some(Type::Loc), true, false),
        info("ai_oploc1"@, 80u8, Some(Type::Loc), true, false),
        info("ai_oploc2"@, 81u8, Some(Type::Loc), true, false),
        info("ai_oploc3"@, 82u8, Some(Type::Loc), true, false),
        info("ai_oploc4"@, 83u8, Some(Type::Loc), true, false),
        info("ai_oploc5"@, 84u8, Some(Type::Loc), true, false),
        info("applayer1"@, 87u8, None, true, false),
        info("applayer2"@, 88u8, None, true, false),
        info("applayer3"@, 89u8, None, true, false),
        info("applayer4"@, 90u8, None, true, false),
        info("applayer5"@, 91u8, None, true, false),
        info("applayeru"@, 92u8, None, true, false),
        info("applayert"@, 93u8, None, true, false),
        info("opplayer1"@, 94u8, None, true, false),
        info("opplayer2"@, 95u8, None, true, false),
        info("opplayer3"@, 96u8, None, true, false),
        info("opplayer4"@, 97u8, None, true, false),
        info("opplayer5"@, 98u8, None, true, false),
        info("opplayeru"@, 99u8, None, true, false),
        info("opplayert"@, 100u8, None, true, false),
        info("ai_applayer1"@, 101u8, None, true, false),
        info("ai_applayer2"@, 102u8, None, true, false),
        info("ai_applayer3"@, 103u8, None, true, false),
        info("ai_applayer4"@, 104u8, None, true, false),
        info("ai_applayer5"@, 105u8, None, true, false),
        info("ai_opplayer1"@, 108u8, None, true, false),
        info("ai_opplayer2"@, 109u8, None, true, false),
        info("ai_opplayer3"@, 110u8, None, true, false),
        info("ai_opplayer4"@, 111u8, None, true, false),
        info("ai_opplayer5"@, 112u8, None, true, false),
        info("ai_queue1"@, 117u8, Some(Type::Npc), false, false),
        info("ai_queue2"@, 118u8, Some(Type::Npc), false, false),
        info("ai_queue3"@, 119u8, Some(Type::Npc), false, false),
        info("ai_queue4"@, 120u8, Some(Type::Npc), false, false),
        info("ai_queue5"@, 121u8, Some(Type::Npc), false, false),
        info("ai_queue6"@, 122u8, Some(Type::Npc), false, false),
        info("ai_queue7"@, 123u8, Some(Type::Npc), false, false),
        info("ai_queue8"@, 124u8, Some(Type::Npc), false, false),
        info("ai_queue9"@, 125u8, Some(Type::Npc), false, false),
        info("ai_queue10"@, 126u8, Some(Type::Npc), false, false),
        info("ai_queue11"@, 127u8, Some(Type::Npc), false, false),
        info("ai_queue12"@, 128u8, Some(Type::Npc), false, false),
        info("ai_queue13"@, 129u8, Some(Type::Npc), false, false),
        info("ai_queue14"@, 130u8, Some(Type::Npc), false, false),
        info("ai_queue15"@, 131u8, Some(Type::Npc), false, false),
        info("ai_queue16"@, 132u8, Some(Type::Npc), false, false),
        info("ai_queue17"@, 133u8, Some(Type::Npc), false, false),
        info("ai_queue18"@, 134u8, Some(Type::Npc), false, false),
        info("ai_queue19"@, 135u8, Some(Type::Npc), false, false),
        info("ai_queue20"@, 136u8, Some(Type::Npc), false, false),
        info("ai_timer"@, 139u8, None, false, false),
        info("opheld1"@, 140u8, Some(Type::Obj), true, false),
        info("opheld2"@, 141u8, Some(Type::Obj), true, false),
        info("opheld3"@, 142u8, Some(Type::Obj), true, false),
        info("opheld4"@, 143u8, Some(Type::Obj), true, false),
        info("opheld5"@, 144u8, Some(Type::Obj), true, false),
        info("opheldu"@, 145u8, Some(Type::Obj), true, false),
        info("opheldt"@, 146u8, Some(Type::Obj), true, false),
        info("if_button"@, 147u8, Some(Type::Interface), true, true),
        info("if_close"@, 148u8, Some(Type::Interface), true, false),
        info("if_button1"@, 149u8, Some(Type::Interface), true, true),
        info("if_button2"@, 150u8, Some(Type::Interface), true, true),
        info("if_button3"@, 151u8, Some(Type::Interface), true, true),
        info("if_button4"@, 152u8, Some(Type::Interface), true, true),
        info("if_button5"@, 153u8, Some(Type::Interface), true, true),
        info("if_buttond"@, 154u8, Some(Type::Interface), true, true),
        info("inv_button1"@, 149u8, Some(Type::Component), true, true),
        info("inv_button2"@, 150u8, Some(Type::Component), true, true),
        info("inv_button3"@, 151u8, Some(Type::Component), true, true),
        info("inv_button4"@, 152u8, Some(Type::Component), true, true),
        info("inv_button5"@, 153u8, Some(Type::Component), true, true),
        info("inv_buttond"@, 154u8, Some(Type::Component), true, true),
        info("login"@, 157u8, None, false, false),
        info("logout"@, 158u8, None, false, false),
        info("tutorial"@, 159u8, None, true, false),
        info("advancestat"@, 160u8, None, true, false),
        info("mapzone"@, 161u8, None, false, false),
        info("mapzoneexit"@, 162u8, None, false, false),
        info("zone"@, 163u8, None, false, false),
        info("zoneexit"@, 164u8, None, false, false),
        info("changestat"@, 165u8, None, true, false),
        info("ai_spawn"@, 166u8, None, true, false),
        info("ai_despawn"@, 167u8, None, true, false),
    ]
}

fn make(
    name: &'static str,
    byte: u8,
    subject_type: Option<Type>,
    validates_subject: bool,
    is_button: bool,
) -> (t: TriggerInfo)
    ensures
        t@ == info(name@, byte, subject_type, validates_subject, is_button),
{
    TriggerInfo { name, byte, subject_type, validates_subject, is_button }
}

/// Every byte-keyed trigger, in table order.
pub fn trigger_infos() -> (v: Vec<TriggerInfo>)
    ensures
        v@.map_values(|t: TriggerInfo| t@) == trigger_table(),
{
    let v = vec![
        make("apnpc1", 3, Some(Type::Npc), true, false),
        make("apnpc2", 4, Some(Type::Npc), true, false),
        make("apnpc3", 5, Some(Type::Npc), true, false),
        make("apnpc4", 6, Some(Type::Npc), true, false),
        make("apnpc5", 7, Some(Type::Npc), true, false),
        make("apnpcu", 8, Some(Type::Npc), true, false),
        make("apnpct", 9, Some(Type::Npc), true, false),
        make("opnpc1", 10, Some(Type::Npc), true, false),
        make("opnpc2", 11, Some(Type::Npc), true, false),
        make("opnpc3", 12, Some(Type::Npc), true, false),
        make("opnpc4", 13, Some(Type::Npc), true, false),
        make("opnpc5", 14, Some(Type::Npc), true, false),
        make("opnpcu", 15, Some(Type::Npc), true, false),
        make("opnpct", 16, Some(Type::Npc), true, false),
        make("ai_apnpc1", 17, Some(Type::Npc), true, false),
        make("ai_apnpc2", 18, Some(Type::Npc), true, false),
        make("ai_apnpc3", 19, Some(Type::Npc), true, false),
        make("ai_apnpc4", 20, Some(Type::Npc), true, false),
        make("ai_apnpc5", 21, Some(Type::Npc), true, false),
        make("ai_opnpc1", 24, Some(Type::Npc), true, false),
        make("ai_opnpc2", 25, Some(Type::Npc), true, false),
        make("ai_opnpc3", 26, Some(Type::Npc), true, false),
        make("ai_opnpc4", 27, Some(Type::Npc), true, false),
        make("ai_opnpc5", 28, Some(Type::Npc), true, false),
        make("apobj1", 31, Some(Type::Obj), true, false),
        make("apobj2", 32, Some(Type::Obj), true, false),
        make("apobj3", 33, Some(Type::Obj), true, false),
        make("apobj4", 34, Some(Type::Obj), true, false),
        make("apobj5", 35, Some(Type::Obj), true, false),
        make("apobju", 36, Some(Type::Obj), true, false),
        make("apobjt", 37, Some(Type::Obj), true, false),
        make("opobj1", 38, Some(Type::Obj), true, false),
        make("opobj2", 39, Some(Type::Obj), true, false),
        make("opobj3", 40, Some(Type::Obj), true, false),
        make("opobj4", 41, Some(Type::Obj), true, false),
        make("opobj5", 42, Some(Type::Obj), true, false),
        make("opobju", 43, Some(Type::Obj), true, false),
        make("opobjt", 44, Some(Type::Obj), true, false),
        make("ai_apobj1", 45, Some(Type::Obj), true, false),
        make("ai_apobj2", 46, Some(Type::Obj), true, false),
        make("ai_apobj3", 47, Some(Type::Obj), true, false),
        make("ai_apobj4", 48, Some(Type::Obj), true, false),
        make("ai_apobj5", 49, Some(Type::Obj), true, false),
        make("ai_opobj1", 52, Some(Type::Obj), true, false),
        make("ai_opobj2", 53, Some(Type::Obj), true, false),
        make("ai_opobj3", 54, Some(Type::Obj), true, false),
        make("ai_opobj4", 55, Some(Type::Obj), true, false),
        make("ai_opobj5", 56, Some(Type::Obj), true, false),
        make("aploc1", 59, Some(Type::Loc), true, false),
        make("aploc2", 60, Some(Type::Loc), true, false),
        make("aploc3", 61, Some(Type::Loc), true, false),
        make("aploc4", 62, Some(Type::Loc), true, false),
        make("aploc5", 63, Some(Type::Loc), true, false),
        make("aplocu", 64, Some(Type::Loc), true, false),
        make("aploct", 65, Some(Type::Loc), true, false),
        make("oploc1", 66, Some(Type::Loc), true, false),
        make("oploc2", 67, Some(Type::Loc), true, false),
        make("oploc3", 68, Some(Type::Loc), true, false),
        make("oploc4", 69, Some(Type::Loc), true, false),
        make("oploc5", 70, Some(Type::Loc), true, false),
        make("oplocu", 71, Some(Type::Loc), true, false),
        make("oploct", 72, Some(Type::Loc), true, false),
        make("ai_aploc1", 73, Some(Type::Loc), true, false),
        make("ai_aploc2", 74, Some(Type::Loc), true, false),
        make("ai_aploc3", 75, Some(Type::Loc), true, false),
        make("ai_aploc4", 76, Some(Type::Loc), true, false),
        make("ai_aploc5", 77, Some(Type::Loc), true, false),
        make("ai_oploc1", 80, Some(Type::Loc), true, false),
        make("ai_oploc2", 81, Some(Type::Loc), true, false),
        make("ai_oploc3", 82, Some(Type::Loc), true, false),
        make("ai_oploc4", 83, Some(Type::Loc), true, false),
        make("ai_oploc5", 84, Some(Type::Loc), true, false),
        make("applayer1", 87, None, true, false),
        make("applayer2", 88, None, true, false),
        make("applayer3", 89, None, true, false),
        make("applayer4", 90, None, true, false),
        make("applayer5", 91, None, true, false),
        make("applayeru", 92, None, true, false),
        make("applayert", 93, None, true, false),
        make("opplayer1", 94, None, true, false),
        make("opplayer2", 95, None, true, false),
        make("opplayer3", 96, None, true, false),
        make("opplayer4", 97, None, true, false),
        make("opplayer5", 98, None, true, false),
        make("opplayeru", 99, None, true, false),
        make("opplayert", 100, None, true, false),
        make("ai_applayer1", 101, None, true, false),
        make("ai_applayer2", 102, None, true, false),
        make("ai_applayer3", 103, None, true, false),
        make("ai_applayer4", 104, None, true, false),
        make("ai_applayer5", 105, None, true, false),
        make("ai_opplayer1", 108, None, true, false),
        make("ai_opplayer2", 109, None, true, false),
        make("ai_opplayer3", 110, None, true, false),
        make("ai_opplayer4", 111, None, true, false),
        make("ai_opplayer5", 112, None, true, false),
        make("ai_queue1", 117, Some(Type::Npc), false, false),
        make("ai_queue2", 118, Some(Type::Npc), false, false),
        make("ai_queue3", 119, Some(Type::Npc), false, false),
        make("ai_queue4", 120, Some(Type::Npc), false, false),
        make("ai_queue5", 121, Some(Type::Npc), false, false),
        make("ai_queue6", 122, Some(Type::Npc), false, false),
        make("ai_queue7", 123, Some(Type::Npc), false, false),
        make("ai_queue8", 124, Some(Type::Npc), false, false),
        make("ai_queue9", 125, Some(Type::Npc), false, false),
        make("ai_queue10", 126, Some(Type::Npc), false, false),
        make("ai_queue11", 127, Some(Type::Npc), false, false),
        make("ai_queue12", 128, Some(Type::Npc), false, false),
        make("ai_queue13", 129, Some(Type::Npc), false, false),
        make("ai_queue14", 130, Some(Type::Npc), false, false),
        make("ai_queue15", 131, Some(Type::Npc), false, false),
        make("ai_queue16", 132, Some(Type::Npc), false, false),
        make("ai_queue17", 133, Some(Type::Npc), false, false),
        make("ai_queue18", 134, Some(Type::Npc), false, false),
        make("ai_queue19", 135, Some(Type::Npc), false, false),
        make("ai_queue20", 136, Some(Type::Npc), false, false),
        make("ai_timer", 139, None, false, false),
        make("opheld1", 140, Some(Type::Obj), true, false),
        make("opheld2", 141, Some(Type::Obj), true, false),
        make("opheld3", 142, Some(Type::Obj), true, false),
        make("opheld4", 143, Some(Type::Obj), true, false),
        make("opheld5", 144, Some(Type::Obj), true, false),
        make("opheldu", 145, Some(Type::Obj), true, false),
        make("opheldt", 146, Some(Type::Obj), true, false),
        make("if_button", 147, Some(Type::Interface), true, true),
        make("if_close", 148, Some(Type::Interface), true, false),
        make("if_button1", 149, Some(Type::Interface), true, true),
        make("if_button2", 150, Some(Type::Interface), true, true),
        make("if_button3", 151, Some(Type::Interface), true, true),
        make("if_button4", 152, Some(Type::Interface), true, true),
        make("if_button5", 153, Some(Type::Interface), true, true),
        make("if_buttond", 154, Some(Type::Interface), true, true),
        make("inv_button1", 149, Some(Type::Component), true, true),
        make("inv_button2", 150, Some(Type::Component), true, true),
        make("inv_button3", 151, Some(Type::Component), true, true),
        make("inv_button4", 152, Some(Type::Component), true, true),
        make("inv_button5", 153, Some(Type::Component), true, true),
        make("inv_buttond", 154, Some(Type::Component), true, true),
        make("login", 157, None, false, false),
        make("logout", 158, None, false, false),
        make("tutorial", 159, None, true, false),
        make("advancestat", 160, None, true, false),
        make("mapzone", 161, None, false, false),
        make("mapzoneexit", 162, None, false, false),
        make("zone", 163, None, false, false),
        make("zoneexit", 164, None, false, false),
        make("changestat", 165, None, true, false),
        make("ai_spawn", 166, None, true, false),
        make("ai_despawn", 167, None, true, false),
    ];
    assert(v@.map_values(|t: TriggerInfo| t@) =~= trigger_table());
    v
}

/// The button triggers: the interface buttons `if_button`, `if_button1` to
/// `if_button5` and `if_buttond`, and the inventory buttons `inv_button1` to
/// `inv_button5` and `inv_buttond`.
pub open spec fn button_trigger_names() -> Seq<Seq<char>> {
    seq![
        "if_button"@,
        "if_button1"@,
        "if_button2"@,
        "if_button3"@,
        "if_button4"@,
        "if_button5"@,
        "if_buttond"@,
        "inv_button1"@,
        "inv_button2"@,
        "inv_button3"@,
        "inv_button4"@,
        "inv_button5"@,
        "inv_buttond"@,
    ]
}

/// Every entry of the trigger table marked as a button trigger is one of
/// the button triggers and has an interface or component subject, and every
/// button trigger has an entry marked as one.
pub proof fn lemma_button_entries()
    ensures
        forall|i: int|
            0 <= i < trigger_table().len() && (#[trigger] trigger_table()[i]).is_button ==> {
                &&& button_trigger_names().contains(trigger_table()[i].name)
                &&& (trigger_table()[i].subject_type == Some(Type::Interface) || trigger_table()[i].subject_type
                    == Some(Type::Component))
            },
        forall|j: int|
            0 <= j < button_trigger_names().len() ==> exists|i: int|
                0 <= i < trigger_table().len() && (#[trigger] trigger_table()[i]).name == (
                #[trigger] button_trigger_names()[j]) && trigger_table()[i].is_button,
{
    let t = trigger_table();
    let b = button_trigger_names();
    assert(t.len() == 149);
    assert forall|i: int| 0 <= i < t.len() && (#[trigger] t[i]).is_button implies {
        &&& b.contains(t[i].name)
        &&& (t[i].subject_type == Some(Type::Interface) || t[i].subject_type == Some(Type::Component))
    } by {
        assert(i == 0 || i == 1 || i == 2 || i == 3 || i == 4 || i == 5 || i == 6 || i == 7 || i == 8 || i == 9 || i == 10 || i == 11 || i == 12 || i == 13 || i == 14 || i == 15 || i == 16 || i == 17 || i == 18 || i == 19 || i == 20 || i == 21 || i == 22 || i == 23 || i == 24 || i == 25 || i == 26 || i == 27 || i == 28 || i == 29 || i == 30 || i == 31 || i == 32 || i == 33 || i == 34 || i == 35 || i == 36 || i == 37 || i == 38 || i == 39 || i == 40 || i == 41 || i == 42 || i == 43 || i == 44 || i == 45 || i == 46 || i == 47 || i == 48 || i == 49 || i == 50 || i == 51 || i == 52 || i == 53 || i == 54 || i == 55 || i == 56 || i == 57 || i == 58 || i == 59 || i == 60 || i == 61 || i == 62 || i == 63 || i == 64 || i == 65 || i == 66 || i == 67 || i == 68 || i == 69 || i == 70 || i == 71 || i == 72 || i == 73 || i == 74 || i == 75 || i == 76 || i == 77 || i == 78 || i == 79 || i == 80 || i == 81 || i == 82 || i == 83 || i == 84 || i == 85 || i == 86 || i == 87 || i == 88 || i == 89 || i == 90 || i == 91 || i == 92 || i == 93 || i == 94 || i == 95 || i == 96 || i == 97 || i == 98 || i == 99 || i == 100 || i == 101 || i == 102 || i == 103 || i == 104 || i == 105 || i == 106 || i == 107 || i == 108 || i == 109 || i == 110 || i == 111 || i == 112 || i == 113 || i == 114 || i == 115 || i == 116 || i == 117 || i == 118 || i == 119 || i == 120 || i == 121 || i == 122 || i == 123 || i == 124 || i == 125 || i == 126 || i == 127 || i == 128 || i == 129 || i == 130 || i == 131 || i == 132 || i == 133 || i == 134 || i == 135 || i == 136 || i == 137 || i == 138 || i == 139 || i == 140 || i == 141 || i == 142 || i == 143 || i == 144 || i == 145 || i == 146 || i == 147 || i == 148);
        if i == 124 {
            assert(b[0] == t[i].name);
        }
        if i == 126 {
            assert(b[1] == t[i].name);
        }
        if i == 127 {
            assert(b[2] == t[i].name);
        }
        if i == 128 {
            assert(b[3] == t[i].name);
        }
        if i == 129 {
            assert(b[4] == t[i].name);
        }
        if i == 130 {
            assert(b[5] == t[i].name);
        }
        if i == 131 {
            assert(b[6] == t[i].name);
        }
        if i == 132 {
            assert(b[7] == t[i].name);
        }
        if i == 133 {
            assert(b[8] == t[i].name);
        }
        if i == 134 {
            assert(b[9] == t[i].name);
        }
        if i == 135 {
            assert(b[10] == t[i].name);
        }
        if i == 136 {
            assert(b[11] == t[i].name);
        }
        if i == 137 {
            assert(b[12] == t[i].name);
        }
    }
    assert(t[124].name == b[0] && t[124].is_button);
    assert(t[126].name == b[1] && t[126].is_button);
    assert(t[127].name == b[2] && t[127].is_button);
    assert(t[128].name == b[3] && t[128].is_button);
    assert(t[129].name == b[4] && t[129].is_button);
    assert(t[130].name == b[5] && t[130].is_button);
    assert(t[131].name == b[6] && t[131].is_button);
    assert(t[132].name == b[7] && t[132].is_button);
    assert(t[133].name == b[8] && t[133].is_button);
    assert(t[134].name == b[9] && t[134].is_button);
    assert(t[135].name == b[10] && t[135].is_button);
    assert(t[136].name == b[11] && t[136].is_button);
    assert(t[137].name == b[12] && t[137].is_button);
}

/// The shape shared by the button trigger names: `if_b...` or `inv_b...`.
spec fn button_shaped(s: Seq<char>) -> bool {
    &&& s.len() >= 9
    &&& s[0] == 'i'
    &&& ((s[1] == 'f' && s[3] == 'b') || (s[1] == 'n' && s[4] == 'b'))
}

proof fn lemma_button_entries_shaped()
    ensures
        forall|k: int| 0 <= k < button_trigger_names().len() ==> button_shaped(#[trigger] button_trigger_names()[k]),
        forall|i: int|
            0 <= i < trigger_table().len() && !(#[trigger] trigger_table()[i]).is_button ==> !button_shaped(
                trigger_table()[i].name,
            ),
{
    reveal_strlit("apnpc1");
    reveal_strlit("apnpc2");
    reveal_strlit("apnpc3");
    reveal_strlit("apnpc4");
    reveal_strlit("apnpc5");
    reveal_strlit("apnpcu");
    reveal_strlit("apnpct");
    reveal_strlit("opnpc1");
    reveal_strlit("opnpc2");
    reveal_strlit("opnpc3");
    reveal_strlit("opnpc4");
    reveal_strlit("opnpc5");
    reveal_strlit("opnpcu");
    reveal_strlit("opnpct");
    reveal_strlit("ai_apnpc1");
    reveal_strlit("ai_apnpc2");
    reveal_strlit("ai_apnpc3");
    reveal_strlit("ai_apnpc4");
    reveal_strlit("ai_apnpc5");
    reveal_strlit("ai_opnpc1");
    reveal_strlit("ai_opnpc2");
    reveal_strlit("ai_opnpc3");
    reveal_strlit("ai_opnpc4");
    reveal_strlit("ai_opnpc5");
    reveal_strlit("apobj1");
    reveal_strlit("apobj2");
    reveal_strlit("apobj3");
    reveal_strlit("apobj4");
    reveal_strlit("apobj5");
    reveal_strlit("apobju");
    reveal_strlit("apobjt");
    reveal_strlit("opobj1");
    reveal_strlit("opobj2");
    reveal_strlit("opobj3");
    reveal_strlit("opobj4");
    reveal_strlit("opobj5");
    reveal_strlit("opobju");
    reveal_strlit("opobjt");
    reveal_strlit("ai_apobj1");
    reveal_strlit("ai_apobj2");
    reveal_strlit("ai_apobj3");
    reveal_strlit("ai_apobj4");
    reveal_strlit("ai_apobj5");
    reveal_strlit("ai_opobj1");
    reveal_strlit("ai_opobj2");
    reveal_strlit("ai_opobj3");
    reveal_strlit("ai_opobj4");
    reveal_strlit("ai_opobj5");
    reveal_strlit("aploc1");
    reveal_strlit("aploc2");
    reveal_strlit("aploc3");
    reveal_strlit("aploc4");
    reveal_strlit("aploc5");
    reveal_strlit("aplocu");
    reveal_strlit("aploct");
    reveal_strlit("oploc1");
    reveal_strlit("oploc2");
    reveal_strlit("oploc3");
    reveal_strlit("oploc4");
    reveal_strlit("oploc5");
    reveal_strlit("oplocu");
    reveal_strlit("oploct");
    reveal_strlit("ai_aploc1");
    reveal_strlit("ai_aploc2");
    reveal_strlit("ai_aploc3");
    reveal_strlit("ai_aploc4");
    reveal_strlit("ai_aploc5");
    reveal_strlit("ai_oploc1");
    reveal_strlit("ai_oploc2");
    reveal_strlit("ai_oploc3");
    reveal_strlit("ai_oploc4");
    reveal_strlit("ai_oploc5");
    reveal_strlit("applayer1");
    reveal_strlit("applayer2");
    reveal_strlit("applayer3");
    reveal_strlit("applayer4");
    reveal_strlit("applayer5");
    reveal_strlit("applayeru");
    reveal_strlit("applayert");
    reveal_strlit("opplayer1");
    reveal_strlit("opplayer2");
    reveal_strlit("opplayer3");
    reveal_strlit("opplayer4");
    reveal_strlit("opplayer5");
    reveal_strlit("opplayeru");
    reveal_strlit("opplayert");
    reveal_strlit("ai_applayer1");
    reveal_strlit("ai_applayer2");
    reveal_strlit("ai_applayer3");
    reveal_strlit("ai_applayer4");
    reveal_strlit("ai_applayer5");
    reveal_strlit("ai_opplayer1");
    reveal_strlit("ai_opplayer2");
    reveal_strlit("ai_opplayer3");
    reveal_strlit("ai_opplayer4");
    reveal_strlit("ai_opplayer5");
    reveal_strlit("ai_queue1");
    reveal_strlit("ai_queue2");
    reveal_strlit("ai_queue3");
    reveal_strlit("ai_queue4");
    reveal_strlit("ai_queue5");
    reveal_strlit("ai_queue6");
    reveal_strlit("ai_queue7");
    reveal_strlit("ai_queue8");
    reveal_strlit("ai_queue9");
    reveal_strlit("ai_queue10");
    reveal_strlit("ai_queue11");
    reveal_strlit("ai_queue12");
    reveal_strlit("ai_queue13");
    reveal_strlit("ai_queue14");
    reveal_strlit("ai_queue15");
    reveal_strlit("ai_queue16");
    reveal_strlit("ai_queue17");
    reveal_strlit("ai_queue18");
    reveal_strlit("ai_queue19");
    reveal_strlit("ai_queue20");
    reveal_strlit("ai_timer");
    reveal_strlit("opheld1");
    reveal_strlit("opheld2");
    reveal_strlit("opheld3");
    reveal_strlit("opheld4");
    reveal_strlit("opheld5");
    reveal_strlit("opheldu");
    reveal_strlit("opheldt");
    reveal_strlit("if_button");
    reveal_strlit("if_close");
    reveal_strlit("if_button1");
    reveal_strlit("if_button2");
    reveal_strlit("if_button3");
    reveal_strlit("if_button4");
    reveal_strlit("if_button5");
    reveal_strlit("if_buttond");
    reveal_strlit("inv_button1");
    reveal_strlit("inv_button2");
    reveal_strlit("inv_button3");
    reveal_strlit("inv_button4");
    reveal_strlit("inv_button5");
    reveal_strlit("inv_buttond");
    reveal_strlit("login");
    reveal_strlit("logout");
    reveal_strlit("tutorial");
    reveal_strlit("advancestat");
    reveal_strlit("mapzone");
    reveal_strlit("mapzoneexit");
    reveal_strlit("zone");
    reveal_strlit("zoneexit");
    reveal_strlit("changestat");
    reveal_strlit("ai_spawn");
    reveal_strlit("ai_despawn");
    let t = trigger_table();
    let b = button_trigger_names();
    assert forall|k: int| 0 <= k < b.len() implies button_shaped(#[trigger] b[k]) by {
        assert(k == 0 || k == 1 || k == 2 || k == 3 || k == 4 || k == 5 || k == 6 || k == 7 || k == 8 || k == 9
            || k == 10 || k == 11 || k == 12);
    }
    assert forall|i: int| 0 <= i < t.len() && !(#[trigger] t[i]).is_button implies !button_shaped(t[i].name) by {
        assert(i == 0 || i == 1 || i == 2 || i == 3 || i == 4 || i == 5 || i == 6 || i == 7 || i == 8 || i == 9 || i == 10 || i == 11 || i == 12 || i == 13 || i == 14 || i == 15 || i == 16 || i == 17 || i == 18 || i == 19 || i == 20 || i == 21 || i == 22 || i == 23 || i == 24 || i == 25 || i == 26 || i == 27 || i == 28 || i == 29 || i == 30 || i == 31 || i == 32 || i == 33 || i == 34 || i == 35 || i == 36 || i == 37 || i == 38 || i == 39 || i == 40 || i == 41 || i == 42 || i == 43 || i == 44 || i == 45 || i == 46 || i == 47 || i == 48 || i == 49 || i == 50 || i == 51 || i == 52 || i == 53 || i == 54 || i == 55 || i == 56 || i == 57 || i == 58 || i == 59 || i == 60 || i == 61 || i == 62 || i == 63 || i == 64 || i == 65 || i == 66 || i == 67 || i == 68 || i == 69 || i == 70 || i == 71 || i == 72 || i == 73 || i == 74 || i == 75 || i == 76 || i == 77 || i == 78 || i == 79 || i == 80 || i == 81 || i == 82 || i == 83 || i == 84 || i == 85 || i == 86 || i == 87 || i == 88 || i == 89 || i == 90 || i == 91 || i == 92 || i == 93 || i == 94 || i == 95 || i == 96 || i == 97 || i == 98 || i == 99 || i == 100 || i == 101 || i == 102 || i == 103 || i == 104 || i == 105 || i == 106 || i == 107 || i == 108 || i == 109 || i == 110 || i == 111 || i == 112 || i == 113 || i == 114 || i == 115 || i == 116 || i == 117 || i == 118 || i == 119 || i == 120 || i == 121 || i == 122 || i == 123 || i == 124 || i == 125 || i == 126 || i == 127 || i == 128 || i == 129 || i == 130 || i == 131 || i == 132 || i == 133 || i == 134 || i == 135 || i == 136 || i == 137 || i == 138 || i == 139 || i == 140 || i == 141 || i == 142 || i == 143 || i == 144 || i == 145 || i == 146 || i == 147 || i == 148);
    }
}

/// The first entry of `table` named `name`.
pub open spec fn first_named(table: Seq<TriggerView>, name: Seq<char>) -> Option<TriggerView>
    decreases table.len(),
{
    if table.len() == 0 {
        None
    } else if table[0].name == name {
        Some(table[0])
    } else {
        first_named(table.skip(1), name)
    }
}

proof fn lemma_first_named(table: Seq<TriggerView>, name: Seq<char>)
    ensures
        first_named(table, name) matches Some(e) ==> e.name == name && exists|i: int|
            0 <= i < table.len() && #[trigger] table[i] == e,
        first_named(table, name) is None ==> forall|i: int| 0 <= i < table.len() ==> (#[trigger] table[i]).name != name,
    decreases table.len(),
{
    if table.len() > 0 {
        lemma_first_named(table.skip(1), name);
        if table[0].name != name {
            if let Some(e) = first_named(table.skip(1), name) {
                let i = choose|i: int| 0 <= i < table.skip(1).len() && #[trigger] table.skip(1)[i] == e;
                assert(table[i + 1] == e);
            } else {
                assert forall|i: int| 0 <= i < table.len() implies (#[trigger] table[i]).name != name by {
                    if i > 0 {
                        assert(table[i] == table.skip(1)[i - 1]);
                    }
                }
            }
        } else {
            assert(table[0] == table[0]);
        }
    }
}

/// The metadata of trigger `name`.
pub open spec fn trigger_info(name: Seq<char>) -> Option<TriggerView> {
    first_named(trigger_table(), name)
}

/// The metadata of the byte-keyed trigger `name`, if it is one.
pub fn lookup(name: &str) -> (r: Option<TriggerInfo>)
    ensures
        match r {
            Some(t) => trigger_info(name@) == Some(t@),
            None => trigger_info(name@) is None,
        },
{
    let table = trigger_infos();
    let ghost views = table@.map_values(|t: TriggerInfo| t@);
    let mut i: usize = 0;
    assert(views.skip(0) == views);
    while i < table.len()
        invariant
            i <= table@.len(),
            views == table@.map_values(|t: TriggerInfo| t@),
            views == trigger_table(),
            first_named(views, name@) == first_named(views.skip(i as int), name@),
        decreases table.len() - i,
    {
        assert(views.skip(i as int).skip(1) == views.skip(i + 1));
        assert(views.skip(i as int)[0] == table@[i as int]@);
        if str_eq(table[i].name, name) {
            return Some(table[i]);
        }
        i += 1;
    }
    None
}

/// The byte discriminant of trigger `name`.
pub fn byte(name: &str) -> (r: Option<u8>)
    ensures
        r == (match trigger_info(name@) {
            Some(t) => Some(t.byte),
            None => None,
        }),
{
    match lookup(name) {
        Some(t) => Some(t.byte),
        None => None,
    }
}

/// The entity type that subjects of trigger `name` are looked up as.
pub fn subject_type(name: &str) -> (r: Option<Type>)
    ensures
        r == (match trigger_info(name@) {
            Some(t) => t.subject_type,
            None => None,
        }),
{
    match lookup(name) {
        Some(t) => t.subject_type,
        None => None,
    }
}

/// Whether named subjects of trigger `name` must resolve.
pub fn validates_subject(name: &str) -> (r: bool)
    ensures
        r == (match trigger_info(name@) {
            Some(t) => t.validates_subject,
            None => false,
        }),
{
    match lookup(name) {
        Some(t) => t.validates_subject,
        None => false,
    }
}

/// Whether `name` is a button trigger: exactly the button triggers are.
pub fn is_button(name: &str) -> (r: bool)
    ensures
        r == (match trigger_info(name@) {
            Some(t) => t.is_button,
            None => false,
        }),
        r == button_trigger_names().contains(name@),
{
    proof {
        lemma_first_named(trigger_table(), name@);
        lemma_button_entries();
        lemma_button_entries_shaped();
        let b = button_trigger_names();
        match trigger_info(name@) {
            Some(e) => {
                let i = choose|i: int| 0 <= i < trigger_table().len() && #[trigger] trigger_table()[i] == e;
                if !e.is_button {
                    assert forall|k: int| 0 <= k < b.len() implies b[k] != name@ by {
                        assert(button_shaped(b[k]));
                    }
                }
            },
            None => {
                if b.contains(name@) {
                    let j = choose|j: int| 0 <= j < b.len() && b[j] == name@;
                    assert(b[j] == name@);
                    let i = choose|i: int|
                        0 <= i < trigger_table().len() && (#[trigger] trigger_table()[i]).name == b[j]
                            && trigger_table()[i].is_button;
                    assert(trigger_table()[i].name != name@);
                }
            },
        }
    }
    match lookup(name) {
        Some(t) => t.is_button,
        None => false,
    }
}

/// Triggers dispatched by script name rather than by byte.
pub open spec fn name_keyed_triggers() -> Seq<Seq<char>> {
    seq![
        "proc"@,
        "label"@,
        "debugproc"@,
        "command"@,
        "clientscript"@,
        "walktrigger"@,
        "queue"@,
        "timer"@,
        "softtimer"@,
    ]
}

/// Valid triggers whose byte discriminants are not yet fixed.
pub open spec fn extended_triggers() -> Seq<Seq<char>> {
    seq!["opheld6"@, "opheld7"@, "opheld8"@, "switch_window_mode"@]
}

/// Whether `name` is a valid trigger keyword.
pub open spec fn valid_trigger(name: Seq<char>) -> bool {
    trigger_info(name) is Some || name_keyed_triggers().contains(name)
        || extended_triggers().contains(name)
}

/// Whether `name` is a valid trigger keyword: a byte-keyed, name-keyed or
/// extended trigger.
pub fn is_valid_trigger(name: &str) -> (r: bool)
    ensures
        r == valid_trigger(name@),
{
    if lookup(name).is_some() {
        return true;
    }
    let keyed = vec![
        "proc",
        "label",
        "debugproc",
        "command",
        "clientscript",
        "walktrigger",
        "queue",
        "timer",
        "softtimer",
    ];
    assert(keyed@.map_values(|s: &'static str| s@) =~= name_keyed_triggers());
    if str_in_list(&keyed, name) {
        return true;
    }
    let extended = vec!["opheld6", "opheld7", "opheld8", "switch_window_mode"];
    assert(extended@.map_values(|s: &'static str| s@) =~= extended_triggers());
    str_in_list(&extended, name)
}

/// Whether scripts of trigger `name` may return values.
pub open spec fn returns_allowed(name: Seq<char>) -> bool {
    name == "proc"@ || name == "clientscript"@ || name == "command"@ || name == "logout"@
}

/// Whether scripts of trigger `name` may return values: `proc`,
/// `clientscript`, `command` and `logout`.
pub fn allows_returns(name: &str) -> (r: bool)
    ensures
        r == returns_allowed(name@),
{
    str_eq(name, "proc") || str_eq(name, "clientscript") || str_eq(name, "command") || str_eq(
        name,
        "logout",
    )
}

} // verus!
