//! The authenticated TY command boundary: which workload class a wire TY
//! event belongs to, and how a decoded (or undecodable) packet is routed.
use vstd::prelude::*;
use crate::ids::{PlayerId, SessionId};
use crate::text::{chars_equal_str, str_chars};

verus! {

/// Workload class of a TY event.
#[derive(Clone, Copy, Debug, PartialEq, Eq, Structural)]
pub enum TyRouteClass {
    Gameplay,
    Presentation,
    Chat,
    Admin,
    Noop,
    Unknown,
}

impl TyRouteClass {
    /// The metric label of the class.
    pub fn metric_name(self) -> (r: &'static str)
        ensures
            r@ == spec_metric_name(self),
    {
        match self {
            TyRouteClass::Gameplay => "gameplay",
            TyRouteClass::Presentation => "presentation",
            TyRouteClass::Chat => "chat",
            TyRouteClass::Admin => "admin",
            TyRouteClass::Noop => "noop",
            TyRouteClass::Unknown => "unknown",
        }
    }
}

pub open spec fn spec_metric_name(c: TyRouteClass) -> Seq<char> {
    match c {
        TyRouteClass::Gameplay => "gameplay"@,
        TyRouteClass::Presentation => "presentation"@,
        TyRouteClass::Chat => "chat"@,
        TyRouteClass::Admin => "admin"@,
        TyRouteClass::Noop => "noop"@,
        TyRouteClass::Unknown => "unknown"@,
    }
}

/// Events that mutate the simulation.
pub open spec fn is_gameplay_event(e: Seq<char>) -> bool {
    e == "Xmov"@ || e == "Xdig"@ || e == "Xbld"@ || e == "Xgeo"@ || e == "Xhea"@ || e == "INVN"@
        || e == "INCL"@ || e == "TADG"@ || e == "RESP"@ || e == "PROG"@ || e == "INUS"@ || e
        == "TAGR"@ || e == "DPBX"@ || e == "GDon"@ || e == "PDEL"@ || e == "pRST"@ || e == "PREN"@
        || e == "PCOP"@
}

/// Events that open or drive windows.
pub open spec fn is_presentation_event(e: Seq<char>) -> bool {
    e == "GUI_"@ || e == "Pope"@ || e == "Blds"@ || e == "Clan"@ || e == "Sett"@
}

/// Chat events.
pub open spec fn is_chat_event(e: Seq<char>) -> bool {
    e == "Locl"@ || e == "Chat"@ || e == "Chin"@ || e == "Cmen"@ || e == "Choo"@ || e == "Cset"@
        || e == "Cpri"@ || e == "Whoi"@
}

/// Events the client sends that the server deliberately ignores.
pub open spec fn is_noop_event(e: Seq<char>) -> bool {
    e == "Xhur"@ || e == "FINV"@ || e == "Help"@ || e == "Miso"@ || e == "THID"@ || e == "Miss"@
        || e == "Rndm"@ || e == "TAUR"@
}

/// The class of a TY event name (case-sensitive).
pub open spec fn spec_classify_ty_event(e: Seq<char>) -> TyRouteClass {
    if is_gameplay_event(e) {
        TyRouteClass::Gameplay
    } else if is_presentation_event(e) {
        TyRouteClass::Presentation
    } else if is_chat_event(e) {
        TyRouteClass::Chat
    } else if e == "ADMN"@ {
        TyRouteClass::Admin
    } else if is_noop_event(e) {
        TyRouteClass::Noop
    } else {
        TyRouteClass::Unknown
    }
}

fn is_any_of(e: &Vec<char>, words: &[&str]) -> (r: bool)
    ensures
        r == exists|i: int| 0 <= i < words@.len() && e@ == (#[trigger] words@[i])@,
{
    let mut i: usize = 0;
    while i < words.len()
        invariant
            i <= words@.len(),
            forall|j: int| 0 <= j < i ==> e@ != (#[trigger] words@[j])@,
        decreases words@.len() - i,
    {
        if chars_equal_str(e, words[i]) {
            return true;
        }
        i = i + 1;
    }
    false
}

/// Classifies a TY event name into its workload class.
pub fn classify_ty_event(event: &str) -> (r: TyRouteClass)
    ensures
        r == spec_classify_ty_event(event@),
{
    let e = str_chars(event);
    let gameplay = [
        "Xmov", "Xdig", "Xbld", "Xgeo", "Xhea", "INVN", "INCL", "TADG", "RESP", "PROG", "INUS",
        "TAGR", "DPBX", "GDon", "PDEL", "pRST", "PREN", "PCOP",
    ];
    if is_any_of(&e, &gameplay) {
        return TyRouteClass::Gameplay;
    }
    assert(!is_gameplay_event(e@)) by {
        assert(gameplay@[0]@ == "Xmov"@);
    }
    if is_any_of(&e, &["GUI_", "Pope", "Blds", "Clan", "Sett"]) {
        return TyRouteClass::Presentation;
    }
    if is_any_of(&e, &["Locl", "Chat", "Chin", "Cmen", "Choo", "Cset", "Cpri", "Whoi"]) {
        return TyRouteClass::Chat;
    }
    if chars_equal_str(&e, "ADMN") {
        return TyRouteClass::Admin;
    }
    if is_any_of(&e, &["Xhur", "FINV", "Help", "Miso", "THID", "Miss", "Rndm", "TAUR"]) {
        return TyRouteClass::Noop;
    }
    TyRouteClass::Unknown
}

/// Outcome of routing one TY packet.
pub enum TyRoute<C> {
    /// The packet decoded into a simulation command.
    Accepted { class: TyRouteClass, command: C },
    /// The packet was refused before reaching the simulation.
    Rejected { class: TyRouteClass, reason: &'static str, event: String, payload: Vec<u8> },
}

/// Why an undecodable packet is refused: an unknown event name, or a known
/// event whose payload is malformed.
pub open spec fn spec_rejection_reason(class: TyRouteClass) -> Seq<char> {
    if class == TyRouteClass::Unknown {
        "unknown_event"@
    } else {
        "malformed_payload"@
    }
}

/// Routes a TY packet given the result of decoding it into a command:
/// decoded packets are accepted with their class, the others rejected with
/// the reason, the event name and the payload.
pub fn route_decoded<C>(event: &str, payload: &[u8], decoded: Option<C>) -> (r: TyRoute<C>)
    ensures
        match r {
            TyRoute::Accepted { class, command } => decoded == Some(command) && class
                == spec_classify_ty_event(event@),
            TyRoute::Rejected { class, reason, event: name, payload: bytes } => decoded is None
                && class == spec_classify_ty_event(event@) && reason@ == spec_rejection_reason(
                class,
            ) && name@ == event@ && bytes@ == payload@,
        },
{
    let class = classify_ty_event(event);
    match decoded {
        Some(command) => TyRoute::Accepted { class, command },
        None => {
            let reason = if class == TyRouteClass::Unknown {
                "unknown_event"
            } else {
                "malformed_payload"
            };
            TyRoute::Rejected {
                class,
                reason,
                event: event.to_owned(),
                payload: vstd::slice::slice_to_vec(payload),
            }
        },
    }
}

/// A TY packet as it arrives: the event name, the client time and
/// position, and the raw payload.
#[derive(Clone, Debug)]
pub struct TyPacket {
    pub event: String,
    pub time: u32,
    pub x: u32,
    pub y: u32,
    pub sub_payload: Vec<u8>,
}

/// What the wire decoders read from the payload, for the events whose
/// payload carries arguments (`None` where the payload does not decode).
#[derive(Clone, Debug)]
pub struct TyPayloadArgs {
    /// Direction of `Xmov` / `Xdig`.
    pub direction: Option<i32>,
    /// Direction and block type of `Xbld`.
    pub build: Option<(i32, String)>,
    /// Button id of `GUI_`.
    pub gui_button: Option<String>,
    /// Message of `Locl`.
    pub local_message: Option<String>,
    /// Player ids of `Whoi`.
    pub whois_ids: Option<Vec<i32>>,
}

/// A TY packet as a simulation command.
#[derive(Debug)]
pub enum TyCommand {
    Move {
        player_id: PlayerId,
        session_id: SessionId,
        time: u32,
        x: i32,
        y: i32,
        direction: i32,
        programmatic: bool,
    },
    Dig { player_id: PlayerId, direction: i32, programmatic: bool },
    Build { player_id: PlayerId, direction: i32, block_type: String, programmatic: bool },
    Geology { player_id: PlayerId, programmatic: bool },
    Heal { player_id: PlayerId, programmatic: bool },
    Gui { session_id: SessionId, player_id: PlayerId, button: String },
    LocalChat { player_id: PlayerId, message: String },
    InventoryToggle { player_id: PlayerId },
    InventoryChoose { player_id: PlayerId, payload: Vec<u8> },
    InventoryUse { session_id: SessionId, player_id: PlayerId },
    ToggleAutoDig { player_id: PlayerId },
    ToggleAggression { player_id: PlayerId },
    Whois { player_id: PlayerId, ids: Vec<i32> },
    ChannelChat { player_id: PlayerId, payload: Vec<u8> },
    ChatResync { player_id: PlayerId, payload: Vec<u8> },
    ChatMenu { player_id: PlayerId, payload: Vec<u8> },
    ChatChoose { player_id: PlayerId, payload: Vec<u8> },
    ChatSettings { player_id: PlayerId, payload: Vec<u8> },
    ChatPrivate { player_id: PlayerId, payload: Vec<u8> },
    Respawn { player_id: PlayerId },
    OpenProgrammer { player_id: PlayerId },
    RequestMyBuildings { player_id: PlayerId },
    OpenClan { player_id: PlayerId },
    SettingsSave { player_id: PlayerId, payload: Vec<u8> },
    AdminAction { player_id: PlayerId },
    OpenBox { player_id: PlayerId },
    ClaimBonus { player_id: PlayerId },
    ProgramAction { player_id: PlayerId, session_id: SessionId, event: String, payload: Vec<u8> },
    KnownNoopTy { player_id: PlayerId, event: String, payload: Vec<u8> },
}

/// Program editor events.
pub open spec fn is_program_event(e: Seq<char>) -> bool {
    e == "PROG"@ || e == "PDEL"@ || e == "pRST"@ || e == "PREN"@ || e == "PCOP"@
}

/// Events that always become a command, whatever the payload.
pub open spec fn is_payload_free_event(e: Seq<char>) -> bool {
    e == "Xgeo"@ || e == "Xhea"@ || e == "INVN"@ || e == "INCL"@ || e == "INUS"@ || e == "TADG"@
        || e == "TAGR"@ || e == "Chat"@ || e == "Chin"@ || e == "Cmen"@ || e == "Choo"@ || e
        == "Cset"@ || e == "Cpri"@ || e == "RESP"@ || e == "Pope"@ || e == "Blds"@ || e == "Clan"@
        || e == "Sett"@ || e == "ADMN"@ || e == "DPBX"@ || e == "GDon"@ || is_program_event(e)
        || is_noop_event(e)
}

/// A packet with event `e` becomes a command: a known event whose
/// arguments, if it has any, decoded.
pub open spec fn spec_ty_decodes(e: Seq<char>, a: TyPayloadArgs) -> bool {
    if e == "Xmov"@ || e == "Xdig"@ {
        a.direction is Some
    } else if e == "Xbld"@ {
        a.build is Some
    } else if e == "GUI_"@ {
        a.gui_button is Some
    } else if e == "Locl"@ {
        a.local_message is Some
    } else if e == "Whoi"@ {
        a.whois_ids is Some
    } else {
        is_payload_free_event(e)
    }
}

/// `c` is the command that packet `p` (with decoded arguments `a`) of
/// player `pid` on session `sid` stands for.
pub open spec fn spec_ty_command_is(
    c: TyCommand,
    pid: PlayerId,
    sid: SessionId,
    p: TyPacket,
    a: TyPayloadArgs,
) -> bool {
    let e = p.event@;
    let pl = p.sub_payload@;
    match c {
        TyCommand::Move { player_id, session_id, time, x, y, direction, programmatic } => e
            == "Xmov"@ && a.direction == Some(direction) && player_id == pid && session_id == sid
            && time == p.time && x == p.x as i32 && y == p.y as i32 && !programmatic,
        TyCommand::Dig { player_id, direction, programmatic } => e == "Xdig"@ && a.direction == Some(
            direction,
        ) && player_id == pid && !programmatic,
        TyCommand::Build { player_id, direction, block_type, programmatic } => e == "Xbld"@
            && (a.build matches Some((d, b)) && d == direction && b@ == block_type@) && player_id
            == pid && !programmatic,
        TyCommand::Geology { player_id, programmatic } => e == "Xgeo"@ && player_id == pid
            && !programmatic,
        TyCommand::Heal { player_id, programmatic } => e == "Xhea"@ && player_id == pid
            && !programmatic,
        TyCommand::Gui { session_id, player_id, button } => e == "GUI_"@ && (a.gui_button matches Some(
            b,
        ) && b@ == button@) && player_id == pid && session_id == sid,
        TyCommand::LocalChat { player_id, message } => e == "Locl"@ && (a.local_message matches Some(
            m,
        ) && m@ == message@) && player_id == pid,
        TyCommand::InventoryToggle { player_id } => e == "INVN"@ && player_id == pid,
        TyCommand::InventoryChoose { player_id, payload } => e == "INCL"@ && player_id == pid
            && payload@ == pl,
        TyCommand::InventoryUse { session_id, player_id } => e == "INUS"@ && player_id == pid
            && session_id == sid,
        TyCommand::ToggleAutoDig { player_id } => e == "TADG"@ && player_id == pid,
        TyCommand::ToggleAggression { player_id } => e == "TAGR"@ && player_id == pid,
        TyCommand::Whois { player_id, ids } => e == "Whoi"@ && (a.whois_ids matches Some(w) && w@
            == ids@) && player_id == pid,
        TyCommand::ChannelChat { player_id, payload } => e == "Chat"@ && player_id == pid
            && payload@ == pl,
        TyCommand::ChatResync { player_id, payload } => e == "Chin"@ && player_id == pid
            && payload@ == pl,
        TyCommand::ChatMenu { player_id, payload } => e == "Cmen"@ && player_id == pid && payload@
            == pl,
        TyCommand::ChatChoose { player_id, payload } => e == "Choo"@ && player_id == pid
            && payload@ == pl,
        TyCommand::ChatSettings { player_id, payload } => e == "Cset"@ && player_id == pid
            && payload@ == pl,
        TyCommand::ChatPrivate { player_id, payload } => e == "Cpri"@ && player_id == pid
            && payload@ == pl,
        TyCommand::Respawn { player_id } => e == "RESP"@ && player_id == pid,
        TyCommand::OpenProgrammer { player_id } => e == "Pope"@ && player_id == pid,
        TyCommand::RequestMyBuildings { player_id } => e == "Blds"@ && player_id == pid,
        TyCommand::OpenClan { player_id } => e == "Clan"@ && player_id == pid,
        TyCommand::SettingsSave { player_id, payload } => e == "Sett"@ && player_id == pid
            && payload@ == pl,
        TyCommand::AdminAction { player_id } => e == "ADMN"@ && player_id == pid,
        TyCommand::OpenBox { player_id } => e == "DPBX"@ && player_id == pid,
        TyCommand::ClaimBonus { player_id } => e == "GDon"@ && player_id == pid,
        TyCommand::ProgramAction { player_id, session_id, event, payload } => is_program_event(e)
            && player_id == pid && session_id == sid && event@ == e && payload@ == pl,
        TyCommand::KnownNoopTy { player_id, event, payload } => is_noop_event(e) && player_id == pid
            && event@ == e && payload@ == pl,
    }
}

fn payload_copy(p: &TyPacket) -> (r: Vec<u8>)
    ensures
        r@ == p.sub_payload@,
{
    vstd::slice::slice_to_vec(p.sub_payload.as_slice())
}

/// The simulation command a TY packet stands for, or `None` for an unknown
/// event or arguments that did not decode.
pub fn decode_ty_command(
    player_id: PlayerId,
    session_id: SessionId,
    packet: &TyPacket,
    args: TyPayloadArgs,
) -> (r: Option<TyCommand>)
    ensures
        r is Some <==> spec_ty_decodes(packet.event@, args),
        r matches Some(c) ==> spec_ty_command_is(c, player_id, session_id, *packet, args),
{
    let e = str_chars(packet.event.as_str());
    let pid = player_id;
    if chars_equal_str(&e, "Xmov") {
        return match args.direction {
            Some(direction) => Some(
                TyCommand::Move {
                    player_id,
                    session_id,
                    time: packet.time,
                    x: packet.x as i32,
                    y: packet.y as i32,
                    direction,
                    programmatic: false,
                },
            ),
            None => None,
        };
    }
    if chars_equal_str(&e, "Xdig") {
        return match args.direction {
            Some(direction) => Some(TyCommand::Dig { player_id, direction, programmatic: false }),
            None => None,
        };
    }
    if chars_equal_str(&e, "Xbld") {
        return match args.build {
            Some((direction, block_type)) => Some(
                TyCommand::Build { player_id, direction, block_type, programmatic: false },
            ),
            None => None,
        };
    }
    if chars_equal_str(&e, "GUI_") {
        return match args.gui_button {
            Some(button) => Some(TyCommand::Gui { session_id, player_id, button }),
            None => None,
        };
    }
    if chars_equal_str(&e, "Locl") {
        return match args.local_message {
            Some(message) => Some(TyCommand::LocalChat { player_id, message }),
            None => None,
        };
    }
    if chars_equal_str(&e, "Whoi") {
        return match args.whois_ids {
            Some(ids) => Some(TyCommand::Whois { player_id, ids }),
            None => None,
        };
    }
    if chars_equal_str(&e, "Xgeo") {
        return Some(TyCommand::Geology { player_id, programmatic: false });
    }
    if chars_equal_str(&e, "Xhea") {
        return Some(TyCommand::Heal { player_id, programmatic: false });
    }
    if chars_equal_str(&e, "INVN") {
        return Some(TyCommand::InventoryToggle { player_id });
    }
    if chars_equal_str(&e, "INCL") {
        return Some(TyCommand::InventoryChoose { player_id, payload: payload_copy(packet) });
    }
    if chars_equal_str(&e, "INUS") {
        return Some(TyCommand::InventoryUse { session_id, player_id });
    }
    if chars_equal_str(&e, "TADG") {
        return Some(TyCommand::ToggleAutoDig { player_id });
    }
    if chars_equal_str(&e, "TAGR") {
        return Some(TyCommand::ToggleAggression { player_id });
    }
    if chars_equal_str(&e, "Chat") {
        return Some(TyCommand::ChannelChat { player_id, payload: payload_copy(packet) });
    }
    if chars_equal_str(&e, "Chin") {
        return Some(TyCommand::ChatResync { player_id, payload: payload_copy(packet) });
    }
    if chars_equal_str(&e, "Cmen") {
        return Some(TyCommand::ChatMenu { player_id, payload: payload_copy(packet) });
    }
    if chars_equal_str(&e, "Choo") {
        return Some(TyCommand::ChatChoose { player_id, payload: payload_copy(packet) });
    }
    if chars_equal_str(&e, "Cset") {
        return Some(TyCommand::ChatSettings { player_id, payload: payload_copy(packet) });
    }
    if chars_equal_str(&e, "Cpri") {
        return Some(TyCommand::ChatPrivate { player_id, payload: payload_copy(packet) });
    }
    if chars_equal_str(&e, "RESP") {
        return Some(TyCommand::Respawn { player_id });
    }
    if chars_equal_str(&e, "Pope") {
        return Some(TyCommand::OpenProgrammer { player_id });
    }
    if chars_equal_str(&e, "Blds") {
        return Some(TyCommand::RequestMyBuildings { player_id });
    }
    if chars_equal_str(&e, "Clan") {
        return Some(TyCommand::OpenClan { player_id });
    }
    if chars_equal_str(&e, "Sett") {
        return Some(TyCommand::SettingsSave { player_id, payload: payload_copy(packet) });
    }
    if chars_equal_str(&e, "ADMN") {
        return Some(TyCommand::AdminAction { player_id });
    }
    if chars_equal_str(&e, "DPBX") {
        return Some(TyCommand::OpenBox { player_id });
    }
    if chars_equal_str(&e, "GDon") {
        return Some(TyCommand::ClaimBonus { player_id });
    }
    if is_any_of(&e, &["PROG", "PDEL", "pRST", "PREN", "PCOP"]) {
        return Some(
            TyCommand::ProgramAction {
                player_id,
                session_id,
                event: packet.event.clone(),
                payload: payload_copy(packet),
            },
        );
    }
    if is_any_of(&e, &["Xhur", "FINV", "Help", "Miso", "THID", "Miss", "Rndm", "TAUR"]) {
        return Some(
            TyCommand::KnownNoopTy {
                player_id,
                event: packet.event.clone(),
                payload: payload_copy(packet),
            },
        );
    }
    None
}

/// Routes a TY packet of player `player_id` on session `session_id`:
/// accepted as its command when it decodes, otherwise rejected with the
/// event's class and the reason.
pub fn route_ty_command(
    player_id: PlayerId,
    session_id: SessionId,
    packet: &TyPacket,
    args: TyPayloadArgs,
) -> (r: TyRoute<TyCommand>)
    ensures
        match r {
            TyRoute::Accepted { class, command } => spec_ty_decodes(packet.event@, args)
                && spec_ty_command_is(command, player_id, session_id, *packet, args) && class
                == spec_classify_ty_event(packet.event@),
            TyRoute::Rejected { class, reason, event, payload } => !spec_ty_decodes(
                packet.event@,
                args,
            ) && class == spec_classify_ty_event(packet.event@) && reason@
                == spec_rejection_reason(class) && event@ == packet.event@ && payload@
                == packet.sub_payload@,
        },
{
    let ghost a = args;
    let decoded = decode_ty_command(player_id, session_id, packet, args);
    route_decoded(packet.event.as_str(), packet.sub_payload.as_slice(), decoded)
}

/// Only classified events reach the simulation: an event that decodes into
/// a command never has the class `Unknown`, so a packet of an unknown event
/// is always rejected, and with the reason `unknown_event`.
pub proof fn lemma_decoded_events_are_classified(e: Seq<char>, a: TyPayloadArgs)
    ensures
        spec_ty_decodes(e, a) ==> spec_classify_ty_event(e) != TyRouteClass::Unknown,
        spec_classify_ty_event(e) == TyRouteClass::Unknown ==> !spec_ty_decodes(e, a)
            && spec_rejection_reason(spec_classify_ty_event(e)) == "unknown_event"@,
{
}

} // verus!
