//! Clan membership rules: ranks, who may promote or exclude whom, when the
//! founder may dissolve the clan, the price of founding one, and which
//! online players can be invited.
use vstd::prelude::*;
use crate::ids::PlayerId;

verus! {

/// The stored rank of player `pid` among the clan `members` (id, name,
/// stored rank): that of the first entry with the player's id, or `None`
/// for a player outside the clan.
pub fn clan_rank_for(members: &[(i32, String, i32)], pid: PlayerId) -> (r: Option<i32>)
    ensures
        r is None <==> forall|i: int| 0 <= i < members@.len() ==> (#[trigger] members@[i]).0 != pid.0,
        r matches Some(rank) ==> exists|i: int|
            0 <= i < members@.len() && (#[trigger] members@[i]).0 == pid.0 && members@[i].2 == rank
                && forall|j: int| 0 <= j < i ==> (#[trigger] members@[j]).0 != pid.0,
{
    let mut i: usize = 0;
    while i < members.len()
        invariant
            i <= members@.len(),
            forall|j: int| 0 <= j < i ==> (#[trigger] members@[j]).0 != pid.0,
        decreases members@.len() - i,
    {
        if members[i].0 == pid.0 {
            return Some(members[i].2);
        }
        i = i + 1;
    }
    None
}

/// A player's standing in a clan, lowest first.
#[derive(Clone, Copy, Debug, PartialEq, Eq, Structural)]
pub enum ClanRank {
    NoRank,
    Member,
    Officer,
    Leader,
}

impl ClanRank {
    /// Position of the rank in the order `NoRank < Member < Officer < Leader`.
    pub open spec fn level(self) -> int {
        match self {
            ClanRank::NoRank => 0,
            ClanRank::Member => 1,
            ClanRank::Officer => 2,
            ClanRank::Leader => 3,
        }
    }

    /// Position of the rank in the order `NoRank < Member < Officer < Leader`.
    pub fn rank_level(self) -> (r: u8)
        ensures
            r == self.level(),
    {
        match self {
            ClanRank::NoRank => 0,
            ClanRank::Member => 1,
            ClanRank::Officer => 2,
            ClanRank::Leader => 3,
        }
    }

    /// Whether this rank is `other` or above it.
    pub fn at_least(self, other: ClanRank) -> (r: bool)
        ensures
            r == (self.level() >= other.level()),
    {
        self.rank_level() >= other.rank_level()
    }
}

/// Officers and the leader manage requests and invitations.
pub open spec fn may_manage(rank: ClanRank) -> bool {
    rank.level() >= ClanRank::Officer.level()
}

/// Credits that founding a clan costs.
pub const CLAN_CREATE_PRICE: i64 = 1000;

/// What a request to found a clan leads to before the clan is stored.
#[derive(Clone, Copy, Debug, PartialEq, Eq, Structural)]
pub enum ClanCreateStart {
    /// The player already belongs to a clan.
    AlreadyInClan,
    /// The player's online state cannot be read or written.
    StateError,
    /// The player holds fewer credits than the price.
    InsufficientFunds,
    /// The price is taken; the player keeps `creds` credits.
    Debit { creds: i64 },
}

impl ClanCreateStart {
    /// The notice shown for a refusal.
    pub fn message(self) -> (r: &'static str)
        ensures
            r@ == (match self {
                ClanCreateStart::AlreadyInClan => "Вы уже в клане"@,
                ClanCreateStart::StateError => "Состояние игрока недоступно."@,
                ClanCreateStart::InsufficientFunds => "Недостаточно кредитов (нужно 1000)"@,
                ClanCreateStart::Debit { .. } => "Клан успешно создан!"@,
            }),
    {
        match self {
            ClanCreateStart::AlreadyInClan => "Вы уже в клане",
            ClanCreateStart::StateError => "Состояние игрока недоступно.",
            ClanCreateStart::InsufficientFunds => "Недостаточно кредитов (нужно 1000)",
            ClanCreateStart::Debit { .. } => "Клан успешно создан!",
        }
    }
}

/// First step of founding a clan: a player outside any clan whose state is
/// readable pays the price if the credits cover it; nothing changes otherwise.
pub fn clan_create_start(in_clan: bool, state_ready: bool, creds: i64) -> (r: ClanCreateStart)
    ensures
        in_clan ==> r == ClanCreateStart::AlreadyInClan,
        !in_clan && !state_ready ==> r == ClanCreateStart::StateError,
        !in_clan && state_ready && creds < CLAN_CREATE_PRICE ==> r == ClanCreateStart::InsufficientFunds,
        !in_clan && state_ready && creds >= CLAN_CREATE_PRICE
            ==> r == (ClanCreateStart::Debit { creds: (creds - CLAN_CREATE_PRICE) as i64 }),
{
    if in_clan {
        ClanCreateStart::AlreadyInClan
    } else if !state_ready {
        ClanCreateStart::StateError
    } else if creds < CLAN_CREATE_PRICE {
        ClanCreateStart::InsufficientFunds
    } else {
        ClanCreateStart::Debit { creds: creds - CLAN_CREATE_PRICE }
    }
}

/// Credits after the price is given back when the clan could not be stored.
pub fn refund_clan_credits(creds: i64) -> (r: i64)
    requires
        creds + CLAN_CREATE_PRICE <= i64::MAX,
    ensures
        r == creds + CLAN_CREATE_PRICE,
{
    creds + CLAN_CREATE_PRICE
}

/// What a request to leave the clan leads to.
#[derive(Clone, Copy, Debug, PartialEq, Eq, Structural)]
pub enum ClanLeave {
    /// The founder of a clan with other members must hand over or exclude first.
    MustHandOver,
    /// Some player state that would change cannot be read or written.
    StateError,
    /// The founder is alone: the clan is deleted.
    Dissolve,
    /// An ordinary member leaves.
    Leave,
}

impl ClanLeave {
    /// The notice shown for the outcome.
    pub fn message(self) -> (r: &'static str)
        ensures
            r@ == (match self {
                ClanLeave::MustHandOver => "Сначала передайте лидерство или исключите участников"@,
                ClanLeave::StateError => "Состояние игрока недоступно."@,
                ClanLeave::Dissolve => "Клан расформирован"@,
                ClanLeave::Leave => "Вы покинули клан"@,
            }),
    {
        match self {
            ClanLeave::MustHandOver => "Сначала передайте лидерство или исключите участников",
            ClanLeave::StateError => "Состояние игрока недоступно.",
            ClanLeave::Dissolve => "Клан расформирован",
            ClanLeave::Leave => "Вы покинули клан",
        }
    }
}

/// Leaving a clan: the founder may only dissolve a clan of one, and only
/// when the state of every member is ready; a member leaves when the own
/// state is ready.
pub fn clan_leave_decision(is_owner: bool, member_count: usize, members_ready: bool, self_ready: bool) -> (r: ClanLeave)
    ensures
        is_owner && member_count > 1 ==> r == ClanLeave::MustHandOver,
        is_owner && member_count <= 1 && !members_ready ==> r == ClanLeave::StateError,
        is_owner && member_count <= 1 && members_ready ==> r == ClanLeave::Dissolve,
        !is_owner && !self_ready ==> r == ClanLeave::StateError,
        !is_owner && self_ready ==> r == ClanLeave::Leave,
{
    if is_owner {
        if member_count > 1 {
            ClanLeave::MustHandOver
        } else if !members_ready {
            ClanLeave::StateError
        } else {
            ClanLeave::Dissolve
        }
    } else if !self_ready {
        ClanLeave::StateError
    } else {
        ClanLeave::Leave
    }
}

/// The online players whose clan must be cleared when clan `clan_id` is
/// dissolved: those among `active` (player, clan) that belong to it, in order.
pub open spec fn spec_dissolved_members(active: Seq<(i32, Option<i32>)>, clan_id: i32) -> Seq<i32>
    decreases active.len(),
{
    if active.len() == 0 {
        Seq::empty()
    } else {
        let rest = spec_dissolved_members(active.drop_last(), clan_id);
        if active.last().1 == Some(clan_id) {
            rest.push(active.last().0)
        } else {
            rest
        }
    }
}

/// The online players whose clan is cleared when clan `clan_id` is dissolved.
pub fn dissolved_members(active: &[(i32, Option<i32>)], clan_id: i32) -> (r: Vec<i32>)
    ensures
        r@ == spec_dissolved_members(active@, clan_id),
{
    let mut out: Vec<i32> = Vec::new();
    let mut i: usize = 0;
    while i < active.len()
        invariant
            i <= active@.len(),
            out@ == spec_dissolved_members(active@.take(i as int), clan_id),
        decreases active@.len() - i,
    {
        proof {
            assert(active@.take(i as int + 1).drop_last() == active@.take(i as int));
        }
        if active[i].1 == Some(clan_id) {
            out.push(active[i].0);
        }
        i = i + 1;
    }
    proof {
        assert(active@.take(active@.len() as int) == active@);
    }
    out
}

/// Which entries the clan window offers.
#[derive(Clone, Copy, Debug, PartialEq, Eq, Structural)]
pub struct ClanInfoOptions {
    /// Requests and invitations are listed.
    pub manage: bool,
    /// The leave entry is shown.
    pub leave: bool,
}

/// The clan window offers requests and invitations to officers and the
/// leader, and the leave entry to everyone but a founder with other members.
pub fn clan_info_options(player_rank: ClanRank, is_owner: bool, member_count: usize) -> (r: ClanInfoOptions)
    ensures
        r.manage == may_manage(player_rank),
        r.leave == !(is_owner && member_count > 1),
{
    ClanInfoOptions {
        manage: player_rank.at_least(ClanRank::Officer),
        leave: !(is_owner && member_count > 1),
    }
}

/// The actions the members list offers on one member.
#[derive(Clone, Copy, Debug, PartialEq, Eq, Structural)]
pub struct MemberActions {
    pub target: i32,
    pub promote: bool,
    pub kick: bool,
}

/// The leader may promote a plain member; anyone may exclude a member of a
/// lower rank; nobody acts on the own entry.
pub open spec fn spec_member_actions(viewer: i32, viewer_rank: ClanRank, member: (i32, ClanRank)) -> MemberActions {
    MemberActions {
        target: member.0,
        promote: member.0 != viewer && viewer_rank == ClanRank::Leader && member.1 == ClanRank::Member,
        kick: member.0 != viewer && viewer_rank.level() > member.1.level(),
    }
}

/// The actions that the members list offers, one entry per member, in order.
pub fn member_actions(viewer: PlayerId, viewer_rank: ClanRank, members: &[(i32, ClanRank)]) -> (r: Vec<MemberActions>)
    ensures
        r@.len() == members@.len(),
        forall|i: int| 0 <= i < members@.len()
            ==> r@[i] == spec_member_actions(viewer.0, viewer_rank, #[trigger] members@[i]),
{
    let mut out: Vec<MemberActions> = Vec::new();
    let mut i: usize = 0;
    while i < members.len()
        invariant
            i <= members@.len(),
            out@.len() == i,
            forall|j: int| 0 <= j < i ==> out@[j] == spec_member_actions(viewer.0, viewer_rank, #[trigger] members@[j]),
        decreases members@.len() - i,
    {
        let (target, rank) = members[i];
        let other = target != viewer.0;
        out.push(MemberActions {
            target,
            promote: other && viewer_rank == ClanRank::Leader && rank == ClanRank::Member,
            kick: other && viewer_rank.rank_level() > rank.rank_level(),
        });
        i = i + 1;
    }
    out
}

/// Why an exclusion is refused.
#[derive(Clone, Copy, Debug, PartialEq, Eq, Structural)]
pub enum ClanKickRefusal {
    /// The target is not a member of the clan.
    NotInClan,
    /// The acting player does not outrank the target and is not the leader.
    NoRights,
    /// The leader cannot be excluded.
    Leader,
}

impl ClanKickRefusal {
    /// The notice shown for the refusal.
    pub fn message(self) -> (r: &'static str)
        ensures
            r@ == (match self {
                ClanKickRefusal::NotInClan => "Игрок не в вашем клане"@,
                ClanKickRefusal::NoRights => "Нет прав"@,
                ClanKickRefusal::Leader => "Нельзя исключить лидера"@,
            }),
    {
        match self {
            ClanKickRefusal::NotInClan => "Игрок не в вашем клане",
            ClanKickRefusal::NoRights => "Нет прав",
            ClanKickRefusal::Leader => "Нельзя исключить лидера",
        }
    }
}

/// Excluding a member: the target must be in the clan, the actor must
/// outrank it or be the leader, and the leader is never excluded.
pub fn clan_kick_decision(player_rank: ClanRank, target_rank: Option<ClanRank>) -> (r: Result<(), ClanKickRefusal>)
    ensures
        target_rank is None ==> r == Err::<(), ClanKickRefusal>(ClanKickRefusal::NotInClan),
        target_rank matches Some(t) ==> {
            if player_rank.level() <= t.level() && player_rank != ClanRank::Leader {
                r == Err::<(), ClanKickRefusal>(ClanKickRefusal::NoRights)
            } else if t == ClanRank::Leader {
                r == Err::<(), ClanKickRefusal>(ClanKickRefusal::Leader)
            } else {
                r == Ok::<(), ClanKickRefusal>(())
            }
        },
{
    match target_rank {
        None => Err(ClanKickRefusal::NotInClan),
        Some(t) => {
            if player_rank.rank_level() <= t.rank_level() && player_rank != ClanRank::Leader {
                Err(ClanKickRefusal::NoRights)
            } else if t == ClanRank::Leader {
                Err(ClanKickRefusal::Leader)
            } else {
                Ok(())
            }
        },
    }
}

/// What a request to join clan leads to.
#[derive(Clone, Copy, Debug, PartialEq, Eq, Structural)]
pub enum JoinRequest {
    AlreadyInClan,
    AlreadyRequested,
    Submit,
}

/// A request to join is refused to a clan member and not repeated when
/// the player already has one pending among `pending` (player, name).
pub fn join_request_decision(in_clan: bool, pending: &[(i32, String)], pid: PlayerId) -> (r: JoinRequest)
    ensures
        in_clan ==> r == JoinRequest::AlreadyInClan,
        !in_clan && (exists|i: int| 0 <= i < pending@.len() && (#[trigger] pending@[i]).0 == pid.0)
            ==> r == JoinRequest::AlreadyRequested,
        !in_clan && (forall|i: int| 0 <= i < pending@.len() ==> (#[trigger] pending@[i]).0 != pid.0)
            ==> r == JoinRequest::Submit,
{
    if in_clan {
        return JoinRequest::AlreadyInClan;
    }
    let mut i: usize = 0;
    while i < pending.len()
        invariant
            !in_clan,
            i <= pending@.len(),
            forall|j: int| 0 <= j < i ==> (#[trigger] pending@[j]).0 != pid.0,
        decreases pending@.len() - i,
    {
        if pending[i].0 == pid.0 {
            return JoinRequest::AlreadyRequested;
        }
        i = i + 1;
    }
    JoinRequest::Submit
}

/// Most players that one invitation window lists.
pub const INVITE_LIST_LIMIT: usize = 20;

/// Players of `online` (player, outside any clan) that may be invited by
/// `viewer`: those outside any clan, other than the viewer, in order.
pub open spec fn spec_invitable(online: Seq<(i32, bool)>, viewer: i32) -> Seq<i32>
    decreases online.len(),
{
    if online.len() == 0 {
        Seq::empty()
    } else {
        let rest = spec_invitable(online.drop_last(), viewer);
        if online.last().1 && online.last().0 != viewer {
            rest.push(online.last().0)
        } else {
            rest
        }
    }
}

/// What a prefix of the online list yields is a prefix of what the whole list yields.
pub proof fn lemma_invitable_prefix(online: Seq<(i32, bool)>, viewer: i32, i: int)
    requires
        0 <= i <= online.len(),
    ensures
        spec_invitable(online.take(i), viewer).len() <= spec_invitable(online, viewer).len(),
        spec_invitable(online.take(i), viewer)
            == spec_invitable(online, viewer).take(spec_invitable(online.take(i), viewer).len() as int),
    decreases online.len() - i,
{
    if i == online.len() {
        assert(online.take(i) == online);
    } else {
        lemma_invitable_prefix(online, viewer, i + 1);
        assert(online.take(i + 1).drop_last() == online.take(i));
        let a = spec_invitable(online.take(i), viewer);
        let b = spec_invitable(online.take(i + 1), viewer);
        let all = spec_invitable(online, viewer);
        assert(a == b.take(a.len() as int));
        assert(b == all.take(b.len() as int));
        assert(a == all.take(a.len() as int));
    }
}

/// The invitation window: the first players that may be invited, at most
/// twenty of them.
pub fn invite_candidates(online: &[(i32, bool)], viewer: PlayerId) -> (r: Vec<i32>)
    ensures
        r@.len() == if spec_invitable(online@, viewer.0).len() < INVITE_LIST_LIMIT {
            spec_invitable(online@, viewer.0).len()
        } else {
            INVITE_LIST_LIMIT as nat
        },
        r@ == spec_invitable(online@, viewer.0).take(r@.len() as int),
{
    let mut out: Vec<i32> = Vec::new();
    let mut i: usize = 0;
    while i < online.len() && out.len() < INVITE_LIST_LIMIT
        invariant
            i <= online@.len(),
            out@ == spec_invitable(online@.take(i as int), viewer.0),
            out@.len() <= INVITE_LIST_LIMIT,
        decreases online@.len() - i,
    {
        proof {
            assert(online@.take(i as int + 1).drop_last() == online@.take(i as int));
        }
        if online[i].1 && online[i].0 != viewer.0 {
            out.push(online[i].0);
        }
        i = i + 1;
    }
    proof {
        lemma_invitable_prefix(online@, viewer.0, i as int);
        if i == online@.len() {
            assert(online@.take(i as int) == online@);
        }
    }
    out
}

} // verus!
