//! Who is online and where: the active-player table (player → simulation
//! entity and session), the index of players by chunk, and the session
//! lists that broadcasts go to.
use vstd::prelude::*;
use crate::due::{BotsRenderDue, BotsRenderSchedule};
use crate::ids::{ChunkPos, EntityId, PlayerId, SessionId};
use crate::player_init::{DisconnectPlan, disconnect_plan};

verus! {

/// An online player's simulation entity and current session.
#[derive(Clone, Copy, Debug, PartialEq, Eq, Structural)]
pub struct ActivePlayer {
    pub entity: EntityId,
    pub session_id: SessionId,
}

/// The entry of `pid` in an active-player table.
pub open spec fn find_active(s: Seq<(PlayerId, ActivePlayer)>, pid: PlayerId) -> Option<ActivePlayer>
    decreases s.len(),
{
    if s.len() == 0 {
        None
    } else if s.last().0 == pid {
        Some(s.last().1)
    } else {
        find_active(s.drop_last(), pid)
    }
}

/// No player is listed twice.
pub open spec fn distinct_players(s: Seq<(PlayerId, ActivePlayer)>) -> bool {
    forall|i: int, j: int| 0 <= i < j < s.len() ==> (#[trigger] s[i]).0 != (#[trigger] s[j]).0
}

proof fn lemma_find_active(s: Seq<(PlayerId, ActivePlayer)>, pid: PlayerId)
    requires
        distinct_players(s),
    ensures
        forall|i: int|
            0 <= i < s.len() && (#[trigger] s[i]).0 == pid ==> find_active(s, pid) == Some(s[i].1),
        (forall|i: int| 0 <= i < s.len() ==> (#[trigger] s[i]).0 != pid) <==> find_active(s, pid)
            is None,
    decreases s.len(),
{
    if s.len() > 0 {
        let t = s.drop_last();
        assert forall|i: int, j: int| 0 <= i < j < t.len() implies (#[trigger] t[i]).0 != (
        #[trigger] t[j]).0 by {
            assert(t[i] == s[i] && t[j] == s[j]);
        }
        lemma_find_active(t, pid);
        assert forall|i: int|
            0 <= i < s.len() && (#[trigger] s[i]).0 == pid implies find_active(s, pid) == Some(
            s[i].1,
        ) by {
            if i < s.len() - 1 {
                assert(t[i] == s[i]);
                assert(s[s.len() - 1].0 != pid);
            }
        }
        if find_active(s, pid) is None {
            assert forall|i: int| 0 <= i < s.len() implies (#[trigger] s[i]).0 != pid by {
                if i < s.len() - 1 {
                    assert(t[i] == s[i]);
                }
            }
        }
        if forall|i: int| 0 <= i < s.len() ==> (#[trigger] s[i]).0 != pid {
            assert(s[s.len() - 1].0 != pid);
            assert forall|i: int| 0 <= i < t.len() implies (#[trigger] t[i]).0 != pid by {
                assert(t[i] == s[i]);
            }
        }
    }
}

/// The players registered in chunk `c`, in registration order.
pub open spec fn members_of(entries: Seq<(ChunkPos, PlayerId)>, c: ChunkPos) -> Seq<PlayerId> {
    entries.filter(|e: (ChunkPos, PlayerId)| e.0 == c).map_values(|e: (ChunkPos, PlayerId)| e.1)
}

/// Appending a pair to the chunk index appends its player to the members
/// of its chunk.
pub proof fn lemma_members_of_push(s: Seq<(ChunkPos, PlayerId)>, x: (ChunkPos, PlayerId), c: ChunkPos)
    ensures
        members_of(s.push(x), c) == (if x.0 == c {
            members_of(s, c).push(x.1)
        } else {
            members_of(s, c)
        }),
{
    reveal(Seq::filter);
    assert(s.push(x).drop_last() =~= s);
    if x.0 == c {
        assert(members_of(s.push(x), c) =~= members_of(s, c).push(x.1));
    } else {
        assert(members_of(s.push(x), c) =~= members_of(s, c));
    }
}

/// A player indexed under chunk `c` is among the members of `c`.
pub proof fn lemma_members_of_contains(s: Seq<(ChunkPos, PlayerId)>, c: ChunkPos, pid: PlayerId)
    requires
        s.contains((c, pid)),
    ensures
        members_of(s, c).contains(pid),
    decreases s.len(),
{
    let t = s.drop_last();
    assert(s =~= t.push(s.last()));
    lemma_members_of_push(t, s.last(), c);
    if s.last() == (c, pid) {
        assert(members_of(s, c).last() == pid);
    } else {
        let k = choose|k: int| 0 <= k < s.len() && s[k] == (c, pid);
        assert(t[k] == (c, pid));
        lemma_members_of_contains(t, c, pid);
        let j = choose|j: int| 0 <= j < members_of(t, c).len() && members_of(t, c)[j] == pid;
        if s.last().0 == c {
            assert(members_of(s, c)[j] == pid);
        }
    }
}

/// The sessions of the active players among `ps` other than `exclude`, in order.
pub open spec fn sessions_of(
    ps: Seq<PlayerId>,
    exclude: Option<PlayerId>,
    active: Seq<(PlayerId, ActivePlayer)>,
) -> Seq<SessionId>
    decreases ps.len(),
{
    if ps.len() == 0 {
        Seq::empty()
    } else {
        let prev = sessions_of(ps.drop_last(), exclude, active);
        let p = ps.last();
        if exclude == Some(p) {
            prev
        } else {
            match find_active(active, p) {
                Some(a) => prev.push(a.session_id),
                None => prev,
            }
        }
    }
}

/// The active players and the chunk index.
pub struct Presence {
    active: Vec<(PlayerId, ActivePlayer)>,
    chunk_players: Vec<(ChunkPos, PlayerId)>,
}

impl Presence {
    /// The active-player table, in registration order.
    pub closed spec fn active_entries(&self) -> Seq<(PlayerId, ActivePlayer)> {
        self.active@
    }

    /// The chunk index as (chunk, player) pairs, in registration order.
    pub closed spec fn chunk_entries(&self) -> Seq<(ChunkPos, PlayerId)> {
        self.chunk_players@
    }

    /// The entry of `pid`, if it is online.
    pub open spec fn active(&self, pid: PlayerId) -> Option<ActivePlayer> {
        find_active(self.active_entries(), pid)
    }

    /// No player is listed twice, and no pair of the chunk index twice.
    pub closed spec fn wf(&self) -> bool {
        &&& distinct_players(self.active@)
        &&& self.chunk_players@.no_duplicates()
    }

    pub fn new() -> (r: Self)
        ensures
            r.wf(),
            r.active_entries() == Seq::<(PlayerId, ActivePlayer)>::empty(),
            r.chunk_entries() == Seq::<(ChunkPos, PlayerId)>::empty(),
    {
        Presence { active: Vec::new(), chunk_players: Vec::new() }
    }

    fn find_index(&self, pid: PlayerId) -> (r: Option<usize>)
        requires
            self.wf(),
        ensures
            match r {
                Some(i) => i < self.active@.len() && self.active@[i as int].0 == pid,
                None => forall|i: int| 0 <= i < self.active@.len() ==> (#[trigger] self.active@[i]).0 != pid,
            },
    {
        let mut i: usize = 0;
        while i < self.active.len()
            invariant
                i <= self.active@.len(),
                forall|j: int| 0 <= j < i ==> (#[trigger] self.active@[j]).0 != pid,
            decreases self.active@.len() - i,
        {
            if self.active[i].0.0 == pid.0 {
                return Some(i);
            }
            i = i + 1;
        }
        None
    }

    /// The entry of `pid`, if it is online.
    pub fn get_active(&self, pid: PlayerId) -> (r: Option<ActivePlayer>)
        requires
            self.wf(),
        ensures
            r == self.active(pid),
    {
        proof {
            lemma_find_active(self.active@, pid);
        }
        match self.find_index(pid) {
            Some(i) => Some(self.active[i].1),
            None => None,
        }
    }

    /// `pid` is online.
    pub fn is_player_active(&self, pid: PlayerId) -> (r: bool)
        requires
            self.wf(),
        ensures
            r == self.active(pid) is Some,
    {
        self.get_active(pid).is_some()
    }

    /// How many players are online.
    pub fn online_count(&self) -> (r: usize)
        ensures
            r == self.active_entries().len(),
    {
        self.active.len()
    }

    /// The current session of `pid`, if it is online.
    pub fn active_session_for_player(&self, pid: PlayerId) -> (r: Option<SessionId>)
        requires
            self.wf(),
        ensures
            r == (match self.active(pid) {
                Some(a) => Some(a.session_id),
                None => None,
            }),
    {
        match self.get_active(pid) {
            Some(a) => Some(a.session_id),
            None => None,
        }
    }

    /// The entity of `pid` when its current session is `session_id`.
    pub fn active_player_entity_for_session(&self, pid: PlayerId, session_id: SessionId) -> (r:
        Option<EntityId>)
        requires
            self.wf(),
        ensures
            r == (match self.active(pid) {
                Some(a) => if a.session_id == session_id {
                    Some(a.entity)
                } else {
                    None
                },
                None => None,
            }),
    {
        match self.get_active(pid) {
            Some(a) => if a.session_id.0 == session_id.0 {
                Some(a.entity)
            } else {
                None
            },
            None => None,
        }
    }

    /// Marks `pid` online with entity `entity` and session `session_id`,
    /// replacing an earlier entry of the player.
    pub fn register_active_player(&mut self, pid: PlayerId, entity: EntityId, session_id: SessionId)
        requires
            old(self).wf(),
        ensures
            final(self).wf(),
            final(self).active(pid) == Some(ActivePlayer { entity, session_id }),
            forall|q: PlayerId| q != pid ==> final(self).active(q) == old(self).active(q),
            final(self).chunk_entries() == old(self).chunk_entries(),
    {
        let a = ActivePlayer { entity, session_id };
        let ghost o = self.active@;
        proof {
            lemma_find_active(o, pid);
        }
        let ghost mut at: int = 0;
        match self.find_index(pid) {
            Some(i) => {
                self.active.set(i, (pid, a));
                proof {
                    at = i as int;
                }
            },
            None => {
                self.active.push((pid, a));
                proof {
                    at = o.len() as int;
                }
            },
        }
        proof {
            let s = self.active@;
            assert(s[at] == (pid, a));
            assert forall|x: int, y: int| 0 <= x < y < s.len() implies (#[trigger] s[x]).0 != (
            #[trigger] s[y]).0 by {
                if y == o.len() {
                    assert(s[x] == o[x]);
                } else {
                    if x < o.len() && y < o.len() {
                        assert(o[x].0 != o[y].0);
                    }
                }
            }
            lemma_find_active(s, pid);
            assert forall|q: PlayerId| q != pid implies find_active(s, q) == find_active(o, q) by {
                lemma_find_active(s, q);
                lemma_find_active(o, q);
                if exists|j: int| 0 <= j < o.len() && (#[trigger] o[j]).0 == q {
                    let j = choose|j: int| 0 <= j < o.len() && (#[trigger] o[j]).0 == q;
                    assert(s[j] == o[j]);
                } else {
                    assert forall|j: int| 0 <= j < s.len() implies (#[trigger] s[j]).0 != q by {
                        if j < o.len() {
                            assert(s[j] == o[j] || s[j].0 == pid);
                        }
                    }
                }
            }
        }
    }

    /// Takes `pid` offline; returns its entry.
    pub fn remove_active_player(&mut self, pid: PlayerId) -> (r: Option<ActivePlayer>)
        requires
            old(self).wf(),
        ensures
            final(self).wf(),
            r == old(self).active(pid),
            final(self).active(pid) is None,
            forall|q: PlayerId| q != pid ==> final(self).active(q) == old(self).active(q),
            final(self).chunk_entries() == old(self).chunk_entries(),
    {
        let ghost o = self.active@;
        proof {
            lemma_find_active(o, pid);
        }
        match self.find_index(pid) {
            None => None,
            Some(i) => {
                let e = self.active.remove(i);
                proof {
                    let s = self.active@;
                    assert(s =~= o.remove(i as int));
                    assert forall|x: int, y: int| 0 <= x < y < s.len() implies (#[trigger] s[x]).0
                        != (#[trigger] s[y]).0 by {
                        let ox = if x < i { x } else { x + 1 };
                        let oy = if y < i { y } else { y + 1 };
                        assert(s[x] == o[ox] && s[y] == o[oy]);
                    }
                    lemma_find_active(s, pid);
                    assert forall|j: int| 0 <= j < s.len() implies (#[trigger] s[j]).0 != pid by {
                        let oj = if j < i { j } else { j + 1 };
                        assert(s[j] == o[oj]);
                    }
                    assert forall|q: PlayerId| q != pid implies find_active(s, q) == find_active(o, q) by {
                        lemma_find_active(s, q);
                        lemma_find_active(o, q);
                        if exists|j: int| 0 <= j < o.len() && (#[trigger] o[j]).0 == q {
                            let j = choose|j: int| 0 <= j < o.len() && (#[trigger] o[j]).0 == q;
                            assert(j != i);
                            let sj = if j < i { j } else { j - 1 };
                            assert(s[sj] == o[j]);
                        } else {
                            assert forall|j: int| 0 <= j < s.len() implies (#[trigger] s[j]).0 != q by {
                                let oj = if j < i { j } else { j + 1 };
                                assert(s[j] == o[oj]);
                            }
                        }
                    }
                }
                Some(e.1)
            },
        }
    }

    /// Registers `pid` in chunk `c` (once).
    pub fn register_player_chunk(&mut self, pid: PlayerId, c: ChunkPos)
        requires
            old(self).wf(),
        ensures
            final(self).wf(),
            final(self).chunk_entries() == (if old(self).chunk_entries().contains((c, pid)) {
                old(self).chunk_entries()
            } else {
                old(self).chunk_entries().push((c, pid))
            }),
            final(self).active_entries() == old(self).active_entries(),
    {
        let mut i: usize = 0;
        while i < self.chunk_players.len()
            invariant
                self.wf(),
                i <= self.chunk_players@.len(),
                forall|j: int| 0 <= j < i ==> self.chunk_players@[j] != (c, pid),
            decreases self.chunk_players@.len() - i,
        {
            let e = self.chunk_players[i];
            if e.0.0 == c.0 && e.0.1 == c.1 && e.1.0 == pid.0 {
                assert(self.chunk_players@[i as int] == (c, pid));
                return;
            }
            i = i + 1;
        }
        let ghost o = self.chunk_players@;
        self.chunk_players.push((c, pid));
        proof {
            assert forall|x: int, y: int|
                0 <= x < self.chunk_players@.len() && 0 <= y < self.chunk_players@.len() && x != y implies
                self.chunk_players@[x] != self.chunk_players@[y] by {
                if x < o.len() && y < o.len() {
                    assert(o.no_duplicates());
                }
            }
        }
    }

    /// Removes `pid` from chunk `c`.
    pub fn unregister_player_from_chunk(&mut self, pid: PlayerId, c: ChunkPos)
        requires
            old(self).wf(),
        ensures
            final(self).wf(),
            final(self).chunk_entries() == old(self).chunk_entries().filter(
                |e: (ChunkPos, PlayerId)| e != (c, pid),
            ),
            final(self).active_entries() == old(self).active_entries(),
    {
        let ghost o = self.chunk_players@;
        let mut kept: Vec<(ChunkPos, PlayerId)> = Vec::new();
        let mut i: usize = 0;
        while i < self.chunk_players.len()
            invariant
                o == self.chunk_players@,
                o.no_duplicates(),
                i <= o.len(),
                kept@ == o.take(i as int).filter(|e: (ChunkPos, PlayerId)| e != (c, pid)),
            decreases o.len() - i,
        {
            let e = self.chunk_players[i];
            proof {
                assert(o.take(i + 1).drop_last() =~= o.take(i as int));
                reveal(Seq::filter);
            }
            if !(e.0.0 == c.0 && e.0.1 == c.1 && e.1.0 == pid.0) {
                kept.push(e);
            }
            i = i + 1;
        }
        assert(o.take(o.len() as int) =~= o);
        self.chunk_players = kept;
        proof {
            let f = |e: (ChunkPos, PlayerId)| e != (c, pid);
            assert forall|x: int, y: int|
                0 <= x < kept@.len() && 0 <= y < kept@.len() && x != y implies kept@[x] != kept@[y] by {
                lemma_filter_distinct(o, f, x, y);
            }
        }
    }

    /// The players registered in chunk `c`, in registration order.
    pub fn players_in_chunk(&self, c: ChunkPos) -> (r: Vec<PlayerId>)
        ensures
            r@ == members_of(self.chunk_entries(), c),
    {
        let s = &self.chunk_players;
        let mut out: Vec<PlayerId> = Vec::new();
        let mut i: usize = 0;
        while i < s.len()
            invariant
                i <= s@.len(),
                out@ == members_of(s@.take(i as int), c),
            decreases s@.len() - i,
        {
            let e = s[i];
            proof {
                assert(s@.take(i + 1).drop_last() =~= s@.take(i as int));
                reveal(Seq::filter);
            }
            if e.0.0 == c.0 && e.0.1 == c.1 {
                out.push(e.1);
            }
            proof {
                let f = |e: (ChunkPos, PlayerId)| e.0 == c;
                let g = |e: (ChunkPos, PlayerId)| e.1;
                let before = s@.take(i as int).filter(f);
                let after = s@.take(i + 1).filter(f);
                if f(e) {
                    assert(after == before.push(e));
                    assert(after.map_values(g) =~= before.map_values(g).push(e.1));
                } else {
                    assert(after == before);
                }
            }
            i = i + 1;
        }
        assert(s@.take(s@.len() as int) =~= s@);
        out
    }

    /// The sessions of the active players among `players`, leaving out
    /// `exclude`, in order.
    pub fn sessions_of_players(&self, players: &Vec<PlayerId>, exclude: Option<PlayerId>) -> (r: Vec<
        SessionId,
    >)
        requires
            self.wf(),
        ensures
            r@ == sessions_of(players@, exclude, self.active_entries()),
    {
        let mut out: Vec<SessionId> = Vec::new();
        let mut i: usize = 0;
        while i < players.len()
            invariant
                self.wf(),
                i <= players@.len(),
                out@ == sessions_of(players@.take(i as int), exclude, self.active_entries()),
            decreases players@.len() - i,
        {
            let p = players[i];
            proof {
                assert(players@.take(i + 1).drop_last() =~= players@.take(i as int));
            }
            let excluded = match exclude {
                Some(x) => x.0 == p.0,
                None => false,
            };
            if !excluded {
                match self.get_active(p) {
                    Some(a) => out.push(a.session_id),
                    None => {},
                }
            }
            i = i + 1;
        }
        assert(players@.take(players@.len() as int) =~= players@);
        out
    }

    /// The sessions of the active players in chunk `c`, leaving out `exclude`.
    pub fn session_ids_in_chunk(&self, c: ChunkPos, exclude: Option<PlayerId>) -> (r: Vec<SessionId>)
        requires
            self.wf(),
        ensures
            r@ == sessions_of(members_of(self.chunk_entries(), c), exclude, self.active_entries()),
    {
        let ps = self.players_in_chunk(c);
        self.sessions_of_players(&ps, exclude)
    }

    /// The sessions of the active players in the chunks `visible`, chunk by
    /// chunk, leaving out `exclude`.
    pub fn nearby_session_ids(&self, visible: &Vec<(u32, u32)>, exclude: Option<PlayerId>) -> (r: Vec<
        SessionId,
    >)
        requires
            self.wf(),
        ensures
            r@ == sessions_of(
                nearby_players(self.chunk_entries(), visible@),
                exclude,
                self.active_entries(),
            ),
    {
        let mut players: Vec<PlayerId> = Vec::new();
        let mut i: usize = 0;
        while i < visible.len()
            invariant
                self.wf(),
                i <= visible@.len(),
                players@ == nearby_players(self.chunk_entries(), visible@.take(i as int)),
            decreases visible@.len() - i,
        {
            let (cx, cy) = visible[i];
            let mut more = self.players_in_chunk(ChunkPos(cx, cy));
            proof {
                assert(visible@.take(i + 1).drop_last() =~= visible@.take(i as int));
            }
            players.append(&mut more);
            i = i + 1;
        }
        assert(visible@.take(visible@.len() as int) =~= visible@);
        self.sessions_of_players(&players, exclude)
    }
}

/// What a disconnect hands back: what becomes of the entity, whether the
/// player's stored row is saved, and the sessions told that the player's
/// bot left (`None` when the disconnect did nothing).
#[derive(Clone, Debug)]
pub struct DisconnectEffects {
    pub plan: DisconnectPlan,
    pub save_row: bool,
    pub fanout: Option<Vec<SessionId>>,
}

/// `session_id` is the current session of the online player `pid`.
pub open spec fn is_current_session(p: Presence, pid: PlayerId, session_id: SessionId) -> bool {
    p.active(pid) matches Some(a) && a.session_id == session_id
}

impl Presence {
    /// A disconnect in the game tick for `pid` on `session_id`, the player's
    /// bot standing in `chunk` and seen from the chunks `visible`. A stale
    /// session (the player is offline or has reconnected) changes nothing.
    /// Otherwise the player goes offline and leaves the chunk, its row is
    /// saved when the entity has one (`has_row`), the players still online
    /// in view are told, and the entity is kept while its programmator runs.
    pub fn disconnect_in_tick(
        &mut self,
        pid: PlayerId,
        session_id: SessionId,
        chunk: (u32, u32),
        visible: &Vec<(u32, u32)>,
        programmator_running: bool,
        has_row: bool,
    ) -> (r: DisconnectEffects)
        requires
            old(self).wf(),
        ensures
            final(self).wf(),
            !is_current_session(*old(self), pid, session_id) ==> {
                &&& final(self).active_entries() == old(self).active_entries()
                &&& final(self).chunk_entries() == old(self).chunk_entries()
                &&& r.plan == DisconnectPlan::Stale
                &&& !r.save_row
                &&& r.fanout is None
            },
            is_current_session(*old(self), pid, session_id) ==> {
                &&& r.plan == (if programmator_running {
                    DisconnectPlan::KeepOffline
                } else {
                    DisconnectPlan::Despawn
                })
                &&& r.save_row == has_row
                &&& final(self).active(pid) is None
                &&& forall|q: PlayerId| q != pid ==> #[trigger] final(self).active(q) == old(self).active(q)
                &&& final(self).chunk_entries() == old(self).chunk_entries().filter(
                    |e: (ChunkPos, PlayerId)| e != (ChunkPos(chunk.0, chunk.1), pid),
                )
                &&& r.fanout matches Some(v) && v@ == sessions_of(
                    nearby_players(old(self).chunk_entries(), visible@),
                    None,
                    final(self).active_entries(),
                )
            },
    {
        let current = self.active_player_entity_for_session(pid, session_id).is_some();
        let plan = disconnect_plan(current, programmator_running);
        if !current {
            return DisconnectEffects { plan, save_row: false, fanout: None };
        }
        self.remove_active_player(pid);
        let recipients = self.nearby_session_ids(visible, None);
        self.unregister_player_from_chunk(pid, ChunkPos(chunk.0, chunk.1));
        DisconnectEffects { plan, save_row: has_row, fanout: Some(recipients) }
    }
}

/// Once a disconnect has taken a player offline, a second disconnect on the
/// same session is stale and does nothing.
pub proof fn lemma_disconnect_leaves_session_stale(p: Presence, pid: PlayerId, session_id: SessionId)
    requires
        p.active(pid) is None,
    ensures
        !is_current_session(p, pid, session_id),
{
}

/// The players of the chunks `chunks`, chunk by chunk.
pub open spec fn nearby_players(entries: Seq<(ChunkPos, PlayerId)>, chunks: Seq<(u32, u32)>) -> Seq<
    PlayerId,
>
    decreases chunks.len(),
{
    if chunks.len() == 0 {
        Seq::empty()
    } else {
        nearby_players(entries, chunks.drop_last()) + members_of(
            entries,
            ChunkPos(chunks.last().0, chunks.last().1),
        )
    }
}

proof fn lemma_filter_distinct<A>(s: Seq<A>, f: spec_fn(A) -> bool, x: int, y: int)
    requires
        s.no_duplicates(),
        0 <= x < s.filter(f).len(),
        0 <= y < s.filter(f).len(),
        x != y,
    ensures
        s.filter(f)[x] != s.filter(f)[y],
    decreases s.len(),
{
    reveal(Seq::filter);
    let t = s.drop_last();
    assert(t.no_duplicates()) by {
        assert forall|a: int, b: int| 0 <= a < t.len() && 0 <= b < t.len() && a != b implies t[a]
            != t[b] by {
            assert(t[a] == s[a] && t[b] == s[b]);
        }
    }
    let ft = t.filter(f);
    if f(s.last()) {
        assert(s.filter(f) == ft.push(s.last()));
        if x < ft.len() && y < ft.len() {
            lemma_filter_distinct(t, f, x, y);
        } else {
            let k = if x < ft.len() { x } else { y };
            assert(ft.contains(ft[k]));
            t.lemma_filter_contains_rev(f, ft[k]);
            let j = choose|j: int| 0 <= j < t.len() && t[j] == ft[k];
            assert(s[j] == t[j]);
            assert(s[s.len() - 1] != s[j]);
        }
    } else {
        assert(s.filter(f) == ft);
        lemma_filter_distinct(t, f, x, y);
    }
}

/// A pending bot-render pass still belongs to the player's current session.
pub open spec fn pass_is_current(active: Seq<(PlayerId, ActivePlayer)>, d: BotsRenderDue) -> bool {
    match find_active(active, d.player_id) {
        Some(a) => a.session_id.0 == d.session_token,
        None => false,
    }
}

impl Presence {
    fn is_current(&self, d: BotsRenderDue) -> (r: bool)
        requires
            self.wf(),
        ensures
            r == pass_is_current(self.active_entries(), d),
    {
        match self.get_active(d.player_id) {
            Some(a) => a.session_id.0 == d.session_token,
            None => false,
        }
    }

    /// Takes the bot-render passes due at `now`, earliest first, until
    /// `limit` passes of current sessions are collected; passes of players
    /// who left or reconnected are dropped on the way. When fewer than
    /// `limit` come back, no pass left is due.
    pub fn take_due_bots_render(&self, schedule: &mut BotsRenderSchedule, now: u64, limit: usize) -> (r:
        Vec<BotsRenderDue>)
        requires
            self.wf(),
            old(schedule).wf(),
        ensures
            final(schedule).wf(),
            ({
                let p = old(schedule).pending();
                let n = p.len() - final(schedule).pending().len();
                &&& 0 <= n <= p.len()
                &&& final(schedule).pending() == p.skip(n)
                &&& forall|i: int| 0 <= i < n ==> (#[trigger] p[i]).due_at <= now
                &&& r@ == p.take(n).filter(|d: BotsRenderDue| pass_is_current(self.active_entries(), d))
                &&& r@.len() <= limit
                &&& r@.len() < limit ==> (n == p.len() || p[n].due_at > now)
            }),
    {
        let ghost p = schedule.pending();
        let ghost f = |d: BotsRenderDue| pass_is_current(self.active_entries(), d);
        let mut due: Vec<BotsRenderDue> = Vec::new();
        let ghost mut n: int = 0;
        assert(p.skip(0) =~= p);
        while due.len() < limit
            invariant_except_break
                due@.len() <= limit,
            invariant
                self.wf(),
                schedule.wf(),
                f == (|d: BotsRenderDue| pass_is_current(self.active_entries(), d)),
                p == old(schedule).pending(),
                0 <= n <= p.len(),
                schedule.pending() == p.skip(n),
                forall|i: int| 0 <= i < n ==> (#[trigger] p[i]).due_at <= now,
                due@ == p.take(n).filter(f),
                due@.len() <= limit,
            ensures
                due@.len() <= limit,
                schedule.wf(),
                0 <= n <= p.len(),
                schedule.pending() == p.skip(n),
                forall|i: int| 0 <= i < n ==> (#[trigger] p[i]).due_at <= now,
                due@ == p.take(n).filter(f),
                due@.len() < limit ==> (n == p.len() || p[n].due_at > now),
            decreases p.len() - n,
        {
            match schedule.pop_due(now) {
                None => {
                    proof {
                        if n < p.len() {
                            assert(p.skip(n)[0] == p[n]);
                        }
                    }
                    break;
                },
                Some(c) => {
                    proof {
                        assert(p.skip(n)[0] == p[n]);
                        assert(p.skip(n).drop_first() =~= p.skip(n + 1));
                        assert(p.take(n + 1).drop_last() =~= p.take(n));
                        reveal(Seq::filter);
                    }
                    if self.is_current(c) {
                        due.push(c);
                    }
                    proof {
                        n = n + 1;
                    }
                },
            }
        }
        proof {
            assert(p.len() - schedule.pending().len() == n);
        }
        due
    }

    /// Schedules the next bot-render pass of `due` at `next_at`, unless the
    /// player left or reconnected meanwhile.
    pub fn reschedule_bots_render(&self, schedule: &mut BotsRenderSchedule, due: BotsRenderDue, next_at: u64)
        requires
            self.wf(),
            old(schedule).wf(),
        ensures
            final(schedule).wf(),
            pass_is_current(self.active_entries(), due) ==> exists|k: int|
                0 <= k <= old(schedule).pending().len() && final(schedule).pending() == old(
                    schedule,
                ).pending().insert(k, BotsRenderDue { due_at: next_at, ..due }),
            !pass_is_current(self.active_entries(), due) ==> final(schedule).pending() == old(
                schedule,
            ).pending(),
    {
        if self.is_current(due) {
            schedule.schedule(BotsRenderDue { due_at: next_at, ..due });
        }
    }
}

/// The delay before a newly registered player's first bot-render pass:
/// registrations are spread over the slots (game ticks) of one render
/// interval, round robin by registration number `seq`.
pub open spec fn spec_first_render_delay(tick_rate_ms: u64, interval_ms: u64, seq: u64) -> int {
    let tick: int = if tick_rate_ms < 1 {
        1
    } else {
        tick_rate_ms as int
    };
    let per: int = (interval_ms as int) / tick;
    let slots: int = if per < 1 {
        1
    } else {
        per
    };
    let d = tick * ((seq as int) % slots + 1);
    if d > u64::MAX {
        u64::MAX as int
    } else {
        d
    }
}

pub fn first_render_delay(tick_rate_ms: u64, interval_ms: u64, seq: u64) -> (r: u64)
    ensures
        r == spec_first_render_delay(tick_rate_ms, interval_ms, seq),
{
    let tick: u64 = if tick_rate_ms < 1 {
        1
    } else {
        tick_rate_ms
    };
    let per = interval_ms / tick;
    let slots: u64 = if per < 1 {
        1
    } else {
        per
    };
    let slot = seq % slots + 1;
    tick.checked_mul(slot).unwrap_or(u64::MAX)
}

} // verus!
