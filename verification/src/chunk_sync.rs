//! Keeping a player's view of the world in step when it crosses a chunk
//! border: which chunks come into and go out of view, how the chunk index
//! of the player changes, and how the map sub-packets are bundled.
use vstd::prelude::*;
use crate::chunks::{CHUNK_VIEW_RADIUS, cast_signed, visible_chunks_around, visible_prefix};
use crate::ids::{ChunkPos, PlayerId, SessionId};
use crate::packs::PackOverlay;
use crate::presence::{Presence, lemma_members_of_contains, members_of, sessions_of};

verus! {

/// Chunks that came into view (in the order of the new view) and chunks
/// that went out of view (in the order of the old view).
pub struct ChunkViewDiff {
    pub entered: Vec<(u32, u32)>,
    pub left: Vec<(u32, u32)>,
}

/// The entries of `a` that do not occur in `b`, in order.
pub open spec fn missing_from(a: Seq<(u32, u32)>, b: Seq<(u32, u32)>) -> Seq<(u32, u32)> {
    a.filter(|c: (u32, u32)| !b.contains(c))
}

fn contains_chunk(v: &Vec<(u32, u32)>, c: (u32, u32)) -> (r: bool)
    ensures
        r == v@.contains(c),
{
    let mut i: usize = 0;
    while i < v.len()
        invariant
            i <= v@.len(),
            forall|j: int| 0 <= j < i ==> v@[j] != c,
        decreases v@.len() - i,
    {
        let e = v[i];
        if e.0 == c.0 && e.1 == c.1 {
            assert(v@[i as int] == c);
            return true;
        }
        i = i + 1;
    }
    false
}

fn keep_missing(a: &Vec<(u32, u32)>, b: &Vec<(u32, u32)>) -> (r: Vec<(u32, u32)>)
    ensures
        r@ == missing_from(a@, b@),
{
    let mut out: Vec<(u32, u32)> = Vec::new();
    let mut i: usize = 0;
    while i < a.len()
        invariant
            i <= a@.len(),
            out@ == missing_from(a@.take(i as int), b@),
        decreases a@.len() - i,
    {
        let c = a[i];
        proof {
            assert(a@.take(i + 1).drop_last() =~= a@.take(i as int));
            reveal(Seq::filter);
        }
        if !contains_chunk(b, c) {
            out.push(c);
        }
        i = i + 1;
    }
    assert(a@.take(a@.len() as int) =~= a@);
    out
}

/// Compares the chunks seen before and after a move.
pub fn chunk_view_diff(old_visible: &Vec<(u32, u32)>, new_visible: &Vec<(u32, u32)>) -> (r:
    ChunkViewDiff)
    ensures
        r.entered@ == missing_from(new_visible@, old_visible@),
        r.left@ == missing_from(old_visible@, new_visible@),
{
    ChunkViewDiff {
        entered: keep_missing(new_visible, old_visible),
        left: keep_missing(old_visible, new_visible),
    }
}

/// A change of the chunk a player is indexed under.
#[derive(Clone, Copy, Debug, PartialEq, Eq)]
pub struct ChunkMove {
    /// The chunk to take the player out of; `None` on the first placement.
    pub from: Option<(u32, u32)>,
    /// The chunk to put the player in.
    pub to: (u32, u32),
}

pub open spec fn spec_chunk_registration_change(prev: Option<(u32, u32)>, current: (u32, u32)) -> Option<
    ChunkMove,
> {
    match prev {
        None => Some(ChunkMove { from: None, to: current }),
        Some(p) => if p != current {
            Some(ChunkMove { from: Some(p), to: current })
        } else {
            None
        },
    }
}

/// How the chunk index of a player changes when its last known chunk was
/// `prev` and it now stands in `current`: a first placement registers it
/// without removing it from anywhere (also in chunk `(0, 0)`), a move
/// re-registers it, staying put changes nothing.
pub fn chunk_registration_change(prev: Option<(u32, u32)>, current: (u32, u32)) -> (r: Option<
    ChunkMove,
>)
    ensures
        r == spec_chunk_registration_change(prev, current),
{
    match prev {
        None => Some(ChunkMove { from: None, to: current }),
        Some(p) => if p.0 != current.0 || p.1 != current.1 {
            Some(ChunkMove { from: Some(p), to: current })
        } else {
            None
        },
    }
}

/// The chunk index changes exactly when the player is new or its chunk
/// differs from the last known one in either coordinate; a change always
/// moves it from its last known chunk (none on first placement) into the
/// chunk it stands in, and once registered there, asking again with the
/// same chunk changes nothing.
pub proof fn lemma_chunk_registration_rules(prev: Option<(u32, u32)>, current: (u32, u32))
    ensures
        spec_chunk_registration_change(prev, current) is None <==> (prev matches Some(p) && p.0
            == current.0 && p.1 == current.1),
        spec_chunk_registration_change(prev, current) matches Some(m) ==> m.from == prev && m.to
            == current,
        spec_chunk_registration_change(Some(current), current) is None,
{
}

/// The wire origin of a chunk row or column: `32 * c`, capped at `u16::MAX`.
pub fn chunk_origin_u16(c: u32) -> (r: u16)
    ensures
        r == (if 32 * c <= 0xffff {
            32 * c
        } else {
            0xffff
        }),
{
    if c <= 2047 {
        (c * 32) as u16
    } else {
        0xffff
    }
}

/// All sub-packets of a list of bundles, in order.
pub open spec fn flatten_bundles(b: Seq<Vec<Vec<u8>>>) -> Seq<Vec<u8>>
    decreases b.len(),
{
    if b.len() == 0 {
        Seq::empty()
    } else {
        flatten_bundles(b.drop_last()) + b.last()@
    }
}

/// Total byte length of some sub-packets.
pub open spec fn total_bytes(p: Seq<Vec<u8>>) -> int
    decreases p.len(),
{
    if p.len() == 0 {
        0
    } else {
        total_bytes(p.drop_last()) + p.last()@.len()
    }
}

/// `n`, capped at `usize::MAX`.
pub open spec fn capped(n: int) -> int {
    if n > usize::MAX {
        usize::MAX as int
    } else {
        n
    }
}

proof fn lemma_total_bytes_nonneg(p: Seq<Vec<u8>>)
    ensures
        total_bytes(p) >= 0,
    decreases p.len(),
{
    if p.len() > 0 {
        lemma_total_bytes_nonneg(p.drop_last());
    }
}

/// Collects map sub-packets into `HB` bundles: a bundle is closed at the
/// end of a chunk once it holds `max_packets` sub-packets or `max_bytes`
/// bytes, and the last one when the sync ends.
pub struct HbBundler {
    max_packets: usize,
    max_bytes: usize,
    pending: Vec<Vec<u8>>,
    pending_bytes: usize,
    closed: Vec<Vec<Vec<u8>>>,
}

impl HbBundler {
    /// Every sub-packet pushed so far, in order.
    pub closed spec fn pushed(&self) -> Seq<Vec<u8>> {
        flatten_bundles(self.closed@) + self.pending@
    }

    /// Sub-packets not yet in a closed bundle.
    pub closed spec fn open_packets(&self) -> Seq<Vec<u8>> {
        self.pending@
    }

    /// The closed bundles.
    pub closed spec fn bundles(&self) -> Seq<Vec<Vec<u8>>> {
        self.closed@
    }

    /// The sub-packet and byte limits of a bundle.
    pub closed spec fn limits(&self) -> (usize, usize) {
        (self.max_packets, self.max_bytes)
    }

    pub closed spec fn wf(&self) -> bool {
        &&& self.pending_bytes == capped(total_bytes(self.pending@))
        &&& forall|i: int| 0 <= i < self.closed@.len() ==> (#[trigger] self.closed@[i])@.len() > 0
    }

    pub fn new(max_packets: usize, max_bytes: usize) -> (r: Self)
        ensures
            r.wf(),
            r.pushed() == Seq::<Vec<u8>>::empty(),
            r.bundles() == Seq::<Vec<Vec<u8>>>::empty(),
            r.limits() == (max_packets, max_bytes),
    {
        let r = HbBundler {
            max_packets,
            max_bytes,
            pending: Vec::new(),
            pending_bytes: 0,
            closed: Vec::new(),
        };
        assert(flatten_bundles(r.closed@) + r.pending@ =~= Seq::<Vec<u8>>::empty());
        r
    }

    /// Adds one sub-packet to the open bundle.
    pub fn push(&mut self, packet: Vec<u8>)
        requires
            old(self).wf(),
        ensures
            final(self).wf(),
            final(self).pushed() == old(self).pushed().push(packet),
            final(self).open_packets() == old(self).open_packets().push(packet),
            final(self).bundles() == old(self).bundles(),
            final(self).limits() == old(self).limits(),
    {
        let len = packet.len();
        let ghost before = self.pending@;
        let ghost p = packet;
        self.pending.push(packet);
        proof {
            assert(self.pending@.drop_last() =~= before);
            lemma_total_bytes_nonneg(before);
            assert(total_bytes(self.pending@) == total_bytes(before) + p@.len());
        }
        self.pending_bytes = self.pending_bytes.saturating_add(len);
        assert(flatten_bundles(self.closed@) + self.pending@ =~= (flatten_bundles(self.closed@)
            + before).push(p));
    }

    fn close_open(&mut self)
        requires
            old(self).wf(),
            old(self).pending@.len() > 0,
        ensures
            final(self).wf(),
            final(self).pushed() == old(self).pushed(),
            final(self).limits() == old(self).limits(),
            final(self).closed@.len() == old(self).closed@.len() + 1,
            final(self).closed@.drop_last() == old(self).closed@,
            final(self).closed@.last()@ == old(self).pending@,
            final(self).pending@.len() == 0,
    {
        let mut bundle: Vec<Vec<u8>> = Vec::new();
        std::mem::swap(&mut bundle, &mut self.pending);
        let ghost before = self.closed@;
        self.closed.push(bundle);
        self.pending_bytes = 0;
        assert(self.closed@.drop_last() =~= before);
        assert(flatten_bundles(self.closed@) + self.pending@ =~= flatten_bundles(before)
            + bundle@);
    }

    /// Ends the sub-packets of one chunk: closes the open bundle when it
    /// holds at least `max_packets` sub-packets or `max_bytes` bytes.
    /// Reports whether a bundle was closed.
    pub fn end_chunk(&mut self) -> (r: bool)
        requires
            old(self).wf(),
        ensures
            final(self).wf(),
            final(self).pushed() == old(self).pushed(),
            final(self).limits() == old(self).limits(),
            r == (old(self).open_packets().len() > 0 && (old(self).open_packets().len()
                >= old(self).limits().0 || total_bytes(old(self).open_packets())
                >= old(self).limits().1)),
            r ==> final(self).bundles().drop_last() == old(self).bundles()
                && final(self).bundles().len() == old(self).bundles().len() + 1
                && final(self).bundles().last()@ == old(self).open_packets()
                && final(self).open_packets().len() == 0,
            !r ==> final(self).bundles() == old(self).bundles() && final(self).open_packets()
                == old(self).open_packets(),
    {
        if self.pending.len() > 0 && (self.pending.len() >= self.max_packets || self.pending_bytes
            >= self.max_bytes) {
            self.close_open();
            true
        } else {
            false
        }
    }

    /// Ends the sync: closes the open bundle if it holds anything and
    /// returns all bundles, each non-empty, holding every sub-packet pushed,
    /// in order.
    pub fn finish(self) -> (r: Vec<Vec<Vec<u8>>>)
        requires
            self.wf(),
        ensures
            flatten_bundles(r@) == self.pushed(),
            forall|i: int| 0 <= i < r@.len() ==> (#[trigger] r@[i])@.len() > 0,
            r@.len() == self.bundles().len() + (if self.open_packets().len() > 0 {
                1int
            } else {
                0int
            }),
            forall|i: int| 0 <= i < self.bundles().len() ==> r@[i] == self.bundles()[i],
    {
        let mut b = self;
        if b.pending.len() > 0 {
            b.close_open();
        } else {
            assert(flatten_bundles(b.closed@) + b.pending@ =~= flatten_bundles(b.closed@));
        }
        b.closed
    }
}


/// What a player sees: the chunk it was last placed in and the chunks in view.
#[derive(Clone, Debug)]
pub struct PlayerView {
    pub last_chunk: Option<(u32, u32)>,
    pub visible_chunks: Vec<(u32, u32)>,
}

/// The chunk index after `pid` moves from its last chunk `prev` (if any,
/// and unless it is the current one) to `current`.
pub open spec fn chunk_entries_after_move(
    entries: Seq<(ChunkPos, PlayerId)>,
    pid: PlayerId,
    prev: Option<(u32, u32)>,
    current: (u32, u32),
) -> Seq<(ChunkPos, PlayerId)> {
    let base = match prev {
        Some(p) => entries.filter(|e: (ChunkPos, PlayerId)| e != (ChunkPos(p.0, p.1), pid)),
        None => entries,
    };
    let here = (ChunkPos(current.0, current.1), pid);
    if base.contains(here) {
        base
    } else {
        base.push(here)
    }
}

/// The chunk view of a player now standing in chunk `current` of a
/// `chunks_w × chunks_h` chunk world. When it is still the chunk last
/// placed in, nothing changes and nothing is to be sent. Otherwise the
/// chunks that came into and went out of view are returned, the view
/// becomes the chunks around `current`, and the player is moved in the
/// chunk index from its last chunk (none right after spawning, also in
/// chunk `(0, 0)`) to `current`.
pub fn prepare_chunk_changed(
    presence: &mut Presence,
    pid: PlayerId,
    view: &mut PlayerView,
    current: (u32, u32),
    chunks_w: u32,
    chunks_h: u32,
) -> (r: Option<ChunkViewDiff>)
    requires
        old(presence).wf(),
        i32::MIN + CHUNK_VIEW_RADIUS <= cast_signed(current.0) <= i32::MAX - CHUNK_VIEW_RADIUS,
        i32::MIN + CHUNK_VIEW_RADIUS <= cast_signed(current.1) <= i32::MAX - CHUNK_VIEW_RADIUS,
    ensures
        final(presence).wf(),
        final(presence).active_entries() == old(presence).active_entries(),
        old(view).last_chunk == Some(current) ==> {
            &&& r is None
            &&& final(view).last_chunk == old(view).last_chunk
            &&& final(view).visible_chunks@ == old(view).visible_chunks@
            &&& final(presence).chunk_entries() == old(presence).chunk_entries()
        },
        old(view).last_chunk != Some(current) ==> {
            let nv = visible_prefix(
                cast_signed(current.0),
                cast_signed(current.1),
                cast_signed(chunks_w),
                cast_signed(chunks_h),
                25,
            );
            &&& r matches Some(d) && d.entered@ == missing_from(nv, old(view).visible_chunks@) && d.left@
                == missing_from(old(view).visible_chunks@, nv)
            &&& final(view).last_chunk == Some(current)
            &&& final(view).visible_chunks@ == nv
            &&& final(presence).chunk_entries() == chunk_entries_after_move(
                old(presence).chunk_entries(),
                pid,
                old(view).last_chunk,
                current,
            )
            &&& members_of(final(presence).chunk_entries(), ChunkPos(current.0, current.1)).contains(pid)
            &&& (old(view).last_chunk matches Some(p) ==> !final(presence).chunk_entries().contains(
                (ChunkPos(p.0, p.1), pid),
            ))
        },
{
    let prev = view.last_chunk;
    let same = match prev {
        Some(p) => p.0 == current.0 && p.1 == current.1,
        None => false,
    };
    if same {
        return None;
    }
    let new_visible = visible_chunks_around(current.0, current.1, chunks_w, chunks_h);
    let diff = chunk_view_diff(&view.visible_chunks, &new_visible);
    let ghost before = presence.chunk_entries();
    match prev {
        Some(p) => presence.unregister_player_from_chunk(pid, ChunkPos(p.0, p.1)),
        None => {},
    }
    let ghost base = presence.chunk_entries();
    presence.register_player_chunk(pid, ChunkPos(current.0, current.1));
    view.last_chunk = Some(current);
    view.visible_chunks = new_visible;
    proof {
        broadcast use vstd::seq_lib::group_filter_ensures;
        let c = ChunkPos(current.0, current.1);
        let here = (c, pid);
        let fin = presence.chunk_entries();
        assert(fin.contains(here)) by {
            if !base.contains(here) {
                assert(fin[fin.len() - 1] == here);
            }
        }
        lemma_members_of_contains(fin, c, pid);
        if let Some(p) = prev {
            let gone = (ChunkPos(p.0, p.1), pid);
            assert(!base.contains(gone)) by {
                if base.contains(gone) {
                    let q = choose|q: int| 0 <= q < base.len() && base[q] == gone;
                }
            }
            assert(gone != here);
            assert(!fin.contains(gone)) by {
                if fin.contains(gone) {
                    let q = choose|q: int| 0 <= q < fin.len() && fin[q] == gone;
                    if !base.contains(here) && q == fin.len() - 1 {
                    } else {
                        assert(base[q] == gone);
                    }
                }
            }
        }
    }
    Some(diff)
}


/// The entries of `s`, each once, in the order of their first occurrence.
pub open spec fn first_occurrences(s: Seq<i32>) -> Seq<i32>
    decreases s.len(),
{
    if s.len() == 0 {
        Seq::empty()
    } else {
        let prev = first_occurrences(s.drop_last());
        if s.drop_last().contains(s.last()) {
            prev
        } else {
            prev.push(s.last())
        }
    }
}

proof fn lemma_first_occurrences_members(s: Seq<i32>)
    ensures
        forall|x: i32| first_occurrences(s).contains(x) <==> s.contains(x),
    decreases s.len(),
{
    if s.len() > 0 {
        let t = s.drop_last();
        lemma_first_occurrences_members(t);
        let ft = first_occurrences(t);
        assert forall|x: i32| first_occurrences(s).contains(x) <==> s.contains(x) by {
            assert(s =~= t.push(s.last()));
            if s.contains(x) {
                let k = choose|k: int| 0 <= k < s.len() && s[k] == x;
                if k < t.len() {
                    assert(t[k] == x);
                }
            }
            if t.contains(x) {
                let k = choose|k: int| 0 <= k < t.len() && t[k] == x;
                assert(s[k] == x);
            }
            assert(s[s.len() - 1] == s.last());
            if !t.contains(s.last()) {
                assert(first_occurrences(s) == ft.push(s.last()));
                if ft.contains(x) {
                    let k = choose|k: int| 0 <= k < ft.len() && ft[k] == x;
                    assert(ft.push(s.last())[k] == x);
                }
                if ft.push(s.last()).contains(x) && x != s.last() {
                    let k = choose|k: int| 0 <= k < ft.len() + 1 && ft.push(s.last())[k] == x;
                    assert(ft[k] == x);
                }
                assert(ft.push(s.last())[ft.len() as int] == s.last());
            }
        }
    }
}

fn contains_i32(v: &Vec<i32>, x: i32) -> (r: bool)
    ensures
        r == v@.contains(x),
{
    let mut i: usize = 0;
    while i < v.len()
        invariant
            i <= v@.len(),
            forall|j: int| 0 <= j < i ==> v@[j] != x,
        decreases v@.len() - i,
    {
        if v[i] == x {
            return true;
        }
        i = i + 1;
    }
    false
}

/// The blocks to clear when chunks leave view: the block of every
/// departing building, each block once, in the order first met.
pub fn cleared_blocks(blocks: &Vec<i32>) -> (r: Vec<i32>)
    ensures
        r@ == first_occurrences(blocks@),
{
    let mut out: Vec<i32> = Vec::new();
    let mut i: usize = 0;
    while i < blocks.len()
        invariant
            i <= blocks@.len(),
            out@ == first_occurrences(blocks@.take(i as int)),
        decreases blocks@.len() - i,
    {
        let b = blocks[i];
        proof {
            let t = blocks@.take(i + 1);
            assert(t.drop_last() =~= blocks@.take(i as int));
            lemma_first_occurrences_members(blocks@.take(i as int));
        }
        if !contains_i32(&out, b) {
            out.push(b);
        }
        i = i + 1;
    }
    proof {
        assert(blocks@.take(blocks@.len() as int) =~= blocks@);
    }
    out
}

/// The overlays of the buildings whose block is `b`, in order.
pub open spec fn packs_of_block(packs: Seq<(i32, PackOverlay)>, b: i32) -> Seq<PackOverlay>
    decreases packs.len(),
{
    if packs.len() == 0 {
        Seq::empty()
    } else {
        let prev = packs_of_block(packs.drop_last(), b);
        if packs.last().0 == b {
            prev.push(packs.last().1)
        } else {
            prev
        }
    }
}

/// The buildings in view grouped by block (`packs`: block and overlay, in
/// the order of the chunks in view), so that each block is sent once with
/// all its buildings: the blocks in the order first met, each with its
/// buildings in order.
pub fn group_packs_by_block(packs: &Vec<(i32, PackOverlay)>) -> (r: Vec<(i32, Vec<PackOverlay>)>)
    ensures
        r@.len() == first_occurrences(packs@.map_values(|p: (i32, PackOverlay)| p.0)).len(),
        forall|i: int| 0 <= i < r@.len() ==> (#[trigger] r@[i]).0 == first_occurrences(
            packs@.map_values(|p: (i32, PackOverlay)| p.0),
        )[i] && r@[i].1@ == packs_of_block(packs@, r@[i].0),
{
    let mut blocks: Vec<i32> = Vec::new();
    let mut i: usize = 0;
    while i < packs.len()
        invariant
            i <= packs@.len(),
            blocks@ == packs@.take(i as int).map_values(|p: (i32, PackOverlay)| p.0),
        decreases packs@.len() - i,
    {
        blocks.push(packs[i].0);
        proof {
            assert(packs@.take(i + 1).map_values(|p: (i32, PackOverlay)| p.0) =~= packs@.take(i as int).map_values(
                |p: (i32, PackOverlay)| p.0,
            ).push(packs@[i as int].0));
        }
        i = i + 1;
    }
    proof {
        assert(packs@.take(packs@.len() as int) =~= packs@);
    }
    let keys = cleared_blocks(&blocks);
    let mut out: Vec<(i32, Vec<PackOverlay>)> = Vec::new();
    let mut k: usize = 0;
    while k < keys.len()
        invariant
            k <= keys@.len(),
            keys@ == first_occurrences(packs@.map_values(|p: (i32, PackOverlay)| p.0)),
            out@.len() == k,
            forall|j: int| 0 <= j < k ==> (#[trigger] out@[j]).0 == keys@[j] && out@[j].1@ == packs_of_block(packs@, out@[j].0),
        decreases keys@.len() - k,
    {
        let b = keys[k];
        let mut group: Vec<PackOverlay> = Vec::new();
        let mut m: usize = 0;
        while m < packs.len()
            invariant
                m <= packs@.len(),
                group@ == packs_of_block(packs@.take(m as int), b),
            decreases packs@.len() - m,
        {
            proof {
                assert(packs@.take(m + 1).drop_last() =~= packs@.take(m as int));
            }
            if packs[m].0 == b {
                group.push(packs[m].1);
            }
            m = m + 1;
        }
        proof {
            assert(packs@.take(packs@.len() as int) =~= packs@);
        }
        out.push((b, group));
        k = k + 1;
    }
    out
}


/// Who is told that `pid` left their view, for each chunk of `left` (the
/// chunks that went out of `pid`'s view, in order): the sessions of the
/// other players online in that chunk.
pub fn left_chunk_recipients(presence: &Presence, pid: PlayerId, left: &Vec<(u32, u32)>) -> (r: Vec<Vec<SessionId>>)
    requires
        presence.wf(),
    ensures
        r@.len() == left@.len(),
        forall|i: int| 0 <= i < left@.len() ==> (#[trigger] r@[i])@ == sessions_of(
            members_of(presence.chunk_entries(), ChunkPos(left@[i].0, left@[i].1)),
            Some(pid),
            presence.active_entries(),
        ),
{
    let mut out: Vec<Vec<SessionId>> = Vec::new();
    let mut i: usize = 0;
    while i < left.len()
        invariant
            presence.wf(),
            i <= left@.len(),
            out@.len() == i,
            forall|j: int| 0 <= j < i ==> (#[trigger] out@[j])@ == sessions_of(
                members_of(presence.chunk_entries(), ChunkPos(left@[j].0, left@[j].1)),
                Some(pid),
                presence.active_entries(),
            ),
        decreases left@.len() - i,
    {
        let (cx, cy) = left[i];
        out.push(presence.session_ids_in_chunk(ChunkPos(cx, cy), Some(pid)));
        i = i + 1;
    }
    out
}

} // verus!
