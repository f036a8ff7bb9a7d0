//! The play queue: which tracks are queued, which one is playing, the history
//! behind it, and the shuffle and repeat modes. It knows nothing of audio; it
//! only decides which track comes next.
//!
//! Shuffle reorders `items` physically (keeping the current track first) rather
//! than keeping a hidden play order, so the queue the user sees is always the
//! order in which it will play.
use rand::seq::SliceRandom;
use vstd::prelude::*;

use crate::paths::{path_is_under, path_starts_with};

verus! {

/// A track in the play queue. `track_id` is the library row it came from, or
/// `None` for a loose file that is not in the library.
#[derive(Debug, Clone, PartialEq)]
pub struct QueueTrack {
    pub id: u64,
    pub path: String,
    pub track_id: Option<i64>,
}

/// What callers hand the queue to enqueue a track; the queue assigns the `id`.
#[derive(Debug, Clone, PartialEq)]
pub struct QueueTrackInput {
    pub path: String,
    pub track_id: Option<i64>,
}

#[derive(Debug, Clone, Copy, PartialEq, Eq, Structural)]
pub enum RepeatMode {
    Off,
    Track,
    Queue,
}

/// The abstract value of a [`QueueTrack`].
pub struct TrackView {
    pub id: u64,
    pub path: Seq<char>,
    pub track_id: Option<i64>,
}

/// The abstract value of a [`QueueTrackInput`].
pub struct InputView {
    pub path: Seq<char>,
    pub track_id: Option<i64>,
}

impl View for QueueTrack {
    type V = TrackView;

    open spec fn view(&self) -> TrackView {
        TrackView { id: self.id, path: self.path@, track_id: self.track_id }
    }
}

impl View for QueueTrackInput {
    type V = InputView;

    open spec fn view(&self) -> InputView {
        InputView { path: self.path@, track_id: self.track_id }
    }
}

impl Default for RepeatMode {
    fn default() -> (r: Self)
        ensures
            r == RepeatMode::Off,
    {
        RepeatMode::Off
    }
}

/// The abstract state of a [`QueueState`].
pub struct QueueModel {
    pub items: Seq<TrackView>,
    /// The last id handed out; every new track gets a larger one.
    pub next_id: u64,
    pub current: Option<u64>,
    /// Ids played before the current one, most recent last.
    pub history: Seq<u64>,
    pub shuffle: bool,
    pub repeat: RepeatMode,
}

pub open spec fn track_views(s: Seq<QueueTrack>) -> Seq<TrackView> {
    s.map_values(|t: QueueTrack| t@)
}

pub open spec fn track_opt_view(t: Option<QueueTrack>) -> Option<TrackView> {
    match t {
        Some(t) => Some(t@),
        None => None,
    }
}

pub open spec fn input_views(s: Seq<QueueTrackInput>) -> Seq<InputView> {
    s.map_values(|t: QueueTrackInput| t@)
}

/// Tracks other than the one with id `item_id`.
pub open spec fn id_is_not(item_id: u64) -> spec_fn(TrackView) -> bool {
    |t: TrackView| t.id != item_id
}

/// History entries other than `item_id`.
pub open spec fn entry_is_not(item_id: u64) -> spec_fn(u64) -> bool {
    |h: u64| h != item_id
}

/// Tracks whose file does not lie under `root`.
pub open spec fn outside_root(root: Seq<char>) -> spec_fn(TrackView) -> bool {
    |t: TrackView| !path_starts_with(t.path, root)
}

/// History entries still queued in `items`.
pub open spec fn still_queued(items: Seq<TrackView>) -> spec_fn(u64) -> bool {
    |h: u64| has_id(items, h)
}

/// Whether some queued track has id `id`.
pub open spec fn has_id(items: Seq<TrackView>, id: u64) -> bool {
    exists|k: int| 0 <= k < items.len() && #[trigger] items[k].id == id
}

/// The index of the queued track with id `id` (meaningful when [`has_id`]).
pub open spec fn index_of_id(items: Seq<TrackView>, id: u64) -> int {
    choose|k: int| 0 <= k < items.len() && #[trigger] items[k].id == id
}

/// The queued track with id `id`, if any.
pub open spec fn find_track(items: Seq<TrackView>, id: u64) -> Option<TrackView> {
    if has_id(items, id) {
        Some(items[index_of_id(items, id)])
    } else {
        None
    }
}

/// No two queued tracks share an id.
pub open spec fn distinct_ids(items: Seq<TrackView>) -> bool {
    forall|i: int, j: int|
        0 <= i < items.len() && 0 <= j < items.len() && i != j ==> #[trigger] items[i].id
            != #[trigger] items[j].id
}

/// The tracks that `inputs` become when enqueued after id `last`.
pub open spec fn fresh_tracks(inputs: Seq<InputView>, last: u64) -> Seq<TrackView> {
    Seq::new(
        inputs.len(),
        |i: int| TrackView { id: (last + i + 1) as u64, path: inputs[i].path, track_id: inputs[i].track_id },
    )
}

/// `p` and `q` are mutually inverse maps of `0..n` onto itself.
pub open spec fn index_bijection(p: Seq<int>, q: Seq<int>, n: nat) -> bool {
    &&& p.len() == n
    &&& q.len() == n
    &&& forall|i: int| 0 <= i < n ==> 0 <= #[trigger] p[i] < n && q[p[i]] == i
    &&& forall|j: int| 0 <= j < n ==> 0 <= #[trigger] q[j] < n && p[q[j]] == j
}

/// `a` holds the elements of `b`, each once, in some order.
pub open spec fn is_permutation<A>(a: Seq<A>, b: Seq<A>) -> bool {
    &&& a.len() == b.len()
    &&& exists|p: Seq<int>, q: Seq<int>|
        #![trigger index_bijection(p, q, a.len())]
        index_bijection(p, q, a.len()) && forall|i: int| 0 <= i < a.len() ==> #[trigger] a[i] == b[p[i]]
}

/// The order that enabling shuffle may leave: nothing changes for a queue of at
/// most one track; otherwise the same tracks in some order, with the current
/// track (when it is queued) first.
pub open spec fn shuffled_keeping_current(old_items: Seq<TrackView>, current: Option<u64>, new_items: Seq<TrackView>) -> bool {
    if old_items.len() <= 1 {
        new_items == old_items
    } else {
        &&& is_permutation(new_items, old_items)
        &&& match current {
            Some(c) => has_id(old_items, c) ==> new_items[0] == old_items[index_of_id(old_items, c)],
            None => true,
        }
    }
}

/// The index of the most recent history entry still queued, or -1.
pub open spec fn last_live_index(history: Seq<u64>, items: Seq<TrackView>) -> int
    decreases history.len(),
{
    if history.len() == 0 {
        -1
    } else if has_id(items, history.last()) {
        history.len() - 1
    } else {
        last_live_index(history.drop_last(), items)
    }
}

impl QueueModel {
    /// Ids are unique and none exceeds the last id handed out.
    pub open spec fn wf(self) -> bool {
        &&& distinct_ids(self.items)
        &&& forall|i: int| 0 <= i < self.items.len() ==> #[trigger] self.items[i].id <= self.next_id
    }

    /// The state with everything but `items` as in `self`.
    pub open spec fn with_items(self, items: Seq<TrackView>) -> QueueModel {
        QueueModel { items, ..self }
    }

    pub open spec fn current_track(self) -> Option<TrackView> {
        match self.current {
            Some(c) => find_track(self.items, c),
            None => None,
        }
    }

    /// The position of the current track in `items`, when it is queued.
    pub open spec fn current_index(self) -> Option<int> {
        match self.current {
            Some(c) => if has_id(self.items, c) {
                Some(index_of_id(self.items, c))
            } else {
                None
            },
            None => None,
        }
    }

    pub open spec fn set_items_result(self, inputs: Seq<InputView>) -> QueueModel {
        QueueModel {
            items: fresh_tracks(inputs, self.next_id),
            next_id: (self.next_id + inputs.len()) as u64,
            current: None,
            history: seq![],
            ..self
        }
    }

    pub open spec fn add_items_result(self, inputs: Seq<InputView>) -> QueueModel {
        QueueModel {
            items: self.items + fresh_tracks(inputs, self.next_id),
            next_id: (self.next_id + inputs.len()) as u64,
            ..self
        }
    }

    pub open spec fn remove_result(self, item_id: u64) -> QueueModel {
        QueueModel {
            items: self.items.filter(id_is_not(item_id)),
            history: self.history.filter(entry_is_not(item_id)),
            ..self
        }
    }

    /// Whether the current track lies under `root`.
    pub open spec fn current_under(self, root: Seq<char>) -> bool {
        match self.current_track() {
            Some(t) => path_starts_with(t.path, root),
            None => false,
        }
    }

    pub open spec fn remove_under_result(self, root: Seq<char>) -> QueueModel {
        let items = self.items.filter(outside_root(root));
        QueueModel {
            items,
            history: self.history.filter(still_queued(items)),
            current: if self.current_under(root) {
                None
            } else {
                self.current
            },
            ..self
        }
    }

    pub open spec fn reorder_result(self, item_id: u64, new_index: usize) -> QueueModel {
        if has_id(self.items, item_id) {
            let pos = index_of_id(self.items, item_id);
            let rest = self.items.remove(pos);
            let at = if new_index < rest.len() {
                new_index as int
            } else {
                rest.len() as int
            };
            self.with_items(rest.insert(at, self.items[pos]))
        } else {
            self
        }
    }

    pub open spec fn clear_result(self) -> QueueModel {
        QueueModel { items: seq![], current: None, history: seq![], ..self }
    }

    /// The state after making `item_id` current, when it is queued.
    pub open spec fn play_item_result(self, item_id: u64) -> QueueModel {
        QueueModel {
            current: Some(item_id),
            history: match self.current {
                Some(c) => if c != item_id {
                    self.history.push(c)
                } else {
                    self.history
                },
                None => self.history,
            },
            ..self
        }
    }

    /// What `next` may do: `new` is the state after the call, `r` the track returned.
    pub open spec fn next_outcome(self, new: QueueModel, r: Option<TrackView>) -> bool {
        if self.items.len() == 0 {
            &&& new == QueueModel { current: None, ..self }
            &&& r is None
        } else if self.repeat == RepeatMode::Track && self.current_track() is Some {
            &&& new == self
            &&& r == self.current_track()
        } else {
            let history = match self.current {
                Some(c) => self.history.push(c),
                None => self.history,
            };
            match self.current_index() {
                None => {
                    &&& new == QueueModel { current: Some(self.items[0].id), history, ..self }
                    &&& r == Some(self.items[0])
                },
                Some(i) => if i + 1 < self.items.len() {
                    &&& new == QueueModel { current: Some(self.items[i + 1].id), history, ..self }
                    &&& r == Some(self.items[i + 1])
                } else if self.repeat == RepeatMode::Queue {
                    &&& (if self.shuffle {
                        is_permutation(new.items, self.items)
                    } else {
                        new.items == self.items
                    })
                    &&& new == QueueModel {
                        items: new.items,
                        current: Some(new.items[0].id),
                        history,
                        ..self
                    }
                    &&& r == Some(new.items[0])
                } else {
                    &&& new == QueueModel { current: None, history, ..self }
                    &&& r is None
                },
            }
        }
    }

    /// What `previous` does: pop history entries until one is still queued.
    pub open spec fn previous_result(self) -> (QueueModel, Option<TrackView>) {
        let k = last_live_index(self.history, self.items);
        if k < 0 {
            (QueueModel { history: seq![], ..self }, None)
        } else {
            (
                QueueModel { history: self.history.take(k), current: Some(self.history[k]), ..self },
                find_track(self.items, self.history[k]),
            )
        }
    }

    /// Whether some history entry is still queued.
    pub open spec fn has_previous(self) -> bool {
        exists|j: int| 0 <= j < self.history.len() && has_id(self.items, #[trigger] self.history[j])
    }
}

/// The state of the play queue.
pub struct QueueState {
    items: Vec<QueueTrack>,
    next_id: u64,
    current_id: Option<u64>,
    history: Vec<u64>,
    shuffle: bool,
    repeat: RepeatMode,
}

impl View for QueueState {
    type V = QueueModel;

    closed spec fn view(&self) -> QueueModel {
        QueueModel {
            items: track_views(self.items@),
            next_id: self.next_id,
            current: self.current_id,
            history: self.history@,
            shuffle: self.shuffle,
            repeat: self.repeat,
        }
    }
}

impl Default for QueueState {
    fn default() -> (q: Self)
        ensures
            q@ == (QueueModel {
                items: seq![],
                next_id: 0,
                current: None,
                history: seq![],
                shuffle: false,
                repeat: RepeatMode::Off,
            }),
            q@.wf(),
    {
        QueueState::new()
    }
}

/// Shuffles the tracks in place with `rand`'s `SliceRandom::shuffle` and the
/// thread-local generator. The order that comes out is random; what holds of
/// every outcome is that it is a permutation of the order that went in.
#[verifier::external_body]
fn shuffle_tracks(tracks: &mut Vec<QueueTrack>)
    ensures
        is_permutation(track_views(final(tracks)@), track_views(old(tracks)@)),
{
    tracks.shuffle(&mut rand::rng());
}

/// A copy of `t`.
fn copy_track(t: &QueueTrack) -> (r: QueueTrack)
    ensures
        r@ == t@,
{
    QueueTrack { id: t.id, path: t.path.clone(), track_id: t.track_id }
}

pub(crate) proof fn lemma_index_of_id(items: Seq<TrackView>, k: int)
    requires
        distinct_ids(items),
        0 <= k < items.len(),
    ensures
        has_id(items, items[k].id),
        index_of_id(items, items[k].id) == k,
        find_track(items, items[k].id) == Some(items[k]),
{
    assert(has_id(items, items[k].id));
}

proof fn lemma_permutation_facts(a: Seq<TrackView>, b: Seq<TrackView>)
    requires
        is_permutation(a, b),
    ensures
        distinct_ids(b) ==> distinct_ids(a),
        forall|id: u64| has_id(a, id) <==> has_id(b, id),
        forall|i: int| 0 <= i < a.len() ==> exists|j: int| 0 <= j < b.len() && #[trigger] a[i] == #[trigger] b[j],
{
    let (p, q) = choose|p: Seq<int>, q: Seq<int>|
        index_bijection(p, q, a.len()) && forall|i: int| 0 <= i < a.len() ==> #[trigger] a[i] == b[p[i]];
    lemma_permutation_distinct(a, b, p, q);
    lemma_permutation_has_id(a, b, p, q);
    assert forall|i: int| 0 <= i < a.len() implies exists|j: int| 0 <= j < b.len() && #[trigger] a[i] == #[trigger] b[j] by {
        assert(a[i] == b[p[i]]);
    }
}

proof fn lemma_permutation_distinct(a: Seq<TrackView>, b: Seq<TrackView>, p: Seq<int>, q: Seq<int>)
    requires
        a.len() == b.len(),
        index_bijection(p, q, a.len()),
        forall|i: int| 0 <= i < a.len() ==> #[trigger] a[i] == b[p[i]],
    ensures
        distinct_ids(b) ==> distinct_ids(a),
{
    if distinct_ids(b) {
        assert forall|i: int, j: int| 0 <= i < a.len() && 0 <= j < a.len() && i != j implies #[trigger] a[i].id
            != #[trigger] a[j].id by {
            assert(a[i] == b[p[i]]);
            assert(a[j] == b[p[j]]);
            assert(q[p[i]] == i && q[p[j]] == j);
        }
    }
}

proof fn lemma_permutation_has_id(a: Seq<TrackView>, b: Seq<TrackView>, p: Seq<int>, q: Seq<int>)
    requires
        a.len() == b.len(),
        index_bijection(p, q, a.len()),
        forall|i: int| 0 <= i < a.len() ==> #[trigger] a[i] == b[p[i]],
    ensures
        forall|id: u64| has_id(a, id) <==> has_id(b, id),
{
    assert forall|id: u64| has_id(a, id) implies has_id(b, id) by {
        let k = choose|k: int| 0 <= k < a.len() && #[trigger] a[k].id == id;
        assert(a[k] == b[p[k]]);
        assert(b[p[k]].id == id);
    }
    assert forall|id: u64| has_id(b, id) implies has_id(a, id) by {
        let k = choose|k: int| 0 <= k < b.len() && #[trigger] b[k].id == id;
        assert(a[q[k]] == b[p[q[k]]]);
        assert(a[q[k]].id == id);
    }
}

/// Putting `b[k]` in front of a permutation of `b` without it gives a
/// permutation of `b`.
proof fn lemma_permutation_front(b: Seq<TrackView>, k: int, rest: Seq<TrackView>)
    requires
        0 <= k < b.len(),
        is_permutation(rest, b.remove(k)),
    ensures
        is_permutation(seq![b[k]] + rest, b),
{
    let n = b.len();
    let a = seq![b[k]] + rest;
    let r = b.remove(k);
    let (p0, q0) = choose|p: Seq<int>, q: Seq<int>|
        index_bijection(p, q, rest.len()) && forall|i: int| 0 <= i < rest.len() ==> #[trigger] rest[i] == r[p[i]];
    // index j of r sits at index lift(j) of b
    let p = Seq::new(n, |i: int| if i == 0 { k } else if p0[i - 1] < k { p0[i - 1] } else { p0[i - 1] + 1 });
    let q = Seq::new(n, |j: int| if j == k { 0 } else if j < k { q0[j] + 1 } else { q0[j - 1] + 1 });
    assert forall|i: int| 0 <= i < n implies 0 <= #[trigger] p[i] < n && q[p[i]] == i by {
        if i > 0 {
            assert(0 <= p0[i - 1] < n - 1);
            assert(q0[p0[i - 1]] == i - 1);
        }
    }
    assert forall|j: int| 0 <= j < n implies 0 <= #[trigger] q[j] < n && p[q[j]] == j by {
        if j < k {
            assert(0 <= q0[j] < n - 1 && p0[q0[j]] == j);
        } else if j > k {
            assert(0 <= q0[j - 1] < n - 1 && p0[q0[j - 1]] == j - 1);
        }
    }
    assert forall|i: int| 0 <= i < n implies #[trigger] a[i] == b[p[i]] by {
        if i > 0 {
            assert(a[i] == rest[i - 1]);
            assert(rest[i - 1] == r[p0[i - 1]]);
        }
    }
    assert(index_bijection(p, q, a.len()));
}

proof fn lemma_fresh_tracks_wf(m: QueueModel, inputs: Seq<InputView>, keep: bool)
    requires
        m.wf(),
        m.next_id + inputs.len() <= u64::MAX,
    ensures
        (if keep {
            m.add_items_result(inputs)
        } else {
            m.set_items_result(inputs)
        }).wf(),
{
    let fresh = fresh_tracks(inputs, m.next_id);
    if keep {
        let all = m.items + fresh;
        assert forall|i: int, j: int| 0 <= i < all.len() && 0 <= j < all.len() && i != j implies #[trigger] all[i].id
            != #[trigger] all[j].id by {
            if i < m.items.len() && j < m.items.len() {
                assert(m.items[i].id != m.items[j].id);
            } else if i < m.items.len() {
                assert(m.items[i].id <= m.next_id);
            } else if j < m.items.len() {
                assert(m.items[j].id <= m.next_id);
            }
        }
        assert forall|i: int| 0 <= i < all.len() implies #[trigger] all[i].id <= m.add_items_result(inputs).next_id by {
            if i < m.items.len() {
                assert(m.items[i].id <= m.next_id);
            }
        }
    }
}


/// Filtering keeps unique ids and the bound on them, and keeps only tracks
/// that were there.
proof fn lemma_filter_wf(items: Seq<TrackView>, pred: spec_fn(TrackView) -> bool, bound: u64)
    requires
        distinct_ids(items),
        forall|i: int| 0 <= i < items.len() ==> #[trigger] items[i].id <= bound,
    ensures
        distinct_ids(items.filter(pred)),
        forall|i: int| 0 <= i < items.filter(pred).len() ==> #[trigger] items.filter(pred)[i].id <= bound,
        forall|i: int|
            0 <= i < items.filter(pred).len() ==> exists|k: int|
                0 <= k < items.len() && #[trigger] items.filter(pred)[i] == #[trigger] items[k],
    decreases items.len(),
{
    reveal_with_fuel(Seq::filter, 1);
    if items.len() > 0 {
        let d = items.drop_last();
        let f = d.filter(pred);
        assert forall|i: int, j: int| 0 <= i < d.len() && 0 <= j < d.len() && i != j implies #[trigger] d[i].id
            != #[trigger] d[j].id by {
            assert(d[i] == items[i] && d[j] == items[j]);
        }
        assert forall|i: int| 0 <= i < d.len() implies #[trigger] d[i].id <= bound by {
            assert(d[i] == items[i]);
        }
        lemma_filter_wf(d, pred, bound);
        let all = items.filter(pred);
        assert forall|i: int|
            0 <= i < all.len() implies exists|k: int| 0 <= k < items.len() && #[trigger] all[i] == #[trigger] items[k] by {
            if i < f.len() {
                let k = choose|k: int| 0 <= k < d.len() && #[trigger] f[i] == #[trigger] d[k];
                assert(all[i] == items[k]);
            } else {
                assert(all[i] == items[items.len() - 1]);
            }
        }
        if pred(items.last()) {
            assert forall|i: int, j: int| 0 <= i < all.len() && 0 <= j < all.len() && i != j implies #[trigger] all[i].id
                != #[trigger] all[j].id by {
                if i < f.len() && j < f.len() {
                } else if i < f.len() {
                    let k = choose|k: int| 0 <= k < d.len() && #[trigger] f[i] == #[trigger] d[k];
                    assert(items[k].id != items[items.len() - 1].id);
                } else if j < f.len() {
                    let k = choose|k: int| 0 <= k < d.len() && #[trigger] f[j] == #[trigger] d[k];
                    assert(items[k].id != items[items.len() - 1].id);
                }
            }
            assert forall|i: int| 0 <= i < all.len() implies #[trigger] all[i].id <= bound by {
                if i < f.len() {
                } else {
                    assert(all[i] == items[items.len() - 1]);
                }
            }
        }
    }
}

/// Moving one track keeps unique ids and the bound on them.
proof fn lemma_reorder_wf(m: QueueModel, item_id: u64, new_index: usize)
    requires
        m.wf(),
    ensures
        m.reorder_result(item_id, new_index).wf(),
        m.reorder_result(item_id, new_index).items.len() == m.items.len(),
{
    if has_id(m.items, item_id) {
        let pos = index_of_id(m.items, item_id);
        let rest = m.items.remove(pos);
        let at = if new_index < rest.len() { new_index as int } else { rest.len() as int };
        let out = rest.insert(at, m.items[pos]);
        // index in m.items of out[k]
        let src = |k: int| if k == at { pos } else {
            let r = if k < at { k } else { k - 1 };
            if r < pos { r } else { r + 1 }
        };
        assert forall|k: int| 0 <= k < out.len() implies #[trigger] out[k] == m.items[src(k)] && 0 <= src(k) < m.items.len() by {
        }
        assert forall|i: int, j: int| 0 <= i < out.len() && 0 <= j < out.len() && i != j implies #[trigger] out[i].id
            != #[trigger] out[j].id by {
            assert(out[i] == m.items[src(i)]);
            assert(out[j] == m.items[src(j)]);
        }
        assert forall|i: int| 0 <= i < out.len() implies #[trigger] out[i].id <= m.next_id by {
            assert(out[i] == m.items[src(i)]);
        }
    }
}

/// A permutation of the queue keeps unique ids and the bound on them.
proof fn lemma_permutation_wf(m: QueueModel, items: Seq<TrackView>)
    requires
        m.wf(),
        is_permutation(items, m.items),
    ensures
        m.with_items(items).wf(),
{
    lemma_permutation_facts(items, m.items);
    assert forall|i: int| 0 <= i < items.len() implies #[trigger] items[i].id <= m.next_id by {
        let j = choose|j: int| 0 <= j < m.items.len() && #[trigger] items[i] == #[trigger] m.items[j];
    }
}

/// `has_previous` tells exactly whether `previous` finds a track.
proof fn lemma_last_live_index(history: Seq<u64>, items: Seq<TrackView>)
    ensures
        -1 <= last_live_index(history, items) < history.len(),
        last_live_index(history, items) >= 0 ==> has_id(items, history[last_live_index(history, items)]),
        last_live_index(history, items) >= 0 <==> exists|j: int| 0 <= j < history.len() && has_id(items, #[trigger] history[j]),
    decreases history.len(),
{
    if history.len() > 0 {
        let d = history.drop_last();
        lemma_last_live_index(d, items);
        if !has_id(items, history.last()) {
            if exists|j: int| 0 <= j < history.len() && has_id(items, #[trigger] history[j]) {
                let j = choose|j: int| 0 <= j < history.len() && has_id(items, #[trigger] history[j]);
                assert(j < d.len());
                assert(d[j] == history[j]);
            }
            if last_live_index(d, items) >= 0 {
                assert(d[last_live_index(d, items)] == history[last_live_index(d, items)]);
            }
        }
    }
}

impl QueueState {
    /// An empty queue, with shuffle off and repeat off.
    pub fn new() -> (q: Self)
        ensures
            q@ == (QueueModel {
                items: seq![],
                next_id: 0,
                current: None,
                history: seq![],
                shuffle: false,
                repeat: RepeatMode::Off,
            }),
            q@.wf(),
    {
        let q = QueueState {
            items: Vec::new(),
            next_id: 0,
            current_id: None,
            history: Vec::new(),
            shuffle: false,
            repeat: RepeatMode::Off,
        };
        assert(track_views(q.items@) =~= seq![]);
        q
    }

    pub fn items(&self) -> (r: &[QueueTrack])
        ensures
            track_views(r@) == self@.items,
    {
        self.items.as_slice()
    }

    /// The last id handed out; new tracks get ids above it.
    pub fn last_id(&self) -> (r: u64)
        ensures
            r == self@.next_id,
    {
        self.next_id
    }

    pub fn current_id(&self) -> (r: Option<u64>)
        ensures
            r == self@.current,
    {
        self.current_id
    }

    pub fn shuffle(&self) -> (r: bool)
        ensures
            r == self@.shuffle,
    {
        self.shuffle
    }

    pub fn repeat(&self) -> (r: RepeatMode)
        ensures
            r == self@.repeat,
    {
        self.repeat
    }

    /// The index in `items` of the queued track with id `id`.
    fn position(&self, id: u64) -> (r: Option<usize>)
        requires
            self@.wf(),
        ensures
            match r {
                Some(k) => k < self@.items.len() && has_id(self@.items, id) && index_of_id(self@.items, id) == k,
                None => !has_id(self@.items, id),
            },
    {
        let ghost items = self@.items;
        let mut i: usize = 0;
        while i < self.items.len()
            invariant
                items == self@.items,
                self@.wf(),
                i <= items.len(),
                forall|k: int| 0 <= k < i ==> #[trigger] items[k].id != id,
            decreases items.len() - i,
        {
            if self.items[i].id == id {
                proof {
                    assert(items[i as int].id == id);
                    lemma_index_of_id(items, i as int);
                }
                return Some(i);
            }
            i = i + 1;
        }
        None
    }

    fn find(&self, id: u64) -> (r: Option<&QueueTrack>)
        requires
            self@.wf(),
        ensures
            match r {
                Some(t) => find_track(self@.items, id) == Some(t@),
                None => find_track(self@.items, id) is None,
            },
    {
        match self.position(id) {
            Some(k) => {
                proof {
                    lemma_index_of_id(self@.items, k as int);
                }
                Some(&self.items[k])
            },
            None => None,
        }
    }

    /// The track that is playing, when it is still queued.
    pub fn current(&self) -> (r: Option<&QueueTrack>)
        requires
            self@.wf(),
        ensures
            match r {
                Some(t) => self@.current_track() == Some(t@),
                None => self@.current_track() is None,
            },
    {
        match self.current_id {
            Some(id) => self.find(id),
            None => None,
        }
    }

    /// The position of the current track in `items`, when it is still queued.
    pub fn current_index(&self) -> (r: Option<usize>)
        requires
            self@.wf(),
        ensures
            match r {
                Some(k) => self@.current_index() == Some(k as int),
                None => self@.current_index() is None,
            },
    {
        match self.current_id {
            Some(id) => self.position(id),
            None => None,
        }
    }

    fn alloc_id(&mut self) -> (r: u64)
        requires
            old(self).next_id < u64::MAX,
        ensures
            r == old(self).next_id + 1,
            final(self).next_id == r,
            final(self).items == old(self).items,
            final(self).current_id == old(self).current_id,
            final(self).history == old(self).history,
            final(self).shuffle == old(self).shuffle,
            final(self).repeat == old(self).repeat,
    {
        self.next_id = self.next_id + 1;
        self.next_id
    }

    /// Builds the tracks for `inputs`, numbering them after the last id handed out.
    fn make_tracks(&mut self, inputs: Vec<QueueTrackInput>) -> (r: Vec<QueueTrack>)
        requires
            old(self).next_id + inputs@.len() <= u64::MAX,
        ensures
            track_views(r@) == fresh_tracks(input_views(inputs@), old(self).next_id),
            final(self)@ == (QueueModel { next_id: (old(self).next_id + inputs@.len()) as u64, ..old(self)@ }),
    {
        let ghost start = self.next_id;
        let ghost ins = input_views(inputs@);
        let mut made: Vec<QueueTrack> = Vec::with_capacity(inputs.len());
        let n = inputs.len();
        let mut i: usize = 0;
        while i < n
            invariant
                n == inputs@.len(),
                ins == input_views(inputs@),
                start + n <= u64::MAX,
                i <= n,
                self.next_id == start + i,
                self@ == (QueueModel { next_id: self.next_id, ..old(self)@ }),
                track_views(made@) =~= fresh_tracks(ins, start).take(i as int),
            decreases n - i,
        {
            let id = self.alloc_id();
            let input = &inputs[i];
            let ghost prev = made@;
            let t = QueueTrack { id, path: input.path.clone(), track_id: input.track_id };
            made.push(t);
            proof {
                assert(ins[i as int] == inputs@[i as int]@);
                assert(t@ == fresh_tracks(ins, start)[i as int]);
                assert(track_views(made@) =~= track_views(prev).push(t@));
                assert(track_views(made@) =~= fresh_tracks(ins, start).take(i as int + 1));
            }
            i = i + 1;
        }
        made
    }

    /// Replaces the whole queue; the current track and the history are reset.
    pub fn set_items(&mut self, inputs: Vec<QueueTrackInput>)
        requires
            old(self)@.wf(),
            old(self)@.next_id + inputs@.len() <= u64::MAX,
        ensures
            final(self)@ == old(self)@.set_items_result(input_views(inputs@)),
            final(self)@.wf(),
    {
        let ghost before = self@;
        let ghost ins = input_views(inputs@);
        let made = self.make_tracks(inputs);
        self.items = made;
        self.current_id = None;
        self.history.clear();
        proof {
            lemma_fresh_tracks_wf(before, ins, false);
            assert(self@ =~= before.set_items_result(ins));
        }
    }

    /// Appends tracks at the end of the queue without touching what plays.
    pub fn add_items(&mut self, inputs: Vec<QueueTrackInput>)
        requires
            old(self)@.wf(),
            old(self)@.next_id + inputs@.len() <= u64::MAX,
        ensures
            final(self)@ == old(self)@.add_items_result(input_views(inputs@)),
            final(self)@.wf(),
    {
        let ghost before = self@;
        let ghost ins = input_views(inputs@);
        let made = self.make_tracks(inputs);
        let mut i: usize = 0;
        while i < made.len()
            invariant
                i <= made@.len(),
                track_views(made@) == fresh_tracks(ins, before.next_id),
                self@ == (QueueModel {
                    items: before.items + track_views(made@).take(i as int),
                    next_id: (before.next_id + ins.len()) as u64,
                    ..before
                }),
            decreases made@.len() - i,
        {
            let t = copy_track(&made[i]);
            let ghost prev = self.items@;
            self.items.push(t);
            assert(track_views(self.items@) =~= track_views(prev).push(t@));
            assert(before.items + track_views(made@).take(i as int + 1) =~= track_views(self.items@));
            i = i + 1;
        }
        proof {
            assert(track_views(made@).take(i as int) =~= track_views(made@));
            lemma_fresh_tracks_wf(before, ins, true);
        }
    }

    /// Keeps the queued tracks for which `keep` holds of `self.items[i]`, as
    /// told by `flags`, in order.
    fn retain_flagged(&mut self, flags: &Vec<bool>, ghost_pred: Ghost<spec_fn(TrackView) -> bool>)
        requires
            flags@.len() == old(self).items@.len(),
            forall|i: int| 0 <= i < flags@.len() ==> #[trigger] flags@[i] == (ghost_pred@)(old(self)@.items[i]),
        ensures
            final(self)@ == old(self)@.with_items(old(self)@.items.filter(ghost_pred@)),
    {
        let ghost before = self@;
        let ghost pred = ghost_pred@;
        let mut kept: Vec<QueueTrack> = Vec::new();
        let mut i: usize = 0;
        while i < self.items.len()
            invariant
                self@ == before,
                flags@.len() == before.items.len(),
                forall|k: int| 0 <= k < flags@.len() ==> #[trigger] flags@[k] == pred(before.items[k]),
                i <= before.items.len(),
                track_views(kept@) == before.items.take(i as int).filter(pred),
            decreases before.items.len() - i,
        {
            proof {
                assert(before.items.take(i as int + 1) =~= before.items.take(i as int).push(before.items[i as int]));
                before.items.take(i as int).lemma_filter_push(before.items[i as int], pred);
            }
            if flags[i] {
                let t = copy_track(&self.items[i]);
                kept.push(t);
                assert(track_views(kept@) =~= before.items.take(i as int + 1).filter(pred));
            }
            i = i + 1;
        }
        assert(before.items.take(i as int) =~= before.items);
        self.items = kept;
    }

    /// Keeps the history entries flagged in `flags`, in order.
    fn retain_history(&mut self, flags: &Vec<bool>, ghost_pred: Ghost<spec_fn(u64) -> bool>)
        requires
            flags@.len() == old(self).history@.len(),
            forall|i: int| 0 <= i < flags@.len() ==> #[trigger] flags@[i] == (ghost_pred@)(old(self)@.history[i]),
        ensures
            final(self)@ == (QueueModel { history: old(self)@.history.filter(ghost_pred@), ..old(self)@ }),
    {
        let ghost before = self@;
        let ghost pred = ghost_pred@;
        let mut kept: Vec<u64> = Vec::new();
        let mut i: usize = 0;
        while i < self.history.len()
            invariant
                self@ == before,
                flags@.len() == before.history.len(),
                forall|k: int| 0 <= k < flags@.len() ==> #[trigger] flags@[k] == pred(before.history[k]),
                i <= before.history.len(),
                kept@ == before.history.take(i as int).filter(pred),
            decreases before.history.len() - i,
        {
            proof {
                assert(before.history.take(i as int + 1) =~= before.history.take(i as int).push(before.history[i as int]));
                before.history.take(i as int).lemma_filter_push(before.history[i as int], pred);
            }
            if flags[i] {
                kept.push(self.history[i]);
            }
            i = i + 1;
        }
        assert(before.history.take(i as int) =~= before.history);
        self.history = kept;
        assert(self@ =~= (QueueModel { history: before.history.filter(pred), ..before }));
    }

    /// Removes a track from the queue. If it is the one playing it stays
    /// current (it plays to its end); it just leaves the visible list.
    pub fn remove(&mut self, item_id: u64)
        requires
            old(self)@.wf(),
        ensures
            final(self)@ == old(self)@.remove_result(item_id),
            final(self)@.wf(),
    {
        let ghost before = self@;
        let mut flags: Vec<bool> = Vec::new();
        let mut i: usize = 0;
        while i < self.items.len()
            invariant
                self@ == before,
                i <= before.items.len(),
                flags@.len() == i,
                forall|k: int| 0 <= k < i ==> #[trigger] flags@[k] == (id_is_not(item_id))(before.items[k]),
            decreases before.items.len() - i,
        {
            flags.push(self.items[i].id != item_id);
            i = i + 1;
        }
        self.retain_flagged(&flags, Ghost(id_is_not(item_id)));
        let mut hflags: Vec<bool> = Vec::new();
        let mut j: usize = 0;
        while j < self.history.len()
            invariant
                self@.history == before.history,
                j <= before.history.len(),
                hflags@.len() == j,
                forall|k: int| 0 <= k < j ==> #[trigger] hflags@[k] == (entry_is_not(item_id))(before.history[k]),
            decreases before.history.len() - j,
        {
            hflags.push(self.history[j] != item_id);
            j = j + 1;
        }
        self.retain_history(&hflags, Ghost(entry_is_not(item_id)));
        proof {
            lemma_filter_wf(before.items, id_is_not(item_id), before.next_id);
            assert(self@ =~= before.remove_result(item_id));
        }
    }

    /// Removes every track whose file lies under `root` (a library folder that
    /// is no longer watched). Unlike `remove`, when the current track is among
    /// them the current track is cleared. Returns whether it was.
    pub fn remove_under(&mut self, root: &str) -> (affected: bool)
        requires
            old(self)@.wf(),
        ensures
            affected == old(self)@.current_under(root@),
            final(self)@ == old(self)@.remove_under_result(root@),
            final(self)@.wf(),
    {
        let ghost before = self@;
        let affected = match self.current_id {
            Some(id) => match self.find(id) {
                Some(t) => path_is_under(t.path.as_str(), root),
                None => false,
            },
            None => false,
        };
        let mut flags: Vec<bool> = Vec::new();
        let mut i: usize = 0;
        while i < self.items.len()
            invariant
                self@ == before,
                i <= before.items.len(),
                flags@.len() == i,
                forall|k: int| 0 <= k < i ==> #[trigger] flags@[k] == (outside_root(root@))(before.items[k]),
            decreases before.items.len() - i,
        {
            flags.push(!path_is_under(self.items[i].path.as_str(), root));
            i = i + 1;
        }
        self.retain_flagged(&flags, Ghost(outside_root(root@)));
        proof {
            lemma_filter_wf(before.items, outside_root(root@), before.next_id);
        }
        let ghost kept = self@.items;
        let mut hflags: Vec<bool> = Vec::new();
        let mut j: usize = 0;
        while j < self.history.len()
            invariant
                self@.items == kept,
                self@.history == before.history,
                self@.wf(),
                j <= before.history.len(),
                hflags@.len() == j,
                forall|k: int| 0 <= k < j ==> #[trigger] hflags@[k] == (still_queued(kept))(before.history[k]),
            decreases before.history.len() - j,
        {
            let found = self.position(self.history[j]);
            hflags.push(found.is_some());
            j = j + 1;
        }
        self.retain_history(&hflags, Ghost(still_queued(kept)));
        if affected {
            self.current_id = None;
        }
        proof {
            assert(self@ =~= before.remove_under_result(root@));
        }
        affected
    }

    /// Moves a track to `new_index` (clamped to the end); does nothing when no
    /// queued track has id `item_id`.
    pub fn reorder(&mut self, item_id: u64, new_index: usize)
        requires
            old(self)@.wf(),
        ensures
            final(self)@ == old(self)@.reorder_result(item_id, new_index),
            final(self)@.wf(),
    {
        let ghost before = self@;
        proof {
            lemma_reorder_wf(before, item_id, new_index);
        }
        let pos = match self.position(item_id) {
            Some(p) => p,
            None => return,
        };
        let ghost prev = self.items@;
        let track = self.items.remove(pos);
        let clamped = if new_index < self.items.len() {
            new_index
        } else {
            self.items.len()
        };
        let ghost mid = self.items@;
        self.items.insert(clamped, track);
        proof {
            assert(track_views(mid) =~= before.items.remove(pos as int));
            assert(track_views(self.items@) =~= track_views(mid).insert(clamped as int, track@));
            assert(self@ =~= before.reorder_result(item_id, new_index));
        }
    }

    /// Empties the queue, its history and the current track.
    pub fn clear(&mut self)
        requires
            old(self)@.wf(),
        ensures
            final(self)@ == old(self)@.clear_result(),
            final(self)@.wf(),
    {
        self.items.clear();
        self.current_id = None;
        self.history.clear();
        assert(track_views(self.items@) =~= seq![]);
        assert(self@ =~= old(self)@.clear_result());
    }

    /// Shuffles `items`, keeping the current track (when it is queued) first.
    fn shuffle_keeping_current_first(&mut self)
        requires
            old(self)@.wf(),
        ensures
            shuffled_keeping_current(old(self)@.items, old(self)@.current, final(self)@.items),
            final(self)@ == old(self)@.with_items(final(self)@.items),
            final(self)@.wf(),
    {
        let ghost before = self@;
        if self.items.len() <= 1 {
            return;
        }
        let found = match self.current_id {
            Some(id) => self.position(id),
            None => None,
        };
        match found {
            Some(k) => {
                let current = self.items.remove(k);
                assert(track_views(self.items@) =~= before.items.remove(k as int));
                shuffle_tracks(&mut self.items);
                let ghost rest = track_views(self.items@);
                self.items.insert(0, current);
                proof {
                    assert(current@ == before.items[k as int]);
                    assert(track_views(self.items@) =~= seq![before.items[k as int]] + rest);
                    lemma_permutation_front(before.items, k as int, rest);
                }
            },
            None => {
                shuffle_tracks(&mut self.items);
            },
        }
        proof {
            lemma_permutation_wf(before, self@.items);
            assert(self@ =~= before.with_items(self@.items));
        }
    }

    /// Turns shuffle on or off. Turning it on shuffles the queue, keeping the
    /// current track first so that what is playing does not jump elsewhere;
    /// turning it off leaves the order as it is.
    pub fn set_shuffle(&mut self, enabled: bool)
        requires
            old(self)@.wf(),
        ensures
            final(self)@.shuffle == enabled,
            enabled ==> shuffled_keeping_current(old(self)@.items, old(self)@.current, final(self)@.items),
            !enabled ==> final(self)@.items == old(self)@.items,
            final(self)@ == (QueueModel { items: final(self)@.items, shuffle: enabled, ..old(self)@ }),
            final(self)@.wf(),
    {
        self.shuffle = enabled;
        if enabled {
            self.shuffle_keeping_current_first();
        }
    }

    /// Sets the shuffle flag without reordering anything: for restoring a
    /// saved queue, whose items are already in the order they had.
    pub fn set_shuffle_flag(&mut self, enabled: bool)
        requires
            old(self)@.wf(),
        ensures
            final(self)@ == (QueueModel { shuffle: enabled, ..old(self)@ }),
            final(self)@.wf(),
    {
        self.shuffle = enabled;
    }

    /// Shuffles again (current track first) when shuffle is on: for a queue
    /// that was just replaced while shuffle was already on. Call it after the
    /// current track is set, since that track is the anchor.
    pub fn reshuffle_if_active(&mut self)
        requires
            old(self)@.wf(),
        ensures
            old(self)@.shuffle ==> shuffled_keeping_current(old(self)@.items, old(self)@.current, final(self)@.items),
            !old(self)@.shuffle ==> final(self)@.items == old(self)@.items,
            final(self)@ == old(self)@.with_items(final(self)@.items),
            final(self)@.wf(),
    {
        if self.shuffle {
            self.shuffle_keeping_current_first();
        }
    }

    pub fn set_repeat(&mut self, mode: RepeatMode)
        requires
            old(self)@.wf(),
        ensures
            final(self)@ == (QueueModel { repeat: mode, ..old(self)@ }),
            final(self)@.wf(),
    {
        self.repeat = mode;
    }

    /// Makes `item_id` the current track (pushing the previous one onto the
    /// history) and returns it; `None`, with nothing changed, when no queued
    /// track has that id.
    pub fn play_item(&mut self, item_id: u64) -> (r: Option<QueueTrack>)
        requires
            old(self)@.wf(),
        ensures
            match r {
                Some(t) => {
                    &&& find_track(old(self)@.items, item_id) == Some(t@)
                    &&& final(self)@ == old(self)@.play_item_result(item_id)
                },
                None => {
                    &&& find_track(old(self)@.items, item_id) is None
                    &&& final(self)@ == old(self)@
                },
            },
            final(self)@.wf(),
    {
        let track = match self.find(item_id) {
            Some(t) => copy_track(t),
            None => return None,
        };
        if let Some(current) = self.current_id {
            if current != item_id {
                self.history.push(current);
            }
        }
        self.current_id = Some(item_id);
        assert(self@ =~= old(self)@.play_item_result(item_id));
        Some(track)
    }

    /// Picks and adopts the next track by the repeat and shuffle modes. Returns
    /// `None` when nothing is left to play (empty queue, or the end of the
    /// queue without repeat). With shuffle on it walks `items` in order like
    /// without it, since the shuffled order is already in `items`; at the end
    /// with repeat of the whole queue, shuffle reshuffles the queue for the next
    /// round.
    pub fn next(&mut self) -> (r: Option<QueueTrack>)
        requires
            old(self)@.wf(),
        ensures
            old(self)@.next_outcome(final(self)@, match r {
                Some(t) => Some(t@),
                None => None,
            }),
            final(self)@.wf(),
    {
        let ghost before = self@;
        if self.items.len() == 0 {
            self.current_id = None;
            assert(self@ =~= (QueueModel { current: None, ..before }));
            return None;
        }
        if self.repeat == RepeatMode::Track {
            if let Some(t) = self.current() {
                return Some(copy_track(t));
            }
        }
        let idx = match self.current_id {
            Some(id) => self.position(id),
            None => None,
        };
        if let Some(id) = self.current_id {
            self.history.push(id);
        }
        let ghost history = self@.history;
        proof {
            if let Some(i) = idx {
                lemma_index_of_id(before.items, i as int);
            }
        }
        let pick: Option<usize> = match idx {
            None => Some(0),
            Some(i) => if i + 1 < self.items.len() {
                Some(i + 1)
            } else if self.repeat == RepeatMode::Queue {
                if self.shuffle {
                    shuffle_tracks(&mut self.items);
                    proof {
                        lemma_permutation_wf(before, self@.items);
                    }
                }
                Some(0)
            } else {
                None
            },
        };
        match pick {
            Some(k) => {
                self.current_id = Some(self.items[k].id);
                let t = copy_track(&self.items[k]);
                proof {
                    assert(self@ =~= (QueueModel { items: self@.items, current: Some(self@.items[k as int].id), history, ..before }));
                }
                Some(t)
            },
            None => {
                self.current_id = None;
                assert(self@ =~= (QueueModel { current: None, history, ..before }));
                None
            },
        }
    }

    /// Steps back to the most recent history entry that is still queued,
    /// dropping the entries of tracks that were removed meanwhile.
    pub fn previous(&mut self) -> (r: Option<QueueTrack>)
        requires
            old(self)@.wf(),
        ensures
            final(self)@ == old(self)@.previous_result().0,
            (match r {
                Some(t) => Some(t@),
                None => None,
            }) == old(self)@.previous_result().1,
            final(self)@.wf(),
    {
        let ghost before = self@;
        while self.history.len() > 0
            invariant
                before == old(self)@,
                self@.wf(),
                self@ == (QueueModel { history: self@.history, ..before }),
                self@.history == before.history.take(self@.history.len() as int),
                self@.history.len() <= before.history.len(),
                last_live_index(before.history, before.items) == last_live_index(self@.history, before.items),
            decreases self@.history.len(),
        {
            let ghost h = self@.history;
            let id = self.history.pop().unwrap();
            assert(self@.history =~= before.history.take(self@.history.len() as int));
            assert(id == h.last());
            assert(self@.history =~= h.drop_last());
            match self.position(id) {
                Some(k) => {
                    proof {
                        lemma_index_of_id(before.items, k as int);
                        assert(id == h.last());
                        assert(last_live_index(h, before.items) == h.len() - 1);
                        assert(before.history[h.len() - 1] == h[h.len() - 1]);
                        assert(h.drop_last() =~= before.history.take(h.len() - 1));
                    }
                    let t = copy_track(&self.items[k]);
                    self.current_id = Some(id);
                    assert(self@ =~= before.previous_result().0);
                    return Some(t);
                },
                None => {},
            }
        }
        assert(self@.history =~= seq![]);
        assert(last_live_index(self@.history, before.items) == -1);
        assert(self@ =~= before.previous_result().0);
        None
    }

    /// Whether `previous` would return a track rather than `None`: whether some
    /// history entry is still queued.
    pub fn has_previous(&self) -> (r: bool)
        requires
            self@.wf(),
        ensures
            r == self@.has_previous(),
    {
        let mut j: usize = 0;
        while j < self.history.len()
            invariant
                self@.wf(),
                j <= self@.history.len(),
                forall|k: int| 0 <= k < j ==> !has_id(self@.items, #[trigger] self@.history[k]),
            decreases self@.history.len() - j,
        {
            if self.position(self.history[j]).is_some() {
                return true;
            }
            j = j + 1;
        }
        false
    }
}


/// `has_previous` answers exactly whether `previous` would give back a track.
pub proof fn law_has_previous_iff_previous_finds_track(m: QueueModel)
    requires
        m.wf(),
    ensures
        m.has_previous() <==> m.previous_result().1 is Some,
{
    lemma_last_live_index(m.history, m.items);
}

/// Turning shuffle on keeps every track and adds none: the same ids, as many
/// tracks, still unique.
pub proof fn law_shuffle_keeps_the_same_tracks(m: QueueModel, items: Seq<TrackView>)
    requires
        m.wf(),
        shuffled_keeping_current(m.items, m.current, items),
    ensures
        items.len() == m.items.len(),
        forall|id: u64| has_id(items, id) <==> has_id(m.items, id),
        m.with_items(items).wf(),
{
    if m.items.len() > 1 {
        lemma_permutation_facts(items, m.items);
        lemma_permutation_wf(m, items);
    }
}

/// Without repeat, calling `next` on a queue with no current track gives
/// every track once, in queue order, and then nothing.
pub proof fn law_next_walks_the_queue_once_in_order(
    states: Seq<QueueModel>,
    results: Seq<Option<TrackView>>,
)
    requires
        states[0].wf(),
        states[0].current is None,
        states[0].repeat == RepeatMode::Off,
        states[0].items.len() > 0,
        results.len() == states[0].items.len() + 1,
        states.len() == results.len() + 1,
        forall|j: int| #![trigger results[j]] 0 <= j < results.len() ==> states[j].next_outcome(states[j + 1], results[j]),
    ensures
        forall|j: int| 0 <= j < states[0].items.len() ==> #[trigger] results[j] == Some(states[0].items[j]),
        results[states[0].items.len() as int] is None,
{
    let items = states[0].items;
    let n: int = items.len() as int;
    assert forall|j: int| 0 <= j < n implies #[trigger] results[j] == Some(items[j]) by {
        lemma_walk_prefix(states, results, j);
    }
    lemma_walk_prefix(states, results, n);
    lemma_index_of_id(items, n - 1);
    assert(states[n].next_outcome(states[n + 1], results[n]));
}

/// When the current track is not queued (there is none yet, or it was removed
/// while it played), `next` on a non-empty queue starts at the first queued
/// track, returns it and makes it current; the tracks stay as they are.
pub proof fn law_next_from_an_unqueued_current_starts_at_the_first(
    m: QueueModel,
    new: QueueModel,
    r: Option<TrackView>,
)
    requires
        m.wf(),
        m.items.len() > 0,
        match m.current {
            Some(c) => !has_id(m.items, c),
            None => true,
        },
        m.next_outcome(new, r),
    ensures
        r == Some(m.items[0]),
        new.current == Some(m.items[0].id),
        new.items == m.items,
{
}

/// `next` gives nothing only when the queue is empty, or when the last queued
/// track is the current one and repeat is off.
pub proof fn law_next_ends_only_at_the_end_without_repeat(m: QueueModel, new: QueueModel, r: Option<TrackView>)
    requires
        m.wf(),
        m.next_outcome(new, r),
        r is None,
    ensures
        m.items.len() == 0 || (m.repeat == RepeatMode::Off && m.current == Some(m.items[m.items.len() - 1].id)),
{
    if m.items.len() > 0 {
        let c = m.current->0;
        assert(m.current is Some);
        assert(has_id(m.items, c));
        let i = index_of_id(m.items, c);
        assert(m.items[i].id == c);
        if m.repeat == RepeatMode::Track {
            assert(find_track(m.items, c) is Some);
        }
    }
}

/// When `previous` gives back a track, it is a queued track, it becomes the
/// current one, and the tracks stay as they are. When it gives nothing, the
/// current track stays and the history is empty.
pub proof fn law_previous_makes_the_returned_track_current(m: QueueModel)
    requires
        m.wf(),
    ensures
        m.previous_result().0.items == m.items,
        m.previous_result().0.shuffle == m.shuffle,
        m.previous_result().0.repeat == m.repeat,
        match m.previous_result().1 {
            Some(t) => {
                &&& has_id(m.items, t.id)
                &&& m.previous_result().0.current == Some(t.id)
                &&& m.previous_result().0.current_track() == Some(t)
                &&& m.previous_result().0.history.len() < m.history.len()
            },
            None => m.previous_result().0.current == m.current && m.previous_result().0.history.len() == 0,
        },
{
    lemma_last_live_index(m.history, m.items);
    let k = last_live_index(m.history, m.items);
    if k >= 0 {
        let id = m.history[k];
        let i = index_of_id(m.items, id);
        assert(m.items[i].id == id);
        lemma_index_of_id(m.items, i);
    }
}

/// Moving a queued track puts it at `new_index`, or last when `new_index` is
/// past the end, and leaves the other tracks in the order they had.
pub proof fn law_reorder_puts_the_track_at_the_index(m: QueueModel, item_id: u64, new_index: usize)
    requires
        m.wf(),
        has_id(m.items, item_id),
    ensures
        ({
            let n = m.reorder_result(item_id, new_index).items;
            let at = if new_index < m.items.len() {
                new_index as int
            } else {
                m.items.len() - 1
            };
            let pos = index_of_id(m.items, item_id);
            &&& n.len() == m.items.len()
            &&& n[at].id == item_id
            &&& n[at] == m.items[pos]
            &&& n.remove(at) == m.items.remove(pos)
        }),
{
    let pos = index_of_id(m.items, item_id);
    let rest = m.items.remove(pos);
    let at = if new_index < rest.len() {
        new_index as int
    } else {
        rest.len() as int
    };
    let n = rest.insert(at, m.items[pos]);
    assert(n.remove(at) =~= rest);
}

proof fn lemma_walk_prefix(states: Seq<QueueModel>, results: Seq<Option<TrackView>>, j: int)
    requires
        states[0].wf(),
        states[0].current is None,
        states[0].repeat == RepeatMode::Off,
        states[0].items.len() > 0,
        results.len() == states[0].items.len() + 1,
        states.len() == results.len() + 1,
        forall|k: int| #![trigger results[k]] 0 <= k < results.len() ==> states[k].next_outcome(states[k + 1], results[k]),
        0 <= j <= states[0].items.len(),
    ensures
        states[j].items == states[0].items,
        states[j].wf(),
        states[j].repeat == RepeatMode::Off,
        if j == 0 {
            states[j].current is None
        } else {
            states[j].current == Some(states[0].items[j - 1].id)
        },
        j < states[0].items.len() ==> results[j] == Some(states[0].items[j]),
    decreases j,
{
    let items = states[0].items;
    if j > 0 {
        lemma_walk_prefix(states, results, j - 1);
        let prev = states[j - 1];
        assert(prev.next_outcome(states[(j - 1) + 1], results[j - 1]));
        assert(states[j].items == items);
    }
    if j < items.len() {
        let cur = states[j];
        assert(cur.next_outcome(states[j + 1], results[j]));
        if j > 0 {
            lemma_index_of_id(items, j - 1);
        }
    }
}

} // verus!
