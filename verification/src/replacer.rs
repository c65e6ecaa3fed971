use vstd::prelude::*;

use crate::errors::Error;
use crate::INF;

verus! {

/// How a frame was touched. The policy treats every kind alike; callers
/// say which kind they performed.
#[derive(Debug, PartialEq, Eq, Hash, Clone, Copy)]
pub enum AccessType {
    Unknown,
    Lookup,
    Scan,
    Index,
}

/// Per-frame access history: the last `k` access timestamps, oldest first,
/// and whether the frame may be evicted.
#[derive(Debug)]
pub struct LRUKNode {
    /// The most recent access timestamps, at most `k`, oldest at the front.
    pub history: Vec<usize>,
    pub k: usize,
    pub is_evictable: bool,
}

/// The backward k-distance of a node: how far the k-th most recent access
/// lies behind the current timestamp, or infinity while the node has seen
/// fewer than `k` accesses.
pub open spec fn spec_k_distance(node: LRUKNode, current_timestamp: usize) -> int {
    if node.history@.len() < node.k {
        INF as int
    } else {
        current_timestamp - node.history@[0]
    }
}

impl LRUKNode {
    /// A node's internal shape: a non-empty history of at most `k` strictly
    /// increasing timestamps, all before the given current timestamp.
    pub open spec fn wf(&self, current_timestamp: usize) -> bool {
        &&& 1 <= self.history@.len() <= self.k
        &&& forall|i: int, j: int|
            0 <= i < j < self.history@.len() ==> #[trigger] self.history@[i]
                < #[trigger] self.history@[j]
        &&& forall|i: int|
            0 <= i < self.history@.len() ==> #[trigger] self.history@[i] < current_timestamp
    }

    /// A fresh, untracked node with an empty history.
    pub fn new(k: usize) -> (r: LRUKNode)
        ensures
            r.history@ =~= Seq::<usize>::empty(),
            r.k == k,
            !r.is_evictable,
    {
        LRUKNode { history: Vec::new(), k, is_evictable: false }
    }

    /// The distance from the current timestamp back to the k-th most recent
    /// access, or infinity with fewer than `k` recorded accesses.
    pub fn get_backwards_k_distance(&self, current_timestamp: usize) -> (r: usize)
        requires
            self.k >= 1,
            self.history@.len() > 0 ==> self.history@[0] <= current_timestamp,
        ensures
            r == spec_k_distance(*self, current_timestamp),
    {
        if self.has_infinite_backwards_k_distance() {
            return INF;
        }
        current_timestamp - self.get_kth_most_recent_timestamp()
    }

    /// Whether fewer than `k` accesses have been recorded.
    pub fn has_infinite_backwards_k_distance(&self) -> (r: bool)
        ensures
            r == (self.history@.len() < self.k),
    {
        self.history.len() < self.k
    }

    /// The k-th most recent access timestamp: the history's front.
    pub fn get_kth_most_recent_timestamp(&self) -> (r: usize)
        requires
            self.history@.len() >= self.k,
            self.history@.len() > 0,
        ensures
            r == self.history@[0],
    {
        self.history[0]
    }

    /// The most recent access timestamp: the history's back.
    pub fn get_most_recent_timestamp(&self) -> (r: usize)
        requires
            self.history@.len() > 0,
        ensures
            r == self.history@.last(),
    {
        self.history[self.history.len() - 1]
    }
}

/// The history after one more access at the given timestamp: the oldest
/// entry falls out once `k` are held.
pub open spec fn spec_push_history(h: Seq<usize>, ts: usize, k: int) -> Seq<usize> {
    (if h.len() >= k {
        h.drop_first()
    } else {
        h
    }).push(ts)
}

/// The history a fresh frame holds after being accessed at each timestamp
/// of `stamps`, in order.
pub open spec fn spec_history_of(stamps: Seq<usize>, k: int) -> Seq<usize>
    decreases stamps.len(),
{
    if stamps.len() == 0 {
        Seq::empty()
    } else {
        spec_push_history(spec_history_of(stamps.drop_last(), k), stamps.last(), k)
    }
}

/// The history after any run of accesses is the run's last `k` timestamps:
/// all of them while fewer than `k` have happened.
pub proof fn lemma_history_of_is_suffix(stamps: Seq<usize>, k: int)
    requires
        k >= 1,
    ensures
        spec_history_of(stamps, k) =~= (if stamps.len() >= k {
            stamps.skip(stamps.len() - k)
        } else {
            stamps
        }),
    decreases stamps.len(),
{
    if stamps.len() > 0 {
        lemma_history_of_is_suffix(stamps.drop_last(), k);
    }
}

/// After a fresh frame is accessed at each timestamp of `stamps` in order,
/// its backward k-distance is finite exactly when at least `k` accesses
/// happened, and then equals the current timestamp minus the `k`-th most
/// recent access's timestamp.
pub proof fn lemma_k_distance_after_accesses(
    node: LRUKNode,
    stamps: Seq<usize>,
    current_timestamp: usize,
)
    requires
        node.k >= 1,
        node.history@ == spec_history_of(stamps, node.k as int),
    ensures
        stamps.len() >= node.k ==> spec_k_distance(node, current_timestamp) == current_timestamp
            - stamps[stamps.len() - node.k],
        stamps.len() < node.k ==> spec_k_distance(node, current_timestamp) == INF,
{
    lemma_history_of_is_suffix(stamps, node.k as int);
}

/// The LRU-K replacement policy: per-frame access histories, a count of
/// evictable frames, and a monotonic clock of accesses.
#[derive(Debug)]
pub struct LRUKReplacer {
    /// One entry per frame; an entry is filled while the frame is tracked.
    pub node_store: Vec<Option<LRUKNode>>,
    pub current_timestamp: usize,
    /// Number of evictable frames: not the number of tracked frames.
    pub curr_size: usize,
    /// Largest number of frames the replacer manages.
    pub max_size: usize,
    pub k: usize,
}

/// Number of evictable tracked frames among the first `n` entries.
pub open spec fn spec_evictable_count(store: Seq<Option<LRUKNode>>, n: int) -> int
    decreases n,
{
    if n <= 0 {
        0
    } else {
        spec_evictable_count(store, n - 1) + (match store[n - 1] {
            Some(node) => if node.is_evictable {
                1int
            } else {
                0int
            },
            Option::None => 0int,
        })
    }
}

/// Whether frame `g` is a strictly better eviction victim than frame `f`:
/// an infinite k-distance beats any finite one; two infinite distances
/// compare by least recent use; two finite distances compare by size.
pub open spec fn spec_better_victim(a: LRUKNode, b: LRUKNode, current_timestamp: usize) -> bool {
    let a_inf = a.history@.len() < a.k;
    let b_inf = b.history@.len() < b.k;
    ||| (a_inf && !b_inf)
    ||| (a_inf && b_inf && a.history@.last() < b.history@.last())
    ||| (!a_inf && !b_inf && spec_k_distance(a, current_timestamp) > spec_k_distance(
        b,
        current_timestamp,
    ))
}

impl LRUKReplacer {
    /// The replacer's invariant: one store entry per frame, the evictable
    /// count correct, and every tracked node well-formed for this clock.
    pub open spec fn wf(&self) -> bool {
        &&& self.node_store@.len() == self.max_size
        &&& self.k >= 1
        &&& self.curr_size == spec_evictable_count(self.node_store@, self.max_size as int)
        &&& forall|f: int|
            0 <= f < self.max_size ==> (#[trigger] self.node_store@[f] matches Some(node)
                ==> node.wf(self.current_timestamp) && node.k == self.k)
    }

    /// Whether a frame is currently tracked.
    pub open spec fn spec_tracked(&self, f: int) -> bool {
        0 <= f < self.node_store@.len() && self.node_store@[f] is Some
    }

    /// Whether a frame is tracked and evictable.
    pub open spec fn spec_evictable(&self, f: int) -> bool {
        self.spec_tracked(f) && self.node_store@[f]->0.is_evictable
    }

    /// A replacer for the given number of frames with parameter `k`.
    pub fn new(num_frames: usize, k: usize) -> (r: LRUKReplacer)
        requires
            k >= 1,
        ensures
            r.wf(),
            r.max_size == num_frames,
            r.k == k,
            r.curr_size == 0,
            r.current_timestamp == 0,
            forall|f: int| 0 <= f < num_frames ==> !r.spec_tracked(f),
    {
        let mut node_store: Vec<Option<LRUKNode>> = Vec::new();
        let mut i: usize = 0;
        while i < num_frames
            invariant
                i <= num_frames,
                node_store@.len() == i,
                forall|f: int| 0 <= f < i ==> node_store@[f] is None,
            decreases num_frames - i,
        {
            node_store.push(Option::None);
            i = i + 1;
        }
        let r = LRUKReplacer { node_store, current_timestamp: 0, curr_size: 0, max_size: num_frames, k };
        proof {
            lemma_evictable_count_none(r.node_store@, num_frames as int);
        }
        r
    }

    /// A fresh replacer builder.
    pub fn builder() -> (r: LRUKReplacerBuilder)
        ensures
            r.max_size is None,
            r.k is None,
    {
        LRUKReplacerBuilder { max_size: Option::None, k: Option::None }
    }

    /// The number of evictable frames.
    pub fn size(&self) -> (r: usize)
        ensures
            r == self.curr_size,
    {
        self.curr_size
    }

    /// Whether every frame is evictable.
    pub fn is_full_capacity(&self) -> (r: bool)
        ensures
            r == (self.curr_size == self.max_size),
    {
        self.curr_size == self.max_size
    }

    /// Whether a frame is currently tracked.
    pub fn contains_frame(&self, frame_id: usize) -> (r: bool)
        requires
            self.wf(),
        ensures
            r == self.spec_tracked(frame_id as int),
    {
        frame_id < self.max_size && self.node_store[frame_id].is_some()
    }

    /// Whether a tracked frame is currently evictable.
    pub fn frame_evictable(&self, frame_id: usize) -> (r: bool)
        requires
            self.wf(),
        ensures
            r == self.spec_evictable(frame_id as int),
    {
        if frame_id >= self.max_size {
            return false;
        }
        match &self.node_store[frame_id] {
            Some(node_ref) => node_ref.is_evictable,
            Option::None => false,
        }
    }

    /// Records an access to a frame at the current timestamp and advances
    /// the clock. An untracked frame starts a fresh history if the replacer
    /// has room by its evictable count; a frame id past the capacity is an
    /// error.
    pub fn record_access(&mut self, frame_id: &usize, access_type: AccessType) -> (r: Result<
        (),
        Error,
    >)
        requires
            old(self).wf(),
            old(self).current_timestamp < usize::MAX,
            *frame_id < old(self).max_size,
        ensures
            final(self).wf(),
            r is Ok,
            r is Ok ==> {
                &&& final(self).current_timestamp == old(self).current_timestamp + 1
                &&& final(self).max_size == old(self).max_size
                &&& final(self).k == old(self).k
                &&& final(self).curr_size == old(self).curr_size
                &&& forall|g: int|
                    0 <= g < old(self).max_size && g != *frame_id
                        ==> final(self).node_store@[g] == old(self).node_store@[g]
                &&& (old(self).spec_tracked(*frame_id as int)
                    ==> (final(self).node_store@[*frame_id as int] matches Some(node)
                        && node.history@ == spec_push_history(
                        old(self).node_store@[*frame_id as int]->0.history@,
                        old(self).current_timestamp,
                        old(self).k as int,
                    ) && node.is_evictable == old(
                        self,
                    ).node_store@[*frame_id as int]->0.is_evictable))
                &&& (!old(self).spec_tracked(*frame_id as int) && old(self).curr_size < old(
                    self,
                ).max_size ==> (final(self).node_store@[*frame_id as int] matches Some(node)
                    && node.history@ =~= seq![old(self).current_timestamp]
                    && !node.is_evictable))
                &&& (!old(self).spec_tracked(*frame_id as int) && old(self).curr_size >= old(
                    self,
                ).max_size ==> final(self).node_store@[*frame_id as int] is None)
            },
    {
        let fid = *frame_id;
        if fid >= self.max_size {
            return Err(Error::InvalidInput("frame id is past the replacer's capacity".to_string()));
        }
        let ghost pre = *self;
        let tracked_here = self.node_store[fid].is_some();
        if !tracked_here && self.curr_size < self.max_size {
            let node = LRUKNode::new(self.k);
            proof {
                lemma_evictable_count_update(
                    self.node_store@,
                    fid as int,
                    Some(LRUKNode { history: node.history, k: node.k, is_evictable: false }),
                    self.max_size as int,
                );
            }
            self.node_store.set(fid, Some(node));
        }
        // push the timestamp into the history, dropping the oldest entry of
        // a full history, then advance the clock
        let ts = self.current_timestamp;
        if self.node_store[fid].is_some() {
            let k_val: usize;
            let evict_flag: bool;
            let mut hist: Vec<usize>;
            match &self.node_store[fid] {
                Some(node_ref) => {
                    k_val = node_ref.k;
                    evict_flag = node_ref.is_evictable;
                    hist = node_ref.history.clone();
                    proof {
                        assert forall|j: int| 0 <= j < node_ref.history@.len() implies hist@[j]
                            == node_ref.history@[j] by {
                            assert(vstd::pervasive::cloned::<usize>(
                                node_ref.history@[j],
                                hist@[j],
                            ));
                        }
                        assert(hist@ =~= node_ref.history@);
                    }
                },
                Option::None => {
                    proof {
                        assert(false);
                    }
                    k_val = 1;
                    evict_flag = false;
                    hist = Vec::new();
                },
            }
            let ghost old_hist = hist@;
            if hist.len() >= k_val {
                hist.remove(0);
                proof {
                    assert(hist@ =~= old_hist.drop_first());
                }
            }
            hist.push(ts);
            proof {
                assert(hist@ =~= spec_push_history(old_hist, ts, k_val as int));
            }
            let node = LRUKNode { history: hist, k: k_val, is_evictable: evict_flag };
            proof {
                lemma_evictable_count_update(
                    self.node_store@,
                    fid as int,
                    Some(LRUKNode { history: node.history, k: node.k, is_evictable: evict_flag }),
                    self.max_size as int,
                );
            }
            self.node_store.set(fid, Some(node));
        }
        self.current_timestamp = self.current_timestamp + 1;
        Ok(())
    }
}

/// A store of empty entries has no evictable frames.
proof fn lemma_evictable_count_none(store: Seq<Option<LRUKNode>>, n: int)
    requires
        forall|f: int| 0 <= f < n ==> store[f] is None,
    ensures
        spec_evictable_count(store, n) == 0,
    decreases n,
{
    if n > 0 {
        lemma_evictable_count_none(store, n - 1);
    }
}

/// How the evictable count changes when one entry is replaced.
proof fn lemma_evictable_count_update(
    store: Seq<Option<LRUKNode>>,
    at: int,
    v: Option<LRUKNode>,
    n: int,
)
    requires
        0 <= at < store.len(),
        n <= store.len(),
    ensures
        spec_evictable_count(store.update(at, v), n) == spec_evictable_count(store, n) + (if at
            < n {
            (match v {
                Some(node) => if node.is_evictable {
                    1int
                } else {
                    0int
                },
                Option::None => 0int,
            }) - (match store[at] {
                Some(node) => if node.is_evictable {
                    1int
                } else {
                    0int
                },
                Option::None => 0int,
            })
        } else {
            0int
        }),
    decreases n,
{
    if n > 0 {
        lemma_evictable_count_update(store, at, v, n - 1);
    }
}

/// A builder for a replacer.
pub struct LRUKReplacerBuilder {
    pub max_size: Option<usize>,
    pub k: Option<usize>,
}

impl LRUKReplacerBuilder {
    /// Sets the frame capacity, which must be positive.
    pub fn max_size(self, num_frames: usize) -> (r: LRUKReplacerBuilder)
        requires
            num_frames > 0,
        ensures
            r.max_size == Some(num_frames),
            r.k == self.k,
    {
        LRUKReplacerBuilder { max_size: Some(num_frames), k: self.k }
    }

    /// Sets the `k` parameter, which must be positive.
    pub fn k(self, k: usize) -> (r: LRUKReplacerBuilder)
        requires
            k > 0,
        ensures
            r.k == Some(k),
            r.max_size == self.max_size,
    {
        LRUKReplacerBuilder { max_size: self.max_size, k: Some(k) }
    }

    /// Builds the replacer; both parameters must have been set.
    pub fn build(self) -> (r: LRUKReplacer)
        requires
            self.max_size matches Some(m) && m > 0,
            self.k matches Some(k) && k > 0,
        ensures
            r.wf(),
            r.max_size == self.max_size->0,
            r.k == self.k->0,
            r.curr_size == 0,
            r.current_timestamp == 0,
            forall|f: int| 0 <= f < r.max_size ==> !r.spec_tracked(f),
    {
        let m = match self.max_size {
            Some(m) => m,
            Option::None => 1,
        };
        let k = match self.k {
            Some(k) => k,
            Option::None => 1,
        };
        LRUKReplacer::new(m, k)
    }
}

} // verus!

verus! {

impl LRUKReplacer {
    /// Marks a tracked frame evictable or pinned, adjusting the evictable
    /// count on a transition; an untracked frame is an error.
    pub fn set_evictable(&mut self, frame_id: &usize, set_evictable: bool) -> (r: Result<
        (),
        Error,
    >)
        requires
            old(self).wf(),
        ensures
            final(self).wf(),
            r is Ok <==> old(self).spec_tracked(*frame_id as int),
            r is Err ==> *final(self) == *old(self),
            r is Ok ==> {
                &&& final(self).node_store@.len() == old(self).node_store@.len()
                &&& (forall|g: int|
                    0 <= g < old(self).max_size && g != *frame_id
                        ==> final(self).node_store@[g] == old(self).node_store@[g])
                &&& (final(self).node_store@[*frame_id as int] matches Some(node)
                    && node.history@ == old(self).node_store@[*frame_id as int]->0.history@
                    && node.k == old(self).node_store@[*frame_id as int]->0.k
                    && node.is_evictable == set_evictable)
                &&& final(self).current_timestamp == old(self).current_timestamp
                &&& final(self).max_size == old(self).max_size
                &&& final(self).k == old(self).k
                &&& final(self).curr_size == old(self).curr_size + (
                if set_evictable && !old(self).spec_evictable(*frame_id as int) {
                    1int
                } else if !set_evictable && old(self).spec_evictable(*frame_id as int) {
                    -1int
                } else {
                    0int
                })
            },
    {
        let fid = *frame_id;
        if fid >= self.max_size {
            return Err(Error::InvalidInput("no tracked frame has this id".to_string()));
        }
        let was_evictable: bool;
        let k_val: usize;
        let mut hist: Vec<usize>;
        match &self.node_store[fid] {
            Some(node_ref) => {
                was_evictable = node_ref.is_evictable;
                k_val = node_ref.k;
                hist = node_ref.history.clone();
                proof {
                    assert forall|j: int| 0 <= j < node_ref.history@.len() implies hist@[j]
                        == node_ref.history@[j] by {
                        assert(vstd::pervasive::cloned::<usize>(node_ref.history@[j], hist@[j]));
                    }
                    assert(hist@ =~= node_ref.history@);
                }
            },
            Option::None => {
                return Err(Error::InvalidInput("no tracked frame has this id".to_string()));
            },
        }
        let node = LRUKNode { history: hist, k: k_val, is_evictable: set_evictable };
        proof {
            lemma_evictable_count_update(
                self.node_store@,
                fid as int,
                Some(LRUKNode { history: node.history, k: node.k, is_evictable: set_evictable }),
                self.max_size as int,
            );
        }
        proof {
            lemma_evictable_count_member_bound(
                self.node_store@,
                self.max_size as int,
                fid as int,
            );
        }
        self.node_store.set(fid, Some(node));
        if set_evictable && !was_evictable {
            self.curr_size = self.curr_size + 1;
        } else if !set_evictable && was_evictable {
            self.curr_size = self.curr_size - 1;
        }
        Ok(())
    }

    /// Removes a tracked evictable frame and its history; removing a
    /// pinned frame is an error, removing an unknown frame does nothing.
    pub fn remove(&mut self, frame_id: &usize) -> (r: Result<(), Error>)
        requires
            old(self).wf(),
            !(old(self).spec_tracked(*frame_id as int) && !old(self).spec_evictable(
                *frame_id as int,
            )),
        ensures
            final(self).wf(),
            r is Ok,
            !old(self).spec_tracked(*frame_id as int) ==> *final(self) == *old(self),
            r is Ok && old(self).spec_tracked(*frame_id as int) ==> {
                &&& final(self).node_store@ =~= old(self).node_store@.update(
                    *frame_id as int,
                    Option::None,
                )
                &&& final(self).curr_size == old(self).curr_size - 1
                &&& final(self).current_timestamp == old(self).current_timestamp
                &&& final(self).max_size == old(self).max_size
                &&& final(self).k == old(self).k
            },
    {
        let fid = *frame_id;
        if fid >= self.max_size {
            return Ok(());
        }
        let evictable: bool;
        match &self.node_store[fid] {
            Some(node_ref) => {
                evictable = node_ref.is_evictable;
            },
            Option::None => {
                return Ok(());
            },
        }
        if !evictable {
            return Err(Error::InvalidInput("the frame to remove is not evictable".to_string()));
        }
        proof {
            lemma_evictable_count_update(
                self.node_store@,
                fid as int,
                Option::None,
                self.max_size as int,
            );
            lemma_evictable_count_member_bound(
                self.node_store@,
                self.max_size as int,
                fid as int,
            );
        }
        self.node_store.set(fid, Option::None);
        self.curr_size = self.curr_size - 1;
        Ok(())
    }

    /// The frame the policy would evict: the evictable frame with the
    /// largest backward k-distance, with ties among the infinitely distant
    /// broken by the least recent single access.
    pub fn get_frame_to_evict(&self) -> (r: Option<usize>)
        requires
            self.wf(),
        ensures
            r is Some <==> self.curr_size > 0,
            r matches Some(fid) ==> self.spec_evictable(fid as int) && (forall|g: int|
                self.spec_evictable(g) ==> !spec_better_victim(
                    self.node_store@[g]->0,
                    self.node_store@[fid as int]->0,
                    self.current_timestamp,
                )),
    {
        let n = self.max_size;
        let mut best: Option<usize> = Option::None;
        let mut i: usize = 0;
        while i < n
            invariant
                self.wf(),
                n == self.max_size,
                i <= n,
                best matches Some(b) ==> self.spec_evictable(b as int) && (forall|g: int|
                    0 <= g < i && self.spec_evictable(g) ==> !spec_better_victim(
                        self.node_store@[g]->0,
                        self.node_store@[b as int]->0,
                        self.current_timestamp,
                    )),
                best is None ==> (forall|g: int| 0 <= g < i ==> !self.spec_evictable(g)),
            decreases n - i,
        {
            let candidate_evictable = match &self.node_store[i] {
                Some(node_ref) => node_ref.is_evictable,
                Option::None => false,
            };
            if candidate_evictable {
                match best {
                    Option::None => {
                        best = Some(i);
                    },
                    Some(b) => {
                        let replace: bool;
                        match (&self.node_store[i], &self.node_store[b]) {
                            (Some(cand), Some(cur)) => {
                                let cand_inf = cand.has_infinite_backwards_k_distance();
                                let cur_inf = cur.has_infinite_backwards_k_distance();
                                if cand_inf && !cur_inf {
                                    replace = true;
                                } else if cand_inf && cur_inf {
                                    replace = cand.get_most_recent_timestamp()
                                        < cur.get_most_recent_timestamp();
                                } else if !cand_inf && !cur_inf {
                                    replace = cand.get_backwards_k_distance(self.current_timestamp)
                                        > cur.get_backwards_k_distance(self.current_timestamp);
                                } else {
                                    replace = false;
                                }
                            },
                            _ => {
                                replace = false;
                                proof {
                                    assert(false);
                                }
                            },
                        }
                        if replace {
                            best = Some(i);
                        }
                    },
                }
            }
            i = i + 1;
        }
        proof {
            if best is None {
                assert forall|f: int| 0 <= f < self.max_size implies !((
                #[trigger] self.node_store@[f]) matches Some(node) && node.is_evictable) by {
                    assert(!self.spec_evictable(f));
                }
                lemma_no_evictable_count_zero(self.node_store@, self.max_size as int);
            } else {
                lemma_evictable_count_member_bound(
                    self.node_store@,
                    self.max_size as int,
                    best->0 as int,
                );
            }
        }
        best
    }

    /// Removes the given frame's history outright.
    pub fn evict_frame(&mut self, frame_id: &usize)
        requires
            old(self).wf(),
            *frame_id < old(self).max_size,
        ensures
            final(self).node_store@ =~= old(self).node_store@.update(
                *frame_id as int,
                Option::None,
            ),
            final(self).curr_size == old(self).curr_size,
            final(self).current_timestamp == old(self).current_timestamp,
            final(self).max_size == old(self).max_size,
            final(self).k == old(self).k,
    {
        self.node_store.set(*frame_id, Option::None);
    }

    /// Decrements the evictable count, which must be positive.
    pub fn decrement_current_size(&mut self)
        requires
            old(self).curr_size > 0,
        ensures
            *final(self) == (LRUKReplacer { curr_size: (old(self).curr_size - 1) as usize, ..*old(self) }),
    {
        self.curr_size = self.curr_size - 1;
    }

    /// Increments the evictable count.
    pub fn increment_current_size(&mut self)
        requires
            old(self).curr_size < usize::MAX,
        ensures
            *final(self) == (LRUKReplacer { curr_size: (old(self).curr_size + 1) as usize, ..*old(self) }),
    {
        self.curr_size = self.curr_size + 1;
    }

    /// Evicts the frame with the largest backward k-distance, if any frame
    /// is evictable: the frame leaves the replacer and the evictable count
    /// falls by one.
    pub fn evict(&mut self) -> (r: Option<usize>)
        requires
            old(self).wf(),
        ensures
            final(self).wf(),
            r is Some <==> old(self).curr_size > 0,
            r is None ==> *final(self) == *old(self),
            r matches Some(fid) ==> {
                &&& old(self).spec_evictable(fid as int)
                &&& (forall|g: int|
                    old(self).spec_evictable(g) ==> !spec_better_victim(
                        old(self).node_store@[g]->0,
                        old(self).node_store@[fid as int]->0,
                        old(self).current_timestamp,
                    ))
                &&& final(self).node_store@ =~= old(self).node_store@.update(
                    fid as int,
                    Option::None,
                )
                &&& final(self).curr_size == old(self).curr_size - 1
                &&& final(self).current_timestamp == old(self).current_timestamp
                &&& final(self).max_size == old(self).max_size
                &&& final(self).k == old(self).k
            },
    {
        let frame_id = match self.get_frame_to_evict() {
            Some(f) => f,
            Option::None => {
                return Option::None;
            },
        };
        proof {
            lemma_evictable_count_update(
                self.node_store@,
                frame_id as int,
                Option::None,
                self.max_size as int,
            );
            lemma_evictable_count_member_bound(
                self.node_store@,
                self.max_size as int,
                frame_id as int,
            );
        }
        self.evict_frame(&frame_id);
        self.decrement_current_size();
        Some(frame_id)
    }
}

/// A store with an evictable entry has a positive evictable count, and the
/// count never exceeds the number of entries.
pub proof fn lemma_evictable_count_member_bound(store: Seq<Option<LRUKNode>>, n: int, at: int)
    requires
        0 <= at < n <= store.len(),
    ensures
        store[at] matches Some(node) && node.is_evictable ==> spec_evictable_count(store, n) >= 1,
        !(store[at] matches Some(node) && node.is_evictable) ==> spec_evictable_count(store, n)
            <= n - 1,
        0 <= spec_evictable_count(store, n) <= n,
    decreases n,
{
    if at == n - 1 {
        lemma_evictable_count_nonneg(store, n - 1);
        lemma_evictable_count_le(store, n - 1);
    } else {
        lemma_evictable_count_member_bound(store, n - 1, at);
    }
}

/// The evictable count never exceeds the number of entries.
proof fn lemma_evictable_count_le(store: Seq<Option<LRUKNode>>, n: int)
    requires
        n >= 0,
    ensures
        spec_evictable_count(store, n) <= n,
    decreases n,
{
    if n > 0 {
        lemma_evictable_count_le(store, n - 1);
    }
}

/// The evictable count is never negative.
proof fn lemma_evictable_count_nonneg(store: Seq<Option<LRUKNode>>, n: int)
    ensures
        spec_evictable_count(store, n) >= 0,
    decreases n,
{
    if n > 0 {
        lemma_evictable_count_nonneg(store, n - 1);
    }
}

/// A store with no evictable entries has an evictable count of zero.
proof fn lemma_no_evictable_count_zero(store: Seq<Option<LRUKNode>>, n: int)
    requires
        forall|f: int| 0 <= f < n ==> !((#[trigger] store[f]) matches Some(node) && node.is_evictable),
    ensures
        spec_evictable_count(store, n) == 0,
    decreases n,
{
    if n > 0 {
        lemma_no_evictable_count_zero(store, n - 1);
    }
}

} // verus!
