//! A graph: the ordered set of (timestamp, value) keys recorded for one
//! signal of one entity, answering point queries by linear interpolation or
//! by step (zero-order) hold.

use vstd::prelude::*;
use crate::interpolate::{between, lerp, lemma_lerp_at_right};

verus! {

/// Key times are strictly increasing: each timestamp occurs at most once and
/// iteration order is ascending.
pub open spec fn sorted(s: Seq<(u64, i64)>) -> bool {
    forall|i: int, j: int| 0 <= i < j < s.len() ==> s[i].0 < s[j].0
}

/// Some key in `s` carries the timestamp `t`.
pub open spec fn has_time(s: Seq<(u64, i64)>, t: u64) -> bool {
    exists|i: int| 0 <= i < s.len() && s[i].0 == t
}

/// The key `(t, v)` appears in `s`.
pub open spec fn has_key(s: Seq<(u64, i64)>, t: u64, v: i64) -> bool {
    exists|i: int| 0 <= i < s.len() && s[i] == (t, v)
}

/// The largest index whose key time is strictly before `t`, or `-1` when the
/// trailing keys (and hence, in a sorted sequence, all keys) are at or after
/// `t`.
pub open spec fn last_before(s: Seq<(u64, i64)>, t: u64) -> int
    decreases s.len(),
{
    if s.len() == 0 {
        -1
    } else if s[s.len() - 1].0 < t {
        s.len() - 1
    } else {
        last_before(s.drop_last(), t)
    }
}

/// The largest index whose key time is at or before `t`, or `-1`.
pub open spec fn last_at_or_before(s: Seq<(u64, i64)>, t: u64) -> int
    decreases s.len(),
{
    if s.len() == 0 {
        -1
    } else if s[s.len() - 1].0 <= t {
        s.len() - 1
    } else {
        last_at_or_before(s.drop_last(), t)
    }
}

/// The step (zero-order hold) reading of `s` at time `t`: the value of the
/// latest key at or before `t`, absent when no key lies at or before `t`.
pub open spec fn step_at(s: Seq<(u64, i64)>, t: u64) -> Option<i64> {
    let i = last_at_or_before(s, t);
    if i == -1 {
        None
    } else {
        Some(s[i].1)
    }
}

/// The linear reading of `s` at time `t`: interpolation between the nearest
/// key strictly before `t` and the nearest key at or after `t`, absent when
/// either bound is missing (no extrapolation).
pub open spec fn linear_at(s: Seq<(u64, i64)>, t: u64) -> Option<int> {
    let i = last_before(s, t);
    if i == -1 || i + 1 >= s.len() {
        None
    } else {
        Some(lerp(s[i].0 as int, s[i].1 as int, s[i + 1].0 as int, s[i + 1].1 as int, t as int))
    }
}

/// How one call of `add_key` with `(t, v)` relates the keys before (`pre`)
/// to the keys after (`post`): the key at `t` now holds `v`, every other
/// key is kept unchanged, and nothing else appears.
pub open spec fn add_post(pre: Seq<(u64, i64)>, post: Seq<(u64, i64)>, t: u64, v: i64) -> bool {
    &&& has_key(post, t, v)
    &&& forall|i: int| 0 <= i < post.len() && post[i].0 != t ==> has_key(pre, post[i].0, post[i].1)
    &&& forall|i: int| 0 <= i < pre.len() && pre[i].0 != t ==> has_key(post, pre[i].0, pre[i].1)
    &&& post.len() == pre.len() + (if has_time(pre, t) { 0int } else { 1int })
}

proof fn lemma_last_before_props(s: Seq<(u64, i64)>, t: u64)
    ensures
        -1 <= last_before(s, t) < s.len(),
        forall|j: int| last_before(s, t) < j < s.len() ==> s[j].0 >= t,
        last_before(s, t) >= 0 ==> s[last_before(s, t)].0 < t,
    decreases s.len(),
{
    if s.len() == 0 {
    } else if s[s.len() - 1].0 < t {
    } else {
        lemma_last_before_props(s.drop_last(), t);
        assert(forall|j: int| 0 <= j < s.len() - 1 ==> s.drop_last()[j] == s[j]);
    }
}

proof fn lemma_last_at_or_before_props(s: Seq<(u64, i64)>, t: u64)
    ensures
        -1 <= last_at_or_before(s, t) < s.len(),
        forall|j: int| last_at_or_before(s, t) < j < s.len() ==> s[j].0 > t,
        last_at_or_before(s, t) >= 0 ==> s[last_at_or_before(s, t)].0 <= t,
    decreases s.len(),
{
    if s.len() == 0 {
    } else if s[s.len() - 1].0 <= t {
    } else {
        lemma_last_at_or_before_props(s.drop_last(), t);
        assert(forall|j: int| 0 <= j < s.len() - 1 ==> s.drop_last()[j] == s[j]);
    }
}

/// An index below which the key time is strictly before `t` and above which
/// it is not can only be `last_before`.
proof fn lemma_last_before_unique(s: Seq<(u64, i64)>, t: u64, i: int)
    requires
        -1 <= i < s.len(),
        i >= 0 ==> s[i].0 < t,
        forall|j: int| i < j < s.len() ==> s[j].0 >= t,
    ensures
        i == last_before(s, t),
{
    lemma_last_before_props(s, t);
}

proof fn lemma_last_at_or_before_unique(s: Seq<(u64, i64)>, t: u64, i: int)
    requires
        -1 <= i < s.len(),
        i >= 0 ==> s[i].0 <= t,
        forall|j: int| i < j < s.len() ==> s[j].0 > t,
    ensures
        i == last_at_or_before(s, t),
{
    lemma_last_at_or_before_props(s, t);
}

/// The ordered key set of one signal graph.
pub struct Graph {
    keys: Vec<(u64, i64)>,
}

impl View for Graph {
    type V = Seq<(u64, i64)>;

    closed spec fn view(&self) -> Seq<(u64, i64)> {
        self.keys@
    }
}

impl Graph {
    /// The structural invariant: keys are strictly ordered by timestamp.
    pub open spec fn wf(&self) -> bool {
        sorted(self@)
    }

    /// A new graph holds no keys.
    pub fn new() -> (g: Graph)
        ensures
            g.wf(),
            g@.len() == 0,
    {
        Graph { keys: Vec::new() }
    }

    /// The number of keys recorded.
    pub fn len(&self) -> (n: usize)
        ensures
            n == self@.len(),
    {
        self.keys.len()
    }

    /// The key at position `i` in ascending timestamp order; with `len`,
    /// this enumerates the keys for an external formatter.
    pub fn key_at(&self, i: usize) -> (kv: (u64, i64))
        requires
            i < self@.len(),
        ensures
            kv == self@[i as int],
    {
        self.keys[i]
    }

    /// The lowest index whose key time is at or after `t` (the count of keys
    /// strictly before `t`).
    fn first_at_or_after(&self, t: u64) -> (r: usize)
        requires
            self.wf(),
        ensures
            r <= self@.len(),
            forall|i: int| 0 <= i < r ==> self@[i].0 < t,
            forall|i: int| r <= i < self@.len() ==> self@[i].0 >= t,
    {
        let mut lo: usize = 0;
        let mut hi: usize = self.keys.len();
        while lo < hi
            invariant
                lo <= hi <= self@.len(),
                self.wf(),
                forall|i: int| 0 <= i < lo ==> self@[i].0 < t,
                forall|i: int| hi <= i < self@.len() ==> self@[i].0 >= t,
            decreases hi - lo,
        {
            let mid = lo + (hi - lo) / 2;
            if self.keys[mid].0 < t {
                lo = mid + 1;
            } else {
                hi = mid;
            }
        }
        lo
    }

    /// The lowest index whose key time is strictly after `t`.
    fn first_after(&self, t: u64) -> (r: usize)
        requires
            self.wf(),
        ensures
            r <= self@.len(),
            forall|i: int| 0 <= i < r ==> self@[i].0 <= t,
            forall|i: int| r <= i < self@.len() ==> self@[i].0 > t,
    {
        let mut lo: usize = 0;
        let mut hi: usize = self.keys.len();
        while lo < hi
            invariant
                lo <= hi <= self@.len(),
                self.wf(),
                forall|i: int| 0 <= i < lo ==> self@[i].0 <= t,
                forall|i: int| hi <= i < self@.len() ==> self@[i].0 > t,
            decreases hi - lo,
        {
            let mid = lo + (hi - lo) / 2;
            if self.keys[mid].0 <= t {
                lo = mid + 1;
            } else {
                hi = mid;
            }
        }
        lo
    }

    /// Records the value `v` at timestamp `t`; a key already present at `t`
    /// is overwritten, every other key is kept.
    pub fn add_key(&mut self, t: u64, v: i64)
        requires
            old(self).wf(),
        ensures
            final(self).wf(),
            add_post(old(self)@, final(self)@, t, v),
    {
        let i = self.first_at_or_after(t);
        let ghost pre = self@;
        let ghost ii = i as int;
        if i < self.keys.len() && self.keys[i].0 == t {
            self.keys.set(i, (t, v));
            proof {
                let post = self@;
                assert(post[ii] == (t, v));
                assert forall|a: int, b: int| 0 <= a < b < post.len() implies post[a].0
                    < post[b].0 by {
                    assert(pre[a].0 < pre[b].0);
                }
                assert forall|j: int| 0 <= j < post.len() && post[j].0 != t implies has_key(
                    pre,
                    post[j].0,
                    post[j].1,
                ) by {
                    assert(post[j] == pre[j]);
                }
                assert forall|j: int| 0 <= j < pre.len() && pre[j].0 != t implies has_key(
                    post,
                    pre[j].0,
                    pre[j].1,
                ) by {
                    assert(post[j] == pre[j]);
                }
                assert(has_time(pre, t));
            }
        } else {
            self.keys.insert(i, (t, v));
            proof {
                let post = self@;
                assert(post == pre.insert(ii, (t, v)));
                assert(forall|j: int| 0 <= j < ii ==> post[j] == pre[j]);
                assert(forall|j: int| ii < j < post.len() ==> post[j] == pre[j - 1]);
                assert(post[ii] == (t, v));
                // no key at `t` was present: below `i` times are smaller,
                // from `i` on they are larger
                assert(forall|j: int| ii <= j < pre.len() ==> pre[j].0 > t);
                assert(!has_time(pre, t));
                assert forall|a: int, b: int| 0 <= a < b < post.len() implies post[a].0
                    < post[b].0 by {
                    if a < ii && b > ii {
                        assert(pre[a].0 < t);
                        assert(pre[b - 1].0 > t);
                    } else if a < ii && b == ii {
                        assert(pre[a].0 < t);
                    } else if a == ii && b > ii {
                        assert(pre[b - 1].0 > t);
                    } else if a < ii && b < ii {
                        assert(pre[a].0 < pre[b].0);
                    } else {
                        assert(pre[a - 1].0 < pre[b - 1].0);
                    }
                }
                assert forall|j: int| 0 <= j < post.len() && post[j].0 != t implies has_key(
                    pre,
                    post[j].0,
                    post[j].1,
                ) by {
                    if j < ii {
                        assert(post[j] == pre[j]);
                    } else if j > ii {
                        assert(post[j] == pre[j - 1]);
                    }
                }
                assert forall|j: int| 0 <= j < pre.len() && pre[j].0 != t implies has_key(
                    post,
                    pre[j].0,
                    pre[j].1,
                ) by {
                    if j < ii {
                        assert(post[j] == pre[j]);
                    } else {
                        assert(post[j + 1] == pre[j]);
                    }
                }
            }
        }
    }

    /// The linearly interpolated value at time `t`, absent exactly when no
    /// key lies strictly before `t` or no key lies at or after `t`.
    pub fn get_linear(&self, t: u64) -> (r: Option<i64>)
        requires
            self.wf(),
        ensures
            linear_at(self@, t) matches Some(value) ==> (r matches Some(rv) && rv as int
                == value),
            linear_at(self@, t) is None ==> r is None,
            r is None <==> ((forall|i: int| 0 <= i < self@.len() ==> self@[i].0 >= t) || (
            forall|i: int| 0 <= i < self@.len() ==> self@[i].0 < t)),
    {
        let n = self.first_at_or_after(t);
        proof {
            lemma_last_before_unique(self@, t, n - 1);
        }
        if n == 0 || n >= self.keys.len() {
            proof {
                if n == 0 {
                } else {
                    assert forall|i: int| 0 <= i < self@.len() implies self@[i].0 < t by {
                        if i < n - 1 {
                            assert(self@[i].0 < self@[n - 1].0);
                        }
                    }
                }
            }
            None
        } else {
            let (x0, y0) = self.keys[n - 1];
            let (x1, y1) = self.keys[n];
            Some(between(x0, y0, x1, y1, t))
        }
    }

    /// The step (zero-order hold) value at time `t`: the value of the
    /// latest key at or before `t`, absent when every key lies after `t`.
    pub fn get_step(&self, t: u64) -> (r: Option<i64>)
        requires
            self.wf(),
        ensures
            r == step_at(self@, t),
            r is None <==> (forall|i: int| 0 <= i < self@.len() ==> self@[i].0 > t),
    {
        let n = self.first_after(t);
        proof {
            lemma_last_at_or_before_unique(self@, t, n - 1);
        }
        if n == 0 {
            None
        } else {
            Some(self.keys[n - 1].1)
        }
    }
}

/// Overwrite: adding a value at `t` and then a second value at the same `t`
/// leaves exactly one key at `t`, and it holds the second value.
pub proof fn lemma_overwrite(
    pre: Seq<(u64, i64)>,
    mid: Seq<(u64, i64)>,
    post: Seq<(u64, i64)>,
    t: u64,
    v1: i64,
    v2: i64,
)
    requires
        sorted(post),
        add_post(pre, mid, t, v1),
        add_post(mid, post, t, v2),
    ensures
        has_key(post, t, v2),
        forall|i: int, j: int| 0 <= i < j < post.len() ==> !(post[i].0 == t && post[j].0 == t),
        forall|i: int| 0 <= i < post.len() && post[i].0 == t ==> post[i].1 == v2,
{
    let w = choose|w: int| 0 <= w < post.len() && post[w] == (t, v2);
    assert forall|i: int| 0 <= i < post.len() && post[i].0 == t implies post[i].1 == v2 by {
        if i < w {
            assert(post[i].0 < post[w].0);
        } else if i > w {
            assert(post[w].0 < post[i].0);
        }
    }
}

/// Exactness: when a key is recorded at `t0` and some key lies strictly
/// before it, the linear query at `t0` returns exactly the recorded value.
/// (At the earliest key the left bound is missing and the query is absent.)
pub proof fn lemma_linear_exact(s: Seq<(u64, i64)>, t0: u64, v0: i64)
    requires
        sorted(s),
        has_key(s, t0, v0),
        exists|i: int| 0 <= i < s.len() && s[i].0 < t0,
    ensures
        linear_at(s, t0) == Some(v0 as int),
{
    let w = choose|w: int| 0 <= w < s.len() && s[w] == (t0, v0);
    let b = choose|b: int| 0 <= b < s.len() && s[b].0 < t0;
    assert(b < w);
    assert(w >= 1);
    assert(s[w - 1].0 < t0);
    assert forall|j: int| w - 1 < j < s.len() implies s[j].0 >= t0 by {
        if j > w {
            assert(s[w].0 < s[j].0);
        }
    }
    lemma_last_before_unique(s, t0, w - 1);
    lemma_lerp_at_right(s[w - 1].0 as int, s[w - 1].1 as int, t0 as int, v0 as int);
}

/// Step hold: between two consecutive keys at `ta < tb`, for any `t` with
/// `ta <= t < tb`, the step query returns the value recorded at `ta`.
pub proof fn lemma_step_hold(s: Seq<(u64, i64)>, ta: u64, va: i64, tb: u64, t: u64)
    requires
        sorted(s),
        has_key(s, ta, va),
        has_time(s, tb),
        ta < tb,
        forall|i: int| 0 <= i < s.len() ==> !(ta < s[i].0 && s[i].0 < tb),
        ta <= t < tb,
    ensures
        step_at(s, t) == Some(va),
{
    let w = choose|w: int| 0 <= w < s.len() && s[w] == (ta, va);
    assert forall|j: int| w < j < s.len() implies s[j].0 > t by {
        assert(s[w].0 < s[j].0);
        assert(!(ta < s[j].0 && s[j].0 < tb));
    }
    lemma_last_at_or_before_unique(s, t, w);
}

/// An empty graph answers every query with absence.
pub proof fn lemma_empty_absent(s: Seq<(u64, i64)>, t: u64)
    requires
        s.len() == 0,
    ensures
        linear_at(s, t) is None,
        step_at(s, t) is None,
{
}

} // verus!

