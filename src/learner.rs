use vstd::prelude::*;
use crate::direction::{Direction, all_directions, direction_at};

verus! {

/// A table key: the state (x, y) and the action taken there.
pub type QKey = (usize, usize, Direction);

/// Bit pattern of the estimate `0.0`, the default of an unvisited pair.
pub const ZERO_ESTIMATE: u32 = 0;

/// Whether the IEEE-754 single-precision bit pattern `b` is a NaN.
pub open spec fn is_nan_bits(b: u32) -> bool {
    (b & 0x7fff_ffffu32) > 0x7f80_0000u32
}

/// An integer that orders non-NaN bit patterns as the numbers they encode:
/// the magnitude bits, negated when the sign bit is set, so both zeros map
/// to 0.
pub open spec fn order_key(b: u32) -> int {
    let m = (b & 0x7fff_ffffu32) as int;
    if b >= 0x8000_0000u32 {
        -m
    } else {
        m
    }
}

/// Whether the estimate `a` is strictly greater than `b`; a NaN is never
/// greater nor smaller than anything.
pub open spec fn exceeds(a: u32, b: u32) -> bool {
    !is_nan_bits(a) && !is_nan_bits(b) && order_key(a) > order_key(b)
}

/// `a > b` on the estimates that the bit patterns encode.
pub fn estimate_gt(a: u32, b: u32) -> (r: bool)
    ensures
        r == exceeds(a, b),
{
    let ma = a & 0x7fff_ffffu32;
    let mb = b & 0x7fff_ffffu32;
    if ma > 0x7f80_0000u32 || mb > 0x7f80_0000u32 {
        return false;
    }
    let ka: i64 = if a >= 0x8000_0000u32 {
        -(ma as i64)
    } else {
        ma as i64
    };
    let kb: i64 = if b >= 0x8000_0000u32 {
        -(mb as i64)
    } else {
        mb as i64
    };
    ka > kb
}

/// Index of the greedy choice among the first `n` values: scanning in order,
/// a later value replaces the current choice only if it is strictly greater,
/// so the earliest of equal values wins.
pub open spec fn first_best(v: Seq<u32>, n: int) -> int
    decreases n,
{
    if n <= 1 {
        0
    } else {
        let b = first_best(v, n - 1);
        if exceeds(v[n - 1], v[b]) {
            n - 1
        } else {
            b
        }
    }
}

/// The estimate that a lookup of `k` returns: the stored one, or the default.
pub open spec fn lookup(m: Map<QKey, u32>, k: QKey) -> u32 {
    if m.contains_key(k) {
        m[k]
    } else {
        ZERO_ESTIMATE
    }
}

/// The table after a lookup of `k`: the default is stored if `k` was absent.
pub open spec fn touched(m: Map<QKey, u32>, k: QKey) -> Map<QKey, u32> {
    if m.contains_key(k) {
        m
    } else {
        m.insert(k, ZERO_ESTIMATE)
    }
}

/// The table after looking up the first `n` actions at `(x, y)`, in the
/// fixed order.
pub open spec fn touched_first(m: Map<QKey, u32>, x: usize, y: usize, n: int) -> Map<QKey, u32>
    decreases n,
{
    if n <= 0 {
        m
    } else {
        touched(touched_first(m, x, y, n - 1), (x, y, direction_at(n - 1)))
    }
}

/// The four estimates at `(x, y)`, in the fixed action order.
pub open spec fn action_values(m: Map<QKey, u32>, x: usize, y: usize) -> Seq<u32> {
    Seq::new(4, |i: int| lookup(m, (x, y, direction_at(i))))
}

/// Whether some entry of `s` has key `k`.
pub open spec fn has_key(s: Seq<(QKey, u32)>, k: QKey) -> bool {
    exists|i: int| 0 <= i < s.len() && #[trigger] s[i].0 == k
}

/// No key occurs twice in `s`.
pub open spec fn keys_unique(s: Seq<(QKey, u32)>) -> bool {
    forall|i: int, j: int|
        0 <= i < s.len() && 0 <= j < s.len() && #[trigger] s[i].0 == #[trigger] s[j].0 ==> i == j
}

/// The map that a sequence of entries with unique keys stands for.
pub open spec fn table_of(s: Seq<(QKey, u32)>) -> Map<QKey, u32> {
    Map::new(
        |k: QKey| has_key(s, k),
        |k: QKey| s[choose|i: int| 0 <= i < s.len() && #[trigger] s[i].0 == k].1,
    )
}

proof fn lemma_touch_keeps_lookup(m: Map<QKey, u32>, k: QKey, k2: QKey)
    ensures
        lookup(touched(m, k), k2) == lookup(m, k2),
{
}

proof fn lemma_touch_first_keeps_lookup(m: Map<QKey, u32>, x: usize, y: usize, n: int, k2: QKey)
    ensures
        lookup(touched_first(m, x, y, n), k2) == lookup(m, k2),
    decreases n,
{
    if n > 0 {
        lemma_touch_first_keeps_lookup(m, x, y, n - 1, k2);
        lemma_touch_keeps_lookup(touched_first(m, x, y, n - 1), (x, y, direction_at(n - 1)), k2);
    }
}

/// With no NaN among the first `n` values, the greedy choice is the first
/// index whose value no other value exceeds.
pub proof fn lemma_first_best_is_first_max(v: Seq<u32>, n: int)
    requires
        1 <= n <= v.len(),
        forall|j: int| 0 <= j < n ==> !is_nan_bits(#[trigger] v[j]),
    ensures
        0 <= first_best(v, n) < n,
        forall|j: int| 0 <= j < n ==> !exceeds(#[trigger] v[j], v[first_best(v, n)]),
        forall|j: int| 0 <= j < first_best(v, n) ==> exceeds(v[first_best(v, n)], #[trigger] v[j]),
    decreases n,
{
    if n > 1 {
        lemma_first_best_is_first_max(v, n - 1);
    }
}

/// When the four values are all equal, the greedy choice is the first one.
pub proof fn lemma_ties_pick_first(v: Seq<u32>)
    requires
        v.len() == 4,
        forall|i: int| 0 <= i < 4 ==> #[trigger] v[i] == v[0],
    ensures
        first_best(v, 4) == 0,
{
    assert(v[1] == v[0] && v[2] == v[0] && v[3] == v[0]);
    assert(first_best(v, 1) == 0);
    assert(first_best(v, 2) == 0);
    assert(first_best(v, 3) == 0);
}

/// An absent pair reads as the default, the first lookup stores it, and a
/// second lookup without an update in between reads the same default and
/// changes nothing.
pub proof fn lemma_lazy_default_idempotent(m: Map<QKey, u32>, k: QKey)
    requires
        !m.contains_key(k),
    ensures
        lookup(m, k) == ZERO_ESTIMATE,
        touched(m, k) == m.insert(k, ZERO_ESTIMATE),
        lookup(touched(m, k), k) == ZERO_ESTIMATE,
        touched(touched(m, k), k) == touched(m, k),
{
}

proof fn lemma_entry_value(s: Seq<(QKey, u32)>, i: int)
    requires
        keys_unique(s),
        0 <= i < s.len(),
    ensures
        table_of(s).contains_key(s[i].0),
        table_of(s)[s[i].0] == s[i].1,
{
    let k = s[i].0;
    assert(has_key(s, k));
    let j = choose|j: int| 0 <= j < s.len() && #[trigger] s[j].0 == k;
    assert(s[j].0 == s[i].0);
}

proof fn lemma_push_new(s: Seq<(QKey, u32)>, k: QKey, v: u32)
    requires
        keys_unique(s),
        !has_key(s, k),
    ensures
        keys_unique(s.push((k, v))),
        table_of(s.push((k, v))) == table_of(s).insert(k, v),
{
    let t = s.push((k, v));
    assert forall|i: int, j: int|
        0 <= i < t.len() && 0 <= j < t.len() && #[trigger] t[i].0 == #[trigger] t[j].0 implies i
        == j by {
        if i < s.len() && j < s.len() {
            assert(s[i].0 == s[j].0);
        } else if i < s.len() {
            assert(s[i].0 == k);
        } else if j < s.len() {
            assert(s[j].0 == k);
        }
    }
    assert forall|k2: QKey| #[trigger] table_of(t).contains_key(k2) == table_of(s).insert(
        k,
        v,
    ).contains_key(k2) by {
        if has_key(t, k2) {
            let i = choose|i: int| 0 <= i < t.len() && #[trigger] t[i].0 == k2;
            if i < s.len() {
                assert(s[i].0 == k2);
            }
        }
        if has_key(s, k2) {
            let i = choose|i: int| 0 <= i < s.len() && #[trigger] s[i].0 == k2;
            assert(t[i].0 == k2);
        }
        if k2 == k {
            assert(t[s.len() as int].0 == k2);
        }
    }
    assert forall|k2: QKey| #[trigger] table_of(t).contains_key(k2) implies table_of(t)[k2]
        == table_of(s).insert(k, v)[k2] by {
        let i = choose|i: int| 0 <= i < t.len() && #[trigger] t[i].0 == k2;
        lemma_entry_value(t, i);
        if i < s.len() {
            assert(s[i] == t[i]);
            lemma_entry_value(s, i);
        }
    }
    assert(table_of(t) =~= table_of(s).insert(k, v));
}

proof fn lemma_update_at(s: Seq<(QKey, u32)>, i: int, v: u32)
    requires
        keys_unique(s),
        0 <= i < s.len(),
    ensures
        keys_unique(s.update(i, (s[i].0, v))),
        table_of(s.update(i, (s[i].0, v))) == table_of(s).insert(s[i].0, v),
{
    let k = s[i].0;
    let t = s.update(i, (k, v));
    assert forall|a: int, b: int|
        0 <= a < t.len() && 0 <= b < t.len() && #[trigger] t[a].0 == #[trigger] t[b].0 implies a
        == b by {
        assert(s[a].0 == t[a].0 && s[b].0 == t[b].0);
    }
    assert forall|k2: QKey| #[trigger] table_of(t).contains_key(k2) == table_of(s).insert(
        k,
        v,
    ).contains_key(k2) by {
        if has_key(t, k2) {
            let j = choose|j: int| 0 <= j < t.len() && #[trigger] t[j].0 == k2;
            assert(s[j].0 == k2);
        }
        if has_key(s, k2) {
            let j = choose|j: int| 0 <= j < s.len() && #[trigger] s[j].0 == k2;
            assert(t[j].0 == k2);
        }
        if k2 == k {
            assert(t[i].0 == k2);
        }
    }
    assert forall|k2: QKey| #[trigger] table_of(t).contains_key(k2) implies table_of(t)[k2]
        == table_of(s).insert(k, v)[k2] by {
        let j = choose|j: int| 0 <= j < t.len() && #[trigger] t[j].0 == k2;
        lemma_entry_value(t, j);
        if j != i {
            assert(s[j] == t[j]);
            lemma_entry_value(s, j);
        }
    }
    assert(table_of(t) =~= table_of(s).insert(k, v));
}

/// The learner's action-value table. Each estimate is kept as the bit
/// pattern of an IEEE-754 single-precision number; entries are added on
/// first lookup and never removed.
#[derive(Debug)]
pub struct Agent {
    pub q: Vec<(QKey, u32)>,
}

impl Default for Agent {
    fn default() -> (a: Agent)
        ensures
            a.wf(),
            a.table() == Map::<QKey, u32>::empty(),
    {
        Agent::new()
    }
}

impl Agent {
    /// No key is stored twice.
    pub open spec fn wf(&self) -> bool {
        keys_unique(self.q@)
    }

    /// The table as a map from (x, y, action) to an estimate.
    pub open spec fn table(&self) -> Map<QKey, u32> {
        table_of(self.q@)
    }

    /// An agent with an empty table.
    pub fn new() -> (a: Agent)
        ensures
            a.wf(),
            a.table() == Map::<QKey, u32>::empty(),
    {
        let a = Agent { q: Vec::new() };
        assert(a.table() =~= Map::<QKey, u32>::empty());
        a
    }

    fn find(&self, k: QKey) -> (r: Option<usize>)
        requires
            self.wf(),
        ensures
            match r {
                Some(i) => i < self.q@.len() && self.q@[i as int].0 == k,
                None => !has_key(self.q@, k),
            },
    {
        let mut i: usize = 0;
        while i < self.q.len()
            invariant
                i <= self.q@.len(),
                forall|j: int| 0 <= j < i ==> #[trigger] self.q@[j].0 != k,
            decreases self.q@.len() - i,
        {
            if self.q[i].0.0 == k.0 && self.q[i].0.1 == k.1 && self.q[i].0.2 == k.2 {
                return Some(i);
            }
            i = i + 1;
        }
        None
    }

    /// The estimate for taking `dir` at `pos`. An unvisited pair is stored
    /// with the default `0.0` and that default is returned.
    pub fn get_q(&mut self, pos: (usize, usize), dir: Direction) -> (r: u32)
        requires
            old(self).wf(),
        ensures
            final(self).wf(),
            r == lookup(old(self).table(), (pos.0, pos.1, dir)),
            final(self).table() == touched(old(self).table(), (pos.0, pos.1, dir)),
    {
        let k: QKey = (pos.0, pos.1, dir);
        match self.find(k) {
            Some(i) => {
                proof {
                    lemma_entry_value(self.q@, i as int);
                }
                self.q[i].1
            },
            None => {
                proof {
                    lemma_push_new(self.q@, k, ZERO_ESTIMATE);
                }
                self.q.push((k, ZERO_ESTIMATE));
                ZERO_ESTIMATE
            },
        }
    }

    /// Stores `v` as the estimate for taking `dir` at `pos`.
    pub fn set_q(&mut self, pos: (usize, usize), dir: Direction, v: u32)
        requires
            old(self).wf(),
        ensures
            final(self).wf(),
            final(self).table() == old(self).table().insert((pos.0, pos.1, dir), v),
    {
        let k: QKey = (pos.0, pos.1, dir);
        match self.find(k) {
            Some(i) => {
                proof {
                    lemma_update_at(self.q@, i as int, v);
                }
                self.q.set(i, (k, v));
            },
            None => {
                proof {
                    lemma_push_new(self.q@, k, v);
                }
                self.q.push((k, v));
            },
        }
    }

    /// Evaluates every action at `pos` in the fixed order Left, Right, Up,
    /// Down (storing defaults for unvisited pairs) and returns the one with
    /// the strictly greatest estimate; on equal estimates the earlier action
    /// wins.
    pub fn greedy(&mut self, pos: (usize, usize)) -> (r: Direction)
        requires
            old(self).wf(),
        ensures
            final(self).wf(),
            final(self).table() == touched_first(old(self).table(), pos.0, pos.1, 4),
            r == direction_at(first_best(action_values(old(self).table(), pos.0, pos.1), 4)),
            (forall|i: int|
                0 <= i < 4 ==> #[trigger] action_values(old(self).table(), pos.0, pos.1)[i]
                    == action_values(old(self).table(), pos.0, pos.1)[0]) ==> r == Direction::Left,
    {
        let ghost m = self.table();
        let ghost vals = action_values(m, pos.0, pos.1);
        let dirs = all_directions();
        let mut best_v = self.get_q(pos, dirs[0]);
        let mut best: usize = 0;
        proof {
            assert(vals[0] == lookup(m, (pos.0, pos.1, direction_at(0))));
            assert(touched_first(m, pos.0, pos.1, 0) == m);
            assert(self.table() == touched_first(m, pos.0, pos.1, 1));
        }
        let mut i: usize = 1;
        while i < 4
            invariant
                1 <= i <= 4,
                self.wf(),
                forall|j: int| 0 <= j < 4 ==> dirs@[j] == direction_at(j),
                vals == action_values(m, pos.0, pos.1),
                self.table() == touched_first(m, pos.0, pos.1, i as int),
                best == first_best(vals, i as int),
                best < i,
                best_v == vals[best as int],
            decreases 4 - i,
        {
            let d = dirs[i];
            let v = self.get_q(pos, d);
            proof {
                lemma_touch_first_keeps_lookup(m, pos.0, pos.1, i as int, (pos.0, pos.1, d));
                assert(v == vals[i as int]);
            }
            if estimate_gt(v, best_v) {
                best_v = v;
                best = i;
            }
            i = i + 1;
        }
        proof {
            if forall|i: int| 0 <= i < 4 ==> #[trigger] vals[i] == vals[0] {
                lemma_ties_pick_first(vals);
            }
        }
        dirs[best]
    }

    /// One SARSA step. Reads the estimate of `(s2, a2)`, then that of
    /// `(s1, a1)`, both with the default for unvisited pairs, and stores
    /// `blend(now, next)` as the new estimate of `(s1, a1)`, where `now` is
    /// the estimate of `(s1, a1)` and `next` that of `(s2, a2)`. The caller's
    /// `blend` computes `now * (1 - alpha) + (next * gamma + reward) * alpha`.
    /// The result is keyed by the first state alone, both its coordinates.
    pub fn update_q<F: Fn(u32, u32) -> u32>(
        &mut self,
        s1: (usize, usize),
        a1: Direction,
        s2: (usize, usize),
        a2: Direction,
        blend: F,
    )
        requires
            old(self).wf(),
            forall|now: u32, next: u32| blend.requires((now, next)),
        ensures
            final(self).wf(),
            exists|v: u32|
                {
                    &&& blend.ensures(
                        (
                            lookup(old(self).table(), (s1.0, s1.1, a1)),
                            lookup(old(self).table(), (s2.0, s2.1, a2)),
                        ),
                        v,
                    )
                    &&& final(self).table() == touched(old(self).table(), (s2.0, s2.1, a2)).insert(
                        (s1.0, s1.1, a1),
                        v,
                    )
                },
    {
        let ghost m = self.table();
        let next = self.get_q(s2, a2);
        let ghost m2 = self.table();
        let now = self.get_q(s1, a1);
        proof {
            lemma_touch_keeps_lookup(m, (s2.0, s2.1, a2), (s1.0, s1.1, a1));
        }
        let v = blend(now, next);
        self.set_q(s1, a1, v);
        proof {
            assert(self.table() =~= m2.insert((s1.0, s1.1, a1), v));
        }
    }
}

} // verus!
