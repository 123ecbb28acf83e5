//! Weighted round-robin over the back ends of a location. Each back end fills as
//! many slots of the rotation as its weight (at least one), whatever the weights
//! add up to; requests take the slots in turn. The rotation is not built as a
//! list: the slot of a turn is found from the running sum of the weights.

use vstd::prelude::*;

verus! {

/// A back end and its weight.
#[derive(Clone, Debug)]
pub struct BalanceTarget {
    pub url: String,
    pub weight: u32,
}

/// A back end by its URL and weight.
pub open spec fn target_view(t: BalanceTarget) -> (Seq<char>, u32) {
    (t.url@, t.weight)
}

/// The view of a list of back ends.
pub open spec fn targets_view(ts: Seq<BalanceTarget>) -> Seq<(Seq<char>, u32)> {
    ts.map_values(|t: BalanceTarget| target_view(t))
}

/// The number of slots a weight fills: the weight, and one for a weight of zero.
pub open spec fn slots(w: u32) -> nat {
    if w == 0 {
        1
    } else {
        w as nat
    }
}

/// The sum of the slots of the back ends.
pub open spec fn total_weight(ts: Seq<(Seq<char>, u32)>) -> nat
    decreases ts.len(),
{
    if ts.len() == 0 {
        0
    } else {
        total_weight(ts.drop_last()) + slots(ts.last().1)
    }
}

/// Each back end repeated as many times as the slots of its weight, in order.
pub open spec fn expanded(ts: Seq<(Seq<char>, u32)>) -> Seq<(Seq<char>, u32)>
    decreases ts.len(),
{
    if ts.len() == 0 {
        Seq::empty()
    } else {
        expanded(ts.drop_last()) + Seq::new(slots(ts.last().1), |i: int| ts.last())
    }
}

/// The rotation of a list of back ends: each back end in as many slots as its
/// weight (at least one), in order.
pub open spec fn rotation_of(ts: Seq<(Seq<char>, u32)>) -> Seq<(Seq<char>, u32)> {
    expanded(ts)
}

/// The expanded list has one slot per unit of weight, and each slot holds one of
/// the back ends.
pub proof fn law_expansion(ts: Seq<(Seq<char>, u32)>)
    ensures
        expanded(ts).len() == total_weight(ts),
        forall|i: int| 0 <= i < expanded(ts).len() ==> ts.contains(#[trigger] expanded(ts)[i]),
    decreases ts.len(),
{
    if ts.len() > 0 {
        let t = ts.drop_last();
        law_expansion(t);
        let e = expanded(ts);
        assert forall|i: int| 0 <= i < e.len() implies ts.contains(#[trigger] e[i]) by {
            if i < expanded(t).len() {
                assert(e[i] == expanded(t)[i]);
                let j = choose|j: int| 0 <= j < t.len() && t[j] == expanded(t)[i];
                assert(ts[j] == t[j]);
            } else {
                assert(e[i] == ts.last());
                assert(ts[ts.len() - 1] == ts.last());
            }
        }
    }
}

/// How many times `x` occurs in `s`.
pub open spec fn occurrences(s: Seq<(Seq<char>, u32)>, x: (Seq<char>, u32)) -> nat
    decreases s.len(),
{
    if s.len() == 0 {
        0
    } else {
        occurrences(s.drop_last(), x) + (if s.last() == x {
            1nat
        } else {
            0nat
        })
    }
}

/// The slots of the entries of `ts` equal to `x`.
pub open spec fn slots_of(ts: Seq<(Seq<char>, u32)>, x: (Seq<char>, u32)) -> nat
    decreases ts.len(),
{
    if ts.len() == 0 {
        0
    } else {
        slots_of(ts.drop_last(), x) + (if ts.last() == x {
            slots(x.1)
        } else {
            0nat
        })
    }
}

proof fn lemma_occurrences_add(a: Seq<(Seq<char>, u32)>, b: Seq<(Seq<char>, u32)>, x: (Seq<char>, u32))
    ensures
        occurrences(a + b, x) == occurrences(a, x) + occurrences(b, x),
    decreases b.len(),
{
    if b.len() > 0 {
        lemma_occurrences_add(a, b.drop_last(), x);
        assert((a + b).drop_last() =~= a + b.drop_last());
    } else {
        assert(a + b =~= a);
    }
}

proof fn lemma_occurrences_repeat(n: nat, y: (Seq<char>, u32), x: (Seq<char>, u32))
    ensures
        occurrences(Seq::new(n, |i: int| y), x) == if y == x {
            n
        } else {
            0
        },
    decreases n,
{
    if n > 0 {
        lemma_occurrences_repeat((n - 1) as nat, y, x);
        assert(Seq::new(n, |i: int| y).drop_last() =~= Seq::new((n - 1) as nat, |i: int| y));
    }
}

proof fn lemma_occurrences_expanded(ts: Seq<(Seq<char>, u32)>, x: (Seq<char>, u32))
    ensures
        occurrences(expanded(ts), x) == slots_of(ts, x),
    decreases ts.len(),
{
    if ts.len() > 0 {
        lemma_occurrences_expanded(ts.drop_last(), x);
        lemma_occurrences_add(expanded(ts.drop_last()), Seq::new(slots(ts.last().1), |i: int| ts.last()), x);
        lemma_occurrences_repeat(slots(ts.last().1), ts.last(), x);
    }
}

proof fn lemma_slots_of_distinct(ts: Seq<(Seq<char>, u32)>, k: int)
    requires
        0 <= k < ts.len(),
        forall|i: int, j: int| 0 <= i < j < ts.len() ==> ts[i] != ts[j],
    ensures
        slots_of(ts, ts[k]) == slots(ts[k].1),
    decreases ts.len(),
{
    let t = ts.drop_last();
    if k < ts.len() - 1 {
        assert(t[k] == ts[k]);
        assert(ts.last() != ts[k]) by {
            assert(ts[ts.len() - 1] == ts.last());
        }
        lemma_slots_of_distinct(t, k);
    } else {
        lemma_slots_of_absent(t, ts[k]);
    }
}

proof fn lemma_slots_of_absent(ts: Seq<(Seq<char>, u32)>, x: (Seq<char>, u32))
    requires
        !ts.contains(x),
    ensures
        slots_of(ts, x) == 0,
    decreases ts.len(),
{
    if ts.len() > 0 {
        assert(ts.last() != x) by {
            assert(ts[ts.len() - 1] == ts.last());
        }
        assert(!ts.drop_last().contains(x)) by {
            if ts.drop_last().contains(x) {
                let j = choose|j: int| 0 <= j < ts.drop_last().len() && ts.drop_last()[j] == x;
                assert(ts[j] == x);
            }
        }
        lemma_slots_of_absent(ts.drop_last(), x);
    }
}

/// Each back end takes as many turns in a round of the rotation as its weight
/// (one for a weight of zero), when the back ends are distinct.
pub proof fn law_turns_follow_weights(ts: Seq<(Seq<char>, u32)>, k: int)
    requires
        0 <= k < ts.len(),
        forall|i: int, j: int| 0 <= i < j < ts.len() ==> ts[i] != ts[j],
    ensures
        occurrences(rotation_of(ts), ts[k]) == slots(ts[k].1),
{
    lemma_occurrences_expanded(ts, ts[k]);
    lemma_slots_of_distinct(ts, k);
}

/// Taking the slots in turn from any position visits each slot once in as many
/// turns as there are slots: the slot of every position is reached by exactly
/// one of those turns.
pub proof fn law_round_robin(start: int, n: int, slot: int)
    requires
        0 <= start,
        0 <= slot < n,
    ensures
        exists|j: int| 0 <= j < n && #[trigger] ((start + j) % n) == slot,
        forall|j: int, k: int|
            0 <= j < n && 0 <= k < n && #[trigger] ((start + j) % n) == slot && #[trigger] ((start
                + k) % n) == slot ==> j == k,
{
    let r = start % n;
    let q = start / n;
    vstd::arithmetic::div_mod::lemma_fundamental_div_mod(start, n);
    vstd::arithmetic::div_mod::lemma_mod_bound(start, n);
    let j: int = if slot >= r {
        slot - r
    } else {
        slot + n - r
    };
    if slot >= r {
        assert(start + j == n * q + slot);
        vstd::arithmetic::div_mod::lemma_mod_multiples_vanish(q, slot, n);
    } else {
        assert(n * (q + 1) == n * q + n) by (nonlinear_arith);
        assert(start + j == n * (q + 1) + slot);
        vstd::arithmetic::div_mod::lemma_mod_multiples_vanish(q + 1, slot, n);
    }
    vstd::arithmetic::div_mod::lemma_small_mod(slot as nat, n as nat);
    assert((start + j) % n == slot);
    assert forall|a: int, b: int|
        0 <= a < n && 0 <= b < n && #[trigger] ((start + a) % n) == slot && #[trigger] ((start + b)
            % n) == slot implies a == b by {
        if a < b {
            lemma_distinct_turns(start, n, a, b);
        } else if b < a {
            lemma_distinct_turns(start, n, b, a);
        }
    }
}

proof fn lemma_distinct_turns(start: int, n: int, a: int, b: int)
    requires
        0 <= start,
        0 <= a < b < n,
    ensures
        (start + a) % n != (start + b) % n,
{
    let x = start + a;
    let d = b - a;
    if x % n == (x + d) % n {
        vstd::arithmetic::div_mod::lemma_fundamental_div_mod(x, n);
        vstd::arithmetic::div_mod::lemma_fundamental_div_mod(x + d, n);
        let q1 = x / n;
        let q2 = (x + d) / n;
        assert(n * (q2 - q1) == d) by (nonlinear_arith)
            requires
                x == n * q1 + x % n,
                x + d == n * q2 + (x + d) % n,
                x % n == (x + d) % n,
        ;
        assert(false) by (nonlinear_arith)
            requires
                n * (q2 - q1) == d,
                0 < d < n,
        ;
    }
}

/// The back ends of a location, the sum of their weights, and the slot of the
/// rotation whose turn is next.
pub struct LoadBalancer {
    targets: Vec<BalanceTarget>,
    total: u32,
    index: u32,
    healthy: Vec<u8>,
}

impl LoadBalancer {
    /// The sum is that of the weights, and the next slot lies in the rotation.
    #[verifier::type_invariant]
    spec fn counts_agree(&self) -> bool {
        &&& self.total == total_weight(targets_view(self.targets@))
        &&& self.targets@.len() == 0 ==> self.index == 0
        &&& self.targets@.len() > 0 ==> self.index < self.total
    }

    /// The rotation of back ends.
    pub closed spec fn rotation(&self) -> Seq<(Seq<char>, u32)> {
        expanded(targets_view(self.targets@))
    }

    /// The slot of the rotation whose turn is next.
    pub closed spec fn position(&self) -> nat {
        self.index as nat
    }

    /// The health mark of each back end: 0 unknown, 1 healthy, 2 unhealthy.
    pub closed spec fn health(&self) -> Seq<u8> {
        self.healthy@
    }

    /// A balancer over `targets`, starting at the first slot, with every back end's
    /// health unknown. The weights must add up within 32 bits.
    pub fn new(targets: Vec<BalanceTarget>) -> (lb: LoadBalancer)
        requires
            total_weight(targets_view(targets@)) <= u32::MAX,
        ensures
            lb.rotation() == rotation_of(targets_view(targets@)),
            lb.position() == 0,
            lb.health() == Seq::new(targets@.len(), |i: int| 0u8),
    {
        let ghost tv = targets_view(targets@);
        let n = targets.len();
        let mut total: u32 = 0;
        let mut healthy: Vec<u8> = Vec::new();
        let mut i: usize = 0;
        while i < n
            invariant
                n == targets@.len(),
                tv == targets_view(targets@),
                total_weight(tv) <= u32::MAX,
                i <= n,
                total == total_weight(tv.take(i as int)),
                healthy@ == Seq::new(i as nat, |k: int| 0u8),
            decreases n - i,
        {
            assert(tv.take(i + 1).drop_last() =~= tv.take(i as int));
            assert(tv.take(i + 1).last() == tv[i as int]);
            proof {
                lemma_total_weight_prefix(tv, i + 1);
            }
            let t = &targets[i];
            let w: u32 = if t.weight == 0 {
                1
            } else {
                t.weight
            };
            assert(target_view(*t) == tv[i as int]);
            total = total + w;
            healthy.push(0);
            assert(healthy@ =~= Seq::new((i + 1) as nat, |k: int| 0u8));
            i += 1;
        }
        assert(tv.take(n as int) =~= tv);
        proof {
            if n > 0 {
                lemma_total_weight_positive(tv);
            }
        }
        LoadBalancer { targets, total, index: 0, healthy }
    }

    /// The URL of the back end in the slot whose turn it is, and the turn moves on
    /// to the next slot (after the last, the first); `None` when there is no back
    /// end.
    pub fn next_url(&mut self) -> (r: Option<String>)
        ensures
            final(self).rotation() == old(self).rotation(),
            final(self).health() == old(self).health(),
            old(self).rotation().len() == 0 ==> r is None && final(self).position() == old(self).position(),
            old(self).rotation().len() > 0 ==> {
                &&& old(self).position() < old(self).rotation().len()
                &&& r is Some
                &&& r->0@ == old(self).rotation()[old(self).position() as int].0
                &&& final(self).position() == (old(self).position() + 1) % old(self).rotation().len()
            },
    {
        proof {
            use_type_invariant(&*self);
        }
        let ghost tv = targets_view(self.targets@);
        proof {
            law_expansion(tv);
        }
        let n = self.targets.len();
        if n == 0 {
            assert(tv =~= Seq::<(Seq<char>, u32)>::empty());
            return None;
        }
        let slot = self.index;
        let mut acc: u32 = 0;
        let mut i: usize = 0;
        while i < n
            invariant
                i <= n,
                n == tv.len(),
                tv == targets_view(self.targets@),
                self.total == total_weight(tv),
                acc == total_weight(tv.take(i as int)),
                acc <= slot,
                slot < self.total,
                slot == old(self).index,
                expanded(tv).len() == total_weight(tv),
                self.targets@ == old(self).targets@,
                self.healthy@ == old(self).healthy@,
                self.total == old(self).total,
                self.index == old(self).index,
            decreases n - i,
        {
            assert(tv.take(i + 1).drop_last() =~= tv.take(i as int));
            assert(tv.take(i + 1).last() == tv[i as int]);
            proof {
                lemma_total_weight_prefix(tv, i + 1);
            }
            let w: u32 = if self.targets[i].weight == 0 {
                1
            } else {
                self.targets[i].weight
            };
            assert(target_view(self.targets@[i as int]) == tv[i as int]);
            if slot < acc + w {
                proof {
                    lemma_expanded_at(tv, i as int, slot as int);
                }
                let url = self.targets[i].url.clone();
                self.index = if slot + 1 == self.total {
                    0
                } else {
                    slot + 1
                };
                proof {
                    if slot + 1 == self.total {
                        vstd::arithmetic::div_mod::lemma_mod_self_0(self.total as int);
                    } else {
                        vstd::arithmetic::div_mod::lemma_small_mod((slot + 1) as nat, self.total as nat);
                    }
                }
                return Some(url);
            }
            acc = acc + w;
            i += 1;
        }
        assert(tv.take(n as int) =~= tv);
        assert(false);
        None
    }

    /// Marks the back end `idx` healthy (nothing for an index out of range).
    pub fn mark_healthy(&mut self, idx: usize)
        ensures
            final(self).rotation() == old(self).rotation(),
            final(self).position() == old(self).position(),
            final(self).health() == if idx < old(self).health().len() {
                old(self).health().update(idx as int, 1)
            } else {
                old(self).health()
            },
    {
        proof {
            use_type_invariant(&*self);
        }
        if idx < self.healthy.len() {
            let mut h = self.healthy.clone();
            assert(h@ =~= self.healthy@);
            h.set(idx, 1);
            self.healthy = h;
        }
    }

    /// Marks the back end `idx` unhealthy (nothing for an index out of range).
    pub fn mark_unhealthy(&mut self, idx: usize)
        ensures
            final(self).rotation() == old(self).rotation(),
            final(self).position() == old(self).position(),
            final(self).health() == if idx < old(self).health().len() {
                old(self).health().update(idx as int, 2)
            } else {
                old(self).health()
            },
    {
        proof {
            use_type_invariant(&*self);
        }
        if idx < self.healthy.len() {
            let mut h = self.healthy.clone();
            assert(h@ =~= self.healthy@);
            h.set(idx, 2);
            self.healthy = h;
        }
    }
}

/// A non-empty list has weight.
proof fn lemma_total_weight_positive(ts: Seq<(Seq<char>, u32)>)
    requires
        ts.len() > 0,
    ensures
        total_weight(ts) >= 1,
{
}

/// The expanded prefix of a list is a prefix of the expanded list.
proof fn lemma_expanded_prefix(ts: Seq<(Seq<char>, u32)>, j: int, s: int)
    requires
        0 <= j <= ts.len(),
        0 <= s < expanded(ts.take(j)).len(),
    ensures
        s < expanded(ts).len(),
        expanded(ts)[s] == expanded(ts.take(j))[s],
    decreases ts.len(),
{
    if j < ts.len() {
        let d = ts.drop_last();
        assert(d.take(j) =~= ts.take(j));
        lemma_expanded_prefix(d, j, s);
        law_expansion(d);
        law_expansion(ts);
    } else {
        assert(ts.take(j) =~= ts);
    }
}

/// The slot `s`, between the weights before back end `i` and those up to it,
/// holds back end `i`.
proof fn lemma_expanded_at(ts: Seq<(Seq<char>, u32)>, i: int, s: int)
    requires
        0 <= i < ts.len(),
        total_weight(ts.take(i)) <= s < total_weight(ts.take(i + 1)),
    ensures
        s < expanded(ts).len(),
        expanded(ts)[s] == ts[i],
{
    let p = ts.take(i + 1);
    assert(p.drop_last() =~= ts.take(i));
    assert(p.last() == ts[i]);
    law_expansion(ts.take(i));
    law_expansion(p);
    let e0 = expanded(ts.take(i));
    assert(expanded(p) == e0 + Seq::new(slots(ts[i].1), |k: int| ts[i]));
    assert(expanded(p)[s] == ts[i]);
    lemma_expanded_prefix(ts, i + 1, s);
}

/// Any `W` turns in a row, `W` being the length of the rotation, give each of
/// distinct back ends as many turns as its weight (one for a weight of zero):
/// the turns from slot `p` take the slots `p`, `p + 1`, … around the rotation.
pub proof fn law_window_follows_weights(ts: Seq<(Seq<char>, u32)>, p: int, k: int)
    requires
        0 <= k < ts.len(),
        forall|i: int, j: int| 0 <= i < j < ts.len() ==> ts[i] != ts[j],
        0 <= p < rotation_of(ts).len(),
    ensures
        ({
            let r = rotation_of(ts);
            let w = r.len() as int;
            occurrences(Seq::new(r.len(), |j: int| r[(p + j) % w]), ts[k]) == slots(ts[k].1)
        }),
{
    let r = rotation_of(ts);
    let w = r.len() as int;
    let win = Seq::new(r.len(), |j: int| r[(p + j) % w]);
    assert(win =~= r.skip(p) + r.take(p)) by {
        assert forall|j: int| 0 <= j < w implies #[trigger] win[j] == (r.skip(p) + r.take(p))[j] by {
            if j < w - p {
                vstd::arithmetic::div_mod::lemma_small_mod((p + j) as nat, w as nat);
            } else {
                vstd::arithmetic::div_mod::lemma_mod_sub_multiples_vanish(p + j, w);
                vstd::arithmetic::div_mod::lemma_small_mod((p + j - w) as nat, w as nat);
            }
        }
    }
    lemma_occurrences_add(r.skip(p), r.take(p), ts[k]);
    lemma_occurrences_add(r.take(p), r.skip(p), ts[k]);
    assert(r.take(p) + r.skip(p) =~= r);
    law_turns_follow_weights(ts, k);
}

/// The weights of a prefix add up to no more than those of the whole list.
proof fn lemma_total_weight_prefix(ts: Seq<(Seq<char>, u32)>, k: int)
    requires
        0 <= k <= ts.len(),
    ensures
        total_weight(ts.take(k)) <= total_weight(ts),
    decreases ts.len(),
{
    if k < ts.len() {
        assert(ts.drop_last().take(k) =~= ts.take(k));
        lemma_total_weight_prefix(ts.drop_last(), k);
    } else {
        assert(ts.take(k) =~= ts);
    }
}

} // verus!
