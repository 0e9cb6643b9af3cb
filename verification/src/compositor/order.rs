//! The order a playlist is played in.
//!
//! Shuffling is a permutation of the whole list, played through once and
//! drawn again at the end: every wallpaper gets its turn before any of them
//! gets a second one. The one join worth guarding is where two passes meet,
//! which is the only place a repeat can still happen; `shuffled` is told
//! which item just played and keeps it off the front.

use vstd::prelude::*;

verus! {

/// `0..len`, which is a playlist played in the order the user wrote it.
pub open spec fn spec_straight(len: nat) -> Seq<usize> {
    Seq::new(len, |i: int| i as usize)
}

/// Whether `order` holds each of `0..len` exactly once.
pub open spec fn is_permutation(order: Seq<usize>, len: nat) -> bool {
    &&& order.len() == len
    &&& forall|i: int| 0 <= i < order.len() ==> (#[trigger] order[i]) < len
    &&& forall|i: int, j: int| 0 <= i < j < order.len() ==> order[i] != order[j]
}

/// One step of xorshift64.
pub open spec fn xorshift(x: u64) -> u64 {
    let a = x ^ (x << 13u64);
    let b = a ^ (a >> 7u64);
    b ^ (b << 17u64)
}

/// `s` with the entries at `a` and `b` exchanged.
pub open spec fn swap(s: Seq<usize>, a: int, b: int) -> Seq<usize> {
    s.update(a, s[b]).update(b, s[a])
}

/// Fisher-Yates from the back: positions `i` down to 1 each exchanged with
/// a position drawn from `0..=i`. Returns the order and the generator's
/// state after the last draw.
pub open spec fn fisher_yates(order: Seq<usize>, i: nat, state: u64) -> (Seq<usize>, u64)
    decreases i,
{
    if i == 0 {
        (order, state)
    } else {
        let next = xorshift(state);
        let j = (next as int) % (i as int + 1);
        fisher_yates(swap(order, i as int, j), (i - 1) as nat, next)
    }
}

/// Fisher-Yates from `i` down never moves what stands above `i`.
proof fn lemma_fisher_yates_above(order: Seq<usize>, i: nat, state: u64, k: int)
    requires
        i < order.len(),
        i < k < order.len(),
    ensures
        fisher_yates(order, i, state).0.len() == order.len(),
        fisher_yates(order, i, state).0[k] == order[k],
    decreases i,
{
    if i > 0 {
        let next = xorshift(state);
        let j = (next as int) % (i as int + 1);
        let o = swap(order, i as int, j);
        lemma_fisher_yates_above(o, (i - 1) as nat, next, k);
        assert(o[k] == order[k]);
    }
}

/// A shuffle's last place is its first draw from the seed: the item at
/// `xorshift(seed | 1) mod len`. So what a shuffle gives depends on its
/// seed, not only on the list.
pub proof fn lemma_last_place_is_first_draw(len: nat, seed: u64)
    requires
        len >= 2,
    ensures
        spec_shuffled(len, None, seed).len() == len,
        spec_shuffled(len, None, seed)[len - 1] == ((xorshift(seed | 1) as int) % (len as int)) as usize,
{
    let x = seed | 1;
    let next = xorshift(x);
    let i = (len - 1) as nat;
    let j = (next as int) % (len as int);
    let s0 = spec_straight(len);
    let o = swap(s0, i as int, j);
    assert(o.len() == len);
    assert(o[len - 1] == s0[j]);
    if i > 0 {
        lemma_fisher_yates_above(o, (i - 1) as nat, next, len - 1);
    }
}

/// The permutation `shuffled` draws.
pub open spec fn spec_shuffled(len: nat, avoid: Option<usize>, seed: u64) -> Seq<usize> {
    if len < 2 {
        spec_straight(len)
    } else {
        let (order, state) = fisher_yates(spec_straight(len), (len - 1) as nat, seed | 1);
        match avoid {
            Some(a) => if order[0] == a {
                let next = xorshift(state);
                let other = 1 + (next as int) % (len - 1);
                swap(order, 0, other)
            } else {
                order
            },
            None => order,
        }
    }
}

pub proof fn lemma_swap_permutation(s: Seq<usize>, len: nat, a: int, b: int)
    requires
        is_permutation(s, len),
        0 <= a < len,
        0 <= b < len,
    ensures
        is_permutation(swap(s, a, b), len),
{
    let t = swap(s, a, b);
    assert forall|i: int, j: int| 0 <= i < j < t.len() implies t[i] != t[j] by {
        let si = if i == b { a } else if i == a { b } else { i };
        let sj = if j == b { a } else if j == a { b } else { j };
        assert(t[i] == s[si]);
        assert(t[j] == s[sj]);
        assert(si != sj);
        if si < sj {
            assert(s[si] != s[sj]);
        } else {
            assert(s[sj] != s[si]);
        }
    }
    assert forall|i: int| 0 <= i < t.len() implies (#[trigger] t[i]) < len by {
        if i == b {
            assert(t[i] == s[a]);
        } else if i == a {
            assert(t[i] == s[b]);
        }
    }
}

proof fn lemma_fisher_yates_permutation(order: Seq<usize>, len: nat, i: nat, state: u64)
    requires
        is_permutation(order, len),
        i < len,
    ensures
        is_permutation(fisher_yates(order, i, state).0, len),
    decreases i,
{
    if i > 0 {
        let next = xorshift(state);
        let j = (next as int) % (i as int + 1);
        lemma_swap_permutation(order, len, i as int, j);
        lemma_fisher_yates_permutation(swap(order, i as int, j), len, (i - 1) as nat, next);
    }
}

pub proof fn lemma_straight_permutation(len: nat)
    requires
        len <= usize::MAX,
    ensures
        is_permutation(spec_straight(len), len),
{
    let s = spec_straight(len);
    assert forall|i: int, j: int| 0 <= i < j < s.len() implies s[i] != s[j] by {
        assert(s[i] == i as usize);
        assert(s[j] == j as usize);
    }
}

/// The laws of a shuffle: it is a permutation of the list, and when told
/// which item just played (and there is another to put first) it does not
/// start with that item.
pub proof fn lemma_shuffle_laws(len: nat, avoid: Option<usize>, seed: u64)
    requires
        len <= usize::MAX,
    ensures
        is_permutation(spec_shuffled(len, avoid, seed), len),
        len >= 2 && avoid is Some ==> spec_shuffled(len, avoid, seed)[0] != avoid->0,
{
    lemma_straight_permutation(len);
    if len >= 2 {
        let (order, state) = fisher_yates(spec_straight(len), (len - 1) as nat, seed | 1);
        lemma_fisher_yates_permutation(spec_straight(len), len, (len - 1) as nat, seed | 1);
        if let Some(a) = avoid {
            if order[0] == a {
                let next = xorshift(state);
                let other = 1 + (next as int) % (len - 1);
                lemma_swap_permutation(order, len, 0, other);
                let t = swap(order, 0, other);
                assert(t[0] == order[other]);
                assert(order[0] != order[other]);
            }
        }
    }
}

/// A permutation of `0..len` holds every one of `0..len` somewhere.
pub proof fn lemma_permutation_covers(order: Seq<usize>, len: nat, p: int)
    requires
        is_permutation(order, len),
        0 <= p < len,
    ensures
        exists|k: int| 0 <= k < order.len() && order[k] == p,
{
    broadcast use vstd::seq_lib::seq_to_set_is_finite;

    let m = order.map_values(|x: usize| x as int);
    assert(m.no_duplicates()) by {
        assert forall|i: int, j: int| 0 <= i < m.len() && 0 <= j < m.len() && i != j implies m[i]
            != m[j] by {
            if i < j {
                assert(order[i] != order[j]);
            } else {
                assert(order[j] != order[i]);
            }
        }
    }
    m.unique_seq_to_set();
    let range = vstd::set_lib::set_int_range(0, len as int);
    vstd::set_lib::lemma_int_range(0, len as int);
    assert(m.to_set().subset_of(range)) by {
        assert forall|v: int| m.to_set().contains(v) implies range.contains(v) by {
            let k = choose|k: int| 0 <= k < m.len() && m[k] == v;
            assert(order[k] < len);
        }
    }
    vstd::set_lib::lemma_subset_equality(m.to_set(), range);
    assert(range.contains(p));
    assert(m.to_set().contains(p));
    let k = choose|k: int| 0 <= k < m.len() && m[k] == p;
    assert(order[k] == p);
}

/// `0..len`, which is a playlist played in the order the user wrote it.
pub fn straight(len: usize) -> (r: Vec<usize>)
    ensures
        r@ == spec_straight(len as nat),
{
    let mut r: Vec<usize> = Vec::new();
    let mut i: usize = 0;
    while i < len
        invariant
            i <= len,
            r@ == spec_straight(i as nat),
        decreases len - i,
    {
        r.push(i);
        i = i + 1;
        assert(r@ =~= spec_straight(i as nat));
    }
    r
}

/// xorshift64: not for anything that matters, and this does not.
pub struct Rng(pub u64);

impl Rng {
    pub fn next(&mut self) -> (r: u64)
        ensures
            r == xorshift(old(self).0),
            final(self).0 == r,
    {
        self.0 = self.0 ^ (self.0 << 13u64);
        self.0 = self.0 ^ (self.0 >> 7u64);
        self.0 = self.0 ^ (self.0 << 17u64);
        self.0
    }
}

fn swap_exec(v: &mut Vec<usize>, a: usize, b: usize)
    requires
        a < old(v)@.len(),
        b < old(v)@.len(),
    ensures
        final(v)@ == swap(old(v)@, a as int, b as int),
{
    let x = v[a];
    let y = v[b];
    v.set(a, y);
    v.set(b, x);
}

/// A permutation of `0..len` that does not begin with `avoid`.
///
/// `avoid` is the item that just finished playing. With one item there is
/// nothing to avoid and nothing to shuffle, so it is returned as it is.
pub fn shuffled(len: usize, avoid: Option<usize>, seed: u64) -> (r: Vec<usize>)
    ensures
        r@ == spec_shuffled(len as nat, avoid, seed),
        // Every item appears exactly once.
        is_permutation(r@, len as nat),
        // The item that just played never starts the next pass.
        len >= 2 && avoid is Some ==> r@[0] != avoid->0,
{
    proof {
        lemma_shuffle_laws(len as nat, avoid, seed);
    }
    let mut order = straight(len);
    if len < 2 {
        return order;
    }
    let mut rng = Rng(seed | 1);
    let mut i = len - 1;
    while i >= 1
        invariant
            i < len,
            len >= 2,
            order@.len() == len,
            fisher_yates(spec_straight(len as nat), (len - 1) as nat, seed | 1) == fisher_yates(
                order@,
                i as nat,
                rng.0,
            ),
        decreases i,
    {
        let j = (rng.next() % (i as u64 + 1)) as usize;
        swap_exec(&mut order, i, j);
        i = i - 1;
    }
    if let Some(avoid) = avoid {
        if order[0] == avoid {
            let other = 1 + (rng.next() % (len as u64 - 1)) as usize;
            swap_exec(&mut order, 0, other);
        }
    }
    order
}

/// Two shuffles drawn in the same instant still differ: the clock and a
/// count of the seeds drawn so far, multiplied by an odd constant so a
/// small count moves more than the low bits of the clock.
pub open spec fn spec_mix(clock_nanos: u64, drawn: u64) -> u64 {
    clock_nanos ^ drawn.wrapping_mul(0x9E37_79B9_7F4A_7C15)
}

/// What stands in for the clock when it reads before 1970.
pub const NO_CLOCK: u64 = 0x2545_F491_4F6C_DD1D;

/// The seed drawn from a clock reading (`None` for a clock set before
/// 1970) and the count of seeds drawn before.
pub open spec fn spec_seed_from(clock: Option<u64>, drawn: u64) -> u64 {
    spec_mix(
        match clock {
            Some(n) => n,
            None => NO_CLOCK,
        },
        drawn,
    )
}

/// See [`spec_mix`].
pub fn mix(clock: u64, drawn: u64) -> (s: u64)
    ensures
        s == spec_mix(clock, drawn),
{
    clock ^ drawn.wrapping_mul(0x9E37_79B9_7F4A_7C15)
}

/// See [`spec_seed_from`].
pub fn seed_from(clock: Option<u64>, drawn: u64) -> (s: u64)
    ensures
        s == spec_seed_from(clock, drawn),
{
    let c = match clock {
        Some(n) => n,
        None => NO_CLOCK,
    };
    mix(c, drawn)
}

/// A seed for one shuffle: the clock, read now, mixed with `drawn`, the
/// number of seeds drawn before. The reading is the clock's; the seed is
/// [`seed_from`] of it, so two seeds drawn in one instant still differ.
pub fn seed(drawn: u64) -> (s: u64)
    ensures
        exists|clock: Option<u64>| s == spec_seed_from(clock, drawn),
{
    let clock = crate::clock::unix_nanos();
    seed_from(clock, drawn)
}

} // verus!
