//! What a benchmark run measured, and which of it counts.

use vstd::prelude::*;

verus! {

/// What a run measured, one reading of each a sample: the share of one core
/// used, the working set in megabytes, and the frames presented a second.
pub struct Readings<F> {
    pub cpu: Vec<F>,
    pub ram: Vec<u32>,
    pub fps: Vec<F>,
}

/// `s` without its first `n` items, or nothing when it has no more.
pub open spec fn after<T>(s: Seq<T>, n: int) -> Seq<T> {
    if n < s.len() {
        s.subrange(n, s.len() as int)
    } else {
        Seq::empty()
    }
}

/// How many opening samples are dropped from a run of `len`: a sixth of
/// them, and at least one.
pub open spec fn warm_up(len: nat) -> int {
    let sixth = len / 6;
    if sixth > 1 {
        sixth as int
    } else {
        1
    }
}

fn skip_first<T: Copy>(v: &Vec<T>, n: usize) -> (r: Vec<T>)
    ensures
        r@ == after(v@, n as int),
{
    let mut r: Vec<T> = Vec::new();
    if n >= v.len() {
        return r;
    }
    let mut i: usize = n;
    while i < v.len()
        invariant
            n <= i <= v@.len(),
            r@ == v@.subrange(n as int, i as int),
        decreases v@.len() - i,
    {
        r.push(v[i]);
        i = i + 1;
        assert(r@ =~= v@.subrange(n as int, i as int));
    }
    r
}

impl<F: Copy> Readings<F> {
    /// The readings without the opening samples, which are the engine
    /// opening a decoder and building swap chains: real work, but not what
    /// "while it is running" means. Dropped rather than averaged in: a
    /// sixth of the run, and at least one sample, counted on the processor
    /// readings and taken off all three.
    pub fn settled(&self) -> (r: (Vec<F>, Vec<u32>, Vec<F>))
        ensures
            r.0@ == after(self.cpu@, warm_up(self.cpu@.len())),
            r.1@ == after(self.ram@, warm_up(self.cpu@.len())),
            r.2@ == after(self.fps@, warm_up(self.cpu@.len())),
    {
        let sixth: usize = self.cpu.len() / 6;
        let skip: usize = if sixth > 1 { sixth } else { 1 };
        (skip_first(&self.cpu, skip), skip_first(&self.ram, skip), skip_first(&self.fps, skip))
    }
}

} // verus!
