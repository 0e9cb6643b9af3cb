//! What one monitor is playing, and where it is in a playlist.

use std::time::Instant;
use vstd::prelude::*;

use super::order::{is_permutation, shuffled, spec_shuffled, spec_straight, straight};
use crate::clock::now;

verus! {

/// One monitor's playlist and its place in it.
pub struct Playback {
    /// Empty means this monitor keeps the Windows wallpaper. One entry is a
    /// fixed wallpaper. More than one is a playlist.
    pub items: Vec<String>,
    /// Which item of `items` each step plays. `0..n` while shuffle is off,
    /// a permutation of it while shuffle is on — see `compositor::order`.
    /// Kept beside the list rather than applied to it so that turning
    /// shuffle off puts the playlist back in the order the user wrote.
    pub order: Vec<usize>,
    /// Where in `order` playback has reached, not where in `items`.
    pub index: usize,
    pub enabled: bool,
    /// When the current item started, for interval-based advancing.
    pub started: Instant,
    /// The decoder's loop count when the current item started, for
    /// advance-when-the-clip-ends.
    pub loops_at_start: u32,
}

impl Playback {
    /// The order plays every item of the list exactly once, and the place
    /// in it is inside it (or at the start of an empty one).
    pub open spec fn wf(&self) -> bool {
        &&& is_permutation(self.order@, self.items@.len())
        &&& (self.index < self.order@.len() || (self.index == 0 && self.order@.len() == 0))
    }

    /// Which item of the list is on screen, if any.
    pub open spec fn spec_current(&self) -> Option<int> {
        if self.index < self.order@.len() && self.order@[self.index as int] < self.items@.len() {
            Some(self.order@[self.index as int] as int)
        } else {
            None
        }
    }

    /// The item on screen, or `None` for a monitor with nothing to play.
    pub fn current(&self) -> (r: Option<&String>)
        ensures
            match self.spec_current() {
                Some(i) => r matches Some(p) && *p == self.items@[i],
                None => r is None,
            },
    {
        if self.index < self.order.len() {
            let item = self.order[self.index];
            if item < self.items.len() {
                return Some(&self.items[item]);
            }
        }
        None
    }

    /// Which item of the list is on screen, for the UI and for a shuffle
    /// that has to know what not to start the next pass with; 0 when the
    /// order is empty.
    pub fn current_index(&self) -> (i: usize)
        ensures
            i == if self.index < self.order@.len() {
                self.order@[self.index as int]
            } else {
                0
            },
    {
        if self.index < self.order.len() {
            self.order[self.index]
        } else {
            0
        }
    }

    /// Point this monitor at a new list, from the top: in the order it was
    /// written, or in one drawn from `seed`.
    pub fn play(&mut self, items: Vec<String>, shuffle: bool, seed: u64)
        ensures
            final(self).wf(),
            final(self).items@ == items@,
            final(self).order@ == if shuffle {
                spec_shuffled(items@.len(), None, seed)
            } else {
                spec_straight(items@.len())
            },
            final(self).index == 0,
            final(self).loops_at_start == 0,
            final(self).enabled == old(self).enabled,
    {
        let order = if shuffle {
            shuffled(items.len(), None, seed)
        } else {
            straight(items.len())
        };
        proof {
            super::order::lemma_straight_permutation(items@.len());
        }
        self.order = order;
        self.items = items;
        self.index = 0;
        self.started = now();
        self.loops_at_start = 0;
    }

    /// Draw the order again from `seed`, or put it back in the order it was
    /// written. The item on screen keeps playing; only what comes after it
    /// changes.
    pub fn reorder(&mut self, shuffle: bool, seed: u64)
        requires
            old(self).wf(),
        ensures
            final(self).wf(),
            final(self).items@ == old(self).items@,
            final(self).order@ == if shuffle {
                spec_shuffled(old(self).items@.len(), None, seed)
            } else {
                spec_straight(old(self).items@.len())
            },
            // The wallpaper on screen is not restarted by a setting that
            // only decides what plays next.
            final(self).spec_current() == old(self).spec_current(),
            final(self).enabled == old(self).enabled,
            final(self).loops_at_start == old(self).loops_at_start,
            final(self).started == old(self).started,
    {
        let playing = self.current_index();
        let len = self.items.len();
        let order = if shuffle {
            shuffled(len, None, seed)
        } else {
            straight(len)
        };
        proof {
            super::order::lemma_straight_permutation(len as nat);
        }
        let mut position: usize = 0;
        let mut found = false;
        let mut j: usize = 0;
        while j < order.len()
            invariant
                j <= order@.len(),
                !found ==> position == 0,
                found ==> position < order@.len() && order@[position as int] == playing,
                !found ==> forall|k: int| 0 <= k < j ==> order@[k] != playing,
            ensures
                found ==> position < order@.len() && order@[position as int] == playing,
                !found ==> position == 0 && forall|k: int|
                    0 <= k < order@.len() ==> order@[k] != playing,
            decreases order@.len() - j,
        {
            if order[j] == playing {
                position = j;
                found = true;
                break;
            }
            j = j + 1;
        }
        proof {
            if self.order@.len() > 0 {
                // What plays now is somewhere in any order of the same list.
                let p = playing as int;
                assert(p < len);
                super::order::lemma_permutation_covers(order@, len as nat, p);
            }
        }
        self.order = order;
        self.index = position;
    }

    /// The order and place [`Playback::step`] leaves: the next place in
    /// the order, or the top of a new pass, drawn from `seed` when
    /// shuffling; a monitor with nothing to play stays as it is.
    pub open spec fn spec_stepped(&self, shuffle: bool, seed: u64) -> (Seq<usize>, usize) {
        if self.order@.len() == 0 {
            (self.order@, self.index)
        } else if self.index + 1 < self.order@.len() {
            (self.order@, (self.index + 1) as usize)
        } else if shuffle {
            (spec_shuffled(self.items@.len(), Some(self.order@[self.index as int]), seed), 0)
        } else {
            (self.order@, 0)
        }
    }

    /// Move to the next item, drawing a new order from `seed` at the end
    /// of a pass when shuffling. Nothing happens to a monitor with nothing
    /// to play.
    pub fn step(&mut self, shuffle: bool, seed: u64)
        requires
            old(self).wf(),
        ensures
            final(self).wf(),
            final(self).items@ == old(self).items@,
            final(self).enabled == old(self).enabled,
            final(self).loops_at_start == old(self).loops_at_start,
            (final(self).order@, final(self).index) == old(self).spec_stepped(shuffle, seed),
            old(self).order@.len() == 0 ==> final(self).order@ == old(self).order@
                && final(self).index == old(self).index && final(self).started
                == old(self).started,
            old(self).order@.len() > 0 && old(self).index + 1 < old(self).order@.len() ==> (
            final(self).order@ == old(self).order@ && final(self).index == old(self).index + 1),
            old(self).order@.len() > 0 && old(self).index + 1 >= old(self).order@.len() ==> (
            final(self).index == 0 && final(self).order@ == if shuffle {
                spec_shuffled(
                    old(self).items@.len(),
                    Some(old(self).order@[old(self).index as int]),
                    seed,
                )
            } else {
                old(self).order@
            }),
            // With two or more items, the one that just finished is never
            // the next one, within a pass or across the join between two.
            old(self).items@.len() >= 2 ==> final(self).spec_current()
                != old(self).spec_current(),
    {
        if self.order.len() == 0 {
            return;
        }
        let finished = self.current_index();
        let len = self.items.len();
        if self.index + 1 < self.order.len() {
            self.index = self.index + 1;
            proof {
                assert(self.order@[self.index - 1] != self.order@[self.index as int]);
            }
        } else {
            self.index = 0;
            if shuffle {
                self.order = shuffled(len, Some(finished), seed);
            } else {
                proof {
                    if len >= 2 {
                        assert(self.order@[0] != self.order@[self.order@.len() - 1]);
                    }
                }
            }
        }
        self.started = now();
    }

    /// A monitor with nothing to play, switched on.
    pub fn blank() -> (p: Self)
        ensures
            p.wf(),
            p.items@.len() == 0,
            p.order@.len() == 0,
            p.index == 0,
            p.enabled,
            p.loops_at_start == 0,
    {
        Playback {
            items: Vec::new(),
            order: Vec::new(),
            index: 0,
            enabled: true,
            started: now(),
            loops_at_start: 0,
        }
    }
}

} // verus!
