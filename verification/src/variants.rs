//! Which variation of a sound plays next.
//!
//! Each leaf keeps a counter, found by its key and the name of its first
//! variation. A press moves the counter forward by one, or, where there are
//! more than two variations, by a random amount that cannot bring it back to
//! where it was.

use crate::keys::Key;
use crate::text::str_eq;
use rand::Rng;
use vstd::prelude::*;

verus! {

/// Draws a number from `low` up to, but not including, `high` with
/// `rand::thread_rng().gen_range(low..high)`.
///
/// Trusted: the number lies in the range asked for. Which number it is
/// differs from call to call. `gen_range` panics on an empty range, which
/// the precondition leaves out; the generator itself gives up only where
/// the system has no source of randomness.
#[verifier::external_body]
fn random_in_range(low: usize, high: usize) -> (drawn: usize)
    requires
        low < high,
    ensures
        low <= drawn < high,
{
    rand::thread_rng().gen_range(low..high)
}

/// `jitter` can serve as the random amount for a leaf of `count` variations.
pub open spec fn jitter_fits(count: nat, jitter: nat) -> bool {
    count > 2 ==> 1 <= jitter < count
}

/// The amount a counter moves by: `jitter` where there are more than two
/// variations, else one.
pub open spec fn step_of(count: nat, jitter: nat) -> nat {
    if count > 2 {
        jitter
    } else {
        1
    }
}

/// The index that plays: the first variation on the first press, else the
/// last index moved forward, around the end.
pub open spec fn next_index(last: Option<usize>, count: nat, jitter: nat) -> nat {
    match last {
        None => 0,
        Some(last) => ((last + step_of(count, jitter)) % (count as int)) as nat,
    }
}

/// The amount to move the counter of a leaf of `count` variations by: one
/// where there are two variations or fewer, else an amount drawn at random
/// from one up to, but not including, `count`.
pub fn draw_jitter(count: usize) -> (jitter: usize)
    ensures
        count <= 2 ==> jitter == 1,
        count > 2 ==> 1 <= jitter < count,
        jitter_fits(count as nat, jitter as nat),
{
    if count > 2 {
        random_in_range(1, count)
    } else {
        1
    }
}

/// Computes `next_index`.
pub fn advance(last: Option<usize>, count: usize, jitter: usize) -> (index: usize)
    requires
        count > 0,
        jitter_fits(count as nat, jitter as nat),
    ensures
        index == next_index(last, count as nat, jitter as nat),
        index < count,
{
    match last {
        None => 0,
        Some(last) => {
            let step: usize = if count > 2 {
                jitter
            } else {
                1
            };
            let base: usize = last % count;
            let room: usize = count - base;
            assert(step <= count);
            proof {
                lemma_wrap(last as int, step as int, count as int);
            }
            if step >= room {
                step - room
            } else {
                base + step
            }
        },
    }
}

/// Adding less than one round to a number moves its remainder by that much, around the end.
proof fn lemma_wrap(last: int, step: int, count: int)
    requires
        0 <= last,
        0 <= step <= count,
        0 < count,
    ensures
        (last + step) % count == if last % count + step >= count {
            last % count + step - count
        } else {
            last % count + step
        },
{
    let q = last / count;
    let r = last % count;
    assert(last == q * count + r && 0 <= r < count) by (nonlinear_arith)
        requires
            q == last / count,
            r == last % count,
            0 < count,
    ;
    if r + step >= count {
        if r + step - count == count {
            // step == count and r == count: impossible, since r < count
        }
        assert((last + step) % count == r + step - count) by (nonlinear_arith)
            requires
                last == q * count + r,
                0 <= r + step - count < count,
                0 < count,
        ;
    } else {
        assert((last + step) % count == r + step) by (nonlinear_arith)
            requires
                last == q * count + r,
                0 <= r + step < count,
                0 < count,
        ;
    }
}

/// The index that plays is within the leaf.
pub proof fn lemma_next_index_bound(last: Option<usize>, count: nat, jitter: nat)
    requires
        count > 0,
    ensures
        next_index(last, count, jitter) < count,
{
    if let Some(last) = last {
        let sum = last + step_of(count, jitter);
        assert(0 <= sum % (count as int) < count) by (nonlinear_arith)
            requires
                0 < count,
                0 <= sum,
        ;
    }
}

/// With two variations or more, the index that plays next is never the one
/// that played last.
pub proof fn lemma_never_repeats(last: usize, count: nat, jitter: nat)
    requires
        count >= 2,
        last < count,
        jitter_fits(count, jitter),
    ensures
        next_index(Some(last), count, jitter) != last,
{
    let step = step_of(count, jitter);
    assert(1 <= step < count);
    lemma_wrap(last as int, step as int, count as int);
    assert(last as int % (count as int) == last) by (nonlinear_arith)
        requires
            0 <= last < count,
    ;
}

/// The counters of the leaves, as a mathematical value: from key name and
/// first variation name to the index that played last.
pub type CountersView = Map<(Seq<char>, Seq<char>), usize>;

/// The counters of the leaves that have played.
pub struct SoundIndexMap {
    entries: Vec<(Key, String, usize)>,
}

impl SoundIndexMap {
    spec fn pair_at(self, i: int) -> (Seq<char>, Seq<char>) {
        (self.entries@[i].0@, self.entries@[i].1@)
    }

    /// The counter at `i` is the first one of the leaf `pair`.
    spec fn holds(self, pair: (Seq<char>, Seq<char>), i: int) -> bool {
        &&& 0 <= i < self.entries@.len()
        &&& self.pair_at(i) == pair
        &&& forall|j: int| 0 <= j < i ==> self.pair_at(j) != pair
    }

    pub closed spec fn view(&self) -> CountersView {
        Map::new(
            |pair: (Seq<char>, Seq<char>)| exists|i: int| self.holds(pair, i),
            |pair: (Seq<char>, Seq<char>)| self.entries@[choose|i: int| self.holds(pair, i)].2,
        )
    }

    /// A leaf has one first counter at most.
    proof fn lemma_one(self, pair: (Seq<char>, Seq<char>), i: int, j: int)
        requires
            self.holds(pair, i),
            self.holds(pair, j),
        ensures
            i == j,
    {
        if i < j {
            assert(self.pair_at(i) != pair);
        }
        if j < i {
            assert(self.pair_at(j) != pair);
        }
    }

    /// Where the pairs of two lists agree place by place, so do their first counters.
    proof fn lemma_same_pairs(self, other: SoundIndexMap, pair: (Seq<char>, Seq<char>), i: int)
        requires
            self.holds(pair, i),
            i < other.entries@.len(),
            forall|j: int| 0 <= j <= i ==> self.pair_at(j) == other.pair_at(j),
        ensures
            other.holds(pair, i),
    {
        assert forall|j: int| 0 <= j < i implies other.pair_at(j) != pair by {
            assert(self.pair_at(j) != pair);
        }
    }

    /// No counters: nothing has played.
    pub fn new() -> (counters: SoundIndexMap)
        ensures
            counters.view() == Map::<(Seq<char>, Seq<char>), usize>::empty(),
    {
        let counters = SoundIndexMap { entries: Vec::new() };
        assert(counters.view() =~= Map::empty());
        counters
    }

    fn position(&self, key: &Key, name: &str) -> (found: Option<usize>)
        ensures
            match found {
                Some(i) => self.holds((key@, name@), i as int),
                None => forall|i: int|
                    0 <= i < self.entries@.len() ==> self.pair_at(i) != (key@, name@),
            },
    {
        let mut i: usize = 0;
        while i < self.entries.len()
            invariant
                i <= self.entries@.len(),
                forall|j: int| 0 <= j < i ==> self.pair_at(j) != (key@, name@),
            decreases self.entries@.len() - i,
        {
            if self.entries[i].0.is(key) && str_eq(self.entries[i].1.as_str(), name) {
                return Some(i);
            }
            i += 1;
        }
        None
    }

    /// The index that played last on the leaf of `key` whose first variation is `name`.
    pub fn get(&self, key: &Key, name: &str) -> (last: Option<usize>)
        ensures
            last == if self.view().contains_key((key@, name@)) {
                Some(self.view()[(key@, name@)])
            } else {
                None
            },
    {
        match self.position(key, name) {
            Some(i) => {
                proof {
                    let j = choose|j: int| self.holds((key@, name@), j);
                    self.lemma_one((key@, name@), i as int, j);
                }
                Some(self.entries[i].2)
            },
            None => None,
        }
    }

    /// Notes that `index` played last on the leaf of `key` whose first variation is `name`.
    pub fn set(&mut self, key: &Key, name: &str, index: usize)
        ensures
            final(self).view() == old(self).view().insert((key@, name@), index),
    {
        let ghost before = *self;
        let ghost pair = (key@, name@);
        let ghost n = before.entries@.len() as int;
        let found = self.position(key, name);
        match found {
            Some(i) => {
                self.entries.set(i, (key.clone(), name.to_owned(), index));
            },
            None => {
                self.entries.push((key.clone(), name.to_owned(), index));
            },
        }
        proof {
            let at = match found {
                Some(i) => i as int,
                None => n,
            };
            assert forall|j: int| 0 <= j < n implies self.pair_at(j) == before.pair_at(j) by {}
            assert(self.pair_at(at) == pair);
            assert forall|j: int| 0 <= j < at implies self.pair_at(j) != pair by {
                if found is Some {
                    assert(before.holds(pair, at));
                }
                assert(before.pair_at(j) != pair);
            }
            assert(self.holds(pair, at));
            let after = before.view().insert(pair, index);
            assert forall|p: (Seq<char>, Seq<char>)| self.view().contains_key(p)
                == after.contains_key(p) by {
                if self.view().contains_key(p) && p != pair {
                    let j = choose|j: int| self.holds(p, j);
                    assert(j < n);
                    self.lemma_same_pairs(before, p, j);
                }
                if before.view().contains_key(p) {
                    let j = choose|j: int| before.holds(p, j);
                    before.lemma_same_pairs(*self, p, j);
                }
            }
            assert forall|p: (Seq<char>, Seq<char>)|
                self.view().contains_key(p) implies self.view()[p] == after[p] by {
                let j = choose|j: int| self.holds(p, j);
                if p == pair {
                    self.lemma_one(p, j, at);
                } else {
                    assert(j < n);
                    self.lemma_same_pairs(before, p, j);
                    let k = choose|k: int| before.holds(p, k);
                    before.lemma_one(p, j, k);
                }
            }
            assert(self.view() =~= after);
        }
    }
}

} // verus!
