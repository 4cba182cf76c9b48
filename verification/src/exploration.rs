//! The order in which selections are explored, and the state that walks through it.
//!
//! Read as a binary number, with position `i` worth `2^i`, every selection has a rank.  The
//! exploration starts at the empty selection, whose rank is zero, and each step leads to
//! the selection of the next rank, until all `2^n` selections of `n` positions have been
//! presented.

use crate::base::solution::{with_item, without_item, Solution};
use vstd::arithmetic::power2::{lemma2_to64, lemma_pow2_unfold, pow2};
use vstd::prelude::*;

verus! {

/// The rank that the first `count` flags contribute: the sum of `2^i` over the taken
/// positions `i < count`.
pub open spec fn rank_of_first(flags: Seq<bool>, count: nat) -> nat
    decreases count,
{
    if count == 0 {
        0
    } else {
        let rest = rank_of_first(flags, (count - 1) as nat);
        if flags[count - 1] {
            rest + pow2((count - 1) as nat)
        } else {
            rest
        }
    }
}

/// The rank of a selection: how many selections the exploration presents before it.
pub open spec fn rank(flags: Seq<bool>) -> nat {
    rank_of_first(flags, flags.len())
}

/// The first `count` flags contribute less than `2^count`.
pub proof fn lemma_rank_of_first_below(flags: Seq<bool>, count: nat)
    ensures
        rank_of_first(flags, count) < pow2(count),
    decreases count,
{
    if count == 0 {
        lemma2_to64();
    } else {
        lemma_rank_of_first_below(flags, (count - 1) as nat);
        lemma_pow2_unfold(count);
    }
}

/// Where all of the first `count` positions are taken, they contribute `2^count - 1`.
pub proof fn lemma_rank_all_taken(flags: Seq<bool>, count: nat)
    requires
        forall|j: int| 0 <= j < count ==> flags[j],
    ensures
        rank_of_first(flags, count) + 1 == pow2(count),
    decreases count,
{
    if count == 0 {
        lemma2_to64();
    } else {
        lemma_rank_all_taken(flags, (count - 1) as nat);
        lemma_pow2_unfold(count);
    }
}

/// Where none of the first `count` positions is taken, they contribute nothing.
pub proof fn lemma_rank_none_taken(flags: Seq<bool>, count: nat)
    requires
        forall|j: int| 0 <= j < count ==> !flags[j],
    ensures
        rank_of_first(flags, count) == 0,
    decreases count,
{
    if count > 0 {
        lemma_rank_none_taken(flags, (count - 1) as nat);
    }
}

/// Two selections that agree on the positions from `from` up to `count` owe the same
/// part of their rank to those positions.
pub proof fn lemma_rank_agrees_above(a: Seq<bool>, b: Seq<bool>, from: nat, count: nat)
    requires
        from <= count,
        forall|j: int| from <= j < count ==> a[j] == b[j],
    ensures
        rank_of_first(a, count) - rank_of_first(a, from) == rank_of_first(b, count)
            - rank_of_first(b, from),
    decreases count,
{
    if from < count {
        lemma_rank_agrees_above(a, b, from, (count - 1) as nat);
    }
}

/// Two selections whose first `count` flags contribute the same rank agree on those flags.
pub proof fn lemma_rank_of_first_one_to_one(a: Seq<bool>, b: Seq<bool>, count: nat)
    requires
        rank_of_first(a, count) == rank_of_first(b, count),
    ensures
        forall|j: int| 0 <= j < count ==> a[j] == b[j],
    decreases count,
{
    if count > 0 {
        let fewer = (count - 1) as nat;
        lemma_rank_of_first_below(a, fewer);
        lemma_rank_of_first_below(b, fewer);
        lemma_rank_of_first_one_to_one(a, b, fewer);
    }
}

/// Every selection of `n` positions has a rank below `2^n`.
pub proof fn lemma_rank_below_limit(flags: Seq<bool>)
    ensures
        rank(flags) < pow2(flags.len()),
{
    lemma_rank_of_first_below(flags, flags.len());
}

/// No two selections of the same length share a rank.
pub proof fn lemma_rank_one_to_one(a: Seq<bool>, b: Seq<bool>)
    requires
        a.len() == b.len(),
        rank(a) == rank(b),
    ensures
        a == b,
{
    lemma_rank_of_first_one_to_one(a, b, a.len());
    assert(a =~= b);
}

/// `presented` holds the selections of `item_count` positions in the order of exploration,
/// all of them: `2^item_count` selections, the one at step `k` having rank `k`.
pub open spec fn is_whole_exploration(presented: Seq<Seq<bool>>, item_count: nat) -> bool {
    &&& presented.len() == pow2(item_count)
    &&& forall|step: int|
        0 <= step < presented.len() ==> (#[trigger] presented[step]).len() == item_count && rank(
            presented[step],
        ) == step
}

/// A whole exploration presents every selection exactly once: a selection of `item_count`
/// positions stands at the step that is its rank, and at no other step.
pub proof fn lemma_each_selection_once(
    presented: Seq<Seq<bool>>,
    item_count: nat,
    flags: Seq<bool>,
)
    requires
        is_whole_exploration(presented, item_count),
        flags.len() == item_count,
    ensures
        rank(flags) < presented.len(),
        presented[rank(flags) as int] == flags,
        forall|step: int|
            0 <= step < presented.len() && #[trigger] presented[step] == flags ==> step == rank(
                flags,
            ),
{
    lemma_rank_below_limit(flags);
    lemma_rank_one_to_one(presented[rank(flags) as int], flags);
}

/// The step of a binary counter adds one to the rank: where `lowest` is the lowest
/// position that `before` leaves out, taking it and leaving out every position below it
/// gives the selection of the next rank.
pub proof fn lemma_rank_of_next(before: Seq<bool>, after: Seq<bool>, lowest: nat)
    requires
        before.len() == after.len(),
        lowest < before.len(),
        forall|j: int| 0 <= j < lowest ==> before[j] && !after[j],
        !before[lowest as int],
        after[lowest as int],
        forall|j: int| lowest < j < before.len() ==> after[j] == before[j],
    ensures
        rank(after) == rank(before) + 1,
{
    lemma_rank_all_taken(before, lowest);
    lemma_rank_none_taken(after, lowest);
    assert(rank_of_first(before, lowest + 1) == rank_of_first(before, lowest));
    assert(rank_of_first(after, lowest + 1) == pow2(lowest));
    lemma_rank_agrees_above(before, after, lowest + 1, before.len());
}

/// The state of an exploration: the working selection, and the boundary, which is one
/// past the highest position that the working selection takes.
///
/// At boundary 0 the working selection is empty.  At boundary `b > 0` position `b - 1` is
/// taken, and the positions below it run through all their combinations like the digits
/// of a binary counter.
#[derive(Debug)]
pub struct Exploration {
    solution: Solution,
    magnitude: usize,
}

impl View for Exploration {
    type V = Seq<bool>;

    /// The working selection.
    closed spec fn view(&self) -> Seq<bool> {
        self.solution@
    }
}

impl Exploration {
    /// The boundary.
    pub closed spec fn boundary(&self) -> nat {
        self.magnitude as nat
    }

    /// The boundary is one past the highest taken position, or 0 where nothing is taken.
    pub open spec fn well_formed(&self) -> bool {
        &&& self.boundary() <= self@.len()
        &&& self.boundary() > 0 ==> self@[self.boundary() - 1]
        &&& forall|j: int| self.boundary() <= j < self@.len() ==> !self@[j]
    }

    /// The start of an exploration over `item_count` positions: nothing taken, boundary 0.
    pub fn begin(item_count: usize) -> (exploration: Exploration)
        ensures
            exploration.well_formed(),
            exploration@.len() == item_count,
            exploration.boundary() == 0,
            rank(exploration@) == 0,
    {
        let exploration = Exploration { solution: Solution::empty(item_count), magnitude: 0 };
        proof {
            lemma_rank_none_taken(exploration@, item_count as nat);
        }
        exploration
    }

    /// The working selection.
    pub fn get_solution(&self) -> (solution: &Solution)
        ensures
            solution@ == self@,
    {
        &self.solution
    }

    /// The boundary.
    pub fn get_magnitude(&self) -> (magnitude: usize)
        ensures
            magnitude == self.boundary(),
    {
        self.magnitude
    }

    /// Moves on to the next selection, and says whether there was one.
    ///
    /// Within a boundary the lowest position that is left out is taken, and all positions
    /// below it are left out.  When no position below the boundary is left out, the
    /// boundary is exhausted: the positions below it are left out and the position at the
    /// boundary is taken, which moves the boundary up by one.  When the boundary cannot
    /// move up, the exploration is over and the state stays as it is.
    ///
    /// Each step adds one to the rank, so an exploration over `n` positions that starts
    /// at [`Exploration::begin`] presents `2^n` selections, the last of them at the call
    /// that returns `false`.
    pub fn advance(&mut self) -> (more: bool)
        requires
            old(self).well_formed(),
        ensures
            final(self).well_formed(),
            final(self)@.len() == old(self)@.len(),
            more == (rank(old(self)@) + 1 < pow2(old(self)@.len())),
            more ==> rank(final(self)@) == rank(old(self)@) + 1,
            !more ==> final(self)@ == old(self)@ && final(self).boundary() == old(self).boundary(),
    {
        let item_count = self.solution.get_size();
        let magnitude = self.magnitude;
        let mut lowest: usize = 0;

        while lowest < magnitude
            invariant
                lowest <= magnitude,
                magnitude <= self.solution@.len(),
                forall|j: int| 0 <= j < lowest ==> self.solution@[j],
            ensures
                lowest <= magnitude,
                forall|j: int| 0 <= j < lowest ==> self.solution@[j],
                lowest < magnitude ==> !self.solution@[lowest as int],
            decreases magnitude - lowest,
        {
            if !self.solution.has_item(lowest).unwrap() {
                break ;
            }
            lowest += 1;
        }

        if lowest < magnitude {
            Self::exclude_first(&mut self.solution, lowest);
            self.solution.include_item(lowest).unwrap();
        } else if magnitude < item_count {
            Self::exclude_first(&mut self.solution, magnitude);
            self.magnitude = magnitude + 1;
            self.solution.include_item(magnitude).unwrap();
        } else {
            proof {
                lemma_rank_all_taken(self@, item_count as nat);
            }
            return false;
        }
        proof {
            lemma_rank_of_next(old(self)@, self@, lowest as nat);
            lemma_rank_below_limit(self@);
        }
        true
    }

    /// Leaves out the first `count` positions of `solution`.
    fn exclude_first(solution: &mut Solution, count: usize)
        requires
            count <= old(solution)@.len(),
        ensures
            final(solution)@.len() == old(solution)@.len(),
            forall|j: int| 0 <= j < count ==> !final(solution)@[j],
            forall|j: int| count <= j < old(solution)@.len() ==> final(solution)@[j] == old(solution)@[j],
    {
        for i in 0..count
            invariant
                count <= old(solution)@.len(),
                solution@.len() == old(solution)@.len(),
                forall|j: int| 0 <= j < i ==> !solution@[j],
                forall|j: int| i <= j < old(solution)@.len() ==> solution@[j] == old(solution)@[j],
        {
            solution.exclude(i).unwrap();
        }
    }
}

} // verus!
