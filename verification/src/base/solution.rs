//! A selection of items: one flag per item position.

use super::random::random_flag;
use vstd::prelude::*;

verus! {

/// The text carried by the error that the index-taking operations report.
pub open spec fn out_of_range_message() -> Seq<char> {
    "index is out of range"@
}

/// The flags `flags` with position `index` marked as taken.
pub open spec fn with_item(flags: Seq<bool>, index: int) -> Seq<bool> {
    flags.update(index, true)
}

/// The flags `flags` with position `index` marked as left out.
pub open spec fn without_item(flags: Seq<bool>, index: int) -> Seq<bool> {
    flags.update(index, false)
}

/// Taking a position leaves it taken and leaving it out leaves it left out, whatever it
/// was before; neither changes the length, and doing either a second time changes nothing.
pub proof fn lemma_taken_and_left_out(flags: Seq<bool>, index: int)
    requires
        0 <= index < flags.len(),
    ensures
        with_item(flags, index)[index],
        !without_item(flags, index)[index],
        with_item(flags, index).len() == flags.len(),
        without_item(flags, index).len() == flags.len(),
        with_item(with_item(flags, index), index) == with_item(flags, index),
        without_item(without_item(flags, index), index) == without_item(flags, index),
{
}

/// A fixed-length vector of inclusion flags, one per item position.
///
/// Its view is the sequence of flags; the length is fixed when the value is made.
#[derive(Debug)]
pub struct Solution {
    items: Vec<u8>,
}

impl View for Solution {
    type V = Seq<bool>;

    closed spec fn view(&self) -> Seq<bool> {
        Seq::new(self.items@.len(), |i: int| self.items@[i] == 1u8)
    }
}

impl Solution {
    /// A solution of `item_count` positions, each taken or left out by a draw of its own.
    ///
    /// The flags are drawn one for each position, in order of position, and the solution
    /// is the one that [`Solution::from_flags`] makes of them.
    pub fn random(item_count: usize) -> (solution: Solution)
        ensures
            solution@.len() == item_count,
    {
        let mut drawn: Vec<bool> = Vec::with_capacity(item_count);

        for i in 0..item_count
            invariant
                drawn@.len() == i,
        {
            drawn.push(random_flag());
        }
        Solution::from_flags(&drawn)
    }

    /// The solution that takes exactly the positions whose flag is set in `flags`.
    pub fn from_flags(flags: &Vec<bool>) -> (solution: Solution)
        ensures
            solution@ == flags@,
    {
        let mut solution = Solution { items: Vec::with_capacity(flags.len()) };

        for i in 0..flags.len()
            invariant
                solution.items@.len() == i,
                forall|j: int| 0 <= j < i ==> (solution.items@[j] == 1u8) == flags@[j],
        {
            let flag: u8 = if flags[i] {
                1
            } else {
                0
            };
            solution.items.push(flag);
        }
        assert(solution@ =~= flags@);
        solution
    }

    /// A solution of `item_count` positions with nothing taken.
    pub fn empty(item_count: usize) -> (solution: Solution)
        ensures
            solution@.len() == item_count,
            forall|i: int| 0 <= i < item_count ==> !solution@[i],
    {
        Solution { items: vec![0u8; item_count] }
    }

    /// Whether position `index` is taken; an error when `index` is not a position.
    pub fn has_item(&self, index: usize) -> (r: Result<bool, String>)
        ensures
            match r {
                Ok(taken) => index < self@.len() && taken == self@[index as int],
                Err(e) => index >= self@.len() && e@ == out_of_range_message(),
            },
    {
        if index >= self.get_size() {
            return Self::get_out_of_range_error();
        }
        Ok(self.items[index] == 1)
    }

    /// Marks position `index` as taken; an error, and no change, when `index` is not a
    /// position.
    pub fn include_item(&mut self, index: usize) -> (r: Result<(), String>)
        ensures
            match r {
                Ok(_) => index < old(self)@.len() && final(self)@ == with_item(
                    old(self)@,
                    index as int,
                ),
                Err(e) => index >= old(self)@.len() && final(self)@ == old(self)@ && e@
                    == out_of_range_message(),
            },
    {
        if index >= self.get_size() {
            return Self::get_out_of_range_error();
        }
        self.items[index] = 1;
        assert(self@ =~= with_item(old(self)@, index as int));
        Ok(())
    }

    /// Marks position `index` as left out; an error, and no change, when `index` is not a
    /// position.
    pub fn exclude(&mut self, index: usize) -> (r: Result<(), String>)
        ensures
            match r {
                Ok(_) => index < old(self)@.len() && final(self)@ == without_item(
                    old(self)@,
                    index as int,
                ),
                Err(e) => index >= old(self)@.len() && final(self)@ == old(self)@ && e@
                    == out_of_range_message(),
            },
    {
        if index >= self.get_size() {
            return Self::get_out_of_range_error();
        }
        self.items[index] = 0;
        assert(self@ =~= without_item(old(self)@, index as int));
        Ok(())
    }

    /// The number of positions.
    pub fn get_size(&self) -> (size: usize)
        ensures
            size == self@.len(),
    {
        self.items.len()
    }

    fn get_out_of_range_error<T>() -> (r: Result<T, String>)
        ensures
            r matches Err(e) && e@ == out_of_range_message(),
    {
        Err("index is out of range".to_string())
    }
}

impl Clone for Solution {
    /// A copy with its own storage and the same flags.
    fn clone(&self) -> (copy: Self)
        ensures
            copy@ == self@,
    {
        let copy = Solution { items: self.items.clone() };
        assert(copy@ =~= self@);
        copy
    }
}

} // verus!
