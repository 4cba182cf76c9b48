//! Exact solver for the 0/1 knapsack problem.
//!
//! An [`Instance`](base::instance::Instance) holds an ordered list of items and a capacity;
//! a [`Solution`](base::solution::Solution) marks which of the items are taken.  The
//! [`BruteForce`](approach::BruteForce) approach walks every selection once and keeps the
//! most valuable one whose weight stays within the capacity.

pub mod approach;
pub mod base;
pub mod exploration;
