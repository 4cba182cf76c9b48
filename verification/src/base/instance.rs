//! Knapsack instances: the items, the capacity, and how a selection is judged.

use super::random::gen_range;
use super::solution::Solution;
use super::text::{decimal, decimal_text};
use vstd::prelude::*;
use vstd::std_specs::cmp::PartialEqSpecImpl;
use vstd::string::StringExecFns;

verus! {

/// One item: what it is worth and what it weighs.
#[derive(Debug, Copy, Clone, PartialEq, Eq, Structural)]
pub struct Item {
    pub value: u64,
    pub weight: u64,
}

/// What an [`Instance`] is, mathematically: the items in their fixed order, and the
/// capacity.  A selection is a sequence of flags; flag `i` says whether item `i` is taken.
pub struct InstanceView {
    pub items: Seq<Item>,
    pub capacity: u64,
}

impl InstanceView {
    /// The summed value of the items taken by `flags` among the first `count` items.
    pub open spec fn value_of_first(self, flags: Seq<bool>, count: nat) -> nat
        decreases count,
    {
        if count == 0 {
            0
        } else {
            let rest = self.value_of_first(flags, (count - 1) as nat);
            if flags[count - 1] {
                (rest + self.items[count - 1].value) as nat
            } else {
                rest
            }
        }
    }

    /// The summed weight of the items taken by `flags` among the first `count` items.
    pub open spec fn weight_of_first(self, flags: Seq<bool>, count: nat) -> nat
        decreases count,
    {
        if count == 0 {
            0
        } else {
            let rest = self.weight_of_first(flags, (count - 1) as nat);
            if flags[count - 1] {
                (rest + self.items[count - 1].weight) as nat
            } else {
                rest
            }
        }
    }

    /// The summed value of all the items that `flags` takes.
    pub open spec fn value_of(self, flags: Seq<bool>) -> nat {
        self.value_of_first(flags, self.items.len())
    }

    /// The summed weight of all the items that `flags` takes.
    pub open spec fn weight_of(self, flags: Seq<bool>) -> nat {
        self.weight_of_first(flags, self.items.len())
    }

    /// `flags` has one flag per item, and what it takes weighs no more than the capacity.
    pub open spec fn admits(self, flags: Seq<bool>) -> bool {
        flags.len() == self.items.len() && self.weight_of(flags) <= self.capacity
    }

    /// The summed value of the first `count` items.
    pub open spec fn total_value_of_first(self, count: nat) -> nat
        decreases count,
    {
        if count == 0 {
            0
        } else {
            (self.total_value_of_first((count - 1) as nat) + self.items[count - 1].value) as nat
        }
    }

    /// The summed value of all the items.
    pub open spec fn total_value(self) -> nat {
        self.total_value_of_first(self.items.len())
    }

    /// The line of text that gives the capacity.
    pub open spec fn capacity_line(self) -> Seq<char> {
        "capacity: "@ + decimal_text(self.capacity) + "\n"@
    }

    /// The line of text that gives the item at position `index`.
    pub open spec fn item_line(self, index: int) -> Seq<char> {
        "["@ + decimal_text(index as u64) + "] value: "@ + decimal_text(self.items[index].value)
            + ", weight: "@ + decimal_text(self.items[index].weight) + "\n"@
    }

    /// The lines of text that give the first `count` items, in order.
    pub open spec fn item_lines(self, count: nat) -> Seq<char>
        decreases count,
    {
        if count == 0 {
            Seq::empty()
        } else {
            self.item_lines((count - 1) as nat) + self.item_line(count - 1)
        }
    }

    /// The instance as text: the capacity line, then one line for each item.
    pub open spec fn text(self) -> Seq<char> {
        self.capacity_line() + self.item_lines(self.items.len())
    }

    /// The value of every admitted selection can be held in a `u64`.
    pub open spec fn values_fit(self) -> bool {
        forall|flags: Seq<bool>| #[trigger] self.admits(flags) ==> self.value_of(flags) <= u64::MAX
    }

    /// A selection that takes none of the first `count` items has neither value nor weight
    /// among them.
    pub proof fn lemma_nothing_taken(self, flags: Seq<bool>, count: nat)
        requires
            forall|i: int| 0 <= i < count ==> !flags[i],
        ensures
            self.value_of_first(flags, count) == 0,
            self.weight_of_first(flags, count) == 0,
        decreases count,
    {
        if count > 0 {
            self.lemma_nothing_taken(flags, (count - 1) as nat);
        }
    }

    /// No selection is worth more than all the items together.
    pub proof fn lemma_value_within_total(self, flags: Seq<bool>, count: nat)
        ensures
            self.value_of_first(flags, count) <= self.total_value_of_first(count),
        decreases count,
    {
        if count > 0 {
            self.lemma_value_within_total(flags, (count - 1) as nat);
        }
    }

    /// Where all the items together are worth no more than a `u64` can hold, the value of
    /// every selection can be held in one.
    pub proof fn lemma_total_value_fits(self)
        requires
            self.total_value() <= u64::MAX,
        ensures
            self.values_fit(),
    {
        assert forall|flags: Seq<bool>| #[trigger] self.admits(flags) implies self.value_of(flags)
            <= u64::MAX by {
            self.lemma_value_within_total(flags, self.items.len());
        }
    }

    /// The value of the first items never shrinks as more items are counted.
    pub proof fn lemma_total_value_grows(self, fewer: nat, more: nat)
        requires
            fewer <= more,
        ensures
            self.total_value_of_first(fewer) <= self.total_value_of_first(more),
        decreases more,
    {
        if fewer < more {
            self.lemma_total_value_grows(fewer, (more - 1) as nat);
        }
    }

    /// The weight taken among the first items never shrinks as more items are counted.
    pub proof fn lemma_weight_grows(self, flags: Seq<bool>, fewer: nat, more: nat)
        requires
            fewer <= more,
        ensures
            self.weight_of_first(flags, fewer) <= self.weight_of_first(flags, more),
        decreases more,
    {
        if fewer < more {
            self.lemma_weight_grows(flags, fewer, (more - 1) as nat);
        }
    }
}

/// A knapsack instance: items in a fixed order and a capacity.  It does not change once
/// built; the position of an item is its identity.
#[derive(Debug)]
pub struct Instance {
    items: Vec<Item>,
    capacity: u64,
}

impl View for Instance {
    type V = InstanceView;

    closed spec fn view(&self) -> InstanceView {
        InstanceView { items: self.items@, capacity: self.capacity }
    }
}

impl Clone for Instance {
    /// A copy with the same items and capacity.
    fn clone(&self) -> (copy: Self)
        ensures
            copy@ == self@,
    {
        let copy = Instance { items: self.items.clone(), capacity: self.capacity };
        assert(copy@.items =~= self@.items);
        copy
    }
}

impl PartialEq for Instance {
    /// Whether both instances have the same capacity and the same items in the same order.
    fn eq(&self, other: &Instance) -> (equal: bool) {
        if self.capacity != other.capacity {
            return false;
        }
        if self.items.len() != other.items.len() {
            return false;
        }
        for i in 0..self.items.len()
            invariant
                self.items@.len() == other.items@.len(),
                forall|j: int| 0 <= j < i ==> self.items@[j] == other.items@[j],
        {
            if self.items[i] != other.items[i] {
                return false;
            }
        }
        assert(self.items@ =~= other.items@);
        true
    }
}

impl PartialEqSpecImpl for Instance {
    open spec fn obeys_eq_spec() -> bool {
        true
    }

    open spec fn eq_spec(&self, other: &Instance) -> bool {
        self@ == other@
    }
}

impl Instance {
    /// A builder with no items and capacity 0.
    pub fn new() -> (builder: InstanceBuilder)
        ensures
            builder@ == (InstanceView { items: Seq::empty(), capacity: 0 }),
    {
        InstanceBuilder::new()
    }

    /// The instance with the given items, in their order, and the given capacity.
    pub fn from_items(items: Vec<Item>, capacity: u64) -> (instance: Instance)
        ensures
            instance@ == (InstanceView { items: items@, capacity }),
    {
        Instance { items, capacity }
    }

    /// The capacity.
    pub fn get_capacity(&self) -> (capacity: u64)
        ensures
            capacity == self@.capacity,
    {
        self.capacity
    }

    /// The number of items.
    pub fn get_item_count(&self) -> (count: usize)
        ensures
            count == self@.items.len(),
    {
        self.items.len()
    }

    /// The instance as text: a line with the capacity, then a line for each item with its
    /// position, value and weight.
    pub fn to_string(&self) -> (text: String)
        ensures
            text@ == self@.text(),
    {
        let mut text = String::new();

        text.append("capacity: ");
        text.append(decimal(self.capacity).as_str());
        text.append("\n");

        for i in 0..self.items.len()
            invariant
                text@ == self@.capacity_line() + self@.item_lines(i as nat),
        {
            let value = self.items[i].value;
            let weight = self.items[i].weight;
            let mut line = String::new();

            line.append("[");
            line.append(decimal(i as u64).as_str());
            line.append("] value: ");
            line.append(decimal(value).as_str());
            line.append(", weight: ");
            line.append(decimal(weight).as_str());
            line.append("\n");
            assert(line@ == self@.item_line(i as int));

            text.append(line.as_str());
            assert(text@ == self@.capacity_line() + self@.item_lines((i + 1) as nat));
        }
        text
    }

    /// What all the items together are worth, or `None` when a `u64` cannot hold it.
    /// Where it is `Some`, the value of every selection can be held in a `u64` as well.
    pub fn get_total_value(&self) -> (r: Option<u64>)
        ensures
            match r {
                Some(total) => total == self@.total_value(),
                None => self@.total_value() > u64::MAX,
            },
            r is Some ==> self@.values_fit(),
    {
        let mut total: u64 = 0;

        for i in 0..self.items.len()
            invariant
                total == self@.total_value_of_first(i as nat),
        {
            match total.checked_add(self.items[i].value) {
                Some(sum) => {
                    total = sum;
                },
                None => {
                    proof {
                        self@.lemma_total_value_grows((i + 1) as nat, self@.items.len());
                    }
                    return None;
                },
            }
        }
        proof {
            self@.lemma_total_value_fits();
        }
        Some(total)
    }

    /// A copy of the item at position `index`.
    pub fn copy_item_at(&self, index: usize) -> (item: Item)
        requires
            index < self@.items.len(),
        ensures
            item == self@.items[index as int],
    {
        self.items[index]
    }

    /// Whether `solution` is admitted: it has one flag per item, and what it takes weighs
    /// no more than the capacity.
    pub fn solvable_by(&self, solution: &Solution) -> (solvable: bool)
        ensures
            solvable == self@.admits(solution@),
    {
        let item_count = self.items.len();
        let mut weight: u128 = 0;

        if solution.get_size() != item_count {
            return false;
        }
        for i in 0..item_count
            invariant
                item_count == solution@.len(),
                item_count == self@.items.len(),
                weight == self@.weight_of_first(solution@, i as nat),
                weight <= self@.capacity,
        {
            if solution.has_item(i).unwrap() {
                weight += self.items[i].weight as u128;
            }
            if weight > self.capacity as u128 {
                proof {
                    self@.lemma_weight_grows(solution@, (i + 1) as nat, item_count as nat);
                }
                return false;
            }
        }
        true
    }

    /// The value of what `solution` takes, or `None` when `solution` is not admitted:
    /// when it has another length than the instance has items, or when what it takes
    /// weighs more than the capacity.
    ///
    /// The value of an admitted solution must fit a `u64`;
    /// [`Instance::evaluate_in_full`] gives the same answer without that limit.
    pub fn evaluate(&self, solution: &Solution) -> (r: Option<u64>)
        requires
            self@.admits(solution@) ==> self@.value_of(solution@) <= u64::MAX,
        ensures
            match r {
                Some(value) => self@.admits(solution@) && value == self@.value_of(solution@),
                None => !self@.admits(solution@),
            },
            solution@.len() != self@.items.len() ==> r is None,
    {
        match self.evaluate_in_full(solution) {
            Some(total_value) => Some(total_value as u64),
            None => None,
        }
    }

    /// The value of what `solution` takes, whatever its size, or `None` when `solution`
    /// is not admitted.
    ///
    /// Items are weighed in order of position, and the evaluation stops at the first item
    /// that the remaining capacity cannot absorb.
    pub fn evaluate_in_full(&self, solution: &Solution) -> (r: Option<u128>)
        ensures
            match r {
                Some(value) => self@.admits(solution@) && value == self@.value_of(solution@),
                None => !self@.admits(solution@),
            },
            solution@.len() != self@.items.len() ==> r is None,
    {
        let solution_size = solution.get_size();

        if solution_size != self.get_item_count() {
            return None;
        }
        let mut total_value: u128 = 0;
        let mut capacity: u64 = self.capacity;

        for i in 0..solution_size
            invariant
                solution_size == solution@.len(),
                solution_size == self@.items.len(),
                total_value == self@.value_of_first(solution@, i as nat),
                total_value <= i * u64::MAX,
                capacity + self@.weight_of_first(solution@, i as nat) == self@.capacity,
        {
            if solution.has_item(i).unwrap() {
                total_value += self.items[i].value as u128;
                let weight: u64 = self.items[i].weight;

                if capacity >= weight {
                    capacity -= weight;
                } else {
                    proof {
                        self@.lemma_weight_grows(solution@, (i + 1) as nat, solution_size as nat);
                    }
                    return None;
                }
            }
        }
        Some(total_value)
    }
}

/// Collects the items and the capacity of an instance.  Items keep the order in which
/// they were added.
#[derive(Debug)]
pub struct InstanceBuilder {
    instance: Instance,
}

impl View for InstanceBuilder {
    type V = InstanceView;

    /// The instance that `build` would give.
    closed spec fn view(&self) -> InstanceView {
        self.instance@
    }
}

impl InstanceBuilder {
    /// A builder with no items and capacity 0.
    pub fn new() -> (builder: Self)
        ensures
            builder@ == (InstanceView { items: Seq::empty(), capacity: 0 }),
    {
        InstanceBuilder { instance: Instance { items: Vec::new(), capacity: 0 } }
    }

    /// The same builder with the capacity set to `value`.
    pub fn with_capacity(self, value: u64) -> (builder: Self)
        ensures
            builder@ == (InstanceView { items: self@.items, capacity: value }),
    {
        let mut builder = self;
        builder.instance.capacity = value;
        builder
    }

    /// The same builder with `item` added behind the items it has.
    pub fn add_item(self, item: Item) -> (builder: Self)
        ensures
            builder@ == (InstanceView { items: self@.items.push(item), capacity: self@.capacity }),
    {
        let mut builder = self;
        builder.instance.items.push(item);
        builder
    }

    /// Adds `item` behind the items that the builder has.
    pub fn only_add_item(&mut self, item: Item)
        ensures
            final(self)@ == (InstanceView {
                items: old(self)@.items.push(item),
                capacity: old(self)@.capacity,
            }),
    {
        self.instance.items.push(item);
    }

    /// The instance with the items and the capacity collected so far.
    pub fn build(self) -> (instance: Instance)
        ensures
            instance@ == self@,
    {
        self.instance
    }
}

/// Makes instances with random items.
#[derive(Debug, Copy, Clone)]
pub struct InstanceGenerator {
    pub count: usize,
    pub capacity: u64,
    pub min_value: u64,
    pub max_value: u64,
    pub max_weight: u64,
    pub min_weight: u64,
}

impl InstanceGenerator {
    /// An instance of `count` items and the given capacity.  Each value is drawn from
    /// `min_value` up to, but not including, `max_value`, and each weight likewise from
    /// its range; a range that is drawn from must not be empty.
    ///
    /// For each item the value is drawn first and the weight second, and the instance is
    /// the one that [`InstanceGenerator::from_draws`] makes of the pairs.
    pub fn generate(&self) -> (instance: Instance)
        requires
            self.count > 0 ==> self.min_value < self.max_value && self.min_weight
                < self.max_weight,
        ensures
            instance@.capacity == self.capacity,
            instance@.items.len() == self.count,
            forall|i: int|
                0 <= i < self.count ==> {
                    &&& self.min_value <= (#[trigger] instance@.items[i]).value < self.max_value
                    &&& self.min_weight <= instance@.items[i].weight < self.max_weight
                },
    {
        let mut draws: Vec<(u64, u64)> = Vec::with_capacity(self.count);
        let mut random_generator = rand::thread_rng();

        for i in 0..self.count
            invariant
                self.count > 0 ==> self.min_value < self.max_value && self.min_weight
                    < self.max_weight,
                draws@.len() == i,
                forall|j: int|
                    0 <= j < i ==> {
                        &&& self.min_value <= (#[trigger] draws@[j]).0 < self.max_value
                        &&& self.min_weight <= draws@[j].1 < self.max_weight
                    },
        {
            let value = gen_range(&mut random_generator, self.min_value, self.max_value);
            let weight = gen_range(&mut random_generator, self.min_weight, self.max_weight);
            draws.push((value, weight));
        }
        self.from_draws(&draws)
    }

    /// The instance with the generator's capacity and one item for each pair of `draws`,
    /// in order: the first number of a pair is the item's value, the second its weight.
    pub fn from_draws(&self, draws: &Vec<(u64, u64)>) -> (instance: Instance)
        ensures
            instance@.capacity == self.capacity,
            instance@.items.len() == draws@.len(),
            forall|i: int|
                0 <= i < draws@.len() ==> (#[trigger] instance@.items[i]) == (Item {
                    value: draws@[i].0,
                    weight: draws@[i].1,
                }),
    {
        let mut instance = Instance::new().with_capacity(self.capacity);

        for i in 0..draws.len()
            invariant
                instance@.capacity == self.capacity,
                instance@.items.len() == i,
                forall|j: int|
                    0 <= j < i ==> (#[trigger] instance@.items[j]) == (Item {
                        value: draws@[j].0,
                        weight: draws@[j].1,
                    }),
        {
            instance.only_add_item(Item { value: draws[i].0, weight: draws[i].1 })
        }
        instance.build()
    }
}

} // verus!
