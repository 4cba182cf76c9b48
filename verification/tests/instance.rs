use knapsack::base::instance::{Instance, InstanceBuilder, InstanceGenerator, Item};
use knapsack::base::solution::Solution;
use knapsack::base::text::decimal;

fn textbook() -> Instance {
    Instance::new()
        .with_capacity(50)
        .add_item(Item { value: 60, weight: 10 })
        .add_item(Item { value: 100, weight: 20 })
        .add_item(Item { value: 120, weight: 30 })
        .build()
}

fn taking(size: usize, positions: &[usize]) -> Solution {
    let mut solution = Solution::empty(size);
    for position in positions {
        solution.include_item(*position).unwrap();
    }
    solution
}

#[test]
fn test_instance_builder() {
    let mut instance = Instance::new()
        .with_capacity(1000)
        .add_item(Item { value: 42, weight: 21 });

    instance.only_add_item(Item { value: 666, weight: 999 });

    let instance = instance.build();

    let right_instance = Instance::from_items(
        vec![Item { value: 42, weight: 21 }, Item { value: 666, weight: 999 }],
        1000,
    );

    assert_eq!(instance, right_instance);
}

#[test]
fn builder_starts_empty() {
    let instance = InstanceBuilder::new().build();
    assert_eq!(instance.get_capacity(), 0);
    assert_eq!(instance.get_item_count(), 0);
    assert_eq!(instance, Instance::from_items(vec![], 0));
}

#[test]
fn builder_keeps_insertion_order() {
    let instance = textbook();
    assert_eq!(instance.get_capacity(), 50);
    assert_eq!(instance.get_item_count(), 3);
    assert_eq!(instance.copy_item_at(0), Item { value: 60, weight: 10 });
    assert_eq!(instance.copy_item_at(1), Item { value: 100, weight: 20 });
    assert_eq!(instance.copy_item_at(2), Item { value: 120, weight: 30 });
}

#[test]
fn with_capacity_replaces_the_capacity_only() {
    let instance = Instance::new()
        .add_item(Item { value: 1, weight: 2 })
        .with_capacity(7)
        .with_capacity(9)
        .build();
    assert_eq!(instance.get_capacity(), 9);
    assert_eq!(instance.get_item_count(), 1);
    assert_eq!(instance.copy_item_at(0), Item { value: 1, weight: 2 });
}

#[test]
fn instances_differ_by_capacity_items_and_order() {
    let a = Item { value: 1, weight: 2 };
    let b = Item { value: 3, weight: 4 };
    let base = Instance::from_items(vec![a, b], 10);
    assert_eq!(base, Instance::from_items(vec![a, b], 10));
    assert_ne!(base, Instance::from_items(vec![a, b], 11));
    assert_ne!(base, Instance::from_items(vec![b, a], 10));
    assert_ne!(base, Instance::from_items(vec![a], 10));
    assert_ne!(base, Instance::from_items(vec![a, Item { value: 3, weight: 5 }], 10));
    assert_ne!(base, Instance::from_items(vec![a, Item { value: 4, weight: 4 }], 10));
}

#[test]
fn instance_clone_is_equal() {
    let instance = textbook();
    let copy = instance.clone();
    assert_eq!(instance, copy);
}

#[test]
fn evaluate_sums_the_values_taken() {
    let instance = textbook();
    assert_eq!(instance.evaluate(&taking(3, &[])), Some(0));
    assert_eq!(instance.evaluate(&taking(3, &[0])), Some(60));
    assert_eq!(instance.evaluate(&taking(3, &[1])), Some(100));
    assert_eq!(instance.evaluate(&taking(3, &[2])), Some(120));
    assert_eq!(instance.evaluate(&taking(3, &[0, 1])), Some(160));
    assert_eq!(instance.evaluate(&taking(3, &[0, 2])), Some(180));
    assert_eq!(instance.evaluate(&taking(3, &[1, 2])), Some(220));
}

#[test]
fn evaluate_rejects_what_weighs_too_much() {
    let instance = textbook();
    assert_eq!(instance.evaluate(&taking(3, &[0, 1, 2])), None);
    let tight = Instance::from_items(vec![Item { value: 5, weight: 8 }], 7);
    assert_eq!(tight.evaluate(&taking(1, &[0])), None);
    assert_eq!(tight.evaluate(&taking(1, &[])), Some(0));
}

#[test]
fn evaluate_accepts_a_weight_equal_to_the_capacity() {
    let exact = Instance::from_items(vec![Item { value: 5, weight: 7 }], 7);
    assert_eq!(exact.evaluate(&taking(1, &[0])), Some(5));
}

#[test]
fn evaluate_rejects_another_length() {
    let instance = textbook();
    assert_eq!(instance.evaluate(&Solution::empty(2)), None);
    assert_eq!(instance.evaluate(&Solution::empty(4)), None);
    assert_eq!(instance.evaluate(&Solution::empty(0)), None);
    assert_eq!(instance.evaluate(&taking(4, &[3])), None);
    let none = Instance::from_items(vec![], 0);
    assert_eq!(none.evaluate(&Solution::empty(1)), None);
    assert_eq!(none.evaluate(&Solution::empty(0)), Some(0));
}

#[test]
fn evaluate_stops_at_the_first_item_that_does_not_fit() {
    let big = u64::MAX;
    let instance = Instance::from_items(
        vec![
            Item { value: 1, weight: 3 },
            Item { value: big, weight: 4 },
            Item { value: big, weight: 1 },
        ],
        5,
    );
    assert_eq!(instance.evaluate(&taking(3, &[0, 1, 2])), None);
    assert_eq!(instance.evaluate(&taking(3, &[1])), Some(big));
    assert_eq!(instance.evaluate(&taking(3, &[0, 1])), None);
}

#[test]
fn evaluate_handles_values_up_to_the_largest() {
    let instance = Instance::from_items(
        vec![Item { value: u64::MAX - 1, weight: 0 }, Item { value: 1, weight: 0 }],
        0,
    );
    assert_eq!(instance.evaluate(&taking(2, &[0, 1])), Some(u64::MAX));
}

#[test]
fn solvable_by_compares_the_weight_taken_with_the_capacity() {
    let instance = textbook();
    assert!(instance.solvable_by(&taking(3, &[])));
    assert!(instance.solvable_by(&taking(3, &[0])));
    assert!(instance.solvable_by(&taking(3, &[1, 2])));
    assert!(!instance.solvable_by(&taking(3, &[0, 1, 2])));
    assert!(!instance.solvable_by(&Solution::empty(2)));
    assert!(!instance.solvable_by(&Solution::empty(4)));
}

#[test]
fn solvable_by_agrees_with_evaluate() {
    let instance = textbook();
    for code in 0..8usize {
        let mut solution = Solution::empty(3);
        for position in 0..3 {
            if (code >> position) & 1 == 1 {
                solution.include_item(position).unwrap();
            }
        }
        assert_eq!(instance.solvable_by(&solution), instance.evaluate(&solution).is_some());
    }
}

#[test]
fn solvable_by_handles_weights_beyond_a_u64() {
    let instance = Instance::from_items(
        vec![Item { value: 1, weight: u64::MAX }, Item { value: 1, weight: u64::MAX }],
        u64::MAX,
    );
    assert!(instance.solvable_by(&taking(2, &[0])));
    assert!(instance.solvable_by(&taking(2, &[1])));
    assert!(!instance.solvable_by(&taking(2, &[0, 1])));
    assert_eq!(instance.evaluate(&taking(2, &[0, 1])), None);
}

#[test]
fn total_value_is_the_sum_or_none() {
    assert_eq!(textbook().get_total_value(), Some(280));
    assert_eq!(Instance::from_items(vec![], 3).get_total_value(), Some(0));
    let full = Instance::from_items(
        vec![Item { value: u64::MAX - 1, weight: 0 }, Item { value: 1, weight: 0 }],
        0,
    );
    assert_eq!(full.get_total_value(), Some(u64::MAX));
    let over = Instance::from_items(
        vec![
            Item { value: u64::MAX, weight: 0 },
            Item { value: 1, weight: 0 },
            Item { value: 7, weight: 0 },
        ],
        0,
    );
    assert_eq!(over.get_total_value(), None);
}

#[test]
fn text_lists_capacity_and_items() {
    assert_eq!(
        textbook().to_string(),
        "capacity: 50\n[0] value: 60, weight: 10\n[1] value: 100, weight: 20\n[2] value: 120, weight: 30\n"
    );
    assert_eq!(Instance::from_items(vec![], 0).to_string(), "capacity: 0\n");
    let large = Instance::from_items(vec![Item { value: u64::MAX, weight: 0 }], u64::MAX);
    assert_eq!(
        large.to_string(),
        "capacity: 18446744073709551615\n[0] value: 18446744073709551615, weight: 0\n"
    );
}

#[test]
fn generator_respects_count_capacity_and_ranges() {
    let generator = InstanceGenerator {
        count: 40,
        capacity: 500,
        min_value: 100,
        max_value: 1000,
        min_weight: 20,
        max_weight: 500,
    };
    let instance = generator.generate();
    assert_eq!(instance.get_capacity(), 500);
    assert_eq!(instance.get_item_count(), 40);
    for position in 0..40 {
        let item = instance.copy_item_at(position);
        assert!(100 <= item.value && item.value < 1000);
        assert!(20 <= item.weight && item.weight < 500);
    }
}

#[test]
fn generator_with_ranges_of_one_number_is_exact() {
    let generator = InstanceGenerator {
        count: 5,
        capacity: 9,
        min_value: 7,
        max_value: 8,
        min_weight: 3,
        max_weight: 4,
    };
    let instance = generator.generate();
    let item = Item { value: 7, weight: 3 };
    assert_eq!(instance, Instance::from_items(vec![item, item, item, item, item], 9));
}

#[test]
fn generator_with_no_items_draws_nothing() {
    let generator = InstanceGenerator {
        count: 0,
        capacity: 12,
        min_value: 5,
        max_value: 5,
        min_weight: 9,
        max_weight: 1,
    };
    assert_eq!(generator.generate(), Instance::from_items(vec![], 12));
}

#[test]
fn from_draws_pairs_value_and_weight_in_order() {
    let generator = InstanceGenerator {
        count: 9,
        capacity: 77,
        min_value: 1,
        max_value: 2,
        min_weight: 3,
        max_weight: 4,
    };
    let instance = generator.from_draws(&vec![(10, 20), (30, 40), (0, u64::MAX)]);
    assert_eq!(
        instance,
        Instance::from_items(
            vec![
                Item { value: 10, weight: 20 },
                Item { value: 30, weight: 40 },
                Item { value: 0, weight: u64::MAX },
            ],
            77,
        )
    );
    assert_eq!(generator.from_draws(&vec![]), Instance::from_items(vec![], 77));
}

#[test]
fn evaluate_in_full_agrees_with_evaluate() {
    let instance = textbook();
    for code in 0..8usize {
        let mut solution = Solution::empty(3);
        for position in 0..3 {
            if (code >> position) & 1 == 1 {
                solution.include_item(position).unwrap();
            }
        }
        assert_eq!(instance.evaluate_in_full(&solution), instance.evaluate(&solution).map(u128::from));
    }
    assert_eq!(instance.evaluate_in_full(&taking(3, &[1, 2])), Some(220));
    assert_eq!(instance.evaluate_in_full(&taking(3, &[0, 1, 2])), None);
    assert_eq!(instance.evaluate_in_full(&Solution::empty(2)), None);
}

#[test]
fn evaluate_in_full_sums_beyond_a_u64() {
    let instance = Instance::from_items(
        vec![Item { value: u64::MAX, weight: 1 }, Item { value: 3, weight: 1 }],
        2,
    );
    assert_eq!(
        instance.evaluate_in_full(&taking(2, &[0, 1])),
        Some(u128::from(u64::MAX) + 3)
    );
}

#[test]
fn decimal_writes_the_digits() {
    assert_eq!(decimal(0), "0");
    assert_eq!(decimal(7), "7");
    assert_eq!(decimal(9), "9");
    assert_eq!(decimal(10), "10");
    assert_eq!(decimal(42), "42");
    assert_eq!(decimal(100), "100");
    assert_eq!(decimal(1234567890), "1234567890");
    assert_eq!(decimal(u64::MAX), "18446744073709551615");
    for number in [0u64, 5, 19, 305, 9999, 10000, 1 << 40, u64::MAX - 1] {
        assert_eq!(decimal(number), format!("{}", number));
    }
}
