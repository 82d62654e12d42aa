use dependaboard::rounds::plan_rounds;

/// Repositories of a batch: 9 is named first, then 3, then 5.
fn batch() -> Vec<u64> {
    vec![9, 3, 9, 5, 9, 3]
}

#[test]
fn a_turn_goes_by_the_order_of_first_naming_whatever_the_bound() {
    for bound in 1..8 {
        assert_eq!(plan_rounds(&batch(), bound).concat(), [0, 1, 3, 2, 5, 4]);
    }
}

#[test]
fn a_round_is_as_full_as_it_can_be() {
    assert_eq!(plan_rounds(&batch(), 8), [vec![0, 1, 3], vec![2, 5], vec![4]]);
    assert_eq!(plan_rounds(&batch(), 2), [vec![0, 1], vec![3, 2], vec![5, 4]]);
    assert_eq!(plan_rounds(&batch(), 1).len(), 6);
}
