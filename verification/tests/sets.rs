use boolalg::powerset;
use boolalg::powerset_bits;
use boolalg::set_evaluation::eval_set;

#[test]
fn powerset_groups_subsets_by_size() {
    assert_eq!(powerset::powerset(&[]), vec![vec![]]);
    assert_eq!(powerset::powerset(&[0]), vec![vec![], vec![0]]);
    assert_eq!(
        powerset::powerset(&[0, 1]),
        vec![vec![], vec![0], vec![1], vec![0, 1]]
    );
    assert_eq!(
        powerset::powerset(&[0, 1, 2]),
        vec![
            vec![],
            vec![0],
            vec![1],
            vec![2],
            vec![0, 1],
            vec![0, 2],
            vec![1, 2],
            vec![0, 1, 2]
        ]
    );
}

#[test]
fn powerset_with_empty_sets() {
    assert_eq!(powerset_bits::powerset(&[]), [[]]);
}

#[test]
fn powerset_basic_test() {
    assert_eq!(powerset_bits::powerset(&[42]), vec![vec![], vec![42]]);
}

#[test]
fn powerset_with_big_set() {
    assert_eq!(
        powerset_bits::powerset(&[1, 2, 3]),
        vec![
            vec![],
            vec![1],
            vec![2],
            vec![1, 2],
            vec![3],
            vec![1, 3],
            vec![2, 3],
            vec![1, 2, 3]
        ]
    );
}

#[test]
fn eval_set_tests() {
    let sets: Vec<Vec<i32>> = vec![vec![]];
    assert_eq!(eval_set("A", &sets), vec![] as Vec<i32>);

    assert_eq!(eval_set("A!", &sets), vec![] as Vec<i32>);

    let sets = vec![vec![42]];
    assert_eq!(eval_set("A", &sets), vec![42]);

    assert_eq!(eval_set("A!", &sets), vec![] as Vec<i32>);

    let sets = vec![vec![1, 2, 3], vec![2, 3, 4]];
    assert_eq!(eval_set("A!B&", &sets), vec![4]);

    let sets = vec![vec![0, 1, 2], vec![]];
    assert_eq!(eval_set("AB|", &sets), vec![0, 1, 2]);

    assert_eq!(eval_set("AB&", &sets), vec![] as Vec<i32>);

    let sets = vec![vec![0, 1, 2], vec![0]];
    assert_eq!(eval_set("AB&", &sets), vec![0]);

    let sets = vec![vec![0, 1, 2], vec![42]];
    assert_eq!(eval_set("AB&", &sets), vec![] as Vec<i32>);

    let sets = vec![vec![0, 1, 2], vec![0]];
    assert_eq!(eval_set("AB^", &sets), vec![1, 2]);

    let sets = vec![vec![0], vec![1, 2]];
    assert_eq!(eval_set("AB>", &sets), vec![1, 2]);

    let sets = vec![vec![0], vec![0, 1, 2]];
    assert_eq!(eval_set("AB>", &sets), vec![0, 1, 2]);

    let sets = vec![vec![], vec![], vec![]];
    assert_eq!(eval_set("ABC||", &sets), vec![] as Vec<i32>);

    let sets = vec![vec![0], vec![1], vec![2]];
    assert_eq!(eval_set("ABC||", &sets), vec![0, 1, 2]);

    let sets = vec![vec![0], vec![0], vec![0]];
    assert_eq!(eval_set("ABC||", &sets), vec![0]);

    let sets = vec![vec![0], vec![0], vec![]];
    assert_eq!(eval_set("ABC&&", &sets), vec![] as Vec<i32>);

    let sets = vec![vec![0], vec![0], vec![0]];
    assert_eq!(eval_set("ABC&&", &sets), vec![0]);

    assert_eq!(eval_set("ABC^^", &sets), vec![0]);

    assert_eq!(eval_set("ABC>>", &sets), vec![0]);
}

#[test]
fn eval_set_rejects_unbalanced_formulas() {
    let sets: Vec<Vec<i32>> = vec![vec![1], vec![2]];
    assert_eq!(eval_set("AB", &sets), vec![] as Vec<i32>);
    assert_eq!(eval_set("A&", &sets), vec![] as Vec<i32>);
}

#[test]
fn eval_set_sorts_and_deduplicates() {
    let sets = vec![vec![3, 1, 2], vec![2, 5]];
    assert_eq!(eval_set("AB|", &sets), vec![1, 2, 3, 5]);
    assert_eq!(eval_set("AB&", &sets), vec![2]);
    assert_eq!(eval_set("A!", &sets), vec![5]);
}
