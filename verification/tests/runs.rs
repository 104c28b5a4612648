use match3::runs::{find_runs, Run};

#[test]
fn three_then_two_is_one_run_of_three() {
    let runs = find_runs(&vec![7, 7, 7, 8, 8]);
    assert_eq!(runs, vec![Run { start: 0, len: 3 }]);
}

#[test]
fn four_equal_is_one_run_of_four() {
    let runs = find_runs(&vec![7, 7, 7, 7]);
    assert_eq!(runs, vec![Run { start: 0, len: 4 }]);
}

#[test]
fn short_lines_have_no_run() {
    let none: Vec<Run> = Vec::new();
    assert_eq!(find_runs(&Vec::new()), none);
    assert_eq!(find_runs(&vec![1]), none);
    assert_eq!(find_runs(&vec![1, 1]), none);
    assert_eq!(find_runs(&vec![1, 1, 2, 2, 1, 1]), none);
}

#[test]
fn run_at_the_end_of_the_line() {
    let runs = find_runs(&vec![1, 2, 2, 3, 3, 3]);
    assert_eq!(runs, vec![Run { start: 3, len: 3 }]);
}

#[test]
fn run_in_the_middle_of_the_line() {
    let runs = find_runs(&vec![1, 2, 2, 2, 2, 2, 1]);
    assert_eq!(runs, vec![Run { start: 1, len: 5 }]);
}

#[test]
fn neighbouring_runs_are_kept_apart_and_in_order() {
    let runs = find_runs(&vec![4, 4, 4, 5, 5, 5, 5, 4, 6, 6, 6]);
    assert_eq!(
        runs,
        vec![
            Run { start: 0, len: 3 },
            Run { start: 3, len: 4 },
            Run { start: 8, len: 3 }
        ]
    );
}
