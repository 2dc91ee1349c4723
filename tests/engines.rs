use recurrence::cache::Cache;
use recurrence::{foo1, foo2, foo4};
use recurrence::suspend::{suspend_children, suspend_enter, suspend_finish, Entry};

#[test]
fn foo() {
    // hardcoded, known result
    let n = 100;
    let res = 41;
    assert_eq!(foo1(n, n), res);
    assert_eq!(foo2(n, n), res);
    assert_eq!(foo4(n, n), res);
}

#[test]
fn base_cases_give_one() {
    for (x, y) in [(0, 0), (5, 0), (0, 7), (1000, 0), (0, 1000)] {
        assert_eq!(foo1(x, y), 1);
        assert_eq!(foo2(x, y), 1);
        assert_eq!(foo4(x, y), 1);
    }
}

#[test]
fn one_one_is_three() {
    assert_eq!(foo1(1, 1), 3);
    assert_eq!(foo2(1, 1), 3);
    assert_eq!(foo4(1, 1), 3);
}

#[test]
fn small_values_by_hand() {
    // R(2,1) = R(1,0) + R(2,0) + R(1,1) = 1 + 1 + 3
    assert_eq!(foo1(2, 1), 5);
    assert_eq!(foo2(2, 1), 5);
    assert_eq!(foo4(2, 1), 5);
    // R(2,2) = R(1,1) + R(2,1) + R(1,2) = 3 + 5 + 5
    assert_eq!(foo1(2, 2), 13);
    assert_eq!(foo2(2, 2), 13);
    assert_eq!(foo4(2, 2), 13);
}

#[test]
fn engines_agree_on_a_grid() {
    for x in 0..25 {
        for y in 0..25 {
            let a = foo1(x, y);
            assert_eq!(a, foo2(x, y));
            assert_eq!(a, foo4(x, y));
        }
    }
}

#[test]
fn symmetric_in_its_arguments() {
    for (x, y) in [(3, 9), (17, 40), (100, 1), (64, 250)] {
        assert_eq!(foo1(x, y), foo1(y, x));
        assert_eq!(foo2(x, y), foo2(y, x));
        assert_eq!(foo4(x, y), foo4(y, x));
    }
}

#[test]
fn results_stay_below_1000() {
    for x in 0..40 {
        for y in 0..40 {
            assert!(foo4(x, y) < 1000);
            assert!(foo2(x, y) < 1000);
        }
    }
}

#[test]
fn repeated_calls_agree() {
    assert_eq!(foo1(37, 58), foo1(37, 58));
    assert_eq!(foo2(37, 58), foo2(37, 58));
    assert_eq!(foo4(37, 58), foo4(37, 58));
}

#[test]
fn stack_engine_matches_table_on_long_rows() {
    assert_eq!(foo2(600, 700), foo4(600, 700));
    assert_eq!(foo2(1, 3000), foo4(1, 3000));
}

#[test]
fn large_table_scenario() {
    assert_eq!(foo4(5000, 5000), 609);
}

#[test]
fn cache_returns_what_was_put() {
    let mut c = Cache::new();
    assert_eq!(c.get(1, 1), None);
    c.put(1, 1, 3);
    assert_eq!(c.get(1, 1), Some(3));
    assert_eq!(c.get(1, 2), None);
    c.put(2, 1, 5);
    assert_eq!(c.get(2, 1), Some(5));
    assert_eq!(c.get(1, 1), Some(3));
}

#[test]
fn suspend_steps_decide_and_combine() {
    let mut c = Cache::new();
    assert!(matches!(suspend_enter(0, 4, &c), Entry::Known(1)));
    assert!(matches!(suspend_enter(4, 0, &c), Entry::Known(1)));
    assert!(matches!(suspend_enter(1, 1, &c), Entry::Descend));
    assert_eq!(suspend_finish(1, 1, 1, 1, 1, &mut c), 3);
    assert!(matches!(suspend_enter(1, 1, &c), Entry::Known(3)));
    assert_eq!(c.get(1, 1), Some(3));
    assert_eq!(suspend_finish(2, 1, 1, 1, 3, &mut c), 5);
    assert_eq!(c.get(2, 1), Some(5));
}

#[test]
fn suspend_children_in_call_order() {
    assert_eq!(suspend_children(4, 7), ((3, 6), (4, 6), (3, 7)));
    assert_eq!(suspend_children(1, 1), ((0, 0), (1, 0), (0, 1)));
}
