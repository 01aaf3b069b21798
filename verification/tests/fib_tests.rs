use amqp_patterns::fib::{fib, fib_checked, FIB_MAX_ARG};

#[test]
fn fib_first_values() {
    let expected: [i32; 11] = [0, 1, 1, 2, 3, 5, 8, 13, 21, 34, 55];
    for (n, want) in expected.iter().enumerate() {
        assert_eq!(fib(n as i32), *want);
    }
}

#[test]
fn fib_of_ten_is_fifty_five() {
    assert_eq!(fib(10), 55);
}

#[test]
fn fib_of_thirty() {
    assert_eq!(fib(30), 832040);
}

#[test]
fn fib_largest_argument() {
    assert_eq!(FIB_MAX_ARG, 46);
    assert_eq!(fib(46), 1836311903);
}

#[test]
fn fib_follows_the_recurrence() {
    for n in 2..=46 {
        assert_eq!(fib(n) as i64, fib(n - 1) as i64 + fib(n - 2) as i64);
    }
}

#[test]
fn fib_checked_in_range() {
    assert_eq!(fib_checked(0), Some(0));
    assert_eq!(fib_checked(1), Some(1));
    assert_eq!(fib_checked(10), Some(55));
    assert_eq!(fib_checked(46), Some(1836311903));
}

#[test]
fn fib_checked_out_of_range() {
    assert_eq!(fib_checked(47), None);
    assert_eq!(fib_checked(-1), None);
    assert_eq!(fib_checked(i32::MAX), None);
    assert_eq!(fib_checked(i32::MIN), None);
}
