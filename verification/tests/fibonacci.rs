//! The reference semantics of the sample Fibonacci guest module.

use wess::fixtures::calc_fibonacci;

#[test]
fn test_calc_fibonacci_0() {
    assert_eq!(calc_fibonacci(0), 0);
}

#[test]
fn test_calc_fibonacci_1() {
    assert_eq!(calc_fibonacci(1), 1);
}

#[test]
fn test_calc_fibonacci_6() {
    assert_eq!(calc_fibonacci(6), 8);
}

#[test]
fn test_calc_fibonacci_10() {
    assert_eq!(calc_fibonacci(10), 55);
}

#[test]
fn test_calc_fibonacci_100() {
    assert_eq!(calc_fibonacci(100), 0);
}
