use loadgen::fib::fib;

#[test]
fn fib_small_indices() {
    assert_eq!(fib(0), 0);
    assert_eq!(fib(1), 1);
    assert_eq!(fib(2), 1);
    assert_eq!(fib(3), 2);
    assert_eq!(fib(10), 55);
}

#[test]
fn fib_larger_index() {
    assert_eq!(fib(20), 6765);
}
