use whois_president::fib::FibonacciSequence;

#[test]
fn fib() {
    let mut fib = FibonacciSequence::new();
    assert_eq!(fib.current(), 1);
    assert_eq!(fib.next(), 2);
    assert_eq!(fib.next(), 3);
    assert_eq!(fib.next(), 5);
    assert_eq!(fib.previous(), 3);
    assert_eq!(fib.previous(), 2);
    assert_eq!(fib.previous(), 1);
    assert_eq!(fib.previous(), 1);
    assert_eq!(fib.previous(), 1);
    assert_eq!(fib.next(), 2);
}

#[test]
fn previous_undoes_next() {
    let mut fib = FibonacciSequence::new();
    for _ in 0..10 {
        fib.next();
    }
    let at = fib.current();
    assert_eq!(at, 144);
    fib.next();
    assert_eq!(fib.previous(), at);
}

#[test]
fn next_grows_previous_shrinks() {
    let mut fib = FibonacciSequence::new();
    let mut last = fib.current();
    for _ in 0..20 {
        let v = fib.next();
        assert!(v >= last);
        last = v;
    }
    for _ in 0..25 {
        let v = fib.previous();
        assert!(v <= last);
        last = v;
    }
    assert_eq!(last, 1);
}

#[test]
fn reaches_the_largest_value_that_fits() {
    let mut fib = FibonacciSequence::new();
    // fib(93) is the largest Fibonacci number below 2^64.
    for _ in 0..91 {
        fib.next();
    }
    assert_eq!(fib.current(), 12200160415121876738);
}

#[test]
fn values_stay_at_least_one() {
    let mut fib = FibonacciSequence::new();
    for _ in 0..5 {
        assert!(fib.previous() >= 1);
    }
    assert!(fib.current() >= 1);
}
