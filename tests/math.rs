use kb::math::fibonacci::FibonacciSequence;
use kb::math::gcd::euclid;
use kb::math::sum_first_n::sum_first_n;

#[test]
fn test_fibonacci_sequence() {
    let mut sequence: FibonacciSequence<u8> = FibonacciSequence::new();

    assert_eq!(sequence.next(), Some(1));
    assert_eq!(sequence.next(), Some(1));
    assert_eq!(sequence.next(), Some(2));
    assert_eq!(sequence.next(), Some(3));
    assert_eq!(sequence.next(), Some(5));
    assert_eq!(sequence.next(), Some(8));
}

#[test]
fn fibonacci_stops_before_overflow() {
    let mut sequence: FibonacciSequence<u8> = FibonacciSequence::new();
    let mut last = 0u8;
    let mut count = 0;
    while let Some(value) = sequence.next() {
        last = value;
        count += 1;
    }
    // 233 is the last Fibonacci number whose successor, 377, does not fit
    // in a byte; it is never yielded, since the sum after it overflows.
    assert_eq!(last, 144);
    assert_eq!(count, 12);
    assert_eq!(sequence.next(), None);
}

#[test]
fn euclid_examples() {
    assert_eq!(euclid(119_u32, 544), 17);
    assert_eq!(euclid(252_u32, 105), 21);
    assert_eq!(euclid(6_u32, 3), 3);
    assert_eq!(euclid(6_u32, 4), 2);
    assert_eq!(euclid(7_u64, 13), 1);
}

#[test]
fn test_sum_first_n() {
    assert_eq!(sum_first_n(100), 5050);
}

#[test]
fn sum_first_n_small_and_large() {
    assert_eq!(sum_first_n(0), 0);
    assert_eq!(sum_first_n(1), 1);
    assert_eq!(sum_first_n(4_294_967_296), 9_223_372_039_002_259_456);
}
