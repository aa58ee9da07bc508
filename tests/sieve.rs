use num_bench::sieve::{sieve, sieve_rs};

#[test]
fn sieve_zero_is_empty() {
    assert_eq!(sieve(0), Vec::<i32>::new());
}

#[test]
fn sieve_one_is_empty() {
    assert_eq!(sieve(1), Vec::<i32>::new());
}

#[test]
fn sieve_negative_is_empty() {
    assert_eq!(sieve(-1), Vec::<i32>::new());
    assert_eq!(sieve(i32::MIN), Vec::<i32>::new());
}

#[test]
fn sieve_two() {
    assert_eq!(sieve(2), vec![2]);
}

#[test]
fn sieve_three_and_four() {
    assert_eq!(sieve(3), vec![2, 3]);
    assert_eq!(sieve(4), vec![2, 3]);
}

#[test]
fn sieve_ten() {
    assert_eq!(sieve(10), vec![2, 3, 5, 7]);
}

#[test]
fn sieve_thirty() {
    assert_eq!(sieve(30), vec![2, 3, 5, 7, 11, 13, 17, 19, 23, 29]);
}

#[test]
fn sieve_excludes_squares_of_primes() {
    assert_eq!(sieve(9), vec![2, 3, 5, 7]);
    assert_eq!(sieve(25), vec![2, 3, 5, 7, 11, 13, 17, 19, 23]);
    let r = sieve(121);
    assert!(!r.contains(&49));
    assert!(!r.contains(&121));
    assert_eq!(*r.last().unwrap(), 113);
}

#[test]
fn sieve_prime_counts() {
    assert_eq!(sieve(100).len(), 25);
    assert_eq!(sieve(1000).len(), 168);
    assert_eq!(sieve(1_000_000).len(), 78498);
}

#[test]
fn sieve_output_is_ascending_and_prime() {
    for n in 0..300 {
        let r = sieve(n);
        for w in r.windows(2) {
            assert!(w[0] < w[1]);
        }
        for &p in &r {
            assert!(p >= 2 && p <= n);
            let mut d = 2;
            while d * d <= p {
                assert!(p % d != 0);
                d += 1;
            }
        }
    }
}

#[test]
fn sieve_misses_no_prime() {
    let r = sieve(200);
    for q in 2..=200 {
        let prime = (2..q).all(|d| q % d != 0);
        assert_eq!(r.contains(&q), prime);
    }
}

#[test]
fn sieve_called_twice_agrees() {
    for n in [0, 1, 2, 10, 97, 1000] {
        assert_eq!(sieve(n), sieve(n));
    }
}

#[test]
fn sieve_rs_matches_sieve() {
    for n in -3..500 {
        let expected = sieve(n);
        let mut buf = vec![-1; (n.max(0) + 1) as usize];
        let count = sieve_rs(n, &mut buf);
        assert_eq!(count as usize, expected.len());
        assert_eq!(&buf[..count as usize], &expected[..]);
    }
}

#[test]
fn sieve_rs_ten() {
    let mut buf = vec![0; 11];
    assert_eq!(sieve_rs(10, &mut buf), 4);
    assert_eq!(&buf[..4], &[2, 3, 5, 7]);
}

#[test]
fn sieve_rs_leaves_tail_untouched() {
    let mut buf = vec![-7; 20];
    let count = sieve_rs(10, &mut buf);
    assert_eq!(count, 4);
    assert!(buf[4..].iter().all(|&x| x == -7));
}

#[test]
fn sieve_rs_small_bound_writes_nothing() {
    let mut buf = vec![9; 3];
    assert_eq!(sieve_rs(1, &mut buf), 0);
    assert_eq!(sieve_rs(0, &mut buf), 0);
    assert_eq!(sieve_rs(-5, &mut buf), 0);
    assert_eq!(buf, vec![9, 9, 9]);
    let mut empty: Vec<i32> = Vec::new();
    assert_eq!(sieve_rs(1, &mut empty), 0);
}

#[test]
fn sieve_rs_exact_size_buffer() {
    let mut buf = vec![0; 25];
    assert_eq!(sieve_rs(100, &mut buf), 25);
    assert_eq!(buf[24], 97);
}
