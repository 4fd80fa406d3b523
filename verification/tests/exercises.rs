use dungeon::hanoi::{hanoi, Peg};
use dungeon::primes::sieve;
use dungeon::slices::{dedup, filter, sum};

#[test]
fn test_sum() {
    let array = [1, 10, 100, 1000, 10000, 100000];
    assert_eq!(sum(&array), 111111);
}

#[test]
fn test_sum_empty() {
    let array: [i32; 0] = [];
    assert_eq!(sum(&array), 0);
}

#[test]
fn test_dedup() {
    let vs = vec![5, 7, 1, 3, 6, 7, 15, 7, 8, 21, 6, 8, 1, 5, 6, 2, 63, 51, 1];
    assert_eq!(dedup(&vs), vec![5, 7, 1, 3, 6, 15, 8, 21, 2, 63, 51]);
}

#[test]
fn test_dedup_empty() {
    let vs: Vec<i32> = vec![];
    assert_eq!(dedup(&vs), Vec::<i32>::new());
}

fn positive(x: i32) -> bool {
    x >= 0
}

#[test]
fn test_filter() {
    let vs = vec![1, 20, 6, -123, 518, -15, -1256, -215213, 8902, -11, 160123, 123123];
    assert_eq!(filter(&vs, &positive), vec![1, 20, 6, 518, 8902, 160123, 123123]);
}

#[test]
fn test_sieve_100() {
    assert_eq!(
        vec![2, 3, 5, 7, 11, 13, 17, 19, 23, 29, 31, 37, 41, 43, 47, 53, 59, 61, 67, 71, 73, 79, 83, 89, 97],
        sieve(100)
    );
}

#[test]
fn test_sieve_small() {
    assert_eq!(sieve(7), vec![2, 3, 5]);
    assert_eq!(sieve(2), Vec::<u32>::new());
    assert_eq!(sieve(0), Vec::<u32>::new());
}

#[test]
fn test_hanoi_3_disks() {
    let result = hanoi(3, Peg::A, Peg::B, Peg::C);
    assert_eq!(
        vec![
            (Peg::A, Peg::C),
            (Peg::A, Peg::B),
            (Peg::C, Peg::B),
            (Peg::A, Peg::C),
            (Peg::B, Peg::A),
            (Peg::B, Peg::C),
            (Peg::A, Peg::C)
        ],
        result
    );
}

#[test]
fn test_hanoi_1_disk() {
    assert_eq!(hanoi(1, Peg::A, Peg::B, Peg::C), vec![(Peg::A, Peg::C)]);
}
