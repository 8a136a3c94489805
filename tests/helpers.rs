use santorini_engines::helpers::squares::{A1, A2, A3, A4, A5, B3, C3, C4, D3, E1, E5};
use santorini_engines::helpers::{hash_workers, unhash_workers};

#[test]
fn hashing() {
    let w1 = [A1, A2, A3, A4];
    let w2 = [C3, C4, B3, D3];
    let w3 = [A1, A5, E1, E5];
    for i in [w1, w2, w3] {
        assert_eq!(i, unhash_workers(hash_workers(i)));
    }
}

#[test]
fn hash_is_base_25() {
    assert_eq!(hash_workers([1, 2, 3, 4]), 1 + 2 * 25 + 3 * 625 + 4 * 15625);
    assert_eq!(hash_workers([0, 0, 0, 0]), 0);
    assert_eq!(unhash_workers(24 + 24 * 25 + 24 * 625 + 24 * 15625), [24, 24, 24, 24]);
}

