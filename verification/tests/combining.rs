use bitset256::BitSet256;
use std::cmp::Ordering;
use std::collections::{BTreeSet, HashSet};

fn combine_set(indices: &[usize]) -> BitSet256 {
    let mut b = BitSet256::default();
    for &i in indices {
        b.set(i);
    }
    b
}

fn combine_members(b: &BitSet256) -> Vec<usize> {
    (0..256).filter(|&i| b.test(i)).collect()
}

fn samples() -> Vec<BitSet256> {
    let mut full = BitSet256::default();
    full.set_all();
    let mut thirds = BitSet256::default();
    for i in (0..256).step_by(3) {
        thirds.set(i);
    }
    let mut middle = BitSet256::default();
    middle.set_range(60..200);
    vec![
        BitSet256::default(),
        full,
        thirds,
        middle,
        combine_set(&[0]),
        combine_set(&[255]),
        combine_set(&[3, 7, 17, 80]),
        combine_set(&[63, 64, 127, 128, 191, 192]),
    ]
}

#[test]
fn and_is_the_intersection() {
    let a = combine_set(&[1, 2, 3, 70, 200]);
    let b = combine_set(&[2, 3, 4, 70, 201]);
    assert_eq!(combine_members(&(a & b)), vec![2, 3, 70]);
}

#[test]
fn or_is_the_union() {
    let a = combine_set(&[1, 2, 3, 70, 200]);
    let b = combine_set(&[2, 3, 4, 70, 201]);
    assert_eq!(combine_members(&(a | b)), vec![1, 2, 3, 4, 70, 200, 201]);
}

#[test]
fn xor_is_the_symmetric_difference() {
    let a = combine_set(&[1, 2, 3, 70, 200]);
    let b = combine_set(&[2, 3, 4, 70, 201]);
    assert_eq!(combine_members(&(a ^ b)), vec![1, 4, 200, 201]);
}

#[test]
fn and_assign_changes_the_left_operand() {
    let mut a = combine_set(&[1, 64, 128, 192]);
    a &= combine_set(&[64, 192, 255]);
    assert_eq!(combine_members(&a), vec![64, 192]);
}

#[test]
fn or_assign_changes_the_left_operand() {
    let mut a = combine_set(&[1, 64, 128, 192]);
    a |= combine_set(&[64, 192, 255]);
    assert_eq!(combine_members(&a), vec![1, 64, 128, 192, 255]);
}

#[test]
fn xor_assign_changes_the_left_operand() {
    let mut a = combine_set(&[1, 64, 128, 192]);
    a ^= combine_set(&[64, 192, 255]);
    assert_eq!(combine_members(&a), vec![1, 128, 255]);
}

#[test]
fn combinators_go_index_by_index() {
    for a in samples() {
        for b in samples() {
            let and = a & b;
            let or = a | b;
            let xor = a ^ b;
            for i in 0..256 {
                assert_eq!(and.test(i), a.test(i) && b.test(i));
                assert_eq!(or.test(i), a.test(i) || b.test(i));
                assert_eq!(xor.test(i), a.test(i) != b.test(i));
            }
        }
    }
}

#[test]
fn and_or_xor_identity() {
    for a in samples() {
        for b in samples() {
            assert!(((a & b) | (a ^ b)) == (a | b));
        }
    }
}

#[test]
fn combining_a_set_with_itself() {
    for a in samples() {
        assert!((a & a) == a);
        assert!((a | a) == a);
        assert!((a ^ a).none());
        assert!((a ^ a) == BitSet256::default());
    }
}

#[test]
fn combinators_are_commutative() {
    for a in samples() {
        for b in samples() {
            assert!((a & b) == (b & a));
            assert!((a | b) == (b | a));
            assert!((a ^ b) == (b ^ a));
        }
    }
}

#[test]
fn combinators_are_associative() {
    for a in samples() {
        for b in samples() {
            for c in samples() {
                assert!(((a & b) & c) == (a & (b & c)));
                assert!(((a | b) | c) == (a | (b | c)));
                assert!(((a ^ b) ^ c) == (a ^ (b ^ c)));
            }
        }
    }
}

#[test]
fn equality_goes_by_the_members() {
    let a = combine_set(&[5, 99]);
    let mut b = combine_set(&[99]);
    assert!(a != b);
    b.set(5);
    assert!(a == b);
    b.set(255);
    assert!(a != b);
    for (i, x) in samples().iter().enumerate() {
        for (j, y) in samples().iter().enumerate() {
            assert_eq!(x == y, i == j);
        }
    }
}

#[test]
fn order_compares_word_0_first() {
    let low = combine_set(&[0]);
    let high = combine_set(&[64]);
    assert!(high < low);
    assert_eq!(low.partial_cmp(&high), Some(Ordering::Greater));
    assert_eq!(high.partial_cmp(&low), Some(Ordering::Less));
    assert_eq!(low.partial_cmp(&low), Some(Ordering::Equal));
    assert!(combine_set(&[1]) > combine_set(&[0]));
    assert!(combine_set(&[0, 64]) > combine_set(&[0]));
    assert!(combine_set(&[0, 254]) < combine_set(&[0, 255]));
    assert!(combine_set(&[1, 255]) > combine_set(&[0, 255]));
    assert!(BitSet256::default() < combine_set(&[255]));
}

#[test]
fn order_agrees_in_both_traits() {
    for a in samples() {
        for b in samples() {
            assert_eq!(a.partial_cmp(&b), Some(a.cmp(&b)));
            assert_eq!(a.cmp(&b) == Ordering::Equal, a == b);
            assert_eq!(a.cmp(&b), b.cmp(&a).reverse());
            assert_eq!(a < b, a.cmp(&b) == Ordering::Less);
        }
    }
}

#[test]
fn usable_as_a_key() {
    let mut hashed = HashSet::new();
    let mut sorted = BTreeSet::new();
    for s in samples() {
        assert!(hashed.insert(s));
        assert!(sorted.insert(s));
    }
    for s in samples() {
        assert!(!hashed.insert(s));
        assert!(!sorted.insert(s));
        assert!(hashed.contains(&s));
        assert!(sorted.contains(&s));
    }
    assert_eq!(hashed.len(), 8);
    assert_eq!(sorted.len(), 8);
    assert!(*sorted.iter().next().unwrap() == BitSet256::default());
}
