use bitset256::BitSet256;

fn search_set(indices: &[usize]) -> BitSet256 {
    let mut b = BitSet256::default();
    for &i in indices {
        b.set(i);
    }
    b
}

fn walk(b: &BitSet256) -> Vec<usize> {
    let mut seen = Vec::new();
    let mut at = b.find_first();
    while at != 256 {
        seen.push(at);
        at = b.find_next(at);
    }
    seen
}

#[test]
fn find_first_of_the_empty_set_is_256() {
    assert_eq!(BitSet256::default().find_first(), 256);
}

#[test]
fn find_last_of_the_empty_set_is_256() {
    assert_eq!(BitSet256::default().find_last(), 256);
}

#[test]
fn find_first_is_the_least_member() {
    assert_eq!(search_set(&[3, 7, 17, 80]).find_first(), 3);
    assert_eq!(search_set(&[0, 255]).find_first(), 0);
    assert_eq!(search_set(&[64]).find_first(), 64);
    assert_eq!(search_set(&[130, 200]).find_first(), 130);
    assert_eq!(search_set(&[255]).find_first(), 255);
}

#[test]
fn find_last_is_the_greatest_member() {
    assert_eq!(search_set(&[3, 7, 17, 80]).find_last(), 80);
    assert_eq!(search_set(&[0, 255]).find_last(), 255);
    assert_eq!(search_set(&[0]).find_last(), 0);
    assert_eq!(search_set(&[5, 63]).find_last(), 63);
    assert_eq!(search_set(&[5, 64]).find_last(), 64);
    assert_eq!(search_set(&[130, 191]).find_last(), 191);
}

#[test]
fn find_last_of_a_single_index() {
    for i in 0..256 {
        assert_eq!(search_set(&[i]).find_last(), i);
    }
}

#[test]
fn find_next_is_the_least_member_above() {
    let b = search_set(&[3, 7, 17, 80]);
    assert_eq!(b.find_next(0), 3);
    assert_eq!(b.find_next(2), 3);
    assert_eq!(b.find_next(3), 7);
    assert_eq!(b.find_next(7), 17);
    assert_eq!(b.find_next(16), 17);
    assert_eq!(b.find_next(17), 80);
    assert_eq!(b.find_next(63), 80);
    assert_eq!(b.find_next(64), 80);
    assert_eq!(b.find_next(79), 80);
    assert_eq!(b.find_next(80), 256);
    assert_eq!(b.find_next(255), 256);
}

#[test]
fn find_next_at_the_end_of_a_word() {
    let b = search_set(&[63, 64, 127, 192]);
    assert_eq!(b.find_next(62), 63);
    assert_eq!(b.find_next(63), 64);
    assert_eq!(b.find_next(64), 127);
    assert_eq!(b.find_next(127), 192);
    assert_eq!(b.find_next(191), 192);
    assert_eq!(b.find_next(192), 256);
}

#[test]
fn find_next_skips_empty_words() {
    let b = search_set(&[0, 255]);
    assert_eq!(b.find_next(0), 255);
    assert_eq!(b.find_next(100), 255);
    assert_eq!(b.find_next(254), 255);
    assert_eq!(b.find_next(255), 256);
}

#[test]
fn find_next_past_the_domain_is_256() {
    let mut b = BitSet256::default();
    b.set_all();
    assert_eq!(b.find_next(255), 256);
    assert_eq!(b.find_next(256), 256);
    assert_eq!(b.find_next(257), 256);
    assert_eq!(b.find_next(1000), 256);
    assert_eq!(b.find_next(usize::MAX), 256);
}

#[test]
fn find_next_on_the_full_set_is_the_successor() {
    let mut b = BitSet256::default();
    b.set_all();
    for i in 0..255 {
        assert_eq!(b.find_next(i), i + 1);
    }
}

#[test]
fn find_next_on_the_empty_set_is_256() {
    let b = BitSet256::default();
    for i in 0..256 {
        assert_eq!(b.find_next(i), 256);
    }
}

#[test]
fn walk_visits_the_members_in_increasing_order() {
    let b = search_set(&[80, 17, 7, 3]);
    assert_eq!(walk(&b), vec![3, 7, 17, 80]);
    let c = search_set(&[255, 0, 64, 63, 128, 191, 192]);
    assert_eq!(walk(&c), vec![0, 63, 64, 128, 191, 192, 255]);
    assert_eq!(walk(&BitSet256::default()), Vec::<usize>::new());
}

#[test]
fn walk_visits_as_many_indices_as_count() {
    let mut b = BitSet256::default();
    for i in (0..256).step_by(3) {
        b.set(i);
        let seen = walk(&b);
        assert_eq!(seen.len(), b.count());
        for pair in seen.windows(2) {
            assert!(pair[0] < pair[1]);
        }
        for &m in &seen {
            assert!(b.test(m));
        }
    }
    assert_eq!(b.count(), 86);
}

#[test]
fn walk_of_the_full_set_visits_everything() {
    let mut b = BitSet256::default();
    b.set_all();
    assert_eq!(walk(&b), (0..256).collect::<Vec<usize>>());
}

#[test]
fn select_ranks_across_words() {
    let b = search_set(&[3, 7, 17, 80]);
    assert_eq!(b.select(0), 3);
    assert_eq!(b.select(1), 7);
    assert_eq!(b.select(2), 17);
    assert_eq!(b.select(3), 80);
    assert_eq!(b.select(4), 256);
}

#[test]
fn select_of_the_empty_set_is_256() {
    let b = BitSet256::default();
    assert_eq!(b.select(0), 256);
    assert_eq!(b.select(255), 256);
}

#[test]
fn select_in_later_words() {
    let b = search_set(&[64, 65, 128, 255]);
    assert_eq!(b.select(0), 64);
    assert_eq!(b.select(1), 65);
    assert_eq!(b.select(2), 128);
    assert_eq!(b.select(3), 255);
    assert_eq!(b.select(4), 256);
    assert_eq!(b.select(255), 256);
}

#[test]
fn select_on_the_full_set_is_the_identity() {
    let mut b = BitSet256::default();
    b.set_all();
    for n in 0..256 {
        assert_eq!(b.select(n), n);
    }
}

#[test]
fn select_agrees_with_the_walk() {
    let mut b = BitSet256::default();
    for i in (0..256).step_by(5) {
        b.set(i);
    }
    b.set(63);
    b.set(64);
    b.set(191);
    let seen = walk(&b);
    for n in 0..256 {
        let expected = if n < seen.len() { seen[n] } else { 256 };
        assert_eq!(b.select(n), expected);
    }
}

#[test]
fn select_has_n_members_below_its_result() {
    let b = search_set(&[1, 2, 62, 63, 64, 100, 127, 128, 200, 254, 255]);
    for n in 0..b.count() {
        let at = b.select(n);
        assert!(b.test(at));
        let below = (0..at).filter(|&i| b.test(i)).count();
        assert_eq!(below, n);
    }
    assert_eq!(b.select(b.count()), 256);
}
