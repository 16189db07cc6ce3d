use bitset256::BitSet256;

fn range_members(b: &BitSet256) -> Vec<usize> {
    (0..256).filter(|&i| b.test(i)).collect()
}

#[test]
fn set_range_within_one_word() {
    let mut b = BitSet256::default();
    b.set_range(3..9);
    assert_eq!(range_members(&b), vec![3, 4, 5, 6, 7, 8, 9]);
    assert_eq!(b.count(), 7);
}

#[test]
fn set_range_of_one_index() {
    for i in 0..256 {
        let mut b = BitSet256::default();
        b.set_range(i..i);
        assert_eq!(range_members(&b), vec![i]);
    }
}

#[test]
fn set_range_up_to_the_end_of_a_word() {
    let mut b = BitSet256::default();
    b.set_range(60..63);
    assert_eq!(range_members(&b), vec![60, 61, 62, 63]);
    let mut c = BitSet256::default();
    c.set_range(250..255);
    assert_eq!(range_members(&c), vec![250, 251, 252, 253, 254, 255]);
}

#[test]
fn set_range_of_one_whole_word() {
    let mut b = BitSet256::default();
    b.set_range(64..127);
    assert_eq!(range_members(&b), (64..128).collect::<Vec<usize>>());
    assert_eq!(b.count(), 64);
}

#[test]
fn set_range_across_a_word_boundary() {
    let mut b = BitSet256::default();
    b.set_range(62..65);
    assert_eq!(range_members(&b), vec![62, 63, 64, 65]);
}

#[test]
fn set_range_from_a_word_boundary() {
    let mut b = BitSet256::default();
    b.set_range(64..130);
    assert_eq!(range_members(&b), (64..131).collect::<Vec<usize>>());
}

#[test]
fn set_range_across_three_words() {
    let mut b = BitSet256::default();
    b.set_range(17..200);
    assert_eq!(range_members(&b), (17..201).collect::<Vec<usize>>());
    assert_eq!(b.count(), 184);
    assert_eq!(b.find_first(), 17);
    assert_eq!(b.find_last(), 200);
}

#[test]
fn set_range_of_everything() {
    let mut b = BitSet256::default();
    b.set_range(0..255);
    assert!(b.all());
    assert_eq!(b.count(), 256);
}

#[test]
fn set_range_keeps_what_was_set() {
    let mut b = BitSet256::default();
    b.set(1);
    b.set(100);
    b.set(254);
    b.set_range(90..130);
    let mut expected: Vec<usize> = vec![1];
    expected.extend(90..131);
    expected.push(254);
    assert_eq!(range_members(&b), expected);
}

#[test]
fn set_range_equals_set_of_each_index() {
    for start in 0..256 {
        for end in start..256 {
            let mut ranged = BitSet256::default();
            ranged.set_range(start..end);
            let mut each = BitSet256::default();
            for k in start..=end {
                each.set(k);
            }
            assert!(ranged == each, "range {}..={}", start, end);
            assert_eq!(ranged.count(), end - start + 1);
        }
    }
}

#[test]
fn set_range_equals_set_of_each_index_on_a_filled_set() {
    let mut base = BitSet256::default();
    for i in (0..256).step_by(7) {
        base.set(i);
    }
    for start in (0..256).step_by(5) {
        for end in (start..256).step_by(3) {
            let mut ranged = base;
            ranged.set_range(start..end);
            let mut each = base;
            for k in start..=end {
                each.set(k);
            }
            assert!(ranged == each, "range {}..={}", start, end);
        }
    }
}
