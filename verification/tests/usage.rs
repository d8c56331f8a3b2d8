use wad_sprites::usage::ColorUsage;

#[test]
fn a_new_tracker_has_met_nothing() {
    let usage = ColorUsage::new();
    for index in 0..=255u8 {
        assert!(!usage.contains(index));
    }
    assert_eq!(usage.unused(), (0..=255u8).collect::<Vec<u8>>());
}

#[test]
fn mark_adds_one_index() {
    let mut usage = ColorUsage::new();
    usage.mark(0);
    usage.mark(255);
    usage.mark(17);
    usage.mark(17);
    for index in 0..=255u8 {
        assert_eq!(usage.contains(index), index == 0 || index == 17 || index == 255);
    }
}

#[test]
fn unused_lists_what_was_never_marked() {
    let mut usage = ColorUsage::new();
    for index in 0..=255u8 {
        if index % 3 != 0 {
            usage.mark(index);
        }
    }
    let expected: Vec<u8> = (0..=255u8).filter(|i| i % 3 == 0).collect();
    assert_eq!(usage.unused(), expected);
}

#[test]
fn a_full_tracker_has_nothing_unused() {
    let mut usage = ColorUsage::new();
    for index in 0..=255u8 {
        usage.mark(index);
    }
    assert!(usage.unused().is_empty());
}

#[test]
fn merge_is_the_union() {
    let mut left = ColorUsage::new();
    let mut right = ColorUsage::new();
    left.mark(1);
    left.mark(2);
    right.mark(2);
    right.mark(3);
    left.merge(&right);
    for index in 0..=255u8 {
        assert_eq!(left.contains(index), (1..=3).contains(&index));
        assert_eq!(right.contains(index), index == 2 || index == 3);
    }
    let empty = ColorUsage::new();
    left.merge(&empty);
    assert_eq!(left.unused().len(), 253);
}
