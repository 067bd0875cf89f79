use das_overlay::distance::{distance, id_eq, id_lt, is_nearer, log2_distance, max_distance};

fn id(first: u8, last: u8) -> [u8; 32] {
    let mut a = [0u8; 32];
    a[0] = first;
    a[31] = last;
    a
}

#[test]
fn distance_is_bytewise_xor() {
    let d = distance(&id(0xf0, 0x0f), &id(0x0f, 0x0f));
    assert_eq!(d, id(0xff, 0x00));
}

#[test]
fn distance_is_symmetric_and_zero_on_self() {
    let a = id(0x12, 0x34);
    let b = id(0x56, 0x78);
    assert_eq!(distance(&a, &b), distance(&b, &a));
    assert_eq!(distance(&a, &a), [0u8; 32]);
}

#[test]
fn max_distance_is_all_ones() {
    assert_eq!(max_distance(), [0xffu8; 32]);
}

#[test]
fn order_is_big_endian() {
    assert!(id_lt(&id(0, 0xff), &id(1, 0)));
    assert!(!id_lt(&id(1, 0), &id(0, 0xff)));
    assert!(!id_lt(&id(1, 1), &id(1, 1)));
    assert!(id_eq(&id(1, 1), &id(1, 1)));
    assert!(!id_eq(&id(1, 1), &id(1, 2)));
}

#[test]
fn nearer_compares_distances_to_origin() {
    let origin = id(0x80, 0);
    assert!(is_nearer(&origin, &id(0x81, 0), &id(0x00, 0)));
    assert!(!is_nearer(&origin, &id(0x00, 0), &id(0x81, 0)));
}

#[test]
fn log2_distance_counts_significant_bits() {
    assert_eq!(log2_distance(&id(0, 0), &id(0, 0)), 0);
    assert_eq!(log2_distance(&id(0, 0), &id(0, 1)), 1);
    assert_eq!(log2_distance(&id(0, 0), &id(0, 0x10)), 5);
    assert_eq!(log2_distance(&id(0, 0), &id(0x80, 0)), 256);
    assert_eq!(log2_distance(&id(0x01, 0xff), &id(0x00, 0)), 249);
}
