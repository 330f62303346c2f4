use cpa::wide::{from_u128, less, multiply};

fn value(limbs: &[u32]) -> u128 {
    let mut v: u128 = 0;
    for (i, limb) in limbs.iter().enumerate() {
        assert!(i < 4 || *limb == 0);
        if i < 4 {
            v |= (*limb as u128) << (32 * i);
        }
    }
    v
}

#[test]
fn from_u128_gives_four_little_endian_limbs() {
    assert_eq!(from_u128(0), vec![0, 0, 0, 0]);
    assert_eq!(from_u128(1), vec![1, 0, 0, 0]);
    assert_eq!(
        from_u128(0x0123_4567_89ab_cdef_0011_2233_4455_6677),
        vec![0x4455_6677, 0x0011_2233, 0x89ab_cdef, 0x0123_4567]
    );
    assert_eq!(from_u128(u128::MAX), vec![u32::MAX; 4]);
}

#[test]
fn multiply_small_numbers() {
    let p = multiply(&from_u128(123_456_789), &from_u128(987_654_321));
    assert_eq!(p.len(), 8);
    assert_eq!(value(&p), 123_456_789u128 * 987_654_321u128);
}

#[test]
fn multiply_carries_across_limbs() {
    // (2^64 - 1)^2 = 2^128 - 2^65 + 1
    let a = from_u128(u64::MAX as u128);
    let p = multiply(&a, &a);
    assert_eq!(p, vec![1, 0, 0xffff_fffe, 0xffff_ffff, 0, 0, 0, 0]);
    // (2^128 - 1)^2 = 2^256 - 2^129 + 1
    let b = from_u128(u128::MAX);
    let q = multiply(&b, &b);
    assert_eq!(
        q,
        vec![1, 0, 0, 0, 0xffff_fffe, 0xffff_ffff, 0xffff_ffff, 0xffff_ffff]
    );
}

#[test]
fn multiply_by_zero_and_by_nothing() {
    let z = multiply(&from_u128(0), &from_u128(u128::MAX));
    assert_eq!(z, vec![0; 8]);
    let e = multiply(&Vec::new(), &from_u128(5));
    assert_eq!(e, vec![0; 4]);
}

#[test]
fn less_orders_by_value() {
    let a = from_u128(5 << 96);
    let b = from_u128((5 << 96) + 1);
    assert!(less(&a, &b));
    assert!(!less(&b, &a));
    assert!(!less(&a, &a));
    // The most significant limb decides.
    assert!(less(&vec![u32::MAX, u32::MAX, 1], &vec![0, 0, 2]));
    assert!(!less(&vec![0, 0, 2], &vec![u32::MAX, u32::MAX, 1]));
    assert!(!less(&Vec::new(), &Vec::new()));
}
