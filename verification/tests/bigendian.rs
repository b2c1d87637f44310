use cidr::bigendian::BigEndianManipulation;

#[test]
fn shared_prefix() {
    assert_eq!(0, u8::shared_prefix_len(&[0b0000_0000], &[0b0000_0000], 0));
    assert_eq!(0, u8::shared_prefix_len(&[0b0000_0000], &[0b1000_0000], 8));
    assert_eq!(1, u8::shared_prefix_len(&[0b0000_0000], &[0b0000_0000], 1));
    assert_eq!(1, u8::shared_prefix_len(&[0b0000_0000], &[0b0100_0000], 8));
    assert_eq!(7, u8::shared_prefix_len(&[0b1100_0000], &[0b1100_0001], 7));
    assert_eq!(7, u8::shared_prefix_len(&[0b1100_0000], &[0b1100_0001], 8));

    assert_eq!(0, u8::shared_prefix_len(&[0b0000_0000, 0b0000_0000], &[0b0000_0000, 0b0000_0000], 0));
    assert_eq!(0, u8::shared_prefix_len(&[0b0000_0000, 0b0000_0000], &[0b1000_0000, 0b0000_0000], 8));
    assert_eq!(1, u8::shared_prefix_len(&[0b0000_0000, 0b0000_0000], &[0b0000_0000, 0b0000_0000], 1));
    assert_eq!(1, u8::shared_prefix_len(&[0b0000_0000, 0b0000_0000], &[0b0100_0000, 0b0000_0000], 8));
    assert_eq!(7, u8::shared_prefix_len(&[0b1100_0000, 0b0000_0000], &[0b1100_0001, 0b0000_0000], 7));
    assert_eq!(7, u8::shared_prefix_len(&[0b1100_0000, 0b0000_0000], &[0b1100_0001, 0b0000_0000], 8));

    assert_eq!(8, u8::shared_prefix_len(&[0b0010_1000, 0b0000_0000], &[0b0010_1000, 0b0000_0000], 8));
    assert_eq!(8, u8::shared_prefix_len(&[0b0010_1000, 0b0000_0000], &[0b0010_1000, 0b1000_0000], 16));
    assert_eq!(9, u8::shared_prefix_len(&[0b0010_1000, 0b0000_0000], &[0b0010_1000, 0b0000_0000], 9));
    assert_eq!(9, u8::shared_prefix_len(&[0b0010_1000, 0b0000_0000], &[0b0010_1000, 0b0100_0000], 16));
    assert_eq!(15, u8::shared_prefix_len(&[0b0010_1000, 0b1100_0000], &[0b0010_1000, 0b1100_0001], 15));
    assert_eq!(15, u8::shared_prefix_len(&[0b0010_1000, 0b1100_0000], &[0b0010_1000, 0b1100_0001], 16));
}

#[test]
fn elembits_is_eight() {
    assert_eq!(8, u8::elembits());
}

#[test]
fn mask_selects_big_endian_bit() {
    assert_eq!(0b1000_0000, u8::mask(0));
    assert_eq!(0b0100_0000, u8::mask(1));
    assert_eq!(0b0000_0001, u8::mask(7));
    assert_eq!(0b1000_0000, u8::mask(8));
    assert_eq!(0b0001_0000, u8::mask(19));
}

#[test]
fn get_reads_across_bytes() {
    let a = [0b1000_0001u8, 0b0100_0000];
    assert!(u8::get(&a, 0));
    assert!(!u8::get(&a, 1));
    assert!(u8::get(&a, 7));
    assert!(!u8::get(&a, 8));
    assert!(u8::get(&a, 9));
    assert!(!u8::get(&a, 15));
}

#[test]
fn set_then_get_reads_back() {
    for i in 0..24usize {
        for &bit in &[false, true] {
            let before = [0b1010_0101u8, 0b0000_1111, 0b1111_0000];
            let mut a = before;
            u8::set(&mut a, i, bit);
            assert_eq!(bit, u8::get(&a, i));
            for j in 0..24usize {
                if j != i {
                    assert_eq!(u8::get(&before, j), u8::get(&a, j));
                }
            }
        }
    }
}

#[test]
fn on_off_flip_touch_one_bit() {
    let mut a = [0u8, 0];
    u8::on(&mut a, 9);
    assert_eq!([0, 0b0100_0000], a);
    u8::on(&mut a, 9);
    assert_eq!([0, 0b0100_0000], a);
    u8::flip(&mut a, 0);
    assert_eq!([0b1000_0000, 0b0100_0000], a);
    u8::flip(&mut a, 9);
    assert_eq!([0b1000_0000, 0], a);
    u8::off(&mut a, 0);
    assert_eq!([0, 0], a);
    u8::off(&mut a, 0);
    assert_eq!([0, 0], a);
}

#[test]
fn shared_prefix_is_reflexive_and_capped() {
    let a = [0x12u8, 0x34, 0x56];
    let b = [0x12u8, 0x35, 0x56];
    for n in 0..=24usize {
        assert_eq!(n, u8::shared_prefix_len(&a, &a, n));
        assert!(u8::shared_prefix_len(&a, &b, n) <= n);
    }
    assert_eq!(0, u8::shared_prefix_len(&a, &b, 0));
    assert_eq!(15, u8::shared_prefix_len(&a, &b, 24));
    assert_eq!(15, u8::shared_prefix_len(&a, &b, 16));
    assert_eq!(15, u8::shared_prefix_len(&a, &b, 15));
    assert_eq!(14, u8::shared_prefix_len(&a, &b, 14));
}

#[test]
fn zeroesfrom_clears_the_tail() {
    let mut a = [0xffu8, 0xff, 0xff];
    u8::zeroesfrom(&mut a, 24);
    assert_eq!([0xff, 0xff, 0xff], a);
    u8::zeroesfrom(&mut a, 100);
    assert_eq!([0xff, 0xff, 0xff], a);
    u8::zeroesfrom(&mut a, 17);
    assert_eq!([0xff, 0xff, 0x80], a);
    u8::zeroesfrom(&mut a, 16);
    assert_eq!([0xff, 0xff, 0x00], a);
    u8::zeroesfrom(&mut a, 9);
    assert_eq!([0xff, 0x80, 0x00], a);
    u8::zeroesfrom(&mut a, 7);
    assert_eq!([0xfe, 0x00, 0x00], a);
    u8::zeroesfrom(&mut a, 0);
    assert_eq!([0x00, 0x00, 0x00], a);
}

#[test]
fn onesfrom_sets_the_tail() {
    let mut a = [0u8, 0, 0];
    u8::onesfrom(&mut a, 24);
    assert_eq!([0, 0, 0], a);
    u8::onesfrom(&mut a, 23);
    assert_eq!([0, 0, 0x01], a);
    u8::onesfrom(&mut a, 12);
    assert_eq!([0, 0x0f, 0xff], a);
    u8::onesfrom(&mut a, 8);
    assert_eq!([0, 0xff, 0xff], a);
    u8::onesfrom(&mut a, 1);
    assert_eq!([0x7f, 0xff, 0xff], a);
    u8::onesfrom(&mut a, 0);
    assert_eq!([0xff, 0xff, 0xff], a);
}

#[test]
fn zeroesfrom_then_is_zeroesfrom() {
    for n in 0..=26usize {
        let mut a = [0xa5u8, 0xff, 0x5a];
        u8::zeroesfrom(&mut a, n);
        assert!(u8::is_zeroesfrom(&a, n));
        let mut b = [0xa5u8, 0x00, 0x5a];
        u8::onesfrom(&mut b, n);
        assert!(u8::is_onesfrom(&b, n));
    }
}

#[test]
fn is_zeroesfrom_zero_means_all_zero() {
    assert!(u8::is_zeroesfrom(&[0u8, 0, 0], 0));
    assert!(!u8::is_zeroesfrom(&[0u8, 0, 1], 0));
    assert!(!u8::is_zeroesfrom(&[0x80u8, 0, 0], 0));
    assert!(u8::is_zeroesfrom(&[0x80u8, 0, 0], 1));
    assert!(!u8::is_zeroesfrom(&[0xffu8, 0x01, 0], 15));
    assert!(u8::is_zeroesfrom(&[0xffu8, 0x01, 0], 16));
    assert!(u8::is_zeroesfrom(&[0xffu8, 0xff, 0xff], 24));
    assert!(u8::is_zeroesfrom(&[0xffu8, 0xff, 0xff], 25));
    assert!(u8::is_zeroesfrom(&[], 0));
}

#[test]
fn is_onesfrom_checks_the_tail() {
    assert!(u8::is_onesfrom(&[0xffu8, 0xff], 0));
    assert!(!u8::is_onesfrom(&[0xffu8, 0xfe], 0));
    assert!(!u8::is_onesfrom(&[0x7fu8, 0xff], 0));
    assert!(u8::is_onesfrom(&[0x7fu8, 0xff], 1));
    assert!(u8::is_onesfrom(&[0x00u8, 0x1f], 11));
    assert!(!u8::is_onesfrom(&[0x00u8, 0x1f], 10));
    assert!(u8::is_onesfrom(&[0x00u8, 0x00], 16));
}

#[test]
fn contains_compares_the_prefix() {
    let net = [192u8, 168, 1, 0];
    assert!(u8::contains(&net, 24, &[192, 168, 1, 42]));
    assert!(!u8::contains(&net, 24, &[192, 168, 2, 1]));
    assert!(u8::contains(&net, 0, &[10, 0, 0, 1]));
    assert!(u8::contains(&net, 23, &[192, 168, 0, 255]));
    assert!(!u8::contains(&net, 23, &[192, 168, 2, 0]));
    assert!(u8::contains(&net, 32, &net));
    assert!(!u8::contains(&net, 32, &[192, 168, 1, 1]));
    assert!(u8::contains(&net, 31, &[192, 168, 1, 1]));
}

#[test]
fn contains_is_reflexive_and_monotone() {
    let a = [0xdeu8, 0xad, 0xbe, 0xef];
    let b = [0xdeu8, 0xad, 0xb0, 0x00];
    for n in 0..=32usize {
        assert!(u8::contains(&a, n, &a));
        if u8::contains(&a, n, &b) {
            for shorter in 0..=n {
                assert!(u8::contains(&a, shorter, &b));
            }
        }
    }
    assert!(u8::contains(&a, 20, &b));
    assert!(!u8::contains(&a, 21, &b));
}

#[test]
fn inc_without_guard_carries_and_wraps() {
    let mut a = [0u8, 0];
    assert!(!u8::inc(&mut a, 0));
    assert_eq!([0, 1], a);
    let mut a = [0u8, 0xff];
    assert!(!u8::inc(&mut a, 0));
    assert_eq!([1, 0], a);
    let mut a = [0xffu8, 0xff];
    assert!(u8::inc(&mut a, 0));
    assert_eq!([0, 0], a);
    let mut empty: [u8; 0] = [];
    assert!(u8::inc(&mut empty, 0));
}

#[test]
fn inc_cycles_after_two_to_the_k() {
    let start = [0xfeu8, 0x7f];
    let mut a = start;
    let mut overflows = 0;
    for _ in 0..65536u32 {
        if u8::inc(&mut a, 0) {
            overflows += 1;
        }
    }
    assert_eq!(start, a);
    assert_eq!(1, overflows);

    let mut b = [0x03u8];
    let mut reports = Vec::new();
    for _ in 0..256u32 {
        reports.push(u8::inc(&mut b, 0));
    }
    assert_eq!([0x03], b);
    for (k, &r) in reports.iter().enumerate() {
        assert_eq!(k == 256 - 1 - 3, r);
    }
}

#[test]
fn inc_with_guard_reports_leaving_the_network() {
    // last host of 192.168.2.0/24
    let mut a = [192u8, 168, 2, 255];
    assert!(u8::inc(&mut a, 24));
    assert_eq!([192, 168, 2, 0], a);
    let mut a = [192u8, 168, 2, 254];
    assert!(!u8::inc(&mut a, 24));
    assert_eq!([192, 168, 2, 255], a);
    // the last guarded bit is restored after the carry has passed through it
    let mut a = [192u8, 168, 1, 255];
    assert!(u8::inc(&mut a, 24));
    assert_eq!([192, 168, 3, 0], a);
    // guard in the middle of a byte
    let mut a = [0b0000_1111u8];
    assert!(u8::inc(&mut a, 4));
    assert_eq!([0b0000_0000], a);
    let mut a = [0b0001_1111u8];
    assert!(u8::inc(&mut a, 4));
    assert_eq!([0b0011_0000], a);
    let mut a = [0b0001_0111u8];
    assert!(!u8::inc(&mut a, 4));
    assert_eq!([0b0001_1000], a);
    // no host bits at all
    let mut a = [1u8, 2];
    assert!(u8::inc(&mut a, 16));
    assert_eq!([1, 2], a);
    let mut a = [1u8, 3];
    assert!(u8::inc(&mut a, 16));
    assert_eq!([1, 5], a);
}
