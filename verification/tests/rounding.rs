use npu_kernels::qkv::X_PRESCALE;
use npu_kernels::rounding::{round, split, LARGEST};

#[test]
fn small_numbers_are_kept() {
    for v in -15..16 {
        assert_eq!(round(v), v);
        assert_eq!(split(v), (v, 0));
    }
}

#[test]
fn ties_go_to_even() {
    // Between 16 and 32 the format holds the even numbers.
    assert_eq!(round(17), 16);
    assert_eq!(round(19), 20);
    assert_eq!(round(-17), -16);
    assert_eq!(round(31), 32);
    // Between 32 and 64 the multiples of four.
    assert_eq!(round(33), 32);
    assert_eq!(round(34), 32);
    assert_eq!(round(38), 40);
}

#[test]
fn large_numbers_are_clipped() {
    assert_eq!(LARGEST, 448 * 512);
    assert_eq!(round(LARGEST), LARGEST);
    assert_eq!(round(464 * 512), LARGEST);
    assert_eq!(round(-1_000_000_000), -LARGEST);
    // What is clipped can still be exact, if the rest is a number of the format, or not.
    assert_eq!(split(480 * 512), (LARGEST, 32 * 512));
    assert_eq!(split(510 * 512), (LARGEST, 64 * 512));
    assert_eq!(split(3 * LARGEST), (LARGEST, LARGEST));
}

#[test]
fn two_terms_hold_eight_bits() {
    assert_eq!(split(255), (256, -1));
    assert_eq!(split(171), (176, -5));
    for m in 0..256i64 {
        for j in 0..10 {
            let v = m << j;
            let (first, second) = split(v);
            assert_eq!(first + second, v);
            assert!(16 * second.abs() <= v);
            assert!(second == 0 || 256 * second.abs() > v);
            assert_eq!(split(-v), (-first, -second));
        }
    }
    // Ten bits are too many.
    assert_eq!(split(0b11_0110_0111), (896, -24));
}

#[test]
fn doubling_passes_through() {
    for v in [7i64, 13, 21, 100, 171, 4097] {
        assert_eq!(round(2 * v), 2 * round(v));
    }
}

#[test]
fn the_prescale_keeps_the_rest_normal() {
    assert_eq!(X_PRESCALE * 56, 448);
    // 1/2 up to 56, in eighths of a unit.
    for m in 128..256i64 {
        for j in 4..11 {
            let x = m << j;
            if x > 56 * 4096 {
                continue;
            }
            let (first, second) = split(x);
            assert_eq!(first + second, x);
            assert!(second == 0 || second.abs() >= 8);
        }
    }
    // Without the prescale, 1/2 + 1/256 leaves a rest below the normal numbers.
    let (_, second) = split(129 * 2);
    assert_eq!(second, 2);
}

#[test]
fn signs_pass_through() {
    for v in [1i64, 17, 19, 34, 171, 4097, 229_376, 300_000] {
        assert_eq!(round(-v), -round(v));
        let (first, second) = split(v);
        assert_eq!(split(-v), (-first, -second));
    }
}
