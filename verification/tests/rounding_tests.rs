use raymarcher::rounding::round_to_precision;

/// Rounding as the conversion of an integer to a double does it.
fn plain(x: u64) -> u64 {
    (x as f64) as u64
}

#[test]
fn what_fits_53_digits_stays() {
    for x in [0u64, 1, 2, 3, 255, 1 << 52, (1 << 53) - 1, (1 << 53) - 2, 0x000F_FFFF_FFFF_FFFF] {
        assert_eq!(round_to_precision(x), x);
    }
}

#[test]
fn the_nearest_is_taken_and_of_two_the_even() {
    assert_eq!(round_to_precision(1 << 53), 1 << 53);
    assert_eq!(round_to_precision((1 << 53) + 1), 1 << 53);
    assert_eq!(round_to_precision((1 << 53) + 2), (1 << 53) + 2);
    assert_eq!(round_to_precision((1 << 53) + 3), (1 << 53) + 4);
    assert_eq!(round_to_precision((1 << 54) - 1), 1 << 54);
    assert_eq!(round_to_precision((1 << 54) + 2), 1 << 54);
    assert_eq!(round_to_precision((1 << 54) + 3), (1 << 54) + 4);
    assert_eq!(round_to_precision((1 << 54) + 6), (1 << 54) + 8);
    assert_eq!(round_to_precision((1 << 62) - 1), 1 << 62);
}

#[test]
fn rounding_agrees_with_the_conversion_to_a_double() {
    let mut state: u64 = 0x0123_4567_89AB_CDEF;
    for _ in 0..200000 {
        state = state.wrapping_mul(6364136223846793005).wrapping_add(1442695040888963407);
        let width = 1 + (state >> 58) % 62;
        let x = (state >> 2) >> (62 - width);
        assert_eq!(round_to_precision(x), plain(x), "{:#x}", x);
    }
    for top in 53..62u32 {
        for low in 0..64u64 {
            for step in [0u64, 1, 2, 3] {
                let x = (1u64 << top) + (low << (top - 53)) + (step << (top - 54)) / 2;
                if x < 1 << 62 {
                    assert_eq!(round_to_precision(x), plain(x), "{:#x}", x);
                }
                let y = (1u64 << top) + (low << (top - 53)) + (1u64 << (top - 53)) / 2 + step;
                if y < 1 << 62 {
                    assert_eq!(round_to_precision(y), plain(y), "{:#x}", y);
                }
            }
        }
    }
}
