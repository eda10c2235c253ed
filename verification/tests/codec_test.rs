use bitpack::fitss;
use bitpack::fitsu;
use bitpack::gets;
use bitpack::getu;
use bitpack::news;
use bitpack::newu;
use bitpack::DoesNotFit;

#[test]
fn fits_degenerate_widths() {
    assert_eq!(fitsu(0, 0), true);
    assert_eq!(fitsu(1, 0), false);
    assert_eq!(fitss(0, 0), true);
    assert_eq!(fitss(1, 0), false);
    assert_eq!(fitss(-1, 0), false);

    assert_eq!(fitsu(u64::MAX, 64), true);
    assert_eq!(fitsu(u64::MAX, 100), true);
    assert_eq!(fitss(i64::MIN, 64), true);
    assert_eq!(fitss(i64::MAX, 64), true);
    assert_eq!(fitss(i64::MIN, 100), true);
}

#[test]
fn fits_boundaries() {
    assert_eq!(fitss(-(1 << 62), 63), true);
    assert_eq!(fitss(i64::MIN, 63), false);
    assert_eq!(fitss((1 << 62) - 1, 63), true);
    assert_eq!(fitss(1 << 62, 63), false);
    assert_eq!(fitsu((1 << 63) - 1, 63), true);
    assert_eq!(fitsu(1 << 63, 63), false);
    assert_eq!(fitss(-1, 1), true);
    assert_eq!(fitss(0, 1), true);
    assert_eq!(fitss(1, 1), false);
    assert_eq!(fitsu(1, 1), true);
    assert_eq!(fitsu(2, 1), false);
}

#[test]
fn getu_scenarios() {
    assert_eq!(getu(0b1010, 2, 1), 1);
    assert_eq!(getu(0b1010, 3, 1), 5);
    assert_eq!(getu(0xFF00, 8, 8), 0xFF);
    assert_eq!(getu(u64::MAX, 1, 63), 1);
    assert_eq!(getu(0x7FFF_FFFF_FFFF_FFFF, 1, 63), 0);
    assert_eq!(getu(0xDEAD_BEEF, 64, 0), 0xDEAD_BEEF);
    assert_eq!(getu(0xDEAD_BEEF, 0, 12), 0);
    assert_eq!(getu(0xDEAD_BEEF, 0, 64), 0);
}

#[test]
fn gets_scenarios() {
    assert_eq!(gets(0b10, 2, 0), -2);
    assert_eq!(gets(0b01, 2, 0), 1);
    assert_eq!(gets(0b110, 2, 1), -1);
    assert_eq!(gets(0b1010, 3, 1), -3);
    assert_eq!(gets(u64::MAX, 64, 0), -1);
    assert_eq!(gets(u64::MAX, 1, 63), -1);
    assert_eq!(gets(0x8000_0000_0000_0000, 64, 0), i64::MIN);
    assert_eq!(gets(0x7FFF_FFFF_FFFF_FFFF, 64, 0), i64::MAX);
    assert_eq!(gets(0xDEAD_BEEF, 0, 12), 0);
}

#[test]
fn newu_scenarios() {
    let w = newu(0, 4, 2, 3).unwrap();
    assert_eq!(w, 0b1100);
    assert_eq!(getu(w, 4, 2), 3);

    assert_eq!(newu(0, 2, 0, 4), Err(DoesNotFit));
    assert_eq!(newu(0, 3, 5, 7), Ok(0b1110_0000));
    assert_eq!(newu(0, 64, 0, u64::MAX), Ok(u64::MAX));
    assert_eq!(newu(123, 0, 7, 0), Ok(123));
    assert_eq!(newu(123, 0, 7, 1), Err(DoesNotFit));
    assert_eq!(newu(0, 1, 63, 1), Ok(1 << 63));
}

#[test]
fn newu_overwrites_previous_content() {
    // A field that already holds bits is cleared before the new value is
    // written, so the update is exact and the other bits stay untouched.
    let word = 0xFFFF_FFFF_FFFF_FFFF;
    let w = newu(word, 8, 8, 0x12).unwrap();
    assert_eq!(getu(w, 8, 8), 0x12);
    assert_eq!(w, 0xFFFF_FFFF_FFFF_12FF);
    let w2 = newu(w, 8, 8, 0xAB).unwrap();
    assert_eq!(getu(w2, 8, 8), 0xAB);
    assert_eq!(w2, 0xFFFF_FFFF_FFFF_ABFF);
}

#[test]
fn news_scenarios() {
    let w = news(0, 3, 1, -3).unwrap();
    assert_eq!(w, 0b1010);
    assert_eq!(gets(w, 3, 1), -3);

    assert_eq!(news(0, 2, 0, 2), Err(DoesNotFit));
    assert_eq!(news(0, 2, 0, -3), Err(DoesNotFit));
    assert_eq!(news(0, 2, 0, -2), Ok(0b10));
    assert_eq!(news(0, 64, 0, -1), Ok(u64::MAX));
    assert_eq!(news(77, 0, 3, 0), Ok(77));
    assert_eq!(news(77, 0, 3, 1), Err(DoesNotFit));
    assert_eq!(news(0, 4, 60, -8).unwrap(), 0x8000_0000_0000_0000);
}

#[test]
fn set_error_iff_out_of_range() {
    assert!(newu(0, 3, 0, 7).is_ok());
    assert_eq!(newu(0, 3, 0, 8), Err(DoesNotFit));
    assert!(news(0, 3, 0, 3).is_ok());
    assert_eq!(news(0, 3, 0, 4), Err(DoesNotFit));
    assert!(news(0, 3, 0, -4).is_ok());
    assert_eq!(news(0, 3, 0, -5), Err(DoesNotFit));
}

#[test]
fn disjoint_fields_preserved() {
    let w0 = newu(0, 8, 0, 0xAA).unwrap();
    let w1 = newu(w0, 8, 8, 0xBB).unwrap();
    let w2 = news(w1, 8, 16, -5).unwrap();
    assert_eq!(getu(w2, 8, 0), 0xAA);
    assert_eq!(getu(w2, 8, 8), 0xBB);
    assert_eq!(gets(w2, 8, 16), -5);
    assert_eq!(getu(w2, 40, 24), 0);
}

#[test]
fn round_trip_unsigned() {
    let words = [0u64, u64::MAX, 0x0123_4567_89AB_CDEF];
    for &word in words.iter() {
        for width in 0..=8u64 {
            let max = if width == 0 { 0 } else { (1u64 << width) - 1 };
            for value in 0..=max {
                for lsb in [0, 1, 29, 64 - width] {
                    let w = newu(word, width, lsb, value).unwrap();
                    assert_eq!(getu(w, width, lsb), value);
                    assert!(fitsu(getu(w, width, lsb), width));
                }
            }
        }
        let w = newu(word, 64, 0, 0xFEED).unwrap();
        assert_eq!(getu(w, 64, 0), 0xFEED);
    }
}

#[test]
fn round_trip_signed() {
    let words = [0u64, u64::MAX, 0x0123_4567_89AB_CDEF];
    for &word in words.iter() {
        for width in 1..=8u64 {
            let lo = -(1i64 << (width - 1));
            let hi = (1i64 << (width - 1)) - 1;
            for value in lo..=hi {
                for lsb in [0, 1, 29, 64 - width] {
                    let w = news(word, width, lsb, value).unwrap();
                    assert_eq!(gets(w, width, lsb), value);
                    assert!(fitss(gets(w, width, lsb), width));
                }
            }
        }
        let w = news(word, 64, 0, i64::MIN).unwrap();
        assert_eq!(gets(w, 64, 0), i64::MIN);
    }
}

#[test]
fn get_results_always_fit() {
    let words = [0u64, u64::MAX, 0xA5A5_A5A5_A5A5_A5A5];
    for &word in words.iter() {
        for width in 0..=16u64 {
            for lsb in 0..=(64 - width) {
                assert!(fitsu(getu(word, width, lsb), width));
                assert!(fitss(gets(word, width, lsb), width));
            }
        }
    }
}
