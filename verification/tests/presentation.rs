use cmpr::glyph::to_char;
use cmpr::width::address_width;

#[test]
fn control_glyphs_are_pairwise_distinct() {
    for i in 0u8..32 {
        for j in 0u8..32 {
            if i != j {
                assert_ne!(to_char(i), to_char(j), "bytes {} and {} share a glyph", i, j);
            }
        }
    }
}

#[test]
fn graphic_bytes_map_to_themselves() {
    for b in 0x21u8..=0x7e {
        assert_eq!(to_char(b), b as char);
    }
    assert_eq!(to_char(b'A'), 'A');
    assert_eq!(to_char(b'~'), '~');
}

#[test]
fn control_and_high_bytes_map_to_symbols() {
    assert_eq!(to_char(0), '\u{24ea}');
    assert_eq!(to_char(1), '\u{2460}');
    assert_eq!(to_char(20), '\u{2473}');
    assert_eq!(to_char(21), '\u{3251}');
    assert_eq!(to_char(31), '\u{325b}');
    assert_eq!(to_char(0x20), '\u{25af}');
    assert_eq!(to_char(0x7f), '\u{25af}');
    assert_eq!(to_char(200), '\u{25af}');
}

#[test]
fn width_counts_decimal_digits_of_shorter_length() {
    assert_eq!(address_width(100, 200), 3);
    assert_eq!(address_width(9, 9), 1);
    assert_eq!(address_width(1, 5), 1);
    assert_eq!(address_width(12345, 7), 1);
    assert_eq!(address_width(12345, 99999), 5);
}

#[test]
fn width_of_an_empty_source_is_still_one() {
    assert_eq!(address_width(0, 0), 1);
    assert_eq!(address_width(0, 10), 1);
}
