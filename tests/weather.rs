use openmeteo::weather::{format_wmo_symbol, pad_symbol, WmoCode};

#[test]
fn severity_ranks() {
    let expected = [
        (0, 0), (1, 10), (2, 20), (3, 30), (45, 50), (48, 50), (51, 60), (67, 60), (71, 70),
        (77, 70), (80, 80), (86, 80), (95, 100), (99, 100), (4, 0), (68, 0), (100, 0), (255, 0),
    ];
    for (code, rank) in expected {
        assert_eq!(WmoCode(code).severity(), rank, "code {code}");
    }
}

#[test]
fn symbols_by_day_and_night() {
    assert_eq!(WmoCode(0).raw_symbol(12), "\u{1F31E}");
    assert_eq!(WmoCode(0).raw_symbol(5), "\u{1F319}");
    assert_eq!(WmoCode(0).raw_symbol(20), "\u{1F319}");
    assert_eq!(WmoCode(2).raw_symbol(6), "\u{26C5}");
    assert_eq!(WmoCode(2).raw_symbol(22), "\u{2601}");
    assert_eq!(WmoCode(81).raw_symbol(12), "\u{1F326}");
    assert_eq!(WmoCode(81).raw_symbol(2), "\u{1F327}");
    assert_eq!(WmoCode(85).raw_symbol(12), "\u{1F328}");
    assert_eq!(WmoCode(96).raw_symbol(12), "\u{26C8}");
    assert_eq!(WmoCode(42).raw_symbol(12), "?");
}

#[test]
fn narrow_symbols_are_padded_to_two_columns() {
    // The cloud takes one column and gets a space; the sun takes two.
    assert_eq!(WmoCode(3).symbol(12), "\u{2601} ");
    assert_eq!(WmoCode(0).symbol(12), "\u{1F31E}");
    assert_eq!(WmoCode(42).symbol(12), "? ");
    assert_eq!(pad_symbol("x", 1), "x ");
    assert_eq!(pad_symbol("x", 2), "x");
}

#[test]
fn absent_code_shows_a_dash() {
    assert_eq!(format_wmo_symbol(None, 12), "-");
    assert_eq!(format_wmo_symbol(Some(WmoCode(3)), 12), "\u{2601} ");
}
