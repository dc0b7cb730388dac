use stock_ticker::text::{char_index_at, chars_of, float_text};

#[test]
fn float_texts_agree_with_std() {
    let samples = [
        "", "0", "12", "1.5", ".5", "5.", ".", "+", "-", "+.", "-3.25", "+7", "1e5", "1E5",
        "1e+5", "1e-5", "1e", "1e+", "e5", ".e5", "1.e5", ".5e-3", "1e5.0", "1..2", "1.2.3",
        "inf", "INF", "-inf", "+Infinity", "infinity", "infinit", "nan", "NaN", "-nan", "nana",
        " 1", "1 ", "0x10", "1_000", "١", "12345678901234567890123456789", "1e400", "--1",
        "+-1", "in", "∞",
    ];
    for s in samples {
        let ours = float_text(&chars_of(s));
        let theirs = s.parse::<f64>().is_ok();
        assert_eq!(ours, theirs, "{:?}", s);
    }
}

#[test]
fn byte_boundaries_at_any_offset() {
    let t = chars_of("a一b");
    assert_eq!(char_index_at(&t, 0), Some(0));
    assert_eq!(char_index_at(&t, 1), Some(1));
    assert_eq!(char_index_at(&t, 2), None);
    assert_eq!(char_index_at(&t, 4), Some(2));
    assert_eq!(char_index_at(&t, 5), Some(3));
    assert_eq!(char_index_at(&t, 6), None);
}
