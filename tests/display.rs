use leedor::display::stepped_font_size;

#[test]
fn font_size_steps_from_default() {
    assert_eq!(22, stepped_font_size(None, true));
    assert_eq!(18, stepped_font_size(None, false));
}

#[test]
fn font_size_stays_within_bounds() {
    assert_eq!(60, stepped_font_size(Some(60), true));
    assert_eq!(6, stepped_font_size(Some(7), false));
    assert_eq!(60, stepped_font_size(Some(i64::MAX), true));
    assert_eq!(6, stepped_font_size(Some(i64::MIN), false));
    assert_eq!(60, stepped_font_size(Some(100), false));
}
