use reader::text::{CsvAdapter, JsonAdapter, JsonArrayAdapter, JsonLineAdapter};

#[test]
fn json_window_is_clamped() {
    assert_eq!(JsonAdapter {}.window(10, Some(2), 3), (2, 5));
    assert_eq!(JsonAdapter {}.window(10, Some(8), 5), (8, 10));
    assert_eq!(JsonAdapter {}.window(10, Some(12), 5), (10, 10));
    assert_eq!(JsonAdapter {}.window(10, None, usize::MAX), (0, 10));
}

#[test]
fn csv_and_lines_windows() {
    assert_eq!(CsvAdapter {}.window(4, None, 2), (0, 2));
    assert_eq!(JsonLineAdapter {}.window(4, Some(3), 10), (3, 4));
    assert_eq!(JsonLineAdapter {}.window(0, Some(3), 10), (0, 0));
}

#[test]
fn array_window_skips_header_row() {
    assert_eq!(JsonArrayAdapter {}.window(5, None, 2, true), (1, 3));
    assert_eq!(JsonArrayAdapter {}.window(5, Some(3), 10, true), (4, 5));
    assert_eq!(JsonArrayAdapter {}.window(5, Some(3), 10, false), (3, 5));
    assert_eq!(JsonArrayAdapter {}.window(1, None, 10, true), (1, 1));
}
