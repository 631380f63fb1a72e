use herdr_quotr::config::{measure, OutOfRange};
use herdr_quotr::ui::column::{
    content_column, pad, padding, text_area, Area, DEFAULT_MEASURE, MAX_MEASURE, MIN_MEASURE,
};

#[test]
fn caps_and_centers_on_a_wide_pane() {
    let col = content_column(Area::new(1, 2, 141, 40), DEFAULT_MEASURE);
    assert_eq!(col.width, DEFAULT_MEASURE);
    assert_eq!(col.x, 1 + 20); // odd remainder goes right: 41 -> 20 left, 21 right
    assert_eq!((col.y, col.height), (2, 40));
}

#[test]
fn takes_full_width_below_the_cap() {
    let area = Area::new(3, 0, 60, 10);
    assert_eq!(content_column(area, DEFAULT_MEASURE), area);
}

#[test]
fn pads_by_display_width_not_byte_count() {
    assert_eq!(pad("ab".to_owned(), 5), "ab   ");
    assert_eq!(pad("日本".to_owned(), 5), "日本 "); // two wide glyphs = four columns
    assert_eq!(pad("toolong".to_owned(), 3), "toolong");
    assert_eq!(padding("日本", 6), "  ");
}

#[test]
fn the_gutter_comes_off_the_left_of_the_column() {
    assert_eq!(text_area(Area::new(10, 1, 50, 5)), Area::new(13, 1, 47, 5));
    assert_eq!(text_area(Area::new(10, 1, 2, 5)), Area::new(12, 1, 0, 5));
    assert_eq!(Area::new(0, 65530, 1, 10).bottom(), u16::MAX);
}

#[test]
fn an_omitted_measure_is_the_default() {
    assert_eq!(measure(None).ok(), Some(DEFAULT_MEASURE));
}

#[test]
fn a_measure_outside_the_range_is_an_error() {
    assert_eq!(measure(Some(MIN_MEASURE)).ok(), Some(MIN_MEASURE));
    assert_eq!(measure(Some(MAX_MEASURE)).ok(), Some(MAX_MEASURE));
    assert!(measure(Some(MIN_MEASURE - 1)).is_err());
    assert!(measure(Some(MAX_MEASURE + 1)).is_err());
    assert_eq!(measure(Some(7)), Err(OutOfRange { columns: 7 }));
}
