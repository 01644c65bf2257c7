use dir_inspector::format::{decimal_string, format_size, format_timestamp, indent_for};
use dir_inspector::inspect::Timestamp;

#[test]
fn size_zero_bytes() {
    assert_eq!(format_size(0), "0 B");
}

#[test]
fn size_just_below_one_kilobyte() {
    assert_eq!(format_size(1023), "1023 B");
}

#[test]
fn size_one_kilobyte() {
    assert_eq!(format_size(1024), "1.0 KB");
}

#[test]
fn size_one_and_a_half_kilobytes() {
    assert_eq!(format_size(1536), "1.5 KB");
}

#[test]
fn size_rounds_ties_to_even() {
    // 1280 bytes is exactly 1.25 KB; one decimal digit rounds to the even
    // neighbour, as printing a binary fraction does.
    assert_eq!(format_size(1280), "1.2 KB");
    // 1344 bytes is exactly 1.3125 KB and rounds up to 1.3.
    assert_eq!(format_size(1344), "1.3 KB");
}

#[test]
fn size_one_megabyte() {
    assert_eq!(format_size(1024 * 1024), "1.0 MB");
}

#[test]
fn size_one_gigabyte() {
    assert_eq!(format_size(1024 * 1024 * 1024), "1.0 GB");
}

#[test]
fn size_one_terabyte() {
    assert_eq!(format_size(1024_u64.pow(4)), "1.0 TB");
}

#[test]
fn size_terabyte_is_ceiling_unit() {
    // 1024^5 bytes is not scaled past the last unit.
    assert_eq!(format_size(1024_u64.pow(5)), "1024.0 TB");
}

#[test]
fn size_largest_input() {
    // u64::MAX bytes: 16777216.0 TB, still rendered on the ceiling unit.
    assert_eq!(format_size(u64::MAX), "16777216.0 TB");
}

#[test]
fn decimal_renders_all_digits() {
    assert_eq!(decimal_string(0), "0");
    assert_eq!(decimal_string(42), "42");
    assert_eq!(decimal_string(9876543210), "9876543210");
}

#[test]
fn indentation_grows_past_first_level() {
    assert_eq!(indent_for(0), "");
    assert_eq!(indent_for(1), "");
    assert_eq!(indent_for(2), "  ");
    assert_eq!(indent_for(4), "      ");
}

#[test]
fn timestamp_pads_every_field() {
    let t = Timestamp { year: 2024, month: 3, day: 7, hour: 9, minute: 5 };
    assert_eq!(format_timestamp(&t), "2024-03-07 09:05");
}

#[test]
fn timestamp_pads_small_year() {
    let t = Timestamp { year: 99, month: 12, day: 31, hour: 23, minute: 59 };
    assert_eq!(format_timestamp(&t), "0099-12-31 23:59");
}
