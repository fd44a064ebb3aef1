use kibi::size::format_size;

#[test]
fn format_size_output() {
    assert_eq!(format_size(0), "0B");
    assert_eq!(format_size(1), "1B");
    assert_eq!(format_size(1023), "1023B");
    assert_eq!(format_size(1024), "1.00kB");
    assert_eq!(format_size(1536), "1.50kB");
    // round down!
    assert_eq!(format_size(21 * 1024 - 11), "20.98kB");
    assert_eq!(format_size(21 * 1024 - 10), "20.99kB");
    assert_eq!(format_size(21 * 1024 - 3), "20.99kB");
    assert_eq!(format_size(21 * 1024), "21.00kB");
    assert_eq!(format_size(21 * 1024 + 3), "21.00kB");
    assert_eq!(format_size(21 * 1024 + 10), "21.00kB");
    assert_eq!(format_size(21 * 1024 + 11), "21.01kB");
    assert_eq!(format_size(1024 * 1024 - 1), "1023.99kB");
    assert_eq!(format_size(1024 * 1024), "1.00MB");
    assert_eq!(format_size(1024 * 1024 + 1), "1.00MB");
    assert_eq!(format_size(100 * 1024 * 1024 * 1024), "100.00GB");
    assert_eq!(format_size(313 * 1024 * 1024 * 1024 * 1024), "313.00TB");
}

#[test]
fn largest_size_that_can_be_shown() {
    assert_eq!(format_size(u64::MAX / 100), "163.83PB");
}
