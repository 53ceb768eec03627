use parcp::render::{block_column, block_count};

#[test]
fn column_scales_offset_to_terminal_width() {
    assert_eq!(block_column(2, 80, 50, 100), 42);
}

#[test]
fn column_starts_at_base_for_offset_zero() {
    assert_eq!(block_column(5, 80, 0, 100), 5);
}

#[test]
fn column_stays_inside_the_terminal() {
    assert_eq!(block_column(0, 80, 99, 100), 79);
}

#[test]
fn count_scales_bytes_to_terminal_width() {
    assert_eq!(block_count(80, 10, 100), 8);
}

#[test]
fn count_is_at_least_one_for_tiny_writes() {
    assert_eq!(block_count(80, 1, 1000), 1);
}

#[test]
fn count_covers_whole_width_for_whole_file() {
    assert_eq!(block_count(80, 100, 100), 80);
}
