use file_server::range::{
    build_content_range_header_str, get_ranges, get_start_end, get_window, get_window_range,
};

#[test]
fn range_window_is_read() {
    assert_eq!(get_ranges("bytes=100-199"), Some(vec![(Some(100), Some(199))]));
}

#[test]
fn range_prefix_is_read() {
    assert_eq!(get_ranges("bytes=100-"), Some(vec![(Some(100), None)]));
}

#[test]
fn range_suffix_is_read() {
    assert_eq!(get_ranges("bytes=-50"), Some(vec![(None, Some(50))]));
}

#[test]
fn range_list_keeps_its_order() {
    assert_eq!(
        get_ranges("bytes=0-0, 5-10 ,-3,7-"),
        Some(vec![(Some(0), Some(0)), (Some(5), Some(10)), (None, Some(3)), (Some(7), None)])
    );
}

#[test]
fn range_header_is_trimmed() {
    assert_eq!(get_ranges("  bytes=1-2\t"), Some(vec![(Some(1), Some(2))]));
    assert_eq!(get_ranges("bytes= 1-2"), Some(vec![(Some(1), Some(2))]));
}

#[test]
fn range_with_leading_zeros_is_read() {
    assert_eq!(get_ranges("bytes=007-0010"), Some(vec![(Some(7), Some(10))]));
}

#[test]
fn range_equal_bounds_are_accepted() {
    assert_eq!(get_ranges("bytes=5-5"), Some(vec![(Some(5), Some(5))]));
}

#[test]
fn range_start_behind_end_is_refused() {
    assert_eq!(get_ranges("bytes=5-2"), None);
}

#[test]
fn range_one_bad_unit_refuses_the_header() {
    assert_eq!(get_ranges("bytes=0-1,9-3"), None);
    assert_eq!(get_ranges("bytes=0-1,x"), None);
    assert_eq!(get_ranges("bytes=0-1,"), None);
    assert_eq!(get_ranges("bytes=0-1,,2-3"), None);
}

#[test]
fn range_malformed_headers_are_refused() {
    assert_eq!(get_ranges(""), None);
    assert_eq!(get_ranges("bytes"), None);
    assert_eq!(get_ranges("bytes="), None);
    assert_eq!(get_ranges("bytes=-"), None);
    assert_eq!(get_ranges("bytes=a-b"), None);
    assert_eq!(get_ranges("bytes=1-2-3"), None);
    assert_eq!(get_ranges("bytes=-1-"), None);
    assert_eq!(get_ranges("bytes=--1"), None);
    assert_eq!(get_ranges("bytes=1 - 2"), None);
    assert_eq!(get_ranges("bytes=+1-2"), None);
    assert_eq!(get_ranges("bytes=12"), None);
    assert_eq!(get_ranges("bits=1-2"), None);
    assert_eq!(get_ranges("Bytes=1-2"), None);
    assert_eq!(get_ranges("bytes =1-2"), None);
}

#[test]
fn range_number_too_large_is_refused() {
    assert_eq!(get_ranges("bytes=99999999999999999999999999999999999999999-"), None);
    let max = usize::MAX;
    assert_eq!(get_ranges(&format!("bytes={}-", max)), Some(vec![(Some(max), None)]));
    assert_eq!(get_ranges(&format!("bytes=-{}0", max)), None);
}

#[test]
fn window_range_reads_two_numbers() {
    assert_eq!(get_window_range("3-9"), Some((Some(3), Some(9))));
    assert_eq!(get_window_range("9-9"), Some((Some(9), Some(9))));
    assert_eq!(get_window_range("9-3"), None);
    assert_eq!(get_window_range("3-"), None);
    assert_eq!(get_window_range("-9"), None);
    assert_eq!(get_window_range("39"), None);
    assert_eq!(get_window_range("3-9-1"), None);
    assert_eq!(get_window_range(""), None);
}

#[test]
fn window_of_an_explicit_range() {
    assert_eq!(get_start_end(&vec![(Some(100), Some(199))], 1000), Some((100, 200)));
    assert_eq!(get_start_end(&vec![(Some(0), Some(999))], 1000), Some((0, 1000)));
    assert_eq!(get_start_end(&vec![(Some(0), Some(0))], 1000), Some((0, 1)));
}

#[test]
fn window_of_a_suffix_range() {
    assert_eq!(get_start_end(&vec![(None, Some(50))], 1000), Some((950, 1000)));
    assert_eq!(get_start_end(&vec![(None, Some(1000))], 1000), Some((0, 1000)));
    assert_eq!(get_start_end(&vec![(None, Some(5000))], 1000), Some((0, 1000)));
    assert_eq!(get_start_end(&vec![(None, Some(0))], 1000), Some((1000, 1000)));
}

#[test]
fn window_of_a_prefix_range() {
    assert_eq!(get_start_end(&vec![(Some(100), None)], 1000), Some((100, 1000)));
    assert_eq!(get_start_end(&vec![(Some(1000), None)], 1000), Some((1000, 1000)));
    assert_eq!(get_start_end(&vec![(Some(1001), None)], 1000), None);
}

#[test]
fn window_out_of_bounds_is_refused() {
    assert_eq!(get_start_end(&vec![(Some(2000), Some(3000))], 1000), None);
    assert_eq!(get_start_end(&vec![(Some(0), Some(1000))], 1000), None);
    assert_eq!(get_start_end(&vec![(Some(5), Some(3))], 1000), None);
    assert_eq!(get_start_end(&vec![(Some(0), Some(usize::MAX))], usize::MAX), None);
    assert_eq!(get_start_end(&vec![(None, None)], 1000), None);
    assert_eq!(get_start_end(&vec![], 1000), None);
}

#[test]
fn window_of_the_first_range_only() {
    assert_eq!(
        get_start_end(&vec![(Some(1), Some(2)), (Some(2000), None)], 1000),
        Some((1, 3))
    );
}

#[test]
fn window_of_one_range() {
    assert_eq!(get_window(&(Some(10), Some(19)), 20), Some((10, 20)));
    assert_eq!(get_window(&(Some(10), Some(20)), 20), None);
    assert_eq!(get_window(&(None, Some(1)), 0), Some((0, 0)));
}

#[test]
fn content_range_is_written_in_decimal() {
    assert_eq!(build_content_range_header_str(&100, &199, &1000), "bytes 100-199/1000");
    assert_eq!(build_content_range_header_str(&0, &0, &1), "bytes 0-0/1");
    assert_eq!(build_content_range_header_str(&950, &999, &1000), "bytes 950-999/1000");
    assert_eq!(
        build_content_range_header_str(&9, &10, &1234567890),
        "bytes 9-10/1234567890"
    );
}

#[test]
fn content_range_is_read_back() {
    let header = build_content_range_header_str(&407, &8190, &8191);
    let inner = header.strip_prefix("bytes ").unwrap();
    let (window, size) = inner.split_once('/').unwrap();
    assert_eq!(get_window_range(window), Some((Some(407), Some(8190))));
    assert_eq!(size, "8191");
}
