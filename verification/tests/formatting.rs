use rusthttp::{format_duration, format_size, status_message};

#[test]
fn durations_below_a_second_print_milliseconds() {
    assert_eq!(format_duration(0), "0ms");
    assert_eq!(format_duration(1), "1ms");
    assert_eq!(format_duration(999), "999ms");
}

#[test]
fn durations_below_a_minute_print_seconds_with_two_decimals() {
    assert_eq!(format_duration(1000), "1.00s");
    assert_eq!(format_duration(1500), "1.50s");
    assert_eq!(format_duration(59999), "60.00s");
}

#[test]
fn longer_durations_print_minutes_with_two_decimals() {
    assert_eq!(format_duration(60000), "1.00m");
    assert_eq!(format_duration(90000), "1.50m");
    assert_eq!(format_duration(3600000), "60.00m");
}

#[test]
fn sizes_below_a_kilobyte_print_bytes() {
    assert_eq!(format_size(0), "0 B");
    assert_eq!(format_size(1), "1 B");
    assert_eq!(format_size(1023), "1023 B");
}

#[test]
fn larger_sizes_scale_with_two_decimals() {
    assert_eq!(format_size(1024), "1.00 KB");
    assert_eq!(format_size(1536), "1.50 KB");
    assert_eq!(format_size(1048576), "1.00 MB");
    assert_eq!(format_size(1572864), "1.50 MB");
    assert_eq!(format_size(1073741824), "1.00 GB");
}

#[test]
fn kilobytes_can_round_up_to_the_full_unit() {
    assert_eq!(format_size(1048575), "1024.00 KB");
}

#[test]
fn known_status_codes_have_their_phrase() {
    assert_eq!(status_message(200), "OK");
    assert_eq!(status_message(201), "Created");
    assert_eq!(status_message(204), "No Content");
    assert_eq!(status_message(400), "Bad Request");
    assert_eq!(status_message(401), "Unauthorized");
    assert_eq!(status_message(403), "Forbidden");
    assert_eq!(status_message(404), "Not Found");
    assert_eq!(status_message(500), "Internal Server Error");
    assert_eq!(status_message(502), "Bad Gateway");
    assert_eq!(status_message(503), "Service Unavailable");
}

#[test]
fn unknown_status_codes_get_the_generic_phrase() {
    assert_eq!(status_message(299), "Unknown Status");
    assert_eq!(status_message(418), "Unknown Status");
    assert_eq!(status_message(999), "Unknown Status");
}

#[test]
fn the_largest_duration_still_formats() {
    assert_eq!(format_duration(u64::MAX), "307445734561825.86m");
}
