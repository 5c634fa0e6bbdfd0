use muna::transfer::{
    content_range_total, download_ranges, download_temp_name, hex_lower, multipart_part_count, part_file_name,
    part_offset, resource_url, retryable_status, timestamp_text, unix_seconds, upload_next_step, uses_multipart,
    uuid_from_nanos, UploadAction, UploadOutcome, DOWNLOAD_CHUNK_SIZE,
};

#[test]
fn download_ranges_cover_the_resource() {
    assert!(download_ranges(0).is_empty());
    assert_eq!(download_ranges(1), vec![(0, 0, 0)]);
    let c = DOWNLOAD_CHUNK_SIZE;
    assert_eq!(download_ranges(c), vec![(0, 0, c - 1)]);
    assert_eq!(download_ranges(c + 1), vec![(0, 0, c - 1), (1, c, c)]);
    let ranges = download_ranges(3 * c + 17);
    assert_eq!(ranges.len(), 4);
    assert_eq!(ranges[3], (3, 3 * c, 3 * c + 16));
    for pair in ranges.windows(2) {
        assert_eq!(pair[1].1, pair[0].2 + 1);
    }
}

#[test]
fn multipart_uploads_start_at_the_threshold() {
    assert!(!uses_multipart(100 * 1024 * 1024 - 1));
    assert!(uses_multipart(100 * 1024 * 1024));
    assert_eq!(multipart_part_count(0), 0);
    assert_eq!(multipart_part_count(1), 1);
    assert_eq!(multipart_part_count(50 * 1024 * 1024), 1);
    assert_eq!(multipart_part_count(100 * 1024 * 1024 + 1), 3);
    assert_eq!(part_offset(2), 100 * 1024 * 1024);
}

#[test]
fn failed_part_uploads_back_off_and_give_up() {
    assert_eq!(upload_next_step(0, 5, UploadOutcome::Uploaded("etag".to_string())), UploadAction::Done("etag".to_string()));
    assert_eq!(upload_next_step(0, 5, UploadOutcome::Status(503)), UploadAction::RetryAfter(1));
    assert_eq!(upload_next_step(3, 5, UploadOutcome::Transport), UploadAction::RetryAfter(8));
    assert_eq!(upload_next_step(4, 5, UploadOutcome::Transport), UploadAction::Fail);
    assert_eq!(upload_next_step(0, 5, UploadOutcome::Status(403)), UploadAction::Fail);
    assert_eq!(upload_next_step(0, 1, UploadOutcome::Status(500)), UploadAction::Fail);
    for status in [400, 408, 429, 500, 502, 503, 504] {
        assert!(retryable_status(status));
    }
    assert!(!retryable_status(404));
    assert!(!retryable_status(501));
}

#[test]
fn content_range_gives_the_total_size() {
    assert_eq!(content_range_total("bytes 0-0/1234"), Some(1234));
    assert_eq!(content_range_total("bytes 0-0/*"), None);
    assert_eq!(content_range_total("42"), Some(42));
    assert_eq!(content_range_total("a/b/+7"), Some(7));
    assert_eq!(content_range_total("bytes 0-0/"), None);
}

#[test]
fn temporary_names_sit_beside_the_destination() {
    assert_eq!(download_temp_name(Some("model.bin"), 123), ".model.bin.123.part");
    assert_eq!(download_temp_name(None, u128::MAX), format!(".resource.{}.part", u128::MAX));
    assert_eq!(part_file_name(Some("model.bin"), 7), ".model.bin.part7");
    assert_eq!(resource_url("abc"), "https://cdn.fxn.ai/resources/abc");
}

#[test]
fn digests_and_identifiers_are_lowercase_hex() {
    assert_eq!(hex_lower(&[0x00, 0x0f, 0xab, 0xff]), "000fabff");
    assert_eq!(hex_lower(&[]), "");
    let t: u128 = 0x0123_4567_89ab_cdef_0011_2233;
    let expected = format!("{:016x}", (t ^ (t >> 32)) as u64);
    assert_eq!(uuid_from_nanos(t), expected);
    assert_eq!(uuid_from_nanos(0), "0000000000000000");
}

#[test]
fn timestamps_clamp_and_print() {
    assert_eq!(unix_seconds(5), 5);
    assert_eq!(unix_seconds(u64::MAX), i64::MAX);
    assert_eq!(timestamp_text(1_789_936_000), "1789936000");
    assert_eq!(timestamp_text(-5), "-5");
}
