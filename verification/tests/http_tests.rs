use replaytrim::http::{
    content_range, parse_byte_range, plan_video_reply, resolve_range, unsatisfied_range, RangeReply,
};

#[test]
fn byte_range_with_start_and_end() {
    assert_eq!(parse_byte_range("bytes=0-499"), Some((0, Some(499))));
    assert_eq!(parse_byte_range("bytes=500-999"), Some((500, Some(999))));
}

#[test]
fn byte_range_with_open_end() {
    assert_eq!(parse_byte_range("bytes=1024-"), Some((1024, None)));
}

#[test]
fn byte_range_accepts_plus_sign_like_usize_parsing() {
    assert_eq!(parse_byte_range("bytes=+5-+7"), Some((5, Some(7))));
    assert_eq!(parse_byte_range("bytes=007-"), Some((7, None)));
}

#[test]
fn byte_range_rejects_malformed_headers() {
    assert_eq!(parse_byte_range("items=0-1"), None);
    assert_eq!(parse_byte_range("bytes=5"), None);
    assert_eq!(parse_byte_range("bytes=-5"), None);
    assert_eq!(parse_byte_range("bytes=a-5"), None);
    assert_eq!(parse_byte_range("bytes=1-x"), None);
    assert_eq!(parse_byte_range("bytes=0-1,5-6"), None);
    assert_eq!(parse_byte_range("bytes=+-1"), None);
    assert_eq!(parse_byte_range("bytes=99999999999999999999999-"), None);
    assert_eq!(parse_byte_range(""), None);
}

#[test]
fn byte_range_round_trip() {
    for (start, end) in [(0usize, Some(0usize)), (17, Some(4096)), (usize::MAX, None), (123, None)] {
        let header = match end {
            Some(e) => format!("bytes={}-{}", start, e),
            None => format!("bytes={}-", start),
        };
        assert_eq!(parse_byte_range(&header), Some((start, end)));
    }
}

#[test]
fn range_resolution() {
    assert_eq!(resolve_range(None, 100), RangeReply::Whole);
    assert_eq!(resolve_range(Some((10, Some(20))), 100), RangeReply::Partial { start: 10, end: 20 });
    assert_eq!(resolve_range(Some((10, None)), 100), RangeReply::Partial { start: 10, end: 99 });
    assert_eq!(resolve_range(Some((10, Some(5000))), 100), RangeReply::Partial { start: 10, end: 99 });
    assert_eq!(resolve_range(Some((100, None)), 100), RangeReply::Unsatisfiable);
    assert_eq!(resolve_range(Some((30, Some(20))), 100), RangeReply::Unsatisfiable);
    assert_eq!(resolve_range(Some((0, None)), 0), RangeReply::Unsatisfiable);
    assert_eq!(resolve_range(Some((0, Some(0))), 1), RangeReply::Partial { start: 0, end: 0 });
}

#[test]
fn unreadable_range_header_serves_whole_file() {
    assert_eq!(plan_video_reply(Some("bytes=zz"), 50), RangeReply::Whole);
    assert_eq!(plan_video_reply(None, 50), RangeReply::Whole);
    assert_eq!(plan_video_reply(Some("bytes=40-"), 50), RangeReply::Partial { start: 40, end: 49 });
}

#[test]
fn content_range_headers() {
    assert_eq!(content_range(0, 499, 1234), "bytes 0-499/1234");
    assert_eq!(unsatisfied_range(1234), "bytes */1234");
    assert_eq!(unsatisfied_range(0), "bytes */0");
}
