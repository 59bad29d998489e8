use headers::{HeaderMap, HeaderValue};
use http_downloader::{
    header_fields, ChunkAction, ChunkDownload, ChunkEvent, ChunkInfo, ChunkItem, ChunkRange,
    DownloadingEndCause, ETag, HttpRequest, HttpVersion,
};

fn chunk(start: u64, end: u64) -> ChunkInfo {
    ChunkInfo { index: 1, range: ChunkRange::new(start, end) }
}

fn tag(text: &str) -> Option<ETag> {
    Some(ETag { value: text.as_bytes().to_vec() })
}

fn fields(pairs: &[(&'static str, &'static str)]) -> HeaderMap {
    let mut map = HeaderMap::new();
    for (name, value) in pairs {
        map.append(*name, HeaderValue::from_static(value));
    }
    map
}

#[test]
fn item_counts_what_comes() {
    let mut item = ChunkItem::new(chunk(10, 19));
    assert_eq!(item.downloaded_len, 0);
    item.add_downloaded_len(4);
    item.add_downloaded_len(6);
    assert_eq!(item.downloaded_len, 10);
    assert_eq!(item.chunk_info.index, 1);
}

#[test]
fn bytes_are_kept_in_order_and_written_at_the_start_of_the_chunk() {
    let mut download = ChunkDownload::new(chunk(100, 105), None, 3);
    let action = download.download_chunk(&ChunkEvent::Response { etag: None });
    assert!(matches!(action, ChunkAction::ReadBody));
    let action = download.download_chunk(&ChunkEvent::Bytes(vec![1, 2]));
    assert!(matches!(action, ChunkAction::CountAndReadBody(2)));
    let action = download.download_chunk(&ChunkEvent::Bytes(vec![3, 4, 5, 6]));
    assert!(matches!(action, ChunkAction::CountAndReadBody(4)));
    let action = download.download_chunk(&ChunkEvent::BodyEnded);
    assert!(matches!(
        action,
        ChunkAction::WriteAndEnd(100, DownloadingEndCause::DownloadFinished)
    ));
    assert_eq!(download.chunk_bytes(), &vec![1, 2, 3, 4, 5, 6]);
}

#[test]
fn a_cancelled_chunk_writes_what_came() {
    let mut download = ChunkDownload::new(chunk(100, 105), None, 3);
    download.download_chunk(&ChunkEvent::Bytes(vec![9]));
    let action = download.download_chunk(&ChunkEvent::Cancelled);
    assert!(matches!(action, ChunkAction::WriteAndEnd(100, DownloadingEndCause::Cancelled)));
    assert_eq!(download.chunk_bytes(), &vec![9]);
}

#[test]
fn a_broken_body_is_asked_for_from_where_it_broke() {
    let mut download = ChunkDownload::new(chunk(100, 109), None, 1);
    download.download_chunk(&ChunkEvent::Bytes(vec![0; 4]));
    match download.download_chunk(&ChunkEvent::BodyFailed) {
        ChunkAction::Request(range) => assert_eq!((range.start, range.end), (104, 109)),
        _ => panic!("a new request was due"),
    }
    let action = download.download_chunk(&ChunkEvent::BodyFailed);
    assert!(matches!(action, ChunkAction::WriteAndFailRequest(100)));
}

#[test]
fn a_response_makes_up_for_failures() {
    let mut download = ChunkDownload::new(chunk(0, 9), None, 1);
    for _ in 0..5 {
        let action = download.download_chunk(&ChunkEvent::RequestFailed);
        assert!(matches!(action, ChunkAction::Request(_)));
        download.download_chunk(&ChunkEvent::Response { etag: None });
    }
    download.download_chunk(&ChunkEvent::RequestFailed);
    let action = download.download_chunk(&ChunkEvent::RequestFailed);
    assert!(matches!(action, ChunkAction::WriteAndFailRequest(0)));
}

#[test]
fn no_retry_means_the_first_failure_counts() {
    let mut download = ChunkDownload::new(chunk(0, 9), None, 0);
    let action = download.download_chunk(&ChunkEvent::RequestFailed);
    assert!(matches!(action, ChunkAction::WriteAndFailRequest(0)));
}

#[test]
fn a_failed_request_writes_what_came_before() {
    let mut download = ChunkDownload::new(chunk(100, 109), None, 1);
    download.download_chunk(&ChunkEvent::Bytes(vec![1, 2, 3]));
    let action = download.download_chunk(&ChunkEvent::BodyFailed);
    assert!(matches!(action, ChunkAction::Request(_)));
    let action = download.download_chunk(&ChunkEvent::RequestFailed);
    assert!(matches!(action, ChunkAction::WriteAndFailRequest(100)));
    assert_eq!(download.chunk_bytes(), &vec![1, 2, 3]);
}

#[test]
fn another_tag_means_another_file() {
    let mut download = ChunkDownload::new(chunk(0, 9), tag("\"a\""), 3);
    let action = download.download_chunk(&ChunkEvent::Response { etag: tag("\"a\"") });
    assert!(matches!(action, ChunkAction::ReadBody));
    let action = download.download_chunk(&ChunkEvent::Response { etag: tag("\"b\"") });
    assert!(matches!(action, ChunkAction::FailServerFileChanged));
    let action = download.download_chunk(&ChunkEvent::Response { etag: None });
    assert!(matches!(action, ChunkAction::FailServerFileChanged));
}

#[test]
fn tags_are_read_from_the_response() {
    let mut download = ChunkDownload::new(chunk(0, 9), tag("\"a\""), 3);
    let same = fields(&[("etag", "\"a\"")]);
    assert!(matches!(download.meet_response(&same), ChunkAction::ReadBody));
    let weak = fields(&[("etag", "W/\"a\"")]);
    assert!(matches!(download.meet_response(&weak), ChunkAction::FailServerFileChanged));
    let twice = fields(&[("etag", "\"a\""), ("etag", "\"a\"")]);
    assert!(matches!(download.meet_response(&twice), ChunkAction::FailServerFileChanged));
    assert!(matches!(download.meet_response(&fields(&[])), ChunkAction::FailServerFileChanged));
    let mut careless = ChunkDownload::new(chunk(0, 9), None, 3);
    assert!(matches!(careless.meet_response(&weak), ChunkAction::ReadBody));
}

#[test]
fn a_tag_is_quoted_and_may_have_blanks() {
    let tag = header_fields::response_etag(&fields(&[("etag", "\"a b\"")]));
    assert_eq!(tag.unwrap().value, b"\"a b\"".to_vec());
    let tag = header_fields::response_etag(&fields(&[("etag", "W/\"\ta\"")]));
    assert_eq!(tag.unwrap().value, b"W/\"\ta\"".to_vec());
    assert!(header_fields::response_etag(&fields(&[("etag", "\"a b\"c\"")])).is_none());
    assert!(header_fields::response_etag(&fields(&[("etag", "\"a\" b\"")])).is_none());
    assert!(header_fields::response_etag(&fields(&[("etag", "a b")])).is_none());
    assert!(header_fields::response_etag(&fields(&[])).is_none());
    let tag = header_fields::response_etag(&fields(&[("etag", "W/\"x\"")]));
    assert_eq!(tag.unwrap().value, b"W/\"x\"".to_vec());
    assert!(header_fields::response_etag(&fields(&[("etag", "x")])).is_none());
    assert!(header_fields::response_etag(&fields(&[("etag", "\"x\"y\"")])).is_none());
}

#[test]
fn a_request_asks_for_what_is_missing() {
    let mut download = ChunkDownload::new(chunk(100, 109), None, 1);
    let mut request = HttpRequest {
        method: "GET".to_string(),
        version: HttpVersion::Http10,
        timeout: Some(5),
        url: "https://example.net/".to_string(),
        headers: fields(&[("range", "bytes=1-2"), ("accept", "*/*")]),
    };
    download.ask_for_missing(&mut request);
    assert_eq!(request.headers.get("range").unwrap(), "bytes=100-109");
    assert_eq!(request.headers.get_all("range").iter().count(), 1);
    download.download_chunk(&ChunkEvent::Bytes(vec![0; 3]));
    download.ask_for_missing(&mut request);
    assert_eq!(request.headers.get("range").unwrap(), "bytes=103-109");
    assert_eq!(request.headers.get("accept").unwrap(), "*/*");
    assert_eq!(request.url, "https://example.net/");
    assert_eq!(request.method, "GET");
    assert_eq!(request.version, HttpVersion::Http10);
    assert_eq!(request.timeout, Some(5));
}

#[test]
fn tags_are_compared_byte_by_byte() {
    assert!(header_fields::same_tag(&None, &None));
    assert!(header_fields::same_tag(&tag("\"a\""), &tag("\"a\"")));
    assert!(!header_fields::same_tag(&tag("\"a\""), &tag("\"A\"")));
    assert!(!header_fields::same_tag(&tag("\"a\""), &tag("\"ab\"")));
    assert!(!header_fields::same_tag(&tag("\"a\""), &None));
    assert!(header_fields::same_tag(&header_fields::copy_tag(&tag("\"a\"")), &tag("\"a\"")));
}

#[test]
fn a_body_that_ends_early_is_written_as_it_is() {
    let mut download = ChunkDownload::new(chunk(100, 109), None, 1);
    download.download_chunk(&ChunkEvent::Bytes(vec![1, 2]));
    let action = download.download_chunk(&ChunkEvent::BodyEnded);
    assert!(matches!(
        action,
        ChunkAction::WriteAndEnd(100, DownloadingEndCause::DownloadFinished)
    ));
    assert_eq!(download.chunk_bytes(), &vec![1, 2]);
}
