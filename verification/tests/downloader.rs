use headers::{HeaderMap, HeaderValue};
use http_downloader::downloader_builder::choose_file_name;
use http_downloader::{
    ChangeChunkSizeError, ChangeConnectionCountError, ChunkData, ChunkInfo, ChunkRange,
    DirectoryStep, DownloadArchiveData, DownloadError, DownloadStartError, DownloadWay,
    DownloadingState, ETag, ExtendedHttpFileDownloader, HttpDownloaderBuilder, HttpFileDownloader,
    HttpRedirectionHandle, HttpRequest, HttpResponseInvalidCause, HttpVersion, RemainingChunks,
    RequestError, RequestStep, ResponseInfo, SingleDownload, UrlFileName,
};

fn sync_send<T: Send>() {}

fn sync_sync<T: Sync>() {}

#[test]
fn assert_sync_send() {
    sync_send::<HttpFileDownloader>();
    sync_sync::<HttpFileDownloader>();
    sync_send::<ExtendedHttpFileDownloader<HttpFileDownloader, ()>>();
    sync_sync::<ExtendedHttpFileDownloader<HttpFileDownloader, ()>>();
}

fn builder() -> HttpDownloaderBuilder {
    HttpDownloaderBuilder::new("https://example.net/a/file.bin".to_string(), "/tmp/d".to_string())
}

fn fields(pairs: &[(&'static str, &'static str)]) -> HeaderMap {
    let mut map = HeaderMap::new();
    for (name, value) in pairs {
        map.append(*name, HeaderValue::from_static(value));
    }
    map
}

fn tag(text: &str) -> Option<ETag> {
    Some(ETag { value: text.as_bytes().to_vec() })
}

fn ranges_response(content_length: u64) -> ResponseInfo {
    ResponseInfo { etag: None, content_length: Some(content_length), serves_ranges: true }
}

#[test]
fn a_builder_begins_with_defaults() {
    let config = builder().build(()).0.inner.config;
    assert_eq!(config.chunk_size, 4 * 1024 * 1024);
    assert_eq!(config.download_connection_count, 3);
    assert_eq!(config.request_retry_count, 3);
    assert_eq!(config.file_name, "file.bin");
    assert_eq!(config.url, "https://example.net/a/file.bin");
    assert_eq!(config.save_dir, "/tmp/d");
    assert!(config.create_dir);
    assert!(!config.set_len_in_advance);
    assert!(config.etag.is_none());
    assert!(config.header_map.is_empty());
    assert_eq!(config.downloaded_len_send_interval, Some(300 * 1_000_000));
    assert_eq!(config.chunks_send_interval, Some(300 * 1_000_000));
    assert!(!config.handle_zero_content);
    assert!(config.strict_check_accept_ranges);
    assert_eq!(config.handle_redirection, HttpRedirectionHandle::Invalid);
}

#[test]
fn a_builder_takes_settings() {
    let config = builder()
        .chunk_size(7)
        .download_connection_count(9)
        .request_retry_count(1)
        .file_name(Some("other".to_string()))
        .create_dir(false)
        .set_len_in_advance(true)
        .etag(tag("\"x\""))
        .header_map(fields(&[("x-a", "1")]))
        .downloaded_len_send_interval(None)
        .chunks_send_interval(Some(5))
        .handle_zero_content(true)
        .strict_check_accept_ranges(false)
        .handle_redirection(HttpRedirectionHandle::RequestNewLocation { max_times: 2 })
        .build(()).0.inner
        .config;
    assert_eq!(config.chunk_size, 7);
    assert_eq!(config.download_connection_count, 9);
    assert_eq!(config.request_retry_count, 1);
    assert_eq!(config.file_name, "other");
    assert!(!config.create_dir);
    assert!(config.set_len_in_advance);
    assert_eq!(config.etag.unwrap().value, b"\"x\"".to_vec());
    assert_eq!(config.header_map.get("x-a").unwrap(), "1");
    assert_eq!(config.downloaded_len_send_interval, None);
    assert_eq!(config.chunks_send_interval, Some(5));
    assert!(config.handle_zero_content);
    assert!(!config.strict_check_accept_ranges);
    assert_eq!(
        config.handle_redirection,
        HttpRedirectionHandle::RequestNewLocation { max_times: 2 }
    );
}

#[test]
fn a_file_is_named_after_the_end_of_its_url() {
    let name = |url: &str| url.to_string().file_name();
    assert_eq!(name("https://example.net/a/b.zip"), "b.zip");
    assert_eq!(name("https://example.net/a/b.zip?x=1/2#y"), "b.zip");
    assert_eq!(name("https://example.net/a/"), "index.html");
    assert_eq!(name("https://example.net"), "index.html");
    assert_eq!(name("data:text/plain,HelloWorld"), "index.html");
    assert_eq!(name("https://example.net/a b"), "a%20b");
    assert_eq!(name("not a url"), "index.html");
}

#[test]
fn a_name_is_chosen_from_parts_and_domain() {
    let parts = |list: &[&str]| Some(list.iter().map(|p| p.to_string()).collect::<Vec<_>>());
    let domain = Some("example.net".to_string());
    assert_eq!(choose_file_name(parts(&["a", "b"]), domain.clone()), "b");
    assert_eq!(choose_file_name(parts(&["a", ""]), domain.clone()), "index.html");
    assert_eq!(choose_file_name(parts(&[]), domain.clone()), "example.net");
    assert_eq!(choose_file_name(parts(&[]), None), "index.html");
    assert_eq!(choose_file_name(None, domain), "index.html");
}

#[test]
fn a_file_is_saved_in_its_directory() {
    let path = builder().build(()).0.inner.get_file_path();
    assert!(path == "/tmp/d/file.bin" || path == "/tmp/d\\file.bin");
    let builder = HttpDownloaderBuilder::new(
        "https://example.net/file.bin".to_string(),
        "/tmp/d/".to_string(),
    );
    assert_eq!(builder.build(()).0.inner.config.file_path(), "/tmp/d/file.bin");
    let builder =
        HttpDownloaderBuilder::new("https://example.net/file.bin".to_string(), String::new());
    assert_eq!(builder.build(()).0.inner.config.file_path(), "file.bin");
}

#[test]
fn a_request_has_common_and_own_fields() {
    let config = builder()
        .header_map(fields(&[("x-a", "1"), ("accept", "text/html"), ("x-a", "2")]))
        .build(()).0.inner
        .config;
    let request = config.create_http_request(None).unwrap();
    assert_eq!(request.method, "GET");
    assert_eq!(request.version, HttpVersion::Http11);
    assert_eq!(request.timeout, None);
    assert_eq!(request.url, "https://example.net/a/file.bin");
    assert_eq!(request.headers.keys_len(), 3);
    assert_eq!(request.headers.get("accept").unwrap(), "text/html");
    assert_eq!(request.headers.get("connection").unwrap(), "keep-alive");
    assert_eq!(request.headers.get_all("x-a").iter().count(), 1);
    assert_eq!(request.headers.get("x-a").unwrap(), "2");
}

#[test]
fn a_request_without_own_fields_takes_everything() {
    let config = builder().build(()).0.inner.config;
    let request = config.create_http_request(Some("https://example.org/x")).unwrap();
    assert_eq!(request.url, "https://example.org/x");
    assert_eq!(request.headers.get("accept").unwrap(), "*/*");
    assert_eq!(request.headers.get("connection").unwrap(), "keep-alive");
    assert_eq!(request.headers.len(), 2);
}

#[test]
fn a_request_is_configured_once() {
    let config = builder().build(()).0.inner.config;
    let url = |request: HttpRequest| request.url;
    let add = |url: String| url + "#";
    let bare = config.create_configured_request(None, url, None::<fn(String) -> String>);
    assert_eq!(bare.unwrap(), "https://example.net/a/file.bin");
    let configured = config.create_configured_request(Some("https://example.org/x"), url, Some(add));
    assert_eq!(configured.unwrap(), "https://example.org/x#");
}

#[test]
fn a_request_needs_room_for_its_fields() {
    let config = builder().header_map(fields(&[("x-a", "1")])).build(()).0.inner.config;
    assert_eq!(config.try_create_http_request(None).unwrap().headers.len(), 3);
    let mut many = HeaderMap::new();
    for k in 0..7000 {
        let name = headers::HeaderName::from_bytes(format!("x-{}", k).as_bytes()).unwrap();
        many.insert(name, HeaderValue::from_static("1"));
    }
    let config = builder().header_map(many).build(()).0.inner.config;
    assert_eq!(config.try_create_http_request(None).err(), Some(RequestError::TooManyFields));
}

#[test]
fn a_location_is_seen_from_the_url_that_was_set_up() {
    let config = builder().build(()).0.inner.config;
    let url = |location: &str| config.create_http_request(Some(location)).map(|r| r.url);
    assert_eq!(url("other.bin").unwrap(), "https://example.net/a/other.bin");
    assert_eq!(url("/b").unwrap(), "https://example.net/b");
    assert_eq!(url("//example.org/c").unwrap(), "https://example.org/c");
    assert!(url("https://[").is_none());
    assert_eq!(
        config.try_create_http_request(Some("https://[")).err(),
        Some(RequestError::InvalidLocation)
    );
    let request = config.create_request_to("https://example.org/d".to_string());
    assert_eq!(request.url, "https://example.org/d");
    let mut downloader = builder().build(()).0.inner;
    assert_eq!(
        downloader.meet_location_invalid(),
        RequestStep::Fail(DownloadError::HttpRequestResponseInvalid(
            HttpResponseInvalidCause::RedirectionNoLocation
        ))
    );
    assert!(downloader.is_total_size_known);
}

#[test]
fn the_directory_is_created_or_checked() {
    assert_eq!(builder().build(()).0.inner.download(), Ok(DirectoryStep::Create));
    assert_eq!(builder().create_dir(false).build(()).0.inner.download(), Ok(DirectoryStep::Check));
    assert_eq!(HttpFileDownloader::meet_directory(DirectoryStep::Create, true), Ok(()));
    assert_eq!(
        HttpFileDownloader::meet_directory(DirectoryStep::Create, false),
        Err(DownloadStartError::FileCrateFailed)
    );
    assert_eq!(
        HttpFileDownloader::meet_directory(DirectoryStep::Check, false),
        Err(DownloadStartError::DirectoryDoesNotExist)
    );
}

#[test]
fn a_failed_request_is_tried_again() {
    let mut downloader = builder().request_retry_count(2).build(()).0.inner;
    let (mut state, step) = downloader.start_download();
    assert_eq!(step, RequestStep::Send);
    assert_eq!(downloader.meet_request_failed(&mut state), RequestStep::Send);
    assert_eq!(downloader.meet_request_failed(&mut state), RequestStep::Send);
    assert!(!downloader.is_total_size_known);
    assert_eq!(
        downloader.meet_request_failed(&mut state),
        RequestStep::Fail(DownloadError::HttpRequestFailed)
    );
    assert!(downloader.is_total_size_known);
}

#[test]
fn a_success_is_accepted() {
    let mut downloader = builder().build(()).0.inner;
    let (mut state, _) = downloader.start_download();
    assert_eq!(
        downloader.meet_request_response(&mut state, 200, &fields(&[])),
        RequestStep::Accept
    );
    assert_eq!(
        downloader.meet_request_response(&mut state, 206, &fields(&[])),
        RequestStep::Accept
    );
}

#[test]
fn other_statuses_are_no_success() {
    let unsuccessful = RequestStep::Fail(DownloadError::HttpRequestResponseInvalid(
        HttpResponseInvalidCause::StatusCodeUnsuccessful,
    ));
    for status in [100u16, 199, 300, 302, 399, 404, 500] {
        let mut downloader = builder().build(()).0.inner;
        let (mut state, _) = downloader.start_download();
        let step = downloader.meet_request_response(
            &mut state,
            status,
            &fields(&[("location", "https://example.org/")]),
        );
        assert_eq!(step, unsuccessful);
    }
}

#[test]
fn a_redirection_is_followed_so_often() {
    let mut downloader = builder()
        .handle_redirection(HttpRedirectionHandle::RequestNewLocation { max_times: 2 })
        .build(()).0.inner;
    let (mut state, step) = downloader.start_download();
    assert_eq!(step, RequestStep::Send);
    downloader.meet_request_failed(&mut state);
    assert_eq!(state.retry_count, 1);
    let elsewhere = fields(&[("location", "https://example.org/x"), ("location", "y")]);
    assert_eq!(
        downloader.meet_request_response(&mut state, 302, &elsewhere),
        RequestStep::Send
    );
    assert_eq!(state.location.as_deref(), Some("https://example.org/x"));
    assert_eq!(state.redirection_times, 1);
    assert_eq!(state.retry_count, 0);
    assert_eq!(
        downloader.meet_request_response(&mut state, 301, &elsewhere),
        RequestStep::Fail(DownloadError::RedirectionTimesTooMany)
    );
    assert!(downloader.is_total_size_known);
}

#[test]
fn no_redirection_at_all_means_no_request() {
    let mut downloader = builder()
        .handle_redirection(HttpRedirectionHandle::RequestNewLocation { max_times: 0 })
        .build(()).0.inner;
    let (_, step) = downloader.start_download();
    assert_eq!(step, RequestStep::Fail(DownloadError::RedirectionTimesTooMany));
}

#[test]
fn a_redirection_needs_a_location_in_printable_text() {
    let no_location = RequestStep::Fail(DownloadError::HttpRequestResponseInvalid(
        HttpResponseInvalidCause::RedirectionNoLocation,
    ));
    let mut strange = HeaderMap::new();
    strange.append("location", HeaderValue::from_bytes(b"https://example.org/\xe9").unwrap());
    for headers in [fields(&[]), strange] {
        let mut downloader = builder()
            .handle_redirection(HttpRedirectionHandle::RequestNewLocation { max_times: 2 })
            .build(()).0.inner;
        let (mut state, _) = downloader.start_download();
        assert_eq!(
            downloader.meet_request_response(&mut state, 302, &headers),
            no_location
        );
        assert!(state.location.is_none());
    }
}

#[test]
fn a_response_tells_of_the_file() {
    let mut downloader = builder().build(()).0.inner;
    let info = downloader
        .meet_response(&fields(&[
            ("content-length", "1234"),
            ("accept-ranges", "bytes"),
            ("etag", "\"x\""),
        ]))
        .unwrap();
    assert_eq!(info.content_length, Some(1234));
    assert!(info.serves_ranges);
    assert!(info.etag.is_none());
    assert_eq!(downloader.current_total_size(), Some(1234));
    assert!(!downloader.is_total_size_known);
}

#[test]
fn lengths_that_are_not_known_or_zero_are_none() {
    for pairs in [
        vec![],
        vec![("content-length", "0")],
        vec![("content-length", "12x")],
        vec![("content-length", "-1")],
        vec![("content-length", "1"), ("content-length", "2")],
        vec![("content-length", "18446744073709551616")],
    ] {
        let mut downloader = builder().build(()).0.inner;
        let info = downloader.meet_response(&fields(&pairs)).unwrap();
        assert_eq!(info.content_length, None);
        assert_eq!(downloader.current_total_size(), None);
    }
    let mut downloader = builder().build(()).0.inner;
    let twice = fields(&[("content-length", "7"), ("content-length", "+07")]);
    assert_eq!(downloader.meet_response(&twice).unwrap().content_length, Some(7));
}

#[test]
fn ranges_are_asked_for_where_they_are_served() {
    let serves = |strict: bool, pairs: &[(&'static str, &'static str)]| {
        builder()
            .strict_check_accept_ranges(strict)
            .build(()).0.inner
            .meet_response(&fields(pairs))
            .unwrap()
            .serves_ranges
    };
    assert!(serves(true, &[("accept-ranges", "bytes")]));
    assert!(!serves(true, &[]));
    assert!(!serves(true, &[("accept-ranges", "none")]));
    assert!(!serves(true, &[("accept-ranges", "bytes"), ("accept-ranges", "bytes")]));
    assert!(serves(false, &[("accept-ranges", "bytes")]));
    assert!(serves(false, &[]));
    assert!(!serves(false, &[("accept-ranges", "none")]));
}

#[test]
fn another_tag_than_the_one_set_up_ends_the_download() {
    for other in [vec![("etag", "\"y\"")], vec![("etag", "W/\"x\"")], vec![]] {
        let mut downloader = builder().etag(tag("\"x\"")).build(()).0.inner;
        assert_eq!(
            downloader.meet_response(&fields(&other)).err(),
            Some(DownloadError::ServerFileAlreadyChanged)
        );
        assert!(downloader.is_total_size_known);
    }
    let mut downloader = builder().etag(tag("\"x\"")).build(()).0.inner;
    let info = downloader.meet_response(&fields(&[("etag", "\"x\"")])).unwrap();
    assert_eq!(info.etag.unwrap().value, b"\"x\"".to_vec());
    assert!(!downloader.is_total_size_known);
    let mut downloader = builder().build(()).0.inner;
    let info = downloader.meet_response(&fields(&[("etag", "\"x\"")])).unwrap();
    assert!(info.etag.is_none());
}

#[test]
fn a_download_begins_by_chunks() {
    let mut downloader = builder().chunk_size(10).download_connection_count(2).build(()).0.inner;
    downloader.begin_download(ranges_response(25), None);
    assert!(downloader.is_downloading());
    assert!(downloader.is_total_size_known);
    assert_eq!(downloader.downloaded_len(), 0);
    let manager = downloader.get_chunk_manager().unwrap();
    assert_eq!(manager.chunk_iterator.content_length, 25);
    assert_eq!(manager.chunk_iterator.data.remaining_len(), 25);
    assert_eq!(manager.connection_count(), 2);
    assert_eq!(manager.retry_count, 3);
    assert!(downloader.get_chunks().is_empty());
    assert!(downloader.get_chunks_info().is_some());
    assert_eq!(downloader.get_downloading_state().unwrap().downloading_duration, 0);
}

#[test]
fn a_download_begins_by_the_body_without_ranges_or_length() {
    for response in [
        ResponseInfo { etag: None, content_length: Some(25), serves_ranges: false },
        ResponseInfo { etag: None, content_length: None, serves_ranges: true },
    ] {
        let expected = response.content_length;
        let mut downloader = builder().build(()).0.inner;
        downloader.begin_download(response, None);
        assert!(downloader.get_chunk_manager().is_none());
        assert!(downloader.get_chunks().is_empty());
        assert!(downloader.get_chunks_info().is_none());
        match &downloader.get_downloading_state().unwrap().download_way {
            DownloadWay::Single(single) => assert_eq!(single.content_length, expected),
            DownloadWay::Ranges(_) => panic!("no ranges can be asked for"),
        }
    }
}

#[test]
fn a_download_goes_on_from_an_archive() {
    let archive = DownloadArchiveData {
        downloaded_len: 12,
        downloading_duration: 34,
        chunk_data: Some(ChunkData {
            iter_count: 4,
            remaining: RemainingChunks { chunk_size: 3, ranges: vec![ChunkRange::new(15, 24)] },
            last_incomplete_chunks: vec![ChunkInfo { index: 4, range: ChunkRange::new(5, 7) }],
        }),
    };
    let mut downloader = builder().chunk_size(10).build(()).0.inner;
    downloader.begin_download(ranges_response(25), Some(archive));
    assert_eq!(downloader.downloaded_len(), 12);
    assert_eq!(downloader.get_downloading_state().unwrap().downloading_duration, 34);
    let data = &downloader.get_chunk_manager().unwrap().chunk_iterator.data;
    assert_eq!(data.remaining.chunk_size, 10);
    assert_eq!(data.remaining_len(), 13);
    assert_eq!(data.iter_count, 4);
}

#[test]
fn an_archive_without_chunks_gives_its_count_alone() {
    let archive =
        DownloadArchiveData { downloaded_len: 12, downloading_duration: 34, chunk_data: None };
    let mut downloader = builder().chunk_size(10).build(()).0.inner;
    downloader.begin_download(ranges_response(25), Some(archive.clone()));
    assert_eq!(downloader.downloaded_len(), 12);
    let data = &downloader.get_chunk_manager().unwrap().chunk_iterator.data;
    assert_eq!(data.remaining_len(), 25);
    let mut downloader = builder().build(()).0.inner;
    let response = ResponseInfo { etag: None, content_length: None, serves_ranges: false };
    downloader.begin_download(response, Some(archive));
    assert_eq!(downloader.downloaded_len(), 0);
    assert_eq!(downloader.get_downloading_state().unwrap().downloading_duration, 34);
}

#[test]
fn only_one_download_goes_on() {
    let mut downloader = builder().build(()).0.inner;
    downloader.begin_download(ranges_response(25), None);
    assert_eq!(downloader.download(), Err(DownloadStartError::AlreadyDownloading));
    downloader.finish_download();
    assert!(!downloader.is_downloading());
    assert_eq!(downloader.download(), Ok(DirectoryStep::Create));
    downloader.finish_download();
    assert!(downloader.take_downloading_state().is_none());
}

#[test]
fn the_wish_to_download_sets_the_count_back() {
    let mut downloader = builder().build(()).0.inner;
    let archive =
        DownloadArchiveData { downloaded_len: 12, downloading_duration: 0, chunk_data: None };
    downloader.begin_download(ranges_response(25), Some(archive));
    assert_eq!(downloader.downloaded_len(), 12);
    assert!(downloader.download().is_err());
    assert_eq!(downloader.downloaded_len(), 0);
}

#[test]
fn the_count_outlives_the_download() {
    let mut downloader = builder().build(()).0.inner;
    let archive =
        DownloadArchiveData { downloaded_len: 12, downloading_duration: 0, chunk_data: None };
    downloader.begin_download(ranges_response(25), Some(archive));
    let state = downloader.take_downloading_state().unwrap();
    assert_eq!(state.download_way.downloaded_len(), 12);
    assert_eq!(downloader.downloaded_len(), 12);
    assert_eq!(downloader.current_total_size(), None);
}

#[test]
fn a_cancelled_download_is_given_up() {
    let mut downloader = builder().build(()).0.inner;
    assert!(downloader.cancel().is_none());
    downloader.begin_download(ranges_response(25), None);
    assert!(downloader.cancel().is_some());
    assert!(!downloader.is_downloading());
    assert!(downloader.cancel().is_none());
}

#[test]
fn changes_need_a_download_by_chunks() {
    let mut downloader = builder().build(()).0.inner;
    assert_eq!(
        downloader.change_connection_count(2),
        Err(ChangeConnectionCountError::NoStart)
    );
    assert_eq!(downloader.change_chunk_size(2), Err(ChangeChunkSizeError::NoStart));
    let response = ResponseInfo { etag: None, content_length: None, serves_ranges: false };
    downloader.begin_download(response, None);
    assert_eq!(
        downloader.change_connection_count(2),
        Err(ChangeConnectionCountError::DownloadTargetNotSupported)
    );
    assert_eq!(
        downloader.change_chunk_size(2),
        Err(ChangeChunkSizeError::DownloadTargetNotSupported)
    );
    downloader.begin_download(ranges_response(25), None);
    assert_eq!(downloader.change_connection_count(2), Ok(()));
    assert_eq!(downloader.change_chunk_size(6), Ok(()));
    let manager = downloader.get_chunk_manager().unwrap();
    assert_eq!(manager.connection_count(), 2);
    assert_eq!(manager.chunk_iterator.data.remaining.chunk_size, 6);
}

#[test]
fn a_length_in_advance_is_that_of_the_file() {
    assert_eq!(builder().build(()).0.inner.len_in_advance(Some(9)), None);
    assert_eq!(builder().build(()).0.inner.len_in_advance(None), None);
    assert_eq!(builder().set_len_in_advance(true).build(()).0.inner.len_in_advance(Some(9)), Some(9));
}

#[test]
fn durations_add_up() {
    let state = DownloadingState {
        downloading_duration: 30,
        download_way: DownloadWay::Single(SingleDownload::new(0, None)),
    };
    assert_eq!(state.get_current_downloading_duration(12), 42);
    assert_eq!(state.get_current_downloading_duration((1 << 32) + 12), 42);
}
