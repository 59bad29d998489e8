use http_downloader::{
    DownloadWay, DownloadingEndCause, SingleAction, SingleBuffer, SingleDownload, SingleEvent,
};

fn bytes(range: std::ops::Range<u8>) -> SingleEvent {
    SingleEvent::Bytes(range.collect())
}

fn written(action: SingleAction) -> Vec<u8> {
    match action {
        SingleAction::WriteAndReadBody(bytes, _) => bytes,
        SingleAction::WriteAndEnd(bytes, _) => bytes,
        _ => Vec::new(),
    }
}

#[test]
fn bytes_that_fit_stay_in_the_buffer() {
    let mut single = SingleDownload::new(0, Some(8));
    let mut buffer = SingleBuffer::new(4);
    let action = single.meet_event(&mut buffer, &bytes(0..3), 4);
    assert!(matches!(action, SingleAction::ReadBody(3)));
    let action = single.meet_event(&mut buffer, &bytes(3..4), 4);
    assert!(matches!(action, SingleAction::ReadBody(1)));
    assert_eq!(single.downloaded_len, 4);
}

#[test]
fn bytes_that_do_not_fit_push_out_the_others() {
    let mut single = SingleDownload::new(0, None);
    let mut buffer = SingleBuffer::new(4);
    single.meet_event(&mut buffer, &bytes(0..3), 4);
    match single.meet_event(&mut buffer, &bytes(3..5), 4) {
        SingleAction::WriteAndReadBody(written, len) => {
            assert_eq!(written, vec![0, 1, 2]);
            assert_eq!(len, 2);
        }
        _ => panic!("the buffer was full"),
    }
    match single.meet_event(&mut buffer, &SingleEvent::BodyEnded, 4) {
        SingleAction::WriteAndEnd(written, cause) => {
            assert_eq!(written, vec![3, 4]);
            assert_eq!(cause, DownloadingEndCause::DownloadFinished);
        }
        _ => panic!("the body has ended"),
    }
    assert_eq!(single.downloaded_len, 5);
}

#[test]
fn all_that_came_is_written_in_order() {
    for size in [1usize, 2, 3, 7, 64] {
        let mut single = SingleDownload::new(0, None);
        let mut buffer = SingleBuffer::new(size);
        let mut file: Vec<u8> = Vec::new();
        for k in 0..10u8 {
            let event = bytes(k * 10..k * 10 + 1 + k % 4);
            file.extend(written(single.download(&mut buffer, &event)));
        }
        file.extend(written(single.download(&mut buffer, &SingleEvent::BodyEnded)));
        let mut expected: Vec<u8> = Vec::new();
        for k in 0..10u8 {
            expected.extend(k * 10..k * 10 + 1 + k % 4);
        }
        assert_eq!(file, expected);
        assert_eq!(single.downloaded_len as usize, expected.len());
    }
}

#[test]
fn a_large_buffer_is_written_once() {
    let mut single = SingleDownload::new(0, None);
    let mut buffer = SingleBuffer::new(1024);
    for _ in 0..100 {
        let action = single.download(&mut buffer, &bytes(0..10));
        assert!(matches!(action, SingleAction::ReadBody(10)));
    }
    let action = single.download(&mut buffer, &SingleEvent::BodyEnded);
    assert_eq!(written(action).len(), 1000);
}

#[test]
fn nothing_is_written_before_the_buffer_is_full() {
    for size in [1usize, 5, 100] {
        let mut single = SingleDownload::new(0, None);
        let mut buffer = SingleBuffer::new(size);
        for _ in 0..size {
            let action = single.download(&mut buffer, &bytes(0..1));
            assert!(matches!(action, SingleAction::ReadBody(1)));
        }
    }
}

#[test]
fn a_broken_or_cancelled_body_writes_nothing_more() {
    let mut single = SingleDownload::new(0, None);
    let mut buffer = SingleBuffer::new(16);
    single.download(&mut buffer, &bytes(0..3));
    let action = single.download(&mut buffer, &SingleEvent::BodyFailed);
    assert!(matches!(action, SingleAction::FailRequest));
    let action = single.download(&mut buffer, &SingleEvent::Cancelled);
    assert!(matches!(action, SingleAction::End(DownloadingEndCause::Cancelled)));
}

#[test]
fn a_way_tells_and_takes_the_count() {
    let mut way = DownloadWay::Single(SingleDownload::new(5, Some(9)));
    assert_eq!(way.downloaded_len(), 5);
    way.set_downloaded_len(2);
    assert_eq!(way.downloaded_len(), 2);
}
