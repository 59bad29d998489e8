use headers::{HeaderMap, HeaderValue};
use http_downloader::{
    ChunkData, ChunkEndStep, ChunkInfo, ChunkIterator, ChunkManager, ChunkRange, DownloadRun,
    DownloadedLenChangeNotify, DownloadingEndCause, HttpRequest, HttpVersion, LenChangedNotify,
    RemainingChunks,
};

fn manager(connections: u8, chunk_size: usize, total_len: u64) -> ChunkManager {
    let data = ChunkData {
        iter_count: 0,
        remaining: RemainingChunks::new(chunk_size, total_len),
        last_incomplete_chunks: Vec::new(),
    };
    ChunkManager::new(connections, 0, ChunkIterator::new(total_len, data), None, 3)
}

fn ranges(chunks: &[ChunkInfo]) -> Vec<(usize, u64, u64)> {
    chunks.iter().map(|c| (c.index, c.range.start, c.range.end)).collect()
}

fn finish(
    manager: &mut ChunkManager,
    run: &mut DownloadRun<String>,
    index: usize,
) -> ChunkEndStep {
    let outstanding = {
        let item = manager.downloading_chunks.get(&index).unwrap();
        item.chunk_info.range.len() - item.downloaded_len
    };
    manager.receive_len(index, outstanding as usize);
    let (left, removed) = manager.remove_chunk(index);
    assert_eq!(removed.unwrap().chunk_info.index, index);
    manager.meet_chunk_finished(run, left)
}

#[test]
fn a_download_begins_with_a_chunk_for_each_connection() {
    let mut manager = manager(2, 4, 10);
    let (chunks, run) = manager.start_download::<String>();
    assert_eq!(ranges(&chunks), vec![(1, 0, 3), (2, 4, 7)]);
    assert!(!run.is_iter_finished);
    assert!(run.is_listening);
    assert!(matches!(run.result, Ok(DownloadingEndCause::DownloadFinished)));
    assert_eq!(manager.downloading_chunks.len(), 2);
    assert_eq!(manager.connection_count(), 2);
}

#[test]
fn a_short_file_begins_with_fewer_chunks() {
    let mut manager = manager(5, 4, 6);
    let (chunks, run) = manager.start_download::<String>();
    assert_eq!(ranges(&chunks), vec![(1, 0, 3), (2, 4, 5)]);
    assert!(run.is_iter_finished);
}

#[test]
fn nothing_left_means_no_chunk_at_the_begin() {
    let data = ChunkData {
        iter_count: 7,
        remaining: RemainingChunks { chunk_size: 4, ranges: Vec::new() },
        last_incomplete_chunks: Vec::new(),
    };
    let mut manager = ChunkManager::new(3, 10, ChunkIterator::new(10, data), None, 3);
    let (chunks, run) = manager.start_download::<String>();
    assert!(chunks.is_empty());
    assert!(run.is_iter_finished);
    assert_eq!(manager.downloaded_len(), 10);
}

#[test]
fn a_download_goes_on_until_it_is_whole() {
    let mut manager = manager(2, 4, 10);
    let (_, mut run) = manager.start_download();
    match finish(&mut manager, &mut run, 2) {
        ChunkEndStep::Start(chunk) => assert_eq!(ranges(&[chunk]), vec![(3, 8, 9)]),
        _ => panic!("another chunk was left"),
    }
    assert!(matches!(finish(&mut manager, &mut run, 1), ChunkEndStep::Wait));
    assert!(run.is_iter_finished);
    assert_eq!(manager.downloaded_len(), 8);
    assert!(matches!(finish(&mut manager, &mut run, 3), ChunkEndStep::Finish));
    assert_eq!(manager.downloaded_len(), 10);
    assert!(manager.downloading_chunks.is_empty());
}

#[test]
fn a_single_connection_finishes_when_no_chunk_is_left() {
    let mut manager = manager(1, 4, 8);
    let (_, mut run) = manager.start_download();
    assert!(matches!(finish(&mut manager, &mut run, 1), ChunkEndStep::Start(_)));
    assert!(!run.is_iter_finished);
    assert!(matches!(finish(&mut manager, &mut run, 2), ChunkEndStep::Finish));
    assert!(run.is_iter_finished);
}

#[test]
fn more_connections_get_chunks_at_once() {
    let mut manager = manager(1, 2, 20);
    let (_, mut run) = manager.start_download::<String>();
    manager.change_connection_count(3);
    assert_eq!(manager.connection_count(), 3);
    let count = manager.connection_count();
    let chunks = manager.meet_connection_count(&mut run, count);
    assert_eq!(ranges(&chunks), vec![(2, 2, 3), (3, 4, 5)]);
    assert_eq!(manager.superfluities_connection_count, 0);
    assert!(manager.meet_connection_count(&mut run, 3).is_empty());
}

#[test]
fn more_connections_than_chunks_end_the_supply() {
    let mut manager = manager(1, 4, 8);
    let (_, mut run) = manager.start_download::<String>();
    let chunks = manager.meet_connection_count(&mut run, 9);
    assert_eq!(ranges(&chunks), vec![(2, 4, 7)]);
    assert!(run.is_iter_finished);
}

#[test]
fn fewer_connections_end_with_their_chunks() {
    let mut manager = manager(3, 2, 20);
    let (_, mut run) = manager.start_download();
    assert!(manager.meet_connection_count(&mut run, 1).is_empty());
    assert_eq!(manager.superfluities_connection_count, 2);
    assert!(matches!(finish(&mut manager, &mut run, 1), ChunkEndStep::Wait));
    assert_eq!(manager.superfluities_connection_count, 1);
    assert!(matches!(finish(&mut manager, &mut run, 2), ChunkEndStep::Wait));
    assert_eq!(manager.superfluities_connection_count, 0);
    assert!(matches!(finish(&mut manager, &mut run, 3), ChunkEndStep::Start(_)));
    assert_eq!(manager.downloading_chunks.len(), 1);
}

#[test]
fn no_connection_means_no_more_listening() {
    let mut manager = manager(2, 2, 20);
    let (_, mut run) = manager.start_download::<String>();
    assert!(manager.meet_connection_count(&mut run, 0).is_empty());
    assert!(!run.is_listening);
    assert_eq!(manager.downloading_chunks.len(), 2);
}

#[test]
fn the_first_failure_counts() {
    let mut manager = manager(2, 2, 20);
    let (_, mut run) = manager.start_download();
    assert!(ChunkManager::is_undisturbed(&run));
    assert!(manager.meet_chunk_failed(&mut run, "first".to_string()));
    assert_eq!(manager.connection_count(), 0);
    assert!(!ChunkManager::is_undisturbed(&run));
    assert!(!manager.meet_chunk_failed(&mut run, "second".to_string()));
    manager.meet_chunk_cancelled(&mut run);
    assert_eq!(run.result, Err("first".to_string()));
    assert_eq!(manager.downloading_chunks.len(), 2);
}

#[test]
fn a_cancelled_chunk_cancels_the_download() {
    let mut manager = manager(2, 2, 20);
    let (_, mut run) = manager.start_download::<String>();
    manager.meet_chunk_cancelled(&mut run);
    assert_eq!(manager.connection_count(), 0);
    assert!(!manager.meet_chunk_failed(&mut run, "late".to_string()));
    assert_eq!(run.result, Ok(DownloadingEndCause::Cancelled));
}

#[test]
fn another_chunk_size_holds_from_then_on() {
    let mut manager = manager(1, 2, 20);
    let (_, mut run) = manager.start_download();
    manager.change_chunk_size(5);
    match finish(&mut manager, &mut run, 1) {
        ChunkEndStep::Start(chunk) => assert_eq!(ranges(&[chunk]), vec![(2, 2, 6)]),
        _ => panic!("another chunk was left"),
    }
}

#[test]
fn chunks_are_listed_by_start() {
    let data = ChunkData {
        iter_count: 9,
        remaining: RemainingChunks { chunk_size: 4, ranges: vec![ChunkRange::new(50, 99)] },
        last_incomplete_chunks: vec![
            ChunkInfo { index: 8, range: ChunkRange::new(10, 12) },
            ChunkInfo { index: 3, range: ChunkRange::new(30, 31) },
        ],
    };
    let mut manager = ChunkManager::new(3, 45, ChunkIterator::new(100, data), None, 3);
    manager.start_download::<String>();
    let starts: Vec<u64> =
        manager.get_chunks().iter().map(|c| c.chunk_info.range.start).collect();
    assert_eq!(starts, vec![10, 30, 50]);
}

#[test]
fn ranges_around_chunks_are_found() {
    let data = ChunkData {
        iter_count: 9,
        remaining: RemainingChunks { chunk_size: 4, ranges: Vec::new() },
        last_incomplete_chunks: vec![
            ChunkInfo { index: 8, range: ChunkRange::new(10, 12) },
            ChunkInfo { index: 5, range: ChunkRange::new(13, 20) },
            ChunkInfo { index: 3, range: ChunkRange::new(30, 31) },
        ],
    };
    let mut manager = ChunkManager::new(3, 0, ChunkIterator::new(100, data), None, 3);
    manager.start_download::<String>();
    let info = manager.get_chunks_info();
    assert!(info.no_chunk_remaining);
    assert_eq!(info.downloading_chunks.len(), 3);
    let around: Vec<(u64, u64)> =
        info.finished_chunks.iter().map(|r| (r.start, r.end)).collect();
    assert_eq!(around, vec![(0, 9), (21, 29), (32, 99)]);
    let covered: u64 = info.finished_chunks.iter().map(|r| r.len()).sum::<u64>()
        + info.downloading_chunks.iter().map(|c| c.chunk_info.range.len()).sum::<u64>();
    assert_eq!(covered, 100);
}

#[test]
fn nothing_around_is_finished_before_chunks_run_out() {
    let mut manager = manager(1, 4, 10);
    assert!(manager.get_chunks_info().finished_chunks.is_empty());
    manager.start_download::<String>();
    let info = manager.get_chunks_info();
    assert!(!info.no_chunk_remaining);
    assert!(info.finished_chunks.is_empty());
}

#[test]
fn a_copied_request_has_the_same_fields() {
    let mut headers = HeaderMap::new();
    headers.append("x-a", HeaderValue::from_static("1"));
    headers.append("x-a", HeaderValue::from_static("2"));
    let request = HttpRequest {
        method: "HEAD".to_string(),
        url: "https://example.net/a".to_string(),
        version: HttpVersion::H2,
        headers,
        timeout: Some(7),
    };
    let copy = ChunkManager::clone_request(&request);
    assert_eq!(copy.url, "https://example.net/a");
    assert_eq!(copy.headers, request.headers);
    assert_eq!(copy.method, "HEAD");
    assert_eq!(copy.version, HttpVersion::H2);
    assert_eq!(copy.timeout, Some(7));
}

#[test]
fn as_many_connections_last_as_there_are_to_be() {
    let mut manager = manager(3, 4, 100);
    let (_, mut run) = manager.start_download();
    assert!(manager.meet_connection_count(&mut run, 1).is_empty());
    assert_eq!(manager.superfluities_connection_count, 2);
    assert!(matches!(finish(&mut manager, &mut run, 2), ChunkEndStep::Wait));
    assert!(matches!(finish(&mut manager, &mut run, 1), ChunkEndStep::Wait));
    assert_eq!(manager.downloading_chunks.len(), 1);
    assert!(matches!(finish(&mut manager, &mut run, 3), ChunkEndStep::Start(_)));
    assert_eq!(manager.downloading_chunks.len(), 1);
    assert_eq!(manager.meet_connection_count(&mut run, 8).len(), 7);
    assert_eq!(manager.downloading_chunks.len(), 8);
    assert_eq!(manager.meet_connection_count(&mut run, 255).len(), 14);
    assert!(run.is_iter_finished);
}

struct Listener(Vec<usize>);

impl DownloadedLenChangeNotify for Listener {
    type Wait = usize;

    fn receive_len(&mut self, len: usize) -> Option<usize> {
        self.0.push(len);
        Some(self.0.len())
    }
}

#[test]
fn what_comes_is_counted_and_handed_on() {
    let mut notify = LenChangedNotify { downloaded_len: 3, notify: Some(Listener(Vec::new())) };
    assert_eq!(notify.receive_len(4), Some(1));
    assert_eq!(notify.receive_len(2), Some(2));
    assert_eq!(notify.downloaded_len, 9);
    assert_eq!(notify.notify.unwrap().0, [4, 2]);
    let mut notify = LenChangedNotify { downloaded_len: 3, notify: None::<Listener> };
    assert_eq!(notify.receive_len(4), None);
    assert_eq!(notify.downloaded_len, 7);
}

#[test]
fn never_more_chunks_than_connections() {
    for (connections, started) in [(1u8, 1usize), (3, 3), (9, 5)] {
        let mut manager = manager(connections, 4, 20);
        let (chunks, mut run) = manager.start_download();
        assert_eq!(chunks.len(), started);
        let mut queue: Vec<usize> = chunks.iter().map(|chunk| chunk.index).collect();
        while !queue.is_empty() {
            assert!(manager.downloading_chunks.len() <= connections as usize);
            let index = queue.remove(0);
            if let ChunkEndStep::Start(chunk) = finish(&mut manager, &mut run, index) {
                queue.push(chunk.index);
            }
        }
        assert_eq!(manager.downloaded_len(), 20);
    }
}

#[test]
fn the_last_numbers_go_to_the_chunks_that_are_there() {
    let data = ChunkData {
        iter_count: usize::MAX - 1,
        remaining: RemainingChunks::new(8, 5),
        last_incomplete_chunks: Vec::new(),
    };
    let mut manager = ChunkManager::new(3, 0, ChunkIterator::new(5, data), None, 3);
    let (chunks, run) = manager.start_download::<String>();
    assert_eq!(ranges(&chunks), vec![(usize::MAX, 0, 4)]);
    assert!(run.is_iter_finished);
}
