use http_downloader::{
    ChunkData, ChunkInfo, ChunkIterator, ChunkRange, RemainingChunks,
};

fn pair(range: ChunkRange) -> (u64, u64) {
    (range.start, range.end)
}

fn fresh(chunk_size: usize, total_len: u64) -> ChunkData {
    ChunkData {
        iter_count: 0,
        remaining: RemainingChunks::new(chunk_size, total_len),
        last_incomplete_chunks: Vec::new(),
    }
}

#[test]
fn range_has_inclusive_bounds() {
    let range = ChunkRange::new(10, 19);
    assert_eq!(range.len(), 10);
    assert_eq!(ChunkRange::new(7, 7).len(), 1);
    assert_eq!(pair(ChunkRange::from_len(10, 10)), (10, 19));
}

#[test]
fn empty_range_has_no_length() {
    let range = ChunkRange::from_len(5, 0);
    assert_eq!(pair(range), (5, 4));
    assert_eq!(range.len(), 0);
}

#[test]
fn range_header_names_both_ends() {
    assert_eq!(ChunkRange::new(0, 99).to_range_header(), "bytes=0-99");
    assert_eq!(ChunkRange::new(4194304, 8388607).to_range_header(), "bytes=4194304-8388607");
}

#[test]
fn remaining_chunks_begin_with_the_whole_file() {
    let remaining = RemainingChunks::new(4, 10);
    assert_eq!(remaining.chunk_size, 4);
    assert_eq!(remaining.ranges.len(), 1);
    assert_eq!(pair(remaining.ranges[0]), (0, 9));
}

#[test]
fn chunks_are_taken_from_the_front() {
    let mut remaining = RemainingChunks::new(4, 10);
    assert_eq!(remaining.take_first().map(pair), Some((0, 3)));
    assert_eq!(remaining.take_first().map(pair), Some((4, 7)));
    assert_eq!(remaining.take_first().map(pair), Some((8, 9)));
    assert_eq!(remaining.take_first().map(pair), None);
    assert!(remaining.ranges.is_empty());
}

#[test]
fn a_range_as_long_as_a_chunk_is_taken_whole() {
    let mut remaining = RemainingChunks::new(10, 10);
    assert_eq!(remaining.take_first().map(pair), Some((0, 9)));
    assert!(remaining.ranges.is_empty());
}

#[test]
fn empty_ranges_are_dropped() {
    let mut remaining = RemainingChunks {
        chunk_size: 4,
        ranges: vec![
            ChunkRange { start: 3, end: 2 },
            ChunkRange { start: 9, end: 8 },
            ChunkRange { start: 20, end: 21 },
        ],
    };
    assert_eq!(remaining.take_first().map(pair), Some((20, 21)));
    assert!(remaining.ranges.is_empty());
}

#[test]
fn remaining_len_adds_ranges_and_incomplete_chunks() {
    let data = ChunkData {
        iter_count: 3,
        remaining: RemainingChunks {
            chunk_size: 4,
            ranges: vec![ChunkRange::new(10, 19), ChunkRange::new(30, 30)],
        },
        last_incomplete_chunks: vec![ChunkInfo { index: 2, range: ChunkRange::new(3, 7) }],
    };
    assert_eq!(data.remaining_len(), 16);
    assert!(!data.no_chunk_remaining());
}

#[test]
fn incomplete_chunks_come_first_and_last_in_first_out() {
    let mut data = fresh(4, 6);
    data.iter_count = 5;
    data.last_incomplete_chunks.push(ChunkInfo { index: 2, range: ChunkRange::new(100, 101) });
    data.last_incomplete_chunks.push(ChunkInfo { index: 4, range: ChunkRange::new(200, 201) });
    let taken = data.next_chunk_range().unwrap();
    assert_eq!((taken.index, pair(taken.range)), (4, (200, 201)));
    let taken = data.next_chunk_range().unwrap();
    assert_eq!((taken.index, pair(taken.range)), (2, (100, 101)));
    let taken = data.next_chunk_range().unwrap();
    assert_eq!((taken.index, pair(taken.range)), (6, (0, 3)));
    assert_eq!(data.iter_count, 6);
}

#[test]
fn fresh_chunks_tile_the_file() {
    let mut iterator = ChunkIterator::new(10, fresh(3, 10));
    let mut expected_start = 0;
    let mut count = 0;
    while let Some(chunk) = iterator.next() {
        count += 1;
        assert_eq!(chunk.index, count);
        assert_eq!(chunk.range.start, expected_start);
        assert_eq!(chunk.range.len(), if count < 4 { 3 } else { 1 });
        expected_start = chunk.range.end + 1;
    }
    assert_eq!(count, 4);
    assert_eq!(expected_start, 10);
    assert!(iterator.data.no_chunk_remaining());
}

#[test]
fn a_clone_leaves_the_same() {
    let data = fresh(3, 10);
    let mut copy = data.clone();
    copy.next_chunk_range();
    assert_eq!(data.remaining_len(), 10);
    assert_eq!(copy.remaining_len(), 7);
}

#[test]
fn each_chunk_goes_to_one_thread() {
    let data = ChunkData {
        iter_count: 0,
        remaining: RemainingChunks::new(3, 20),
        last_incomplete_chunks: Vec::new(),
    };
    let mut iterator = ChunkIterator::new(20, data);
    let mut got: Vec<Vec<usize>> = vec![Vec::new(), Vec::new()];
    for who in [0usize, 1, 1, 0, 1, 0, 0, 1, 0] {
        if let Some(chunk) = iterator.next() {
            got[who].push(chunk.index);
        }
    }
    assert_eq!(got, vec![vec![1, 4, 6, 7], vec![2, 3, 5]]);
    assert_eq!(iterator.data.remaining_len(), 0);
    assert_eq!(iterator.content_length, 20);
}
