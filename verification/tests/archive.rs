use http_downloader::breakpoint_resume::{
    archive_data, archive_download, DownloadBreakpointResumeExtension, FileSave,
};
use http_downloader::bson_file_archiver::{ArchiveFilePath, BsonFileArchiverBuilder};
use http_downloader::progress::fits_the_file;
use http_downloader::{
    ChunkAction, ChunkData, ChunkDownload, ChunkEndStep, ChunkEvent, ChunkInfo, ChunkIterator,
    ChunkManager, ChunkRange, DownloadArchiveData, DownloadWay, DownloadingState, HttpDownloaderBuilder, RemainingChunks,
    ResponseInfo, SingleDownload,
};

fn manager(connections: u8, chunk_size: usize, total_len: u64) -> ChunkManager {
    let data = ChunkData {
        iter_count: 0,
        remaining: RemainingChunks::new(chunk_size, total_len),
        last_incomplete_chunks: Vec::new(),
    };
    ChunkManager::new(connections, 0, ChunkIterator::new(total_len, data), None, 3)
}

fn ranges(data: &ChunkData) -> Vec<(u64, u64)> {
    data.remaining.ranges.iter().map(|r| (r.start, r.end)).collect()
}

fn incomplete(data: &ChunkData) -> Vec<(usize, u64, u64)> {
    data.last_incomplete_chunks.iter().map(|c| (c.index, c.range.start, c.range.end)).collect()
}

#[test]
fn an_archive_of_a_running_download_keeps_whole_chunks() {
    let mut manager = manager(2, 4, 20);
    manager.start_download::<String>();
    manager.receive_len(1, 3);
    let archive = archive_data(&manager, false, 7);
    let data = archive.chunk_data.unwrap();
    assert_eq!(ranges(&data), vec![(0, 3), (4, 7), (8, 19)]);
    assert!(incomplete(&data).is_empty());
    assert_eq!(archive.downloaded_len, 0);
    assert_eq!(archive.downloading_duration, 7);
}

#[test]
fn an_archive_of_a_cancelled_download_keeps_tails() {
    let mut manager = manager(3, 4, 20);
    manager.start_download::<String>();
    manager.receive_len(1, 3);
    manager.receive_len(2, 4);
    let archive = archive_data(&manager, true, 0);
    let data = archive.chunk_data.unwrap();
    assert_eq!(ranges(&data), vec![(12, 19)]);
    assert_eq!(incomplete(&data), vec![(1, 3, 3), (3, 8, 11)]);
    assert_eq!(data.iter_count, 3);
    assert_eq!(archive.downloaded_len, 7);
    assert_eq!(archive.downloaded_len, manager.downloaded_len());
}

#[test]
fn a_cancelled_download_goes_on_where_it_was() {
    let mut first = manager(3, 4, 20);
    first.start_download::<String>();
    first.receive_len(1, 3);
    first.receive_len(3, 1);
    let archive = archive_data(&first, true, 5);
    assert!(fits_the_file(archive.chunk_data.as_ref().unwrap(), 20));
    let mut downloader = HttpDownloaderBuilder::new(
        "https://example.net/f".to_string(),
        "/tmp".to_string(),
    )
    .chunk_size(6)
    .download_connection_count(1)
    .build(())
    .0
    .inner;
    let response = ResponseInfo { etag: None, content_length: Some(20), serves_ranges: true };
    downloader.begin_download(response, Some(archive));
    let mut state = downloader.take_downloading_state().unwrap();
    let second = match &mut state.download_way {
        DownloadWay::Ranges(manager) => manager,
        DownloadWay::Single(_) => panic!("the download is by chunks"),
    };
    assert_eq!(second.downloaded_len(), 4);
    let mut seen = vec![0u8; 20];
    for position in [0usize, 1, 2, 8] {
        seen[position] += 1;
    }
    let (chunks, mut run) = second.start_download::<String>();
    let mut current = chunks[0];
    loop {
        for position in current.range.start..=current.range.end {
            seen[position as usize] += 1;
        }
        second.receive_len(current.index, current.range.len() as usize);
        let (left, _) = second.remove_chunk(current.index);
        match second.meet_chunk_finished(&mut run, left) {
            ChunkEndStep::Start(chunk) => current = chunk,
            ChunkEndStep::Finish => break,
            ChunkEndStep::Wait => panic!("nothing else is being downloaded"),
        }
    }
    assert_eq!(seen, vec![1u8; 20]);
    assert_eq!(second.downloaded_len(), 20);
}

#[test]
fn only_a_download_by_chunks_is_archived() {
    let state = DownloadingState {
        downloading_duration: 30,
        download_way: DownloadWay::Ranges(manager(2, 4, 20)),
    };
    let archive = archive_download(&state, false, 12).unwrap();
    assert_eq!(archive.downloading_duration, 42);
    assert_eq!(ranges(&archive.chunk_data.unwrap()), vec![(0, 19)]);
    let state = DownloadingState {
        downloading_duration: 30,
        download_way: DownloadWay::Single(SingleDownload::new(0, None)),
    };
    assert!(archive_download(&state, false, 12).is_none());
}

#[test]
fn an_archive_that_does_not_fit_is_found() {
    let data = |ranges: Vec<(u64, u64)>, chunks: Vec<(usize, u64, u64)>| ChunkData {
        iter_count: 5,
        remaining: RemainingChunks {
            chunk_size: 4,
            ranges: ranges.into_iter().map(|(start, end)| ChunkRange { start, end }).collect(),
        },
        last_incomplete_chunks: chunks
            .into_iter()
            .map(|(index, start, end)| ChunkInfo { index, range: ChunkRange { start, end } })
            .collect(),
    };
    assert!(fits_the_file(&data(vec![(0, 3), (8, 9)], vec![(2, 4, 7)]), 10));
    assert!(fits_the_file(&data(vec![(5, 4)], vec![]), 10));
    assert!(!fits_the_file(&data(vec![(0, 3), (8, 10)], vec![]), 10));
    assert!(!fits_the_file(&data(vec![(0, 3), (3, 9)], vec![]), 10));
    assert!(!fits_the_file(&data(vec![(0, 3)], vec![(2, 3, 7)]), 10));
    assert!(!fits_the_file(&data(vec![], vec![(2, 1, 2), (2, 4, 5)]), 10));
    assert!(!fits_the_file(&data(vec![], vec![(6, 1, 2)]), 10));
    assert!(!fits_the_file(&data(vec![], vec![(1, 2, 1)]), 10));
    assert!(!fits_the_file(&data(vec![(6, 4)], vec![]), 10));
    assert!(!fits_the_file(&data(vec![], vec![]), 0));
}

#[test]
fn the_average_speed_is_rounded_down() {
    let archive = |downloaded_len: u64, downloading_duration: u32| DownloadArchiveData {
        downloaded_len,
        downloading_duration,
        chunk_data: None,
    };
    assert_eq!(archive(1000, 0).get_average_download_speed(), 0);
    assert_eq!(archive(1000, 3).get_average_download_speed(), 333);
    assert_eq!(archive(2, 3).get_average_download_speed(), 0);
}

#[test]
fn a_suffix_comes_behind_the_extension() {
    let save = FileSave::OriginPathWithSuffix("bson".to_string());
    assert_eq!(save.get_file_path("/tmp/d/file.exe"), "/tmp/d/file.exe.bson");
    assert_eq!(save.get_file_path("/tmp/d.x/file"), "/tmp/d.x/file..bson");
    assert_eq!(save.get_file_path("a.tar.gz"), "a.tar.gz.bson");
    assert_eq!(save.get_file_path(".hidden"), ".hidden..bson");
    for nameless in ["", "/", "..", "/tmp/.."] {
        assert_eq!(save.get_file_path(nameless), nameless);
    }
    let path = save.get_file_path("//d/a.zip");
    assert!(path == "//d/a.zip.bson" || path == "//d/a.zip");
    let path = save.get_file_path("\\\\?\\C:\\my.dir/file");
    assert!(path.ends_with(".bson"));
    let path = save.get_file_path("a.x\\b");
    assert!(path == "a.x\\b.bson" || path == "a.x\\b..bson");
    let save = FileSave::AbsolutePath("/var/x".to_string());
    assert_eq!(save.get_file_path("/tmp/d/file.exe"), "/var/x");
}

#[test]
fn the_archive_stands_beside_the_file() {
    let path = ArchiveFilePath::Suffix("bson");
    assert_eq!(path.get_file_path("/tmp/file.exe"), "/tmp/file.exe.bson");
    let path = ArchiveFilePath::Suffix(7);
    assert_eq!(path.get_file_path("/tmp/file.exe"), "/tmp/file.exe.7");
    let path: ArchiveFilePath<String> = ArchiveFilePath::Absolute("/var/x".to_string());
    assert_eq!(path.get_file_path("/tmp/file.exe"), "/var/x");
    let path = ArchiveFilePath::Suffix("bson");
    assert_eq!(path.try_get_file_path("/tmp/a.b").unwrap(), "/tmp/a.b.bson");
    assert!(ArchiveFilePath::Suffix("a/b").try_get_file_path("/tmp/a.b").is_none());
    assert!(ArchiveFilePath::Suffix("a\\b").try_get_file_path("/tmp/a.b").is_none());
}

#[test]
fn an_archiver_knows_the_path_of_its_download() {
    let config = HttpDownloaderBuilder::new(
        "https://example.net/file.exe".to_string(),
        "/tmp/".to_string(),
    )
    .build(())
    .0
    .inner
    .config;
    let builder = BsonFileArchiverBuilder::new(ArchiveFilePath::Suffix("bson".to_string()));
    let extension = DownloadBreakpointResumeExtension::new(builder);
    let (wrapper, state) = extension.build(&config);
    assert_eq!(wrapper.download_archiver.archive_file_path, "/tmp/file.exe.bson");
    assert_eq!(state.download_archiver.archive_file_path, "/tmp/file.exe.bson");
    let builder = BsonFileArchiverBuilder::new(ArchiveFilePath::Suffix("bson"));
    assert_eq!(builder.try_build(&config).unwrap().archive_file_path, "/tmp/file.exe.bson");
    let builder = BsonFileArchiverBuilder::new(ArchiveFilePath::Suffix("x/y"));
    assert!(builder.try_build(&config).is_none());
}

#[test]
fn the_archive_stands_beside_the_file_whatever_the_directory() {
    for dir in ["", "/tmp", "/tmp/", "C:/download", "d", "a.b"] {
        for url in ["https://example.net/file.exe", "https://example.net/a.tar.gz"] {
            let config = HttpDownloaderBuilder::new(url.to_string(), dir.to_string())
                .build(())
                .0
                .inner
                .config;
            let builder = BsonFileArchiverBuilder::new(ArchiveFilePath::Suffix("bson"));
            let archiver = builder.try_build(&config).unwrap();
            assert_eq!(archiver.archive_file_path, format!("{}.bson", config.file_path()));
        }
    }
    let config =
        HttpDownloaderBuilder::new("https://example.net/file".to_string(), "/tmp".to_string())
            .build(())
            .0
            .inner
            .config;
    let builder = BsonFileArchiverBuilder::new(ArchiveFilePath::Suffix("bson"));
    let archiver = builder.try_build(&config).unwrap();
    assert_eq!(archiver.archive_file_path, format!("{}..bson", config.file_path()));
}

#[test]
fn an_archive_and_what_is_left_are_the_file() {
    let config =
        HttpDownloaderBuilder::new("https://example.net/f.x".to_string(), "/tmp".to_string())
            .build(())
            .0
            .inner
            .config;
    let builder = BsonFileArchiverBuilder::new(ArchiveFilePath::Suffix("bson"));
    let (wrapper, _) = DownloadBreakpointResumeExtension::new(builder).build(&config);
    for is_cancelled in [true, false] {
        let mut chunks = manager(2, 4, 20);
        chunks.start_download::<String>();
        chunks.receive_len(2, 3);
        let state =
            DownloadingState { downloading_duration: 7, download_way: DownloadWay::Ranges(chunks) };
        let archive = wrapper.download(&state, is_cancelled, 5).unwrap();
        assert_eq!(archive.downloading_duration, 12);
        assert_eq!(archive.downloaded_len, if is_cancelled { 3 } else { 0 });
        let left = archive.chunk_data.unwrap().remaining_len();
        assert_eq!(archive.downloaded_len + left, 20);
    }
}

/// Does what the end of a chunk calls for.
fn write(file: &mut Vec<u8>, action: ChunkAction, bytes: &[u8]) {
    let position = match action {
        ChunkAction::WriteAndEnd(position, _) => position as usize,
        ChunkAction::WriteAndFailRequest(position) => position as usize,
        _ => panic!("nothing is to be written"),
    };
    file[position..position + bytes.len()].copy_from_slice(bytes);
}

/// Fetches these many bytes of a chunk.
fn fetch(manager: &mut ChunkManager, download: &mut ChunkDownload, index: usize, bytes: &[u8]) {
    match download.download_chunk(&ChunkEvent::Bytes(bytes.to_vec())) {
        ChunkAction::CountAndReadBody(len) => manager.receive_len(index, len),
        _ => panic!("bytes are counted"),
    }
}

#[test]
fn a_failed_download_goes_on_to_the_whole_file() {
    let content: Vec<u8> = (1..=20).collect();
    let mut file = vec![0u8; 20];
    let mut first = manager(2, 8, 20);
    let (chunks, mut run) = first.start_download::<String>();
    let mut left = ChunkDownload::new(chunks[0], None, 1);
    let mut right = ChunkDownload::new(chunks[1], None, 1);
    fetch(&mut first, &mut left, 1, &content[0..3]);
    fetch(&mut first, &mut right, 2, &content[8..13]);
    left.download_chunk(&ChunkEvent::BodyFailed);
    let action = left.download_chunk(&ChunkEvent::RequestFailed);
    write(&mut file, action, left.chunk_bytes());
    assert!(first.meet_chunk_failed(&mut run, "gone".to_string()));
    let action = right.download_chunk(&ChunkEvent::Cancelled);
    write(&mut file, action, right.chunk_bytes());
    first.meet_chunk_cancelled(&mut run);
    let archive = archive_data(&first, true, 0);
    assert_eq!(archive.downloaded_len, 8);

    let data = archive.chunk_data.unwrap();
    let mut second = ChunkManager::new(
        1,
        archive.downloaded_len,
        ChunkIterator::new(20, data),
        None,
        0,
    );
    let (chunks, mut run) = second.start_download::<String>();
    let mut chunk = chunks[0];
    loop {
        let mut download = ChunkDownload::new(chunk, None, 0);
        let bytes = &content[chunk.range.start as usize..chunk.range.end as usize + 1];
        fetch(&mut second, &mut download, chunk.index, bytes);
        let action = download.download_chunk(&ChunkEvent::BodyEnded);
        write(&mut file, action, download.chunk_bytes());
        let (left, _) = second.remove_chunk(chunk.index);
        match second.meet_chunk_finished(&mut run, left) {
            ChunkEndStep::Start(next) => chunk = next,
            ChunkEndStep::Finish => break,
            ChunkEndStep::Wait => panic!("there is one connection"),
        }
    }
    assert_eq!(file, content);
    assert_eq!(second.downloaded_len(), 20);
}
