use http_downloader::exclusive::Exclusive;
use http_downloader::speed_limiter::{
    DefaultSpeedLimiter, DownloadSpeedLimiterExtension, LimitStep, SpeedLimiter,
};
use http_downloader::speed_tracker::{
    DownloadSpeedDownloaderWrapper, DownloadSpeedTrackerExtension,
};
use http_downloader::status_tracker::{
    DownloadStatusTrackerController, DownloadStatusTrackerExtension, DownloaderStatus,
    NetworkItemPendingType,
};
use http_downloader::{
    ChunkData, ChunkIterator, ChunkManager, DirectoryStep, DownloadExtensionBuilder,
    DownloadStartError, DownloadWay, DownloadedLenChangeNotify, DownloaderWrapper,
    DownloadingEndCause, ExtendedHttpFileDownloader, HttpDownloaderBuilder, HttpFileDownloader,
    RemainingChunks, ResponseInfo, SingleDownload,
};

const SECOND: u128 = 1_000_000_000;

#[test]
fn no_limit_never_waits() {
    let mut limiter = DefaultSpeedLimiter::new(None, 0);
    assert_eq!(limiter.byte_count_per, 0);
    assert_eq!(limiter.receive_len(1_000_000), None);
    assert_eq!(limiter.receive_len(1_000_000), None);
    assert_eq!(limiter.cur_read, 0);
}

#[test]
fn a_limit_that_is_reached_has_the_next_wait() {
    let mut limiter = DefaultSpeedLimiter::new(Some(100), 5 * SECOND);
    assert_eq!(limiter.receive_len(60), None);
    assert_eq!(limiter.receive_len(60), None);
    assert_eq!(limiter.receive_len(10), Some(100));
    assert_eq!(limiter.cur_read, 130);
    match limiter.begin_wait(100, 5 * SECOND + 400_000_000) {
        LimitStep::Sleep(nanos) => assert_eq!(nanos, 600_000_000),
        LimitStep::Pass => panic!("the limit was reached"),
    }
    limiter.end_wait(100, 6 * SECOND);
    assert_eq!(limiter.cur_read, 30);
    assert_eq!(limiter.last_instant, 6 * SECOND);
    assert!(matches!(limiter.begin_wait(100, 6 * SECOND), LimitStep::Pass));
    assert_eq!(limiter.receive_len(10), None);
}

#[test]
fn a_wait_is_over_after_an_interval() {
    let mut limiter = DefaultSpeedLimiter::new(Some(10), 0);
    limiter.receive_len(10);
    assert!(matches!(limiter.begin_wait(10, SECOND), LimitStep::Sleep(0)));
    assert!(matches!(limiter.begin_wait(10, SECOND - 1), LimitStep::Sleep(1)));
    limiter.end_wait(10, 3 * SECOND);
    limiter.receive_len(10);
    assert!(matches!(limiter.begin_wait(10, 2 * SECOND), LimitStep::Sleep(SECOND)));
}

#[test]
fn speed_stays_below_the_limit() {
    let limit = 100usize;
    let mut limiter = DefaultSpeedLimiter::new(Some(limit), 0);
    let mut now: u128 = 0;
    let mut total = 0usize;
    for _ in 0..50 {
        if let Some(wait) = limiter.receive_len(30) {
            if let LimitStep::Sleep(nanos) = limiter.begin_wait(wait, now) {
                now += nanos;
                limiter.end_wait(wait, now);
            }
        }
        total += 30;
        let seconds = (now / SECOND) as usize;
        assert!(total <= limit * (seconds + 1) + 30);
    }
    assert_eq!(total, limit * (now / SECOND) as usize + limiter.cur_read);
}

#[test]
fn a_changed_limit_begins_anew() {
    let extension = DownloadSpeedLimiterExtension::new(Some(10), 0);
    let mut state = extension.build();
    state.speed_limiter.receive_len(50);
    state.change_speed(Some(20), 7);
    assert_eq!(state.speed_limiter.byte_count_per, 20);
    assert_eq!(state.speed_limiter.cur_read, 0);
    assert_eq!(state.speed_limiter.last_instant, 7);
    state.speed_limiter.receive_len(5);
    state.meet_start(9);
    assert_eq!(state.speed_limiter.cur_read, 0);
    assert_eq!(state.speed_limiter.byte_count_per, 20);
    state.change_speed(None, 11);
    assert_eq!(state.speed_limiter.byte_count_per, 0);
    let mut limiter = DefaultSpeedLimiter::new(Some(3), 0);
    limiter.reset(4);
    let extension = DownloadSpeedLimiterExtension::from_limiter(limiter);
    assert_eq!(extension.limiter.last_instant, 4);
}

#[test]
fn speed_is_what_came_in_a_second() {
    let mut tracker = DownloadSpeedDownloaderWrapper::new(DownloadSpeedTrackerExtension::new());
    assert!(!tracker.log);
    assert_eq!(tracker.download_speed.download_speed(), 0);
    let data = ChunkData {
        iter_count: 0,
        remaining: RemainingChunks::new(4, 100),
        last_incomplete_chunks: Vec::new(),
    };
    let manager = ChunkManager::new(1, 40, ChunkIterator::new(100, data), None, 3);
    tracker.download(&DownloadWay::Ranges(manager));
    tracker.meet_second(55);
    assert_eq!(tracker.download_speed.download_speed(), 15);
    tracker.meet_second(55);
    assert_eq!(tracker.download_speed.download_speed(), 0);
    tracker.meet_second(100);
    assert_eq!(tracker.download_speed.download_speed(), 45);
    tracker.meet_second(10);
    assert_eq!(tracker.download_speed.download_speed(), 0);
    tracker.meet_second(12);
    assert_eq!(tracker.download_speed.download_speed(), 2);
    tracker.meet_end();
    assert_eq!(tracker.download_speed.download_speed(), 0);
    tracker.download(&DownloadWay::Single(SingleDownload::new(7, None)));
    assert_eq!(tracker.last_downloaded_len, 0);
    assert!(!DownloadSpeedTrackerExtension::default().log);
}

#[test]
fn a_status_follows_the_download() {
    let mut controller =
        DownloadStatusTrackerController::new(DownloadStatusTrackerExtension::new());
    assert_eq!(controller.status(), &DownloaderStatus::NoStart);
    assert_eq!(controller.prepare_download(), Ok(()));
    assert_eq!(
        controller.status(),
        &DownloaderStatus::Pending(NetworkItemPendingType::Starting)
    );
    controller.handle_prepare_download(Ok(()));
    assert_eq!(controller.prepare_download(), Err(DownloadStartError::Starting));
    controller.download();
    assert_eq!(controller.prepare_download(), Err(DownloadStartError::Initializing));
    controller.meet_running();
    assert_eq!(controller.prepare_download(), Err(DownloadStartError::AlreadyDownloading));
    assert!(!controller.status().is_end());
    controller.cancel();
    assert_eq!(controller.prepare_download(), Err(DownloadStartError::Stopping));
    controller.meet_end(&Ok(DownloadingEndCause::Cancelled));
    assert_eq!(controller.status(), &DownloaderStatus::NoStart);
    assert_eq!(controller.prepare_download(), Ok(()));
}

#[test]
fn a_status_ends_with_the_download() {
    let mut controller =
        DownloadStatusTrackerController::new(DownloadStatusTrackerExtension { log: true });
    assert!(controller.status_sender.log);
    controller.meet_end(&Ok(DownloadingEndCause::DownloadFinished));
    assert_eq!(controller.status(), &DownloaderStatus::Finished);
    controller.meet_end(&Err("broken".to_string()));
    assert_eq!(controller.status(), &DownloaderStatus::Error("broken".to_string()));
    assert!(controller.status().is_end());
    assert_eq!(controller.prepare_download(), Ok(()));
    controller.handle_prepare_download(Err("no directory".to_string()));
    assert_eq!(controller.status(), &DownloaderStatus::Error("no directory".to_string()));
}

#[test]
fn some_statuses_are_ends() {
    assert!(DownloaderStatus::NoStart.is_end());
    assert!(DownloaderStatus::Finished.is_end());
    assert!(DownloaderStatus::Error(String::new()).is_end());
    assert!(!DownloaderStatus::Running.is_end());
    assert!(!DownloaderStatus::Pending(NetworkItemPendingType::QueueUp).is_end());
}

#[test]
fn a_queued_download_can_start() {
    let mut controller =
        DownloadStatusTrackerController::new(DownloadStatusTrackerExtension::new());
    controller
        .status_sender
        .change_status(DownloaderStatus::Pending(NetworkItemPendingType::QueueUp));
    assert_eq!(controller.prepare_download(), Ok(()));
}

struct Recorder {
    name: &'static str,
    log: Vec<String>,
    refuses: bool,
}

impl Recorder {
    fn new(name: &'static str) -> Recorder {
        Recorder { name, log: Vec::new(), refuses: false }
    }
}

impl DownloaderWrapper<Vec<String>, u32, String, String> for Recorder {
    fn prepare_download(&mut self, downloader: &mut Vec<String>) -> Result<(), String> {
        downloader.push(format!("{} prepares", self.name));
        self.log.push("prepare".to_string());
        if self.refuses {
            Err(format!("{} refuses", self.name))
        } else {
            Ok(())
        }
    }

    fn handle_prepare_download_result(
        &mut self,
        downloader: &mut Vec<String>,
        result: Result<u32, String>,
    ) -> Result<u32, String> {
        downloader.push(format!("{} handles", self.name));
        result.map(|n| n * 10 + 1).map_err(|err| format!("{}, {}", err, self.name))
    }

    fn download(&mut self, downloader: &mut Vec<String>, future: u32) -> Result<u32, String> {
        downloader.push(format!("{} downloads", self.name));
        if self.refuses {
            Err(format!("{} refuses", self.name))
        } else {
            Ok(future * 10 + 2)
        }
    }

    fn on_cancel(&self) -> Vec<String> {
        vec![format!("{} cancels", self.name)]
    }
}

#[test]
fn two_that_were_added_are_told_in_turn() {
    let mut both = (Recorder::new("a"), (Recorder::new("b"), ()));
    let mut told = Vec::new();
    assert_eq!(both.prepare_download(&mut told), Ok(()));
    assert_eq!(both.handle_prepare_download_result(&mut told, Ok(7)), Ok(711));
    assert_eq!(
        both.handle_prepare_download_result(&mut told, Err("x".to_string())),
        Err("x, a, b".to_string())
    );
    assert_eq!(both.download(&mut told, 3), Ok(322));
    let expected = [
        "a prepares",
        "b prepares",
        "a handles",
        "b handles",
        "a handles",
        "b handles",
        "a downloads",
        "b downloads",
    ];
    assert_eq!(told, expected);
    assert_eq!(both.on_cancel(), ["a cancels", "b cancels"]);
}

#[test]
fn the_first_refusal_stops() {
    let mut both = (Recorder::new("a"), Recorder::new("b"));
    both.0.refuses = true;
    let mut told = Vec::new();
    assert_eq!(both.prepare_download(&mut told), Err("a refuses".to_string()));
    assert_eq!(both.download(&mut told, 3), Err("a refuses".to_string()));
    assert_eq!(told, ["a prepares", "a downloads"]);
    assert!(both.1.log.is_empty());
}

struct Refusal;

impl DownloaderWrapper<HttpFileDownloader, DirectoryStep, DownloadStartError, ()> for Refusal {
    fn prepare_download(&mut self, _: &mut HttpFileDownloader) -> Result<(), DownloadStartError> {
        Err(DownloadStartError::Other)
    }

    fn handle_prepare_download_result(
        &mut self,
        _: &mut HttpFileDownloader,
        result: Result<DirectoryStep, DownloadStartError>,
    ) -> Result<DirectoryStep, DownloadStartError> {
        result
    }

    fn download(
        &mut self,
        _: &mut HttpFileDownloader,
        step: DirectoryStep,
    ) -> Result<DirectoryStep, DownloadStartError> {
        Ok(step)
    }

    fn on_cancel(&self) -> Vec<()> {
        vec![()]
    }
}

fn downloader() -> HttpFileDownloader {
    HttpDownloaderBuilder::new("https://example.net/f".to_string(), "/tmp/".to_string())
        .build(())
        .0
        .inner
}

#[test]
fn a_downloader_with_nothing_added_downloads() {
    let mut extended = ExtendedHttpFileDownloader::new(downloader(), ());
    let r: Result<DirectoryStep, DownloadStartError> =
        extended.prepare_download::<DirectoryStep, DownloadStartError, ()>();
    assert_eq!(r, Ok(DirectoryStep::Create));
    let response = ResponseInfo { etag: None, content_length: Some(25), serves_ranges: true };
    extended.inner.begin_download(response, None);
    assert!(extended.is_downloading());
    assert_eq!(extended.change_connection_count(4), Ok(()));
    assert_eq!(extended.change_chunk_size(4), Ok(()));
    assert_eq!(extended.downloaded_len(), 0);
    assert_eq!(extended.current_total_size(), None);
    assert!(extended.get_chunks().is_empty());
    assert_eq!(extended.get_file_path(), "/tmp/f");
    assert!(extended.get_downloading_state().is_some());
    assert_eq!(extended.config().download_connection_count, 3);
    let r = extended.prepare_download::<DirectoryStep, DownloadStartError, ()>();
    assert_eq!(r, Err(DownloadStartError::AlreadyDownloading));
    let (notices, state) = extended.cancel::<()>();
    assert!(notices.is_empty());
    assert!(state.is_some());
    assert!(!extended.is_downloading());
}

#[test]
fn what_was_added_can_refuse_a_download() {
    let mut extended = ExtendedHttpFileDownloader::new(downloader(), Refusal);
    extended.inner.last_downloaded_len = 5;
    let r = extended.prepare_download::<DirectoryStep, DownloadStartError, ()>();
    assert_eq!(r, Err(DownloadStartError::Other));
    assert_eq!(extended.downloaded_len(), 5);
    assert_eq!(extended.cancel::<()>().0.len(), 1);
}

struct Counter(u32);

impl DownloadExtensionBuilder<Vec<u32>> for Counter {
    type Wrapper = u32;
    type ExtensionState = String;

    fn build(self, downloader: &mut Vec<u32>) -> (u32, String) {
        downloader.push(self.0);
        (self.0, self.0.to_string())
    }
}

#[test]
fn extensions_are_added_in_turn() {
    let mut downloader = Vec::new();
    let (wrappers, states) = (Counter(1), (Counter(2), ())).build(&mut downloader);
    assert_eq!(downloader, [1, 2]);
    assert_eq!(wrappers, (1, (2, ())));
    assert_eq!(states, ("1".to_string(), ("2".to_string(), ())));
}

struct NameReader;

impl DownloadExtensionBuilder<HttpFileDownloader> for NameReader {
    type Wrapper = ();
    type ExtensionState = String;

    fn build(self, downloader: &mut HttpFileDownloader) -> ((), String) {
        downloader.last_downloaded_len = 7;
        ((), downloader.config.file_name.clone())
    }
}

#[test]
fn a_builder_adds_to_the_downloader_that_it_sets_up() {
    let builder =
        HttpDownloaderBuilder::new("https://example.net/d/f.bin".to_string(), "/tmp".to_string());
    let (extended, (name, ())) = builder.chunk_size(9).build((NameReader, ()));
    assert_eq!(name, "f.bin");
    assert_eq!(extended.downloaded_len(), 7);
    assert_eq!(extended.config().chunk_size, 9);
    assert!(!extended.is_downloading());
}

#[test]
fn an_exclusive_value_comes_out_again() {
    let mut exclusive = Exclusive::new(vec![1]);
    exclusive.get_mut().push(2);
    assert_eq!(exclusive.into_inner(), vec![1, 2]);
    assert_eq!(Exclusive::from(7).into_inner(), 7);
}
