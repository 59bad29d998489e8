//! The number of bytes that came in the last second.

use vstd::prelude::*;

use crate::download_way::{DownloadWay, DownloadWayView};

verus! {

/// Adds the speed to a download.
#[derive(Debug)]
pub struct DownloadSpeedTrackerExtension {
    /// Whether the speed is logged.
    pub log: bool,
}

impl Default for DownloadSpeedTrackerExtension {
    fn default() -> (r: Self)
        ensures
            r == (DownloadSpeedTrackerExtension { log: false }),
    {
        Self { log: false }
    }
}

impl DownloadSpeedTrackerExtension {
    /// A speed that is not logged.
    pub fn new() -> (r: Self)
        ensures
            r == (DownloadSpeedTrackerExtension { log: false }),
    {
        Self::default()
    }
}

/// Holds the speed.
#[derive(Debug)]
pub struct DownloadSpeedTrackerState {
    pub speed: u64,
}

impl DownloadSpeedTrackerState {
    /// The speed.
    pub fn download_speed(&self) -> (r: u64)
        ensures
            r == self.speed,
    {
        self.speed
    }
}

/// Compares every second how many bytes have come with how many had come before.
#[derive(Debug)]
pub struct DownloadSpeedDownloaderWrapper {
    pub download_speed: DownloadSpeedTrackerState,
    pub last_downloaded_len: u64,
    pub log: bool,
}

/// The number of bytes that came since `last` had come; zero if the count was set back.
pub open spec fn speed_between(last: u64, downloaded_len: u64) -> int {
    if downloaded_len > last {
        downloaded_len - last
    } else {
        0
    }
}

/// The number of bytes to compare with first: what is counted at the begin of a download by
/// chunks, which may go on from an archive.
pub open spec fn first_downloaded_len(download_way: DownloadWayView) -> int {
    match download_way {
        DownloadWayView::Ranges(m) => m.downloaded_len,
        DownloadWayView::Single(_) => 0,
    }
}

impl DownloadSpeedDownloaderWrapper {
    /// No speed yet.
    pub fn new(extension: DownloadSpeedTrackerExtension) -> (r: Self)
        ensures
            r.download_speed.speed == 0,
            r.last_downloaded_len == 0,
            r.log == extension.log,
    {
        Self {
            download_speed: DownloadSpeedTrackerState { speed: 0 },
            last_downloaded_len: 0,
            log: extension.log,
        }
    }

    /// Meets the begin of a download.
    pub fn download(&mut self, download_way: &DownloadWay)
        ensures
            final(self).last_downloaded_len == first_downloaded_len(download_way@),
            final(self).download_speed == old(self).download_speed,
            final(self).log == old(self).log,
    {
        self.last_downloaded_len = if let DownloadWay::Ranges(chunk_manager) = download_way {
            chunk_manager.downloaded_len()
        } else {
            0
        };
    }

    /// Meets the end of a second at which `downloaded_len` bytes have come.
    pub fn meet_second(&mut self, downloaded_len: u64)
        ensures
            final(self).download_speed.speed == speed_between(
                old(self).last_downloaded_len,
                downloaded_len,
            ),
            final(self).last_downloaded_len == downloaded_len,
            final(self).log == old(self).log,
    {
        let last_downloaded_len: u64 = self.last_downloaded_len;
        let larger: u64 = if downloaded_len > last_downloaded_len {
            downloaded_len
        } else {
            last_downloaded_len
        };
        self.download_speed.speed = larger - last_downloaded_len;
        self.last_downloaded_len = downloaded_len;
    }

    /// Meets the end of a download.
    pub fn meet_end(&mut self)
        ensures
            final(self).download_speed.speed == 0,
            final(self).last_downloaded_len == old(self).last_downloaded_len,
            final(self).log == old(self).log,
    {
        self.download_speed.speed = 0;
    }
}

/// The sum of the speeds at the ends of seconds at which these many bytes have come.
pub open spec fn total_speed(first: u64, counts: Seq<u64>) -> int
    decreases counts.len(),
{
    if counts.len() == 0 {
        0
    } else {
        let front = counts.drop_last();
        total_speed(first, front) + speed_between(
            if front.len() == 0 {
                first
            } else {
                front.last()
            },
            counts.last(),
        )
    }
}

/// If the count is never set back, the speeds add up to what came.
pub proof fn law_speeds_add_up(first: u64, counts: Seq<u64>)
    requires
        forall|j: int, k: int| 0 <= j < k < counts.len() ==> counts[j] <= counts[k],
        counts.len() > 0 ==> first <= counts[0],
    ensures
        total_speed(first, counts) == (if counts.len() == 0 {
            0
        } else {
            counts.last() - first
        }),
    decreases counts.len(),
{
    if counts.len() > 0 {
        let front = counts.drop_last();
        law_speeds_add_up(first, front);
        if front.len() > 0 {
            assert(counts[front.len() - 1] <= counts[counts.len() - 1]);
        }
    }
}

/// The speed is what came since, or zero if the count was set back: it is never both ways.
pub proof fn law_speed_is_what_came_since(last: u64, downloaded_len: u64)
    ensures
        speed_between(last, downloaded_len) - speed_between(downloaded_len, last) == downloaded_len
            - last,
        speed_between(last, downloaded_len) >= 0,
        speed_between(last, downloaded_len) == 0 || speed_between(downloaded_len, last) == 0,
{
}

/// What is counted at the begin of a download by chunks is no speed, and of another download all
/// that is counted is.
pub proof fn law_first_count_is_what_an_archive_had(way: DownloadWayView)
    ensures
        way is Ranges ==> first_downloaded_len(way) == way.downloaded_len(),
        way is Single ==> first_downloaded_len(way) == 0,
{
}

} // verus!
