//! The decisions of an HTTP downloader: how a file is cut into chunks that several connections
//! fetch, what is counted, kept and written, and how a download begins, ends and goes on later.
//!
//! Requests, files, clocks and locks are left to the program that uses this library. It reports
//! what happened, and is told what to do next.

pub mod answers;
pub mod chunk_item;
pub mod chunk_iterator;
pub mod chunk_manager;
pub mod download_way;
pub mod downloader;
pub mod downloader_builder;
pub mod exclusive;
pub mod extensions;
pub mod file_content;
pub mod header_fields;
pub mod paths;
pub mod progress;
pub mod sorting;
pub mod spans;

pub use chunk_item::{
    ChunkAction, ChunkDownload, ChunkDownloadView, ChunkEvent, ChunkItem, DownloadedLenChangeNotify,
};
pub use chunk_iterator::{
    ChunkData, ChunkDataView, ChunkInfo, ChunkIterator, ChunkRange, RemainingChunks,
};
pub use chunk_manager::{
    ChunkEndStep, ChunkManager, ChunkManagerView, ChunksInfo, DownloadRun, LenChangedNotify,
};
pub use download_way::{
    DownloadWay, DownloadWayView, SingleAction, SingleBuffer, SingleDownload, SingleEvent,
};
pub use downloader::{
    ChangeChunkSizeError, ChangeConnectionCountError, DirectoryStep, DownloadError,
    DownloadStartError, DownloadToEndError, DownloadingEndCause, DownloadingState,
    ExtendedHttpFileDownloader, HttpFileDownloader, HttpFileDownloaderView,
    HttpResponseInvalidCause, RequestState, RequestStep, ResponseInfo,
};
pub use downloader_builder::{
    HttpDownloadConfig, HttpDownloaderBuilder, HttpRedirectionHandle, RequestError, UrlFileName,
};
pub use extensions::{
    breakpoint_resume, bson_file_archiver, speed_limiter, speed_tracker, status_tracker,
    DownloadArchiveData, DownloadExtensionBuilder, Downloader, DownloaderWrapper,
};
pub use header_fields::{ETag, HttpRequest, HttpVersion};
