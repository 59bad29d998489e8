//! The status of a download.

use vstd::prelude::*;

use crate::downloader::{DownloadStartError, DownloadingEndCause};

verus! {

/// What a download is waiting for.
#[derive(Debug, Copy, Clone, PartialEq, Eq, Structural)]
pub enum NetworkItemPendingType {
    QueueUp,
    Starting,
    Stopping,
    Initializing,
}

/// How a download stands.
#[derive(Debug, Clone, PartialEq, Eq)]
pub enum DownloaderStatus {
    NoStart,
    Running,
    Pending(NetworkItemPendingType),
    /// The download went wrong, with this message.
    Error(String),
    Finished,
}

impl DownloaderStatus {
    /// Whether nothing goes on.
    pub open spec fn has_ended(self) -> bool {
        self is NoStart || self is Error || self is Finished
    }

    /// Why another download cannot begin, if it cannot.
    pub open spec fn refusal(self) -> Option<DownloadStartError> {
        match self {
            DownloaderStatus::Running => Some(DownloadStartError::AlreadyDownloading),
            DownloaderStatus::Pending(NetworkItemPendingType::Starting) => Some(
                DownloadStartError::Starting,
            ),
            DownloaderStatus::Pending(NetworkItemPendingType::Stopping) => Some(
                DownloadStartError::Stopping,
            ),
            DownloaderStatus::Pending(NetworkItemPendingType::Initializing) => Some(
                DownloadStartError::Initializing,
            ),
            _ => None,
        }
    }

    /// Whether nothing goes on.
    pub fn is_end(&self) -> (b: bool)
        ensures
            b == self.has_ended(),
    {
        matches!(
            self,
            DownloaderStatus::NoStart | DownloaderStatus::Error(_) | DownloaderStatus::Finished
        )
    }
}

/// Holds the status.
#[derive(Debug)]
pub struct DownloadStatusSender {
    /// Whether changes are logged.
    pub log: bool,
    pub status: DownloaderStatus,
}

impl DownloadStatusSender {
    /// Sets the status.
    pub fn change_status(&mut self, status: DownloaderStatus)
        ensures
            *final(self) == (DownloadStatusSender { log: old(self).log, status }),
    {
        self.status = status;
    }
}

/// Adds a status to a download.
#[derive(Debug)]
pub struct DownloadStatusTrackerExtension {
    /// Whether changes are logged.
    pub log: bool,
}

impl DownloadStatusTrackerExtension {
    /// A status whose changes are not logged.
    pub fn new() -> (r: Self)
        ensures
            r == (DownloadStatusTrackerExtension { log: false }),
    {
        Self { log: false }
    }
}

/// Lets the status of a download follow what happens to it.
#[derive(Debug)]
pub struct DownloadStatusTrackerController {
    pub status_sender: DownloadStatusSender,
}

/// The status at the end of a download.
pub open spec fn is_end_status(
    result: Result<DownloadingEndCause, String>,
    status: DownloaderStatus,
) -> bool {
    match result {
        Ok(DownloadingEndCause::DownloadFinished) => status == DownloaderStatus::Finished,
        Ok(DownloadingEndCause::Cancelled) => status == DownloaderStatus::NoStart,
        Err(text) => status matches DownloaderStatus::Error(message) && message@ == text@,
    }
}

impl DownloadStatusTrackerController {
    /// A download that was not started.
    pub fn new(param: DownloadStatusTrackerExtension) -> (r: Self)
        ensures
            r.status_sender == (DownloadStatusSender {
                log: param.log,
                status: DownloaderStatus::NoStart,
            }),
    {
        Self {
            status_sender: DownloadStatusSender {
                log: param.log,
                status: DownloaderStatus::NoStart,
            },
        }
    }

    /// The status.
    pub fn status(&self) -> (r: &DownloaderStatus)
        ensures
            *r == self.status_sender.status,
    {
        &self.status_sender.status
    }

    /// Meets the wish to start, and refuses it unless nothing goes on.
    pub fn prepare_download(&mut self) -> (r: Result<(), DownloadStartError>)
        ensures
            match old(self).status_sender.status.refusal() {
                Some(err) => r == Err::<(), DownloadStartError>(err) && *final(self) == *old(
                    self,
                ),
                None => r is Ok && final(self).status_sender == (DownloadStatusSender {
                    status: DownloaderStatus::Pending(NetworkItemPendingType::Starting),
                    ..old(self).status_sender
                }),
            },
    {
        match self.status() {
            DownloaderStatus::Running => return Err(DownloadStartError::AlreadyDownloading),
            DownloaderStatus::Pending(pending_type) => match pending_type {
                NetworkItemPendingType::Starting => {
                    return Err(DownloadStartError::Starting);
                },
                NetworkItemPendingType::Stopping => {
                    return Err(DownloadStartError::Stopping);
                },
                NetworkItemPendingType::Initializing => {
                    return Err(DownloadStartError::Initializing);
                },
                _ => {},
            },
            _ => {},
        };
        self.status_sender.change_status(
            DownloaderStatus::Pending(NetworkItemPendingType::Starting),
        );
        Ok(())
    }

    /// Meets what became of starting; `Err` holds the message of what went wrong.
    pub fn handle_prepare_download(&mut self, prepare_download_result: Result<(), String>)
        ensures
            match prepare_download_result {
                Ok(_) => *final(self) == *old(self),
                Err(text) => final(self).status_sender == (DownloadStatusSender {
                    status: DownloaderStatus::Error(text),
                    ..old(self).status_sender
                }),
            },
    {
        if let Err(text) = prepare_download_result {
            self.status_sender.change_status(DownloaderStatus::Error(text));
        }
    }

    /// Meets the begin of a download.
    pub fn download(&mut self)
        ensures
            final(self).status_sender == (DownloadStatusSender {
                status: DownloaderStatus::Pending(NetworkItemPendingType::Initializing),
                ..old(self).status_sender
            }),
    {
        self.status_sender.change_status(
            DownloaderStatus::Pending(NetworkItemPendingType::Initializing),
        );
    }

    /// Meets the first bytes of a download.
    ///
    /// The same is met if the download is not going to tell of them any more.
    pub fn meet_running(&mut self)
        ensures
            final(self).status_sender == (DownloadStatusSender {
                status: DownloaderStatus::Running,
                ..old(self).status_sender
            }),
    {
        self.status_sender.change_status(DownloaderStatus::Running);
    }

    /// Meets the end of a download; `Err` holds the message of what went wrong.
    pub fn meet_end(&mut self, result: &Result<DownloadingEndCause, String>)
        ensures
            is_end_status(*result, final(self).status_sender.status),
            final(self).status_sender.log == old(self).status_sender.log,
    {
        match result {
            Ok(end_cause) => match end_cause {
                DownloadingEndCause::DownloadFinished => {
                    self.status_sender.change_status(DownloaderStatus::Finished);
                },
                DownloadingEndCause::Cancelled => {
                    self.status_sender.change_status(DownloaderStatus::NoStart);
                },
            },
            Err(text) => {
                self.status_sender.change_status(DownloaderStatus::Error(text.clone()));
            },
        }
    }

    /// Meets the wish to cancel.
    pub fn cancel(&mut self)
        ensures
            final(self).status_sender == (DownloadStatusSender {
                status: DownloaderStatus::Pending(NetworkItemPendingType::Stopping),
                ..old(self).status_sender
            }),
    {
        self.status_sender.change_status(
            DownloaderStatus::Pending(NetworkItemPendingType::Stopping),
        );
    }
}

/// Once a download has ended, however it ended, the next can begin.
pub proof fn law_ended_download_can_start_again(
    result: Result<DownloadingEndCause, String>,
    status: DownloaderStatus,
)
    requires
        is_end_status(result, status),
    ensures
        status.has_ended(),
        status.refusal() is None,
{
}

/// From the wish to start to the end of a download, no other can begin: each status on the way
/// refuses it for its own reason.
pub proof fn law_download_under_way_refuses_another()
    ensures
        DownloaderStatus::Pending(NetworkItemPendingType::Starting).refusal() == Some(
            DownloadStartError::Starting,
        ),
        DownloaderStatus::Pending(NetworkItemPendingType::Initializing).refusal() == Some(
            DownloadStartError::Initializing,
        ),
        DownloaderStatus::Running.refusal() == Some(DownloadStartError::AlreadyDownloading),
        DownloaderStatus::Pending(NetworkItemPendingType::Stopping).refusal() == Some(
            DownloadStartError::Stopping,
        ),
        forall|status: DownloaderStatus|
            (#[trigger] status.refusal()) is None <==> status.has_ended() || status
                == DownloaderStatus::Pending(NetworkItemPendingType::QueueUp),
{
}

/// The status at the end of a download tells how it ended, and what went wrong in the same words.
pub proof fn law_end_status_tells_the_end(
    result: Result<DownloadingEndCause, String>,
    status: DownloaderStatus,
)
    requires
        is_end_status(result, status),
    ensures
        status is Finished <==> result == Ok::<DownloadingEndCause, String>(
            DownloadingEndCause::DownloadFinished,
        ),
        status is NoStart <==> result == Ok::<DownloadingEndCause, String>(
            DownloadingEndCause::Cancelled,
        ),
        match (result, status) {
            (Err(text), DownloaderStatus::Error(message)) => message@ == text@,
            (Err(_), _) => false,
            (Ok(_), _) => !(status is Error),
        },
{
}

/// Nothing goes on exactly if a download was not started, went wrong, or is finished.
pub proof fn law_ended_is_neither_running_nor_pending(status: DownloaderStatus)
    ensures
        status.has_ended() <==> !(status is Running) && !(status is Pending),
{
}

} // verus!
