//! What is in the file while it is downloaded by chunks from a server whose file stays the same: a
//! finished download leaves the whole file, and an archive leaves out only what is in the file.

use vstd::prelude::*;

use crate::chunk_item;
use crate::chunk_item::{ChunkAction, ChunkDownloadView, ChunkEvent, ChunkItem};
use crate::chunk_manager;
use crate::chunk_manager::ChunkManagerView;
use crate::chunk_iterator::ChunkDataView;
use crate::downloader;
use crate::downloader::{DownloadingEndCause, ResponseInfo};
use crate::downloader_builder::HttpDownloadConfig;
use crate::extensions::breakpoint_resume;
use crate::extensions::DownloadArchiveData;
use crate::progress;
use crate::progress::{RunState, RunStep};

verus! {

/// The file once `bytes` are written at `position`.
pub open spec fn after_write(
    file: Map<int, u8>,
    position: int,
    bytes: Seq<u8>,
) -> Map<int, u8> {
    Map::new(
        |i: int| file.contains_key(i) || position <= i < position + bytes.len(),
        |i: int|
            if position <= i < position + bytes.len() {
                bytes[i - position]
            } else {
                file[i]
            },
    )
}

/// Whether the file has the byte of `content` at position `i`.
pub open spec fn has_byte(file: Map<int, u8>, content: Seq<u8>, i: int) -> bool {
    file.contains_key(i) && file[i] == content[i]
}

/// Whether the file has all bytes of `content`.
pub open spec fn has_all(file: Map<int, u8>, content: Seq<u8>) -> bool {
    forall|i: int| 0 <= i < content.len() ==> #[trigger] has_byte(file, content, i)
}

/// The downloads of the chunks that are being downloaded: those that began before, and new ones.
pub open spec fn downloads_of(
    chunks: Map<usize, ChunkDownloadView>,
    m: ChunkManagerView,
) -> Map<usize, ChunkDownloadView> {
    Map::new(
        |k: usize| m.downloading.contains_key(k),
        |k: usize|
            if chunks.contains_key(k) {
                chunks[k]
            } else {
                ChunkDownloadView::fresh(m.downloading[k].chunk_info, m.etag, m.retry_count)
            },
    )
}

/// Something that happens to a download by chunks.
pub enum FileStep {
    /// This happens to the request for a chunk, and what it calls for is done.
    Chunk { index: usize, event: ChunkEvent },
    /// There are to be these many connections.
    ConnectionCount { count: u8 },
    /// Chunks are to have this size.
    ChunkSize { chunk_size: usize },
}

/// How far a download by chunks has come, and what is in the file.
pub struct FileRun {
    pub state: RunState,
    /// The downloads of the chunks that are being downloaded.
    pub chunks: Map<usize, ChunkDownloadView>,
    /// The chunks whose download has ended before all had come: what had come was written.
    pub ended: Set<usize>,
    pub file: Map<int, u8>,
}

impl FileRun {
    /// Whether the step can be met while the server serves `content`: bytes continue it where they
    /// were asked for, a body does not end before all has come, and a response has the tag that is
    /// expected.
    pub open spec fn can_take(self, content: Seq<u8>, step: FileStep) -> bool {
        match step {
            FileStep::Chunk { index, event } => {
                let download = self.chunks[index];
                let come = download.chunk.range.start + download.bytes.len();
                &&& self.chunks.contains_key(index)
                &&& !self.ended.contains(index)
                &&& download.can_meet(event)
                &&& download.is_complete_at(event)
                &&& event matches ChunkEvent::Bytes(bytes) ==> bytes@ == content.subrange(
                    come,
                    come + bytes@.len(),
                )
                &&& event is Response ==> download.action(event) is ReadBody
                &&& event is BodyEnded ==> self.state.manager.after_removal(index).data.can_draw()
            },
            FileStep::ConnectionCount { count } => self.state.can_take(
                RunStep::ConnectionCount { count },
            ),
            FileStep::ChunkSize { chunk_size } => self.state.can_take(
                RunStep::ChunkSize { chunk_size },
            ),
        }
    }

    /// The state after the step.
    pub open spec fn after(self, step: FileStep) -> FileRun {
        match step {
            FileStep::Chunk { index, event } => self.after_event(index, event),
            FileStep::ConnectionCount { count } => self.after_run_step(
                RunStep::ConnectionCount { count },
            ),
            FileStep::ChunkSize { chunk_size } => self.after_run_step(
                RunStep::ChunkSize { chunk_size },
            ),
        }
    }

    /// The state after a step by which chunks may be taken.
    pub open spec fn after_run_step(self, step: RunStep) -> FileRun {
        let state = self.state.after(step);
        FileRun { state, chunks: downloads_of(self.chunks, state.manager), ..self }
    }

    /// The state once this happened to the request for a chunk, and what it calls for was done.
    pub open spec fn after_event(self, index: usize, event: ChunkEvent) -> FileRun {
        let download = self.chunks[index];
        let next = download.after(event);
        let run = FileRun { chunks: self.chunks.insert(index, next), ..self };
        match download.action(event) {
            ChunkAction::CountAndReadBody(len) => FileRun {
                state: self.state.after(RunStep::Received { index, len }),
                ..run
            },
            ChunkAction::WriteAndEnd(position, DownloadingEndCause::DownloadFinished) => {
                let state = self.state.after(RunStep::Finished { index });
                FileRun {
                    state,
                    chunks: downloads_of(self.chunks.remove(index), state.manager),
                    ended: self.ended,
                    file: after_write(self.file, position as int, next.bytes),
                }
            },
            ChunkAction::WriteAndEnd(position, DownloadingEndCause::Cancelled) => run.after_end(
                index,
                after_write(self.file, position as int, next.bytes),
                Ok(DownloadingEndCause::Cancelled),
            ),
            ChunkAction::WriteAndFailRequest(position) => run.after_end(
                index,
                after_write(self.file, position as int, next.bytes),
                Err(()),
            ),
            _ => run,
        }
    }

    /// The state once the download of a chunk has ended like this before all had come.
    pub open spec fn after_end(
        self,
        index: usize,
        file: Map<int, u8>,
        result: Result<DownloadingEndCause, ()>,
    ) -> FileRun {
        FileRun {
            state: RunState {
                manager: if self.state.run.undisturbed() {
                    ChunkManagerView { connection_count: 0, ..self.state.manager }
                } else {
                    self.state.manager
                },
                run: self.state.run.after_disturbance(result),
            },
            ended: self.ended.insert(index),
            file,
            ..self
        }
    }

    /// Whether the download is finished with the step.
    pub open spec fn finishes_with(self, step: FileStep) -> bool {
        step matches FileStep::Chunk { index, event: ChunkEvent::BodyEnded }
            && self.state.finishes_with(RunStep::Finished { index })
    }

    /// Whether the download goes on and the file has what it should: every byte of `content` that
    /// is not to come any more, and what has come of a chunk whose download has ended. What has
    /// come of the other chunks is at hand.
    pub open spec fn is_right(self, content: Seq<u8>) -> bool {
        let m = self.state.manager;
        &&& self.state.goes_on()
        &&& m.content_length == content.len()
        &&& self.chunks.dom() == m.downloading.dom()
        &&& forall|k: usize| #[trigger]
            m.downloading.contains_key(k) ==> is_download_of(
                self.chunks[k],
                m.downloading[k],
                content,
            )
        &&& forall|i: int|
            0 <= i < content.len() && !progress::is_pending(m, i) ==> #[trigger] has_byte(
                self.file,
                content,
                i,
            )
        &&& forall|k: usize, i: int|
            #![trigger self.ended.contains(k), has_byte(self.file, content, i)]
            self.ended.contains(k) && m.downloading.contains_key(k)
                && m.downloading[k].chunk_info.range.start <= i
                < m.downloading[k].chunk_info.range.start + m.downloading[k].downloaded_len
                ==> has_byte(self.file, content, i)
    }

    /// Whether all chunks that are being downloaded have ended.
    pub open spec fn all_ended(self) -> bool {
        forall|k: usize| #[trigger]
            self.state.manager.downloading.contains_key(k) ==> self.ended.contains(k)
    }
}

/// Whether `download` is that of `item`, and holds the bytes of `content` that were counted.
pub open spec fn is_download_of(
    download: ChunkDownloadView,
    item: ChunkItem,
    content: Seq<u8>,
) -> bool {
    &&& download.chunk == item.chunk_info
    &&& download.bytes.len() == item.downloaded_len
    &&& download.holds(content)
}

/// Writing bytes of `content` where they belong keeps the others.
proof fn lemma_write(file: Map<int, u8>, content: Seq<u8>, position: int, bytes: Seq<u8>)
    requires
        0 <= position <= position + bytes.len() <= content.len(),
        bytes == content.subrange(position, position + bytes.len()),
    ensures
        forall|i: int|
            position <= i < position + bytes.len() ==> #[trigger] has_byte(
                after_write(file, position, bytes),
                content,
                i,
            ),
        forall|i: int|
            has_byte(file, content, i) ==> #[trigger] has_byte(
                after_write(file, position, bytes),
                content,
                i,
            ),
{
}

/// Of a chunk that is taken, nothing has come, and the others stay.
proof fn lemma_taken_chunks(m: ChunkManagerView, n: nat)
    requires
        progress::is_consistent(m),
        m.can_number(n),
    ensures
        forall|k: usize| #[trigger]
            m.after_next_chunks(n).downloading.contains_key(k) ==> if m.downloading.contains_key(
                k,
            ) {
                m.after_next_chunks(n).downloading[k] == m.downloading[k]
            } else {
                m.after_next_chunks(n).downloading[k].downloaded_len == 0
            },
        forall|k: usize| #[trigger]
            m.downloading.contains_key(k) ==> m.after_next_chunks(n).downloading.contains_key(k),
    decreases n,
{
    if n > 0 {
        progress::law_next_chunk(m);
        if m.data.drawn() is Some {
            let next = m.after_next_chunk();
            let rest = (n - 1) as nat;
            lemma_taken_chunks(next, rest);
            let after = m.after_next_chunks(n);
            assert(after == next.after_next_chunks(rest));
            assert forall|k: usize| #[trigger] after.downloading.contains_key(k) implies (
            if m.downloading.contains_key(k) {
                after.downloading[k] == m.downloading[k]
            } else {
                after.downloading[k].downloaded_len == 0
            }) by {
                if m.downloading.contains_key(k) {
                    assert(next.downloading.contains_key(k));
                }
            }
            assert forall|k: usize| #[trigger] m.downloading.contains_key(k) implies
                after.downloading.contains_key(k) by {
                assert(next.downloading.contains_key(k));
            }
        }
    }
}

/// The downloads after chunks were taken are those of the chunks.
proof fn lemma_downloads(
    chunks: Map<usize, ChunkDownloadView>,
    before: Map<usize, ChunkItem>,
    m: ChunkManagerView,
    content: Seq<u8>,
)
    requires
        progress::is_consistent(m),
        m.content_length == content.len(),
        chunks.dom() == before.dom(),
        forall|k: usize| #[trigger]
            before.contains_key(k) ==> is_download_of(chunks[k], before[k], content),
        forall|k: usize| #[trigger]
            m.downloading.contains_key(k) ==> if before.contains_key(k) {
                m.downloading[k] == before[k]
            } else {
                m.downloading[k].downloaded_len == 0
            },
    ensures
        downloads_of(chunks, m).dom() == m.downloading.dom(),
        forall|k: usize| #[trigger]
            m.downloading.contains_key(k) ==> is_download_of(
                downloads_of(chunks, m)[k],
                m.downloading[k],
                content,
            ),
{
    assert(downloads_of(chunks, m).dom() =~= m.downloading.dom());
    assert forall|k: usize| #[trigger] m.downloading.contains_key(k) implies is_download_of(
        downloads_of(chunks, m)[k],
        m.downloading[k],
        content,
    ) by {
        if before.contains_key(k) {
            assert(chunks.dom().contains(k));
        } else {
            assert(!chunks.dom().contains(k));
            let range = m.downloading[k].chunk_info.range;
            assert(range.length() > 0 && range.end < content.len());
            assert(Seq::<u8>::empty() =~= content.subrange(range.start as int, range.start as int));
        }
    }
}

/// A download that goes on goes on after every step with the right file, or it is finished and the
/// file is whole.
pub proof fn law_file_stays_right(run: FileRun, content: Seq<u8>, step: FileStep)
    requires
        run.is_right(content),
        run.can_take(content, step),
    ensures
        if run.finishes_with(step) {
            has_all(run.after(step).file, content)
        } else {
            run.after(step).is_right(content)
        },
{
    match step {
        FileStep::Chunk { index, event } => lemma_event(run, content, index, event),
        FileStep::ConnectionCount { count } => {
            let m = run.state.manager;
            let run_step = RunStep::ConnectionCount { count };
            progress::law_download_goes_on_until_whole(run.state, run_step);
            if count > 0 && m.current_count() <= count {
                lemma_taken_chunks(m, (count - m.current_count()) as nat);
            }
            lemma_run_step(run, content, run_step);
        },
        FileStep::ChunkSize { chunk_size } => {
            let run_step = RunStep::ChunkSize { chunk_size };
            progress::law_download_goes_on_until_whole(run.state, run_step);
            lemma_run_step(run, content, run_step);
        },
    }
}

/// A step by which chunks may be taken leaves the file right.
proof fn lemma_run_step(run: FileRun, content: Seq<u8>, step: RunStep)
    requires
        run.is_right(content),
        step is ConnectionCount || step is ChunkSize,
        run.state.after(step).goes_on(),
        run.state.after(step).manager.content_length == content.len(),
        forall|i: int| #[trigger]
            progress::pending_count(run.state.after(step).manager, i) == progress::pending_count(
                run.state.manager,
                i,
            ) - run.state.finishes(step, i),
        forall|k: usize| #[trigger]
            run.state.after(step).manager.downloading.contains_key(k) ==> if run.state.manager.downloading.contains_key(
                k,
            ) {
                run.state.after(step).manager.downloading[k] == run.state.manager.downloading[k]
            } else {
                run.state.after(step).manager.downloading[k].downloaded_len == 0
            },
    ensures
        run.after_run_step(step).is_right(content),
{
    let m = run.state.manager;
    let after = run.after_run_step(step);
    let next = after.state.manager;
    lemma_downloads(run.chunks, m.downloading, next, content);
    assert forall|i: int| 0 <= i < content.len() && !progress::is_pending(next, i) implies
        #[trigger] has_byte(after.file, content, i) by {
        assert(progress::pending_count(next, i) == progress::pending_count(m, i));
        assert(has_byte(run.file, content, i));
    }
    assert forall|k: usize, i: int|
        #![trigger after.ended.contains(k), has_byte(after.file, content, i)]
        after.ended.contains(k) && next.downloading.contains_key(k)
            && next.downloading[k].chunk_info.range.start <= i
            < next.downloading[k].chunk_info.range.start
            + next.downloading[k].downloaded_len implies has_byte(after.file, content, i) by {
        assert(run.ended.contains(k));
        assert(m.downloading.contains_key(k));
    }
}

/// What happens to the request for a chunk leaves the file right, or whole.
proof fn lemma_event(run: FileRun, content: Seq<u8>, index: usize, event: ChunkEvent)
    requires
        run.is_right(content),
        run.can_take(content, FileStep::Chunk { index, event }),
    ensures
        if run.finishes_with(FileStep::Chunk { index, event }) {
            has_all(run.after_event(index, event).file, content)
        } else {
            run.after_event(index, event).is_right(content)
        },
{
    let m = run.state.manager;
    let download = run.chunks[index];
    let range = download.chunk.range;
    assert(run.chunks.dom().contains(index));
    assert(m.downloading.contains_key(index));
    assert(is_download_of(download, m.downloading[index], content));
    assert(m.downloading[index].valid());
    chunk_item::law_chunk_bytes_follow_the_file(download, content, event);
    match event {
        ChunkEvent::Bytes(bytes) => {
            assert(bytes.len() == bytes@.len());
            lemma_received(run, content, index, event, bytes.len());
        },
        ChunkEvent::BodyEnded => lemma_finished(run, content, index),
        ChunkEvent::Response { .. } => lemma_kept(run, content, index, event),
        ChunkEvent::Cancelled => lemma_ended(run, content, index, event),
        ChunkEvent::RequestFailed | ChunkEvent::BodyFailed => {
            if download.may_retry() {
                lemma_kept(run, content, index, event);
            } else {
                lemma_ended(run, content, index, event);
            }
        },
    }
}

/// An event that changes nothing but the download of its chunk leaves the file right.
proof fn lemma_kept(run: FileRun, content: Seq<u8>, index: usize, event: ChunkEvent)
    requires
        run.is_right(content),
        run.can_take(content, FileStep::Chunk { index, event }),
        run.state.manager.downloading.contains_key(index),
        run.chunks[index].action(event) is Request || run.chunks[index].action(event) is ReadBody,
        run.chunks[index].after(event).holds(content),
        run.chunks[index].after(event).bytes == run.chunks[index].bytes,
    ensures
        run.after_event(index, event).is_right(content),
{
    let after = run.after_event(index, event);
    assert(after.chunks.dom() =~= run.chunks.dom()) by {
        assert(run.chunks.dom().contains(index));
    }
    assert(is_download_of(run.chunks[index], run.state.manager.downloading[index], content));
    assert(after.state == run.state && after.file == run.file && after.ended == run.ended);
}

/// The end of the download of a chunk before all has come leaves the file right.
proof fn lemma_ended(run: FileRun, content: Seq<u8>, index: usize, event: ChunkEvent)
    requires
        run.is_right(content),
        run.can_take(content, FileStep::Chunk { index, event }),
        run.state.manager.downloading.contains_key(index),
        event is Cancelled || run.chunks[index].action(event) is WriteAndFailRequest,
        run.chunks[index].after(event).holds(content),
    ensures
        run.after_event(index, event).is_right(content),
{
    let m = run.state.manager;
    let download = run.chunks[index];
    let after = run.after_event(index, event);
    let next = after.state.manager;
    let start = download.chunk.range.start as int;
    assert(is_download_of(download, m.downloading[index], content));
    assert(event is Cancelled || event is RequestFailed || event is BodyFailed);
    assert(download.after(event).bytes == download.bytes);
    lemma_write(run.file, content, start, download.bytes);
    assert(after.file == after_write(run.file, start, download.bytes));
    assert(after.chunks.dom() =~= run.chunks.dom()) by {
        assert(run.chunks.dom().contains(index));
    }
    assert(next.data == m.data && next.downloading == m.downloading);
    assert(next.content_length == m.content_length && next.downloaded_len == m.downloaded_len);
    assert(after.state.goes_on());
    assert forall|i: int| 0 <= i < content.len() && !progress::is_pending(next, i) implies
        #[trigger] has_byte(after.file, content, i) by {
        assert(!progress::is_pending(m, i));
        assert(has_byte(run.file, content, i));
    }
    assert forall|k: usize, i: int|
        #![trigger after.ended.contains(k), has_byte(after.file, content, i)]
        after.ended.contains(k) && next.downloading.contains_key(k)
            && next.downloading[k].chunk_info.range.start <= i
            < next.downloading[k].chunk_info.range.start
            + next.downloading[k].downloaded_len implies has_byte(after.file, content, i) by {
        if k != index {
            assert(run.ended.contains(k));
            assert(has_byte(run.file, content, i));
        }
    }
}

/// Bytes that come leave the file right.
proof fn lemma_received(
    run: FileRun,
    content: Seq<u8>,
    index: usize,
    event: ChunkEvent,
    len: usize,
)
    requires
        run.is_right(content),
        run.can_take(content, FileStep::Chunk { index, event }),
        run.state.manager.downloading.contains_key(index),
        event matches ChunkEvent::Bytes(bytes) && bytes@.len() == len,
        run.chunks[index].after(event).holds(content),
    ensures
        run.after_event(index, event).is_right(content),
{
    let m = run.state.manager;
    let download = run.chunks[index];
    let after = run.after_event(index, event);
    let next = after.state.manager;
    let step = RunStep::Received { index, len };
    assert(is_download_of(download, m.downloading[index], content));
    assert(m.downloading[index].valid());
    assert(download.action(event) == ChunkAction::CountAndReadBody(len));
    progress::law_download_goes_on_until_whole(run.state, step);
    assert(after.chunks.dom() =~= next.downloading.dom()) by {
        assert(run.chunks.dom().contains(index));
        assert(next.downloading.dom() =~= m.downloading.dom());
    }
    assert forall|k: usize| #[trigger] next.downloading.contains_key(k) implies is_download_of(
        after.chunks[k],
        next.downloading[k],
        content,
    ) by {
        assert(m.downloading.contains_key(k));
    }
    assert forall|i: int| 0 <= i < content.len() && !progress::is_pending(next, i) implies
        #[trigger] has_byte(after.file, content, i) by {
        assert(progress::pending_count(next, i) == progress::pending_count(m, i));
        assert(has_byte(run.file, content, i));
    }
    assert forall|k: usize, i: int|
        #![trigger after.ended.contains(k), has_byte(after.file, content, i)]
        after.ended.contains(k) && next.downloading.contains_key(k)
            && next.downloading[k].chunk_info.range.start <= i
            < next.downloading[k].chunk_info.range.start
            + next.downloading[k].downloaded_len implies has_byte(after.file, content, i) by {
        assert(run.ended.contains(k));
        assert(m.downloading.contains_key(k));
    }
}

/// The end of a chunk of which all has come leaves the file right, or whole.
proof fn lemma_finished(run: FileRun, content: Seq<u8>, index: usize)
    requires
        run.is_right(content),
        run.can_take(content, FileStep::Chunk { index, event: ChunkEvent::BodyEnded }),
        run.state.manager.downloading.contains_key(index),
    ensures
        if run.state.finishes_with(RunStep::Finished { index }) {
            has_all(run.after_event(index, ChunkEvent::BodyEnded).file, content)
        } else {
            run.after_event(index, ChunkEvent::BodyEnded).is_right(content)
        },
{
    let m = run.state.manager;
    let download = run.chunks[index];
    let range = download.chunk.range;
    let after = run.after_event(index, ChunkEvent::BodyEnded);
    let next = after.state.manager;
    let step = RunStep::Finished { index };
    assert(is_download_of(download, m.downloading[index], content));
    assert(m.downloading[index].valid());
    progress::law_download_goes_on_until_whole(run.state, step);
    lemma_write(run.file, content, range.start as int, download.bytes);
    assert(after.file == after_write(run.file, range.start as int, download.bytes));
    assert forall|i: int| 0 <= i < content.len() && !progress::is_pending(next, i) implies
        #[trigger] has_byte(after.file, content, i) by {
        assert(progress::pending_count(next, i) == progress::pending_count(m, i)
            - run.state.finishes(step, i));
        if !range.has(i) {
            assert(!progress::is_pending(m, i));
            assert(has_byte(run.file, content, i));
        }
    }
    if !run.state.finishes_with(step) {
        let removed = m.after_removal(index);
        progress::law_chunk_finished(m, index);
        progress::law_next_chunk(removed);
        assert(run.chunks.remove(index).dom() =~= removed.downloading.dom());
        assert forall|k: usize| #[trigger] removed.downloading.contains_key(k) implies
            is_download_of(run.chunks.remove(index)[k], removed.downloading[k], content) by {
            assert(m.downloading.contains_key(k));
        }
        assert forall|k: usize| #[trigger] next.downloading.contains_key(k) implies (
        if removed.downloading.contains_key(k) {
            next.downloading[k] == removed.downloading[k]
        } else {
            next.downloading[k].downloaded_len == 0
        }) by {}
        lemma_downloads(run.chunks.remove(index), removed.downloading, next, content);
        assert forall|k: usize, i: int|
            #![trigger after.ended.contains(k), has_byte(after.file, content, i)]
            after.ended.contains(k) && next.downloading.contains_key(k)
                && next.downloading[k].chunk_info.range.start <= i
                < next.downloading[k].chunk_info.range.start
                + next.downloading[k].downloaded_len implies has_byte(after.file, content, i) by {
            assert(run.ended.contains(k));
            assert(removed.downloading.contains_key(k));
            assert(m.downloading.contains_key(k));
            assert(has_byte(run.file, content, i));
        }
    }
}

/// The state after `steps`.
pub open spec fn after_steps(run: FileRun, steps: Seq<FileStep>) -> FileRun
    decreases steps.len(),
{
    if steps.len() == 0 {
        run
    } else {
        after_steps(run, steps.drop_last()).after(steps.last())
    }
}

/// Whether the last of the steps finishes the download.
pub open spec fn ends_with_finish(run: FileRun, steps: Seq<FileStep>) -> bool {
    steps.len() > 0 && after_steps(run, steps.drop_last()).finishes_with(steps.last())
}

/// Whether the steps can be met one after the other while the server serves `content`, and no step
/// but the last finishes the download.
pub open spec fn can_take_steps(run: FileRun, content: Seq<u8>, steps: Seq<FileStep>) -> bool
    decreases steps.len(),
{
    steps.len() > 0 ==> {
        let front = steps.drop_last();
        &&& can_take_steps(run, content, front)
        &&& after_steps(run, front).can_take(content, steps.last())
        &&& !ends_with_finish(run, front)
    }
}

/// However a download goes on, once it is finished, the file has every byte at its place. Until
/// then, it has every byte that is not to come any more.
pub proof fn law_finished_file_is_whole(run: FileRun, content: Seq<u8>, steps: Seq<FileStep>)
    requires
        run.is_right(content),
        can_take_steps(run, content, steps),
    ensures
        if ends_with_finish(run, steps) {
            has_all(after_steps(run, steps).file, content)
        } else {
            after_steps(run, steps).is_right(content)
        },
    decreases steps.len(),
{
    if steps.len() > 0 {
        law_finished_file_is_whole(run, content, steps.drop_last());
        law_file_stays_right(after_steps(run, steps.drop_last()), content, steps.last());
    }
}

/// A download that begins with what is left in `m`, over this file.
pub open spec fn begun(m: ChunkManagerView, file: Map<int, u8>) -> FileRun {
    let state = progress::begun(m);
    FileRun {
        state,
        chunks: downloads_of(Map::empty(), state.manager),
        ended: Set::empty(),
        file,
    }
}

/// Whether a download can begin with what is left in `m`: nothing is being downloaded, there is at
/// least one connection, and the chunks do not run out of numbers.
pub open spec fn can_begin(m: ChunkManagerView) -> bool {
    &&& progress::is_consistent(m)
    &&& progress::is_accounted(m)
    &&& m.superfluities == 0
    &&& m.downloading == Map::<usize, ChunkItem>::empty()
    &&& 0 < m.connection_count <= u8::MAX
    &&& m.can_number(m.connection_count as nat)
}

/// A download that begins over a file that has all but what is left has the right file; if nothing
/// is left, the file is whole.
pub proof fn law_begun_file_is_right(m: ChunkManagerView, content: Seq<u8>, file: Map<int, u8>)
    requires
        can_begin(m),
        m.content_length == content.len(),
        forall|i: int|
            0 <= i < content.len() && !progress::is_pending(m, i) ==> #[trigger] has_byte(
                file,
                content,
                i,
            ),
    ensures
        m.data.drawn() is Some ==> begun(m, file).is_right(content),
        m.data.drawn() is None ==> has_all(file, content),
{
    let count = m.connection_count as nat;
    let run = begun(m, file);
    let next = run.state.manager;
    if m.data.drawn() is Some {
        progress::law_begun_download_goes_on(m);
        progress::law_next_chunks(m, count);
        lemma_taken_chunks(m, count);
        lemma_downloads(Map::empty(), m.downloading, next, content);
        assert forall|i: int| 0 <= i < content.len() && !progress::is_pending(next, i) implies
            #[trigger] has_byte(run.file, content, i) by {
            assert(progress::is_pending(next, i) <==> progress::is_pending(m, i));
        }
    } else {
        progress::law_finished_download_is_whole(m);
    }
}

/// While the number of connections is not changed, never more chunks are being downloaded than
/// there are connections, whatever happens to their requests.
pub proof fn law_never_more_requests_than_connections(
    m: ChunkManagerView,
    content: Seq<u8>,
    file: Map<int, u8>,
    steps: Seq<FileStep>,
)
    requires
        can_begin(m),
        m.data.drawn() is Some,
        m.content_length == content.len(),
        forall|i: int|
            0 <= i < content.len() && !progress::is_pending(m, i) ==> #[trigger] has_byte(
                file,
                content,
                i,
            ),
        can_take_steps(begun(m, file), content, steps),
        forall|k: int|
            0 <= k < steps.len() ==> (#[trigger] steps[k] matches FileStep::ConnectionCount { count }
                ==> count == 0),
    ensures
        after_steps(begun(m, file), steps).state.manager.current_count() <= m.connection_count,
    decreases steps.len(),
{
    law_begun_file_is_right(m, content, file);
    progress::law_next_chunks(m, m.connection_count as nat);
    if steps.len() > 0 {
        let front = steps.drop_last();
        let before = after_steps(begun(m, file), front);
        assert forall|k: int| 0 <= k < front.len() implies (
        #[trigger] front[k] matches FileStep::ConnectionCount { count } ==> count == 0) by {
            assert(front[k] == steps[k]);
        }
        law_never_more_requests_than_connections(m, content, file, front);
        law_finished_file_is_whole(begun(m, file), content, front);
        assert(steps.last() == steps[steps.len() - 1]);
        lemma_chunks_never_rise(before, content, steps.last());
    }
}

/// A step that leaves the number of connections leads to no more chunks.
proof fn lemma_chunks_never_rise(run: FileRun, content: Seq<u8>, step: FileStep)
    requires
        run.is_right(content),
        run.can_take(content, step),
        step matches FileStep::ConnectionCount { count } ==> count == 0,
    ensures
        run.after(step).state.manager.current_count() <= run.state.manager.current_count(),
{
    match step {
        FileStep::Chunk { index, event } => {
            let m = run.state.manager;
            let download = run.chunks[index];
            assert(run.chunks.dom().contains(index));
            assert(m.downloading.contains_key(index));
            assert(is_download_of(download, m.downloading[index], content));
            assert(m.downloading[index].valid());
            match event {
                ChunkEvent::Bytes(bytes) => {
                    assert(bytes.len() == bytes@.len());
                    progress::law_chunks_never_rise(
                        run.state,
                        RunStep::Received { index, len: bytes.len() },
                    );
                },
                ChunkEvent::BodyEnded => {
                    progress::law_chunks_never_rise(run.state, RunStep::Finished { index });
                },
                _ => {},
            }
        },
        FileStep::ConnectionCount { count } => {
            progress::law_chunks_never_rise(run.state, RunStep::ConnectionCount { count });
        },
        FileStep::ChunkSize { chunk_size } => {
            progress::law_chunks_never_rise(run.state, RunStep::ChunkSize { chunk_size });
        },
    }
}

/// A download that begins without an archive and finishes leaves the whole file.
pub proof fn law_fresh_file_becomes_whole(
    config: HttpDownloadConfig,
    response: ResponseInfo,
    content: Seq<u8>,
    file: Map<int, u8>,
    steps: Seq<FileStep>,
)
    requires
        config.valid(),
        response.serves_ranges,
        response.content_length matches Some(content_length) && content_length == content.len()
            && content_length > 0,
        ({
            let m = downloader::way_to_begin(config, 0, response, None)->Ranges_0;
            &&& can_take_steps(begun(m, file), content, steps)
            &&& ends_with_finish(begun(m, file), steps)
        }),
    ensures
        ({
            let m = downloader::way_to_begin(config, 0, response, None)->Ranges_0;
            has_all(after_steps(begun(m, file), steps).file, content)
        }),
{
    let m = downloader::way_to_begin(config, 0, response, None)->Ranges_0;
    breakpoint_resume::law_download_begins_with_the_whole_file(config, response);
    assert forall|i: int| 0 <= i < content.len() && !progress::is_pending(m, i) implies
        #[trigger] has_byte(file, content, i) by {
        assert(progress::is_pending(m, i));
    }
    assert(m.data.drawn() is Some) by {
        if m.data.drawn() is None {
            progress::law_finished_download_is_whole(m);
            assert(progress::is_pending(m, 0));
        }
    }
    chunk_manager::lemma_can_number(m, m.connection_count as nat);
    law_begun_file_is_right(m, content, file);
    law_finished_file_is_whole(begun(m, file), content, steps);
}

/// Every byte that an archive leaves out is in the file: at any time if the download was not
/// cancelled, and otherwise once the downloads of all chunks have ended.
pub proof fn law_file_has_what_an_archive_leaves_out(
    run: FileRun,
    content: Seq<u8>,
    chunks: Seq<ChunkItem>,
    archived: ChunkDataView,
    is_cancelled: bool,
)
    requires
        run.is_right(content),
        chunk_manager::is_listing(chunks, run.state.manager.downloading),
        breakpoint_resume::is_archive_of(archived, run.state.manager.data, chunks, is_cancelled),
        is_cancelled ==> run.all_ended(),
    ensures
        forall|i: int|
            0 <= i < content.len() && archived.coverage(i) == 0 ==> #[trigger] has_byte(
                run.file,
                content,
                i,
            ),
{
    let m = run.state.manager;
    breakpoint_resume::law_archive_keeps_what_is_to_come(m, chunks, archived, is_cancelled);
    assert forall|i: int| 0 <= i < content.len() && archived.coverage(i) == 0 implies
        #[trigger] has_byte(run.file, content, i) by {
        if progress::is_pending(m, i) {
            assert(breakpoint_resume::has_come(m.downloading, i));
            let k = choose|k: usize| #[trigger]
                m.downloading.contains_key(k) && m.downloading[k].chunk_info.range.start <= i
                    < m.downloading[k].chunk_info.range.start + m.downloading[k].downloaded_len;
            assert(run.ended.contains(k));
        }
    }
}

/// A download that was broken off, goes on from its archive over the same file and finishes leaves
/// the whole file.
pub proof fn law_broken_off_file_becomes_whole(
    run: FileRun,
    content: Seq<u8>,
    chunks: Seq<ChunkItem>,
    is_cancelled: bool,
    archive: DownloadArchiveData,
    config: HttpDownloadConfig,
    response: ResponseInfo,
    steps: Seq<FileStep>,
)
    requires
        run.is_right(content),
        chunk_manager::is_listing(chunks, run.state.manager.downloading),
        archive.chunk_data matches Some(data) && breakpoint_resume::is_archive_of(
            data@,
            run.state.manager.data,
            chunks,
            is_cancelled,
        ) && archive.downloaded_len == run.state.manager.content_length - data@.remaining_len(),
        is_cancelled ==> run.all_ended(),
        config.valid(),
        response.serves_ranges,
        response.content_length matches Some(content_length) && content_length == content.len(),
        downloader::way_to_begin(config, 0, response, Some(archive))->Ranges_0.can_number(
            config.download_connection_count as nat,
        ),
    ensures
        ({
            let next = downloader::way_to_begin(config, 0, response, Some(archive))->Ranges_0;
            let resumed = begun(next, run.file);
            &&& next.data.drawn() is None ==> has_all(run.file, content)
            &&& next.data.drawn() is Some && can_take_steps(resumed, content, steps)
                && ends_with_finish(resumed, steps) ==> has_all(
                after_steps(resumed, steps).file,
                content,
            )
        }),
{
    let m = run.state.manager;
    let next = downloader::way_to_begin(config, 0, response, Some(archive))->Ranges_0;
    let archived = archive.chunk_data->Some_0@;
    breakpoint_resume::law_broken_off_download_goes_on(
        m,
        chunks,
        is_cancelled,
        archive,
        config,
        response,
    );
    law_file_has_what_an_archive_leaves_out(run, content, chunks, archived, is_cancelled);
    breakpoint_resume::law_archive_keeps_what_is_to_come(m, chunks, archived, is_cancelled);
    assert forall|i: int| 0 <= i < content.len() && !progress::is_pending(next, i) implies
        #[trigger] has_byte(run.file, content, i) by {
        assert(archived.coverage(i) == 0);
    }
    law_begun_file_is_right(next, content, run.file);
    if next.data.drawn() is Some && can_take_steps(begun(next, run.file), content, steps) {
        law_finished_file_is_whole(begun(next, run.file), content, steps);
    }
}

} // verus!
