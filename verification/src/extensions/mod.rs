//! What can be added to a download.

use vstd::prelude::*;

use crate::chunk_iterator::{ChunkData, ChunkDataView};

pub mod breakpoint_resume;
pub mod bson_file_archiver;
pub mod speed_limiter;
pub mod speed_tracker;
pub mod status_tracker;

verus! {

/// Something that begins downloads.
///
/// Of what it does, only that is known which it says itself.
///
/// `F` is a download that is ready to go on, `E` what prevents it.
pub trait Downloader<F, E>: Sized {
    /// Whether the wish to download may lead from `before` to `after`, and to this.
    open spec fn downloads(before: Self, after: Self, r: Result<F, E>) -> bool {
        true
    }

    /// Meets the wish to download.
    fn download(&mut self) -> (r: Result<F, E>)
        ensures
            Self::downloads(*old(self), *final(self), r),
    ;
}

/// Something that was added to the downloads of a downloader `D`, and is told of each.
///
/// Of what it does, only that is known which it says itself.
///
/// `F` is a download that is ready to go on, `E` what prevents it, and `C` what is to be done when
/// it is cancelled.
pub trait DownloaderWrapper<D, F, E, C>: Sized {
    /// Whether being told of the wish to download may lead from `before` to `after`, and to this.
    open spec fn prepares(
        before: Self,
        downloader: D,
        after: Self,
        downloader_after: D,
        r: Result<(), E>,
    ) -> bool {
        true
    }

    /// Whether being told what became of the wish may lead from `before` to `after`, and to this.
    open spec fn handles(
        before: Self,
        downloader: D,
        result: Result<F, E>,
        after: Self,
        downloader_after: D,
        r: Result<F, E>,
    ) -> bool {
        true
    }

    /// Whether being given a download may lead from `before` to `after`, and to this one.
    open spec fn wraps(
        before: Self,
        downloader: D,
        future: F,
        after: Self,
        downloader_after: D,
        r: Result<F, E>,
    ) -> bool {
        true
    }

    /// Whether this may be what is to be done when a download is cancelled.
    open spec fn notifies(self, notices: Seq<C>) -> bool {
        true
    }

    /// Is told of the wish to download, and may refuse it.
    fn prepare_download(&mut self, downloader: &mut D) -> (r: Result<(), E>)
        ensures
            Self::prepares(*old(self), *old(downloader), *final(self), *final(downloader), r),
    ;

    /// Is told what became of the wish, and may put something else in its place.
    fn handle_prepare_download_result(
        &mut self,
        downloader: &mut D,
        prepare_download_result: Result<F, E>,
    ) -> (r: Result<F, E>)
        ensures
            Self::handles(
                *old(self),
                *old(downloader),
                prepare_download_result,
                *final(self),
                *final(downloader),
                r,
            ),
    ;

    /// Is given the download, and may put another in its place.
    fn download(&mut self, downloader: &mut D, download_future: F) -> (r: Result<F, E>)
        ensures
            Self::wraps(
                *old(self),
                *old(downloader),
                download_future,
                *final(self),
                *final(downloader),
                r,
            ),
    ;

    /// What is to be done first when a download is cancelled, in this order.
    fn on_cancel(&self) -> (notices: Vec<C>)
        ensures
            self.notifies(notices@),
    ;
}

/// Something that can be added to the downloads of a downloader `D`.
///
/// Of what it gives, only that is known which it says itself.
pub trait DownloadExtensionBuilder<D>: Sized {
    type Wrapper;

    /// What the user of the downloader gets.
    type ExtensionState;

    /// Whether adding it may give this.
    open spec fn builds(
        self,
        downloader: D,
        downloader_after: D,
        wrapper: Self::Wrapper,
        state: Self::ExtensionState,
    ) -> bool {
        true
    }

    /// Adds it.
    fn build(self, downloader: &mut D) -> (r: (Self::Wrapper, Self::ExtensionState))
        ensures
            self.builds(*old(downloader), *final(downloader), r.0, r.1),
    ;
}

impl<D, F, E, C> DownloaderWrapper<D, F, E, C> for () {
    open spec fn prepares(
        before: Self,
        downloader: D,
        after: Self,
        downloader_after: D,
        r: Result<(), E>,
    ) -> bool {
        downloader_after == downloader && r is Ok
    }

    open spec fn handles(
        before: Self,
        downloader: D,
        result: Result<F, E>,
        after: Self,
        downloader_after: D,
        r: Result<F, E>,
    ) -> bool {
        downloader_after == downloader && r == result
    }

    open spec fn wraps(
        before: Self,
        downloader: D,
        future: F,
        after: Self,
        downloader_after: D,
        r: Result<F, E>,
    ) -> bool {
        downloader_after == downloader && r == Ok::<F, E>(future)
    }

    open spec fn notifies(self, notices: Seq<C>) -> bool {
        notices.len() == 0
    }

    fn prepare_download(&mut self, downloader: &mut D) -> (r: Result<(), E>) {
        Ok(())
    }

    fn handle_prepare_download_result(
        &mut self,
        downloader: &mut D,
        prepare_download_result: Result<F, E>,
    ) -> (r: Result<F, E>) {
        prepare_download_result
    }

    fn download(&mut self, downloader: &mut D, download_future: F) -> (r: Result<F, E>) {
        Ok(download_future)
    }

    fn on_cancel(&self) -> (notices: Vec<C>) {
        Vec::new()
    }
}

impl<D> DownloadExtensionBuilder<D> for () {
    type Wrapper = ();

    type ExtensionState = ();

    open spec fn builds(
        self,
        downloader: D,
        downloader_after: D,
        wrapper: (),
        state: (),
    ) -> bool {
        downloader_after == downloader
    }

    fn build(self, downloader: &mut D) -> (r: ((), ())) {
        ((), ())
    }
}

/// Two things that were added, of which each may be two again: both are told, one after the other.
impl<
    D,
    F,
    E,
    C,
    A: DownloaderWrapper<D, F, E, C>,
    B: DownloaderWrapper<D, F, E, C>,
> DownloaderWrapper<D, F, E, C> for (A, B) {
    /// The second is not told if the first refuses.
    open spec fn prepares(
        before: Self,
        downloader: D,
        after: Self,
        downloader_after: D,
        r: Result<(), E>,
    ) -> bool {
        exists|between: D, first: Result<(), E>|
            {
                &&& #[trigger] A::prepares(before.0, downloader, after.0, between, first)
                &&& match first {
                    Ok(_) => B::prepares(before.1, between, after.1, downloader_after, r),
                    Err(err) => r == Err::<(), E>(err) && after.1 == before.1 && downloader_after
                        == between,
                }
            }
    }

    /// The second is told what the first puts in place of what became of the wish.
    open spec fn handles(
        before: Self,
        downloader: D,
        result: Result<F, E>,
        after: Self,
        downloader_after: D,
        r: Result<F, E>,
    ) -> bool {
        exists|between: D, first: Result<F, E>|
            {
                &&& #[trigger] A::handles(before.0, downloader, result, after.0, between, first)
                &&& B::handles(before.1, between, first, after.1, downloader_after, r)
            }
    }

    /// The second is given what the first puts in place of the download, and nothing if the first
    /// refuses.
    open spec fn wraps(
        before: Self,
        downloader: D,
        future: F,
        after: Self,
        downloader_after: D,
        r: Result<F, E>,
    ) -> bool {
        exists|between: D, first: Result<F, E>|
            {
                &&& #[trigger] A::wraps(before.0, downloader, future, after.0, between, first)
                &&& match first {
                    Ok(future) => B::wraps(before.1, between, future, after.1, downloader_after, r),
                    Err(err) => r == Err::<F, E>(err) && after.1 == before.1 && downloader_after
                        == between,
                }
            }
    }

    /// What is to be done for the first comes before what is to be done for the second.
    open spec fn notifies(self, notices: Seq<C>) -> bool {
        exists|front: Seq<C>, back: Seq<C>|
            {
                &&& #[trigger] self.0.notifies(front)
                &&& #[trigger] self.1.notifies(back)
                &&& notices == front + back
            }
    }

    fn prepare_download(&mut self, downloader: &mut D) -> (r: Result<(), E>) {
        let ghost (before, start) = (*self, *downloader);
        let first = self.0.prepare_download(downloader);
        let ghost (told, between) = (self.0, *downloader);
        assert(A::prepares(before.0, start, told, between, first));
        if let Err(err) = first {
            return Err(err);
        }
        let r = self.1.prepare_download(downloader);
        assert(A::prepares(before.0, start, self.0, between, first));
        r
    }

    fn handle_prepare_download_result(
        &mut self,
        downloader: &mut D,
        prepare_download_result: Result<F, E>,
    ) -> (r: Result<F, E>) {
        let ghost (before, start, given) = (*self, *downloader, prepare_download_result);
        let first = self.0.handle_prepare_download_result(downloader, prepare_download_result);
        let ghost (result, between) = (first, *downloader);
        let r = self.1.handle_prepare_download_result(downloader, first);
        assert(A::handles(before.0, start, given, self.0, between, result));
        r
    }

    fn download(&mut self, downloader: &mut D, download_future: F) -> (r: Result<F, E>) {
        let ghost (before, start, given) = (*self, *downloader, download_future);
        let first = self.0.download(downloader, download_future);
        let ghost (result, between) = (first, *downloader);
        let r = match first {
            Ok(future) => self.1.download(downloader, future),
            Err(err) => Err(err),
        };
        assert(A::wraps(before.0, start, given, self.0, between, result));
        r
    }

    fn on_cancel(&self) -> (notices: Vec<C>) {
        let mut notices = self.0.on_cancel();
        let mut more = self.1.on_cancel();
        assert(self.0.notifies(notices@) && self.1.notifies(more@));
        notices.append(&mut more);
        notices
    }
}

/// Two things that can be added, of which each may be two again: one after the other.
impl<
    D,
    A: DownloadExtensionBuilder<D>,
    B: DownloadExtensionBuilder<D>,
> DownloadExtensionBuilder<D> for (A, B) {
    type Wrapper = (A::Wrapper, B::Wrapper);

    type ExtensionState = (A::ExtensionState, B::ExtensionState);

    open spec fn builds(
        self,
        downloader: D,
        downloader_after: D,
        wrapper: (A::Wrapper, B::Wrapper),
        state: (A::ExtensionState, B::ExtensionState),
    ) -> bool {
        exists|between: D|
            {
                &&& #[trigger] self.0.builds(downloader, between, wrapper.0, state.0)
                &&& self.1.builds(between, downloader_after, wrapper.1, state.1)
            }
    }

    fn build(self, downloader: &mut D) -> (r: (
        (A::Wrapper, B::Wrapper),
        (A::ExtensionState, B::ExtensionState),
    )) {
        let ghost start = *downloader;
        let (first_wrapper, first_state) = self.0.build(downloader);
        let ghost between = *downloader;
        let (second_wrapper, second_state) = self.1.build(downloader);
        let r = ((first_wrapper, second_wrapper), (first_state, second_state));
        assert(self.0.builds(start, between, (r.0).0, (r.1).0));
        r
    }
}

/// How far a download came, kept for going on later.
#[derive(Debug)]
pub struct DownloadArchiveData {
    pub downloaded_len: u64,
    /// For how many seconds it went on.
    pub downloading_duration: u32,
    pub chunk_data: Option<ChunkData>,
}

/// The plain values of what is left, if that is known.
pub open spec fn data_view(data: Option<ChunkData>) -> Option<ChunkDataView> {
    match data {
        Some(data) => Some(data@),
        None => None,
    }
}

impl Clone for DownloadArchiveData {
    /// The same, for keeping it twice.
    fn clone(&self) -> (r: Self)
        ensures
            r.downloaded_len == self.downloaded_len,
            r.downloading_duration == self.downloading_duration,
            data_view(r.chunk_data) == data_view(self.chunk_data),
    {
        let chunk_data = match &self.chunk_data {
            Some(data) => Some(data.clone()),
            None => None,
        };
        DownloadArchiveData {
            downloaded_len: self.downloaded_len,
            downloading_duration: self.downloading_duration,
            chunk_data,
        }
    }
}

impl DownloadArchiveData {
    /// The number of bytes that came per second, rounded down; zero if there was not one second.
    pub fn get_average_download_speed(&self) -> (speed: u64)
        ensures
            self.downloading_duration == 0 ==> speed == 0,
            self.downloading_duration > 0 ==> speed == self.downloaded_len as int
                / self.downloading_duration as int,
    {
        if self.downloading_duration == 0 {
            return 0;
        }
        self.downloaded_len / self.downloading_duration as u64
    }
}

/// Nothing beside something that was added makes no difference to what that does when it is told of
/// the wish to download, of what became of it, and of the download.
pub proof fn law_nothing_beside_makes_no_difference<D, F, E, C, A: DownloaderWrapper<D, F, E, C>>(
    before: A,
    downloader: D,
    after: A,
    downloader_after: D,
    result: Result<F, E>,
    future: F,
    answer: Result<(), E>,
    r: Result<F, E>,
    notices: Seq<C>,
)
    ensures
        <(A, ()) as DownloaderWrapper<D, F, E, C>>::prepares(
            (before, ()),
            downloader,
            (after, ()),
            downloader_after,
            answer,
        ) ==> A::prepares(before, downloader, after, downloader_after, answer),
        <((), A) as DownloaderWrapper<D, F, E, C>>::prepares(
            ((), before),
            downloader,
            ((), after),
            downloader_after,
            answer,
        ) ==> A::prepares(before, downloader, after, downloader_after, answer),
        <(A, ()) as DownloaderWrapper<D, F, E, C>>::handles(
            (before, ()),
            downloader,
            result,
            (after, ()),
            downloader_after,
            r,
        ) ==> A::handles(before, downloader, result, after, downloader_after, r),
        <((), A) as DownloaderWrapper<D, F, E, C>>::handles(
            ((), before),
            downloader,
            result,
            ((), after),
            downloader_after,
            r,
        ) ==> A::handles(before, downloader, result, after, downloader_after, r),
        <(A, ()) as DownloaderWrapper<D, F, E, C>>::wraps(
            (before, ()),
            downloader,
            future,
            (after, ()),
            downloader_after,
            r,
        ) ==> A::wraps(before, downloader, future, after, downloader_after, r),
        <((), A) as DownloaderWrapper<D, F, E, C>>::wraps(
            ((), before),
            downloader,
            future,
            ((), after),
            downloader_after,
            r,
        ) ==> A::wraps(before, downloader, future, after, downloader_after, r),
        <(A, ()) as DownloaderWrapper<D, F, E, C>>::notifies((before, ()), notices)
            ==> before.notifies(notices),
        <((), A) as DownloaderWrapper<D, F, E, C>>::notifies(((), before), notices)
            ==> before.notifies(notices),
{
    assert forall|between: D, first: Result<(), E>|
        #[trigger] A::prepares(before, downloader, after, between, first) && first is Ok
            && answer is Ok implies first == answer by {
        assert(first->Ok_0 == ());
        assert(answer->Ok_0 == ());
    }
    assert forall|front: Seq<C>, back: Seq<C>| front.len() == 0 implies #[trigger] (front + back)
        == back by {
        assert(front + back =~= back);
    }
    assert forall|front: Seq<C>, back: Seq<C>| back.len() == 0 implies #[trigger] (front + back)
        == front by {
        assert(front + back =~= front);
    }
}

/// Of two things that were added, the second is not told of a wish that the first refuses, and the
/// wish is refused for the reason of the first.
pub proof fn law_first_refusal_counts<
    D,
    F,
    E,
    C,
    A: DownloaderWrapper<D, F, E, C>,
    B: DownloaderWrapper<D, F, E, C>,
>(
    before: (A, B),
    downloader: D,
    after: (A, B),
    downloader_after: D,
    r: Result<(), E>,
    err: E,
)
    requires
        <(A, B) as DownloaderWrapper<D, F, E, C>>::prepares(
            before,
            downloader,
            after,
            downloader_after,
            r,
        ),
        forall|next: A, between: D, first: Result<(), E>| #[trigger]
            A::prepares(before.0, downloader, next, between, first) ==> first == Err::<(), E>(err),
    ensures
        r == Err::<(), E>(err),
        after.1 == before.1,
{
}

/// What is to be done for the first of two things when a download is cancelled comes before what is
/// to be done for the second, and there is nothing else to be done.
pub proof fn law_notices_come_in_order<
    D,
    F,
    E,
    C,
    A: DownloaderWrapper<D, F, E, C>,
    B: DownloaderWrapper<D, F, E, C>,
>(pair: (A, B), first: Seq<C>, second: Seq<C>, notices: Seq<C>)
    requires
        <(A, B) as DownloaderWrapper<D, F, E, C>>::notifies(pair, notices),
        forall|front: Seq<C>| #[trigger] pair.0.notifies(front) ==> front == first,
        forall|back: Seq<C>| #[trigger] pair.1.notifies(back) ==> back == second,
    ensures
        notices == first + second,
{
}

/// Nothing beside something that is added makes no difference to what that gives.
pub proof fn law_nothing_added_beside<D, A: DownloadExtensionBuilder<D>>(
    builder: A,
    downloader: D,
    downloader_after: D,
    wrapper: A::Wrapper,
    state: A::ExtensionState,
)
    ensures
        (builder, ()).builds(downloader, downloader_after, (wrapper, ()), (state, ()))
            ==> builder.builds(downloader, downloader_after, wrapper, state),
        ((), builder).builds(downloader, downloader_after, ((), wrapper), ((), state))
            ==> builder.builds(downloader, downloader_after, wrapper, state),
{
}

/// The average speed is the largest at which no more would have come than did; zero if there was
/// not one second.
pub proof fn law_average_speed_is_rounded_down(archive: DownloadArchiveData, speed: u64)
    requires
        call_ensures(DownloadArchiveData::get_average_download_speed, (&archive,), speed),
    ensures
        archive.downloading_duration > 0 ==> speed * archive.downloading_duration
            <= archive.downloaded_len < (speed + 1) * archive.downloading_duration,
        archive.downloading_duration == 0 ==> speed == 0,
{
    let len = archive.downloaded_len as int;
    let secs = archive.downloading_duration as int;
    if secs > 0 {
        vstd::arithmetic::div_mod::lemma_fundamental_div_mod(len, secs);
        vstd::arithmetic::div_mod::lemma_mod_bound(len, secs);
        assert(speed * secs <= len && len < (speed + 1) * secs) by (nonlinear_arith)
            requires
                speed == len / secs,
                len == secs * (len / secs) + len % secs,
                0 <= len % secs < secs,
        ;
    }
}

} // verus!
