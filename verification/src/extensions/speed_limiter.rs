//! A limit of the number of bytes that come per second.
//!
//! Times are in nanoseconds on a clock that never goes back.

use vstd::prelude::*;

use crate::chunk_item::DownloadedLenChangeNotify;

verus! {

/// The number of milliseconds after which the limit is granted again.
pub const LIMIT_INTERVAL: u64 = 1000;

/// The number of nanoseconds in a millisecond.
pub const NANOS_PER_MILLI: u128 = 1_000_000;

/// The number of nanoseconds after which the limit is granted again.
pub const LIMIT_NANOS: u128 = 1_000_000_000;

/// A limiter whose limit can change.
///
/// Of what it does, only that is known which it says itself.
pub trait SpeedLimiter: DownloadedLenChangeNotify {
    /// Whether setting this limit may lead from `before` to `after`.
    open spec fn changes(
        before: Self,
        byte_count_per: Option<usize>,
        now: u128,
        after: Self,
    ) -> bool {
        true
    }

    /// Whether a reset may lead from `before` to `after`.
    open spec fn resets(before: Self, now: u128, after: Self) -> bool {
        true
    }

    /// Sets the number of bytes per second, or none for no limit.
    fn change(&mut self, byte_count_per: Option<usize>, now: u128)
        ensures
            Self::changes(*old(self), byte_count_per, now, *final(self)),
    ;

    /// Forgets what has come.
    fn reset(&mut self, now: u128)
        ensures
            Self::resets(*old(self), now, *final(self)),
    ;
}

/// Counts what comes, and has those who bring more wait for the next second once the limit is
/// reached.
#[derive(Debug)]
pub struct DefaultSpeedLimiter {
    /// The number of bytes per second; zero for no limit.
    pub byte_count_per: usize,
    /// What came, less what was waited for.
    pub cur_read: usize,
    /// When the last wait ended.
    pub last_instant: u128,
}

/// What to do before more is read.
#[derive(Debug, Copy, Clone)]
pub enum LimitStep {
    /// Nothing: someone else has waited meanwhile.
    Pass,
    /// Sleep for these many nanoseconds, and end the wait then.
    Sleep(u128),
}

impl DownloadedLenChangeNotify for DefaultSpeedLimiter {
    /// The limit that holds when the wait begins.
    type Wait = usize;

    open spec fn can_receive(&self, len: usize) -> bool {
        true
    }

    open spec fn receives(
        before: Self,
        len: usize,
        after: Self,
        wait: Option<usize>,
    ) -> bool {
        if before.byte_count_per == 0 {
            wait is None && after == before
        } else {
            &&& after == (DefaultSpeedLimiter { cur_read: before.cur_read.wrapping_add(len), ..before
            })
            &&& wait == (if before.cur_read < before.byte_count_per {
                None
            } else {
                Some(before.byte_count_per)
            })
        }
    }

    fn receive_len(&mut self, len: usize) -> (wait: Option<usize>) {
        let byte_count_per: usize = self.byte_count_per;
        if byte_count_per == 0 {
            return None;
        }
        let cur_read: usize = self.cur_read;
        self.cur_read = cur_read.wrapping_add(len);
        if cur_read < byte_count_per {
            return None;
        }
        Some(byte_count_per)
    }
}

impl SpeedLimiter for DefaultSpeedLimiter {
    open spec fn changes(
        before: Self,
        byte_count_per: Option<usize>,
        now: u128,
        after: Self,
    ) -> bool {
        after == (DefaultSpeedLimiter {
            byte_count_per: limit_of(byte_count_per),
            cur_read: 0,
            last_instant: now,
        })
    }

    open spec fn resets(before: Self, now: u128, after: Self) -> bool {
        after == (DefaultSpeedLimiter {
            byte_count_per: before.byte_count_per,
            cur_read: 0,
            last_instant: now,
        })
    }

    fn change(&mut self, byte_count_per: Option<usize>, now: u128) {
        self.byte_count_per = Self::handle_byte_count_per(byte_count_per);
        self.reset(now);
    }

    fn reset(&mut self, now: u128) {
        self.cur_read = 0;
        self.last_instant = now;
    }
}

/// The limit in bytes per interval; zero for none.
pub open spec fn limit_of(byte_count_per: Option<usize>) -> usize {
    match byte_count_per {
        Some(n) => n,
        None => 0,
    }
}

impl DefaultSpeedLimiter {
    /// The time from the end of the last wait to `now`.
    pub open spec fn elapsed(self, now: u128) -> int {
        if now >= self.last_instant {
            now - self.last_instant
        } else {
            0
        }
    }

    /// A limiter that has counted nothing yet.
    pub fn new(byte_count_per: Option<usize>, now: u128) -> (r: Self)
        ensures
            r == (DefaultSpeedLimiter {
                byte_count_per: limit_of(byte_count_per),
                cur_read: 0,
                last_instant: now,
            }),
            forall|before: Self| #[trigger] Self::changes(before, byte_count_per, now, r),
            byte_count_per matches Some(n) ==> r.byte_count_per == n,
            byte_count_per is None ==> r.byte_count_per == 0,
    {
        Self {
            byte_count_per: Self::handle_byte_count_per(byte_count_per),
            cur_read: 0,
            last_instant: now,
        }
    }

    /// The limit in bytes per interval; zero for none.
    fn handle_byte_count_per(byte_count_per: Option<usize>) -> (r: usize)
        ensures
            r == limit_of(byte_count_per),
            byte_count_per matches Some(n) ==> r == n,
            byte_count_per is None ==> r == 0,
    {
        match byte_count_per {
            Some(n) => n,
            None => 0,
        }
    }

    /// Begins the wait for a limit that held when more came, and says what to do.
    ///
    /// A wait ends no sooner than one interval after the last.
    pub fn begin_wait(&self, byte_count_per: usize, now: u128) -> (step: LimitStep)
        ensures
            self.cur_read < byte_count_per ==> step == LimitStep::Pass,
            self.cur_read >= byte_count_per ==> step == LimitStep::Sleep(
                if self.elapsed(now) < LIMIT_NANOS {
                    (LIMIT_NANOS - self.elapsed(now)) as u128
                } else {
                    0
                },
            ),
            step == self.wait_step(byte_count_per, now),
    {
        if self.cur_read < byte_count_per {
            return LimitStep::Pass;
        }
        let elapsed: u128 = if now >= self.last_instant {
            now - self.last_instant
        } else {
            0
        };
        if elapsed / NANOS_PER_MILLI < LIMIT_INTERVAL as u128 {
            LimitStep::Sleep(LIMIT_NANOS - elapsed)
        } else {
            LimitStep::Sleep(0)
        }
    }

    /// What to do about a wait for this limit that begins at `now`.
    pub open spec fn wait_step(self, byte_count_per: usize, now: u128) -> LimitStep {
        if self.cur_read < byte_count_per {
            LimitStep::Pass
        } else if self.elapsed(now) < LIMIT_NANOS {
            LimitStep::Sleep((LIMIT_NANOS - self.elapsed(now)) as u128)
        } else {
            LimitStep::Sleep(0)
        }
    }

    /// Ends a wait for this limit: as many bytes may come again.
    pub fn end_wait(&mut self, byte_count_per: usize, now: u128)
        ensures
            *final(self) == old(self).after_wait(byte_count_per, now),
    {
        self.last_instant = now;
        self.cur_read = self.cur_read.wrapping_sub(byte_count_per);
    }

    /// The limiter once a wait for this limit has ended.
    pub open spec fn after_wait(self, byte_count_per: usize, now: u128) -> DefaultSpeedLimiter {
        DefaultSpeedLimiter {
            cur_read: self.cur_read.wrapping_sub(byte_count_per),
            last_instant: now,
            ..self
        }
    }
}

/// A wait that sleeps as it is told to ends at least one interval after the last wait.
pub proof fn law_waits_are_an_interval_apart(
    limiter: DefaultSpeedLimiter,
    now: u128,
    sleep: u128,
    end: u128,
)
    requires
        sleep == (if limiter.elapsed(now) < LIMIT_NANOS {
            LIMIT_NANOS - limiter.elapsed(now)
        } else {
            0
        }),
        end >= now + sleep,
        now >= limiter.last_instant,
    ensures
        end - limiter.last_instant >= LIMIT_NANOS,
{
}

/// Who has to wait, does so until one second after the last wait ended, and no longer; who comes
/// when that second is over, or when someone else has waited meanwhile, goes on at once.
pub proof fn law_wait_ends_a_second_after_the_last(
    limiter: DefaultSpeedLimiter,
    byte_count_per: usize,
    now: u128,
)
    ensures
        match limiter.wait_step(byte_count_per, now) {
            LimitStep::Pass => limiter.cur_read < byte_count_per,
            LimitStep::Sleep(nanos) => {
                &&& limiter.cur_read >= byte_count_per
                &&& nanos > 0 && now >= limiter.last_instant ==> now + nanos
                    == limiter.last_instant + 1_000_000_000
                &&& nanos == 0 ==> now >= limiter.last_instant + 1_000_000_000
                &&& now < limiter.last_instant ==> nanos == 1_000_000_000
            },
        },
{
}

/// The end of a wait grants as many bytes as the wait was for, and leaves the limit.
pub proof fn law_ended_wait_grants_the_limit(
    limiter: DefaultSpeedLimiter,
    byte_count_per: usize,
    now: u128,
)
    requires
        limiter.wait_step(byte_count_per, now) is Sleep,
    ensures
        ({
            let after = limiter.after_wait(byte_count_per, now);
            &&& after.cur_read + byte_count_per == limiter.cur_read
            &&& after.byte_count_per == limiter.byte_count_per
            &&& after.last_instant == now
        }),
{
}

/// The sum of `lens`.
pub open spec fn sum(lens: Seq<usize>) -> int
    decreases lens.len(),
{
    if lens.len() == 0 {
        0
    } else {
        sum(lens.drop_last()) + lens.last()
    }
}

/// Whether a limiter goes through `states` while bytes of these lengths come, one after the other,
/// and gives these answers, without a wait in between.
pub open spec fn goes_through(
    states: Seq<DefaultSpeedLimiter>,
    lens: Seq<usize>,
    waits: Seq<Option<usize>>,
) -> bool {
    &&& states.len() == lens.len() + 1
    &&& waits.len() == lens.len()
    &&& forall|k: int|
        0 <= k < lens.len() ==> DefaultSpeedLimiter::receives(
            states[k],
            #[trigger] lens[k],
            states[k + 1],
            waits[k],
        )
}

proof fn lemma_count_is_sum(
    states: Seq<DefaultSpeedLimiter>,
    lens: Seq<usize>,
    waits: Seq<Option<usize>>,
    k: int,
)
    requires
        goes_through(states, lens, waits),
        states[0].byte_count_per > 0,
        states[0].cur_read == 0,
        sum(lens) <= usize::MAX,
        0 <= k <= lens.len(),
    ensures
        states[k].cur_read == sum(lens.take(k)),
        states[k].byte_count_per == states[0].byte_count_per,
        0 <= sum(lens.take(k)) <= sum(lens),
    decreases k,
{
    lemma_sum_of_front(lens, k);
    if k > 0 {
        lemma_count_is_sum(states, lens, waits, k - 1);
        assert(lens.take(k).drop_last() =~= lens.take(k - 1));
        assert(DefaultSpeedLimiter::receives(
            states[k - 1],
            lens[k - 1],
            states[k - 1 + 1],
            waits[k - 1],
        ));
    } else {
        assert(lens.take(0) =~= Seq::empty());
    }
}

/// The first of `lens` add up to no more than all.
proof fn lemma_sum_of_front(lens: Seq<usize>, k: int)
    requires
        0 <= k <= lens.len(),
    ensures
        0 <= sum(lens.take(k)) <= sum(lens),
    decreases lens.len(),
{
    if k < lens.len() {
        lemma_sum_of_front(lens.drop_last(), k);
        assert(lens.take(k) =~= lens.drop_last().take(k));
    } else {
        assert(lens.take(k) =~= lens);
        if lens.len() > 0 {
            let front = lens.drop_last();
            lemma_sum_of_front(front, front.len() as int);
            assert(front.take(front.len() as int) =~= front);
        }
    }
}

/// Once a limit of so many bytes per second is set, whoever brings more has to wait for that limit
/// as soon as that many bytes have come since, and not before. Without a limit, or with one of
/// zero, nobody ever has to wait.
pub proof fn law_wait_is_due_once_the_limit_has_come(
    before: DefaultSpeedLimiter,
    byte_count_per: Option<usize>,
    now: u128,
    states: Seq<DefaultSpeedLimiter>,
    lens: Seq<usize>,
    waits: Seq<Option<usize>>,
)
    requires
        goes_through(states, lens, waits),
        DefaultSpeedLimiter::changes(before, byte_count_per, now, states[0]),
        sum(lens) <= usize::MAX,
    ensures
        forall|k: int|
            0 <= k < waits.len() ==> #[trigger] waits[k] == (match byte_count_per {
                Some(n) => if n > 0 && sum(lens.take(k)) >= n {
                    Some(n)
                } else {
                    None
                },
                None => None,
            }),
{
    assert forall|k: int| 0 <= k < waits.len() implies #[trigger] waits[k] == (
    match byte_count_per {
        Some(n) => if n > 0 && sum(lens.take(k)) >= n {
            Some(n)
        } else {
            None
        },
        None => None,
    }) by {
        assert(DefaultSpeedLimiter::receives(states[k], lens[k], states[k + 1], waits[k]));
        if states[0].byte_count_per > 0 {
            lemma_count_is_sum(states, lens, waits, k);
        } else {
            lemma_no_limit_stays(states, lens, waits, k);
        }
    }
}

proof fn lemma_no_limit_stays(
    states: Seq<DefaultSpeedLimiter>,
    lens: Seq<usize>,
    waits: Seq<Option<usize>>,
    k: int,
)
    requires
        goes_through(states, lens, waits),
        states[0].byte_count_per == 0,
        0 <= k <= lens.len(),
    ensures
        states[k].byte_count_per == 0,
    decreases k,
{
    if k > 0 {
        lemma_no_limit_stays(states, lens, waits, k - 1);
        assert(DefaultSpeedLimiter::receives(
            states[k - 1],
            lens[k - 1],
            states[k - 1 + 1],
            waits[k - 1],
        ));
    }
}

/// A reset is as if the same limit were set again, whatever came before.
pub proof fn law_reset_sets_the_same_limit(
    first: DefaultSpeedLimiter,
    byte_count_per: Option<usize>,
    set_at: u128,
    limiter: DefaultSpeedLimiter,
    len: usize,
    counted: DefaultSpeedLimiter,
    wait: Option<usize>,
    now: u128,
    after: DefaultSpeedLimiter,
)
    requires
        DefaultSpeedLimiter::changes(first, byte_count_per, set_at, limiter),
        DefaultSpeedLimiter::receives(limiter, len, counted, wait),
        DefaultSpeedLimiter::resets(counted, now, after),
    ensures
        DefaultSpeedLimiter::changes(counted, byte_count_per, now, after),
        after.last_instant == now,
        after.cur_read == 0,
        byte_count_per matches Some(n) ==> after.byte_count_per == n,
        byte_count_per is None ==> after.byte_count_per == 0,
{
}

/// Something that happens to a limiter whose limit does not change.
pub enum LimiterEvent {
    /// These many bytes came.
    Received(usize),
    /// A wait for the limit ended at this time.
    Waited(u128),
}

/// Whether the event can happen: counting does not overflow, and a wait ends one interval after
/// the last, where the limit was reached.
pub open spec fn can_happen(limiter: DefaultSpeedLimiter, event: LimiterEvent) -> bool {
    match event {
        LimiterEvent::Received(len) => limiter.cur_read + len <= usize::MAX,
        LimiterEvent::Waited(now) => limiter.cur_read >= limiter.byte_count_per && now
            - limiter.last_instant >= LIMIT_NANOS,
    }
}

/// The limiter after the event.
pub open spec fn limiter_after(
    limiter: DefaultSpeedLimiter,
    event: LimiterEvent,
) -> DefaultSpeedLimiter {
    match event {
        LimiterEvent::Received(len) => DefaultSpeedLimiter {
            cur_read: limiter.cur_read.wrapping_add(len),
            ..limiter
        },
        LimiterEvent::Waited(now) => limiter.after_wait(limiter.byte_count_per, now),
    }
}

/// Where there is a limit, bytes that come are counted, whoever has to wait.
pub proof fn law_limiter_counts_what_comes(
    before: DefaultSpeedLimiter,
    len: usize,
    after: DefaultSpeedLimiter,
    wait: Option<usize>,
)
    requires
        before.byte_count_per > 0,
        before.cur_read + len <= usize::MAX,
        DefaultSpeedLimiter::receives(before, len, after, wait),
    ensures
        after.cur_read - before.cur_read == len,
        after == limiter_after(before, LimiterEvent::Received(len)),
        match wait {
            Some(limit) => before.cur_read >= limit && limit == before.byte_count_per,
            None => before.cur_read < before.byte_count_per,
        },
{
}

/// The limiter after the events.
pub open spec fn limiter_after_all(
    limiter: DefaultSpeedLimiter,
    events: Seq<LimiterEvent>,
) -> DefaultSpeedLimiter
    decreases events.len(),
{
    if events.len() == 0 {
        limiter
    } else {
        limiter_after(limiter_after_all(limiter, events.drop_last()), events.last())
    }
}

/// Whether the events can happen one after the other.
pub open spec fn can_all_happen(limiter: DefaultSpeedLimiter, events: Seq<LimiterEvent>) -> bool
    decreases events.len(),
{
    events.len() > 0 ==> {
        &&& can_all_happen(limiter, events.drop_last())
        &&& can_happen(limiter_after_all(limiter, events.drop_last()), events.last())
    }
}

/// The number of bytes that came.
pub open spec fn bytes_received(events: Seq<LimiterEvent>) -> int
    decreases events.len(),
{
    if events.len() == 0 {
        0
    } else {
        bytes_received(events.drop_last()) + (match events.last() {
            LimiterEvent::Received(len) => len as int,
            LimiterEvent::Waited(_) => 0,
        })
    }
}

/// The number of waits that ended.
pub open spec fn waits(events: Seq<LimiterEvent>) -> int
    decreases events.len(),
{
    if events.len() == 0 {
        0
    } else {
        waits(events.drop_last()) + (if events.last() is Waited {
            1int
        } else {
            0
        })
    }
}

/// What came is the limit for every wait that ended, and what is counted; and every wait took an
/// interval.
///
/// While the count is below the limit, so that nobody has to wait, fewer bytes came than the limit
/// for each interval that was waited for and for one more.
pub proof fn law_speed_is_limited(limiter: DefaultSpeedLimiter, events: Seq<LimiterEvent>)
    requires
        limiter.byte_count_per > 0,
        limiter.cur_read == 0,
        can_all_happen(limiter, events),
    ensures
        ({
            let after = limiter_after_all(limiter, events);
            &&& bytes_received(events) == limiter.byte_count_per * waits(events) + after.cur_read
            &&& after.last_instant - limiter.last_instant >= waits(events)
                * LIMIT_NANOS
            &&& after.byte_count_per == limiter.byte_count_per
            &&& after.cur_read < after.byte_count_per ==> bytes_received(events)
                < limiter.byte_count_per * (waits(events) + 1)
        }),
    decreases events.len(),
{
    if events.len() > 0 {
        let front = events.drop_last();
        law_speed_is_limited(limiter, front);
        let limit = limiter.byte_count_per as int;
        let n = waits(front);
        assert(limit * (n + 1) == limit * n + limit) by (nonlinear_arith);
    }
    let limit = limiter.byte_count_per as int;
    let n = waits(events);
    assert(limit * (n + 1) == limit * n + limit) by (nonlinear_arith);
    assert(limit * 0 == 0);
}

/// Adds a speed limit to a download.
#[derive(Debug)]
pub struct DownloadSpeedLimiterExtension<Limiter: SpeedLimiter> {
    pub limiter: Limiter,
}

impl DownloadSpeedLimiterExtension<DefaultSpeedLimiter> {
    /// A limit of so many bytes per second, or none.
    pub fn new(byte_count_per: Option<usize>, now: u128) -> (r: Self)
        ensures
            r.limiter == (DefaultSpeedLimiter {
                byte_count_per: limit_of(byte_count_per),
                cur_read: 0,
                last_instant: now,
            }),
            forall|before: DefaultSpeedLimiter| #[trigger]
                DefaultSpeedLimiter::changes(before, byte_count_per, now, r.limiter),
    {
        Self { limiter: DefaultSpeedLimiter::new(byte_count_per, now) }
    }
}

impl<Limiter: SpeedLimiter> DownloadSpeedLimiterExtension<Limiter> {
    /// A limit by this limiter.
    pub fn from_limiter(limiter: Limiter) -> (r: Self)
        ensures
            r.limiter == limiter,
    {
        Self { limiter }
    }

    /// What the limit is changed by while the download goes on.
    pub fn build(self) -> (r: DownloadSpeedLimiterState<Limiter>)
        ensures
            r.speed_limiter == self.limiter,
    {
        DownloadSpeedLimiterState { speed_limiter: self.limiter }
    }
}

/// The limiter of a download.
#[derive(Debug)]
pub struct DownloadSpeedLimiterState<Limiter: SpeedLimiter> {
    pub speed_limiter: Limiter,
}

impl<Limiter: SpeedLimiter> DownloadSpeedLimiterState<Limiter> {
    /// Sets the number of bytes per second, or none for no limit.
    pub fn change_speed(&mut self, byte_count_per: Option<usize>, now: u128)
        ensures
            Limiter::changes(
                old(self).speed_limiter,
                byte_count_per,
                now,
                final(self).speed_limiter,
            ),
    {
        self.speed_limiter.change(byte_count_per, now);
    }

    /// Meets the begin of a download: what came before does not count.
    pub fn meet_start(&mut self, now: u128)
        ensures
            Limiter::resets(old(self).speed_limiter, now, final(self).speed_limiter),
    {
        self.speed_limiter.reset(now);
    }
}

} // verus!
