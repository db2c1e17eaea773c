//! The kernel clock, driven by the programmable interval timer: the
//! milliseconds and seconds since boot, and the counters of the sleeps in
//! progress. Each timer interrupt is one tick.
use vstd::prelude::*;
use crate::interrupt::IoOp;

verus! {

/// The frequency of the PIT's input clock, in Hz.
pub const PIT_BASE_FREQUENCY: u32 = 1193182;

/// The rate, in Hz, at which the kernel programs the PIT.
pub const PIT_RATE_HZ: u32 = 100;

/// The rate, in Hz, at which the second timer driver programs the PIT.
pub const PIT_LEGACY_RATE_HZ: u32 = 1000;

/// The PIT's command port.
pub const PIT_COMMAND: u16 = 0x43;

/// The data port of the PIT's channel 0.
pub const PIT_CHANNEL0: u16 = 0x40;

/// Channel 0, low byte then high byte, square wave mode.
pub const PIT_MODE: u8 = 0x36;

/// The divisor that makes the PIT tick `rate_hz` times a second: its input
/// frequency divided by the rate, rounded to nearest.
pub fn pit_divisor(rate_hz: u32) -> (d: u16)
    requires
        rate_hz > 0,
        (PIT_BASE_FREQUENCY + 500) / (rate_hz as int) <= u16::MAX,
    ensures
        d == (PIT_BASE_FREQUENCY + 500) / (rate_hz as int),
{
    ((PIT_BASE_FREQUENCY + 500u32) / rate_hz) as u16
}

/// The low byte of a 16-bit value.
pub open spec fn low_byte(v: u16) -> u8 {
    (v % 256) as u8
}

/// The PIT programmed at `PIT_RATE_HZ`: the mode, interrupts off, the
/// divisor's low byte, then zero.
pub open spec fn pit_init_plan() -> Seq<IoOp> {
    seq![
        IoOp::Out { port: PIT_COMMAND, value: PIT_MODE },
        IoOp::Cli,
        IoOp::Out { port: PIT_CHANNEL0, value: low_byte(((PIT_BASE_FREQUENCY + 500) / (PIT_RATE_HZ as int)) as u16) },
        IoOp::Out { port: PIT_CHANNEL0, value: 0 },
    ]
}

/// The writes that program the PIT at `PIT_RATE_HZ`: the mode, interrupts
/// off, then the divisor's low byte and, as the kernel computes it, its
/// low byte shifted right by eight, which is zero.
pub fn init_pit() -> (ops: Vec<IoOp>)
    ensures
        ops@ == pit_init_plan(),
{
    let d = pit_divisor(PIT_RATE_HZ);
    let low: u8 = (d & 0xFFu16) as u8;
    let high: u8 = ((d & 0xFFu16) >> 8u16) as u8;
    assert(low == low_byte(d)) by (bit_vector)
        requires
            low == (d & 0xFFu16) as u8,
    ;
    assert(high == 0) by (bit_vector)
        requires
            high == ((d & 0xFFu16) >> 8u16) as u8,
    ;
    let mut ops: Vec<IoOp> = Vec::new();
    ops.push(IoOp::Out { port: PIT_COMMAND, value: PIT_MODE });
    ops.push(IoOp::Cli);
    ops.push(IoOp::Out { port: PIT_CHANNEL0, value: low });
    ops.push(IoOp::Out { port: PIT_CHANNEL0, value: high });
    assert(ops@ =~= pit_init_plan());
    ops
}

/// The writes that the second timer driver makes to program the PIT at
/// `PIT_LEGACY_RATE_HZ`: the mode, the divisor's low byte and its high
/// byte, written to the PIT's addresses.
pub fn init_pit_legacy() -> (ops: Vec<IoOp>)
    ensures
        ops@ == seq![
            IoOp::Write8 { addr: PIT_COMMAND as u32, value: PIT_MODE },
            IoOp::Write8 { addr: PIT_CHANNEL0 as u32, value: low_byte(((PIT_BASE_FREQUENCY + 500) / (PIT_LEGACY_RATE_HZ as int)) as u16) },
            IoOp::Write8 { addr: PIT_CHANNEL0 as u32, value: ((((PIT_BASE_FREQUENCY + 500) / (PIT_LEGACY_RATE_HZ as int)) / 256) % 256) as u8 },
        ],
{
    let d = pit_divisor(PIT_LEGACY_RATE_HZ);
    let low: u8 = (d & 0xFFu16) as u8;
    let high: u8 = ((d >> 8u16) & 0xFFu16) as u8;
    assert(low == low_byte(d)) by (bit_vector)
        requires
            low == (d & 0xFFu16) as u8,
    ;
    assert(high == (d / 256) % 256) by (bit_vector)
        requires
            high == ((d >> 8u16) & 0xFFu16) as u8,
    ;
    let mut ops: Vec<IoOp> = Vec::new();
    ops.push(IoOp::Write8 { addr: PIT_COMMAND as u32, value: PIT_MODE });
    ops.push(IoOp::Write8 { addr: PIT_CHANNEL0 as u32, value: low });
    ops.push(IoOp::Write8 { addr: PIT_CHANNEL0 as u32, value: high });
    ops
}

/// Ticks in a second.
pub const TICKS_PER_SECOND: usize = 1000;

/// The counter of one sleep in progress: the ticks seen since it started.
#[derive(Clone, Copy, Debug, PartialEq, Eq, Structural)]
pub struct Timer {
    pub id: u64,
    pub ticks: usize,
}

/// What a sleep does next.
#[derive(Clone, Copy, Debug, PartialEq, Eq, Structural)]
pub enum SleepStep {
    /// The time has not passed yet: keep waiting.
    Wait,
    /// The time has passed: the sleep's counter is gone.
    Done,
}

/// The clock: the milliseconds into the current second, the seconds since
/// boot, the counters of the sleeps in progress in the order they started,
/// and the identity the next sleep gets.
pub struct Clock {
    millis: usize,
    seconds: usize,
    timers: Vec<Timer>,
    next_id: u64,
}

/// The counters after a tick: each one more, wrapping as an atomic add does.
pub open spec fn ticked(timers: Seq<Timer>) -> Seq<Timer> {
    timers.map_values(|t: Timer| Timer { id: t.id, ticks: if t.ticks == usize::MAX { 0 } else { (t.ticks + 1) as usize } })
}

/// Whether a counter belongs to a sleep other than `id`.
pub open spec fn other_than(id: u64) -> spec_fn(Timer) -> bool {
    |t: Timer| t.id != id
}

/// Whether a counter of sleep `id` is in `timers`.
pub open spec fn has_timer(timers: Seq<Timer>, id: u64) -> bool {
    exists|i: int| 0 <= i < timers.len() && (#[trigger] timers[i]).id == id
}

/// The counters without the one of sleep `id`, if there is one.
pub open spec fn without_timer(timers: Seq<Timer>, id: u64) -> Seq<Timer> {
    if has_timer(timers, id) {
        timers.remove(choose|i: int| 0 <= i < timers.len() && (#[trigger] timers[i]).id == id)
    } else {
        timers
    }
}

impl Clock {
    /// Milliseconds into the current second.
    pub closed spec fn millis(&self) -> usize {
        self.millis
    }

    /// Seconds since boot.
    pub closed spec fn seconds(&self) -> usize {
        self.seconds
    }

    /// The counters of the sleeps in progress, in the order they started.
    pub closed spec fn timers(&self) -> Seq<Timer> {
        self.timers@
    }

    /// The identity the next sleep gets.
    pub closed spec fn next_id(&self) -> u64 {
        self.next_id
    }

    /// Milliseconds since boot.
    pub open spec fn now(&self) -> int {
        self.seconds() * TICKS_PER_SECOND + self.millis()
    }

    /// The clock's invariant: less than a second of milliseconds, and every
    /// sleep has an identity of its own, below the next one.
    pub open spec fn wf(&self) -> bool {
        &&& self.millis() < TICKS_PER_SECOND
        &&& forall|i: int|
            0 <= i < self.timers().len() ==> (#[trigger] self.timers()[i]).id < self.next_id()
        &&& forall|i: int, j: int|
            0 <= i < j < self.timers().len() ==> (#[trigger] self.timers()[i]).id != (
            #[trigger] self.timers()[j]).id
    }

    /// The clock at boot: no time passed, no sleep in progress.
    pub fn new() -> (c: Clock)
        ensures
            c.wf(),
            c.millis() == 0,
            c.seconds() == 0,
            c.timers() == Seq::<Timer>::empty(),
            c.next_id() == 0,
    {
        Clock { millis: 0, seconds: 0, timers: Vec::new(), next_id: 0 }
    }

    /// The counters of the sleeps in progress, in the order they started.
    pub fn timer_list(&self) -> (v: Vec<Timer>)
        ensures
            v@ == self.timers(),
    {
        self.timers.clone()
    }

    /// The seconds since boot.
    pub fn get_time_seconds(&self) -> (s: usize)
        ensures
            s == self.seconds(),
    {
        self.seconds
    }

    /// The milliseconds since boot.
    pub fn get_time_millis(&self) -> (m: usize)
        requires
            self.now() <= usize::MAX,
        ensures
            m == self.now(),
    {
        self.seconds * TICKS_PER_SECOND + self.millis
    }

    /// Counts one tick on every sleep in progress.
    pub fn tick_timers(&mut self)
        requires
            old(self).wf(),
        ensures
            final(self).wf(),
            final(self).millis() == old(self).millis(),
            final(self).seconds() == old(self).seconds(),
            final(self).next_id() == old(self).next_id(),
            final(self).timers() == ticked(old(self).timers()),
    {
        let n = self.timers.len();
        let mut i: usize = 0;
        while i < n
            invariant
                n == self.timers@.len(),
                n == old(self).timers@.len(),
                i <= n,
                self.millis == old(self).millis,
                self.seconds == old(self).seconds,
                self.next_id == old(self).next_id,
                forall|k: int| 0 <= k < i ==> self.timers@[k] == ticked(old(self).timers@)[k],
                forall|k: int| i <= k < n ==> self.timers@[k] == old(self).timers@[k],
            decreases n - i,
        {
            let t = self.timers[i];
            let ticks: usize = if t.ticks == usize::MAX {
                0
            } else {
                t.ticks + 1
            };
            self.timers.set(i, Timer { id: t.id, ticks });
            i = i + 1;
        }
        assert(self.timers@ =~= ticked(old(self).timers@));
        proof {
            let nt = self.timers();
            let ot = old(self).timers();
            assert forall|k: int| 0 <= k < nt.len() implies (#[trigger] nt[k]).id == ot[k].id by {}
            assert forall|k: int| 0 <= k < nt.len() implies (#[trigger] nt[k]).id < self.next_id by {
                assert(nt[k].id == ot[k].id);
            }
            assert forall|j: int, k: int| 0 <= j < k < nt.len() implies (#[trigger] nt[j]).id != (
            #[trigger] nt[k]).id by {
                assert(nt[k].id == ot[k].id);
                assert(nt[j].id == ot[j].id);
            }
        }
    }

    /// One timer interrupt: every sleep counts a tick, and the clock moves
    /// on a millisecond; when that completes a second, the milliseconds go
    /// back to zero, the seconds (wrapping as an atomic add does) move on
    /// one, and the result is `true`, for the kernel to log it.
    pub fn tick(&mut self) -> (second_elapsed: bool)
        requires
            old(self).wf(),
        ensures
            final(self).wf(),
            final(self).timers() == ticked(old(self).timers()),
            final(self).next_id() == old(self).next_id(),
            second_elapsed == (old(self).millis() + 1 == TICKS_PER_SECOND),
            second_elapsed ==> final(self).millis() == 0 && final(self).seconds() == (if old(
                self,
            ).seconds() == usize::MAX {
                0
            } else {
                old(self).seconds() + 1
            }),
            !second_elapsed ==> final(self).millis() == old(self).millis() + 1
                && final(self).seconds() == old(self).seconds(),
            old(self).seconds() < usize::MAX ==> final(self).now() == old(self).now() + 1,
    {
        self.tick_timers();
        let before = self.millis;
        self.millis = self.millis + 1;
        if before >= TICKS_PER_SECOND - 1 {
            self.millis = 0;
            self.seconds = if self.seconds == usize::MAX {
                0
            } else {
                self.seconds + 1
            };
            true
        } else {
            false
        }
    }

    /// Starts a sleep: a new counter at zero, at the end of the list; the
    /// result is its identity.
    pub fn start_sleep(&mut self) -> (id: u64)
        requires
            old(self).wf(),
            old(self).next_id() < u64::MAX,
        ensures
            final(self).wf(),
            id == old(self).next_id(),
            final(self).next_id() == old(self).next_id() + 1,
            final(self).timers() == old(self).timers().push(Timer { id, ticks: 0 }),
            final(self).millis() == old(self).millis(),
            final(self).seconds() == old(self).seconds(),
    {
        let id = self.next_id;
        self.timers.push(Timer { id, ticks: 0 });
        self.next_id = self.next_id + 1;
        proof {
            let nt = self.timers();
            let ot = old(self).timers();
            assert forall|k: int| 0 <= k < nt.len() implies (#[trigger] nt[k]).id < self.next_id by {
                if k < ot.len() {
                    assert(nt[k] == ot[k]);
                }
            }
            assert forall|j: int, k: int| 0 <= j < k < nt.len() implies (#[trigger] nt[j]).id != (
            #[trigger] nt[k]).id by {
                assert(nt[j] == ot[j]);
                if k < ot.len() {
                    assert(nt[k] == ot[k]);
                }
            }
        }
        id
    }

    /// One step of the sleep `id` for `millis` ticks: `Done`, and its
    /// counter leaves the list, once the counter has reached `millis`;
    /// `Wait`, and nothing changes, before. A sleep whose counter is gone
    /// has waited enough.
    pub fn sleep(&mut self, id: u64, millis: usize) -> (step: SleepStep)
        requires
            old(self).wf(),
        ensures
            final(self).wf(),
            final(self).millis() == old(self).millis(),
            final(self).seconds() == old(self).seconds(),
            final(self).next_id() == old(self).next_id(),
            ({
                let waiting = exists|i: int|
                    0 <= i < old(self).timers().len() && (#[trigger] old(self).timers()[i]).id
                        == id && old(self).timers()[i].ticks < millis;
                if waiting {
                    step == SleepStep::Wait && final(self).timers() == old(self).timers()
                } else {
                    step == SleepStep::Done && final(self).timers() == without_timer(
                        old(self).timers(),
                        id,
                    )
                }
            }),
            step == SleepStep::Done ==> final(self).timers() == old(self).timers().filter(
                other_than(id),
            ),
            step == SleepStep::Done ==> forall|k: int|
                0 <= k < final(self).timers().len() ==> (#[trigger] final(self).timers()[k]).id != id,
    {
        proof {
            lemma_sleep_done_keeps_other_counters(old(self).timers(), id);
        }
        let n = self.timers.len();
        let mut i: usize = 0;
        while i < n
            invariant
                n == self.timers@.len(),
                i <= n,
                self.timers@ == old(self).timers@,
                old(self).wf(),
                self.millis == old(self).millis,
                self.seconds == old(self).seconds,
                self.next_id == old(self).next_id,
                forall|k: int| 0 <= k < i ==> (#[trigger] self.timers@[k]).id != id,
            decreases n - i,
        {
            if self.timers[i].id == id {
                proof {
                    assert forall|k: int|
                        0 <= k < n && (#[trigger] self.timers@[k]).id == id implies k == i by {
                        if k > i {
                            assert(self.timers@[i as int].id != self.timers@[k].id);
                        }
                    }
                }
                if self.timers[i].ticks < millis {
                    return SleepStep::Wait;
                }
                let ghost old_timers = self.timers@;
                self.timers.remove(i);
                proof {
                    lemma_sleep_done_keeps_other_counters(old_timers, id);
                    assert(has_timer(old_timers, id));
                    let c = choose|k: int| 0 <= k < old_timers.len() && (#[trigger] old_timers[k]).id == id;
                    assert(c == i);
                    let nt = self.timers();
                    assert forall|k: int| 0 <= k < nt.len() implies (#[trigger] nt[k]).id < self.next_id by {
                        if k >= i {
                            assert(nt[k] == old_timers[k + 1]);
                        }
                    }
                    assert forall|j: int, k: int| 0 <= j < k < nt.len() implies (#[trigger] nt[j]).id != (
                    #[trigger] nt[k]).id by {
                        let jj = if j < i { j } else { j + 1 };
                        let kk = if k < i { k } else { k + 1 };
                        assert(nt[j] == old_timers[jj]);
                        assert(nt[k] == old_timers[kk]);
                    }
                }
                return SleepStep::Done;
            }
            i = i + 1;
        }
        SleepStep::Done
    }
}

/// The counters after `k` ticks.
pub open spec fn ticked_times(timers: Seq<Timer>, k: nat) -> Seq<Timer>
    decreases k,
{
    if k == 0 {
        timers
    } else {
        ticked(ticked_times(timers, (k - 1) as nat))
    }
}

/// A sleep counts the ticks since it started: a counter that started at
/// zero reads `k` after `k` ticks, its identity unchanged; so a sleep for
/// `millis` ticks is done after exactly `millis` ticks.
pub proof fn lemma_sleep_counts_ticks(timers: Seq<Timer>, i: int, k: nat)
    requires
        0 <= i < timers.len(),
        timers[i].ticks == 0,
        k <= usize::MAX,
    ensures
        ticked_times(timers, k).len() == timers.len(),
        ticked_times(timers, k)[i] == (Timer { id: timers[i].id, ticks: k as usize }),
    decreases k,
{
    if k > 0 {
        lemma_sleep_counts_ticks(timers, i, (k - 1) as nat);
    }
}

/// Filtering keeps a sequence whose counters all belong to other sleeps.
proof fn lemma_filter_keeps_others(s: Seq<Timer>, id: u64)
    requires
        forall|k: int| 0 <= k < s.len() ==> (#[trigger] s[k]).id != id,
    ensures
        s.filter(other_than(id)) == s,
    decreases s.len(),
{
    reveal(Seq::filter);
    if s.len() > 0 {
        lemma_filter_keeps_others(s.drop_last(), id);
        assert(s.drop_last().push(s.last()) =~= s);
    }
}

/// When a sleep ends, the counters left are exactly those of the other
/// sleeps, in the order they started, and none is the ended sleep's: what
/// ending the sleep removes is its own counter and nothing else.
pub proof fn lemma_sleep_done_keeps_other_counters(timers: Seq<Timer>, id: u64)
    requires
        forall|i: int, j: int|
            0 <= i < j < timers.len() ==> (#[trigger] timers[i]).id != (#[trigger] timers[j]).id,
    ensures
        without_timer(timers, id) == timers.filter(other_than(id)),
        forall|k: int|
            0 <= k < without_timer(timers, id).len() ==> (#[trigger] without_timer(timers, id)[k]).id
                != id,
{
    let p = other_than(id);
    if has_timer(timers, id) {
        let i = choose|i: int| 0 <= i < timers.len() && (#[trigger] timers[i]).id == id;
        let a = timers.take(i);
        let b = timers.skip(i + 1);
        assert forall|k: int| 0 <= k < a.len() implies (#[trigger] a[k]).id != id by {
            assert(a[k] == timers[k]);
        }
        assert forall|k: int| 0 <= k < b.len() implies (#[trigger] b[k]).id != id by {
            assert(b[k] == timers[k + i + 1]);
        }
        lemma_filter_keeps_others(a, id);
        lemma_filter_keeps_others(b, id);
        let x = seq![timers[i]];
        assert(x.drop_last() =~= Seq::<Timer>::empty());
        reveal(Seq::filter);
        assert(x.drop_last().filter(p) =~= Seq::<Timer>::empty());
        assert(!p(x.last()));
        assert(x.filter(p) =~= Seq::<Timer>::empty());
        assert(timers =~= a + (x + b));
        Seq::filter_distributes_over_add(a, x + b, p);
        Seq::filter_distributes_over_add(x, b, p);
        assert(timers.remove(i) =~= a + b);
        assert((x + b).filter(p) =~= b);
    } else {
        assert forall|k: int| 0 <= k < timers.len() implies (#[trigger] timers[k]).id != id by {}
        lemma_filter_keeps_others(timers, id);
    }
    let r = without_timer(timers, id);
    assert forall|k: int| 0 <= k < r.len() implies (#[trigger] r[k]).id != id by {
        timers.lemma_filter_pred(p, k);
    }
}

} // verus!
