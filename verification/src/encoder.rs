//! Packets between capture and muxer, and encoder statistics.
use crate::pcm::copy_bytes;
use crate::types::PcmFrame;
use vstd::prelude::*;

verus! {

/// Encoded audio packet for muxing.
#[derive(Debug, Clone)]
pub struct AudioPacket {
    pub data: Vec<u8>,
    pub pts: i64,
    pub duration: i64,
    pub is_key: bool,
}

/// A number of 64 bits read as two's complement.
pub open spec fn as_signed(n: u64) -> int {
    if n < 0x8000_0000_0000_0000 {
        n as int
    } else {
        n - 0x1_0000_0000_0000_0000
    }
}

/// Passes a PCM frame on as a packet: the muxer encodes it.
pub fn packet_of(frame: &PcmFrame) -> (pkt: AudioPacket)
    ensures
        is_packet_of(pkt, *frame),
{
    let ts: u64 = frame.timestamp_us;
    let pts: i64 = if ts < 0x8000_0000_0000_0000 {
        ts as i64
    } else {
        (ts as i128 - 0x1_0000_0000_0000_0000) as i64
    };
    AudioPacket {
        data: copy_bytes(frame.data.as_slice()),
        pts,
        duration: frame.frame_count as i64,
        is_key: true,
    }
}

/// Runtime encoder statistics emitted periodically.
///
/// The actual bit rate is `bits` over the time that the statistics cover.
#[derive(Debug, Clone, Copy)]
pub struct EncoderStats {
    pub encode_time_avg_us: u64,
    pub encode_time_max_us: u64,
    pub bits: u64,
    pub queue_depth: usize,
    pub packets_encoded: u64,
    pub frames_dropped: u64,
}

pub open spec fn sum(times: Seq<u64>) -> nat
    decreases times.len(),
{
    if times.len() == 0 {
        0
    } else {
        sum(times.drop_last()) + times.last() as nat
    }
}

pub open spec fn largest(times: Seq<u64>) -> nat
    decreases times.len(),
{
    if times.len() == 0 {
        0
    } else {
        let before = largest(times.drop_last());
        if times.last() as nat > before {
            times.last() as nat
        } else {
            before
        }
    }
}

/// What happened since the last report.
pub struct EncoderWindow {
    times: Vec<u64>,
    packets: u64,
    dropped: u64,
    bytes: u64,
}

/// The state of an [`EncoderWindow`].
pub struct WindowState {
    pub times: Seq<u64>,
    pub packets: nat,
    pub dropped: nat,
    pub bytes: nat,
}

impl View for EncoderWindow {
    type V = WindowState;

    closed spec fn view(&self) -> WindowState {
        WindowState {
            times: self.times@,
            packets: self.packets as nat,
            dropped: self.dropped as nat,
            bytes: self.bytes as nat,
        }
    }
}

pub open spec fn empty_window() -> WindowState {
    WindowState { times: Seq::empty(), packets: 0, dropped: 0, bytes: 0 }
}

/// Whether statistics are due: once a whole second has passed.
pub fn report_due(elapsed_secs: u64) -> (r: bool)
    ensures
        r == (elapsed_secs >= 1),
{
    elapsed_secs >= 1
}

impl EncoderWindow {
    pub fn new() -> (w: Self)
        ensures
            w@ == empty_window(),
    {
        EncoderWindow { times: Vec::new(), packets: 0, dropped: 0, bytes: 0 }
    }

    /// Counts a packet of `len` bytes that is about to be sent.
    pub fn count_packet(&mut self, len: usize)
        requires
            old(self)@.packets < u64::MAX,
            old(self)@.bytes + len <= u64::MAX,
        ensures
            final(self)@ == (WindowState {
                packets: old(self)@.packets + 1,
                bytes: old(self)@.bytes + len as nat,
                ..old(self)@
            }),
    {
        self.bytes = self.bytes + len as u64;
        self.packets = self.packets + 1;
    }

    /// Notes how long a packet took.
    pub fn record_time(&mut self, elapsed_us: u64)
        ensures
            final(self)@ == (WindowState {
                times: old(self)@.times.push(elapsed_us),
                ..old(self)@
            }),
    {
        self.times.push(elapsed_us);
    }

    /// The statistics of the window, which starts anew.
    pub fn report(&mut self, queue_depth: usize) -> (stats: EncoderStats)
        requires
            sum(old(self)@.times) <= u64::MAX,
            8 * old(self)@.bytes <= u64::MAX,
        ensures
            final(self)@ == empty_window(),
            is_report_of(stats, old(self)@, queue_depth),
    {
        let ghost all = self.times@;
        let mut total: u64 = 0;
        let mut max: u64 = 0;
        let mut i: usize = 0;
        assert(all.take(0) =~= Seq::empty());
        while i < self.times.len()
            invariant
                i <= self.times.len(),
                self.times@ == all,
                self@ == old(self)@,
                total == sum(all.take(i as int)),
                max == largest(all.take(i as int)),
                sum(all) <= u64::MAX,
            decreases self.times.len() - i,
        {
            proof {
                lemma_sum_take(all, i + 1);
                assert(all.take(i + 1).drop_last() =~= all.take(i as int));
            }
            let t: u64 = self.times[i];
            total = total + t;
            if t > max {
                max = t;
            }
            i = i + 1;
        }
        assert(all.take(all.len() as int) =~= all);
        let avg: u64 = if self.times.len() == 0 {
            0
        } else {
            total / (self.times.len() as u64)
        };
        let stats = EncoderStats {
            encode_time_avg_us: avg,
            encode_time_max_us: max,
            bits: 8 * self.bytes,
            queue_depth,
            packets_encoded: self.packets,
            frames_dropped: self.dropped,
        };
        self.times.clear();
        self.packets = 0;
        self.dropped = 0;
        self.bytes = 0;
        assert(self@.times =~= Seq::empty());
        stats
    }
}

// ---------------------------------------------------------------------------
// The encode task
// ---------------------------------------------------------------------------
/// What the encode task hears.
#[derive(Debug)]
pub enum EncodeEvent {
    /// The session is told to stop.
    Shutdown,
    /// No more frames come.
    Closed,
    /// A frame came.
    Frame(PcmFrame),
    /// Nobody takes packets any more.
    Refused,
    /// A packet was taken.
    Sent {
        /// How long the packet took.
        elapsed_us: u64,
        /// Whole seconds since the last report.
        interval_secs: u64,
        /// Frames that wait.
        queue_depth: usize,
    },
}

/// What the encode task does next.
#[derive(Debug)]
pub enum EncodeStep {
    /// End.
    End,
    /// Hand on a packet.
    Send(AudioPacket),
    /// Send out statistics, and count the seconds anew.
    Report(EncoderStats),
    /// Wait for a frame.
    Wait,
}

/// Whether a packet is what the encoder makes of a frame.
pub open spec fn is_packet_of(pkt: AudioPacket, frame: PcmFrame) -> bool {
    &&& pkt.data@ == frame.data@
    &&& pkt.pts == as_signed(frame.timestamp_us)
    &&& pkt.duration == frame.frame_count
    &&& pkt.is_key
}

/// Whether statistics are those of a window.
pub open spec fn is_report_of(stats: EncoderStats, w: WindowState, queue_depth: usize) -> bool {
    &&& stats.encode_time_avg_us == if w.times.len() == 0 {
        0
    } else {
        sum(w.times) / w.times.len()
    }
    &&& stats.encode_time_max_us == largest(w.times)
    &&& stats.bits == 8 * w.bytes
    &&& stats.queue_depth == queue_depth
    &&& stats.packets_encoded == w.packets
    &&& stats.frames_dropped == w.dropped
}

/// The counts must fit in their 64 bits.
pub open spec fn can_encode(w: WindowState, event: EncodeEvent) -> bool {
    match event {
        EncodeEvent::Frame(f) => w.packets < u64::MAX && w.bytes + f.data@.len() <= u64::MAX,
        EncodeEvent::Sent { elapsed_us, interval_secs, queue_depth } => interval_secs >= 1 ==> sum(
            w.times.push(elapsed_us),
        ) <= u64::MAX && 8 * w.bytes <= u64::MAX,
        _ => true,
    }
}

/// What an event does to the window, and the step it calls for. A frame is counted
/// and handed on; a packet that was taken is timed, and each whole second the
/// statistics are sent out and start anew. All else ends the task.
pub open spec fn encode_follows(
    before: WindowState,
    event: EncodeEvent,
    after: WindowState,
    step: EncodeStep,
) -> bool {
    match event {
        EncodeEvent::Shutdown | EncodeEvent::Closed | EncodeEvent::Refused => {
            &&& step == EncodeStep::End
            &&& after == before
        },
        EncodeEvent::Frame(f) => {
            &&& step matches EncodeStep::Send(pkt) && is_packet_of(pkt, f)
            &&& after == (WindowState {
                packets: before.packets + 1,
                bytes: before.bytes + f.data@.len(),
                ..before
            })
        },
        EncodeEvent::Sent { elapsed_us, interval_secs, queue_depth } => {
            let timed = WindowState { times: before.times.push(elapsed_us), ..before };
            if interval_secs >= 1 {
                &&& step matches EncodeStep::Report(stats) && is_report_of(stats, timed, queue_depth)
                &&& after == empty_window()
            } else {
                &&& step == EncodeStep::Wait
                &&& after == timed
            }
        },
    }
}

/// The step that an event calls for; see [`encode_follows`].
pub fn encode_step(window: &mut EncoderWindow, event: EncodeEvent) -> (step: EncodeStep)
    requires
        can_encode(old(window)@, event),
    ensures
        encode_follows(old(window)@, event, final(window)@, step),
{
    match event {
        EncodeEvent::Shutdown => EncodeStep::End,
        EncodeEvent::Closed => EncodeStep::End,
        EncodeEvent::Refused => EncodeStep::End,
        EncodeEvent::Frame(f) => {
            let pkt = packet_of(&f);
            window.count_packet(pkt.data.len());
            EncodeStep::Send(pkt)
        },
        EncodeEvent::Sent { elapsed_us, interval_secs, queue_depth } => {
            window.record_time(elapsed_us);
            if report_due(interval_secs) {
                EncodeStep::Report(window.report(queue_depth))
            } else {
                EncodeStep::Wait
            }
        },
    }
}

/// Whether an encode task ran like this: each event met the window that the one
/// before it left, and called for its step.
pub open spec fn encode_ran(
    windows: Seq<WindowState>,
    events: Seq<EncodeEvent>,
    steps: Seq<EncodeStep>,
) -> bool {
    &&& windows.len() == events.len() + 1
    &&& steps.len() == events.len()
    &&& forall|i: int|
        0 <= i < events.len() ==> encode_follows(
            windows[i],
            #[trigger] events[i],
            windows[i + 1],
            steps[i],
        )
}

/// The frames among some events, in order.
pub open spec fn frames_of(events: Seq<EncodeEvent>) -> Seq<PcmFrame>
    decreases events.len(),
{
    if events.len() == 0 {
        Seq::empty()
    } else {
        match events.last() {
            EncodeEvent::Frame(f) => frames_of(events.drop_last()).push(f),
            _ => frames_of(events.drop_last()),
        }
    }
}

/// The packets that some steps hand on, in order.
pub open spec fn packets_of(steps: Seq<EncodeStep>) -> Seq<AudioPacket>
    decreases steps.len(),
{
    if steps.len() == 0 {
        Seq::empty()
    } else {
        match steps.last() {
            EncodeStep::Send(p) => packets_of(steps.drop_last()).push(p),
            _ => packets_of(steps.drop_last()),
        }
    }
}

/// Whether an event ends the task.
pub open spec fn ends_task(event: EncodeEvent) -> bool {
    event is Shutdown || event is Closed || event is Refused
}

/// Whether a packet carries a frame: its bytes unchanged, its time, and as many ticks
/// as it has frames.
pub open spec fn carries(pkt: AudioPacket, frame: PcmFrame) -> bool {
    &&& pkt.data@ == frame.data@
    &&& frame.timestamp_us <= i64::MAX ==> pkt.pts == frame.timestamp_us
    &&& frame.timestamp_us > i64::MAX ==> pkt.pts == frame.timestamp_us - 0x1_0000_0000_0000_0000
    &&& pkt.duration == frame.frame_count
    &&& pkt.is_key
}

/// However an encode task runs, it hands on exactly one packet for each frame, in the
/// order of the frames, and it ends exactly where it is told to stop, where no more
/// frames come, or where nobody takes its packets.
pub proof fn packets_follow_frames(
    windows: Seq<WindowState>,
    events: Seq<EncodeEvent>,
    steps: Seq<EncodeStep>,
)
    requires
        encode_ran(windows, events, steps),
    ensures
        packets_of(steps).len() == frames_of(events).len(),
        forall|i: int|
            0 <= i < frames_of(events).len() ==> is_packet_of(
                #[trigger] packets_of(steps)[i],
                frames_of(events)[i],
            ) && carries(packets_of(steps)[i], frames_of(events)[i]),
        forall|i: int|
            0 <= i < steps.len() ==> ((#[trigger] steps[i]) is End <==> ends_task(events[i])),
    decreases events.len(),
{
    if events.len() > 0 {
        let n = events.len() - 1;
        let w = windows.drop_last();
        let e = events.drop_last();
        let s = steps.drop_last();
        assert(encode_ran(w, e, s)) by {
            assert forall|i: int| 0 <= i < n implies encode_follows(
                w[i],
                #[trigger] e[i],
                w[i + 1],
                s[i],
            ) by {
                assert(encode_follows(windows[i], events[i], windows[i + 1], steps[i]));
            }
        }
        packets_follow_frames(w, e, s);
        assert(encode_follows(windows[n], events[n], windows[n + 1], steps[n]));
        assert forall|i: int| 0 <= i < steps.len() implies ((#[trigger] steps[i]) is End
            <==> ends_task(events[i])) by {
            if i < n {
                assert(s[i] is End <==> ends_task(e[i]));
            }
        }
    }
}

/// Over frames whose packets are all taken, and then the end of the frames, exactly
/// those packets are sent, in order, and the task ends only then.
pub proof fn every_frame_is_sent(
    windows: Seq<WindowState>,
    events: Seq<EncodeEvent>,
    steps: Seq<EncodeStep>,
    frames: Seq<PcmFrame>,
)
    requires
        encode_ran(windows, events, steps),
        events.len() == 2 * frames.len() + 1,
        forall|i: int|
            0 <= i < frames.len() ==> events[2 * i] == EncodeEvent::Frame(#[trigger] frames[i]),
        forall|i: int| 0 <= i < frames.len() ==> (#[trigger] events[2 * i + 1]) is Sent,
        events.last() is Closed,
    ensures
        packets_of(steps).len() == frames.len(),
        forall|i: int|
            0 <= i < frames.len() ==> is_packet_of(#[trigger] packets_of(steps)[i], frames[i])
                && carries(packets_of(steps)[i], frames[i]),
        forall|i: int| 0 <= i < steps.len() - 1 ==> !((#[trigger] steps[i]) is End),
        steps.last() is End,
{
    packets_follow_frames(windows, events, steps);
    let head = events.drop_last();
    assert(head =~= events.take(2 * frames.len() as int));
    lemma_frames_of_pairs(events, frames, frames.len());
    assert(frames.take(frames.len() as int) =~= frames);
    assert forall|i: int| 0 <= i < steps.len() - 1 implies !((#[trigger] steps[i]) is End) by {
        let k = i / 2;
        assert(events[2 * k] == EncodeEvent::Frame(frames[k]));
        assert(events[2 * k + 1] is Sent);
        assert(i == 2 * k || i == 2 * k + 1);
    }
}

proof fn lemma_frames_of_pairs(events: Seq<EncodeEvent>, frames: Seq<PcmFrame>, n: nat)
    requires
        n <= frames.len(),
        events.len() == 2 * frames.len() + 1,
        forall|i: int|
            0 <= i < frames.len() ==> events[2 * i] == EncodeEvent::Frame(#[trigger] frames[i]),
        forall|i: int| 0 <= i < frames.len() ==> (#[trigger] events[2 * i + 1]) is Sent,
    ensures
        frames_of(events.take(2 * n as int)) == frames.take(n as int),
    decreases n,
{
    if n == 0 {
        assert(events.take(0) =~= Seq::empty());
        assert(frames.take(0) =~= Seq::empty());
    } else {
        let m = n - 1;
        lemma_frames_of_pairs(events, frames, m as nat);
        let pair = events.take(2 * n as int);
        assert(pair.drop_last() =~= events.take(2 * m + 1));
        assert(pair.last() == events[2 * m + 1]);
        assert(events.take(2 * m + 1).drop_last() =~= events.take(2 * m));
        assert(events.take(2 * m + 1).last() == EncodeEvent::Frame(frames[m]));
        assert(frames.take(n as int) =~= frames.take(m).push(frames[m]));
        reveal_with_fuel(frames_of, 3);
    }
}

proof fn lemma_sum_take(s: Seq<u64>, i: int)
    requires
        0 <= i <= s.len(),
    ensures
        sum(s.take(i)) <= sum(s),
    decreases s.len(),
{
    if i == s.len() {
        assert(s.take(i) =~= s);
    } else {
        lemma_sum_take(s.drop_last(), i);
        assert(s.drop_last().take(i) =~= s.take(i));
    }
}

/// Times add up: the sum of all is the sum of the first ones and that of the others,
/// and one time alone is its own sum.
pub proof fn times_add_up(a: Seq<u64>, b: Seq<u64>, t: u64)
    ensures
        sum(a + b) == sum(a) + sum(b),
        sum(seq![t]) == t,
    decreases b.len(),
{
    assert(seq![t].drop_last() =~= Seq::<u64>::empty());
    reveal_with_fuel(sum, 2);
    if b.len() == 0 {
        assert(a + b =~= a);
    } else {
        times_add_up(a, b.drop_last(), t);
        assert((a + b).drop_last() =~= a + b.drop_last());
    }
}

proof fn lemma_largest(times: Seq<u64>)
    ensures
        forall|i: int| 0 <= i < times.len() ==> #[trigger] times[i] <= largest(times),
        times.len() > 0 ==> exists|i: int|
            0 <= i < times.len() && #[trigger] times[i] == largest(times),
        sum(times) <= largest(times) * times.len(),
    decreases times.len(),
{
    if times.len() > 0 {
        let t = times.drop_last();
        let n = times.len() - 1;
        lemma_largest(t);
        assert forall|i: int| 0 <= i < times.len() implies #[trigger] times[i] <= largest(times) by {
            if i < n {
                assert(t[i] == times[i]);
            }
        }
        if times.last() > largest(t) || n == 0 {
            assert(times[n] == largest(times));
        } else {
            let i = choose|i: int| 0 <= i < t.len() && #[trigger] t[i] == largest(t);
            assert(times[i] == largest(times));
        }
        let m = largest(times) as int;
        let before = largest(t) as int;
        assert(before * n <= m * n) by (nonlinear_arith)
            requires
                before <= m,
                n >= 0,
        ;
        assert(m * n + m == m * (n + 1)) by (nonlinear_arith);
    }
}

/// Statistics tell the window that they are of: the longest time is one of the times
/// and none is longer; the mean is their sum over their number, without what follows
/// the point, and so never above the longest; bits are eight to the byte.
pub proof fn reports_tell_the_window(stats: EncoderStats, w: WindowState, queue_depth: usize)
    requires
        is_report_of(stats, w, queue_depth),
    ensures
        forall|i: int| 0 <= i < w.times.len() ==> #[trigger] w.times[i] <= stats.encode_time_max_us,
        w.times.len() > 0 ==> exists|i: int|
            0 <= i < w.times.len() && #[trigger] w.times[i] == stats.encode_time_max_us,
        w.times.len() > 0 ==> stats.encode_time_avg_us * w.times.len() <= sum(w.times) < (
        stats.encode_time_avg_us + 1) * w.times.len(),
        stats.encode_time_avg_us <= stats.encode_time_max_us,
        w.times.len() == 0 ==> stats.encode_time_avg_us == 0 && stats.encode_time_max_us == 0,
        stats.bits == w.bytes + w.bytes + w.bytes + w.bytes + w.bytes + w.bytes + w.bytes
            + w.bytes,
        stats.queue_depth == queue_depth,
        stats.packets_encoded == w.packets,
        stats.frames_dropped == w.dropped,
{
    lemma_largest(w.times);
    let n = w.times.len() as int;
    let total = sum(w.times) as int;
    if n > 0 {
        let avg = total / n;
        vstd::arithmetic::div_mod::lemma_fundamental_div_mod(total, n);
        vstd::arithmetic::div_mod::lemma_mod_bound(total, n);
        vstd::arithmetic::div_mod::lemma_div_pos_is_pos(total, n);
        assert(avg * n <= total < (avg + 1) * n) by (nonlinear_arith)
            requires
                total == n * avg + total % n,
                0 <= total % n < n,
        ;
        let m = largest(w.times) as int;
        assert(avg <= m) by (nonlinear_arith)
            requires
                avg * n <= total,
                total <= m * n,
                n > 0,
        ;
    }
}

/// All bytes of some frames, in number.
pub open spec fn bytes_of_frames(frames: Seq<PcmFrame>) -> nat
    decreases frames.len(),
{
    if frames.len() == 0 {
        0
    } else {
        bytes_of_frames(frames.drop_last()) + frames.last().data@.len()
    }
}

/// Between two reports the window counts every frame and every byte, and nothing
/// else: where no report was made yet, its counts are those of all frames that came.
pub proof fn windows_count_every_frame(
    windows: Seq<WindowState>,
    events: Seq<EncodeEvent>,
    steps: Seq<EncodeStep>,
)
    requires
        encode_ran(windows, events, steps),
        windows[0] == empty_window(),
        forall|i: int| 0 <= i < steps.len() ==> !((#[trigger] steps[i]) is Report),
    ensures
        windows.last().packets == frames_of(events).len(),
        windows.last().bytes == bytes_of_frames(frames_of(events)),
        windows.last().dropped == 0,
    decreases events.len(),
{
    if events.len() > 0 {
        let n = events.len() - 1;
        let w = windows.drop_last();
        let e = events.drop_last();
        let s = steps.drop_last();
        assert(encode_ran(w, e, s)) by {
            assert forall|i: int| 0 <= i < n implies encode_follows(
                w[i],
                #[trigger] e[i],
                w[i + 1],
                s[i],
            ) by {
                assert(encode_follows(windows[i], events[i], windows[i + 1], steps[i]));
            }
        }
        assert forall|i: int| 0 <= i < s.len() implies !((#[trigger] s[i]) is Report) by {
            assert(!(steps[i] is Report));
        }
        windows_count_every_frame(w, e, s);
        assert(encode_follows(windows[n], events[n], windows[n + 1], steps[n]));
        assert(!(steps[n] is Report));
        assert(w.last() == windows[n]);
        match events[n] {
            EncodeEvent::Frame(f) => {
                assert(frames_of(events).drop_last() =~= frames_of(e));
            },
            _ => {},
        }
    }
}

/// The first report tells of all frames that came before it.
pub proof fn reports_count_every_frame(
    windows: Seq<WindowState>,
    events: Seq<EncodeEvent>,
    steps: Seq<EncodeStep>,
    stats: EncoderStats,
)
    requires
        encode_ran(windows, events, steps),
        windows[0] == empty_window(),
        steps.len() > 0,
        forall|i: int| 0 <= i < steps.len() - 1 ==> !((#[trigger] steps[i]) is Report),
        steps.last() == EncodeStep::Report(stats),
    ensures
        stats.packets_encoded == frames_of(events).len(),
        stats.bits == 8 * bytes_of_frames(frames_of(events)),
        stats.frames_dropped == 0,
        windows.last() == empty_window(),
        events.last() is Sent,
        events.last()->interval_secs >= 1,
        stats.encode_time_max_us >= events.last()->elapsed_us,
{
    let n = events.len() - 1;
    let w = windows.drop_last();
    let e = events.drop_last();
    let s = steps.drop_last();
    assert(encode_ran(w, e, s)) by {
        assert forall|i: int| 0 <= i < n implies encode_follows(
            w[i],
            #[trigger] e[i],
            w[i + 1],
            s[i],
        ) by {
            assert(encode_follows(windows[i], events[i], windows[i + 1], steps[i]));
        }
    }
    assert forall|i: int| 0 <= i < s.len() implies !((#[trigger] s[i]) is Report) by {
        assert(!(steps[i] is Report));
    }
    windows_count_every_frame(w, e, s);
    assert(encode_follows(windows[n], events[n], windows[n + 1], steps[n]));
    let timed = WindowState {
        times: windows[n].times.push(events[n]->elapsed_us),
        ..windows[n]
    };
    reports_tell_the_window(stats, timed, events[n]->queue_depth);
    assert(timed.times[timed.times.len() - 1] == events[n]->elapsed_us);
}

/// Statistics are sent once a second has passed, and not before.
pub proof fn reports_come_each_second(secs: u64, due: bool)
    requires
        call_ensures(report_due, (secs,), due),
    ensures
        due <==> secs > 0,
{
}

/// A packet carries its frame.
pub proof fn packets_carry_their_frame(frame: PcmFrame, pkt: AudioPacket)
    requires
        call_ensures(packet_of, (&frame,), pkt),
    ensures
        carries(pkt, frame),
{
}

} // verus!
