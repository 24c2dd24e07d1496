//! Lock-free round-trip latency meter.
//!
//! The meter and its GUI-side handle share three cells: the capture buffer,
//! the capture state and the arm request.  Other threads may change those
//! cells between any two operations, so what a method reads from them is
//! treated as an arbitrary value.  What the meter stores into them is kept in
//! two ghost journals beside each store: the capture window it has written
//! and the sequence of states it has set.  The decisions taken on what was
//! read are spec functions below with exact statements: `process` is proved
//! to follow them, stores included, for whatever values it reads, and the
//! laws at the end of the file state how the transitions compose.
//!
//! Samples are the bit patterns of `f32` values (`f32::to_bits`).
use std::sync::Arc;
use std::sync::atomic::{AtomicBool, AtomicU32, AtomicU8, Ordering};
use vstd::prelude::*;

verus! {

/// Number of samples captured per measurement window.
/// Covers > 90 ms at 44.1 kHz.
pub const CAPTURE_LEN: usize = 4096;

/// Number of impulses the meter emits per capture window (one, at its start).
pub const N_IMPULSES: usize = 1;

/// Samples between two emitted impulses: the whole window.
pub const IMPULSE_INTERVAL: usize = CAPTURE_LEN / N_IMPULSES;

/// Bit pattern of the impulse sample `1.0_f32`.
pub const IMPULSE_BITS: u32 = 0x3f80_0000;

/// Bit pattern of silence, `0.0_f32`.
pub const SILENCE_BITS: u32 = 0;

/// State of the capture state machine.
#[derive(Clone, Copy, Debug, PartialEq, Eq, Structural)]
pub enum CaptureState {
    Idle,
    Capturing,
    Done,
    Cancelled,
}

/// The byte that stands for a state in the shared state cell.
pub open spec fn state_code(s: CaptureState) -> u8 {
    match s {
        CaptureState::Idle => 0,
        CaptureState::Capturing => 1,
        CaptureState::Done => 2,
        CaptureState::Cancelled => 3,
    }
}

/// The state a byte of the shared state cell stands for; bytes that stand
/// for no state read as `Idle`.
pub open spec fn state_of_code(v: u8) -> CaptureState {
    if v == 1 {
        CaptureState::Capturing
    } else if v == 2 {
        CaptureState::Done
    } else if v == 3 {
        CaptureState::Cancelled
    } else {
        CaptureState::Idle
    }
}

impl CaptureState {
    /// Decode a state byte.  The state cell only ever receives the codes of
    /// [`state_code`], but it is shared, so any byte may be read: a byte above
    /// 3 decodes to `Idle` rather than failing, since this runs on the audio
    /// thread and must not panic.
    pub fn from_u8(v: u8) -> (r: CaptureState)
        ensures
            r == state_of_code(v),
    {
        match v {
            0 => CaptureState::Idle,
            1 => CaptureState::Capturing,
            2 => CaptureState::Done,
            3 => CaptureState::Cancelled,
            _ => CaptureState::Idle,
        }
    }

    /// Encode a state as its byte.
    pub fn to_u8(self) -> (r: u8)
        ensures
            r == state_code(self),
    {
        match self {
            CaptureState::Idle => 0,
            CaptureState::Capturing => 1,
            CaptureState::Done => 2,
            CaptureState::Cancelled => 3,
        }
    }
}

/// Encoding a state and decoding the byte gives the state back.
pub proof fn lemma_state_code_round_trip(s: CaptureState)
    ensures
        state_of_code(state_code(s)) == s,
{
}

/// Each state has its own byte.
pub proof fn lemma_state_code_injective(a: CaptureState, b: CaptureState)
    ensures
        state_code(a) == state_code(b) ==> a == b,
{
}

/// The measurement starts: an arm request was consumed while the state was `Idle`.
pub open spec fn starts_capture(seen: CaptureState, armed: bool) -> bool {
    armed && seen == CaptureState::Idle
}

/// State after consuming an arm request: only `Idle` moves, to `Capturing`.
pub open spec fn after_arm(seen: CaptureState, armed: bool) -> CaptureState {
    if starts_capture(seen, armed) {
        CaptureState::Capturing
    } else {
        seen
    }
}

/// State after an audio-thread cancel: only `Capturing` moves, to `Cancelled`.
pub open spec fn after_cancel(s: CaptureState) -> CaptureState {
    if s == CaptureState::Capturing {
        CaptureState::Cancelled
    } else {
        s
    }
}

/// State after a GUI reset: `Done` and `Cancelled` move to `Idle`.
pub open spec fn after_reset_to_idle(s: CaptureState) -> CaptureState {
    if s == CaptureState::Done || s == CaptureState::Cancelled {
        CaptureState::Idle
    } else {
        s
    }
}

/// Samples a pass over a buffer of `len` samples captures from write cursor `w`.
pub open spec fn pass_len(w: usize, len: usize) -> int {
    if w >= CAPTURE_LEN {
        0
    } else if len < CAPTURE_LEN - w {
        len as int
    } else {
        CAPTURE_LEN - w
    }
}

/// Buffer after a capturing pass: the first sample becomes the impulse when
/// the impulse is still pending and the pass captures anything.
pub open spec fn pass_output(w: usize, pending: bool, b: Seq<u32>) -> Seq<u32> {
    if pending && pass_len(w, b.len() as usize) > 0 {
        b.update(0, IMPULSE_BITS)
    } else {
        b
    }
}

/// Cursor a pass captures from: 0 when the pass starts a window, else `w`.
pub open spec fn pass_start(w: usize, seen: CaptureState, armed: bool) -> usize {
    if starts_capture(seen, armed) {
        0
    } else {
        w
    }
}

/// States stored when consuming the arm request: `Capturing` exactly when
/// the pass starts a window.
pub open spec fn start_states(seen: CaptureState, armed: bool) -> Seq<CaptureState> {
    if starts_capture(seen, armed) {
        seq![CaptureState::Capturing]
    } else {
        seq![]
    }
}

/// Write cursor, pending flag and buffer after the capture step of a pass
/// from cursor `(w, pending)`, having read `now` from the state cell: only
/// while `Capturing` does it capture, advance and emit the impulse.
pub open spec fn capture_step(w: usize, pending: bool, now: CaptureState, b: Seq<u32>) -> (
    usize,
    bool,
    Seq<u32>,
) {
    if now == CaptureState::Capturing {
        let k = pass_len(w, b.len() as usize);
        ((w + k) as usize, pending && k == 0, pass_output(w, pending, b))
    } else {
        (w, pending, b)
    }
}

/// Capture window after the capture step: a capturing step stores the
/// inbound samples it captures, as they were before any overwrite, into
/// consecutive slots from cursor `w`.
pub open spec fn capture_window(win: Seq<u32>, w: usize, now: CaptureState, b: Seq<u32>) -> Seq<
    u32,
> {
    if now == CaptureState::Capturing {
        overlay(win, w, b, pass_len(w, b.len() as usize) as usize)
    } else {
        win
    }
}

/// States stored by the capture step: `Done` exactly when it captures the
/// last sample of the window.
pub open spec fn capture_states(w: usize, now: CaptureState, b: Seq<u32>) -> Seq<CaptureState> {
    let k = pass_len(w, b.len() as usize);
    if now == CaptureState::Capturing && k > 0 && w + k == CAPTURE_LEN {
        seq![CaptureState::Done]
    } else {
        seq![]
    }
}

/// Write cursor, pending flag and buffer after one `process` call that
/// started from cursor `(w, pending)`, read `seen` from the state cell when
/// consuming the arm request `armed`, and read `now` when deciding whether to
/// capture.
pub open spec fn meter_pass(
    w: usize,
    pending: bool,
    seen: CaptureState,
    armed: bool,
    now: CaptureState,
    b: Seq<u32>,
) -> (usize, bool, Seq<u32>) {
    capture_step(pass_start(w, seen, armed), starts_capture(seen, armed) || pending, now, b)
}

/// A capture window of silence.
pub open spec fn silent_window() -> Seq<u32> {
    Seq::new(CAPTURE_LEN as nat, |j: int| SILENCE_BITS)
}

/// `win` with slot `idx` set to `v`.
pub open spec fn slot_set(win: Seq<u32>, idx: usize, v: u32) -> Seq<u32> {
    win.update(idx as int, v)
}

/// `win` with the first `count` samples of `b` laid over it from slot `from`.
pub open spec fn overlay(win: Seq<u32>, from: usize, b: Seq<u32>, count: usize) -> Seq<u32> {
    Seq::new(win.len(), |j: int| if from <= j < from + count { b[j - from] } else { win[j] })
}

/// Capture window after one `process` call (same reads as [`meter_pass`]).
pub open spec fn pass_window(
    win: Seq<u32>,
    w: usize,
    seen: CaptureState,
    armed: bool,
    now: CaptureState,
    b: Seq<u32>,
) -> Seq<u32> {
    capture_window(win, pass_start(w, seen, armed), now, b)
}

/// States one `process` call (same reads as [`meter_pass`]) stores into the
/// state cell, in order: `Capturing` when it starts a window, then `Done`
/// when it captures the last sample of the window.
pub open spec fn pass_states(
    w: usize,
    seen: CaptureState,
    armed: bool,
    now: CaptureState,
    b: Seq<u32>,
) -> Seq<CaptureState> {
    start_states(seen, armed) + capture_states(pass_start(w, seen, armed), now, b)
}

proof fn lemma_overlay_step(win: Seq<u32>, from: usize, b: Seq<u32>, count: usize)
    requires
        count < b.len(),
        win.len() == CAPTURE_LEN,
        from + count < CAPTURE_LEN,
    ensures
        overlay(win, from, b, (count + 1) as usize) == slot_set(
            overlay(win, from, b, count),
            (from + count) as usize,
            b[count as int],
        ),
{
    assert(overlay(win, from, b, (count + 1) as usize) =~= slot_set(
        overlay(win, from, b, count),
        (from + count) as usize,
        b[count as int],
    ));
}

proof fn lemma_overlay_none(win: Seq<u32>, from: usize, b: Seq<u32>)
    ensures
        overlay(win, from, b, 0) == win,
{
    assert(overlay(win, from, b, 0) =~= win);
}

/// Audio-shell block that captures a loopback signal and emits a Kronecker
/// impulse to bootstrap round-trip latency measurement.
///
/// `write_idx` and `emit_impulse_pending` are audio-thread-local; the three
/// `Arc` cells are shared with [`LatencyHandle`].  `window`, `state_log` and
/// `arm_log` are ghost journals of what this meter has stored into the shared
/// cells.
pub struct LatencyMeter {
    capture_buffer: Arc<Vec<AtomicU32>>,
    state: Arc<AtomicU8>,
    arm_request: Arc<AtomicBool>,
    write_idx: usize,
    emit_impulse_pending: bool,
    window: Ghost<Seq<u32>>,
    state_log: Ghost<Seq<CaptureState>>,
    arm_log: Ghost<Seq<bool>>,
}

impl LatencyMeter {
    #[verifier::type_invariant]
    spec fn well_formed(self) -> bool {
        &&& self.capture_buffer@.len() == CAPTURE_LEN
        &&& self.window@.len() == CAPTURE_LEN
        &&& self.write_idx <= CAPTURE_LEN
        &&& self.emit_impulse_pending ==> self.write_idx == 0
    }

    /// Audio-thread write cursor into the capture window.
    pub closed spec fn cursor(self) -> usize {
        self.write_idx
    }

    /// The impulse of the current window has not been emitted yet.
    pub closed spec fn impulse_pending(self) -> bool {
        self.emit_impulse_pending
    }

    /// For each slot of the capture window, the last sample this meter
    /// stored into it (silence at creation).  Handles only read the window,
    /// so this is what they find there.
    pub closed spec fn window(self) -> Seq<u32> {
        self.window@
    }

    /// Every state this meter has stored into the state cell, in order,
    /// starting with the `Idle` it was created with.
    pub closed spec fn state_log(self) -> Seq<CaptureState> {
        self.state_log@
    }

    /// Every value this meter has stored into the arm-request cell, in order,
    /// starting with the `false` it was created with.
    pub closed spec fn arm_log(self) -> Seq<bool> {
        self.arm_log@
    }

    /// The three shared cells: capture window, state, arm request.  As
    /// `Arc`s, they compare in specifications by what they point to.
    pub closed spec fn cells(self) -> (Arc<Vec<AtomicU32>>, Arc<AtomicU8>, Arc<AtomicBool>) {
        (self.capture_buffer, self.state, self.arm_request)
    }

    /// A fresh meter: silent window, nothing captured, no impulse pending,
    /// state `Idle`, no arm request.
    pub fn new() -> (r: Self)
        ensures
            r.cursor() == 0,
            !r.impulse_pending(),
            r.window() == silent_window(),
            r.state_log() == seq![CaptureState::Idle],
            r.arm_log() == seq![false],
    {
        let mut slots: Vec<AtomicU32> = Vec::new();
        let mut i: usize = 0;
        while i < CAPTURE_LEN
            invariant
                i <= CAPTURE_LEN,
                slots@.len() == i,
            decreases CAPTURE_LEN - i,
        {
            slots.push(AtomicU32::new(SILENCE_BITS));
            i = i + 1;
        }
        LatencyMeter {
            capture_buffer: Arc::new(slots),
            state: Arc::new(AtomicU8::new(CaptureState::Idle.to_u8())),
            arm_request: Arc::new(AtomicBool::new(false)),
            write_idx: 0,
            emit_impulse_pending: false,
            window: Ghost(silent_window()),
            state_log: Ghost(Seq::empty().push(CaptureState::Idle)),
            arm_log: Ghost(Seq::empty().push(false)),
        }
    }

    /// Store `v` into slot `idx` of the capture window.
    fn record_slot(&mut self, idx: usize, v: u32)
        requires
            idx < CAPTURE_LEN,
        ensures
            final(self).window() == slot_set(old(self).window(), idx, v),
            final(self).state_log() == old(self).state_log(),
            final(self).arm_log() == old(self).arm_log(),
            final(self).cursor() == old(self).cursor(),
            final(self).impulse_pending() == old(self).impulse_pending(),
            final(self).cells() == old(self).cells(),
    {
        proof {
            use_type_invariant(&*self);
        }
        self.capture_buffer[idx].store(v, Ordering::Release);
        self.window = Ghost(slot_set(self.window@, idx, v));
    }

    /// Store state `s` into the state cell.
    fn record_state(&mut self, s: CaptureState)
        ensures
            final(self).state_log() == old(self).state_log().push(s),
            final(self).window() == old(self).window(),
            final(self).arm_log() == old(self).arm_log(),
            final(self).cursor() == old(self).cursor(),
            final(self).impulse_pending() == old(self).impulse_pending(),
            final(self).cells() == old(self).cells(),
    {
        proof {
            use_type_invariant(&*self);
        }
        self.state.store(s.to_u8(), Ordering::Release);
        self.state_log = Ghost(self.state_log@.push(s));
    }

    /// Take the pending arm request: swap `false` into the arm-request cell
    /// and return what it held.
    fn take_arm_request(&mut self) -> (armed: bool)
        ensures
            final(self).arm_log() == old(self).arm_log().push(false),
            final(self).state_log() == old(self).state_log(),
            final(self).window() == old(self).window(),
            final(self).cursor() == old(self).cursor(),
            final(self).impulse_pending() == old(self).impulse_pending(),
            final(self).cells() == old(self).cells(),
    {
        proof {
            use_type_invariant(&*self);
        }
        let armed = self.arm_request.swap(false, Ordering::AcqRel);
        self.arm_log = Ghost(self.arm_log@.push(false));
        armed
    }

    /// Store `false` into the arm-request cell.
    fn clear_arm_request(&mut self)
        ensures
            final(self).arm_log() == old(self).arm_log().push(false),
            final(self).state_log() == old(self).state_log(),
            final(self).window() == old(self).window(),
            final(self).cursor() == old(self).cursor(),
            final(self).impulse_pending() == old(self).impulse_pending(),
            final(self).cells() == old(self).cells(),
    {
        proof {
            use_type_invariant(&*self);
        }
        self.arm_request.store(false, Ordering::Release);
        self.arm_log = Ghost(self.arm_log@.push(false));
    }

    /// Clear the audio-thread cursor and put the state back to `Idle`.
    /// A pending arm request is kept: it takes effect on the next `process`.
    pub fn reset(&mut self)
        ensures
            final(self).cursor() == 0,
            !final(self).impulse_pending(),
            final(self).window() == old(self).window(),
            final(self).state_log() == old(self).state_log().push(CaptureState::Idle),
            final(self).arm_log() == old(self).arm_log(),
            final(self).cells() == old(self).cells(),
    {
        proof {
            use_type_invariant(&*self);
        }
        self.write_idx = 0;
        self.emit_impulse_pending = false;
        self.record_state(CaptureState::Idle);
    }

    /// First step of a pass, given the consumed arm request `armed` and the
    /// state `seen` read from the state cell: when the request was set and
    /// the state was `Idle`, start a window (cursor 0, impulse pending, state
    /// `Capturing`); otherwise change nothing.
    pub fn start_if_armed(&mut self, armed: bool, seen: CaptureState)
        ensures
            final(self).cursor() == pass_start(old(self).cursor(), seen, armed),
            final(self).impulse_pending() == (starts_capture(seen, armed)
                || old(self).impulse_pending()),
            final(self).state_log() == old(self).state_log() + start_states(seen, armed),
            final(self).window() == old(self).window(),
            final(self).arm_log() == old(self).arm_log(),
            final(self).cells() == old(self).cells(),
    {
        proof {
            use_type_invariant(&*self);
        }
        if armed && seen == CaptureState::Idle {
            self.write_idx = 0;
            self.emit_impulse_pending = true;
            self.record_state(CaptureState::Capturing);
        }
        assert(self.state_log() == old(self).state_log() + start_states(seen, armed));
    }

    /// Second step of a pass, given the state `now` read from the state
    /// cell: while `Capturing`, store each inbound sample of `buffer` into the
    /// capture window before any overwrite, replace the first sample of the
    /// window with the impulse, and store `Done` once the window is full; in
    /// any other state, change nothing.
    pub fn capture_pass(&mut self, now: CaptureState, buffer: &mut [u32])
        ensures
            capture_step(old(self).cursor(), old(self).impulse_pending(), now, old(buffer)@) == (
                final(self).cursor(),
                final(self).impulse_pending(),
                final(buffer)@,
            ),
            final(self).window() == capture_window(
                old(self).window(),
                old(self).cursor(),
                now,
                old(buffer)@,
            ),
            final(self).state_log() == old(self).state_log() + capture_states(
                old(self).cursor(),
                now,
                old(buffer)@,
            ),
            final(self).arm_log() == old(self).arm_log(),
            final(self).cells() == old(self).cells(),
    {
        proof {
            use_type_invariant(&*self);
        }
        let ghost cells0 = self.cells();
        let ghost win0 = self.window();
        let ghost log1 = self.state_log();
        let ghost arms1 = self.arm_log();
        let ghost b0 = buffer@;
        if now != CaptureState::Capturing {
            assert(self.state_log() == log1 + capture_states(self.cursor(), now, b0));
            return ;
        }
        let ghost w1 = self.write_idx;
        let ghost p1 = self.emit_impulse_pending;
        let len = buffer.len();
        proof {
            lemma_overlay_none(win0, w1, b0);
        }
        let mut i: usize = 0;
        while i < len
            invariant
                len == buffer@.len(),
                len == b0.len(),
                w1 <= CAPTURE_LEN,
                p1 ==> w1 == 0,
                self.capture_buffer@.len() == CAPTURE_LEN,
                self.cells() == cells0,
                i <= len,
                self.write_idx == w1 + i,
                self.write_idx <= CAPTURE_LEN,
                self.emit_impulse_pending == (p1 && i == 0),
                buffer@ == (if p1 && i > 0 {
                    b0.update(0, IMPULSE_BITS)
                } else {
                    b0
                }),
                win0.len() == CAPTURE_LEN,
                self.window() == overlay(win0, w1, b0, i),
                self.state_log() == (if i > 0 && self.write_idx == CAPTURE_LEN {
                    log1.push(CaptureState::Done)
                } else {
                    log1
                }),
                self.arm_log() == arms1,
            ensures
                self.write_idx == w1 + pass_len(w1, len),
                self.emit_impulse_pending == (p1 && pass_len(w1, len) == 0),
                buffer@ == pass_output(w1, p1, b0),
                self.capture_buffer@.len() == CAPTURE_LEN,
                self.cells() == cells0,
                self.write_idx <= CAPTURE_LEN,
                self.write_idx == w1 + i,
                self.window() == overlay(win0, w1, b0, i),
                self.state_log() == (if i > 0 && self.write_idx == CAPTURE_LEN {
                    log1.push(CaptureState::Done)
                } else {
                    log1
                }),
                self.arm_log() == arms1,
            decreases len - i,
        {
            if self.write_idx >= CAPTURE_LEN {
                break;
            }
            let sample = buffer[i];
            let idx = self.write_idx;
            proof {
                lemma_overlay_step(win0, w1, b0, i);
            }
            self.record_slot(idx, sample);
            if self.emit_impulse_pending {
                buffer[i] = if self.write_idx == 0 {
                    IMPULSE_BITS
                } else {
                    SILENCE_BITS
                };
                if self.write_idx == 0 {
                    self.emit_impulse_pending = false;
                }
            }
            self.write_idx = self.write_idx + 1;
            i = i + 1;
            if self.write_idx == CAPTURE_LEN {
                self.record_state(CaptureState::Done);
                break;
            }
        }
        assert(b0.len() == len);
        assert(self.window() == capture_window(win0, w1, now, b0));
        assert(self.state_log() == log1 + capture_states(w1, now, b0));
    }

    /// Per-buffer capture and impulse emission.
    ///
    /// Consumes the arm request (swaps `false` into its cell) and reads the
    /// state cell, then runs [`start_if_armed`](Self::start_if_armed) with
    /// what it read; it reads the state cell again and runs
    /// [`capture_pass`](Self::capture_pass) with that.  When the request was
    /// set and the state was `Idle`, this starts a window (state `Capturing`,
    /// cursor 0, impulse pending).  While `Capturing`, it stores each inbound
    /// sample into the capture window before any overwrite, replaces the
    /// first sample of the window with the impulse, and moves the state to
    /// `Done` once the window is full.
    ///
    /// The values read from the shared cells depend on other threads; for
    /// whatever they were, the pass did exactly what [`meter_pass`],
    /// [`pass_window`] and [`pass_states`] say for them.
    pub fn process(&mut self, buffer: &mut [u32])
        ensures
            exists|seen: CaptureState, armed: bool, now: CaptureState|
                {
                    &&& meter_pass(
                        old(self).cursor(),
                        old(self).impulse_pending(),
                        seen,
                        armed,
                        now,
                        old(buffer)@,
                    ) == (final(self).cursor(), final(self).impulse_pending(), final(buffer)@)
                    &&& final(self).window() == pass_window(
                        old(self).window(),
                        old(self).cursor(),
                        seen,
                        armed,
                        now,
                        old(buffer)@,
                    )
                    &&& final(self).state_log() == old(self).state_log() + pass_states(
                        old(self).cursor(),
                        seen,
                        armed,
                        now,
                        old(buffer)@,
                    )
                },
            final(self).arm_log() == old(self).arm_log().push(false),
            final(self).cells() == old(self).cells(),
    {
        let ghost w0 = self.cursor();
        let ghost win0 = self.window();
        let ghost log0 = self.state_log();
        let ghost b0 = buffer@;
        let armed = self.take_arm_request();
        let seen = CaptureState::from_u8(self.state.load(Ordering::Acquire));
        self.start_if_armed(armed, seen);
        let now = CaptureState::from_u8(self.state.load(Ordering::Acquire));
        self.capture_pass(now, buffer);
        assert(self.state_log() == log0 + pass_states(w0, seen, armed, now, b0));
        assert(meter_pass(
            old(self).cursor(),
            old(self).impulse_pending(),
            seen,
            armed,
            now,
            old(buffer)@,
        ) == (self.cursor(), self.impulse_pending(), buffer@));
        assert(self.window() == pass_window(win0, w0, seen, armed, now, b0));
    }

    /// Cancel step, given the state `s` read from the state cell: store
    /// `Cancelled` when `s` is `Capturing`; otherwise store nothing.
    pub fn apply_cancel(&mut self, s: CaptureState)
        ensures
            final(self).state_log() == (if after_cancel(s) != s {
                old(self).state_log().push(after_cancel(s))
            } else {
                old(self).state_log()
            }),
            final(self).cursor() == old(self).cursor(),
            final(self).impulse_pending() == old(self).impulse_pending(),
            final(self).window() == old(self).window(),
            final(self).arm_log() == old(self).arm_log(),
            final(self).cells() == old(self).cells(),
    {
        let next = after_cancel_exec(s);
        if next != s {
            self.record_state(next);
        }
    }

    /// Audio-thread cancel: reads the state cell and runs
    /// [`apply_cancel`](Self::apply_cancel) with it, so `Capturing` moves to
    /// `Cancelled` and any other state is left as it is.  The audio-thread
    /// cursor, the window and the arm request are untouched; the only state
    /// this can store is `Cancelled`.
    pub fn cancel(&mut self)
        ensures
            final(self).cursor() == old(self).cursor(),
            final(self).impulse_pending() == old(self).impulse_pending(),
            final(self).window() == old(self).window(),
            final(self).state_log() == old(self).state_log() || final(self).state_log()
                == old(self).state_log().push(CaptureState::Cancelled),
            final(self).arm_log() == old(self).arm_log(),
            final(self).cells() == old(self).cells(),
    {
        let s = CaptureState::from_u8(self.state.load(Ordering::Acquire));
        self.apply_cancel(s);
    }

    /// Drop a pending arm request without starting a measurement: stores
    /// `false` into the arm-request cell.  The audio-thread cursor, the window
    /// and the state are untouched.
    pub fn disarm(&mut self)
        ensures
            final(self).cursor() == old(self).cursor(),
            final(self).impulse_pending() == old(self).impulse_pending(),
            final(self).window() == old(self).window(),
            final(self).state_log() == old(self).state_log(),
            final(self).arm_log() == old(self).arm_log().push(false),
            final(self).cells() == old(self).cells(),
    {
        self.clear_arm_request();
    }

    /// Whether an arm request is waiting to be consumed by `process`.
    pub fn arm_requested(&self) -> bool {
        self.arm_request.load(Ordering::Acquire)
    }

    /// Audio-thread cursor into the capture window.
    pub fn write_index(&self) -> (r: usize)
        ensures
            r == self.cursor(),
    {
        self.write_idx
    }

    /// A GUI-side handle holding clones of the meter's three `Arc`s.
    pub fn handle(&self) -> (r: LatencyHandle)
        ensures
            r.cells() == self.cells(),
    {
        proof {
            use_type_invariant(self);
        }
        LatencyHandle {
            capture_buffer: share(&self.capture_buffer),
            state: share(&self.state),
            arm_request: share(&self.arm_request),
        }
    }
}

/// Executable form of [`after_cancel`].
pub fn after_cancel_exec(s: CaptureState) -> (r: CaptureState)
    ensures
        r == after_cancel(s),
{
    if s == CaptureState::Capturing {
        CaptureState::Cancelled
    } else {
        s
    }
}

/// `Arc::clone`: a new `Arc` to the same allocation.  The contract states
/// what specifications can say of it: the clone is equal to `a`, and `Arc`s
/// are compared in specifications by the value they point to.
#[verifier::external_body]
pub(crate) fn share<T>(a: &Arc<T>) -> (r: Arc<T>)
    ensures
        r == *a,
{
    Arc::clone(a)
}

/// GUI-side facet of [`LatencyMeter`].  Cheap to clone (three `Arc` clones).
pub struct LatencyHandle {
    capture_buffer: Arc<Vec<AtomicU32>>,
    state: Arc<AtomicU8>,
    arm_request: Arc<AtomicBool>,
}

impl LatencyHandle {
    #[verifier::type_invariant]
    spec fn well_formed(self) -> bool {
        self.capture_buffer@.len() == CAPTURE_LEN
    }

    /// The three shared cells: capture window, state, arm request.  As
    /// `Arc`s, they compare in specifications by what they point to.
    pub closed spec fn cells(self) -> (Arc<Vec<AtomicU32>>, Arc<AtomicU8>, Arc<AtomicBool>) {
        (self.capture_buffer, self.state, self.arm_request)
    }

    /// Set the arm flag; the audio thread consumes it on its next `process`.
    pub fn request_measurement(&self) {
        self.arm_request.store(true, Ordering::Release);
    }

    /// The current capture state.
    pub fn state(&self) -> CaptureState {
        CaptureState::from_u8(self.state.load(Ordering::Acquire))
    }

    /// Copy the capture window into `out`: `out` is cleared and then holds
    /// exactly `CAPTURE_LEN` samples.  Meaningful once `state()` is `Done`.
    pub fn read_capture_into(&self, out: &mut Vec<u32>)
        ensures
            final(out)@.len() == CAPTURE_LEN,
    {
        proof {
            use_type_invariant(self);
        }
        out.clear();
        let mut i: usize = 0;
        while i < CAPTURE_LEN
            invariant
                i <= CAPTURE_LEN,
                out@.len() == i,
                self.capture_buffer@.len() == CAPTURE_LEN,
            decreases CAPTURE_LEN - i,
        {
            out.push(self.capture_buffer[i].load(Ordering::Acquire));
            i = i + 1;
        }
    }

    /// After consuming a `Done` or `Cancelled` result, move back to `Idle`.
    /// Each move is one compare-and-exchange, so an in-progress capture is
    /// never clobbered.
    pub fn reset_to_idle(&self) {
        let idle = CaptureState::Idle.to_u8();
        let _ = self.state.compare_exchange(
            CaptureState::Done.to_u8(),
            idle,
            Ordering::AcqRel,
            Ordering::Relaxed,
        );
        let _ = self.state.compare_exchange(
            CaptureState::Cancelled.to_u8(),
            idle,
            Ordering::AcqRel,
            Ordering::Relaxed,
        );
    }
}

impl Clone for LatencyHandle {
    /// Another handle: clones of the three `Arc`s.
    fn clone(&self) -> (r: Self)
        ensures
            r.cells() == self.cells(),
    {
        proof {
            use_type_invariant(self);
        }
        LatencyHandle {
            capture_buffer: share(&self.capture_buffer),
            state: share(&self.state),
            arm_request: share(&self.arm_request),
        }
    }
}

impl Default for LatencyMeter {
    fn default() -> (r: Self)
        ensures
            r.cursor() == 0,
            !r.impulse_pending(),
    {
        LatencyMeter::new()
    }
}

/// Result of a compare-and-exchange on a state byte, as std documents it:
/// the new value is stored when the current value equals the expected one.
/// `reset_to_idle` calls std's `compare_exchange`, of which vstd states
/// nothing; this function and the lemma below model those two calls.
pub open spec fn compare_exchange_result(current: u8, expected: u8, new: u8) -> u8 {
    if current == expected {
        new
    } else {
        current
    }
}

/// Model of `reset_to_idle`: two compare-and-exchanges (`Done` → `Idle`,
/// then `Cancelled` → `Idle`) run back to back on a state, with no other
/// thread in between, perform exactly the `Done`/`Cancelled` → `Idle` move:
/// `Idle` and `Capturing` are left as they are.
pub proof fn lemma_reset_to_idle_moves(s: CaptureState)
    ensures
        compare_exchange_result(
            compare_exchange_result(
                state_code(s),
                state_code(CaptureState::Done),
                state_code(CaptureState::Idle),
            ),
            state_code(CaptureState::Cancelled),
            state_code(CaptureState::Idle),
        ) == state_code(after_reset_to_idle(s)),
        after_reset_to_idle(CaptureState::Idle) == CaptureState::Idle,
        after_reset_to_idle(CaptureState::Capturing) == CaptureState::Capturing,
{
}

/// A cancelled capture can be reset and re-armed: cancel moves `Capturing` to
/// `Cancelled`, reset moves it on to `Idle`, and an arm request then starts a
/// new window.  Cancel leaves every other state untouched.
pub proof fn lemma_cancel_then_reset(s: CaptureState)
    ensures
        after_reset_to_idle(after_cancel(CaptureState::Capturing)) == CaptureState::Idle,
        after_arm(after_reset_to_idle(after_cancel(CaptureState::Capturing)), true)
            == CaptureState::Capturing,
        s != CaptureState::Capturing ==> after_cancel(s) == s,
{
}

/// An arm request kept across a reset starts the next window: a pass that
/// consumes it in state `Idle` stores `Capturing`, restarts the cursor, and
/// with a non-empty buffer and the state still `Capturing` emits the impulse
/// as the buffer's first sample and captures from slot 0.
pub proof fn lemma_armed_pass_after_reset(w: usize, pending: bool, b: Seq<u32>)
    requires
        0 < b.len() <= usize::MAX,
    ensures
        start_states(CaptureState::Idle, true) == seq![CaptureState::Capturing],
        pass_start(w, CaptureState::Idle, true) == 0,
        meter_pass(w, pending, CaptureState::Idle, true, CaptureState::Capturing, b).2[0]
            == IMPULSE_BITS,
        meter_pass(w, pending, CaptureState::Idle, true, CaptureState::Capturing, b).0 == pass_len(
            0,
            b.len() as usize,
        ),
{
}

/// An arm request only has an effect when the state is `Idle`: in any other
/// state (in particular while `Capturing`) a pass with the request set acts
/// exactly as a pass without it.
pub proof fn lemma_arm_ignored_unless_idle(
    w: usize,
    pending: bool,
    seen: CaptureState,
    now: CaptureState,
    b: Seq<u32>,
)
    requires
        seen != CaptureState::Idle,
    ensures
        meter_pass(w, pending, seen, true, now, b) == meter_pass(w, pending, seen, false, now, b),
        after_arm(seen, true) == seen,
{
}

/// The impulse is one sample wide: a pass changes at most the first sample
/// of the buffer, only when the impulse is pending and the pass captures,
/// and a capturing pass that captured anything clears the pending impulse.
pub proof fn lemma_impulse_one_sample(
    w: usize,
    pending: bool,
    seen: CaptureState,
    armed: bool,
    now: CaptureState,
    b: Seq<u32>,
)
    requires
        pending ==> w == 0,
    ensures
        ({
            let (w2, p2, out) = meter_pass(w, pending, seen, armed, now, b);
            &&& out.len() == b.len()
            &&& forall|i: int| 1 <= i < b.len() ==> out[i] == b[i]
            &&& out != b ==> out[0] == IMPULSE_BITS
            &&& (now == CaptureState::Capturing && w2 > (if starts_capture(seen, armed) {
                0
            } else {
                w
            })) ==> !p2
        }),
{
}

/// The window records the inbound signal, not the impulse: a capturing pass
/// stores the `k` samples it captures, as they came in, into the slots from
/// its start cursor on, and leaves every other slot as it was; when the
/// impulse was pending, the buffer handed on carries the impulse in its first
/// sample while the window keeps the inbound first sample.
pub proof fn lemma_capture_before_overwrite(
    win: Seq<u32>,
    w: usize,
    pending: bool,
    seen: CaptureState,
    armed: bool,
    b: Seq<u32>,
)
    requires
        win.len() == CAPTURE_LEN,
        w <= CAPTURE_LEN,
    ensures
        ({
            let w1 = pass_start(w, seen, armed);
            let p1 = starts_capture(seen, armed) || pending;
            let k = pass_len(w1, b.len() as usize);
            let after = pass_window(win, w, seen, armed, CaptureState::Capturing, b);
            let out = meter_pass(w, pending, seen, armed, CaptureState::Capturing, b).2;
            &&& after.len() == CAPTURE_LEN
            &&& forall|j: int| #![trigger b[j]] 0 <= j < k ==> after[w1 + j] == b[j]
            &&& forall|j: int|
                0 <= j < CAPTURE_LEN && !(w1 <= j < w1 + k) ==> #[trigger] after[j] == win[j]
            &&& (p1 && k > 0) ==> out[0] == IMPULSE_BITS && after[w1 as int] == b[0]
        }),
{
}

/// A pass stores `Done` exactly when it captures the last sample of the
/// window: it captured something and its cursor ends at `CAPTURE_LEN`.
pub proof fn lemma_done_when_full(
    w: usize,
    pending: bool,
    seen: CaptureState,
    armed: bool,
    now: CaptureState,
    b: Seq<u32>,
)
    requires
        w <= CAPTURE_LEN,
    ensures
        ({
            let st = pass_states(w, seen, armed, now, b);
            let w2 = meter_pass(w, pending, seen, armed, now, b).0;
            (st.len() > 0 && st.last() == CaptureState::Done) <==> (now == CaptureState::Capturing
                && w2 > pass_start(w, seen, armed) && w2 == CAPTURE_LEN)
        }),
{
}

/// Write cursor after a run of capturing passes over buffers of the given
/// lengths, starting from cursor `w`.
pub open spec fn cursor_after(w: usize, lens: Seq<usize>) -> usize
    decreases lens.len(),
{
    if lens.len() == 0 {
        w
    } else {
        cursor_after((w + pass_len(w, lens[0])) as usize, lens.drop_first())
    }
}

/// Total number of samples in a run of buffers.
pub open spec fn total_len(lens: Seq<usize>) -> int
    decreases lens.len(),
{
    if lens.len() == 0 {
        0
    } else {
        lens[0] + total_len(lens.drop_first())
    }
}

/// Capturing passes advance the cursor by the samples they see until the
/// window is full: after passes totalling `t` samples from cursor `w`, the
/// cursor is `min(w + t, CAPTURE_LEN)`.  In particular a window armed at
/// cursor 0 is complete (`Done`) once `CAPTURE_LEN` samples have passed,
/// whatever the buffer sizes.
pub proof fn lemma_window_fills(w: usize, lens: Seq<usize>)
    requires
        w <= CAPTURE_LEN,
    ensures
        cursor_after(w, lens) == if w + total_len(lens) < CAPTURE_LEN {
            w + total_len(lens)
        } else {
            CAPTURE_LEN as int
        },
    decreases lens.len(),
{
    if lens.len() > 0 {
        lemma_total_len_nonneg(lens.drop_first());
        lemma_window_fills((w + pass_len(w, lens[0])) as usize, lens.drop_first());
    }
}

proof fn lemma_total_len_nonneg(lens: Seq<usize>)
    ensures
        total_len(lens) >= 0,
    decreases lens.len(),
{
    if lens.len() > 0 {
        lemma_total_len_nonneg(lens.drop_first());
    }
}

} // verus!
