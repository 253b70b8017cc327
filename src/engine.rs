//! The flash engine: safety gate, chunked write, optional read-back verification,
//! cooperative cancellation and progress snapshots ending in one terminal event.
use vstd::prelude::*;
use crate::drives::{DriveInfo, drive_is_safe, is_safe_target};
use crate::text::str_eq;

verus! {

/// Bytes moved per step of the write and verify loops.
pub const CHUNK_SIZE: usize = 4194304;

/// Where a job stands when a snapshot is taken.
#[derive(Clone, Copy, Debug, PartialEq, Eq, Structural)]
pub enum Phase {
    Extracting,
    Preparing,
    Writing,
    Verifying,
    Done,
    Error,
}

/// How a job ends when it does not succeed.
#[derive(Clone, Debug, PartialEq, Eq)]
pub enum FlashError {
    /// The target is a system disk, is not removable, or is on the denylist.
    SafetyViolation,
    /// The target is not among the drives listed now.
    DriveNotFound,
    /// Another job holds the target device.
    DeviceBusy,
    /// A read, write or open failed; the text says which.
    Io(String),
    /// Read-back differed; the offset counts the bytes verified before the chunk.
    VerificationFailed(u64),
    /// The caller asked the job to stop.
    Cancelled,
}

/// One progress snapshot, handed to the observer and kept in the job's log.
#[derive(Clone, Debug)]
pub struct FlashProgress {
    pub bytes_written: u64,
    pub total_bytes: u64,
    /// Whole percent of `total_bytes` done.
    pub percent: u64,
    /// Average throughput of the phase so far, in bytes per second.
    pub speed: u64,
    /// Seconds left at that throughput; 0 while the throughput is 0.
    pub eta: u64,
    pub phase: Phase,
    pub message: String,
}

/// The outside world of one job: the image, the device, the cancellation
/// token, a millisecond clock and the progress observer.
pub trait FlashIo {
    /// Asks the system to release the device; a returned text is a warning only.
    fn prepare_device(&mut self) -> Option<String>;

    /// Opens the image for reading and the device for raw, exclusive writing.
    fn open_for_write(&mut self) -> Result<(), String>;

    /// The next bytes of the image, at most `max`; an empty chunk is the end.
    fn read_image(&mut self, max: usize) -> Result<Vec<u8>, String>;

    /// Writes all of `data` to the device.
    fn write_device(&mut self, data: &[u8]) -> Result<(), String>;

    /// Flushes and closes the device's write handle.
    fn finish_write(&mut self) -> Result<(), String>;

    /// Rewinds the image and reopens the device read-only.
    fn open_for_verify(&mut self) -> Result<(), String>;

    /// The next bytes of the device, at most `len`.
    fn read_device(&mut self, len: usize) -> Result<Vec<u8>, String>;

    /// Whether the caller has asked the job to stop.
    fn cancel_requested(&mut self) -> bool;

    /// Milliseconds on a clock that the job only compares with itself.
    fn now_ms(&mut self) -> u64;

    /// Receives one snapshot; delivery is best effort.
    fn emit(&mut self, progress: &FlashProgress);
}

/// What a job returns: how it ended and every snapshot it emitted, in order.
pub struct FlashOutcome {
    pub result: Result<(), FlashError>,
    pub events: Vec<FlashProgress>,
}

pub open spec fn percent_of(done: int, total: int) -> int {
    if total == 0 {
        100
    } else {
        done * 100 / total
    }
}

pub open spec fn speed_of(done: int, elapsed_ms: int) -> int {
    if elapsed_ms == 0 {
        0
    } else if done * 1000 / elapsed_ms > u64::MAX {
        u64::MAX as int
    } else {
        done * 1000 / elapsed_ms
    }
}

pub open spec fn eta_of(done: int, total: int, speed: int) -> int {
    if speed == 0 {
        0
    } else {
        (total - done) / speed
    }
}

pub open spec fn elapsed_of(start: u64, now: u64) -> int {
    if now >= start {
        now - start
    } else {
        0
    }
}

/// Whole percent done; 100 for an empty image.
pub fn percent(done: u64, total: u64) -> (r: u64)
    requires
        done <= total,
    ensures
        r == percent_of(done as int, total as int),
        r <= 100,
{
    if total == 0 {
        100
    } else {
        let p = (done as u128) * 100 / (total as u128);
        assert(p <= 100) by (nonlinear_arith)
            requires
                p == (done as int) * 100 / (total as int),
                done <= total,
                total > 0,
        {
            assert((done as int) * 100 <= (total as int) * 100);
        }
        p as u64
    }
}

/// Average bytes per second, saturating; 0 before any time has passed.
pub fn speed(done: u64, elapsed_ms: u64) -> (r: u64)
    ensures
        r == speed_of(done as int, elapsed_ms as int),
{
    if elapsed_ms == 0 {
        0
    } else {
        let s = (done as u128) * 1000 / (elapsed_ms as u128);
        if s > u64::MAX as u128 {
            u64::MAX
        } else {
            s as u64
        }
    }
}

/// Seconds left for `total - done` bytes at `speed` bytes per second.
pub fn eta(done: u64, total: u64, speed: u64) -> (r: u64)
    requires
        done <= total,
    ensures
        r == eta_of(done as int, total as int, speed as int),
{
    if speed == 0 {
        0
    } else {
        (total - done) / speed
    }
}

pub fn elapsed(start: u64, now: u64) -> (r: u64)
    ensures
        r == elapsed_of(start, now),
{
    if now >= start {
        now - start
    } else {
        0
    }
}

/// A snapshot of a running phase, from the counts and the phase's clock.
pub fn snapshot(done: u64, total: u64, start: u64, now: u64, phase: Phase, message: &str) -> (p:
    FlashProgress)
    requires
        done <= total,
    ensures
        p.bytes_written == done,
        p.total_bytes == total,
        p.phase == phase,
        p.percent == percent_of(done as int, total as int),
        p.speed == speed_of(done as int, elapsed_of(start, now)),
        p.eta == eta_of(done as int, total as int, p.speed as int),
{
    let s = speed(done, elapsed(start, now));
    FlashProgress {
        bytes_written: done,
        total_bytes: total,
        percent: percent(done, total),
        speed: s,
        eta: eta(done, total, s),
        phase,
        message: message.to_string(),
    }
}

pub open spec fn is_terminal(p: Phase) -> bool {
    p == Phase::Done || p == Phase::Error
}

/// Within `ph`, the byte counts of the log never go down.
pub open spec fn monotone_in(log: Seq<FlashProgress>, ph: Phase) -> bool {
    forall|i: int, j: int|
        0 <= i < j < log.len() && #[trigger] log[i].phase == ph && #[trigger] log[j].phase == ph
            ==> log[i].bytes_written <= log[j].bytes_written
}

/// Within `ph`, no snapshot of the log counts more than `bound` bytes.
pub open spec fn bounded_in(log: Seq<FlashProgress>, ph: Phase, bound: u64) -> bool {
    forall|i: int| 0 <= i < log.len() && #[trigger] log[i].phase == ph ==> log[i].bytes_written <= bound
}

/// Some snapshot of `ph` has reached `total` bytes, at 100 percent.
pub open spec fn reaches(log: Seq<FlashProgress>, ph: Phase, total: u64) -> bool {
    exists|i: int|
        0 <= i < log.len() && #[trigger] log[i].phase == ph && log[i].bytes_written == total
            && log[i].percent == 100
}

/// No snapshot of the log belongs to `ph`.
pub open spec fn none_in(log: Seq<FlashProgress>, ph: Phase) -> bool {
    forall|i: int| 0 <= i < log.len() ==> #[trigger] log[i].phase != ph
}

/// No snapshot of the log is terminal.
pub open spec fn all_running(log: Seq<FlashProgress>) -> bool {
    forall|i: int| 0 <= i < log.len() ==> !is_terminal(#[trigger] log[i].phase)
}

/// The log's last snapshot is its only terminal one.
pub open spec fn ends_once(log: Seq<FlashProgress>) -> bool {
    log.len() > 0 && all_running(log.drop_last()) && is_terminal(log.last().phase)
}

/// The terminal snapshot agrees with the result: `Done` at 100% of `total` for
/// success, `Error` otherwise.
pub open spec fn outcome_agrees(log: Seq<FlashProgress>, result: Result<(), FlashError>, total: u64) -> bool {
    ends_once(log) && (result is Ok <==> log.last().phase == Phase::Done) && (result is Ok ==> (
    log.last().bytes_written == total && log.last().percent == 100))
}

/// Every snapshot counts against `total`; a running phase's percent is the share
/// done; no `Writing` snapshot follows a `Verifying` one.
pub open spec fn shaped(log: Seq<FlashProgress>, total: u64) -> bool {
    &&& forall|i: int| 0 <= i < log.len() ==> (#[trigger] log[i]).total_bytes == total
    &&& forall|i: int|
        0 <= i < log.len() && ((#[trigger] log[i]).phase == Phase::Writing || log[i].phase == Phase::Verifying)
            ==> log[i].percent == percent_of(log[i].bytes_written as int, total as int)
    &&& forall|i: int, j: int|
        0 <= i < j < log.len() && #[trigger] log[i].phase == Phase::Verifying ==> #[trigger] log[j].phase
            != Phase::Writing
}

/// What `new`, the log `old` with one more snapshot of phase `added`, keeps of
/// `old` for every other phase.
pub open spec fn keeps(old: Seq<FlashProgress>, new: Seq<FlashProgress>, added: Phase) -> bool {
    &&& forall|ph: Phase| ph != added && monotone_in(old, ph) ==> #[trigger] monotone_in(new, ph)
    &&& forall|ph: Phase, b: u64| ph != added && bounded_in(old, ph, b) ==> #[trigger] bounded_in(new, ph, b)
    &&& forall|ph: Phase, b: u64| ph != added && reaches(old, ph, b) ==> #[trigger] reaches(new, ph, b)
    &&& forall|ph: Phase| ph != added && none_in(old, ph) ==> #[trigger] none_in(new, ph)
    &&& forall|b: u64| reaches(old, added, b) ==> #[trigger] reaches(new, added, b)
}

proof fn lemma_push_keeps(log: Seq<FlashProgress>, p: FlashProgress)
    ensures
        keeps(log, log.push(p), p.phase),
        all_running(log) && !is_terminal(p.phase) ==> all_running(log.push(p)),
{
    let l2 = log.push(p);
    assert forall|i: int| 0 <= i < log.len() implies l2[i] == log[i] by {}
    assert(l2[log.len() as int] == p);
    assert forall|ph: Phase, b: u64| reaches(log, ph, b) implies #[trigger] reaches(l2, ph, b) by {
        let i = choose|i: int|
            0 <= i < log.len() && #[trigger] log[i].phase == ph && log[i].bytes_written == b && log[i].percent == 100;
        assert(l2[i] == log[i]);
    }
}

proof fn lemma_push_shaped(log: Seq<FlashProgress>, p: FlashProgress, total: u64)
    requires
        shaped(log, total),
        p.total_bytes == total,
        p.phase == Phase::Writing || p.phase == Phase::Verifying ==> p.percent == percent_of(
            p.bytes_written as int,
            total as int,
        ),
        p.phase == Phase::Writing ==> none_in(log, Phase::Verifying),
    ensures
        shaped(log.push(p), total),
{
    let l2 = log.push(p);
    assert forall|i: int| 0 <= i < log.len() implies l2[i] == log[i] by {}
    assert(l2[log.len() as int] == p);
}

proof fn lemma_push_same(log: Seq<FlashProgress>, p: FlashProgress, ph: Phase, total: u64)
    requires
        p.phase == ph,
        monotone_in(log, ph),
        bounded_in(log, ph, p.bytes_written),
        p.bytes_written <= total,
    ensures
        monotone_in(log.push(p), ph),
        bounded_in(log.push(p), ph, p.bytes_written),
        bounded_in(log.push(p), ph, total),
        p.bytes_written == total && p.percent == 100 ==> reaches(log.push(p), ph, total),
{
    let l2 = log.push(p);
    assert forall|i: int| 0 <= i < log.len() implies l2[i] == log[i] by {}
    assert(l2[log.len() as int] == p);
}

proof fn lemma_full_percent(total: u64)
    ensures
        percent_of(total as int, total as int) == 100,
{
    if total > 0 {
        assert((total as int) * 100 / (total as int) == 100) by (nonlinear_arith)
            requires
                total > 0,
        ;
    }
}

/// Hands a snapshot to the observer and appends it to the log.
fn push_event<I: FlashIo>(io: &mut I, events: &mut Vec<FlashProgress>, p: FlashProgress)
    ensures
        final(events)@ == old(events)@.push(p),
        keeps(old(events)@, final(events)@, p.phase),
        all_running(old(events)@) && !is_terminal(p.phase) ==> all_running(final(events)@),
{
    proof { lemma_push_keeps(events@, p); }
    io.emit(&p);
    events.push(p);
}

/// The text of the terminal snapshot for an error.
pub open spec fn error_text(e: FlashError) -> Seq<char> {
    match e {
        FlashError::SafetyViolation => "Refused: the target is a system disk or not removable"@,
        FlashError::DriveNotFound => "Drive not found"@,
        FlashError::DeviceBusy => "Refused: another job is using this device"@,
        FlashError::Io(m) => m@,
        FlashError::VerificationFailed(_) => "Verification failed"@,
        FlashError::Cancelled => "Cancelled by user"@,
    }
}

/// The message that the terminal snapshot of a failed job carries.
pub fn error_message(e: &FlashError) -> (r: String)
    ensures
        r@ == error_text(*e),
{
    match e {
        FlashError::SafetyViolation => "Refused: the target is a system disk or not removable".to_string(),
        FlashError::DriveNotFound => "Drive not found".to_string(),
        FlashError::DeviceBusy => "Refused: another job is using this device".to_string(),
        FlashError::Io(m) => m.clone(),
        FlashError::VerificationFailed(_) => "Verification failed".to_string(),
        FlashError::Cancelled => "Cancelled by user".to_string(),
    }
}

fn error_snapshot(done: u64, total: u64, e: &FlashError) -> (p: FlashProgress)
    ensures
        p.phase == Phase::Error,
        p.total_bytes == total,
        p.bytes_written == done,
        p.message@ == error_text(*e),
{
    FlashProgress {
        bytes_written: done,
        total_bytes: total,
        percent: 0,
        speed: 0,
        eta: 0,
        phase: Phase::Error,
        message: error_message(e),
    }
}

/// Emits the one terminal snapshot of a failed job.
fn fail<I: FlashIo>(io: &mut I, events: &mut Vec<FlashProgress>, done: u64, total: u64, e: FlashError) -> (r: Result<(), FlashError>)
    requires
        all_running(old(events)@),
    ensures
        r == Err::<(), FlashError>(e),
        final(events)@.len() == old(events)@.len() + 1,
        final(events)@.drop_last() == old(events)@,
        final(events)@.last().phase == Phase::Error,
        final(events)@.last().message@ == error_text(e),
        final(events)@ == old(events)@.push(final(events)@.last()),
        outcome_agrees(final(events)@, r, total),
        keeps(old(events)@, final(events)@, Phase::Error),
        shaped(old(events)@, total) ==> shaped(final(events)@, total),
{
    let p = error_snapshot(done, total, &e);
    proof {
        if shaped(events@, total) {
            lemma_push_shaped(events@, p, total);
        }
    }
    push_event(io, events, p);
    assert(events@.drop_last() == old(events)@);
    assert(events@.last() == p);
    Err(e)
}

pub open spec fn io_error_with(e: FlashError, text: Seq<char>) -> bool {
    match e {
        FlashError::Io(m) => m@ == text,
        _ => false,
    }
}

/// What the write loop does next with a chunk read from the image.
#[derive(Debug)]
pub enum WriteStep {
    /// Hand these bytes to the device.
    Write(Vec<u8>),
    /// The image has ended at its reported size.
    Finished,
    /// End the job with this error.
    Stop(FlashError),
}

/// The decision of one step of the write loop, after `written` of `total` bytes:
/// cancellation stops the job; an empty chunk ends the image, which must have
/// reached its reported size; a chunk that fits is written unchanged.
pub fn write_step(written: u64, total: u64, cancelled: bool, chunk: Vec<u8>) -> (r: WriteStep)
    requires
        written <= total,
    ensures
        cancelled ==> r == WriteStep::Stop(FlashError::Cancelled),
        r is Finished ==> written == total,
        !cancelled && chunk@.len() == 0 && written == total ==> r == WriteStep::Finished,
        !cancelled && chunk@.len() == 0 && written != total ==> r is Stop && io_error_with(
            r->Stop_0,
            "the image ended before its reported size"@,
        ),
        !cancelled && 0 < chunk@.len() <= total - written ==> r is Write && r->Write_0@ == chunk@,
        !cancelled && chunk@.len() > total - written ==> r is Stop && io_error_with(
            r->Stop_0,
            "the image is longer than its reported size"@,
        ),
{
    if cancelled {
        WriteStep::Stop(FlashError::Cancelled)
    } else if chunk.len() == 0 {
        if written == total {
            WriteStep::Finished
        } else {
            WriteStep::Stop(FlashError::Io("the image ended before its reported size".to_string()))
        }
    } else if chunk.len() as u64 > total - written {
        WriteStep::Stop(FlashError::Io("the image is longer than its reported size".to_string()))
    } else {
        WriteStep::Write(chunk)
    }
}

/// Streams the image to the device chunk by chunk. After each read it asks for
/// cancellation, lets `write_step` decide, and emits a `Writing` snapshot after
/// each chunk written.
fn write_phase<I: FlashIo>(io: &mut I, events: &mut Vec<FlashProgress>, total: u64) -> (r: Result<(), FlashError>)
    requires
        all_running(old(events)@),
        none_in(old(events)@, Phase::Writing),
        none_in(old(events)@, Phase::Verifying),
        shaped(old(events)@, total),
    ensures
        none_in(final(events)@, Phase::Verifying),
        monotone_in(final(events)@, Phase::Writing),
        bounded_in(final(events)@, Phase::Writing, total),
        shaped(final(events)@, total),
        r is Ok ==> all_running(final(events)@) && reaches(final(events)@, Phase::Writing, total),
        r is Err ==> outcome_agrees(final(events)@, r, total),
        forall|off: u64| r != Err::<(), FlashError>(FlashError::VerificationFailed(off)),
        r != Err::<(), FlashError>(FlashError::SafetyViolation),
{
    if let Err(m) = io.open_for_write() {
        return fail(io, events, 0, total, FlashError::Io(m));
    }
    let start = io.now_ms();
    let first = snapshot(0, total, start, start, Phase::Writing, "Writing...");
    proof {
        lemma_push_same(events@, first, Phase::Writing, total);
        lemma_push_shaped(events@, first, total);
    }
    push_event(io, events, first);
    if total == 0 {
        assert(events@[events@.len() - 1] == first);
    }
    let mut written: u64 = 0;
    loop
        invariant
            written <= total,
            all_running(events@),
            none_in(events@, Phase::Verifying),
            monotone_in(events@, Phase::Writing),
            bounded_in(events@, Phase::Writing, written),
            shaped(events@, total),
            written == total ==> reaches(events@, Phase::Writing, total),
        ensures
            written == total,
        decreases total - written,
    {
        let chunk = match io.read_image(CHUNK_SIZE) {
            Ok(c) => c,
            Err(m) => return fail(io, events, written, total, FlashError::Io(m)),
        };
        let cancelled = io.cancel_requested();
        match write_step(written, total, cancelled, chunk) {
            WriteStep::Stop(e) => {
                return fail(io, events, written, total, e);
            },
            WriteStep::Finished => {
                break;
            },
            WriteStep::Write(data) => {
                if let Err(m) = io.write_device(data.as_slice()) {
                    return fail(io, events, written, total, FlashError::Io(m));
                }
                written = written + data.len() as u64;
                let now = io.now_ms();
                let p = snapshot(written, total, start, now, Phase::Writing, "Writing...");
                proof {
                    lemma_push_same(events@, p, Phase::Writing, total);
                    lemma_push_shaped(events@, p, total);
                }
                push_event(io, events, p);
                if written == total {
                    proof { lemma_full_percent(total); }
                    assert(events@[events@.len() - 1] == p);
                }
            },
        }
    }
    if let Err(m) = io.finish_write() {
        return fail(io, events, written, total, FlashError::Io(m));
    }
    Ok(())
}

/// Whether two chunks hold the same bytes.
pub fn same_bytes(a: &Vec<u8>, b: &Vec<u8>) -> (r: bool)
    ensures
        r == (a@ == b@),
{
    if a.len() != b.len() {
        return false;
    }
    let mut i: usize = 0;
    while i < a.len()
        invariant
            a@.len() == b@.len(),
            i <= a@.len(),
            forall|j: int| 0 <= j < i ==> a@[j] == b@[j],
        decreases a@.len() - i,
    {
        if a[i] != b[i] {
            return false;
        }
        i = i + 1;
    }
    assert(a@ =~= b@);
    true
}

/// What the verify loop does next.
#[derive(Debug)]
pub enum VerifyStep {
    /// The chunks matched; this many bytes are now verified.
    Next(u64),
    /// The image has ended at its reported size.
    Finished,
    /// End the job with this error.
    Stop(FlashError),
}

/// The decision of one step of the verify loop, after `verified` of `total`
/// bytes, on a chunk `src` of the image and the chunk `dev` read back from the
/// device: any difference fails at the count verified before the chunk.
pub fn verify_step(verified: u64, total: u64, cancelled: bool, src: &Vec<u8>, dev: &Vec<u8>) -> (r: VerifyStep)
    requires
        verified <= total,
    ensures
        cancelled ==> r == VerifyStep::Stop(FlashError::Cancelled),
        r is Finished ==> verified == total,
        !cancelled && src@.len() == 0 && verified == total ==> r == VerifyStep::Finished,
        !cancelled && src@.len() == 0 && verified != total ==> r is Stop && io_error_with(
            r->Stop_0,
            "the image ended before its reported size"@,
        ),
        !cancelled && src@.len() > total - verified ==> r is Stop && io_error_with(
            r->Stop_0,
            "the image is longer than its reported size"@,
        ),
        !cancelled && 0 < src@.len() <= total - verified && src@ != dev@ ==> r == VerifyStep::Stop(
            FlashError::VerificationFailed(verified),
        ),
        !cancelled && 0 < src@.len() <= total - verified && src@ == dev@ ==> r == VerifyStep::Next(
            (verified + src@.len()) as u64,
        ),
{
    if cancelled {
        VerifyStep::Stop(FlashError::Cancelled)
    } else if src.len() == 0 {
        if verified == total {
            VerifyStep::Finished
        } else {
            VerifyStep::Stop(FlashError::Io("the image ended before its reported size".to_string()))
        }
    } else if src.len() as u64 > total - verified {
        VerifyStep::Stop(FlashError::Io("the image is longer than its reported size".to_string()))
    } else if !same_bytes(src, dev) {
        VerifyStep::Stop(FlashError::VerificationFailed(verified))
    } else {
        VerifyStep::Next(verified + src.len() as u64)
    }
}

/// Re-reads the device and compares it with the image chunk by chunk. After
/// each pair of reads it asks for cancellation, lets `verify_step` decide, and
/// emits a `Verifying` snapshot after each matching chunk.
fn verify_phase<I: FlashIo>(io: &mut I, events: &mut Vec<FlashProgress>, total: u64) -> (r: Result<(), FlashError>)
    requires
        all_running(old(events)@),
        none_in(old(events)@, Phase::Verifying),
        shaped(old(events)@, total),
    ensures
        monotone_in(final(events)@, Phase::Verifying),
        bounded_in(final(events)@, Phase::Verifying, total),
        shaped(final(events)@, total),
        monotone_in(old(events)@, Phase::Writing) ==> monotone_in(final(events)@, Phase::Writing),
        bounded_in(old(events)@, Phase::Writing, total) ==> bounded_in(final(events)@, Phase::Writing, total),
        reaches(old(events)@, Phase::Writing, total) ==> reaches(final(events)@, Phase::Writing, total),
        none_in(old(events)@, Phase::Writing) ==> none_in(final(events)@, Phase::Writing),
        r is Ok ==> all_running(final(events)@) && reaches(final(events)@, Phase::Verifying, total),
        r is Err ==> outcome_agrees(final(events)@, r, total),
        forall|off: u64| r == Err::<(), FlashError>(FlashError::VerificationFailed(off)) ==> off < total,
        r != Err::<(), FlashError>(FlashError::SafetyViolation),
{
    if let Err(m) = io.open_for_verify() {
        return fail(io, events, 0, total, FlashError::Io(m));
    }
    let start = io.now_ms();
    let first = snapshot(0, total, start, start, Phase::Verifying, "Verifying...");
    proof {
        lemma_push_same(events@, first, Phase::Verifying, total);
        lemma_push_shaped(events@, first, total);
    }
    push_event(io, events, first);
    if total == 0 {
        assert(events@[events@.len() - 1] == first);
    }
    let mut verified: u64 = 0;
    loop
        invariant
            verified <= total,
            all_running(events@),
            monotone_in(events@, Phase::Verifying),
            bounded_in(events@, Phase::Verifying, verified),
            shaped(events@, total),
            verified == total ==> reaches(events@, Phase::Verifying, total),
            monotone_in(old(events)@, Phase::Writing) ==> monotone_in(events@, Phase::Writing),
            bounded_in(old(events)@, Phase::Writing, total) ==> bounded_in(events@, Phase::Writing, total),
            reaches(old(events)@, Phase::Writing, total) ==> reaches(events@, Phase::Writing, total),
            none_in(old(events)@, Phase::Writing) ==> none_in(events@, Phase::Writing),
        ensures
            verified == total,
        decreases total - verified,
    {
        let src = match io.read_image(CHUNK_SIZE) {
            Ok(c) => c,
            Err(m) => return fail(io, events, verified, total, FlashError::Io(m)),
        };
        let fits = 0 < src.len() && src.len() as u64 <= total - verified;
        let dev = if fits {
            match io.read_device(src.len()) {
                Ok(c) => c,
                Err(m) => return fail(io, events, verified, total, FlashError::Io(m)),
            }
        } else {
            Vec::new()
        };
        let cancelled = io.cancel_requested();
        match verify_step(verified, total, cancelled, &src, &dev) {
            VerifyStep::Stop(e) => {
                return fail(io, events, verified, total, e);
            },
            VerifyStep::Finished => {
                break;
            },
            VerifyStep::Next(v) => {
                verified = v;
                let now = io.now_ms();
                let p = snapshot(verified, total, start, now, Phase::Verifying, "Verifying...");
                proof {
                    lemma_push_same(events@, p, Phase::Verifying, total);
                    lemma_push_shaped(events@, p, total);
                }
                push_event(io, events, p);
                if verified == total {
                    proof { lemma_full_percent(total); }
                    assert(events@[events@.len() - 1] == p);
                }
            },
        }
    }
    Ok(())
}

/// Appends the one `Done` snapshot of a job that succeeded.
fn succeed<I: FlashIo>(io: &mut I, events: &mut Vec<FlashProgress>, total: u64) -> (r: Result<(), FlashError>)
    requires
        all_running(old(events)@),
    ensures
        r is Ok,
        outcome_agrees(final(events)@, r, total),
        final(events)@ == old(events)@.push(final(events)@.last()),
        keeps(old(events)@, final(events)@, Phase::Done),
        shaped(old(events)@, total) ==> shaped(final(events)@, total),
{
    let p = FlashProgress {
        bytes_written: total,
        total_bytes: total,
        percent: 100,
        speed: 0,
        eta: 0,
        phase: Phase::Done,
        message: "Flash complete".to_string(),
    };
    proof {
        if shaped(events@, total) {
            lemma_push_shaped(events@, p, total);
        }
    }
    push_event(io, events, p);
    assert(events@.drop_last() == old(events)@);
    assert(events@.last() == p);
    Ok(())
}

/// Runs one job: the safety gate, device preparation, the write, the optional
/// read-back, and exactly one terminal snapshot at the end of the log; an unsafe
/// target is turned away without any call on `io`.
pub fn flash<I: FlashIo>(io: &mut I, target: &DriveInfo, total: u64, verify: bool) -> (out: FlashOutcome)
    ensures
        outcome_agrees(out.events@, out.result, total),
        shaped(out.events@, total),
        !drive_is_safe(*target) ==> out.result == Err::<(), FlashError>(FlashError::SafetyViolation)
            && out.events@.len() == 1 && *final(io) == *old(io),
        out.result == Err::<(), FlashError>(FlashError::SafetyViolation) ==> !drive_is_safe(*target),
        monotone_in(out.events@, Phase::Writing),
        bounded_in(out.events@, Phase::Writing, total),
        monotone_in(out.events@, Phase::Verifying),
        bounded_in(out.events@, Phase::Verifying, total),
        out.result is Ok ==> reaches(out.events@, Phase::Writing, total),
        out.result is Ok && verify ==> reaches(out.events@, Phase::Verifying, total),
        !verify ==> none_in(out.events@, Phase::Verifying),
        forall|off: u64|
            out.result == Err::<(), FlashError>(FlashError::VerificationFailed(off)) ==> verify && off < total,
{
    let mut events: Vec<FlashProgress> = Vec::new();
    if !is_safe_target(target) {
        let p = error_snapshot(0, total, &FlashError::SafetyViolation);
        events.push(p);
        assert(events@.drop_last() =~= Seq::<FlashProgress>::empty());
        assert(events@[0] == p);
        return FlashOutcome { result: Err(FlashError::SafetyViolation), events };
    }
    let prep = snapshot(0, total, 0, 0, Phase::Preparing, "Preparing device...");
    proof { lemma_push_shaped(events@, prep, total); }
    push_event(io, &mut events, prep);
    if let Some(warning) = io.prepare_device() {
        let note = snapshot(0, total, 0, 0, Phase::Preparing, warning.as_str());
        proof { lemma_push_shaped(events@, note, total); }
        push_event(io, &mut events, note);
    }
    let written = write_phase(io, &mut events, total);
    if written.is_err() {
        return FlashOutcome { result: written, events };
    }
    if verify {
        let checked = verify_phase(io, &mut events, total);
        if checked.is_err() {
            return FlashOutcome { result: checked, events };
        }
    }
    let result = succeed(io, &mut events, total);
    FlashOutcome { result, events }
}

/// Compares the device with the image without writing: the verification pass alone.
pub fn verify_written<I: FlashIo>(io: &mut I, total: u64) -> (out: FlashOutcome)
    ensures
        outcome_agrees(out.events@, out.result, total),
        shaped(out.events@, total),
        none_in(out.events@, Phase::Writing),
        monotone_in(out.events@, Phase::Verifying),
        bounded_in(out.events@, Phase::Verifying, total),
        out.result is Ok ==> reaches(out.events@, Phase::Verifying, total),
        forall|off: u64|
            out.result == Err::<(), FlashError>(FlashError::VerificationFailed(off)) ==> off < total,
{
    let mut events: Vec<FlashProgress> = Vec::new();
    let checked = verify_phase(io, &mut events, total);
    if checked.is_err() {
        return FlashOutcome { result: checked, events };
    }
    let result = succeed(io, &mut events, total);
    FlashOutcome { result, events }
}

/// A job that ends cancelled never reports `Done`: its one terminal snapshot is
/// the last, and it is an `Error`.
pub proof fn lemma_cancelled_never_done(events: Seq<FlashProgress>, result: Result<(), FlashError>, total: u64)
    requires
        outcome_agrees(events, result, total),
        result == Err::<(), FlashError>(FlashError::Cancelled),
    ensures
        forall|i: int| 0 <= i < events.len() ==> (#[trigger] events[i]).phase != Phase::Done,
{
    assert forall|i: int| 0 <= i < events.len() implies (#[trigger] events[i]).phase != Phase::Done by {
        if i < events.len() - 1 {
            assert(events.drop_last()[i] == events[i]);
            assert(!is_terminal(events.drop_last()[i].phase));
        }
    }
}

/// In a log whose `Writing` counts never go down, never pass `total` and reach
/// it, the last `Writing` snapshot counts exactly `total` bytes.
pub proof fn lemma_last_writing_is_total(events: Seq<FlashProgress>, total: u64)
    requires
        monotone_in(events, Phase::Writing),
        bounded_in(events, Phase::Writing, total),
        reaches(events, Phase::Writing, total),
    ensures
        forall|i: int|
            0 <= i < events.len() && #[trigger] events[i].phase == Phase::Writing && (forall|j: int|
                i < j < events.len() ==> events[j].phase != Phase::Writing) ==> events[i].bytes_written == total,
{
    let k = choose|k: int|
        0 <= k < events.len() && #[trigger] events[k].phase == Phase::Writing && events[k].bytes_written == total
            && events[k].percent == 100;
    assert forall|i: int|
        0 <= i < events.len() && #[trigger] events[i].phase == Phase::Writing && (forall|j: int|
            i < j < events.len() ==> events[j].phase != Phase::Writing) implies events[i].bytes_written == total by {
        if k > i {
            assert(events[k].phase != Phase::Writing);
        } else if k < i {
            assert(events[k].bytes_written <= events[i].bytes_written);
        }
    }
}

/// The safety gate: a target may be written only when it is safe by its own fields.
pub fn check_target(target: &DriveInfo) -> (r: Result<(), FlashError>)
    ensures
        r is Ok <==> drive_is_safe(*target),
        r is Err ==> r == Err::<(), FlashError>(FlashError::SafetyViolation),
{
    if is_safe_target(target) {
        Ok(())
    } else {
        Err(FlashError::SafetyViolation)
    }
}

/// The devices that a running job holds; at most one job per device.
pub struct DeviceLocks {
    busy: Vec<String>,
}

impl View for DeviceLocks {
    type V = Set<Seq<char>>;

    closed spec fn view(&self) -> Set<Seq<char>> {
        Set::new(|d: Seq<char>| holds_name(self.busy@, d))
    }
}

impl DeviceLocks {
    pub fn new() -> (r: DeviceLocks)
        ensures
            r@ == Set::<Seq<char>>::empty(),
    {
        let r = DeviceLocks { busy: Vec::new() };
        assert(r@ =~= Set::<Seq<char>>::empty());
        r
    }

    pub fn is_busy(&self, device: &str) -> (r: bool)
        ensures
            r == self@.contains(device@),
    {
        let mut i: usize = 0;
        while i < self.busy.len()
            invariant
                i <= self.busy@.len(),
                forall|j: int| 0 <= j < i ==> #[trigger] self.busy@[j]@ != device@,
            decreases self.busy@.len() - i,
        {
            if str_eq(self.busy[i].as_str(), device) {
                assert(self.busy@[i as int]@ == device@);
                return true;
            }
            i = i + 1;
        }
        false
    }

    /// Claims `device` for a new job; refused while another job holds it.
    pub fn acquire(&mut self, device: &str) -> (r: Result<(), FlashError>)
        ensures
            old(self)@.contains(device@) ==> r == Err::<(), FlashError>(FlashError::DeviceBusy)
                && final(self)@ == old(self)@,
            !old(self)@.contains(device@) ==> r is Ok && final(self)@ == old(self)@.insert(device@),
    {
        if self.is_busy(device) {
            return Err(FlashError::DeviceBusy);
        }
        let ghost before = self.busy@;
        let name = device.to_string();
        proof { lemma_holds_push(before, name); }
        self.busy.push(name);
        assert(self@ =~= old(self)@.insert(device@));
        Ok(())
    }

    /// Frees `device` when its job has ended, whatever the outcome.
    pub fn release(&mut self, device: &str)
        ensures
            final(self)@ == old(self)@.remove(device@),
    {
        let mut kept: Vec<String> = Vec::new();
        let mut i: usize = 0;
        while i < self.busy.len()
            invariant
                i <= self.busy@.len(),
                !holds_name(kept@, device@),
                forall|d: Seq<char>| d != device@ ==> (#[trigger] holds_name(kept@, d) <==> holds_name(
                    self.busy@.take(i as int),
                    d,
                )),
            decreases self.busy@.len() - i,
        {
            let ghost k0 = kept@;
            let ghost t0 = self.busy@.take(i as int);
            assert(self.busy@.take(i + 1) == t0.push(self.busy@[i as int]));
            if !str_eq(self.busy[i].as_str(), device) {
                kept.push(self.busy[i].clone());
                proof { lemma_holds_push(k0, self.busy@[i as int]); }
            }
            proof { lemma_holds_push(t0, self.busy@[i as int]); }
            i = i + 1;
        }
        proof {
            assert(self.busy@.take(self.busy@.len() as int) == self.busy@);
        }
        self.busy = kept;
        assert(self@ =~= old(self)@.remove(device@));
    }
}

/// Some name in `v` has the characters `d`.
pub open spec fn holds_name(v: Seq<String>, d: Seq<char>) -> bool {
    exists|i: int| 0 <= i < v.len() && #[trigger] v[i]@ == d
}

proof fn lemma_holds_push(v: Seq<String>, s: String)
    ensures
        forall|d: Seq<char>| #[trigger] holds_name(v.push(s), d) <==> (holds_name(v, d) || s@ == d),
{
    assert forall|d: Seq<char>| #[trigger] holds_name(v.push(s), d) <==> (holds_name(v, d) || s@ == d) by {
        if holds_name(v, d) {
            let i = choose|i: int| 0 <= i < v.len() && #[trigger] v[i]@ == d;
            assert(v.push(s)[i] == v[i]);
        }
        if s@ == d {
            assert(v.push(s)[v.len() as int] == s);
        }
        if holds_name(v.push(s), d) {
            let i = choose|i: int| 0 <= i < v.len() + 1 && #[trigger] v.push(s)[i]@ == d;
            if i < v.len() {
                assert(v.push(s)[i] == v[i]);
            }
        }
    }
}

} // verus!
