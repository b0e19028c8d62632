//! Running the merge gate against an assembled candidate.
//!
//! Behind a trait for the same reason as the git operations: so the worker's
//! decisions can be driven without waiting on a real test suite, and so a
//! failing gate can be arranged exactly rather than approximated.

use std::collections::VecDeque;

use vstd::prelude::*;
use vstd::utf8::encode_utf8;

use crate::bytes::ByteSize;
use crate::failure::Failure;
use crate::git::Sha;
use crate::text;

verus! {

#[derive(Debug, Clone, Copy, PartialEq, Eq, Structural)]
pub enum Verdict {
    Passed,
    /// `None` when the merge gate was killed by a signal rather than exiting.
    Failed { exit_code: Option<i32> },
}

impl Verdict {
    pub fn passed(&self) -> (r: bool)
        ensures
            r == (*self == Verdict::Passed),
    {
        matches!(self, Self::Passed)
    }

    /// The exit code to record: a gate that passed exited with zero.
    pub open spec fn code(self) -> Option<i32> {
        match self {
            Verdict::Passed => Some(0i32),
            Verdict::Failed { exit_code } => exit_code,
        }
    }

    /// The exit code to record.
    pub fn exit_code(&self) -> (r: Option<i32>)
        ensures
            r == self.code(),
    {
        match self {
            Self::Passed => Some(0),
            Self::Failed { exit_code } => *exit_code,
        }
    }
}

pub trait Gate {
    /// Run `command` against the candidate currently checked out, writing at
    /// most `max_log_size` bytes of its combined output to `log_path`.
    ///
    /// The candidate id is passed so the run can be identified in logs. The
    /// gate is not expected to use it to find the code: the code is whatever is
    /// checked out.
    fn run(
        &self,
        command: &str,
        candidate: &Sha,
        log_path: &str,
        max_log_size: ByteSize,
    ) -> Result<Verdict, Failure>;
}

/// How a process ended.
#[derive(Debug, Clone, Copy, PartialEq, Eq, Structural)]
pub struct Exit {
    pub success: bool,
    /// `None` when a signal killed it.
    pub code: Option<i32>,
}

/// The verdict of a gate that ended so.
pub open spec fn verdict_of(exit: Exit) -> Verdict {
    if exit.success {
        Verdict::Passed
    } else {
        Verdict::Failed { exit_code: exit.code }
    }
}

/// A command as the shell gets it. `exec 2>&1` merges its stderr into its
/// stdout inside the shell, so there is one stream to read.
pub open spec fn script_of(command: Seq<char>) -> Seq<char> {
    "exec 2>&1\n"@ + command
}

/// A command as the shell gets it.
pub fn script(command: &str) -> (r: String)
    ensures
        r@ == script_of(command@),
{
    let mut r = "exec 2>&1\n".to_string();
    r.append(command);
    r
}

/// How much of the end of a log is kept under a cap: half of it, and at least one
/// byte, so a nonsensically small cap still behaves.
pub open spec fn end_room(cap: u64) -> u64 {
    if cap / 2 == 0 {
        1
    } else {
        cap / 2
    }
}

/// How much of the beginning of a log is kept under a cap: the other half, with
/// the byte that is over where the cap is odd, and at least one.
pub open spec fn head_room(cap: u64) -> u64 {
    if cap == 0 {
        1
    } else {
        (cap - cap / 2) as u64
    }
}

/// The beginning of a log that is kept.
pub open spec fn head_of(log: Seq<u8>, cap: u64) -> Seq<u8> {
    if log.len() <= head_room(cap) {
        log
    } else {
        log.take(head_room(cap) as int)
    }
}

/// What follows the beginning.
pub open spec fn after_head(log: Seq<u8>, cap: u64) -> Seq<u8> {
    log.skip(head_of(log, cap).len() as int)
}

/// The end of a log that is kept.
pub open spec fn end_of(log: Seq<u8>, cap: u64) -> Seq<u8> {
    let rest = after_head(log, cap);
    if rest.len() <= end_room(cap) {
        rest
    } else {
        rest.skip(rest.len() - end_room(cap))
    }
}

/// How many bytes of the middle go, as far as 64 bits count them.
pub open spec fn dropped_from(log: Seq<u8>, cap: u64) -> u64 {
    let gone = after_head(log, cap).len() - end_of(log, cap).len();
    if gone <= u64::MAX {
        gone as u64
    } else {
        u64::MAX
    }
}

/// The line that says how much went.
pub open spec fn marker(dropped: u64) -> Seq<u8> {
    encode_utf8(
        "\n[sasse dropped "@ + text::decimal(dropped as nat)
            + " bytes from the middle of this log]\n"@,
    )
}

/// A log as it is kept under a cap: with its beginning, its end, and a line that
/// says how much of the middle went, if any did.
pub open spec fn capped_log(log: Seq<u8>, cap: u64) -> Seq<u8> {
    if dropped_from(log, cap) > 0 {
        head_of(log, cap) + marker(dropped_from(log, cap)) + end_of(log, cap)
    } else {
        head_of(log, cap) + end_of(log, cap)
    }
}

/// Passes a stream on, keeping its beginning and its end.
///
/// The head carries the merge gate command's own startup output, where a
/// misconfigured gate announces itself; the tail carries the failure. The
/// middle of a test run is almost always the cases that passed. A single pass,
/// so an enormous log never lands on disk in full, which is the point:
/// truncating afterwards would mean having stored it first.
pub struct Capped {
    head_room: u64,
    tail: VecDeque<u8>,
    tail_capacity: u64,
    dropped: u64,
    cap: Ghost<u64>,
    read: Ghost<Seq<u8>>,
}

impl Capped {
    /// The stream so far.
    pub closed spec fn seen(&self) -> Seq<u8> {
        self.read@
    }

    /// The cap on the log.
    pub closed spec fn limit(&self) -> u64 {
        self.cap@
    }

    pub closed spec fn wf(&self) -> bool {
        &&& self.tail_capacity == end_room(self.cap@)
        &&& self.head_room == head_room(self.cap@) - head_of(self.read@, self.cap@).len()
        &&& self.tail@ == end_of(self.read@, self.cap@)
        &&& self.dropped == dropped_from(self.read@, self.cap@)
    }

    pub fn new(cap: ByteSize) -> (r: Self)
        ensures
            r.wf(),
            r.seen() == Seq::<u8>::empty(),
            r.limit() == cap@,
    {
        // Split the allowance between the two ends. At least one byte each, so
        // a nonsensically small cap still behaves.
        let bytes: u64 = cap.bytes();
        let tail_capacity: u64 = if bytes / 2 == 0 {
            1
        } else {
            bytes / 2
        };
        let head_room: u64 = if bytes == 0 {
            1
        } else {
            bytes - bytes / 2
        };
        let r = Capped {
            head_room,
            tail: VecDeque::new(),
            tail_capacity,
            dropped: 0,
            cap: Ghost(bytes),
            read: Ghost(Seq::empty()),
        };
        assert(r.tail@ =~= end_of(r.read@, bytes));
        r
    }

    /// Take the next part of the stream, and say what of it goes into the log
    /// now.
    pub fn take(&mut self, chunk: &[u8]) -> (r: Vec<u8>)
        requires
            old(self).wf(),
        ensures
            final(self).wf(),
            final(self).seen() == old(self).seen() + chunk@,
            final(self).limit() == old(self).limit(),
            head_of(final(self).seen(), old(self).limit()) == head_of(
                old(self).seen(),
                old(self).limit(),
            ) + r@,
    {
        let mut r: Vec<u8> = Vec::new();
        let ghost before = self.read@;
        let ghost cap = self.cap@;
        assert(before + chunk@.take(0) =~= before);
        assert(head_of(before, cap) + r@ =~= head_of(before, cap));
        for i in 0..chunk.len()
            invariant
                self.wf(),
                self.cap == old(self).cap,
                cap == self.cap@,
                self.read@ == before + chunk@.take(i as int),
                head_of(self.read@, cap) == head_of(before, cap) + r@,
        {
            let byte: u8 = chunk[i];
            let ghost read = self.read@;
            let ghost next = read.push(byte);
            assert(before + chunk@.take(i + 1) =~= next);
            if self.head_room > 0 {
                assert(read.len() < head_room(cap));
                r.push(byte);
                self.head_room = self.head_room - 1;
                self.read = Ghost(next);
                assert(head_of(next, cap) =~= head_of(read, cap).push(byte));
                assert(head_of(next, cap) =~= head_of(before, cap) + r@);
                assert(end_of(next, cap) =~= end_of(read, cap));
            } else {
                assert(head_of(next, cap) =~= head_of(read, cap));
                assert(after_head(next, cap) =~= after_head(read, cap).push(byte));
                if self.tail.len() as u64 == self.tail_capacity {
                    let _ = self.tail.pop_front();
                    if self.dropped < u64::MAX {
                        self.dropped = self.dropped + 1;
                    }
                    self.tail.push_back(byte);
                    self.read = Ghost(next);
                    assert(end_of(next, cap) =~= end_of(read, cap).drop_first().push(byte));
                } else {
                    self.tail.push_back(byte);
                    self.read = Ghost(next);
                    assert(end_of(next, cap) =~= end_of(read, cap).push(byte));
                }
            }
        }
        assert(chunk@.take(chunk@.len() as int) =~= chunk@);
        r
    }

    /// The rest of the log, once the stream has ended.
    pub fn finish(self) -> (r: Vec<u8>)
        requires
            self.wf(),
        ensures
            capped_log(self.seen(), self.limit()) == head_of(self.seen(), self.limit()) + r@,
    {
        let mut done = self;
        let mut r: Vec<u8> = Vec::new();
        if done.dropped > 0 {
            let mut line = "\n[sasse dropped ".to_string();
            line.append(&text::decimal_text(done.dropped));
            line.append(" bytes from the middle of this log]\n");
            r = line.as_str().as_bytes_vec();
        }
        let ghost lead = r@;
        let ghost tail = done.tail@;
        assert(tail.take(0) =~= Seq::<u8>::empty());
        assert(lead + tail.take(0) =~= lead);
        let count: usize = done.tail.len();
        for i in 0..count
            invariant
                count == tail.len(),
                done.tail@ == tail.skip(i as int),
                r@ == lead + tail.take(i as int),
        {
            let ghost left = done.tail@;
            match done.tail.pop_front() {
                Some(byte) => {
                    r.push(byte);
                    assert(byte == tail[i as int]);
                    assert(r@ =~= lead + tail.take(i + 1));
                    assert(done.tail@ =~= tail.skip(i + 1));
                },
                None => {
                    assert(left.len() > 0);
                    assert(false);
                },
            }
        }
        assert(tail.take(count as int) =~= tail);
        assert(head_of(self.read@, self.cap@) + r@ =~= capped_log(self.read@, self.cap@));
        r
    }
}

/// A log no larger than its cap is left exactly as it was, byte for byte.
pub proof fn small_logs_are_untouched(log: Seq<u8>, cap: u64)
    requires
        log.len() <= cap,
    ensures
        capped_log(log, cap) == log,
{
    assert(head_of(log, cap) + end_of(log, cap) =~= log);
}

/// Past the cap a log keeps its beginning and its end, as much as the cap lets
/// through, and says how much went.
pub proof fn large_logs_keep_both_ends(log: Seq<u8>, cap: u64)
    requires
        2 <= cap < log.len() <= u64::MAX,
    ensures
        capped_log(log, cap) == log.take(cap - cap / 2) + marker((log.len() - cap) as u64)
            + log.skip(log.len() - cap / 2),
{
    assert(end_of(log, cap) =~= log.skip(log.len() - cap / 2));
}

/// How much longer than its cap a log may be, for the line that says how much
/// went.
pub const MARKER_ALLOWANCE: u64 = 128;

/// The line that says how much went fits in what is allowed for it.
pub proof fn the_marker_is_short(dropped: u64)
    ensures
        marker(dropped).len() <= MARKER_ALLOWANCE,
{
    let lead = "\n[sasse dropped "@;
    let number = text::decimal(dropped as nat);
    let rest = " bytes from the middle of this log]\n"@;
    reveal_strlit("\n[sasse dropped ");
    reveal_strlit(" bytes from the middle of this log]\n");
    text::decimal_of_64_bits(dropped);
    assert(vstd::utf8::is_ascii_chars(lead + number + rest));
    vstd::utf8::is_ascii_chars_encode_utf8(lead + number + rest);
}

/// However much is written, a log stays within its cap but for the short line
/// that says so; a cap of less than two bytes counts as two.
pub proof fn the_cap_holds(log: Seq<u8>, cap: u64)
    ensures
        capped_log(log, cap).len() <= (if cap >= 2 {
            cap
        } else {
            2
        }) + MARKER_ALLOWANCE,
{
    the_marker_is_short(dropped_from(log, cap));
}

/// Runs the merge gate through a shell, in the integration checkout.
#[derive(Debug)]
pub struct ShellGate {
    integration: String,
}

impl View for ShellGate {
    type V = Seq<char>;

    closed spec fn view(&self) -> Seq<char> {
        self.integration@
    }
}

/// What running a gate asks for next.
#[derive(Debug, PartialEq, Eq)]
pub enum GateAction {
    /// Create the log, and the directory it is in.
    OpenLog { path: String },
    /// Start a shell on the script, in a directory, with the candidate in its
    /// environment, nothing to read and its output to be read.
    Spawn { script: String, directory: String, candidate: String },
    /// Read some of the output. Nothing read means that it has ended.
    Read,
    /// Append to the log.
    Write { bytes: Vec<u8> },
    /// Wait for the shell to end.
    Wait,
    /// There is nothing left to do.
    Finish,
}

/// What came of it.
#[derive(Debug, PartialEq, Eq)]
pub enum GateEvent {
    Done(Result<(), Failure>),
    /// The directory of the log, this one, could not be made.
    NoDirectory { directory: String, why: Failure },
    Chunk(Result<Vec<u8>, Failure>),
    Ended(Result<Exit, Failure>),
}

/// Where a gate run is.
#[derive(Debug, Clone, Copy, PartialEq, Eq, Structural)]
pub enum GatePhase {
    Opening,
    Starting,
    Reading,
    Writing,
    Finishing,
    Waiting,
    Over,
}

/// One run of the merge gate, as a series of things to do and what came of them.
pub struct GateRun {
    command: String,
    directory: String,
    candidate: String,
    log_path: String,
    phase: GatePhase,
    output: Option<Capped>,
    result: Option<Result<Verdict, Failure>>,
    cap: Ghost<u64>,
    read: Ghost<Seq<u8>>,
    logged: Ghost<Seq<u8>>,
}

/// The environment variable that names the candidate to the merge gate.
pub const CANDIDATE_VARIABLE: &'static str = "SASSE_CANDIDATE";

impl GatePhase {
    /// The event is an answer to what was asked.
    pub open spec fn takes(self, event: GateEvent) -> bool {
        match self {
            GatePhase::Opening => event is Done || event is NoDirectory,
            GatePhase::Starting => event is Done,
            GatePhase::Reading => event is Chunk,
            GatePhase::Writing => event is Done,
            GatePhase::Finishing => event is Done,
            GatePhase::Waiting => event is Ended,
            GatePhase::Over => false,
        }
    }
}

/// What is said of doing something to a gate, or to what is a gate's.
pub open spec fn at_gate(doing: Seq<char>, rest: Seq<char>) -> Seq<char> {
    doing + " the "@ + "gate"@ + rest
}

/// What is said of doing something to a gate, or to what is a gate's.
pub fn gate_phrase(doing: &str, rest: &str) -> (r: String)
    ensures
        r@ == at_gate(doing@, rest@),
{
    let mut r = doing.to_string();
    r.append(" the ");
    r.append("gate");
    r.append(rest);
    r
}

/// A failure with what was being done when it came.
pub open spec fn in_context(doing: Seq<char>, why: Seq<char>) -> Seq<char> {
    doing + ": "@ + why
}

/// What is being done at a gate, to what.
fn doing(what: &str, rest: &str, subject: &str) -> (r: String)
    ensures
        r@ == at_gate(what@, rest@) + subject@,
{
    let mut r = gate_phrase(what, rest);
    r.append(subject);
    r
}

/// A failure with what was being done when it came.
pub fn with_context(doing: &str, failure: &Failure) -> (r: Failure)
    ensures
        r@ == in_context(doing@, failure@),
{
    let mut message = doing.to_string();
    message.append(": ");
    message.append(&failure.message);
    Failure { message }
}

impl GateRun {
    pub closed spec fn phase(&self) -> GatePhase {
        self.phase
    }

    pub closed spec fn command(&self) -> Seq<char> {
        self.command@
    }

    pub closed spec fn directory(&self) -> Seq<char> {
        self.directory@
    }

    pub closed spec fn candidate(&self) -> Seq<char> {
        self.candidate@
    }

    pub closed spec fn log_path(&self) -> Seq<char> {
        self.log_path@
    }

    pub closed spec fn cap(&self) -> u64 {
        self.cap@
    }

    /// The output so far.
    pub closed spec fn read(&self) -> Seq<u8> {
        self.read@
    }

    /// The log so far: everything that was asked to be written.
    pub closed spec fn logged(&self) -> Seq<u8> {
        self.logged@
    }

    /// The result, once the run is over.
    pub closed spec fn verdict(&self) -> Option<Result<Verdict, Failure>> {
        self.result
    }

    pub closed spec fn wf(&self) -> bool {
        &&& (self.phase == GatePhase::Over <==> self.result is Some)
        &&& match self.phase {
            GatePhase::Opening | GatePhase::Starting => {
                &&& self.output matches Some(c) && c.wf() && c.seen() == self.read@ && c.limit()
                    == self.cap@
                &&& self.read@ == Seq::<u8>::empty()
                &&& self.logged@ == Seq::<u8>::empty()
            },
            GatePhase::Reading | GatePhase::Writing => {
                &&& self.output matches Some(c) && c.wf() && c.seen() == self.read@ && c.limit()
                    == self.cap@
                &&& self.logged@ == head_of(self.read@, self.cap@)
            },
            GatePhase::Finishing | GatePhase::Waiting => self.logged@ == capped_log(
                self.read@,
                self.cap@,
            ),
            GatePhase::Over => {
                self.result matches Some(Ok(_)) ==> self.logged@ == capped_log(self.read@, self.cap@)
            },
        }
    }

    /// What stays the same throughout a run.
    pub open spec fn same_run(&self, other: &GateRun) -> bool {
        &&& self.command() == other.command()
        &&& self.directory() == other.directory()
        &&& self.candidate() == other.candidate()
        &&& self.log_path() == other.log_path()
        &&& self.cap() == other.cap()
    }

    /// Once a run has come to a verdict, its log is the merge gate's output under the
    /// cap, and within it but for the line that says how much went.
    pub proof fn log_is_capped(&self)
        requires
            self.wf(),
            self.verdict() matches Some(Ok(_)),
        ensures
            self.logged() == capped_log(self.read(), self.cap()),
            self.logged().len() <= (if self.cap() >= 2 {
                self.cap()
            } else {
                2
            }) + MARKER_ALLOWANCE,
    {
        the_cap_holds(self.read(), self.cap());
    }

    fn stop(&mut self, failure: Failure) -> (r: GateAction)
        requires
            old(self).wf(),
        ensures
            final(self).wf(),
            final(self).same_run(old(self)),
            final(self).phase() == GatePhase::Over,
            final(self).verdict() == Some(Err::<Verdict, Failure>(failure)),
            final(self).read() == old(self).read(),
            final(self).logged() == old(self).logged(),
            r == GateAction::Finish,
    {
        self.phase = GatePhase::Over;
        self.result = Some(Err(failure));
        GateAction::Finish
    }

    /// Take what came of the last action, and say what is next.
    ///
    /// The verdict is whatever the shell ended with: success passes, anything
    /// else fails with its exit code. A step that fails ends the run.
    pub fn next(&mut self, event: GateEvent) -> (r: GateAction)
        requires
            old(self).wf(),
            old(self).phase().takes(event),
        ensures
            final(self).wf(),
            final(self).same_run(old(self)),
            match (old(self).phase(), event) {
                (GatePhase::Opening, GateEvent::Done(Ok(_))) => {
                    &&& final(self).phase() == GatePhase::Starting
                    &&& r matches GateAction::Spawn { script, directory, candidate } && script@
                        == script_of(old(self).command()) && directory@ == old(self).directory()
                        && candidate@ == old(self).candidate()
                },
                (GatePhase::Starting, GateEvent::Done(Ok(_))) => {
                    &&& final(self).phase() == GatePhase::Reading
                    &&& r == GateAction::Read
                },
                (GatePhase::Reading, GateEvent::Chunk(Ok(chunk))) => {
                    &&& final(self).read() == old(self).read() + chunk@
                    &&& r matches GateAction::Write { bytes } && final(self).logged() == old(
                        self,
                    ).logged() + bytes@
                    &&& final(self).phase() == (if chunk@.len() == 0 {
                        GatePhase::Finishing
                    } else {
                        GatePhase::Writing
                    })
                },
                (GatePhase::Writing, GateEvent::Done(Ok(_))) => {
                    &&& final(self).phase() == GatePhase::Reading
                    &&& r == GateAction::Read
                },
                (GatePhase::Finishing, GateEvent::Done(Ok(_))) => {
                    &&& final(self).phase() == GatePhase::Waiting
                    &&& r == GateAction::Wait
                },
                (GatePhase::Waiting, GateEvent::Ended(Ok(exit))) => {
                    &&& final(self).phase() == GatePhase::Over
                    &&& final(self).verdict() == Some(Ok::<Verdict, Failure>(verdict_of(exit)))
                    &&& exit.success ==> final(self).verdict() == Some(
                        Ok::<Verdict, Failure>(Verdict::Passed),
                    )
                    &&& !exit.success ==> final(self).verdict() == Some(
                        Ok::<Verdict, Failure>(Verdict::Failed { exit_code: exit.code }),
                    )
                    &&& r == GateAction::Finish
                },
                (phase, GateEvent::Done(Err(why))) => {
                    &&& final(self).phase() == GatePhase::Over
                    &&& r == GateAction::Finish
                    &&& final(self).verdict() matches Some(Err(failure)) && failure@ == match phase {
                        GatePhase::Opening => in_context(
                            at_gate("creating"@, " log "@) + old(self).log_path(),
                            why@,
                        ),
                        GatePhase::Starting => in_context(
                            at_gate("running"@, ": "@) + old(self).command(),
                            why@,
                        ),
                        GatePhase::Writing => in_context(
                            at_gate("writing"@, " log "@) + old(self).log_path(),
                            why@,
                        ),
                        _ => in_context(at_gate("finishing"@, " log "@) + old(self).log_path(), why@),
                    }
                },
                (_, GateEvent::NoDirectory { directory, why }) => {
                    &&& final(self).phase() == GatePhase::Over
                    &&& r == GateAction::Finish
                    &&& final(self).verdict() matches Some(Err(failure)) && failure@ == in_context(
                        "creating the log directory "@ + directory@,
                        why@,
                    )
                },
                (_, GateEvent::Chunk(Err(why))) => {
                    &&& final(self).phase() == GatePhase::Over
                    &&& r == GateAction::Finish
                    &&& final(self).verdict() matches Some(Err(failure)) && failure@ == in_context(
                        at_gate("reading"@, "'s output"@),
                        why@,
                    )
                },
                (_, GateEvent::Ended(Err(why))) => {
                    &&& final(self).phase() == GatePhase::Over
                    &&& r == GateAction::Finish
                    &&& final(self).verdict() matches Some(Err(failure)) && failure@ == in_context(
                        at_gate("waiting for"@, ""@),
                        why@,
                    )
                },
                _ => true,
            },
            !(old(self).phase() == GatePhase::Reading && event matches GateEvent::Chunk(Ok(_)))
                ==> final(self).read() == old(self).read() && final(self).logged() == old(
                self,
            ).logged(),
    {
        match event {
            GateEvent::Done(Ok(_)) => match self.phase {
                GatePhase::Opening => {
                    self.phase = GatePhase::Starting;
                    GateAction::Spawn {
                        script: script(&self.command),
                        directory: self.directory.clone(),
                        candidate: self.candidate.clone(),
                    }
                },
                GatePhase::Finishing => {
                    self.phase = GatePhase::Waiting;
                    GateAction::Wait
                },
                _ => {
                    assert(head_of(Seq::<u8>::empty(), self.cap@) =~= Seq::<u8>::empty());
                    self.phase = GatePhase::Reading;
                    GateAction::Read
                },
            },
            GateEvent::Done(Err(why)) => {
                let what = match self.phase {
                    GatePhase::Opening => doing("creating", " log ", &self.log_path),
                    GatePhase::Starting => doing("running", ": ", &self.command),
                    GatePhase::Writing => doing("writing", " log ", &self.log_path),
                    _ => doing("finishing", " log ", &self.log_path),
                };
                let failure = with_context(&what, &why);
                self.stop(failure)
            },
            GateEvent::NoDirectory { directory, why } => {
                let mut what = "creating the log directory ".to_string();
                what.append(&directory);
                let failure = with_context(&what, &why);
                self.stop(failure)
            },
            GateEvent::Chunk(Err(why)) => {
                let failure = with_context(&gate_phrase("reading", "'s output"), &why);
                self.stop(failure)
            },
            GateEvent::Ended(Err(why)) => {
                let failure = with_context(&gate_phrase("waiting for", ""), &why);
                self.stop(failure)
            },
            GateEvent::Ended(Ok(exit)) => {
                let verdict = if exit.success {
                    Verdict::Passed
                } else {
                    Verdict::Failed { exit_code: exit.code }
                };
                self.phase = GatePhase::Over;
                self.result = Some(Ok(verdict));
                GateAction::Finish
            },
            GateEvent::Chunk(Ok(chunk)) => {
                let mut output: Option<Capped> = None;
                std::mem::swap(&mut output, &mut self.output);
                match output {
                    Some(mut capped) => {
                        if chunk.len() == 0 {
                            assert(self.read@ + chunk@ =~= self.read@);
                            let bytes = capped.finish();
                            self.logged = Ghost(self.logged@ + bytes@);
                            self.phase = GatePhase::Finishing;
                            GateAction::Write { bytes }
                        } else {
                            let bytes = capped.take(chunk.as_slice());
                            self.output = Some(capped);
                            self.read = Ghost(self.read@ + chunk@);
                            self.logged = Ghost(self.logged@ + bytes@);
                            self.phase = GatePhase::Writing;
                            GateAction::Write { bytes }
                        }
                    },
                    None => {
                        assert(false);
                        GateAction::Finish
                    },
                }
            },
        }
    }

    /// The result of a run that is over.
    pub fn into_result(self) -> (r: Option<Result<Verdict, Failure>>)
        ensures
            r == self.verdict(),
    {
        self.result
    }
}

impl ShellGate {
    pub fn new(integration: &str) -> (r: Self)
        ensures
            r@ == integration@,
    {
        ShellGate { integration: integration.to_string() }
    }

    /// Begin a run of the merge gate: what to do first, and the run that says what is
    /// next.
    pub fn start(
        &self,
        command: &str,
        candidate: &Sha,
        log_path: &str,
        max_log_size: ByteSize,
    ) -> (r: (GateRun, GateAction))
        ensures
            r.0.wf(),
            r.0.phase() == GatePhase::Opening,
            r.0.command() == command@,
            r.0.directory() == self@,
            r.0.candidate() == candidate@,
            r.0.log_path() == log_path@,
            r.0.cap() == max_log_size@,
            r.0.read() == Seq::<u8>::empty(),
            r.0.logged() == Seq::<u8>::empty(),
            r.1 matches GateAction::OpenLog { path } && path@ == log_path@,
    {
        let run = GateRun {
            command: command.to_string(),
            directory: self.integration.clone(),
            candidate: candidate.as_str().to_string(),
            log_path: log_path.to_string(),
            phase: GatePhase::Opening,
            output: Some(Capped::new(max_log_size)),
            result: None,
            cap: Ghost(max_log_size@),
            read: Ghost(Seq::empty()),
            logged: Ghost(Seq::empty()),
        };
        (run, GateAction::OpenLog { path: log_path.to_string() })
    }
}

/// A gate passes exactly when its shell ends in success, whatever code it ends
/// with. Otherwise it fails, and with the code that the shell ended with, or with
/// none where a signal ended it.
pub proof fn the_exit_decides(exit: Exit)
    ensures
        verdict_of(exit) == Verdict::Passed <==> exit.success,
        !exit.success ==> verdict_of(exit) == (Verdict::Failed { exit_code: exit.code }),
{
}

/// So it is of a run that waits for its shell: when that ends, the run is over,
/// and its result is what the shell said.
pub proof fn a_run_ends_as_its_shell(run: &mut GateRun, exit: Exit, r: GateAction)
    requires
        run.phase() == GatePhase::Waiting,
        call_ensures(GateRun::next, (run, GateEvent::Ended(Ok(exit))), r),
    ensures
        r == GateAction::Finish,
        final(run).phase() == GatePhase::Over,
        final(run).verdict() == Some(Ok::<Verdict, Failure>(Verdict::Passed)) <==> exit.success,
        !exit.success ==> final(run).verdict() == Some(
            Ok::<Verdict, Failure>(Verdict::Failed { exit_code: exit.code }),
        ),
{
}

/// A step that could not be done is no verdict on anybody: the run is over with
/// a failure, and what went wrong is in it.
pub proof fn a_broken_step_is_no_verdict(run: &mut GateRun, event: GateEvent, r: GateAction)
    requires
        run.phase().takes(event),
        event matches GateEvent::Done(Err(_)) || event matches GateEvent::NoDirectory { .. }
            || event matches GateEvent::Chunk(Err(_)) || event matches GateEvent::Ended(Err(_)),
        call_ensures(GateRun::next, (run, event), r),
    ensures
        r == GateAction::Finish,
        final(run).phase() == GatePhase::Over,
        final(run).verdict() matches Some(Err(failure)) && match event {
            GateEvent::Done(Err(why)) => ends_in(failure@, why@),
            GateEvent::NoDirectory { directory, why } => ends_in(failure@, why@),
            GateEvent::Chunk(Err(why)) => ends_in(failure@, why@),
            GateEvent::Ended(Err(why)) => ends_in(failure@, why@),
            _ => false,
        },
{
    let failure = final(run).verdict()->0->Err_0;
    let why = match event {
        GateEvent::Done(Err(why)) => why@,
        GateEvent::NoDirectory { directory, why } => why@,
        GateEvent::Chunk(Err(why)) => why@,
        GateEvent::Ended(Err(why)) => why@,
        _ => Seq::empty(),
    };
    let n = failure@.len() - why.len();
    assert(failure@ =~= failure@.take(n) + why);
    assert(ends_in(failure@, why));
}

/// A text ends in another.
pub open spec fn ends_in(s: Seq<char>, end: Seq<char>) -> bool {
    exists|lead: Seq<char>| s == #[trigger] (lead + end)
}

/// What a run asks for while nothing goes wrong: the log is made before the shell
/// is started, its output is read and written down to the end, and only when the
/// last of it is written is the shell waited for. The shell gets the command of
/// the run, where the candidate is checked out, and is told which it is.
pub proof fn a_run_goes_in_order(run: &mut GateRun, event: GateEvent, r: GateAction)
    requires
        run.phase().takes(event),
        event matches GateEvent::Done(Ok(_)) || event matches GateEvent::Chunk(Ok(_)),
        call_ensures(GateRun::next, (run, event), r),
    ensures
        r is Spawn <==> old(run).phase() == GatePhase::Opening,
        r is Wait <==> old(run).phase() == GatePhase::Finishing,
        r is Write <==> old(run).phase() == GatePhase::Reading,
        r is Read <==> old(run).phase() == GatePhase::Starting || old(run).phase() == GatePhase::Writing,
        r matches GateAction::Spawn { script, directory, candidate } ==> {
            &&& ends_in(script@, old(run).command())
            &&& directory@ == old(run).directory()
            &&& candidate@ == old(run).candidate()
        },
        event matches GateEvent::Chunk(Ok(chunk)) ==> (final(run).phase() == GatePhase::Finishing
            <==> chunk@.len() == 0) && (final(run).phase() == GatePhase::Writing <==> chunk@.len()
            > 0),
        r is Spawn ==> final(run).phase() == GatePhase::Starting,
        r is Read ==> final(run).phase() == GatePhase::Reading,
        r is Wait ==> final(run).phase() == GatePhase::Waiting,
{
}

/// The code recorded of a gate that passed is zero, and of one that failed the
/// code that it failed with.
pub proof fn what_is_recorded_of_a_verdict(verdict: &Verdict, passed: bool, code: Option<i32>)
    requires
        call_ensures(Verdict::passed, (verdict,), passed),
        call_ensures(Verdict::exit_code, (verdict,), code),
    ensures
        passed <==> verdict is Passed,
        passed ==> code == Some(0i32),
        verdict matches Verdict::Failed { exit_code } ==> code == exit_code,
{
}

/// A cap of less than two bytes counts as two.
pub proof fn a_tiny_cap_counts_as_two(log: Seq<u8>, cap: u64)
    requires
        cap < 2,
    ensures
        capped_log(log, cap) == capped_log(log, 2),
{
}

/// How much of a log is dropped and how much is kept make up the log.
pub proof fn nothing_is_lost_uncounted(log: Seq<u8>, cap: u64)
    requires
        log.len() <= u64::MAX,
    ensures
        head_of(log, cap).len() + dropped_from(log, cap) + end_of(log, cap).len() == log.len(),
        dropped_from(log, cap) > 0 ==> head_of(log, cap).len() + end_of(log, cap).len() == (
        if cap >= 2 {
            cap
        } else {
            2
        }),
{
}

} // verus!
