//! Telling someone when an entry settles.
//!
//! A branch that is queued and then evicted looks, from outside, exactly like
//! one still waiting, because neither has landed. The hook removes that
//! ambiguity.
//!
//! Behind a trait so the worker's behaviour can be driven without spawning
//! anything, and so a hook that fails or hangs can be arranged exactly.

use vstd::prelude::*;

use crate::failure::Failure;
use crate::gate::script;
use crate::gate::script_of;
use crate::gate::Exit;
use crate::queue::ledger::SettledView;
use crate::queue::store::Settled;
use crate::text;
use crate::text::decimal;
use crate::text::integer;
use crate::text::joined;
use crate::text::text_lines;
use crate::text::trimmed;
use crate::time::Span;

verus! {

/// A hook is bounded rather than trusted.
///
/// This matters more than the exit code. A hook that curls a URL with no timeout
/// of its own, or that prompts, would otherwise block the tick indefinitely and
/// wedge the queue far more thoroughly than any missed notification. Ten seconds
/// rather than a setting: a notifier needing longer is doing something that
/// should not be inline.
pub const TIMEOUT_SECONDS: u64 = 10;

/// How long to wait between two looks at a hook, in milliseconds.
pub const POLL_MILLISECONDS: u64 = 25;

/// What became of one hook invocation.
///
/// A failure is reported rather than returned as an error, because the entry has
/// already settled and nothing about it is undone by a notifier misbehaving.
#[derive(Debug, PartialEq, Eq)]
pub enum Delivery {
    Delivered,
    /// The hook ran and exited non-zero. Its output is carried so the failure
    /// can explain itself.
    Failed { exit_code: Option<i32>, output: String },
    /// The hook was still running at the deadline and was killed.
    TimedOut,
    /// The hook could not be started at all.
    Unrunnable(String),
}

/// What became of a hook, over texts.
pub enum DeliveryView {
    Delivered,
    Failed { exit_code: Option<i32>, output: Seq<char> },
    TimedOut,
    Unrunnable(Seq<char>),
}

impl View for Delivery {
    type V = DeliveryView;

    open spec fn view(&self) -> DeliveryView {
        match self {
            Delivery::Delivered => DeliveryView::Delivered,
            Delivery::Failed { exit_code, output } => DeliveryView::Failed {
                exit_code: *exit_code,
                output: output@,
            },
            Delivery::TimedOut => DeliveryView::TimedOut,
            Delivery::Unrunnable(why) => DeliveryView::Unrunnable(why@),
        }
    }
}

impl DeliveryView {
    /// One line on what became of a hook. What it said over several is put on
    /// one.
    pub open spec fn described(self) -> Seq<char> {
        match self {
            DeliveryView::Delivered => "delivered"@,
            DeliveryView::Failed { exit_code, output } => {
                let code = match exit_code {
                    Some(code) => integer(code as int),
                    None => "signal"@,
                };
                if trimmed(output).len() == 0 {
                    "exited "@ + code + " with no output"@
                } else {
                    "exited "@ + code + ": "@ + joined(text_lines(trimmed(output)), " "@)
                }
            },
            DeliveryView::TimedOut => "still running after "@ + decimal(TIMEOUT_SECONDS as nat)
                + "s, killed"@,
            DeliveryView::Unrunnable(why) => "could not be started: "@ + joined(
                text_lines(why),
                " "@,
            ),
        }
    }
}

impl Delivery {
    pub fn delivered(&self) -> (r: bool)
        ensures
            r == (*self is Delivered),
    {
        matches!(self, Self::Delivered)
    }

    /// One line, for a tick to report.
    pub fn describe(&self) -> (r: String)
        ensures
            r@ == self@.described(),
    {
        match self {
            Self::Delivered => "delivered".to_string(),
            Self::Failed { exit_code, output } => {
                let code = match exit_code {
                    Some(code) => text::integer_text(*code as i64),
                    None => "signal".to_string(),
                };
                let mut r = "exited ".to_string();
                r.append(&code);
                let said = text::trim(output);
                let length: usize = text::chars_of(&said).len();
                if length == 0 {
                    r.append(" with no output");
                } else {
                    r.append(": ");
                    r.append(&text::join(text::lines(&said).as_slice(), " "));
                }
                r
            },
            Self::TimedOut => {
                let mut r = "still running after ".to_string();
                r.append(&text::decimal_text(TIMEOUT_SECONDS));
                r.append("s, killed");
                r
            },
            Self::Unrunnable(why) => {
                let mut r = "could not be started: ".to_string();
                r.append(&text::join(text::lines(why).as_slice(), " "));
                r
            },
        }
    }
}

/// What is said of a delivery is one line, whatever the hook said and over
/// however many.
pub proof fn a_description_is_one_line(d: DeliveryView)
    ensures
        forall|i: int| 0 <= i < d.described().len() ==> #[trigger] d.described()[i] != '\n',
{
    reveal_strlit("delivered");
    reveal_strlit("signal");
    reveal_strlit("exited ");
    reveal_strlit(" with no output");
    reveal_strlit(": ");
    reveal_strlit(" ");
    reveal_strlit("still running after ");
    reveal_strlit("s, killed");
    reveal_strlit("could not be started: ");
    match d {
        DeliveryView::Delivered => {},
        DeliveryView::Failed { exit_code, output } => {
            if let Some(code) = exit_code {
                text::integer_is_one_line(code as int);
            }
            text::lines_are_one_line(trimmed(output));
            text::joined_is_one_line(text_lines(trimmed(output)), " "@);
        },
        DeliveryView::TimedOut => {
            text::integer_is_one_line(TIMEOUT_SECONDS as int);
        },
        DeliveryView::Unrunnable(why) => {
            text::lines_are_one_line(why);
            text::joined_is_one_line(text_lines(why), " "@);
        },
    }
}

pub trait Notifier {
    /// Run `command` for one settled entry.
    fn settled(
        &self,
        command: &str,
        event: &Settled,
        repo_path: &str,
        base_branch: &str,
    ) -> Delivery;
}

/// The environment in which a hook learns what settled: names and values.
pub open spec fn hook_environment(
    event: SettledView,
    repo: Seq<char>,
    base: Seq<char>,
) -> Seq<(Seq<char>, Seq<char>)> {
    seq![
        ("SASSE_REPO"@, repo),
        ("SASSE_BASE"@, base),
        ("SASSE_BRANCH"@, event.branch),
        ("SASSE_OUTCOME"@, event.state.name()),
        ("SASSE_ENTRY"@, integer(event.entry as int)),
        ("SASSE_ATTEMPTS"@, decimal(event.attempts as nat)),
        (
            "SASSE_REASON"@,
            match event.reason {
                Some(reason) => reason,
                None => ""@,
            },
        ),
    ]
}

/// The names and values of a list.
pub open spec fn pairs(list: Seq<(String, String)>) -> Seq<(Seq<char>, Seq<char>)> {
    Seq::new(list.len(), |i: int| (list[i].0@, list[i].1@))
}

/// The environment in which a hook learns what settled.
pub fn environment(event: &Settled, repo: &str, base: &str) -> (r: Vec<(String, String)>)
    ensures
        pairs(r@) == hook_environment(event@, repo@, base@),
{
    let reason = match &event.reason {
        Some(reason) => reason.clone(),
        None => "".to_string(),
    };
    let mut r: Vec<(String, String)> = Vec::new();
    r.push(("SASSE_REPO".to_string(), repo.to_string()));
    r.push(("SASSE_BASE".to_string(), base.to_string()));
    r.push(("SASSE_BRANCH".to_string(), event.branch.clone()));
    r.push(("SASSE_OUTCOME".to_string(), event.state.as_str().to_string()));
    r.push(("SASSE_ENTRY".to_string(), text::integer_text(event.entry)));
    r.push(("SASSE_ATTEMPTS".to_string(), text::decimal_text(event.attempts as u64)));
    r.push(("SASSE_REASON".to_string(), reason));
    assert(pairs(r@) =~= hook_environment(event@, repo@, base@));
    r
}

/// Runs the hook through a shell, in the repository.
#[derive(Debug)]
pub struct ShellNotifier {
    repo: String,
    timeout: Span,
}

/// What running a hook asks for next.
#[derive(Debug, PartialEq, Eq)]
pub enum HookAction {
    /// Start a shell on the script, in a directory and in a process group of its
    /// own, with these variables, nothing to read and its output collected.
    ///
    /// The group is there so that the timeout can reach everything the hook
    /// started and not just the shell. The output is collected on the side, so
    /// that a hook that writes more than a pipe holds cannot deadlock against
    /// our own wait.
    Spawn { script: String, directory: String, environment: Vec<(String, String)> },
    /// See whether the shell has ended, and how long it has been running.
    Poll,
    /// Wait a little before looking again.
    Sleep { milliseconds: u64 },
    /// Kill the whole process group, and let go of its output. Killing only the
    /// shell could leave a descendant holding the pipe's write end, and then a
    /// wait that was supposed to be bounded runs for as long as the hook would
    /// have.
    Kill,
    /// Collect the output, if it has ended, and see how long the hook has been
    /// running if it has not. The shell is gone, but what it left running may
    /// still be writing.
    Collect,
    /// There is nothing left to do.
    Finish,
}

/// What came of it.
#[derive(Debug, PartialEq, Eq)]
pub enum HookEvent {
    Started(Result<(), Failure>),
    Seen { ended: Result<Option<Exit>, Failure>, elapsed: Span },
    Rested,
    Killed,
    Collected(String),
    /// The output has not ended.
    Unended { elapsed: Span },
}

/// Where a hook run is.
#[derive(Debug, Clone, Copy, PartialEq, Eq, Structural)]
pub enum HookPhase {
    Starting,
    Looking,
    Resting,
    Killing,
    Collecting { exit: Exit },
    /// Resting before the output is asked for again.
    Pausing { exit: Exit },
    Over,
}

impl HookPhase {
    /// The event is an answer to what was asked.
    pub open spec fn takes(self, event: HookEvent) -> bool {
        match self {
            HookPhase::Starting => event is Started,
            HookPhase::Looking => event is Seen,
            HookPhase::Resting => event is Rested,
            HookPhase::Killing => event is Killed,
            HookPhase::Collecting { .. } => event is Collected || event is Unended,
            HookPhase::Pausing { .. } => event is Rested,
            HookPhase::Over => false,
        }
    }
}

/// One span is at least as long as another.
pub open spec fn at_least(a: Span, b: Span) -> bool {
    a.secs > b.secs || (a.secs == b.secs && a.nanos >= b.nanos)
}

/// One run of the hook, as a series of things to do and what came of them.
#[derive(Debug)]
pub struct HookRun {
    timeout: Span,
    phase: HookPhase,
    result: Option<Delivery>,
}

impl HookRun {
    pub closed spec fn timeout(&self) -> Span {
        self.timeout
    }

    pub closed spec fn phase(&self) -> HookPhase {
        self.phase
    }

    /// What became of the hook, once the run is over.
    pub closed spec fn delivery(&self) -> Option<Delivery> {
        self.result
    }

    pub closed spec fn wf(&self) -> bool {
        self.phase == HookPhase::Over <==> self.result is Some
    }

    fn over(&mut self, delivery: Delivery) -> (r: HookAction)
        ensures
            final(self).wf(),
            final(self).timeout() == old(self).timeout(),
            final(self).phase() == HookPhase::Over,
            final(self).delivery() == Some(delivery),
            r == HookAction::Finish,
    {
        self.phase = HookPhase::Over;
        self.result = Some(delivery);
        HookAction::Finish
    }

    /// Rest before looking again, unless the time is up.
    fn wait(&mut self, elapsed: Span, resting: HookPhase) -> (r: HookAction)
        requires
            old(self).wf(),
            old(self).phase() != HookPhase::Over,
            resting != HookPhase::Over,
        ensures
            final(self).wf(),
            final(self).timeout() == old(self).timeout(),
            if at_least(elapsed, old(self).timeout()) {
                final(self).phase() == HookPhase::Killing && r == HookAction::Kill
            } else {
                &&& final(self).phase() == resting
                &&& r == (HookAction::Sleep { milliseconds: POLL_MILLISECONDS })
            },
    {
        let due = elapsed.secs > self.timeout.secs || (elapsed.secs == self.timeout.secs
            && elapsed.nanos >= self.timeout.nanos);
        if due {
            self.phase = HookPhase::Killing;
            HookAction::Kill
        } else {
            self.phase = resting;
            HookAction::Sleep { milliseconds: POLL_MILLISECONDS }
        }
    }

    /// Take what came of the last action, and say what is next.
    ///
    /// A hook that has ended, and all of whose output has been read, is judged by
    /// how it ended. One that has not, or that left something running that still
    /// holds its output, is killed once its time is up.
    pub fn next(&mut self, event: HookEvent) -> (r: HookAction)
        requires
            old(self).wf(),
            old(self).phase().takes(event),
        ensures
            final(self).wf(),
            final(self).timeout() == old(self).timeout(),
            match (old(self).phase(), event) {
                (HookPhase::Starting, HookEvent::Started(Ok(_))) => {
                    &&& final(self).phase() == HookPhase::Looking
                    &&& r == HookAction::Poll
                },
                (HookPhase::Starting, HookEvent::Started(Err(why))) => {
                    &&& r == HookAction::Finish
                    &&& final(self).delivery() matches Some(Delivery::Unrunnable(said)) && said@
                        == "starting the on_settle hook"@
                },
                (HookPhase::Looking, HookEvent::Seen { ended: Ok(Some(exit)), .. }) => {
                    &&& final(self).phase() == (HookPhase::Collecting { exit })
                    &&& r == HookAction::Collect
                },
                (HookPhase::Looking, HookEvent::Seen { ended: Ok(None), elapsed }) => if at_least(
                    elapsed,
                    old(self).timeout(),
                ) {
                    &&& final(self).phase() == HookPhase::Killing
                    &&& r == HookAction::Kill
                } else {
                    &&& final(self).phase() == HookPhase::Resting
                    &&& r == (HookAction::Sleep { milliseconds: POLL_MILLISECONDS })
                },
                (HookPhase::Looking, HookEvent::Seen { ended: Err(why), .. }) => {
                    &&& r == HookAction::Finish
                    &&& final(self).delivery() matches Some(Delivery::Unrunnable(said)) && said@
                        == why@
                },
                (HookPhase::Resting, _) => {
                    &&& final(self).phase() == HookPhase::Looking
                    &&& r == HookAction::Poll
                },
                (HookPhase::Killing, _) => {
                    &&& r == HookAction::Finish
                    &&& final(self).delivery() == Some(Delivery::TimedOut)
                },
                (HookPhase::Collecting { exit }, HookEvent::Collected(output)) => {
                    &&& r == HookAction::Finish
                    &&& final(self).delivery() == Some(
                        if exit.success {
                            Delivery::Delivered
                        } else {
                            Delivery::Failed { exit_code: exit.code, output }
                        },
                    )
                },
                (HookPhase::Collecting { exit }, HookEvent::Unended { elapsed }) => if at_least(
                    elapsed,
                    old(self).timeout(),
                ) {
                    &&& final(self).phase() == HookPhase::Killing
                    &&& r == HookAction::Kill
                } else {
                    &&& final(self).phase() == (HookPhase::Pausing { exit })
                    &&& r == (HookAction::Sleep { milliseconds: POLL_MILLISECONDS })
                },
                (HookPhase::Pausing { exit }, _) => {
                    &&& final(self).phase() == (HookPhase::Collecting { exit })
                    &&& r == HookAction::Collect
                },
                _ => false,
            },
    {
        match event {
            HookEvent::Started(Ok(_)) => {
                self.phase = HookPhase::Looking;
                HookAction::Poll
            },
            // Never raised: the entry has already settled, and a notifier that
            // cannot be started is not a reason to fail the tick.
            HookEvent::Started(Err(_)) => {
                self.over(Delivery::Unrunnable("starting the on_settle hook".to_string()))
            },
            HookEvent::Seen { ended, elapsed } => match ended {
                Err(why) => self.over(Delivery::Unrunnable(why.message)),
                Ok(Some(exit)) => {
                    self.phase = HookPhase::Collecting { exit };
                    HookAction::Collect
                },
                Ok(None) => self.wait(elapsed, HookPhase::Resting),
            },
            HookEvent::Rested => match self.phase {
                HookPhase::Pausing { exit } => {
                    self.phase = HookPhase::Collecting { exit };
                    HookAction::Collect
                },
                _ => {
                    self.phase = HookPhase::Looking;
                    HookAction::Poll
                },
            },
            HookEvent::Unended { elapsed } => match self.phase {
                HookPhase::Collecting { exit } => self.wait(elapsed, HookPhase::Pausing { exit }),
                _ => {
                    assert(false);
                    HookAction::Finish
                },
            },
            HookEvent::Killed => self.over(Delivery::TimedOut),
            HookEvent::Collected(output) => match self.phase {
                HookPhase::Collecting { exit } => if exit.success {
                    self.over(Delivery::Delivered)
                } else {
                    self.over(Delivery::Failed { exit_code: exit.code, output })
                },
                _ => {
                    assert(false);
                    HookAction::Finish
                },
            },
        }
    }

    /// What became of a hook whose run is over.
    pub fn into_delivery(self) -> (r: Option<Delivery>)
        ensures
            r == self.delivery(),
    {
        self.result
    }
}

impl ShellNotifier {
    pub closed spec fn repo(&self) -> Seq<char> {
        self.repo@
    }

    pub closed spec fn timeout(&self) -> Span {
        self.timeout
    }

    pub fn new(repo: &str) -> (r: Self)
        ensures
            r.repo() == repo@,
            r.timeout() == (Span { secs: TIMEOUT_SECONDS, nanos: 0 }),
    {
        ShellNotifier { repo: repo.to_string(), timeout: Span::from_secs(TIMEOUT_SECONDS) }
    }

    pub fn with_timeout(self, timeout: Span) -> (r: Self)
        ensures
            r.repo() == self.repo(),
            r.timeout() == timeout,
    {
        ShellNotifier { repo: self.repo, timeout }
    }

    /// Begin a run of the hook: what to do first, and the run that says what is
    /// next.
    pub fn start(&self, command: &str, event: &Settled, repo_path: &str, base_branch: &str) -> (r: (
        HookRun,
        HookAction,
    ))
        ensures
            r.0.wf(),
            r.0.phase() == HookPhase::Starting,
            r.0.timeout() == self.timeout(),
            r.1 matches HookAction::Spawn { script, directory, environment } && script@ == script_of(
                command@,
            ) && directory@ == self.repo() && pairs(environment@) == hook_environment(
                event@,
                repo_path@,
                base_branch@,
            ),
    {
        let run = HookRun { timeout: self.timeout, phase: HookPhase::Starting, result: None };
        let action = HookAction::Spawn {
            script: script(command),
            directory: self.repo.clone(),
            environment: environment(event, repo_path, base_branch),
        };
        (run, action)
    }
}

/// A notifier that does nothing, for when no hook is configured.
pub struct Silent;

impl Notifier for Silent {
    fn settled(
        &self,
        command: &str,
        event: &Settled,
        repo_path: &str,
        base_branch: &str,
    ) -> (r: Delivery)
        ensures
            r == Delivery::Delivered,
    {
        Delivery::Delivered
    }
}

/// A hook that has ended, and whose output is all there, is judged by how it
/// ended: it was delivered exactly if it ended in success, and otherwise failed
/// with the code it ended with and all that it said.
pub proof fn a_hook_is_judged_by_its_end(run: &mut HookRun, exit: Exit, output: String, r: HookAction)
    requires
        run.phase() == (HookPhase::Collecting { exit }),
        call_ensures(HookRun::next, (run, HookEvent::Collected(output)), r),
    ensures
        r == HookAction::Finish,
        final(run).delivery() == Some(Delivery::Delivered) <==> exit.success,
        !exit.success ==> final(run).delivery() == Some(
            Delivery::Failed { exit_code: exit.code, output },
        ),
{
}

/// A hook is killed exactly when it, or its output, has not ended once its time is
/// up, and never before: until then it is looked at again after a short rest.
pub proof fn a_hook_gets_its_time(run: &mut HookRun, event: HookEvent, elapsed: Span, r: HookAction)
    requires
        run.phase().takes(event),
        event == (HookEvent::Seen { ended: Ok(None), elapsed }) || event == (HookEvent::Unended {
            elapsed,
        }),
        elapsed.nanos < 1_000_000_000,
        run.timeout().nanos < 1_000_000_000,
        call_ensures(HookRun::next, (run, event), r),
    ensures
        r is Kill <==> elapsed.secs * 1_000_000_000 + elapsed.nanos >= old(run).timeout().secs
            * 1_000_000_000 + old(run).timeout().nanos,
        r is Kill || r is Sleep,
        r is Kill ==> final(run).phase() == HookPhase::Killing,
        r is Sleep ==> final(run).phase() == match old(run).phase() {
            HookPhase::Collecting { exit } => HookPhase::Pausing { exit },
            _ => HookPhase::Resting,
        },
        final(run).timeout() == old(run).timeout(),
{
}

/// How a hook run goes on otherwise: once started it is looked at, once it has
/// ended its output is collected, a rest is followed by another look at the same
/// thing, and what was killed timed out. A hook that could not be started, or not
/// be looked at, says so and fails nothing.
pub proof fn a_hook_run_goes_in_order(run: &mut HookRun, event: HookEvent, r: HookAction)
    requires
        run.phase().takes(event),
        call_ensures(HookRun::next, (run, event), r),
    ensures
        event matches HookEvent::Started(Ok(_)) ==> r is Poll && final(run).phase()
            == HookPhase::Looking,
        event matches HookEvent::Started(Err(_)) ==> r is Finish && final(run).delivery() is Some
            && final(run).delivery()->0 is Unrunnable,
        event matches HookEvent::Seen { ended: Ok(Some(exit)), .. } ==> r is Collect && final(run).phase() == (HookPhase::Collecting { exit }),
        event matches HookEvent::Seen { ended: Err(why), .. } ==> r is Finish && (final(run).delivery() matches Some(Delivery::Unrunnable(said)) && said@ == why@),
        event is Killed ==> r is Finish && final(run).delivery() == Some(Delivery::TimedOut),
        event is Rested ==> match old(run).phase() {
            HookPhase::Pausing { exit } => r is Collect && final(run).phase()
                == (HookPhase::Collecting { exit }),
            _ => r is Poll && final(run).phase() == HookPhase::Looking,
        },
{
}

/// A hook learns from its environment which repository and base branch it is
/// about, which entry of which branch settled, how and why, and after how many
/// attempts.
pub proof fn a_hook_is_told_everything(
    event: &Settled,
    repo: &str,
    base: &str,
    r: Vec<(String, String)>,
)
    requires
        call_ensures(environment, (event, repo, base), r),
    ensures
        r@.len() == 7,
        r@[0].0@ == "SASSE_REPO"@ && r@[0].1@ == repo@,
        r@[1].0@ == "SASSE_BASE"@ && r@[1].1@ == base@,
        r@[2].0@ == "SASSE_BRANCH"@ && r@[2].1@ == event.branch@,
        r@[3].0@ == "SASSE_OUTCOME"@ && r@[3].1@ == event.state.name(),
        r@[4].0@ == "SASSE_ENTRY"@ && r@[4].1@ == integer(event.entry as int),
        r@[5].0@ == "SASSE_ATTEMPTS"@ && r@[5].1@ == decimal(event.attempts as nat),
        r@[6].0@ == "SASSE_REASON"@ && (event.reason matches Some(reason) ==> r@[6].1@ == reason@)
            && (event.reason is None ==> r@[6].1@ == ""@),
{
    let told = pairs(r@);
    assert(told.len() == 7);
    assert(told[0] == (r@[0].0@, r@[0].1@));
    assert(told[1] == (r@[1].0@, r@[1].1@));
    assert(told[2] == (r@[2].0@, r@[2].1@));
    assert(told[3] == (r@[3].0@, r@[3].1@));
    assert(told[4] == (r@[4].0@, r@[4].1@));
    assert(told[5] == (r@[5].0@, r@[5].1@));
    assert(told[6] == (r@[6].0@, r@[6].1@));
}

/// A hook starts on the command that is configured, in the repository, knowing
/// what settled, and gets the time that the notifier has for it.
pub proof fn a_hook_starts_on_its_command(
    notifier: &ShellNotifier,
    command: &str,
    event: &Settled,
    repo: &str,
    base: &str,
    told: Vec<(String, String)>,
    r: (HookRun, HookAction),
)
    requires
        call_ensures(ShellNotifier::start, (notifier, command, event, repo, base), r),
        call_ensures(environment, (event, repo, base), told),
    ensures
        r.0.phase() == HookPhase::Starting,
        r.0.timeout() == notifier.timeout(),
        r.1 matches HookAction::Spawn { script, directory, environment } && {
            &&& crate::gate::ends_in(script@, command@)
            &&& directory@ == notifier.repo()
            &&& pairs(environment@) == pairs(told@)
        },
{
}

/// What is said of a hook that failed is its code and all that it said: every line
/// of it, in order, on one.
pub proof fn what_a_hook_said_is_passed_on(
    exit_code: Option<i32>,
    lines: Seq<Seq<char>>,
    last: Seq<char>,
    output: String,
    delivery: &Delivery,
    r: String,
)
    requires
        forall|i: int| 0 <= i < lines.len() ==> crate::wording::is_plain(#[trigger] lines[i]),
        text::one_line(last),
        last.len() > 0,
        !text::is_white_space(last[last.len() - 1]),
        lines.len() > 0 ==> lines[0].len() > 0 && !text::is_white_space(lines[0][0]),
        lines.len() == 0 ==> !text::is_white_space(last[0]),
        output@ == crate::wording::written_lines(lines) + last,
        *delivery == (Delivery::Failed { exit_code, output }),
        call_ensures(Delivery::describe, (delivery,), r),
    ensures
        r@ == "exited "@ + (match exit_code {
            Some(code) => integer(code as int),
            None => "signal"@,
        }) + ": "@ + joined(lines.push(last), " "@),
{
    let s = output@;
    let none = Seq::<char>::empty();
    if lines.len() > 0 {
        crate::wording::begins_with_the_first(lines);
    } else {
        assert(crate::wording::written_lines(lines) =~= none);
    }
    assert(s =~= none + s + none);
    crate::wording::trimming_leaves_the_middle(none, s, none);
    crate::wording::lines_read_back(lines, last);
}

/// A hook that failed and said nothing is said to have said nothing.
pub proof fn a_silent_failure_is_said_to_be_silent(
    exit_code: Option<i32>,
    output: String,
    delivery: &Delivery,
    r: String,
)
    requires
        crate::wording::is_blank(output@),
        *delivery == (Delivery::Failed { exit_code, output }),
        call_ensures(Delivery::describe, (delivery,), r),
    ensures
        r@ == "exited "@ + (match exit_code {
            Some(code) => integer(code as int),
            None => "signal"@,
        }) + " with no output"@,
{
    let none = Seq::<char>::empty();
    assert(output@ =~= output@ + none + none);
    crate::wording::trimming_leaves_the_middle(output@, none, none);
}

} // verus!
