//! Keeping gate logs inside a budget.
//!
//! In short: the log directory has a hard ceiling, a passing candidate's log is
//! removed as soon as it settles because nobody reads a green gate log, and a
//! failure's last lines are kept on its run row so the reason survives the
//! bytes.
//!
//! The decision about what goes is a pure function over descriptions of the
//! files, so it can be made without a filesystem and reported as a dry run
//! without touching one.

use vstd::prelude::*;

use crate::bytes::ByteSize;
use crate::seqs;
use crate::seqs::ordered;
use crate::text;

verus! {

/// How much of a failing log is kept on its row once the file has gone.
pub const RETAINED_TAIL_LINES: usize = 40;

/// A log the prune may consider.
#[derive(Debug, PartialEq, Eq)]
pub struct LogFile {
    pub run_id: i64,
    pub candidate_id: i64,
    pub path: String,
    pub bytes: u64,
    /// Whether the merge gate run this log belongs to passed.
    pub passed: bool,
}

/// What a log is.
pub struct LogView {
    pub run_id: i64,
    pub candidate_id: i64,
    pub path: Seq<char>,
    pub bytes: u64,
    pub passed: bool,
}

impl View for LogFile {
    type V = LogView;

    open spec fn view(&self) -> LogView {
        LogView {
            run_id: self.run_id,
            candidate_id: self.candidate_id,
            path: self.path@,
            bytes: self.bytes,
            passed: self.passed,
        }
    }
}

impl Clone for LogFile {
    fn clone(&self) -> (r: Self)
        ensures
            r == *self,
    {
        LogFile {
            run_id: self.run_id,
            candidate_id: self.candidate_id,
            path: self.path.clone(),
            bytes: self.bytes,
            passed: self.passed,
        }
    }
}

/// The logs of a list.
pub open spec fn log_views(list: Seq<LogFile>) -> Seq<LogView> {
    Seq::new(list.len(), |i: int| list[i]@)
}

/// Why a particular log was chosen for removal.
#[derive(Debug, Clone, Copy, PartialEq, Eq, Structural)]
pub enum Because {
    /// It records a pass, so it has no readers.
    NothingToExplain,
    /// The directory was over budget and this was the oldest failure left.
    OverBudget,
}

#[derive(Debug, PartialEq, Eq)]
pub struct Removal {
    pub log: LogFile,
    pub because: Because,
}

/// What a removal is.
pub struct RemovalView {
    pub log: LogView,
    pub because: Because,
}

impl View for Removal {
    type V = RemovalView;

    open spec fn view(&self) -> RemovalView {
        RemovalView { log: self.log@, because: self.because }
    }
}

/// The removals of a list.
pub open spec fn removal_views(list: Seq<Removal>) -> Seq<RemovalView> {
    Seq::new(list.len(), |i: int| list[i]@)
}

#[derive(Debug, PartialEq, Eq)]
pub struct Plan {
    pub remove: Vec<Removal>,
    pub bytes_before: u64,
    pub bytes_after: u64,
    pub budget: ByteSize,
}

/// How many bytes logs take together.
pub open spec fn total(logs: Seq<LogView>) -> int
    decreases logs.len(),
{
    if logs.len() == 0 {
        0
    } else {
        logs[0].bytes + total(logs.drop_first())
    }
}

/// The logs of gate runs that passed.
pub open spec fn passes(logs: Seq<LogView>) -> Seq<LogView> {
    logs.filter(|l: LogView| l.passed)
}

/// The logs of gate runs that failed, oldest first. Run ids are monotonic, so
/// the id is the age.
pub open spec fn failures(logs: Seq<LogView>) -> Seq<LogView> {
    ordered(
        logs.filter(|l: LogView| !l.passed),
        |a: LogView, b: LogView| a.run_id < b.run_id,
    )
}

/// How many logs have to go, from the front, before the rest fits in a budget.
pub open spec fn excess(logs: Seq<LogView>, budget: u64) -> nat
    decreases logs.len(),
{
    if logs.len() == 0 || total(logs) <= budget {
        0
    } else {
        1 + excess(logs.drop_first(), budget)
    }
}

/// Logs that go for one reason.
pub open spec fn removing(logs: Seq<LogView>, because: Because) -> Seq<RemovalView> {
    logs.map_values(|log: LogView| RemovalView { log, because })
}

/// What goes: every pass, and then as many of the oldest failures as it takes.
pub open spec fn removals(logs: Seq<LogView>, budget: u64) -> Seq<RemovalView> {
    removing(passes(logs), Because::NothingToExplain) + removing(
        failures(logs).take(excess(failures(logs), budget) as int),
        Because::OverBudget,
    )
}

/// What stays: the failures that are left.
pub open spec fn kept(logs: Seq<LogView>, budget: u64) -> Seq<LogView> {
    failures(logs).skip(excess(failures(logs), budget) as int)
}

impl Plan {
    /// The plan for logs and a budget.
    pub open spec fn is_for(&self, logs: Seq<LogView>, budget: u64) -> bool {
        &&& removal_views(self.remove@) == removals(logs, budget)
        &&& self.bytes_before == total(logs)
        &&& self.bytes_after == total(kept(logs, budget))
        &&& self.budget@ == budget
    }

    pub fn is_empty(&self) -> (r: bool)
        ensures
            r == (self.remove@.len() == 0),
    {
        self.remove.len() == 0
    }

    pub fn bytes_freed(&self) -> (r: u64)
        ensures
            r == (if self.bytes_before >= self.bytes_after {
                self.bytes_before - self.bytes_after
            } else {
                0
            }),
    {
        if self.bytes_before >= self.bytes_after {
            self.bytes_before - self.bytes_after
        } else {
            0
        }
    }
}

/// How many bytes logs take together, where 64 bits hold that.
pub fn total_bytes(logs: &Vec<LogFile>) -> (r: Option<u64>)
    ensures
        match r {
            Some(n) => n == total(log_views(logs@)),
            None => total(log_views(logs@)) > u64::MAX,
        },
{
    let ghost all = log_views(logs@);
    let mut sum: u64 = 0;
    let mut i: usize = logs.len();
    assert(all.skip(all.len() as int) =~= Seq::<LogView>::empty());
    while i > 0
        invariant
            i <= logs@.len(),
            all == log_views(logs@),
            sum == total(all.skip(i as int)),
        decreases i,
    {
        i = i - 1;
        assert(all.skip(i as int)[0] == logs@[i as int]@);
        assert(all.skip(i as int).drop_first() =~= all.skip(i + 1));
        match sum.checked_add(logs[i].bytes) {
            Some(more) => {
                sum = more;
            },
            None => {
                proof {
                    total_of_part(all, i as int);
                }
                return None;
            },
        }
    }
    assert(all.skip(0) =~= all);
    Some(sum)
}

/// Decide which logs go.
///
/// Passing logs go regardless of the budget, because a green gate log has no
/// readers and keeping it spends allowance that a failure needs. Then the oldest
/// failures go, one at a time, only while the directory is still over budget.
///
/// Every failure's file may be removed, including the last one, because its last
/// lines are stored on its run row before the file goes. That is what makes the
/// budget a real ceiling rather than a suggestion: without the retained tail,
/// honouring it would mean discarding the reason something failed, and the
/// policy would have to soften. With it, nothing the design promised to keep is
/// lost.
///
/// Logs belonging to candidates still being assembled or gated are never
/// offered here, so everything this sees may legally go.
pub fn plan(logs: Vec<LogFile>, budget: ByteSize) -> (r: Plan)
    requires
        total(log_views(logs@)) <= u64::MAX,
    ensures
        r.is_for(log_views(logs@), budget@),
{
    let ghost all = log_views(logs@);
    let bytes_before: u64 = match total_bytes(&logs) {
        Some(n) => n,
        None => {
            assert(false);
            0
        },
    };
    let mut remaining: u64 = bytes_before;
    let mut remove: Vec<Removal> = Vec::new();
    let mut failed: Vec<usize> = Vec::new();
    let ghost pass = |l: LogView| l.passed;
    let ghost fail = |l: LogView| !l.passed;
    let ghost older = |a: LogView, b: LogView| a.run_id < b.run_id;
    proof {
        reveal(Seq::filter);
        assert(removal_views(remove@) =~= removing(
            all.take(0).filter(pass),
            Because::NothingToExplain,
        ));
        assert(at(all, failed@) =~= ordered(all.take(0).filter(fail), older));
    }
    for i in 0..logs.len()
        invariant
            all == log_views(logs@),
            pass == (|l: LogView| l.passed),
            fail == (|l: LogView| !l.passed),
            older == (|a: LogView, b: LogView| a.run_id < b.run_id),
            total(all) <= u64::MAX,
            remaining == total(all) - total(all.take(i as int).filter(pass)),
            removal_views(remove@) == removing(
                all.take(i as int).filter(pass),
                Because::NothingToExplain,
            ),
            forall|k: int| 0 <= k < failed@.len() ==> (#[trigger] failed@[k]) < all.len(),
            at(all, failed@) == ordered(all.take(i as int).filter(fail), older),
    {
        let ghost x = all[i as int];
        proof {
            seqs::filter_take(all, i as int, pass);
            seqs::filter_take(all, i as int, fail);
            seqs::ordered_push(all.take(i as int).filter(fail), x, older);
            total_push(all.take(i as int).filter(pass), x);
            total_of_filter(all, pass, i + 1);
        }
        assert(x == logs@[i as int]@);
        if logs[i].passed {
            remaining = remaining - logs[i].bytes;
            let ghost had = remove@;
            let removal = Removal { log: logs[i].clone(), because: Because::NothingToExplain };
            remove.push(removal);
            assert(removal_views(remove@) =~= removal_views(had).push(removal@));
            assert(removing(all.take(i + 1).filter(pass), Because::NothingToExplain) =~= removing(
                all.take(i as int).filter(pass),
                Because::NothingToExplain,
            ).push(removal@));
        } else {
            let ghost list = at(all, failed@);
            let mut k: usize = failed.len();
            while k > 0 && logs[i].run_id < logs[failed[k - 1]].run_id
                invariant
                    k <= failed@.len(),
                    i < logs@.len(),
                    all == log_views(logs@),
                    x == all[i as int],
                    older == (|a: LogView, b: LogView| a.run_id < b.run_id),
                    forall|k: int| 0 <= k < failed@.len() ==> (#[trigger] failed@[k]) < all.len(),
                    list == at(all, failed@),
                    forall|j: int| k <= j < list.len() ==> older(x, #[trigger] list[j]),
                decreases k,
            {
                assert(failed@[k - 1] < all.len());
                assert(all[failed@[k - 1] as int] == logs@[failed@[k - 1] as int]@);
                assert(list[k - 1] == all[failed@[k - 1] as int]);
                k = k - 1;
            }
            proof {
                if k > 0 {
                    assert(failed@[k - 1] < all.len());
                    assert(all[failed@[k - 1] as int] == logs@[failed@[k - 1] as int]@);
                    assert(list[k - 1] == all[failed@[k - 1] as int]);
                }
                seqs::inserted_at(list, x, older, k as int);
            }
            let ghost had = failed@;
            failed.insert(k, i);
            assert(at(all, failed@) =~= list.insert(k as int, x));
            assert forall|j: int| 0 <= j < failed@.len() implies (#[trigger] failed@[j])
                < all.len() by {
                if j < k {
                    assert(failed@[j] == had[j]);
                } else if j > k {
                    assert(failed@[j] == had[j - 1]);
                }
            }
        }
    }
    assert(all.take(all.len() as int) =~= all);
    let ghost fails = failures(all);
    proof {
        total_partition(all);
        assert(at(all, failed@) == fails);
        assert(fails.len() == failed@.len());
        assert(fails.skip(0) =~= fails);
        assert(fails.take(0) =~= Seq::<LogView>::empty());
    }
    let ghost passing = removal_views(remove@);
    assert(removal_views(remove@) =~= passing + removing(fails.take(0), Because::OverBudget));
    let mut n: usize = 0;
    while n < failed.len() && remaining > budget.bytes()
        invariant
            n <= failed@.len(),
            all == log_views(logs@),
            fails == at(all, failed@),
            fails == failures(all),
            fails.len() == failed@.len(),
            forall|k: int| 0 <= k < failed@.len() ==> (#[trigger] failed@[k]) < all.len(),
            remaining == total(fails.skip(n as int)),
            excess(fails, budget@) == n + excess(fails.skip(n as int), budget@),
            removal_views(remove@) == passing + removing(
                fails.take(n as int),
                Because::OverBudget,
            ),
        decreases failed.len() - n,
    {
        assert(failed@[n as int] < all.len());
        let log = &logs[failed[n]];
        assert(fails[n as int] == log@);
        assert(fails.skip(n as int)[0] == fails[n as int]);
        assert(fails.skip(n as int).drop_first() =~= fails.skip(n + 1));
        proof {
            total_is_natural(fails.skip(n + 1));
        }
        remaining = remaining - log.bytes;
        let ghost had = remove@;
        let removal = Removal { log: log.clone(), because: Because::OverBudget };
        remove.push(removal);
        assert(removal_views(remove@) =~= removal_views(had).push(removal@));
        assert(removing(fails.take(n + 1), Because::OverBudget) =~= removing(
            fails.take(n as int),
            Because::OverBudget,
        ).push(removal@));
        assert(removal_views(remove@) =~= passing + removing(
            fails.take(n + 1),
            Because::OverBudget,
        ));
        n = n + 1;
    }
    Plan { remove, bytes_before, bytes_after: remaining, budget }
}

/// The logs with the given numbers.
spec fn at(logs: Seq<LogView>, numbers: Seq<usize>) -> Seq<LogView> {
    Seq::new(numbers.len(), |i: int| logs[numbers[i] as int])
}

/// Logs take no less than nothing.
pub proof fn total_is_natural(logs: Seq<LogView>)
    ensures
        total(logs) >= 0,
    decreases logs.len(),
{
    if logs.len() > 0 {
        total_is_natural(logs.drop_first());
    }
}

proof fn total_of_part(logs: Seq<LogView>, n: int)
    requires
        0 <= n <= logs.len(),
    ensures
        total(logs.skip(n)) <= total(logs),
    decreases n,
{
    if n > 0 {
        total_of_part(logs, n - 1);
        assert(logs.skip(n - 1).drop_first() =~= logs.skip(n));
    } else {
        assert(logs.skip(0) =~= logs);
    }
}

proof fn total_push(logs: Seq<LogView>, x: LogView)
    ensures
        total(logs.push(x)) == total(logs) + x.bytes,
    decreases logs.len(),
{
    if logs.len() == 0 {
        assert(logs.push(x).drop_first() =~= Seq::<LogView>::empty());
        assert(total(logs.push(x).drop_first()) == 0);
        assert(logs.push(x)[0] == x);
    } else {
        assert(logs.push(x)[0] == logs[0]);
        assert(logs.push(x).drop_first() =~= logs.drop_first().push(x));
        total_push(logs.drop_first(), x);
    }
}

proof fn total_of_filter(logs: Seq<LogView>, pred: spec_fn(LogView) -> bool, n: int)
    requires
        0 <= n <= logs.len(),
    ensures
        0 <= total(logs.take(n).filter(pred)) <= total(logs),
{
    total_filter_below(logs.take(n), pred);
    total_of_front(logs, n);
}

proof fn total_filter_below(logs: Seq<LogView>, pred: spec_fn(LogView) -> bool)
    ensures
        0 <= total(logs.filter(pred)) <= total(logs),
    decreases logs.len(),
{
    reveal(Seq::filter);
    if logs.len() > 0 {
        let rest = logs.drop_last();
        total_filter_below(rest, pred);
        assert(logs =~= rest.push(logs.last()));
        total_push(rest, logs.last());
        total_push(rest.filter(pred), logs.last());
    }
}

proof fn total_of_front(logs: Seq<LogView>, n: int)
    requires
        0 <= n <= logs.len(),
    ensures
        total(logs.take(n)) <= total(logs),
    decreases logs.len() - n,
{
    if n < logs.len() {
        total_of_front(logs, n + 1);
        assert(logs.take(n + 1) =~= logs.take(n).push(logs[n]));
        total_push(logs.take(n), logs[n]);
    } else {
        assert(logs.take(n) =~= logs);
    }
}

proof fn total_inserted(logs: Seq<LogView>, x: LogView, before: spec_fn(LogView, LogView) -> bool)
    ensures
        total(seqs::inserted(logs, x, before)) == total(logs) + x.bytes,
    decreases logs.len(),
{
    if logs.len() > 0 && before(x, logs.last()) {
        let rest = logs.drop_last();
        total_inserted(rest, x, before);
        total_push(seqs::inserted(rest, x, before), logs.last());
        assert(logs =~= rest.push(logs.last()));
        total_push(rest, logs.last());
    } else {
        total_push(logs, x);
    }
}

proof fn total_ordered(logs: Seq<LogView>, before: spec_fn(LogView, LogView) -> bool)
    ensures
        total(ordered(logs, before)) == total(logs),
    decreases logs.len(),
{
    if logs.len() > 0 {
        let rest = logs.drop_last();
        total_ordered(rest, before);
        total_inserted(ordered(rest, before), logs.last(), before);
        assert(logs =~= rest.push(logs.last()));
        total_push(rest, logs.last());
    }
}

proof fn total_split(logs: Seq<LogView>)
    ensures
        total(logs.filter(|l: LogView| l.passed)) + total(logs.filter(|l: LogView| !l.passed))
            == total(logs),
    decreases logs.len(),
{
    reveal(Seq::filter);
    let pass = |l: LogView| l.passed;
    let fail = |l: LogView| !l.passed;
    if logs.len() > 0 {
        let rest = logs.drop_last();
        total_split(rest);
        assert(logs =~= rest.push(logs.last()));
        total_push(rest, logs.last());
        total_push(rest.filter(pass), logs.last());
        total_push(rest.filter(fail), logs.last());
    }
}

/// Logs that there is a plan for take a number of bytes that can be counted.
pub proof fn total_is_counted(plan: Plan, logs: Seq<LogView>, budget: u64)
    requires
        plan.is_for(logs, budget),
    ensures
        0 <= total(logs) <= u64::MAX,
{
}

/// Every log either passed or failed, so their bytes add up.
pub proof fn total_partition(logs: Seq<LogView>)
    ensures
        total(passes(logs)) + total(failures(logs)) == total(logs),
{
    total_split(logs);
    total_ordered(
        logs.filter(|l: LogView| !l.passed),
        |a: LogView, b: LogView| a.run_id < b.run_id,
    );
}

/// The promise of the policy: whatever it is given, the plan brings the
/// directory inside its budget.
pub proof fn budget_is_met(logs: Seq<LogView>, budget: u64)
    ensures
        total(kept(logs, budget)) <= budget,
{
    rest_fits(failures(logs), budget);
}

proof fn rest_fits(logs: Seq<LogView>, budget: u64)
    ensures
        excess(logs, budget) <= logs.len(),
        total(logs.skip(excess(logs, budget) as int)) <= budget,
    decreases logs.len(),
{
    if logs.len() == 0 || total(logs) <= budget {
        assert(logs.skip(0) =~= logs);
    } else {
        let rest = logs.drop_first();
        rest_fits(rest, budget);
        let n = excess(rest, budget) as int;
        assert(logs.skip(n + 1) =~= rest.skip(n));
    }
}

/// No more logs go than there are.
pub proof fn excess_is_within(logs: Seq<LogView>, budget: u64)
    ensures
        excess(logs, budget) <= logs.len(),
{
    rest_fits(logs, budget);
}

/// A failure goes only while the directory is still over budget: had one fewer
/// gone, it would not have fitted.
pub proof fn no_failure_goes_needlessly(logs: Seq<LogView>, budget: u64, n: int)
    requires
        0 <= n < excess(failures(logs), budget),
    ensures
        total(failures(logs).skip(n)) > budget,
{
    earlier_is_over(failures(logs), budget, n);
}

proof fn earlier_is_over(logs: Seq<LogView>, budget: u64, n: int)
    requires
        0 <= n < excess(logs, budget),
    ensures
        total(logs.skip(n)) > budget,
    decreases n,
{
    if n == 0 {
        assert(logs.skip(0) =~= logs);
    } else {
        let rest = logs.drop_first();
        earlier_is_over(rest, budget, n - 1);
        rest_fits(logs, budget);
        assert(logs.skip(n) =~= rest.skip(n - 1));
    }
}

/// Failures go oldest first: whatever goes is no younger than whatever stays.
pub proof fn oldest_go_first(logs: Seq<LogView>, budget: u64, i: int, j: int)
    requires
        0 <= i < excess(failures(logs), budget) <= j < failures(logs).len(),
    ensures
        failures(logs)[i].run_id <= failures(logs)[j].run_id,
{
    let older = |a: LogView, b: LogView| a.run_id < b.run_id;
    seqs::ordered_is_ordered(logs.filter(|l: LogView| !l.passed), older);
    assert(!older(failures(logs)[j], failures(logs)[i]));
}

/// Every log of a pass goes, whatever the budget.
pub proof fn every_pass_goes(logs: Seq<LogView>, budget: u64, i: int)
    requires
        0 <= i < logs.len(),
        logs[i].passed,
    ensures
        removals(logs, budget).contains(
            RemovalView { log: logs[i], because: Because::NothingToExplain },
        ),
{
    let pass = |l: LogView| l.passed;
    logs.lemma_filter_contains(pass, i);
    let k = choose|k: int| 0 <= k < passes(logs).len() && passes(logs)[k] == logs[i];
    assert(removals(logs, budget)[k] == (RemovalView {
        log: logs[i],
        because: Because::NothingToExplain,
    }));
}

/// Pruning what a prune kept removes nothing.
pub proof fn what_is_kept_stays(logs: Seq<LogView>, budget: u64)
    ensures
        removals(kept(logs, budget), budget).len() == 0,
{
    let left = kept(logs, budget);
    let pass = |l: LogView| l.passed;
    let fail = |l: LogView| !l.passed;
    let older = |a: LogView, b: LogView| a.run_id < b.run_id;
    rest_fits(failures(logs), budget);
    assert forall|i: int| 0 <= i < left.len() implies !(#[trigger] left[i]).passed by {
        let all = failures(logs);
        let n = excess(all, budget) as int;
        assert(left[i] == all[n + i]);
        assert(all.contains(all[n + i]));
        seqs::ordered_has(logs.filter(fail), older, all[n + i]);
        let k = choose|k: int|
            0 <= k < logs.filter(fail).len() && logs.filter(fail)[k] == all[n + i];
        logs.lemma_filter_pred(fail, k);
    }
    seqs::filter_none(left, pass);
    seqs::filter_all(left, fail);
    total_ordered(left, older);
    assert(excess(failures(left), budget) == 0);
    assert(failures(left).take(0) =~= Seq::<LogView>::empty());
}

/// The lines that a run of bytes ends.
pub open spec fn ended_lines(bytes: Seq<u8>) -> Seq<Seq<u8>>
    decreases bytes.len(),
{
    if bytes.len() == 0 {
        Seq::empty()
    } else if bytes.last() == 10 {
        ended_lines(bytes.drop_last()).push(open_line(bytes.drop_last()))
    } else {
        ended_lines(bytes.drop_last())
    }
}

/// What follows the last line that a run of bytes ends.
pub open spec fn open_line(bytes: Seq<u8>) -> Seq<u8>
    decreases bytes.len(),
{
    if bytes.len() == 0 || bytes.last() == 10 {
        Seq::empty()
    } else {
        open_line(bytes.drop_last()).push(bytes.last())
    }
}

/// The lines of a run of bytes. A line that nothing ends counts if there is
/// anything in it.
pub open spec fn lines_of(bytes: Seq<u8>) -> Seq<Seq<u8>> {
    if open_line(bytes).len() > 0 {
        ended_lines(bytes).push(open_line(bytes))
    } else {
        ended_lines(bytes)
    }
}

/// The end of a list, up to a number of items.
pub open spec fn last_of(lines: Seq<Seq<u8>>, n: nat) -> Seq<Seq<u8>> {
    if lines.len() <= n {
        lines
    } else {
        lines.skip(lines.len() - n)
    }
}

/// Lines as text.
pub open spec fn shown(lines: Seq<Seq<u8>>) -> Seq<Seq<char>> {
    Seq::new(lines.len(), |i: int| text::lossy_text(lines[i]))
}

/// The lines of a list, byte by byte.
pub open spec fn byte_lines(list: Seq<Vec<u8>>) -> Seq<Seq<u8>> {
    Seq::new(list.len(), |i: int| list[i]@)
}

/// Reads a log forwards and keeps its last lines, so a log far larger than the
/// part wanted is never held in memory.
pub struct TailReader {
    limit: usize,
    kept: Vec<Vec<u8>>,
    line: Vec<u8>,
    read: Ghost<Seq<u8>>,
}

impl TailReader {
    /// What has been read so far.
    pub closed spec fn seen(&self) -> Seq<u8> {
        self.read@
    }

    /// How many lines are wanted.
    pub closed spec fn wanted(&self) -> nat {
        self.limit as nat
    }

    /// The lines that are kept are the last of those read.
    pub closed spec fn wf(&self) -> bool {
        &&& byte_lines(self.kept@) == last_of(ended_lines(self.read@), self.limit as nat)
        &&& self.line@ == open_line(self.read@)
    }

    pub fn new(lines: usize) -> (r: Self)
        ensures
            r.wf(),
            r.seen() == Seq::<u8>::empty(),
            r.wanted() == lines,
    {
        let r = TailReader {
            limit: lines,
            kept: Vec::new(),
            line: Vec::new(),
            read: Ghost(Seq::empty()),
        };
        assert(byte_lines(r.kept@) =~= last_of(ended_lines(r.read@), lines as nat));
        r
    }

    /// Take the next part of the log.
    pub fn feed(&mut self, chunk: &[u8])
        requires
            old(self).wf(),
        ensures
            final(self).wf(),
            final(self).seen() == old(self).seen() + chunk@,
            final(self).wanted() == old(self).wanted(),
    {
        let ghost before = self.read@;
        assert(chunk@.take(0) =~= Seq::<u8>::empty());
        assert(before + chunk@.take(0) =~= before);
        for i in 0..chunk.len()
            invariant
                self.wf(),
                self.limit == old(self).limit,
                self.read@ == before + chunk@.take(i as int),
        {
            let byte: u8 = chunk[i];
            let ghost read = self.read@;
            assert(before + chunk@.take(i + 1) =~= read.push(byte));
            assert(read.push(byte).drop_last() =~= read);
            self.read = Ghost(read.push(byte));
            if byte == 10 {
                let mut line: Vec<u8> = Vec::new();
                std::mem::swap(&mut line, &mut self.line);
                self.keep(line, Ghost(ended_lines(read)));
            } else {
                self.line.push(byte);
            }
        }
        assert(chunk@.take(chunk@.len() as int) =~= chunk@);
    }

    /// Keep a line, and let the oldest go if that is one too many.
    fn keep(&mut self, line: Vec<u8>, Ghost(lines): Ghost<Seq<Seq<u8>>>)
        requires
            byte_lines(old(self).kept@) == last_of(lines, old(self).limit as nat),
        ensures
            byte_lines(final(self).kept@) == last_of(lines.push(line@), old(self).limit as nat),
            final(self).line == old(self).line,
            final(self).limit == old(self).limit,
            final(self).read == old(self).read,
    {
        let ghost had = self.kept@;
        let ghost n = self.limit as nat;
        assert(byte_lines(had).len() == had.len());
        if self.limit == 0 {
            assert(last_of(lines.push(line@), 0) =~= Seq::<Seq<u8>>::empty());
            assert(byte_lines(had) =~= Seq::<Seq<u8>>::empty());
            return;
        }
        let ghost new = line@;
        if self.kept.len() >= self.limit {
            let _ = self.kept.remove(0);
            self.kept.push(line);
            assert(byte_lines(self.kept@) =~= byte_lines(had).drop_first().push(new));
            assert(last_of(lines.push(new), n) =~= last_of(lines, n).drop_first().push(new));
        } else {
            self.kept.push(line);
            assert(byte_lines(self.kept@) =~= byte_lines(had).push(new));
            assert(last_of(lines.push(new), n) =~= lines.push(new));
        }
    }

    /// The last lines of what was read.
    pub fn finish(self) -> (r: Vec<String>)
        requires
            self.wf(),
        ensures
            text::texts(r@) == shown(last_of(lines_of(self.seen()), self.wanted())),
    {
        let mut done = self;
        let ghost ended = ended_lines(done.read@);
        let ghost limit = done.limit as nat;
        let ghost last = last_of(lines_of(done.read@), limit);
        if done.line.len() > 0 {
            let mut line: Vec<u8> = Vec::new();
            std::mem::swap(&mut line, &mut done.line);
            done.keep(line, Ghost(ended));
        }
        let ghost lines = byte_lines(done.kept@);
        assert(lines == last);
        let mut r: Vec<String> = Vec::new();
        for i in 0..done.kept.len()
            invariant
                lines == byte_lines(done.kept@),
                text::texts(r@) == shown(lines).take(i as int),
        {
            let line = text::lossy(done.kept[i].as_slice());
            let ghost had = r@;
            r.push(line);
            assert(lines[i as int] == done.kept@[i as int]@);
            assert(text::texts(r@) =~= text::texts(had).push(text::lossy_text(lines[i as int])));
            assert(shown(lines).take(i + 1) =~= shown(lines).take(i as int).push(
                text::lossy_text(lines[i as int]),
            ));
        }
        assert(shown(lines).take(done.kept@.len() as int) =~= shown(lines));
        r
    }

    /// The last lines of what was read as one string, for keeping on a row.
    pub fn finish_text(self) -> (r: String)
        requires
            self.wf(),
        ensures
            r@ == text::joined(shown(last_of(lines_of(self.seen()), self.wanted())), "\n"@),
    {
        text::join(self.finish().as_slice(), "\n")
    }
}

/// The last `lines` lines of a log.
///
/// Lossy on invalid UTF-8: gate output is whatever the merge gate printed, and
/// refusing to show it because a byte was not valid would be worse than showing
/// it approximately.
pub fn tail(log: &[u8], lines: usize) -> (r: Vec<String>)
    ensures
        text::texts(r@) == shown(last_of(lines_of(log@), lines as nat)),
{
    let mut reader = TailReader::new(lines);
    reader.feed(log);
    assert(Seq::<u8>::empty() + log@ =~= log@);
    reader.finish()
}

/// The last `lines` lines as one string, for keeping on a row.
pub fn tail_text(log: &[u8], lines: usize) -> (r: String)
    ensures
        r@ == text::joined(shown(last_of(lines_of(log@), lines as nat)), "\n"@),
{
    let mut reader = TailReader::new(lines);
    reader.feed(log);
    assert(Seq::<u8>::empty() + log@ =~= log@);
    reader.finish_text()
}

} // verus!
