//! What is said to the person at the terminal.
//!
//! Every function here turns what is known into lines. Printing them is someone
//! else's business.

use vstd::prelude::*;

use crate::config::Config;
use crate::git::Sha;
use crate::notify::a_description_is_one_line;
use crate::queue::lease::Held;
use crate::queue::ledger::CandidateView;
use crate::queue::ledger::Ledger;
use crate::queue::ledger::RunRecord;
use crate::queue::ledger::StatusView;
use crate::queue::store::candidate_records;
use crate::queue::store::run_records;
use crate::queue::store::status_views;
use crate::queue::store::Blame;
use crate::queue::store::Candidate;
use crate::queue::store::CandidateRow;
use crate::queue::store::RunRow;
use crate::queue::store::Snapshot;
use crate::queue::store::StatusEntry;
use crate::queue::store::Store;
use crate::queue::store::Summary;
use crate::text;
use crate::text::decimal;
use crate::text::integer;
use crate::text::joined;
use crate::text::one_line;
use crate::text::padded;
use crate::text::texts;
use crate::time::Instant;
use crate::time::Timestamp;
use crate::worker::announcement_views;
use crate::worker::Abandoned;
use crate::worker::Announcement;
use crate::worker::AnnouncementView;
use crate::worker::Fault;
use crate::worker::OutcomeView;
use crate::worker::TickOutcome;
use crate::worker::WorkSummary;

verus! {

/// Add a line.
fn say(lines: &mut Vec<String>, line: String)
    ensures
        texts(final(lines)@) == texts(old(lines)@).push(line@),
{
    lines.push(line);
    assert(texts(lines@) =~= texts(old(lines)@).push(line@));
}

/// Add lines.
fn say_all(lines: &mut Vec<String>, more: Vec<String>)
    ensures
        texts(final(lines)@) == texts(old(lines)@) + texts(more@),
{
    for i in 0..more.len()
        invariant
            texts(lines@) == texts(old(lines)@) + texts(more@).take(i as int),
    {
        assert(texts(more@).take(i + 1) =~= texts(more@).take(i as int).push(more@[i as int]@));
        say(lines, more[i].clone());
        assert(texts(lines@) =~= texts(old(lines)@) + texts(more@).take(i + 1));
    }
    assert(texts(more@).take(more@.len() as int) =~= texts(more@));
}

/// The reason for which a candidate was abandoned, in a word.
pub open spec fn abandoned_word(reason: Abandoned) -> Seq<char> {
    match reason {
        Abandoned::BaseMoved => "BaseMoved"@,
        Abandoned::Interrupted => "Interrupted"@,
    }
}

/// The fault that was found with an entry, in a word.
pub open spec fn fault_word(fault: Fault) -> Seq<char> {
    match fault {
        Fault::Conflict => "Conflict"@,
        Fault::GateFailed => "GateFailed"@,
    }
}

/// What became of a culprit, in a word.
pub open spec fn blame_word(blame: Blame) -> Seq<char> {
    match blame {
        Blame::Requeued => "Requeued"@,
        Blame::Evicted => "Evicted"@,
    }
}

/// Checkouts, one to a line.
pub open spec fn holder_lines(holders: Seq<Seq<char>>) -> Seq<Seq<char>> {
    holders.map_values(|h: Seq<char>| "  "@ + h)
}

/// What a pass of the queue came to, in words.
pub open spec fn outcome_said(outcome: OutcomeView) -> Seq<char> {
    match outcome {
        OutcomeView::Idle => "nothing queued"@,
        OutcomeView::AnotherWorkerHolds { holder_pid } => {
            "another worker holds this branch (pid "@ + integer(holder_pid as int) + ")"@
        },
        OutcomeView::BaseCheckedOut { holders } => joined(
            seq!["refusing to touch the base branch: it is checked out in"@] + holder_lines(holders)
                + seq!["git would move it anyway and leave that checkout inconsistent"@],
            "\n"@,
        ),
        OutcomeView::Landed { candidate, entries, at } => {
            "candidate "@ + integer(candidate as int) + " passed; "@ + decimal(entries as nat)
                + " entr(ies) landed at "@ + at.take(7)
        },
        OutcomeView::Abandoned { candidate, requeued, reason } => {
            "candidate "@ + integer(candidate as int) + " discarded ("@ + abandoned_word(reason)
                + "); "@ + decimal(requeued as nat) + " requeued, no attempts spent"@
        },
        OutcomeView::Blamed { candidate, branch, blame, reason, .. } => {
            "candidate "@ + integer(candidate as int) + " failed: "@ + branch + " "@ + fault_word(
                reason,
            ) + ", "@ + blame_word(blame)
        },
        OutcomeView::Split { failed, next, retrying } => {
            "candidate "@ + integer(failed as int) + " failed; bisecting into candidate "@
                + integer(next as int) + " of "@ + decimal(retrying as nat)
        },
    }
}

/// Say what a pass of the queue came to.
pub fn describe(outcome: &TickOutcome) -> (r: String)
    ensures
        r@ == outcome_said(outcome@),
{
    match outcome {
        TickOutcome::Idle => "nothing queued".to_string(),
        TickOutcome::AnotherWorkerHolds { holder_pid } => {
            let mut r = "another worker holds this branch (pid ".to_string();
            r.append(&text::integer_text(*holder_pid as i64));
            r.append(")");
            r
        },
        TickOutcome::BaseCheckedOut { holders } => describe_holders(holders),
        TickOutcome::Landed { candidate, entries, at } => {
            let mut r = "candidate ".to_string();
            r.append(&text::integer_text(*candidate));
            r.append(" passed; ");
            r.append(&text::decimal_text(*entries as u64));
            r.append(" entr(ies) landed at ");
            r.append(&at.short());
            r
        },
        TickOutcome::Abandoned { candidate, requeued, reason } => {
            let mut r = "candidate ".to_string();
            r.append(&text::integer_text(*candidate));
            r.append(" discarded (");
            r.append(
                match reason {
                    Abandoned::BaseMoved => "BaseMoved",
                    Abandoned::Interrupted => "Interrupted",
                },
            );
            r.append("); ");
            r.append(&text::decimal_text(*requeued as u64));
            r.append(" requeued, no attempts spent");
            r
        },
        TickOutcome::Blamed { candidate, branch, blame, reason, .. } => {
            let mut r = "candidate ".to_string();
            r.append(&text::integer_text(*candidate));
            r.append(" failed: ");
            r.append(branch);
            r.append(" ");
            r.append(
                match reason {
                    Fault::Conflict => "Conflict",
                    Fault::GateFailed => "GateFailed",
                },
            );
            r.append(", ");
            r.append(
                match blame {
                    Blame::Requeued => "Requeued",
                    Blame::Evicted => "Evicted",
                },
            );
            r
        },
        TickOutcome::Split { failed, next, retrying } => {
            let mut r = "candidate ".to_string();
            r.append(&text::integer_text(*failed));
            r.append(" failed; bisecting into candidate ");
            r.append(&text::integer_text(*next));
            r.append(" of ");
            r.append(&text::decimal_text(*retrying as u64));
            r
        },
    }
}

fn describe_holders(holders: &Vec<String>) -> (r: String)
    ensures
        r@ == outcome_said(OutcomeView::BaseCheckedOut { holders: texts(holders@) }),
{
    let first = "refusing to touch the base branch: it is checked out in";
    let last = "git would move it anyway and leave that checkout inconsistent";
    let ghost all = holder_lines(texts(holders@));
    let mut lines: Vec<String> = Vec::new();
    say(&mut lines, first.to_string());
    assert(texts(lines@) =~= seq![first@] + all.take(0));
    for i in 0..holders.len()
        invariant
            all == holder_lines(texts(holders@)),
            texts(lines@) == seq![first@] + all.take(i as int),
    {
        let mut line = "  ".to_string();
        line.append(&holders[i]);
        assert(line@ == all[i as int]);
        say(&mut lines, line);
        assert(texts(lines@) =~= seq![first@] + all.take(i + 1));
    }
    say(&mut lines, last.to_string());
    assert(all.take(all.len() as int) =~= all);
    assert(texts(lines@) =~= seq![first@] + all + seq![last@]);
    text::join(lines.as_slice(), "\n")
}

/// What is said of a hook that failed.
pub open spec fn announcement_said(a: AnnouncementView) -> Seq<char> {
    "  on_settle for "@ + a.settled.branch + " ("@ + a.settled.state.name() + "): "@
        + a.delivery.described()
}

/// What is said of the hooks of a tick: nothing of those that worked.
pub open spec fn announcements_said(list: Seq<AnnouncementView>) -> Seq<Seq<char>>
    decreases list.len(),
{
    if list.len() == 0 {
        Seq::empty()
    } else {
        let rest = announcements_said(list.drop_last());
        if list.last().delivery is Delivered {
            rest
        } else {
            rest.push(announcement_said(list.last()))
        }
    }
}

/// Say which hooks failed. A line each, alongside the outcome and never instead
/// of it.
pub fn failed_hooks(announcements: &Vec<Announcement>) -> (r: Vec<String>)
    ensures
        texts(r@) == announcements_said(announcement_views(announcements@)),
{
    let ghost all = announcement_views(announcements@);
    let mut lines: Vec<String> = Vec::new();
    assert(texts(lines@) =~= Seq::<Seq<char>>::empty());
    for i in 0..announcements.len()
        invariant
            all == announcement_views(announcements@),
            texts(lines@) == announcements_said(all.take(i as int)),
    {
        let a = &announcements[i];
        assert(all.take(i + 1).drop_last() =~= all.take(i as int));
        assert(all.take(i + 1).last() == a@);
        if !a.delivery.delivered() {
            let mut line = "  on_settle for ".to_string();
            line.append(&a.settled.branch);
            line.append(" (");
            line.append(a.settled.state.as_str());
            line.append("): ");
            line.append(&a.delivery.describe());
            say(&mut lines, line);
        }
    }
    assert(all.take(all.len() as int) =~= all);
    lines
}

/// A hook that failed is one line, if its branch has a name of one: no branch of
/// a repository is named otherwise.
pub proof fn a_failed_hook_is_one_line(list: Seq<AnnouncementView>)
    requires
        forall|i: int| 0 <= i < list.len() ==> one_line((#[trigger] list[i]).settled.branch),
    ensures
        announcements_said(list).len() <= list.len(),
        forall|i: int|
            0 <= i < announcements_said(list).len() ==> one_line(
                #[trigger] announcements_said(list)[i],
            ),
    decreases list.len(),
{
    if list.len() > 0 {
        let rest = list.drop_last();
        let last = list[list.len() - 1];
        assert forall|i: int| 0 <= i < rest.len() implies one_line(
            (#[trigger] rest[i]).settled.branch,
        ) by {
            assert(list[i] == rest[i]);
        }
        a_failed_hook_is_one_line(rest);
        a_description_is_one_line(last.delivery);
        reveal_strlit("  on_settle for ");
        reveal_strlit(" (");
        reveal_strlit("): ");
        reveal_strlit("queued");
        reveal_strlit("batched");
        reveal_strlit("merged");
        reveal_strlit("evicted");
        assert(one_line(last.settled.branch));
        assert(one_line(announcement_said(last)));
        assert forall|i: int| 0 <= i < announcements_said(list).len() implies one_line(
            #[trigger] announcements_said(list)[i],
        ) by {
            if i < announcements_said(rest).len() {
                assert(one_line(announcements_said(rest)[i]));
            }
        }
    }
}

/// Whether an outcome is worth a line. A resident worker that says "nothing
/// queued" every interval buries the lines that matter, so an unchanging quiet
/// state is reported once and then left alone. `repeating` is whether the last
/// outcome was quiet; what comes back second is whether this one is.
pub fn worth_saying(outcome: &TickOutcome, repeating: bool) -> (r: (bool, bool))
    ensures
        r.0 == (outcome@.progress() || !repeating),
        r.1 == !outcome@.progress(),
{
    let quiet = !outcome.is_progress();
    (!(quiet && repeating), quiet)
}

/// What a worker did, in words.
pub open spec fn summary_said(s: WorkSummary) -> Seq<char> {
    "stopped after "@ + decimal(s.ticks as nat) + " tick(s): "@ + decimal(s.entries_landed as nat)
        + " landed, "@ + decimal(s.entries_evicted as nat) + " evicted, "@ + decimal(
        s.failures as nat,
    ) + " failed tick(s)"@
}

/// Say what a worker did.
pub fn describe_summary(summary: &WorkSummary) -> (r: String)
    ensures
        r@ == summary_said(*summary),
{
    let mut r = "stopped after ".to_string();
    r.append(&text::decimal_text(summary.ticks as u64));
    r.append(" tick(s): ");
    r.append(&text::decimal_text(summary.entries_landed as u64));
    r.append(" landed, ");
    r.append(&text::decimal_text(summary.entries_evicted as u64));
    r.append(" evicted, ");
    r.append(&text::decimal_text(summary.failures as u64));
    r.append(" failed tick(s)");
    r
}

/// Say why a worker stopped by itself.
pub fn describe_giving_up(failures: usize) -> (r: String)
    ensures
        r@ == "giving up after "@ + decimal(failures as nat) + " consecutive failed ticks"@,
{
    let mut r = "giving up after ".to_string();
    r.append(&text::decimal_text(failures as u64));
    r.append(" consecutive failed ticks");
    r
}

/// A number of seconds, in units that fit it.
pub open spec fn span_said(seconds: nat) -> Seq<char> {
    if seconds < 60 {
        decimal(seconds) + "s"@
    } else if seconds < 3600 {
        decimal(seconds / 60) + "m "@ + decimal(seconds % 60) + "s"@
    } else {
        decimal(seconds / 3600) + "h "@ + decimal((seconds % 3600) / 60) + "m"@
    }
}

/// Say how long a number of seconds is.
pub fn humanise(seconds: u64) -> (r: String)
    ensures
        r@ == span_said(seconds as nat),
{
    if seconds < 60 {
        let mut r = text::decimal_text(seconds);
        r.append("s");
        r
    } else if seconds < 3600 {
        let mut r = text::decimal_text(seconds / 60);
        r.append("m ");
        r.append(&text::decimal_text(seconds % 60));
        r.append("s");
        r
    } else {
        let mut r = text::decimal_text(seconds / 3600);
        r.append("h ");
        r.append(&text::decimal_text((seconds % 3600) / 60));
        r.append("m");
        r
    }
}

/// A base tip, or that there is none to be found: a branch that is gone but still
/// has queue history is exactly what a listing is for.
pub open spec fn tip_said(tip: Option<Seq<char>>) -> Seq<char> {
    match tip {
        Some(tip) => tip.take(7),
        None => "unresolved"@,
    }
}

/// A tip as a text, where there is one.
pub open spec fn tip_view(tip: Option<Sha>) -> Option<Seq<char>> {
    match tip {
        Some(sha) => Some(sha@),
        None => None,
    }
}

fn describe_tip(tip: &Option<Sha>) -> (r: String)
    ensures
        r@ == tip_said(tip_view(*tip)),
{
    match tip {
        Some(sha) => sha.short(),
        None => "unresolved".to_string(),
    }
}

/// What is to be noted of a lease.
pub open spec fn held_notes(held: Held, now: Instant) -> Seq<Seq<char>> {
    let gone = if held.holder_present {
        Seq::empty()
    } else {
        seq!["process gone"@]
    };
    gone.push(
        if held.expired {
            "expired "@ + span_said(held.expires_at@.seconds_until(now) as nat) + " ago"@
        } else {
            "expires in "@ + span_said(now.seconds_until(held.expires_at@) as nat)
        },
    )
}

/// Who works on a branch.
pub open spec fn worker_said(held: Option<Held>, now: Instant) -> Seq<char> {
    match held {
        None => "none"@,
        Some(held) => "pid "@ + integer(held.holder_pid as int) + " ("@ + joined(
            held_notes(held, now),
            ", "@,
        ) + ")"@,
    }
}

fn describe_worker(held: &Option<Held>, now: &Timestamp) -> (r: String)
    ensures
        r@ == worker_said(*held, now@),
{
    match held {
        None => "none".to_string(),
        Some(held) => {
            let mut notes: Vec<String> = Vec::new();
            assert(texts(notes@) =~= Seq::<Seq<char>>::empty());
            if !held.holder_present {
                say(&mut notes, "process gone".to_string());
                assert(texts(notes@) =~= seq!["process gone"@]);
            }
            if held.expired {
                let mut note = "expired ".to_string();
                note.append(&humanise(held.expires_at.seconds_until(now)));
                note.append(" ago");
                say(&mut notes, note);
            } else {
                let mut note = "expires in ".to_string();
                note.append(&humanise(now.seconds_until(&held.expires_at)));
                say(&mut notes, note);
            }
            let mut r = "pid ".to_string();
            r.append(&text::integer_text(held.holder_pid as i64));
            r.append(" (");
            r.append(&text::join(notes.as_slice(), ", "));
            r.append(")");
            r
        },
    }
}

/// What is to be noted of an entry.
pub open spec fn entry_notes(entry: StatusView, budget: Option<u32>) -> Seq<Seq<char>> {
    let tried = if entry.attempts > 0 {
        seq![
            match budget {
                Some(budget) => "attempt "@ + decimal(entry.attempts as nat) + " of "@ + decimal(
                    budget as nat,
                ),
                None => decimal(entry.attempts as nat) + " attempt(s) spent"@,
            },
        ]
    } else {
        Seq::empty()
    };
    match entry.evict_reason {
        Some(reason) => tried.push(reason),
        None => tried,
    }
}

/// An entry in a line.
pub open spec fn entry_said(entry: StatusView, budget: Option<u32>) -> Seq<char> {
    let notes = entry_notes(entry, budget);
    let suffix = if notes.len() == 0 {
        Seq::empty()
    } else {
        "  ("@ + joined(notes, "; "@) + ")"@
    };
    "  #"@ + padded(integer(entry.id as int), 4) + " "@ + padded(entry.state.name(), 10) + " "@
        + padded(entry.branch, 24) + " "@ + entry.branch_sha.take(7) + suffix
}

fn describe_entry(entry: &StatusEntry, budget: Option<u32>) -> (r: String)
    ensures
        r@ == entry_said(entry@, budget),
{
    let mut notes: Vec<String> = Vec::new();
    assert(texts(notes@) =~= Seq::<Seq<char>>::empty());
    if entry.attempts > 0 {
        let note = match budget {
            Some(budget) => {
                let mut note = "attempt ".to_string();
                note.append(&text::decimal_text(entry.attempts as u64));
                note.append(" of ");
                note.append(&text::decimal_text(budget as u64));
                note
            },
            None => {
                let mut note = text::decimal_text(entry.attempts as u64);
                note.append(" attempt(s) spent");
                note
            },
        };
        let ghost said = note@;
        say(&mut notes, note);
        assert(texts(notes@) =~= seq![said]);
    }
    match &entry.evict_reason {
        Some(reason) => say(&mut notes, reason.clone()),
        None => {},
    }
    assert(texts(notes@) == entry_notes(entry@, budget));
    let mut r = "  #".to_string();
    r.append(&text::pad(&text::integer_text(entry.id), 4));
    r.append(" ");
    r.append(&text::pad(entry.state.as_str(), 10));
    r.append(" ");
    r.append(&text::pad(&entry.branch, 24));
    r.append(" ");
    r.append(&entry.branch_sha.short());
    if notes.len() > 0 {
        let mut suffix = "  (".to_string();
        suffix.append(&text::join(notes.as_slice(), "; "));
        suffix.append(")");
        r.append(&suffix);
    } else {
        assert(r@ + Seq::<char>::empty() =~= r@);
    }
    r
}

/// The entries of one part of a queue, under a heading. Nothing is said of a part
/// that has none.
pub open spec fn entries_said(
    heading: Seq<char>,
    entries: Seq<StatusView>,
    budget: Option<u32>,
) -> Seq<Seq<char>> {
    if entries.len() == 0 {
        Seq::empty()
    } else {
        seq![""@, heading + " ("@ + decimal(entries.len()) + ")"@] + Seq::new(
            entries.len(),
            |i: int| entry_said(entries[i], budget),
        )
    }
}

/// Say what is in one part of a queue.
pub fn entry_lines(heading: &str, entries: &Vec<StatusEntry>, budget: Option<u32>) -> (r: Vec<
    String,
>)
    ensures
        texts(r@) == entries_said(heading@, status_views(entries@), budget),
{
    let mut lines: Vec<String> = Vec::new();
    if entries.len() == 0 {
        assert(texts(lines@) =~= Seq::<Seq<char>>::empty());
        return lines;
    }
    let ghost all = Seq::new(entries@.len(), |i: int| entry_said(entries@[i]@, budget));
    let mut head = heading.to_string();
    head.append(" (");
    head.append(&text::decimal_text(entries.len() as u64));
    head.append(")");
    let ghost two = seq![""@, head@];
    say(&mut lines, "".to_string());
    say(&mut lines, head);
    assert(texts(lines@) =~= two + all.take(0));
    for i in 0..entries.len()
        invariant
            all == Seq::new(entries@.len(), |i: int| entry_said(entries@[i]@, budget)),
            texts(lines@) == two + all.take(i as int),
    {
        say(&mut lines, describe_entry(&entries[i], budget));
        assert(texts(lines@) =~= two + all.take(i + 1));
    }
    assert(all.take(all.len() as int) =~= all);
    assert(texts(lines@) =~= entries_said(heading@, status_views(entries@), budget));
    lines
}

/// The candidate in flight, and what is in it.
pub open spec fn candidate_said(candidate: CandidateView) -> Seq<Seq<char>> {
    seq![
        ""@,
        "candidate "@ + integer(candidate.id as int) + " on base "@ + candidate.base_sha.take(7)
            + " ("@ + decimal(candidate.entries.len()) + " entr(ies))"@,
    ] + Seq::new(
        candidate.entries.len(),
        |i: int|
            "  "@ + decimal((i + 1) as nat) + ". "@ + candidate.entries[i].branch + " "@
                + candidate.entries[i].branch_sha.take(7),
    )
}

fn candidate_lines(candidate: &Candidate) -> (r: Vec<String>)
    ensures
        texts(r@) == candidate_said(candidate@),
{
    let ghost all = Seq::new(
        candidate@.entries.len(),
        |i: int|
            "  "@ + decimal((i + 1) as nat) + ". "@ + candidate@.entries[i].branch + " "@
                + candidate@.entries[i].branch_sha.take(7),
    );
    let mut lines: Vec<String> = Vec::new();
    let mut head = "candidate ".to_string();
    head.append(&text::integer_text(candidate.id));
    head.append(" on base ");
    head.append(&candidate.base_sha.short());
    head.append(" (");
    head.append(&text::decimal_text(candidate.entries.len() as u64));
    head.append(" entr(ies))");
    let ghost two = seq![""@, head@];
    say(&mut lines, "".to_string());
    say(&mut lines, head);
    assert(texts(lines@) =~= two + all.take(0));
    for i in 0..candidate.entries.len()
        invariant
            all == Seq::new(
                candidate@.entries.len(),
                |i: int|
                    "  "@ + decimal((i + 1) as nat) + ". "@ + candidate@.entries[i].branch + " "@
                        + candidate@.entries[i].branch_sha.take(7),
            ),
            candidate@.entries.len() == candidate.entries@.len(),
            texts(lines@) == two + all.take(i as int),
    {
        let entry = &candidate.entries[i];
        assert(candidate@.entries[i as int] == entry@);
        let mut line = "  ".to_string();
        line.append(&text::decimal_text((i + 1) as u64));
        line.append(". ");
        line.append(&entry.branch);
        line.append(" ");
        line.append(&entry.branch_sha.short());
        assert(line@ == all[i as int]);
        say(&mut lines, line);
        assert(texts(lines@) =~= two + all.take(i + 1));
    }
    assert(all.take(all.len() as int) =~= all);
    assert(texts(lines@) =~= candidate_said(candidate@));
    lines
}

/// One queue, in full.
pub open spec fn status_said(
    repo: Seq<char>,
    base: Seq<char>,
    tip: Option<Seq<char>>,
    held: Option<Held>,
    budget: Option<u32>,
    snapshot: Snapshot,
    now: Instant,
) -> Seq<Seq<char>> {
    let head = seq![
        "repo    "@ + repo,
        "base    "@ + base + " @ "@ + tip_said(tip),
        "worker  "@ + worker_said(held, now),
    ];
    let active = match snapshot.active {
        Some(candidate) => candidate_said(candidate@),
        None => Seq::empty(),
    };
    head + active + entries_said("queued"@, status_views(snapshot.queued@), budget) + entries_said(
        "in a candidate"@,
        status_views(snapshot.batched@),
        budget,
    ) + entries_said("settled"@, status_views(snapshot.settled@), budget)
}

/// Say how one queue stands: its base tip, who holds the lease and for how long,
/// the candidate in flight, what is waiting, and what recently merged or was
/// evicted and why.
pub fn status_lines(
    repo: &str,
    base: &str,
    tip: &Option<Sha>,
    held: &Option<Held>,
    budget: Option<u32>,
    snapshot: &Snapshot,
    now: &Timestamp,
) -> (r: Vec<String>)
    ensures
        texts(r@) == status_said(repo@, base@, tip_view(*tip), *held, budget, *snapshot, now@),
{
    let mut lines: Vec<String> = Vec::new();
    let mut line = "repo    ".to_string();
    line.append(repo);
    let ghost one = line@;
    say(&mut lines, line);
    let mut line = "base    ".to_string();
    line.append(base);
    line.append(" @ ");
    line.append(&describe_tip(tip));
    let ghost two = line@;
    say(&mut lines, line);
    let mut line = "worker  ".to_string();
    line.append(&describe_worker(held, now));
    let ghost three = line@;
    say(&mut lines, line);
    let ghost head = seq![one, two, three];
    assert(texts(lines@) =~= head);
    match &snapshot.active {
        Some(candidate) => say_all(&mut lines, candidate_lines(candidate)),
        None => {
            assert(head + Seq::<Seq<char>>::empty() =~= head);
        },
    }
    say_all(&mut lines, entry_lines("queued", &snapshot.queued, budget));
    say_all(&mut lines, entry_lines("in a candidate", &snapshot.batched, budget));
    say_all(&mut lines, entry_lines("settled", &snapshot.settled, budget));
    lines
}

/// One queue in a line.
pub open spec fn overview_said(
    base: Seq<char>,
    tip: Option<Seq<char>>,
    held: Option<Held>,
    summary: Summary,
    now: Instant,
) -> Seq<char> {
    base + " @ "@ + tip_said(tip) + "  worker "@ + worker_said(held, now) + "  candidate "@ + (
    match summary.active {
        Some(id) => integer(id as int),
        None => "none"@,
    }) + "  "@ + decimal(summary.queued as nat) + " queued, "@ + decimal(summary.batched as nat)
        + " in a candidate, "@ + decimal(summary.settled as nat) + " settled"@
}

/// Say how one of several queues stands. Counts, so that an empty queue and one
/// with entries waiting do not look alike.
pub fn overview_line(
    base: &str,
    tip: &Option<Sha>,
    held: &Option<Held>,
    summary: &Summary,
    now: &Timestamp,
) -> (r: String)
    ensures
        r@ == overview_said(base@, tip_view(*tip), *held, *summary, now@),
{
    let mut r = base.to_string();
    r.append(" @ ");
    r.append(&describe_tip(tip));
    r.append("  worker ");
    r.append(&describe_worker(held, now));
    r.append("  candidate ");
    match summary.active {
        Some(id) => r.append(&text::integer_text(id)),
        None => r.append("none"),
    }
    r.append("  ");
    r.append(&text::decimal_text(summary.queued as u64));
    r.append(" queued, ");
    r.append(&text::decimal_text(summary.batched as u64));
    r.append(" in a candidate, ");
    r.append(&text::decimal_text(summary.settled as u64));
    r.append(" settled");
    r
}

/// The attempts that an entry has by the configuration in a text, if there is one
/// that can be used. A listing still works when it cannot be read.
pub fn gate_budget(source: &Option<String>) -> (r: Option<u32>)
    ensures
        match *source {
            None => r is None,
            Some(source) => exists|given: Result<Config, crate::config::ConfigError>|
                {
                    &&& #[trigger] crate::tick::config_gives(source@, given)
                    &&& r == (match given {
                        Ok(config) => Some(config.max_attempts),
                        Err(_) => None,
                    })
                },
        },
{
    match source {
        None => None,
        Some(source) => {
            let given = Config::parse(source);
            assert(crate::tick::config_gives(source@, given));
            match given {
                Ok(config) => Some(config.max_attempts),
                Err(_) => None,
            }
        },
    }
}

/// A gate run in a line: how it ended, and whether its log is still there.
pub open spec fn run_said(run: RunRecord) -> Seq<char> {
    let verdict = match run.exit_code {
        Some(code) => if code == 0 {
            "passed"@
        } else {
            "failed (exit "@ + integer(code as int) + ")"@
        },
        None => "failed (signal)"@,
    };
    let log = match run.log_path {
        Some(path) => path,
        None => if run.tail is Some {
            "log pruned, tail kept"@
        } else {
            "log pruned"@
        },
    };
    "run "@ + integer(run.id as int) + "  candidate "@ + integer(run.candidate_id as int) + "  "@
        + verdict + "  "@ + run.started_at + "  "@ + log
}

fn describe_run(run: &RunRow) -> (r: String)
    ensures
        r@ == run_said(run@),
{
    let mut r = "run ".to_string();
    r.append(&text::integer_text(run.id));
    r.append("  candidate ");
    r.append(&text::integer_text(run.candidate_id));
    r.append("  ");
    match run.exit_code {
        Some(code) => {
            if code == 0 {
                r.append("passed");
            } else {
                let mut verdict = "failed (exit ".to_string();
                verdict.append(&text::integer_text(code as i64));
                verdict.append(")");
                r.append(&verdict);
            }
        },
        None => r.append("failed (signal)"),
    }
    r.append("  ");
    r.append(&run.started_at);
    r.append("  ");
    match &run.log_path {
        Some(path) => r.append(path),
        None => {
            if run.tail.is_some() {
                r.append("log pruned, tail kept");
            } else {
                r.append("log pruned");
            }
        },
    }
    r
}

/// The run is of a queue, and of one candidate where one is asked for.
pub open spec fn is_of(
    q: Ledger,
    run: RunRecord,
    repo: Seq<char>,
    base: Seq<char>,
    wanted: Option<i64>,
) -> bool {
    &&& wanted matches Some(id) ==> run.candidate_id == id
    &&& exists|i: int|
        0 <= i < q.candidates.len() && (#[trigger] q.candidates[i]).id == run.candidate_id
            && q.candidates[i].in_queue(repo, base)
}

/// The merge gate runs of a queue, in lines, oldest first.
pub open spec fn runs_said(
    q: Ledger,
    runs: Seq<RunRecord>,
    repo: Seq<char>,
    base: Seq<char>,
    wanted: Option<i64>,
) -> Seq<Seq<char>>
    decreases runs.len(),
{
    if runs.len() == 0 {
        Seq::empty()
    } else {
        let rest = runs_said(q, runs.drop_last(), repo, base, wanted);
        if is_of(q, runs.last(), repo, base, wanted) {
            rest.push(run_said(runs.last()))
        } else {
            rest
        }
    }
}

fn is_run_of(
    candidates: &Vec<CandidateRow>,
    run: &RunRow,
    repo: &str,
    base: &str,
    wanted: Option<i64>,
    Ghost(q): Ghost<Ledger>,
) -> (r: bool)
    requires
        candidate_records(candidates@) == q.candidates,
    ensures
        r == is_of(q, run@, repo@, base@, wanted),
{
    match wanted {
        Some(id) => {
            if run.candidate_id != id {
                return false;
            }
        },
        None => {},
    }
    for i in 0..candidates.len()
        invariant
            candidate_records(candidates@) == q.candidates,
            wanted matches Some(id) ==> run.candidate_id == id,
            forall|j: int|
                0 <= j < i ==> !((#[trigger] q.candidates[j]).id == run@.candidate_id
                    && q.candidates[j].in_queue(repo@, base@)),
    {
        let row = &candidates[i];
        assert(q.candidates[i as int] == row@);
        if row.id == run.candidate_id && text::same(&row.repo_path, repo) && text::same(
            &row.base_branch,
            base,
        ) {
            return true;
        }
    }
    false
}

/// Say how the merge gate runs of a queue ended, or those of one candidate in it.
pub fn run_lines(store: &Store, repo: &str, base: &str, wanted: Option<i64>) -> (r: Vec<String>)
    ensures
        texts(r@) == runs_said(store@, store@.runs, repo@, base@, wanted),
{
    let candidates = store.candidates();
    let runs = store.runs();
    let ghost all = store@.runs;
    let mut lines: Vec<String> = Vec::new();
    assert(texts(lines@) =~= Seq::<Seq<char>>::empty());
    for i in 0..runs.len()
        invariant
            candidate_records(candidates@) == store@.candidates,
            run_records(runs@) == all,
            texts(lines@) == runs_said(store@, all.take(i as int), repo@, base@, wanted),
    {
        let run = &runs[i];
        assert(all.take(i + 1).drop_last() =~= all.take(i as int));
        assert(all.take(i + 1).last() == run@);
        if is_run_of(candidates, run, repo, base, wanted, Ghost(store@)) {
            say(&mut lines, describe_run(run));
        }
    }
    assert(all.take(all.len() as int) =~= all);
    lines
}

/// What is left of the log of a run.
#[derive(Debug, PartialEq, Eq)]
pub enum Remains {
    /// The log is still there.
    Log { path: String },
    /// The log has gone, and these are its last lines.
    Tail { text: String },
    /// The log has gone, and nothing of it was kept.
    Nothing,
}

/// What is left of the log of a run, over texts.
pub open spec fn remains_of(run: RunRecord, r: Remains) -> bool {
    match run.log_path {
        Some(path) => r matches Remains::Log { path: given } && given@ == path,
        None => match run.tail {
            Some(tail) => r matches Remains::Tail { text } && text@ == tail,
            None => r is Nothing,
        },
    }
}

/// What is left of the log of a candidate's last gate run, if it has been gated.
pub fn last_log(store: &Store, repo: &str, base: &str, candidate: i64) -> (r: Option<Remains>)
    ensures
        match r {
            None => forall|i: int|
                0 <= i < store@.runs.len() ==> !is_of(
                    store@,
                    #[trigger] store@.runs[i],
                    repo@,
                    base@,
                    Some(candidate),
                ),
            Some(remains) => exists|i: int|
                {
                    &&& 0 <= i < store@.runs.len()
                    &&& is_of(store@, #[trigger] store@.runs[i], repo@, base@, Some(candidate))
                    &&& forall|j: int|
                        i < j < store@.runs.len() ==> !is_of(
                            store@,
                            #[trigger] store@.runs[j],
                            repo@,
                            base@,
                            Some(candidate),
                        )
                    &&& remains_of(store@.runs[i], remains)
                },
        },
        r is None ==> forall|i: int|
            0 <= i < store@.runs.len() && (#[trigger] store@.runs[i]).candidate_id == candidate
                ==> !is_of(store@, store@.runs[i], repo@, base@, None),
        r matches Some(remains) ==> exists|i: int|
            {
                &&& 0 <= i < store@.runs.len()
                &&& (#[trigger] store@.runs[i]).candidate_id == candidate
                &&& is_of(store@, store@.runs[i], repo@, base@, None)
                &&& forall|j: int|
                    i < j < store@.runs.len() && (#[trigger] store@.runs[j]).candidate_id
                        == candidate ==> !is_of(store@, store@.runs[j], repo@, base@, None)
                &&& remains_of(store@.runs[i], remains)
            },
{
    let candidates = store.candidates();
    let runs = store.runs();
    let mut at: usize = runs.len();
    while at > 0
        invariant
            at <= runs@.len(),
            candidate_records(candidates@) == store@.candidates,
            run_records(runs@) == store@.runs,
            forall|j: int|
                at <= j < store@.runs.len() ==> !is_of(
                    store@,
                    #[trigger] store@.runs[j],
                    repo@,
                    base@,
                    Some(candidate),
                ),
        decreases at,
    {
        at = at - 1;
        let run = &runs[at];
        assert(store@.runs[at as int] == run@);
        if is_run_of(candidates, run, repo, base, Some(candidate), Ghost(store@)) {
            return Some(
                match &run.log_path {
                    Some(path) => Remains::Log { path: path.clone() },
                    None => match &run.tail {
                        Some(tail) => Remains::Tail { text: tail.clone() },
                        None => Remains::Nothing,
                    },
                },
            );
        }
    }
    None
}

} // verus!
