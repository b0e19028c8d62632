use sasse::bytes::ByteSize;
use sasse::logs::{plan, tail, tail_text, total_bytes, Because, LogFile, Plan, TailReader};

fn log(run_id: i64, bytes: u64, passed: bool) -> LogFile {
    LogFile {
        run_id,
        candidate_id: run_id,
        path: format!("/logs/candidate-{run_id}.log"),
        bytes,
        passed,
    }
}

fn removed(plan: &Plan) -> Vec<i64> {
    plan.remove.iter().map(|r| r.log.run_id).collect()
}

#[test]
fn nothing_to_do_when_there_are_no_logs() {
    let plan = plan(Vec::new(), ByteSize::new(100));
    assert!(plan.is_empty());
    assert_eq!(plan.bytes_before, 0);
    assert_eq!(plan.bytes_after, 0);
}

/// A green gate log has no readers, so it goes whether or not the directory is
/// anywhere near its budget.
#[test]
fn a_passing_log_goes_even_when_there_is_room_to_spare() {
    let plan = plan(vec![log(1, 10, true)], ByteSize::new(1_000_000));

    assert_eq!(removed(&plan), vec![1]);
    assert_eq!(plan.remove[0].because, Because::NothingToExplain);
    assert_eq!(plan.bytes_after, 0);
}

#[test]
fn a_failing_log_stays_while_there_is_room() {
    let plan = plan(vec![log(1, 10, false)], ByteSize::new(1_000_000));
    assert!(plan.is_empty());
    assert_eq!(plan.bytes_after, 10);
}

#[test]
fn failures_go_oldest_first_and_only_while_over_budget() {
    let plan = plan(
        vec![
            log(3, 100, false),
            log(1, 100, false),
            log(2, 100, false),
            log(4, 100, false),
        ],
        ByteSize::new(250),
    );

    assert_eq!(
        removed(&plan),
        vec![1, 2],
        "two of the four had to go, and they were the oldest two"
    );
    assert_eq!(plan.bytes_after, 200);
    assert!(plan.remove.iter().all(|r| r.because == Because::OverBudget));
}

/// Clearing the passes may be enough on its own, in which case no failure needs
/// to be touched.
#[test]
fn clearing_the_passes_can_be_enough() {
    let plan = plan(
        vec![log(1, 900, true), log(2, 50, false), log(3, 50, false)],
        ByteSize::new(200),
    );

    assert_eq!(removed(&plan), vec![1]);
    assert_eq!(plan.bytes_after, 100);
}

#[test]
fn the_plan_reports_the_size_before_and_after() {
    let plan = plan(
        vec![log(1, 500, true), log(2, 500, false)],
        ByteSize::new(400),
    );
    assert_eq!(plan.bytes_before, 1000);
    assert_eq!(plan.bytes_after, 0);
    assert_eq!(plan.bytes_freed(), 1000);
}

/// Removing the last failure's file is not losing the failure: its last lines are
/// kept on the row before the file goes. That is precisely what lets the budget be
/// a ceiling instead of a preference.
#[test]
fn the_last_failure_is_removed_rather_than_the_budget_being_broken() {
    let plan = plan(vec![log(1, 5000, false)], ByteSize::new(100));

    assert_eq!(removed(&plan), vec![1]);
    assert_eq!(plan.remove[0].because, Because::OverBudget);
    assert_eq!(plan.bytes_after, 0);
}

/// The whole promise of the chosen policy, asserted directly: whatever it is
/// given, the plan brings the directory inside its budget.
#[test]
fn the_budget_is_always_met_whatever_the_mix() {
    let sizes = [1u64, 7, 100, 999, 4096];
    let budgets = [0u64, 1, 50, 300, 10_000];

    for budget in budgets {
        for pattern in 0..32u32 {
            let logs: Vec<LogFile> = sizes
                .iter()
                .enumerate()
                .map(|(n, bytes)| log(n as i64 + 1, *bytes, pattern & (1 << n) != 0))
                .collect();

            let outcome = plan(logs, ByteSize::new(budget));
            assert!(
                outcome.bytes_after <= budget,
                "budget {budget} with pattern {pattern:05b} left {} bytes",
                outcome.bytes_after
            );
        }
    }
}

#[test]
fn a_tail_is_read_without_the_rest_of_the_file() {
    let body: String = (1..=5000).map(|n| format!("line {n}\n")).collect();

    let last = tail(body.as_bytes(), 3);
    assert_eq!(last, vec!["line 4998", "line 4999", "line 5000"]);
}

#[test]
fn a_tail_of_a_short_file_is_the_whole_file() {
    assert_eq!(tail(b"one\ntwo\n", 40), vec!["one", "two"]);
}

/// Gate output is whatever the merge gate printed, which may not be valid UTF-8.
#[test]
fn invalid_utf8_is_shown_approximately_rather_than_refused() {
    let last = tail(&[b'o', b'k', 0xff, b'\n'], 10);
    assert_eq!(last.len(), 1);
    assert!(last[0].starts_with("ok"), "got {:?}", last[0]);
    assert_eq!(last[0], "ok\u{fffd}");
}

#[test]
fn a_tail_reads_the_same_whatever_the_pieces() {
    let body = b"one\ntwo\nthree";
    for size in 1..body.len() {
        let mut reader = TailReader::new(2);
        for piece in body.chunks(size) {
            reader.feed(piece);
        }
        assert_eq!(reader.finish(), vec!["two", "three"]);
    }
    let mut reader = TailReader::new(2);
    reader.feed(body);
    assert_eq!(reader.finish_text(), "two\nthree");
    assert_eq!(tail_text(body, 2), "two\nthree");
    assert!(tail(body, 0).is_empty());
    assert!(tail(b"", 3).is_empty());
}

#[test]
fn logs_that_cannot_be_counted_are_noticed() {
    assert_eq!(total_bytes(&vec![log(1, 3, true), log(2, 4, false)]), Some(7));
    assert_eq!(
        total_bytes(&vec![log(1, u64::MAX, true), log(2, 1, false)]),
        None
    );
}
