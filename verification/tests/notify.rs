use sasse::failure::Failure;
use sasse::gate::Exit;
use sasse::notify::{
    environment, Delivery, HookAction, HookEvent, HookRun, Notifier, ShellNotifier, Silent,
    POLL_MILLISECONDS, TIMEOUT_SECONDS,
};
use sasse::queue::store::Settled;
use sasse::queue::EntryState;
use sasse::time::Span;
use sasse::worker::Fault;

fn merged() -> Settled {
    Settled {
        entry: 7,
        branch: "feat/x".into(),
        state: EntryState::Merged,
        attempts: 0,
        reason: None,
    }
}

fn evicted() -> Settled {
    Settled {
        entry: 9,
        branch: "feat/bad".into(),
        state: EntryState::Evicted,
        attempts: 3,
        reason: Some(Fault::GateFailed.description()),
    }
}

fn millis(n: u32) -> Span {
    Span {
        secs: u64::from(n / 1000),
        nanos: n % 1000 * 1_000_000,
    }
}

fn here() -> ShellNotifier {
    ShellNotifier::new("/repo")
}

/// A hook that ends so after so many looks, writing this.
fn run(notifier: &ShellNotifier, command: &str, looks: u32, exit: Exit, output: &str) -> Delivery {
    let (mut run, first) = notifier.start(command, &merged(), "/repo", "main");
    let mut action = first;
    let mut looked = 0;
    loop {
        let event = match action {
            HookAction::Spawn { .. } => HookEvent::Started(Ok(())),
            HookAction::Poll => {
                looked += 1;
                HookEvent::Seen {
                    ended: Ok(if looked > looks { Some(exit) } else { None }),
                    elapsed: millis(looked * 25),
                }
            }
            HookAction::Sleep { milliseconds } => {
                assert_eq!(milliseconds, POLL_MILLISECONDS);
                HookEvent::Rested
            }
            HookAction::Kill => HookEvent::Killed,
            HookAction::Collect => HookEvent::Collected(output.to_string()),
            HookAction::Finish => return run.into_delivery().expect("it is over"),
        };
        action = run.next(event);
    }
}

fn exit(code: i32) -> Exit {
    Exit {
        success: code == 0,
        code: Some(code),
    }
}

fn spawned(action: HookAction) -> (String, String, Vec<(String, String)>) {
    match action {
        HookAction::Spawn {
            script,
            directory,
            environment,
        } => (script, directory, environment),
        other => panic!("expected a shell to be started, got {other:?}"),
    }
}

#[test]
fn a_working_hook_delivers() {
    assert_eq!(run(&here(), "true", 2, exit(0), ""), Delivery::Delivered);
}

#[test]
fn a_failing_hook_reports_its_code_and_output() {
    let delivery = run(
        &here(),
        "echo went wrong; exit 4",
        0,
        exit(4),
        "went wrong\n",
    );
    match &delivery {
        Delivery::Failed { exit_code, output } => {
            assert_eq!(*exit_code, Some(4));
            assert!(output.contains("went wrong"), "got {output:?}");
        }
        other => panic!("expected a failure, got {other:?}"),
    }
    assert!(delivery.describe().contains("went wrong"));
    assert_eq!(delivery.describe(), "exited 4: went wrong");
}

/// The important half of the failure handling: a hook that never exits must not
/// hold the tick open.
#[test]
fn a_hanging_hook_is_killed_at_the_deadline() {
    let notifier = here().with_timeout(millis(200));
    let delivery = run(&notifier, "sleep 30", 1_000_000, exit(0), "");
    assert_eq!(delivery, Delivery::TimedOut);
}

fn looking(run: &mut HookRun) {
    assert_eq!(run.next(HookEvent::Started(Ok(()))), HookAction::Poll);
}

#[test]
fn a_hook_is_left_alone_until_its_deadline() {
    let seen = |elapsed| HookEvent::Seen {
        ended: Ok(None),
        elapsed,
    };
    let (mut run, _) = here().start("sleep 30", &merged(), "/repo", "main");
    looking(&mut run);
    assert_eq!(
        run.next(seen(Span {
            secs: TIMEOUT_SECONDS - 1,
            nanos: 999_999_999
        })),
        HookAction::Sleep { milliseconds: 25 }
    );
    assert_eq!(run.next(HookEvent::Rested), HookAction::Poll);
    assert_eq!(
        run.next(seen(Span::from_secs(TIMEOUT_SECONDS))),
        HookAction::Kill
    );
    assert_eq!(run.next(HookEvent::Killed), HookAction::Finish);
    let delivery = run.into_delivery().unwrap();
    assert_eq!(delivery, Delivery::TimedOut);
    assert_eq!(delivery.describe(), "still running after 10s, killed");
}

#[test]
fn the_entry_is_described_in_the_environment() {
    let (script, directory, variables) =
        spawned(here().start("true", &evicted(), "/repo", "release").1);
    assert_eq!(directory, "/repo");
    assert!(script.ends_with("true"));

    let get = |name: &str| {
        variables
            .iter()
            .find(|(key, _)| key == name)
            .map(|(_, value)| value.clone())
            .unwrap()
    };
    let recorded = format!(
        "{}|{}|{}|{}|{}|{}",
        get("SASSE_BRANCH"),
        get("SASSE_OUTCOME"),
        get("SASSE_ENTRY"),
        get("SASSE_ATTEMPTS"),
        get("SASSE_REASON"),
        get("SASSE_BASE")
    );
    assert_eq!(
        recorded,
        format!(
            "feat/bad|evicted|9|3|failed the {} on its own|release",
            "gate"
        )
    );
    assert_eq!(get("SASSE_REPO"), "/repo");
}

#[test]
fn a_merged_entry_carries_an_empty_reason() {
    let variables = environment(&merged(), "/repo", "main");
    assert!(variables.contains(&("SASSE_OUTCOME".to_string(), "merged".to_string())));
    assert!(variables.contains(&("SASSE_REASON".to_string(), String::new())));
}

#[test]
fn a_hook_that_cannot_run_is_reported_rather_than_raised() {
    let notifier = ShellNotifier::new("/definitely/not/a/directory");
    let (mut run, action) = notifier.start("true", &merged(), "/repo", "main");
    let (_, directory, _) = spawned(action);
    assert_eq!(directory, "/definitely/not/a/directory");
    let failure = Failure::new("No such file or directory (os error 2)");
    assert_eq!(run.next(HookEvent::Started(Err(failure))), HookAction::Finish);
    let delivery = run.into_delivery().unwrap();

    assert!(
        matches!(delivery, Delivery::Unrunnable(_)),
        "got {delivery:?}"
    );
    assert!(delivery.describe().contains("could not be started"));
}

#[test]
fn a_hook_killed_by_a_signal_says_so() {
    let killed = Exit {
        success: false,
        code: None,
    };
    let delivery = run(&here(), "kill -9 $$", 0, killed, "  \n");
    assert_eq!(delivery.describe(), "exited signal with no output");
    assert!(!delivery.delivered());
}

#[test]
fn the_silent_notifier_runs_nothing_and_says_so() {
    assert!(Silent
        .settled("true", &merged(), "/repo", "main")
        .delivered());
}

/// One line, for a tick to report, however many the hook wrote.
#[test]
fn a_description_is_one_line_whatever_was_written() {
    let delivery = run(&here(), "x", 0, exit(4), "went wrong\r\nbadly\n\nvery\n");
    assert_eq!(delivery.describe(), "exited 4: went wrong badly  very");
    let unrunnable = Delivery::Unrunnable("no\nshell".to_string());
    assert_eq!(unrunnable.describe(), "could not be started: no shell");
}

#[test]
fn a_hook_that_cannot_start_says_what_was_being_done() {
    let (mut run, _) = here().start("true", &merged(), "/repo", "main");
    run.next(HookEvent::Started(Err(Failure::new("no such directory"))));
    assert_eq!(
        run.into_delivery(),
        Some(Delivery::Unrunnable(
            "starting the on_settle hook".to_string()
        ))
    );
}

/// A shell that has ended may leave something running that still holds its
/// output. That is not waited for past the deadline either.
#[test]
fn what_a_hook_leaves_running_is_killed_at_the_deadline() {
    let notifier = here().with_timeout(millis(200));
    let (mut run, _) = notifier.start("sleep 30 &", &merged(), "/repo", "main");
    looking(&mut run);
    let ended = HookEvent::Seen {
        ended: Ok(Some(exit(0))),
        elapsed: millis(1),
    };
    assert_eq!(run.next(ended), HookAction::Collect);
    let unended = |n| HookEvent::Unended { elapsed: millis(n) };
    assert_eq!(
        run.next(unended(199)),
        HookAction::Sleep { milliseconds: 25 }
    );
    assert_eq!(run.next(HookEvent::Rested), HookAction::Collect);
    assert_eq!(run.next(unended(200)), HookAction::Kill);
    assert_eq!(run.next(HookEvent::Killed), HookAction::Finish);
    assert_eq!(run.into_delivery(), Some(Delivery::TimedOut));
}

/// Output that ends late, but in time, is judged by how the shell ended.
#[test]
fn output_that_ends_in_time_is_collected() {
    let (mut run, _) = here().start("x", &merged(), "/repo", "main");
    looking(&mut run);
    run.next(HookEvent::Seen {
        ended: Ok(Some(exit(3))),
        elapsed: millis(1),
    });
    run.next(HookEvent::Unended { elapsed: millis(50) });
    run.next(HookEvent::Rested);
    let done = run.next(HookEvent::Collected("late".to_string()));
    assert_eq!(done, HookAction::Finish);
    assert_eq!(
        run.into_delivery(),
        Some(Delivery::Failed {
            exit_code: Some(3),
            output: "late".to_string()
        })
    );
}

/// What the shell left running holds its output for as long as it would run. It
/// is killed at the deadline, whether the shell waits for it or not.
#[test]
fn a_hook_whose_child_outlives_the_shell_is_still_killed() {
    let notifier = here().with_timeout(millis(200));
    for (command, waits) in [("sleep 30 & wait", true), ("sleep 30 &", false)] {
        let (mut run, first) = notifier.start(command, &merged(), "/repo", "main");
        let mut action = first;
        let mut clock = 0;
        let delivery = loop {
            let event = match action {
                HookAction::Spawn { .. } => HookEvent::Started(Ok(())),
                HookAction::Poll => HookEvent::Seen {
                    ended: Ok(if waits { None } else { Some(exit(0)) }),
                    elapsed: millis(clock),
                },
                HookAction::Sleep { milliseconds } => {
                    clock += milliseconds as u32;
                    HookEvent::Rested
                }
                HookAction::Collect => HookEvent::Unended {
                    elapsed: millis(clock),
                },
                HookAction::Kill => HookEvent::Killed,
                HookAction::Finish => break run.into_delivery().expect("it is over"),
            };
            action = run.next(event);
        };
        assert_eq!(delivery, Delivery::TimedOut, "{command}");
        assert_eq!(clock, 200, "{command}");
    }
}
