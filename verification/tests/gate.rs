use sasse::bytes::ByteSize;
use sasse::failure::Failure;
use sasse::gate::{
    script, Capped, Exit, GateAction, GateEvent, ShellGate, Verdict, CANDIDATE_VARIABLE,
    MARKER_ALLOWANCE,
};
use sasse::git::Sha;

fn generous() -> ByteSize {
    ByteSize::new(1024 * 1024)
}

fn candidate() -> Sha {
    Sha::parse(&"ab".repeat(20)).unwrap()
}

/// A shell that writes this and ends so. What comes back is the verdict and the
/// log.
fn run(command: &str, output: &[u8], exit: Exit, cap: ByteSize) -> (Verdict, Vec<u8>) {
    let (mut run, first) = ShellGate::new("/integration").start(
        command,
        &candidate(),
        "/logs/run.log",
        cap,
    );
    let mut action = first;
    let mut pieces = output.chunks(4096);
    let mut log = Vec::new();
    loop {
        let event = match action {
            GateAction::OpenLog { path } => {
                assert_eq!(path, "/logs/run.log");
                GateEvent::Done(Ok(()))
            }
            GateAction::Spawn {
                script: given,
                directory,
                candidate: id,
            } => {
                assert_eq!(given, script(command));
                assert_eq!(directory, "/integration");
                assert_eq!(id, candidate().as_str());
                GateEvent::Done(Ok(()))
            }
            GateAction::Read => GateEvent::Chunk(Ok(pieces.next().unwrap_or(&[]).to_vec())),
            GateAction::Write { bytes } => {
                log.extend(bytes);
                GateEvent::Done(Ok(()))
            }
            GateAction::Wait => GateEvent::Ended(Ok(exit)),
            GateAction::Finish => return (run.into_result().unwrap().unwrap(), log),
        };
        action = run.next(event);
    }
}

fn exit(code: i32) -> Exit {
    Exit {
        success: code == 0,
        code: Some(code),
    }
}

fn lines(n: u32) -> Vec<u8> {
    (1..=n)
        .map(|i| format!("L{i:05}\n"))
        .collect::<String>()
        .into_bytes()
}

#[test]
fn a_succeeding_command_passes() {
    let (verdict, _) = run("true", b"", exit(0), generous());
    assert_eq!(verdict, Verdict::Passed);
    assert!(verdict.passed());
    assert_eq!(verdict.exit_code(), Some(0));
}

#[test]
fn a_failing_command_reports_its_exit_code() {
    let (verdict, _) = run("exit 3", b"", exit(3), generous());
    assert_eq!(verdict, Verdict::Failed { exit_code: Some(3) });
    assert_eq!(verdict.exit_code(), Some(3));
}

/// Under the cap, the log must be exactly what was written.
#[test]
fn a_log_within_the_cap_is_untouched() {
    let (_, log) = run("printf 'hello\\n'", b"hello\n", exit(0), generous());
    let log = String::from_utf8(log).unwrap();
    assert_eq!(log, "hello\n");
    assert!(
        !log.contains("sasse dropped"),
        "nothing was dropped, so nothing should say so"
    );
}

#[test]
fn a_log_over_the_cap_keeps_its_head_and_its_tail() {
    // 20,000 lines of seven bytes each, far past a 4KB cap.
    let (_, log) = run("seq", &lines(20000), exit(0), ByteSize::new(4096));

    let kept = String::from_utf8_lossy(&log).into_owned();
    assert!(kept.contains("L00001"), "the head is missing");
    assert!(kept.contains("L20000"), "the tail is missing");
    assert!(
        !kept.contains("L10000"),
        "the middle should have gone, not been kept"
    );
    assert!(
        kept.contains("sasse dropped"),
        "a truncated log must say so: {}",
        &kept[..kept.len().min(200)]
    );
}

/// The cap is the point, so it has to actually hold.
#[test]
fn a_capped_log_stays_near_the_cap_however_much_is_written() {
    let cap = ByteSize::new(4096);
    let (_, log) = run("seq", &lines(50000), exit(0), cap);

    let size = log.len() as u64;
    let marker_allowance = 128;
    assert!(
        size <= cap.bytes() + marker_allowance,
        "log grew to {size} bytes against a cap of {}",
        cap.to_text()
    );
}

/// A gate whose whole output is one enormous line must still be bounded, which is
/// why the cap is in bytes rather than lines.
#[test]
fn a_single_enormous_line_is_still_capped() {
    let cap = ByteSize::new(2048);
    let (_, log) = run("printf", &vec![b'x'; 200_000], exit(0), cap);
    let size = log.len() as u64;
    assert!(size <= cap.bytes() + 128, "one line grew to {size} bytes");
}

#[test]
fn a_verdict_is_unaffected_by_truncation() {
    let noise = b"noise\n".repeat(5000);
    let (verdict, _) = run("noise; exit 7", &noise, exit(7), ByteSize::new(1024));
    assert_eq!(verdict, Verdict::Failed { exit_code: Some(7) });
}

#[test]
fn the_middle_of_a_log_is_what_goes() {
    let mut capped = Capped::new(ByteSize::new(8));
    let mut log = capped.take(b"abcdefghij");
    log.extend(capped.take(b"klm"));
    log.extend(capped.finish());
    let log = String::from_utf8(log).unwrap();
    assert!(log.starts_with("abcd"), "got {log:?}");
    assert!(log.ends_with("jklm"), "got {log:?}");
    assert!(log.contains("sasse dropped 5 bytes"), "got {log:?}");
}

#[test]
fn a_nonsensically_small_cap_still_keeps_both_ends() {
    let mut capped = Capped::new(ByteSize::new(0));
    let mut log = capped.take(b"abc");
    log.extend(capped.finish());
    let log = String::from_utf8(log).unwrap();
    assert!(log.starts_with('a') && log.ends_with('c'), "got {log:?}");
}

/// Each thing that can go wrong, by how far it gets first.
#[test]
fn a_step_that_fails_ends_the_run_and_says_what_it_was() {
    let broken = || Failure::new("broken");
    for (steps, expected) in [
        (0, format!("creating the {} log /logs/run.log: broken", "gate")),
        (1, format!("running the {}: make: broken", "gate")),
        (2, format!("reading the {}'s output: broken", "gate")),
        (3, format!("writing the {} log /logs/run.log: broken", "gate")),
        (5, format!("finishing the {} log /logs/run.log: broken", "gate")),
        (6, format!("waiting for the {}: broken", "gate")),
    ] {
        let (mut run, first) = ShellGate::new("/integration").start(
            "make",
            &candidate(),
            "/logs/run.log",
            generous(),
        );
        let mut action = first;
        let mut read = 0;
        for _ in 0..steps {
            let event = match action {
                GateAction::Read => {
                    read += 1;
                    GateEvent::Chunk(Ok(if read == 1 { b"x".to_vec() } else { Vec::new() }))
                }
                GateAction::Wait => panic!("too far"),
                _ => GateEvent::Done(Ok(())),
            };
            action = run.next(event);
        }
        let event = match action {
            GateAction::Read => GateEvent::Chunk(Err(broken())),
            GateAction::Wait => GateEvent::Ended(Err(broken())),
            _ => GateEvent::Done(Err(broken())),
        };
        assert_eq!(run.next(event), GateAction::Finish);
        assert_eq!(
            run.into_result().unwrap().unwrap_err().message,
            expected,
            "after {steps} step(s)"
        );
    }
}

#[test]
fn both_streams_go_to_one() {
    assert_eq!(script("make"), "exec 2>&1\nmake");
    assert_eq!(CANDIDATE_VARIABLE, "SASSE_CANDIDATE");
}

/// Three bytes are not past a cap of three.
#[test]
fn a_log_exactly_at_its_cap_is_untouched() {
    for (output, cap) in [("abc", 3), ("ab", 2), ("a", 1), ("", 0), ("abcdefg", 7)] {
        let (verdict, log) = run("printf", output.as_bytes(), exit(0), ByteSize::new(cap));
        assert_eq!(verdict, Verdict::Passed);
        assert_eq!(log, output.as_bytes(), "under a cap of {cap}");
    }
}

#[test]
fn an_odd_cap_gives_its_odd_byte_to_the_head() {
    let (_, log) = run("printf", b"abcdefgh", exit(0), ByteSize::new(5));
    assert_eq!(
        String::from_utf8(log).unwrap(),
        "abc\n[sasse dropped 3 bytes from the middle of this log]\ngh"
    );
}

#[test]
fn a_log_directory_that_cannot_be_made_says_so() {
    let (mut run, _) = ShellGate::new("/integration").start(
        "make",
        &candidate(),
        "/logs/run.log",
        generous(),
    );
    let event = GateEvent::NoDirectory {
        directory: "/logs".to_string(),
        why: Failure::new("read-only"),
    };
    assert_eq!(run.next(event), GateAction::Finish);
    assert_eq!(
        run.into_result().unwrap().unwrap_err().message,
        "creating the log directory /logs: read-only"
    );
}

/// The longest line that can say how much went is within what is allowed.
#[test]
fn the_marker_stays_within_its_allowance() {
    let marker = |n: u64| format!("\n[sasse dropped {n} bytes from the middle of this log]\n");
    assert_eq!(MARKER_ALLOWANCE, 128);
    assert!(marker(u64::MAX).len() as u64 <= MARKER_ALLOWANCE);
    let (_, log) = run("printf", &[b'x'; 1000], exit(0), ByteSize::new(10));
    assert_eq!(log.len(), 10 + marker(990).len());
}
