use std::cell::RefCell;
use std::collections::{HashMap, HashSet};

use sasse::failure::Failure;
use sasse::git::command::{
    ambient_repository, parse_worktrees, qualify, Invocation, Output, Step,
};
use sasse::git::{
    checkouts_holding, holding, normalise_ref, CommandGit, Git, MergeOutcome, RefUpdate, Sha,
    Worktree,
};

/// An in-memory git, so decisions can be tested without a repository.
struct FakeGit {
    state: RefCell<State>,
}

struct State {
    refs: HashMap<String, Sha>,
    worktrees: Vec<(String, Option<String>)>,
    head: Option<Sha>,
    /// Commits that conflict when merged.
    conflicting: HashSet<String>,
    /// Counter behind the synthesised candidate ids, so a test can predict them.
    minted: u32,
}

impl FakeGit {
    fn new() -> Self {
        Self {
            state: RefCell::new(State {
                refs: HashMap::new(),
                worktrees: Vec::new(),
                head: None,
                conflicting: HashSet::new(),
                minted: 0,
            }),
        }
    }

    /// A deterministic object id, so assertions can name one.
    fn commit(seed: u8) -> Sha {
        Sha::parse(&format!("{seed:02x}").repeat(20)).expect("20 bytes is a valid object id")
    }

    fn with_branch(self, refname: &str, at: &Sha) -> Self {
        self.state
            .borrow_mut()
            .refs
            .insert(normalise_ref(refname), at.clone());
        self
    }

    fn with_checkout(self, path: &str, branch: Option<&str>) -> Self {
        self.state
            .borrow_mut()
            .worktrees
            .push((path.to_string(), branch.map(|b| b.to_string())));
        self
    }

    /// Make merging this commit conflict.
    fn with_conflict(self, at: &Sha) -> Self {
        self.state
            .borrow_mut()
            .conflicting
            .insert(at.as_str().to_string());
        self
    }

    /// Move a branch behind the worker's back, to stage a stale base.
    fn force_branch(&self, refname: &str, to: &Sha) {
        self.state
            .borrow_mut()
            .refs
            .insert(normalise_ref(refname), to.clone());
    }

    fn head(&self) -> Option<Sha> {
        self.state.borrow().head.clone()
    }
}

impl Git for FakeGit {
    fn resolve(&self, refname: &str) -> Result<Sha, Failure> {
        self.state
            .borrow()
            .refs
            .get(&normalise_ref(refname))
            .cloned()
            .ok_or_else(|| Failure::new(&format!("no such ref: {refname}")))
    }

    fn worktrees(&self) -> Result<Vec<Worktree>, Failure> {
        Ok(self
            .state
            .borrow()
            .worktrees
            .iter()
            .map(|(path, branch)| Worktree {
                path: path.clone(),
                branch: branch.clone(),
            })
            .collect())
    }

    fn checkout_detached(&self, at: &Sha) -> Result<(), Failure> {
        self.state.borrow_mut().head = Some(at.clone());
        Ok(())
    }

    fn merge(&self, commit: &Sha, _message: &str) -> Result<MergeOutcome, Failure> {
        let mut state = self.state.borrow_mut();
        if state.head.is_none() {
            return Err(Failure::new("nothing checked out to merge into"));
        }
        if state.conflicting.contains(commit.as_str()) {
            return Ok(MergeOutcome::Conflicted);
        }
        state.minted += 1;
        let merged = Sha::parse(&format!("{:040x}", 0xc0ffee00u64 + u64::from(state.minted)))
            .expect("a synthesised id is 40 hex digits");
        state.head = Some(merged.clone());
        Ok(MergeOutcome::Merged(merged))
    }

    fn fast_forward(&self, refname: &str, from: &Sha, to: &Sha) -> Result<RefUpdate, Failure> {
        let mut state = self.state.borrow_mut();
        let key = normalise_ref(refname);
        match state.refs.get(&key) {
            None => Err(Failure::new(&format!("no such ref: {refname}"))),
            Some(current) if current != from => Ok(RefUpdate::Stale),
            Some(_) => {
                state.refs.insert(key, to.clone());
                Ok(RefUpdate::Updated)
            }
        }
    }

    fn read_file_at(&self, _at: &Sha, _path: &str) -> Result<Option<String>, Failure> {
        Ok(None)
    }
}

#[test]
fn a_branch_resolves_however_it_is_spelled() {
    let base = FakeGit::commit(1);
    let git = FakeGit::new().with_branch("refs/heads/main", &base);
    assert_eq!(git.resolve("main").unwrap(), base);
    assert_eq!(git.resolve("refs/heads/main").unwrap(), base);
}

#[test]
fn merging_advances_head_to_a_new_commit() {
    let base = FakeGit::commit(1);
    let git = FakeGit::new();
    git.checkout_detached(&base).unwrap();

    let MergeOutcome::Merged(first) = git.merge(&FakeGit::commit(2), "c1").unwrap() else {
        panic!("expected a merge");
    };
    let MergeOutcome::Merged(second) = git.merge(&FakeGit::commit(3), "c2").unwrap() else {
        panic!("expected a merge");
    };
    assert_ne!(first, second, "each merge is a distinct commit");
    assert_eq!(git.head(), Some(second));
}

#[test]
fn a_commit_marked_conflicting_conflicts() {
    let bad = FakeGit::commit(9);
    let git = FakeGit::new().with_conflict(&bad);
    git.checkout_detached(&FakeGit::commit(1)).unwrap();
    assert_eq!(git.merge(&bad, "c1").unwrap(), MergeOutcome::Conflicted);
}

#[test]
fn a_moved_branch_reports_stale() {
    let base = FakeGit::commit(1);
    let git = FakeGit::new().with_branch("main", &base);
    git.force_branch("main", &FakeGit::commit(2));
    assert_eq!(
        git.fast_forward("main", &base, &FakeGit::commit(3))
            .unwrap(),
        RefUpdate::Stale
    );
}

#[test]
fn the_fake_agrees_with_the_guard_about_checkouts() {
    let git = FakeGit::new()
        .with_checkout("/primary", Some("refs/heads/main"))
        .with_checkout("/integration", None);
    assert_eq!(
        checkouts_holding(&git, "main").unwrap(),
        vec!["/primary".to_string()]
    );
}

const FULL: &str = "eb60b2f38342b60bf579eff215cf731d2cf6fe25";

#[test]
fn a_full_object_id_parses() {
    assert_eq!(Sha::parse(FULL).unwrap().as_str(), FULL);
}

#[test]
fn surrounding_whitespace_is_trimmed() {
    assert_eq!(Sha::parse(&format!("  {FULL}\n")).unwrap().as_str(), FULL);
}

#[test]
fn case_is_normalised_so_equality_is_reliable() {
    assert_eq!(
        Sha::parse(&FULL.to_ascii_uppercase()).unwrap(),
        Sha::parse(FULL).unwrap()
    );
}

#[test]
fn an_abbreviated_id_is_rejected() {
    assert!(Sha::parse("eb60b2f").is_err());
}

#[test]
fn a_non_hex_id_is_rejected() {
    assert!(Sha::parse(&"z".repeat(40)).is_err());
}

#[test]
fn a_sha256_length_id_parses() {
    assert!(Sha::parse(&"a".repeat(64)).is_ok());
}

#[test]
fn an_id_is_shown_by_its_first_seven_digits() {
    assert_eq!(Sha::parse(FULL).unwrap().short(), "eb60b2f");
    let why = Sha::parse("eb60b2f").unwrap_err().message();
    assert!(why.contains("eb60b2f"), "got {why:?}");
}

#[test]
fn a_detached_record_yields_no_branch() {
    let parsed = parse_worktrees(
        "worktree /a\nHEAD aaaa\nbranch refs/heads/main\n\nworktree /b\nHEAD bbbb\ndetached\n",
    );
    assert_eq!(parsed.len(), 2);
    assert_eq!(parsed[0].branch.as_deref(), Some("refs/heads/main"));
    assert_eq!(parsed[1].branch, None);
}

/// Every variable through which the environment could name a repository is to be
/// cleared, so the directory decides where a run of git lands and nothing else
/// does.
#[test]
fn git_runs_deaf_to_an_ambient_repository() {
    let cleared = ambient_repository();
    for key in [
        "GIT_DIR",
        "GIT_WORK_TREE",
        "GIT_INDEX_FILE",
        "GIT_COMMON_DIR",
        "GIT_OBJECT_DIRECTORY",
        "GIT_ALTERNATE_OBJECT_DIRECTORIES",
        "GIT_NAMESPACE",
    ] {
        assert!(
            cleared.contains(&key.to_string()),
            "{key} is still inherited"
        );
    }
}

fn git() -> CommandGit {
    CommandGit::new("/repo", "/integration")
}

fn said(success: bool, stdout: &str, stderr: &str) -> Result<Output, Failure> {
    Ok(Output {
        success,
        stdout: stdout.as_bytes().to_vec(),
        stderr: stderr.as_bytes().to_vec(),
    })
}

fn args(call: &Invocation) -> Vec<&str> {
    call.args.iter().map(|a| a.as_str()).collect()
}

fn run<T: std::fmt::Debug>(step: Step<T>) -> Invocation {
    match step {
        Step::Run(call) => call,
        Step::Done(done) => panic!("expected another run of git, got {done:?}"),
    }
}

fn done<T: std::fmt::Debug>(step: Step<T>) -> Result<T, Failure> {
    match step {
        Step::Done(done) => done,
        Step::Run(call) => panic!("expected an answer, got {call:?}"),
    }
}

#[test]
fn resolving_asks_git_for_the_commit() {
    let call = git().resolve("clean");
    assert_eq!(call.directory, "/repo");
    assert_eq!(args(&call), vec!["rev-parse", "--verify", "clean^{commit}"]);

    let sha = git()
        .resolved("clean", said(true, &format!("{FULL}\n"), ""))
        .unwrap();
    assert_eq!(sha.as_str(), FULL);

    let why = git()
        .resolved("nope", said(false, "", "fatal: no\n"))
        .unwrap_err();
    assert_eq!(
        why.message,
        "git rev-parse --verify nope^{commit} failed in /repo: fatal: no"
    );
    assert!(git().resolved("clean", said(true, "eb60b2f", "")).is_err());
}

#[test]
fn listing_checkouts_reads_what_git_lists() {
    assert_eq!(git().integration_path(), "/integration");
    let call = git().worktrees();
    assert_eq!(call.directory, "/repo");
    assert_eq!(args(&call), vec!["worktree", "list", "--porcelain"]);

    let trees = git()
        .listed_worktrees(said(
            true,
            "worktree /a\nHEAD aaaa\nbranch refs/heads/main\n\nworktree /b\nHEAD bbbb\ndetached\n",
            "",
        ))
        .unwrap();
    assert_eq!(holding(&trees, "refs/heads/main"), vec!["/a".to_string()]);
    assert_eq!(holding(&trees, "main"), vec!["/a".to_string()]);
    assert!(holding(&trees, "release").is_empty());
    assert!(git().listed_worktrees(said(false, "", "no")).is_err());
}

#[test]
fn checking_out_is_forced_and_detached() {
    let at = FakeGit::commit(1);
    let call = git().checkout_detached(&at);
    assert_eq!(call.directory, "/integration");
    assert_eq!(
        args(&call),
        vec!["checkout", "--force", "--detach", at.as_str()]
    );
    assert_eq!(git().checked_out(&at, said(true, "", "")), Ok(()));
    assert!(git().checked_out(&at, said(false, "", "no")).is_err());
}

#[test]
fn a_path_absent_from_a_commit_is_an_ordinary_answer() {
    let at = FakeGit::commit(1);
    let call = git().read_file_at(&at, "sasse.toml");
    assert_eq!(call.directory, "/repo");
    assert_eq!(
        args(&call),
        vec!["show".to_string(), format!("{}:sasse.toml", at.as_str())]
    );

    let read = |ran| git().file_read(&at, "sasse.toml", ran);
    assert_eq!(
        read(said(true, "gate = \"x\"\n", "")).unwrap().as_deref(),
        Some("gate = \"x\"\n")
    );
    assert_eq!(
        read(said(false, "", "fatal: path 'sasse.toml' does not exist in 'x'")),
        Ok(None)
    );
    assert_eq!(
        read(said(
            false,
            "",
            "fatal: path 'sasse.toml' exists on disk, but not in 'x'"
        )),
        Ok(None)
    );
    let why = read(said(false, "", "fatal: bad object\n")).unwrap_err();
    assert_eq!(
        why.message,
        format!("reading sasse.toml at {} failed: fatal: bad object", at.as_str())
    );
}

#[test]
fn a_merge_that_works_is_resolved() {
    let commit = FakeGit::commit(2);
    let (mut job, call) = git().merge(&commit, "candidate 1");
    assert_eq!(call.directory, "/integration");
    assert_eq!(
        args(&call),
        vec![
            "merge",
            "--no-ff",
            "--no-edit",
            "-m",
            "candidate 1",
            commit.as_str()
        ]
    );
    let next = run(job.next(said(true, "", "")));
    assert_eq!(next.directory, "/integration");
    assert_eq!(args(&next), vec!["rev-parse", "--verify", "HEAD^{commit}"]);
    assert_eq!(
        done(job.next(said(true, FULL, ""))).unwrap(),
        MergeOutcome::Merged(Sha::parse(FULL).unwrap())
    );
}

#[test]
fn a_conflicted_merge_is_put_an_end_to() {
    let (mut job, _) = git().merge(&FakeGit::commit(2), "candidate 1");
    let asked = run(job.next(said(false, "CONFLICT", "")));
    assert_eq!(
        args(&asked),
        vec!["rev-parse", "--verify", "--quiet", "MERGE_HEAD"]
    );
    let aborted = run(job.next(said(true, FULL, "")));
    assert_eq!(aborted.directory, "/integration");
    assert_eq!(args(&aborted), vec!["merge", "--abort"]);
    assert_eq!(
        done(job.next(said(true, "", ""))).unwrap(),
        MergeOutcome::Conflicted
    );
}

#[test]
fn a_broken_merge_is_not_a_conflict() {
    let commit = FakeGit::commit(2);
    let (mut job, _) = git().merge(&commit, "candidate 1");
    run(job.next(said(false, "", "fatal: not something we can merge\n")));
    let why = done(job.next(said(false, "", ""))).unwrap_err();
    assert_eq!(
        why.message,
        format!(
            "merging {} failed without leaving a merge in progress: fatal: not something we can merge",
            commit.as_str()
        )
    );
}

#[test]
fn a_short_branch_name_is_spelled_out_to_be_moved() {
    let (from, to) = (FakeGit::commit(1), FakeGit::commit(2));
    let (mut job, call) = git().fast_forward("main", &from, &to);
    assert_eq!(call.directory, "/repo");
    assert_eq!(
        args(&call),
        vec!["update-ref", "refs/heads/main", to.as_str(), from.as_str()]
    );
    assert_eq!(
        done(job.next(said(true, "", ""))).unwrap(),
        RefUpdate::Updated
    );
    assert_eq!(qualify("refs/heads/main"), "refs/heads/main");
    assert_eq!(qualify("main"), "refs/heads/main");
}

/// What passed is only merged if the base has not moved meanwhile.
#[test]
fn a_branch_that_moved_is_told_from_one_that_cannot_be_moved() {
    let (from, to) = (FakeGit::commit(1), FakeGit::commit(2));

    let (mut job, _) = git().fast_forward("main", &from, &to);
    let asked = run(job.next(said(false, "", "cannot lock ref\n")));
    assert_eq!(args(&asked), vec!["rev-parse", "--verify", "main^{commit}"]);
    assert_eq!(
        done(job.next(said(true, FakeGit::commit(3).as_str(), ""))).unwrap(),
        RefUpdate::Stale
    );

    let (mut job, _) = git().fast_forward("main", &from, &to);
    run(job.next(said(false, "", "cannot lock ref\n")));
    let why = done(job.next(said(true, from.as_str(), ""))).unwrap_err();
    assert_eq!(
        why.message,
        format!(
            "moving main from {} to {} failed: cannot lock ref",
            from.as_str(),
            to.as_str()
        )
    );
}
