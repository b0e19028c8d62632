//! What the `git` command is asked, and what its answers mean.
//!
//! Running the command is somebody else's work. What is here says which command
//! to run, reads what came back, and says whether another has to follow.

use vstd::prelude::*;

use crate::failure::Failure;
use crate::gate::in_context;
use crate::gate::with_context;
use crate::git::is_object_id;
use crate::git::spelled_id;
use crate::git::MergeOutcome;
use crate::git::RefUpdate;
use crate::git::Sha;
use crate::git::Worktree;
use crate::git::WorktreeView;
use crate::text;
use crate::text::begins_with;
use crate::text::joined;
use crate::text::lossy_text;
use crate::text::trimmed;

verus! {

/// The variables through which an ambient environment names a repository.
///
/// `-C` sets the directory git starts from, and every one of these outranks
/// it: with `GIT_DIR` set, git never looks at the directory at all. So every
/// invocation would operate on whichever repository the environment happened to
/// name, not the one it was handed.
///
/// That environment is not exotic. git exports these to its own hooks, and
/// sasse is run from a pre-push hook, from a gate command git started, and from
/// an `on_settle` hook, so the queue can find itself pointed at a repository
/// nobody asked about.
pub fn ambient_repository() -> (r: Vec<String>)
    ensures
        text::texts(r@) == seq![
            "GIT_DIR"@,
            "GIT_WORK_TREE"@,
            "GIT_INDEX_FILE"@,
            "GIT_COMMON_DIR"@,
            "GIT_OBJECT_DIRECTORY"@,
            "GIT_ALTERNATE_OBJECT_DIRECTORIES"@,
            "GIT_NAMESPACE"@,
        ],
{
    let mut r: Vec<String> = Vec::new();
    r.push("GIT_DIR".to_string());
    r.push("GIT_WORK_TREE".to_string());
    r.push("GIT_INDEX_FILE".to_string());
    r.push("GIT_COMMON_DIR".to_string());
    r.push("GIT_OBJECT_DIRECTORY".to_string());
    r.push("GIT_ALTERNATE_OBJECT_DIRECTORIES".to_string());
    r.push("GIT_NAMESPACE".to_string());
    assert(text::texts(r@) =~= seq![
        "GIT_DIR"@,
        "GIT_WORK_TREE"@,
        "GIT_INDEX_FILE"@,
        "GIT_COMMON_DIR"@,
        "GIT_OBJECT_DIRECTORY"@,
        "GIT_ALTERNATE_OBJECT_DIRECTORIES"@,
        "GIT_NAMESPACE"@,
    ]);
    r
}

/// A run of git: where, and on what. The environment's idea of which repository
/// it is in is to be cleared.
#[derive(Debug, PartialEq, Eq)]
pub struct Invocation {
    pub directory: String,
    pub args: Vec<String>,
}

/// What a run of git is.
pub struct InvocationView {
    pub directory: Seq<char>,
    pub args: Seq<Seq<char>>,
}

impl View for Invocation {
    type V = InvocationView;

    open spec fn view(&self) -> InvocationView {
        InvocationView { directory: self.directory@, args: text::texts(self.args@) }
    }
}

/// What git said.
#[derive(Debug, PartialEq, Eq)]
pub struct Output {
    pub success: bool,
    pub stdout: Vec<u8>,
    pub stderr: Vec<u8>,
}

/// What to do next: run git once more, or nothing.
#[derive(Debug, PartialEq, Eq)]
pub enum Step<T> {
    Run(Invocation),
    Done(Result<T, Failure>),
}

/// What git wrote, without white space at either end.
pub open spec fn said(bytes: Seq<u8>) -> Seq<char> {
    trimmed(lossy_text(bytes))
}

/// What is said of a run of git that could not be started.
pub open spec fn not_run(call: InvocationView, why: Seq<char>) -> Seq<char> {
    in_context("running git in "@ + call.directory, why)
}

/// What is said of a run of git that had to succeed and did not.
pub open spec fn refused(call: InvocationView, stderr: Seq<u8>) -> Seq<char> {
    "git "@ + joined(call.args, " "@) + " failed in "@ + call.directory + ": "@ + said(stderr)
}

/// A run of git that has to succeed: what it said, or what is said of it.
pub open spec fn checked_result(
    call: InvocationView,
    ran: Result<Output, Failure>,
    r: Result<String, Failure>,
) -> bool {
    match (ran, r) {
        (Ok(out), Ok(text)) => out.success && text@ == said(out.stdout@),
        (Ok(out), Err(failure)) => !out.success && failure@ == refused(call, out.stderr@),
        (Err(why), Err(failure)) => failure@ == not_run(call, why@),
        (Err(_), Ok(_)) => false,
    }
}

/// A commit that git was asked for.
pub open spec fn resolved_result(
    call: InvocationView,
    ran: Result<Output, Failure>,
    r: Result<Sha, Failure>,
) -> bool {
    match (ran, r) {
        (Ok(out), Ok(sha)) => out.success && is_object_id(spelled_id(said(out.stdout@))) && sha@
            == spelled_id(said(out.stdout@)),
        (Ok(out), Err(failure)) => if out.success {
            !is_object_id(spelled_id(said(out.stdout@))) && failure@ == "not a full object id: "@
                + text::quoted_text(said(out.stdout@))
        } else {
            failure@ == refused(call, out.stderr@)
        },
        (Err(why), Err(failure)) => failure@ == not_run(call, why@),
        (Err(_), Ok(_)) => false,
    }
}

fn said_text(bytes: &Vec<u8>) -> (r: String)
    ensures
        r@ == said(bytes@),
{
    text::trim(&text::lossy(bytes.as_slice()))
}

fn not_run_failure(call: &Invocation, why: &Failure) -> (r: Failure)
    ensures
        r@ == not_run(call@, why@),
{
    let mut what = "running git in ".to_string();
    what.append(&call.directory);
    with_context(&what, why)
}

/// Read a run of git that has to succeed.
fn checked(call: &Invocation, ran: &Result<Output, Failure>) -> (r: Result<String, Failure>)
    ensures
        checked_result(call@, *ran, r),
{
    match ran {
        Err(why) => Err(not_run_failure(call, why)),
        Ok(out) => if out.success {
            Ok(said_text(&out.stdout))
        } else {
            let mut message = "git ".to_string();
            message.append(&text::join(call.args.as_slice(), " "));
            message.append(" failed in ");
            message.append(&call.directory);
            message.append(": ");
            message.append(&said_text(&out.stderr));
            Err(Failure { message })
        },
    }
}

/// Read a run of git that names a commit.
fn resolved(call: &Invocation, ran: &Result<Output, Failure>) -> (r: Result<Sha, Failure>)
    ensures
        resolved_result(call@, *ran, r),
{
    match checked(call, ran) {
        Err(failure) => Err(failure),
        Ok(raw) => match Sha::parse(&raw) {
            Ok(sha) => Ok(sha),
            Err(e) => Err(Failure { message: e.message() }),
        },
    }
}

/// The question which commit a revision is.
pub open spec fn rev_parse(directory: Seq<char>, rev: Seq<char>) -> InvocationView {
    InvocationView {
        directory,
        args: seq!["rev-parse"@, "--verify"@, rev + "^{commit}"@],
    }
}

fn rev_parse_call(directory: &String, rev: &str) -> (r: Invocation)
    ensures
        r@ == rev_parse(directory@, rev@),
{
    let mut commit = rev.to_string();
    commit.append("^{commit}");
    let mut args: Vec<String> = Vec::new();
    args.push("rev-parse".to_string());
    args.push("--verify".to_string());
    args.push(commit);
    assert(text::texts(args@) =~= seq!["rev-parse"@, "--verify"@, rev@ + "^{commit}"@]);
    Invocation { directory: directory.clone(), args }
}

/// The question whether a merge is under way.
pub open spec fn merge_head(directory: Seq<char>) -> InvocationView {
    InvocationView {
        directory,
        args: seq!["rev-parse"@, "--verify"@, "--quiet"@, "MERGE_HEAD"@],
    }
}

/// The merge of a commit. `--no-ff`, so that the candidate is the merge result
/// even when the branch is a descendant, which keeps what was gated identical to
/// what lands.
pub open spec fn merge_call(
    directory: Seq<char>,
    commit: Seq<char>,
    message: Seq<char>,
) -> InvocationView {
    InvocationView {
        directory,
        args: seq!["merge"@, "--no-ff"@, "--no-edit"@, "-m"@, message, commit],
    }
}

/// The end of a merge that is under way.
pub open spec fn merge_abort(directory: Seq<char>) -> InvocationView {
    InvocationView { directory, args: seq!["merge"@, "--abort"@] }
}

/// The move of a ref from one commit to another: atomic, and refused if the ref
/// is not where it is expected.
pub open spec fn update_ref(
    directory: Seq<char>,
    refname: Seq<char>,
    from: Seq<char>,
    to: Seq<char>,
) -> InvocationView {
    InvocationView { directory, args: seq!["update-ref"@, qualified(refname), to, from] }
}

/// A branch spelled out as a full ref. A name that is qualified already is left
/// alone.
pub open spec fn qualified(refname: Seq<char>) -> Seq<char> {
    if begins_with(refname, "refs/"@) {
        refname
    } else {
        "refs/heads/"@ + refname
    }
}

/// Spell a branch name out as a full ref, leaving an already-qualified name
/// alone.
pub fn qualify(refname: &str) -> (r: String)
    ensures
        r@ == qualified(refname@),
{
    if text::strip_prefix(refname, "refs/").is_some() {
        refname.to_string()
    } else {
        let mut r = "refs/heads/".to_string();
        r.append(refname);
        r
    }
}

/// Reading a listing of checkouts: the checkouts that are complete, and what is
/// known of the one being read.
pub struct Listing {
    pub found: Seq<WorktreeView>,
    pub path: Option<Seq<char>>,
    pub branch: Option<Seq<char>>,
}

impl Listing {
    /// A checkout is complete when the next begins, or the listing ends.
    pub open spec fn flushed(self) -> Listing {
        match self.path {
            Some(path) => Listing {
                found: self.found.push(WorktreeView { path, branch: self.branch }),
                path: None,
                branch: None,
            },
            None => self,
        }
    }

    /// One line further.
    pub open spec fn after_line(self, line: Seq<char>) -> Listing {
        if begins_with(line, "worktree "@) {
            Listing { path: Some(line.skip("worktree "@.len() as int)), ..self.flushed() }
        } else if begins_with(line, "branch "@) {
            Listing { branch: Some(line.skip("branch "@.len() as int)), ..self }
        } else {
            self
        }
    }
}

/// What a number of lines list.
pub open spec fn listed(lines: Seq<Seq<char>>) -> Listing
    decreases lines.len(),
{
    if lines.len() == 0 {
        Listing { found: Seq::empty(), path: None, branch: None }
    } else {
        listed(lines.drop_last()).after_line(lines.last())
    }
}

/// The checkouts that a listing names.
pub open spec fn checkouts(porcelain: Seq<char>) -> Seq<WorktreeView> {
    listed(text::text_lines(porcelain)).flushed().found
}

fn flush(found: &mut Vec<Worktree>, path: &mut Option<String>, branch: &mut Option<String>)
    ensures
        ({
            let before = Listing {
                found: crate::git::worktree_views(old(found)@),
                path: text::optional(*old(path)),
                branch: text::optional(*old(branch)),
            };
            &&& crate::git::worktree_views(final(found)@) == before.flushed().found
            &&& text::optional(*final(path)) == before.flushed().path
            &&& text::optional(*final(branch)) == before.flushed().branch
        }),
{
    let ghost had = found@;
    match path.take() {
        Some(p) => {
            let b = branch.take();
            let checkout = Worktree { path: p, branch: b };
            found.push(checkout);
            assert(crate::git::worktree_views(found@) =~= crate::git::worktree_views(had).push(
                checkout@,
            ));
        },
        None => {},
    }
}

/// Records separated by blank lines, each starting `worktree <path>`, with
/// either `branch <ref>` or `detached`.
pub fn parse_worktrees(porcelain: &str) -> (r: Vec<Worktree>)
    ensures
        crate::git::worktree_views(r@) == checkouts(porcelain@),
{
    let lines = text::lines(porcelain);
    let ghost all = text::text_lines(porcelain@);
    let mut found: Vec<Worktree> = Vec::new();
    let mut path: Option<String> = None;
    let mut branch: Option<String> = None;
    assert(crate::git::worktree_views(found@) =~= Seq::<WorktreeView>::empty());
    for i in 0..lines.len()
        invariant
            all == text::texts(lines@),
            crate::git::worktree_views(found@) == listed(all.take(i as int)).found,
            text::optional(path) == listed(all.take(i as int)).path,
            text::optional(branch) == listed(all.take(i as int)).branch,
    {
        let line = &lines[i];
        assert(all.take(i + 1).drop_last() =~= all.take(i as int));
        assert(all.take(i + 1).last() == line@);
        match text::strip_prefix(line, "worktree ") {
            Some(rest) => {
                flush(&mut found, &mut path, &mut branch);
                path = Some(rest);
            },
            None => match text::strip_prefix(line, "branch ") {
                Some(rest) => {
                    branch = Some(rest);
                },
                None => {},
            },
        }
    }
    assert(all.take(all.len() as int) =~= all);
    flush(&mut found, &mut path, &mut branch);
    found
}

/// Where git is run: in the repository whose refs are read and moved, and in the
/// checkout candidates are built and gated in. That runs on a detached HEAD, so
/// nothing done there touches a branch anyone has checked out.
#[derive(Debug)]
pub struct CommandGit {
    repo: String,
    integration: String,
}

impl CommandGit {
    pub closed spec fn repo(&self) -> Seq<char> {
        self.repo@
    }

    pub closed spec fn integration(&self) -> Seq<char> {
        self.integration@
    }

    pub fn new(repo: &str, integration: &str) -> (r: Self)
        ensures
            r.repo() == repo@,
            r.integration() == integration@,
    {
        CommandGit { repo: repo.to_string(), integration: integration.to_string() }
    }

    pub fn integration_path(&self) -> (r: &str)
        ensures
            r@ == self.integration(),
    {
        self.integration.as_str()
    }

    /// Ask which commit a ref points at.
    pub fn resolve(&self, refname: &str) -> (r: Invocation)
        ensures
            r@ == rev_parse(self.repo(), refname@),
    {
        rev_parse_call(&self.repo, refname)
    }

    /// The commit that a ref points at.
    pub fn resolved(&self, refname: &str, ran: Result<Output, Failure>) -> (r: Result<Sha, Failure>)
        ensures
            resolved_result(rev_parse(self.repo(), refname@), ran, r),
    {
        resolved(&self.resolve(refname), &ran)
    }

    /// Ask for every checkout attached to the repository.
    pub fn worktrees(&self) -> (r: Invocation)
        ensures
            r@ == (InvocationView {
                directory: self.repo(),
                args: seq!["worktree"@, "list"@, "--porcelain"@],
            }),
    {
        let mut args: Vec<String> = Vec::new();
        args.push("worktree".to_string());
        args.push("list".to_string());
        args.push("--porcelain".to_string());
        assert(text::texts(args@) =~= seq!["worktree"@, "list"@, "--porcelain"@]);
        Invocation { directory: self.repo.clone(), args }
    }

    /// Every checkout attached to the repository.
    pub fn listed_worktrees(&self, ran: Result<Output, Failure>) -> (r: Result<
        Vec<Worktree>,
        Failure,
    >)
        ensures
            ({
                let call = InvocationView {
                    directory: self.repo(),
                    args: seq!["worktree"@, "list"@, "--porcelain"@],
                };
                match (ran, r) {
                    (Ok(out), Ok(list)) => out.success && crate::git::worktree_views(list@)
                        == checkouts(said(out.stdout@)),
                    (Ok(out), Err(failure)) => !out.success && failure@ == refused(
                        call,
                        out.stderr@,
                    ),
                    (Err(why), Err(failure)) => failure@ == not_run(call, why@),
                    (Err(_), Ok(_)) => false,
                }
            }),
    {
        match checked(&self.worktrees(), &ran) {
            Ok(out) => Ok(parse_worktrees(&out)),
            Err(failure) => Err(failure),
        }
    }

    /// Ask for the integration checkout to be put on a commit, with a detached
    /// HEAD.
    pub fn checkout_detached(&self, at: &Sha) -> (r: Invocation)
        ensures
            r@ == (InvocationView {
                directory: self.integration(),
                args: seq!["checkout"@, "--force"@, "--detach"@, at@],
            }),
    {
        let mut args: Vec<String> = Vec::new();
        args.push("checkout".to_string());
        args.push("--force".to_string());
        args.push("--detach".to_string());
        args.push(at.as_str().to_string());
        assert(text::texts(args@) =~= seq!["checkout"@, "--force"@, "--detach"@, at@]);
        Invocation { directory: self.integration.clone(), args }
    }

    /// Whether the checkout was put there.
    pub fn checked_out(&self, at: &Sha, ran: Result<Output, Failure>) -> (r: Result<(), Failure>)
        ensures
            ({
                let call = InvocationView {
                    directory: self.integration(),
                    args: seq!["checkout"@, "--force"@, "--detach"@, at@],
                };
                match (ran, r) {
                    (Ok(out), Ok(_)) => out.success,
                    (Ok(out), Err(failure)) => !out.success && failure@ == refused(
                        call,
                        out.stderr@,
                    ),
                    (Err(why), Err(failure)) => failure@ == not_run(call, why@),
                    (Err(_), Ok(_)) => false,
                }
            }),
    {
        match checked(&self.checkout_detached(at), &ran) {
            Ok(_) => Ok(()),
            Err(failure) => Err(failure),
        }
    }

    /// Ask for a file as it exists in a commit.
    pub fn read_file_at(&self, at: &Sha, path: &str) -> (r: Invocation)
        ensures
            r@ == (InvocationView {
                directory: self.repo(),
                args: seq!["show"@, at@ + ":"@ + path@],
            }),
    {
        let mut blob = at.as_str().to_string();
        blob.append(":");
        blob.append(path);
        let mut args: Vec<String> = Vec::new();
        args.push("show".to_string());
        args.push(blob);
        assert(text::texts(args@) =~= seq!["show"@, at@ + ":"@ + path@]);
        Invocation { directory: self.repo.clone(), args }
    }

    /// The file, or `None` if the commit has no such path. That is an ordinary
    /// answer, not a fault. Any other failure is worth raising.
    pub fn file_read(&self, at: &Sha, path: &str, ran: Result<Output, Failure>) -> (r: Result<
        Option<String>,
        Failure,
    >)
        ensures
            ({
                let call = InvocationView {
                    directory: self.repo(),
                    args: seq!["show"@, at@ + ":"@ + path@],
                };
                match ran {
                    Err(why) => r matches Err(failure) && failure@ == not_run(call, why@),
                    Ok(out) => if out.success {
                        r matches Ok(Some(text)) && text@ == lossy_text(out.stdout@)
                    } else if says_absent(lossy_text(out.stderr@)) {
                        r matches Ok(None)
                    } else {
                        r matches Err(failure) && failure@ == "reading "@ + path@ + " at "@ + at@
                            + " failed: "@ + said(out.stderr@)
                    },
                }
            }),
    {
        let call = self.read_file_at(at, path);
        match ran {
            Err(why) => Err(not_run_failure(&call, &why)),
            Ok(out) => {
                if out.success {
                    return Ok(Some(text::lossy(out.stdout.as_slice())));
                }
                let stderr = text::lossy(out.stderr.as_slice());
                if text::contains(&stderr, "does not exist") || text::contains(
                    &stderr,
                    "exists on disk, but not in",
                ) {
                    return Ok(None);
                }
                let mut message = "reading ".to_string();
                message.append(path);
                message.append(" at ");
                message.append(at.as_str());
                message.append(" failed: ");
                message.append(&text::trim(&stderr));
                Err(Failure { message })
            },
        }
    }

    /// Begin merging a commit into the integration checkout's HEAD.
    pub fn merge(&self, commit: &Sha, message: &str) -> (r: (MergeJob, Invocation))
        ensures
            r.0.directory() == self.integration(),
            r.0.commit() == commit@,
            r.0.state() == MergeState::Merging,
            r.0.pending() == r.1@,
            r.1@ == merge_call(self.integration(), commit@, message@),
    {
        let mut args: Vec<String> = Vec::new();
        args.push("merge".to_string());
        args.push("--no-ff".to_string());
        args.push("--no-edit".to_string());
        args.push("-m".to_string());
        args.push(message.to_string());
        args.push(commit.as_str().to_string());
        assert(text::texts(args@) =~= seq![
            "merge"@,
            "--no-ff"@,
            "--no-edit"@,
            "-m"@,
            message@,
            commit@,
        ]);
        let call = Invocation { directory: self.integration.clone(), args };
        let job = MergeJob {
            directory: self.integration.clone(),
            commit: commit.as_str().to_string(),
            state: MergeState::Merging,
            stderr: Vec::new(),
            call: copy_call(&call),
        };
        (job, call)
    }

    /// Begin moving a branch from one commit to another.
    pub fn fast_forward(&self, refname: &str, from: &Sha, to: &Sha) -> (r: (ForwardJob, Invocation))
        ensures
            r.0.directory() == self.repo(),
            r.0.refname() == refname@,
            r.0.from() == from@,
            r.0.to() == to@,
            r.0.resolving() == false,
            r.1@ == update_ref(self.repo(), refname@, from@, to@),
    {
        let mut args: Vec<String> = Vec::new();
        args.push("update-ref".to_string());
        args.push(qualify(refname));
        args.push(to.as_str().to_string());
        args.push(from.as_str().to_string());
        assert(text::texts(args@) =~= seq!["update-ref"@, qualified(refname@), to@, from@]);
        let call = Invocation { directory: self.repo.clone(), args };
        let job = ForwardJob {
            directory: self.repo.clone(),
            refname: refname.to_string(),
            from: from.clone(),
            to: to.as_str().to_string(),
            refused: None,
        };
        (job, call)
    }
}

/// Git says that a path is not in a commit.
pub open spec fn says_absent(stderr: Seq<char>) -> bool {
    text::occurs(stderr, "does not exist"@) || text::occurs(stderr, "exists on disk, but not in"@)
}

fn copy_call(call: &Invocation) -> (r: Invocation)
    ensures
        r@ == call@,
{
    let mut args: Vec<String> = Vec::new();
    for i in 0..call.args.len()
        invariant
            args@.len() == i,
            forall|j: int| 0 <= j < i ==> (#[trigger] args@[j])@ == call.args@[j]@,
    {
        args.push(call.args[i].clone());
    }
    assert(text::texts(args@) =~= text::texts(call.args@));
    Invocation { directory: call.directory.clone(), args }
}

/// Where a merge is.
#[derive(Debug, Clone, Copy, PartialEq, Eq, Structural)]
pub enum MergeState {
    /// The merge was asked for.
    Merging,
    /// It worked, and the result was asked for.
    Resolving,
    /// It did not, and whether it left a merge in progress was asked.
    Asking,
    /// It did, and an end was asked to be put to it.
    Aborting,
}

/// A merge, as a series of runs of git.
#[derive(Debug)]
pub struct MergeJob {
    directory: String,
    commit: String,
    state: MergeState,
    stderr: Vec<u8>,
    call: Invocation,
}

impl MergeJob {
    pub closed spec fn directory(&self) -> Seq<char> {
        self.directory@
    }

    pub closed spec fn commit(&self) -> Seq<char> {
        self.commit@
    }

    pub closed spec fn state(&self) -> MergeState {
        self.state
    }

    /// What the merge itself wrote when it did not work.
    pub closed spec fn stderr(&self) -> Seq<u8> {
        self.stderr@
    }

    /// The run of git that is waited for.
    pub closed spec fn pending(&self) -> InvocationView {
        self.call@
    }

    /// Take what git said, and say what is next.
    ///
    /// A conflict is told from a broken invocation by asking git what state it
    /// is in, rather than by matching on its prose.
    pub fn next(&mut self, ran: Result<Output, Failure>) -> (r: Step<MergeOutcome>)
        ensures
            final(self).directory() == old(self).directory(),
            final(self).commit() == old(self).commit(),
            (r matches Step::Run(call) ==> final(self).pending() == call@),
            match (old(self).state(), ran) {
                (MergeState::Merging, Ok(out)) => if out.success {
                    &&& r matches Step::Run(call) && call@ == rev_parse(
                        old(self).directory(),
                        "HEAD"@,
                    )
                    &&& final(self).state() == MergeState::Resolving
                } else {
                    &&& r matches Step::Run(call) && call@ == merge_head(old(self).directory())
                    &&& final(self).state() == MergeState::Asking
                    &&& final(self).stderr() == out.stderr@
                },
                (MergeState::Merging, Err(why)) => r matches Step::Done(Err(failure)) && failure@
                    == not_run(old(self).pending(), why@),
                (MergeState::Resolving, ran) => match r {
                    Step::Done(Ok(MergeOutcome::Merged(sha))) => resolved_result(
                        old(self).pending(),
                        ran,
                        Ok(sha),
                    ),
                    Step::Done(Err(failure)) => resolved_result(
                        old(self).pending(),
                        ran,
                        Err(failure),
                    ),
                    _ => false,
                },
                (MergeState::Asking, ran) => if ran matches Ok(out) && out.success {
                    &&& r matches Step::Run(call) && call@ == merge_abort(old(self).directory())
                    &&& final(self).state() == MergeState::Aborting
                } else {
                    r matches Step::Done(Err(failure)) && failure@ == "merging "@ + old(
                        self,
                    ).commit() + " failed without leaving a merge in progress: "@ + said(
                        old(self).stderr(),
                    )
                },
                (MergeState::Aborting, Ok(out)) => if out.success {
                    r == Step::<MergeOutcome>::Done(Ok(MergeOutcome::Conflicted))
                } else {
                    r matches Step::Done(Err(failure)) && failure@ == in_context(
                        "abandoning a conflicted merge"@,
                        refused(old(self).pending(), out.stderr@),
                    )
                },
                (MergeState::Aborting, Err(why)) => r matches Step::Done(Err(failure)) && failure@
                    == in_context(
                    "abandoning a conflicted merge"@,
                    not_run(old(self).pending(), why@),
                ),
            },
    {
        match self.state {
            MergeState::Merging => match ran {
                Err(why) => Step::Done(Err(not_run_failure(&self.call, &why))),
                Ok(out) => {
                    if out.success {
                        self.state = MergeState::Resolving;
                        let call = rev_parse_call(&self.directory, "HEAD");
                        self.call = copy_call(&call);
                        Step::Run(call)
                    } else {
                        self.state = MergeState::Asking;
                        self.stderr = out.stderr;
                        let mut args: Vec<String> = Vec::new();
                        args.push("rev-parse".to_string());
                        args.push("--verify".to_string());
                        args.push("--quiet".to_string());
                        args.push("MERGE_HEAD".to_string());
                        assert(text::texts(args@) =~= seq![
                            "rev-parse"@,
                            "--verify"@,
                            "--quiet"@,
                            "MERGE_HEAD"@,
                        ]);
                        let call = Invocation { directory: self.directory.clone(), args };
                        self.call = copy_call(&call);
                        Step::Run(call)
                    }
                },
            },
            MergeState::Resolving => match resolved(&self.call, &ran) {
                Ok(sha) => Step::Done(Ok(MergeOutcome::Merged(sha))),
                Err(failure) => Step::Done(Err(failure)),
            },
            MergeState::Asking => {
                let in_progress = match &ran {
                    Ok(out) => out.success,
                    Err(_) => false,
                };
                if in_progress {
                    self.state = MergeState::Aborting;
                    let mut args: Vec<String> = Vec::new();
                    args.push("merge".to_string());
                    args.push("--abort".to_string());
                    assert(text::texts(args@) =~= seq!["merge"@, "--abort"@]);
                    let call = Invocation { directory: self.directory.clone(), args };
                    self.call = copy_call(&call);
                    Step::Run(call)
                } else {
                    let mut message = "merging ".to_string();
                    message.append(&self.commit);
                    message.append(" failed without leaving a merge in progress: ");
                    message.append(&said_text(&self.stderr));
                    Step::Done(Err(Failure { message }))
                }
            },
            MergeState::Aborting => match checked(&self.call, &ran) {
                Ok(_) => Step::Done(Ok(MergeOutcome::Conflicted)),
                Err(failure) => Step::Done(
                    Err(with_context("abandoning a conflicted merge", &failure)),
                ),
            },
        }
    }
}

/// The move of a branch, as a series of runs of git.
#[derive(Debug)]
pub struct ForwardJob {
    directory: String,
    refname: String,
    from: Sha,
    to: String,
    refused: Option<Vec<u8>>,
}

impl ForwardJob {
    pub closed spec fn directory(&self) -> Seq<char> {
        self.directory@
    }

    pub closed spec fn refname(&self) -> Seq<char> {
        self.refname@
    }

    pub closed spec fn from(&self) -> Seq<char> {
        self.from@
    }

    pub closed spec fn to(&self) -> Seq<char> {
        self.to@
    }

    /// The move was refused, and where the branch is was asked.
    pub closed spec fn resolving(&self) -> bool {
        self.refused is Some
    }

    /// What git wrote when it refused.
    pub closed spec fn stderr(&self) -> Seq<u8> {
        self.refused->0@
    }

    /// Take what git said, and say what is next.
    ///
    /// If the branch is no longer where it was expected, that is the ordinary
    /// stale case; anything else is a real failure worth raising.
    pub fn next(&mut self, ran: Result<Output, Failure>) -> (r: Step<RefUpdate>)
        ensures
            final(self).directory() == old(self).directory(),
            final(self).refname() == old(self).refname(),
            final(self).from() == old(self).from(),
            final(self).to() == old(self).to(),
            if !old(self).resolving() {
                match ran {
                    Err(why) => r matches Step::Done(Err(failure)) && failure@ == not_run(
                        update_ref(
                            old(self).directory(),
                            old(self).refname(),
                            old(self).from(),
                            old(self).to(),
                        ),
                        why@,
                    ),
                    Ok(out) => if out.success {
                        r == Step::<RefUpdate>::Done(Ok(RefUpdate::Updated))
                    } else {
                        &&& r matches Step::Run(call) && call@ == rev_parse(
                            old(self).directory(),
                            old(self).refname(),
                        )
                        &&& final(self).resolving()
                        &&& final(self).stderr() == out.stderr@
                    },
                }
            } else {
                if ran matches Ok(out) && out.success && is_object_id(
                    spelled_id(said(out.stdout@)),
                ) && spelled_id(said(out.stdout@)) != old(self).from() {
                    r == Step::<RefUpdate>::Done(Ok(RefUpdate::Stale))
                } else {
                    r matches Step::Done(Err(failure)) && failure@ == "moving "@ + old(
                        self,
                    ).refname() + " from "@ + old(self).from() + " to "@ + old(self).to()
                        + " failed: "@ + said(old(self).stderr())
                }
            },
    {
        let call = rev_parse_call(&self.directory, &self.refname);
        match &self.refused {
            None => match ran {
                Err(why) => {
                    let mut what = "running git in ".to_string();
                    what.append(&self.directory);
                    Step::Done(Err(with_context(&what, &why)))
                },
                Ok(out) => {
                    if out.success {
                        Step::Done(Ok(RefUpdate::Updated))
                    } else {
                        self.refused = Some(out.stderr);
                        Step::Run(call)
                    }
                },
            },
            Some(stderr) => {
                match resolved(&call, &ran) {
                    Ok(current) => {
                        if !current.same(&self.from) {
                            return Step::Done(Ok(RefUpdate::Stale));
                        }
                    },
                    Err(_) => {},
                }
                let mut message = "moving ".to_string();
                message.append(&self.refname);
                message.append(" from ");
                message.append(self.from.as_str());
                message.append(" to ");
                message.append(&self.to);
                message.append(" failed: ");
                message.append(&said_text(stderr));
                Step::Done(Err(Failure { message }))
            },
        }
    }
}

} // verus!
