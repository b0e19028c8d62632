//! What git is asked for each thing that is wanted of it, and what its answers
//! come to.

use vstd::prelude::*;

use crate::failure::Failure;
use crate::gate::ends_in;
use crate::git::command::ambient_repository;
use crate::git::command::said;
use crate::git::command::CommandGit;
use crate::git::command::ForwardJob;
use crate::git::command::Invocation;
use crate::git::command::MergeJob;
use crate::git::command::MergeState;
use crate::git::command::Output;
use crate::git::command::Step;
use crate::git::is_object_id;
use crate::git::spelled_id;
use crate::git::MergeOutcome;
use crate::git::RefUpdate;
use crate::git::Sha;
use crate::git::Worktree;
use crate::text::begins_with;
use crate::text::lossy_text;
use crate::text::occurs;
use crate::text::texts;

verus! {

/// The run of git is in a directory and on these words.
pub open spec fn is_call(c: Invocation, directory: Seq<char>, words: Seq<Seq<char>>) -> bool {
    &&& c.directory@ == directory
    &&& c.args@.len() == words.len()
    &&& forall|i: int| 0 <= i < words.len() ==> (#[trigger] c.args@[i])@ == words[i]
}

/// A call is what its view says.
proof fn a_call_is(c: Invocation, directory: Seq<char>, words: Seq<Seq<char>>)
    requires
        c@.directory == directory,
        c@.args == words,
    ensures
        is_call(c, directory, words),
{
    assert(c@.args.len() == c.args@.len());
    assert forall|i: int| 0 <= i < words.len() implies (#[trigger] c.args@[i])@ == words[i] by {
        assert(texts(c.args@)[i] == c.args@[i]@);
    }
}

/// Refs, checkouts and files are read in the repository; candidates are put
/// together in the checkout for that, and nowhere else.
pub proof fn what_git_is_asked(
    git: &CommandGit,
    refname: &str,
    at: &Sha,
    path: &str,
    resolve: Invocation,
    list: Invocation,
    checkout: Invocation,
    show: Invocation,
)
    requires
        call_ensures(CommandGit::resolve, (git, refname), resolve),
        call_ensures(CommandGit::worktrees, (git,), list),
        call_ensures(CommandGit::checkout_detached, (git, at), checkout),
        call_ensures(CommandGit::read_file_at, (git, at, path), show),
    ensures
        is_call(
            resolve,
            git.repo(),
            seq!["rev-parse"@, "--verify"@, refname@ + "^{commit}"@],
        ),
        is_call(list, git.repo(), seq!["worktree"@, "list"@, "--porcelain"@]),
        is_call(
            checkout,
            git.integration(),
            seq!["checkout"@, "--force"@, "--detach"@, at@],
        ),
        is_call(show, git.repo(), seq!["show"@, at@ + ":"@ + path@]),
{
    a_call_is(
        resolve,
        git.repo(),
        seq!["rev-parse"@, "--verify"@, refname@ + "^{commit}"@],
    );
    a_call_is(list, git.repo(), seq!["worktree"@, "list"@, "--porcelain"@]);
    a_call_is(checkout, git.integration(), seq!["checkout"@, "--force"@, "--detach"@, at@]);
    a_call_is(show, git.repo(), seq!["show"@, at@ + ":"@ + path@]);
}

/// A merge is never a fast-forward, merges the commit that it is asked to and
/// carries the message that it is given.
pub proof fn what_a_merge_asks(
    git: &CommandGit,
    commit: &Sha,
    message: &str,
    r: (MergeJob, Invocation),
)
    requires
        call_ensures(CommandGit::merge, (git, commit, message), r),
    ensures
        is_call(
            r.1,
            git.integration(),
            seq!["merge"@, "--no-ff"@, "--no-edit"@, "-m"@, message@, commit@],
        ),
        r.0.state() == MergeState::Merging,
        r.0.directory() == git.integration(),
        r.0.commit() == commit@,
{
    a_call_is(
        r.1,
        git.integration(),
        seq!["merge"@, "--no-ff"@, "--no-edit"@, "-m"@, message@, commit@],
    );
}

/// A branch is moved by its full name, to the new commit and only from the old
/// one.
pub proof fn what_a_move_asks(
    git: &CommandGit,
    refname: &str,
    from: &Sha,
    to: &Sha,
    r: (ForwardJob, Invocation),
)
    requires
        call_ensures(CommandGit::fast_forward, (git, refname, from, to), r),
    ensures
        is_call(
            r.1,
            git.repo(),
            seq![
                "update-ref"@,
                if begins_with(refname@, "refs/"@) {
                    refname@
                } else {
                    "refs/heads/"@ + refname@
                },
                to@,
                from@,
            ],
        ),
        !r.0.resolving(),
        r.0.from() == from@,
        r.0.to() == to@,
        r.0.refname() == refname@,
        r.0.directory() == git.repo(),
{
    a_call_is(
        r.1,
        git.repo(),
        seq![
            "update-ref"@,
            if begins_with(refname@, "refs/"@) {
                refname@
            } else {
                "refs/heads/"@ + refname@
            },
            to@,
            from@,
        ],
    );
}

/// Every variable by which an environment names a repository is cleared.
pub proof fn no_other_repository_is_named(r: Vec<String>)
    requires
        call_ensures(ambient_repository, (), r),
    ensures
        texts(r@).contains("GIT_DIR"@),
        texts(r@).contains("GIT_WORK_TREE"@),
        texts(r@).contains("GIT_INDEX_FILE"@),
        texts(r@).contains("GIT_COMMON_DIR"@),
        texts(r@).contains("GIT_OBJECT_DIRECTORY"@),
        texts(r@).contains("GIT_ALTERNATE_OBJECT_DIRECTORIES"@),
        texts(r@).contains("GIT_NAMESPACE"@),
{
    let t = texts(r@);
    assert(t[0] == "GIT_DIR"@ && t[1] == "GIT_WORK_TREE"@ && t[2] == "GIT_INDEX_FILE"@ && t[3]
        == "GIT_COMMON_DIR"@ && t[4] == "GIT_OBJECT_DIRECTORY"@ && t[5]
        == "GIT_ALTERNATE_OBJECT_DIRECTORIES"@ && t[6] == "GIT_NAMESPACE"@);
}

/// A ref is resolved exactly where git said so and named a commit in full; that is
/// the commit then. Whatever else came is a failure, with what git said of it or
/// why it could not be run.
pub proof fn a_ref_resolves_to_what_git_names(
    git: &CommandGit,
    refname: &str,
    ran: Result<Output, Failure>,
    r: Result<Sha, Failure>,
)
    requires
        call_ensures(CommandGit::resolved, (git, refname, ran), r),
    ensures
        r is Ok <==> (ran matches Ok(out) && out.success && is_object_id(
            spelled_id(said(out.stdout@)),
        )),
        r matches Ok(sha) ==> sha@ == spelled_id(said(ran->Ok_0.stdout@)),
        ran matches Ok(out) ==> !out.success ==> (r matches Err(failure) && ends_in(
            failure@,
            said(out.stderr@),
        )),
        ran matches Err(why) ==> (r matches Err(failure) && ends_in(failure@, why@)),
{
    if let Err(failure) = r {
        match ran {
            Ok(out) => {
                if !out.success {
                    let n = failure@.len() - said(out.stderr@).len();
                    assert(failure@ =~= failure@.take(n) + said(out.stderr@));
                }
            },
            Err(why) => {
                let n = failure@.len() - why@.len();
                assert(failure@ =~= failure@.take(n) + why@);
            },
        }
    }
}

/// A file is what git showed, byte for byte as far as it is text. A path that is
/// not in the commit is no file, and no failure; anything else that went wrong is
/// one.
pub proof fn a_file_is_what_git_shows(
    git: &CommandGit,
    at: &Sha,
    path: &str,
    ran: Result<Output, Failure>,
    r: Result<Option<String>, Failure>,
)
    requires
        call_ensures(CommandGit::file_read, (git, at, path, ran), r),
    ensures
        ran matches Ok(out) ==> out.success ==> (r matches Ok(Some(text)) && text@ == lossy_text(
            out.stdout@,
        )),
        ran matches Ok(out) ==> !out.success ==> {
            let absent = occurs(lossy_text(out.stderr@), "does not exist"@) || occurs(
                lossy_text(out.stderr@),
                "exists on disk, but not in"@,
            );
            &&& absent ==> r == Ok::<Option<String>, Failure>(None)
            &&& !absent ==> (r matches Err(failure) && ends_in(failure@, said(out.stderr@)))
        },
        ran matches Err(why) ==> (r matches Err(failure) && ends_in(failure@, why@)),
{
    if let Err(failure) = r {
        match ran {
            Ok(out) => {
                let n = failure@.len() - said(out.stderr@).len();
                assert(failure@ =~= failure@.take(n) + said(out.stderr@));
            },
            Err(why) => {
                let n = failure@.len() - why@.len();
                assert(failure@ =~= failure@.take(n) + why@);
            },
        }
    }
}

/// A checkout is on the commit exactly where git said so.
pub proof fn a_checkout_is_made_where_git_says_so(
    git: &CommandGit,
    at: &Sha,
    ran: Result<Output, Failure>,
    r: Result<(), Failure>,
)
    requires
        call_ensures(CommandGit::checked_out, (git, at, ran), r),
    ensures
        r is Ok <==> (ran matches Ok(out) && out.success),
{
}

/// The checkouts are those of the listing exactly where git gave one.
pub proof fn checkouts_are_listed_where_git_says_so(
    git: &CommandGit,
    ran: Result<Output, Failure>,
    r: Result<Vec<Worktree>, Failure>,
)
    requires
        call_ensures(CommandGit::listed_worktrees, (git, ran), r),
    ensures
        r is Ok <==> (ran matches Ok(out) && out.success),
        r matches Ok(list) ==> crate::git::worktree_views(list@)
            == crate::git::command::checkouts(said(ran->Ok_0.stdout@)),
{
}

/// A merge that worked is asked for the commit that it made, in the same checkout,
/// and that commit is what came of it.
pub proof fn a_merge_that_works_is_its_commit(
    first: &mut MergeJob,
    second: &mut MergeJob,
    merged: Output,
    found: Output,
    r1: Step<MergeOutcome>,
    r2: Step<MergeOutcome>,
)
    requires
        first.state() == MergeState::Merging,
        merged.success,
        call_ensures(MergeJob::next, (first, Ok::<Output, Failure>(merged)), r1),
        *second == *final(first),
        call_ensures(MergeJob::next, (second, Ok::<Output, Failure>(found)), r2),
    ensures
        r1 matches Step::Run(call) && is_call(
            call,
            old(first).directory(),
            seq!["rev-parse"@, "--verify"@, "HEAD"@ + "^{commit}"@],
        ),
        found.success && is_object_id(spelled_id(said(found.stdout@))) ==> (
        r2 matches Step::Done(Ok(MergeOutcome::Merged(sha))) && sha@ == spelled_id(
            said(found.stdout@),
        )),
        !(found.success && is_object_id(spelled_id(said(found.stdout@)))) ==> (
        r2 matches Step::Done(Err(_))),
{
    if let Step::Run(call) = r1 {
        a_call_is(
            call,
            old(first).directory(),
            seq!["rev-parse"@, "--verify"@, "HEAD"@ + "^{commit}"@],
        );
    }
}

/// A merge that did not work is a conflict exactly where it left a merge behind,
/// which is put an end to; where it left none, or the end cannot be put, it is a
/// failure and nobody's conflict.
pub proof fn a_conflict_leaves_a_merge_behind(
    first: &mut MergeJob,
    second: &mut MergeJob,
    third: &mut MergeJob,
    merged: Output,
    asked: Result<Output, Failure>,
    ended: Result<Output, Failure>,
    r1: Step<MergeOutcome>,
    r2: Step<MergeOutcome>,
    r3: Step<MergeOutcome>,
)
    requires
        first.state() == MergeState::Merging,
        !merged.success,
        call_ensures(MergeJob::next, (first, Ok::<Output, Failure>(merged)), r1),
        *second == *final(first),
        call_ensures(MergeJob::next, (second, asked), r2),
        *third == *final(second),
        call_ensures(MergeJob::next, (third, ended), r3),
    ensures
        r1 matches Step::Run(call) && is_call(
            call,
            old(first).directory(),
            seq!["rev-parse"@, "--verify"@, "--quiet"@, "MERGE_HEAD"@],
        ),
        ({
            let behind = asked matches Ok(out) && out.success;
            let over = ended matches Ok(out) && out.success;
            &&& behind ==> {
                &&& r2 matches Step::Run(call) && is_call(
                    call,
                    old(first).directory(),
                    seq!["merge"@, "--abort"@],
                )
                &&& over ==> r3 == Step::<MergeOutcome>::Done(Ok(MergeOutcome::Conflicted))
                &&& !over ==> (r3 matches Step::Done(Err(_)))
            }
            &&& !behind ==> (r2 matches Step::Done(Err(failure)) && ends_in(
                failure@,
                said(merged.stderr@),
            ))
        }),
{
    if let Step::Run(call) = r1 {
        a_call_is(
            call,
            old(first).directory(),
            seq!["rev-parse"@, "--verify"@, "--quiet"@, "MERGE_HEAD"@],
        );
    }
    match r2 {
        Step::Run(call) => {
            if asked matches Ok(out) && out.success {
                a_call_is(call, old(first).directory(), seq!["merge"@, "--abort"@]);
            }
        },
        Step::Done(Err(failure)) => {
            let n = failure@.len() - said(merged.stderr@).len();
            assert(failure@ =~= failure@.take(n) + said(merged.stderr@));
        },
        Step::Done(Ok(_)) => {},
    }
}

/// A branch that was moved is moved. One that was not is asked where it is, and it
/// is stale exactly where it is at another commit than it was expected at; anything
/// else is a failure, with what git said when it refused.
pub proof fn a_branch_that_moved_away_is_stale(
    first: &mut ForwardJob,
    second: &mut ForwardJob,
    tried: Output,
    found: Result<Output, Failure>,
    r1: Step<RefUpdate>,
    r2: Step<RefUpdate>,
)
    requires
        !first.resolving(),
        call_ensures(ForwardJob::next, (first, Ok::<Output, Failure>(tried)), r1),
        *second == *final(first),
        call_ensures(ForwardJob::next, (second, found), r2),
    ensures
        tried.success ==> r1 == Step::<RefUpdate>::Done(Ok(RefUpdate::Updated)),
        !tried.success ==> {
            let away = found matches Ok(out) && out.success && is_object_id(
                spelled_id(said(out.stdout@)),
            ) && spelled_id(said(out.stdout@)) != old(first).from();
            &&& r1 matches Step::Run(call) && is_call(
                call,
                old(first).directory(),
                seq!["rev-parse"@, "--verify"@, old(first).refname() + "^{commit}"@],
            )
            &&& away ==> r2 == Step::<RefUpdate>::Done(Ok(RefUpdate::Stale))
            &&& !away ==> (r2 matches Step::Done(Err(failure)) && ends_in(
                failure@,
                said(tried.stderr@),
            ))
        },
{
    if !tried.success {
        if let Step::Run(call) = r1 {
            a_call_is(
                call,
                old(first).directory(),
                seq!["rev-parse"@, "--verify"@, old(first).refname() + "^{commit}"@],
            );
        }
        if let Step::Done(Err(failure)) = r2 {
            let n = failure@.len() - said(tried.stderr@).len();
            assert(failure@ =~= failure@.take(n) + said(tried.stderr@));
        }
    }
}

} // verus!
