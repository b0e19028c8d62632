//! The git operations the queue needs, behind a trait.
//!
//! The trait exists so the worker can be driven without a repository.
//! [`command::CommandGit`] reads what the `git` command says.
//!
//! Deliberately small. Every method maps onto one git invocation, and the two
//! outcomes that are queue verdicts rather than failures, a merge conflict and
//! a base branch that moved, are returned as values instead of errors.

pub mod asking;
pub mod command;
pub mod laws;

pub use command::CommandGit;

use vstd::prelude::*;

use crate::failure::Failure;
use crate::text;

verus! {

/// A hexadecimal digit, in lower case.
pub open spec fn is_hex(c: char) -> bool {
    '0' <= c <= '9' || 'a' <= c <= 'f'
}

/// A full object id as git prints it: 40 or 64 hexadecimal digits.
pub open spec fn is_object_id(s: Seq<char>) -> bool {
    &&& s.len() == 40 || s.len() == 64
    &&& forall|i: int| 0 <= i < s.len() ==> is_hex(#[trigger] s[i])
}

/// The object id that a text spells, with stray white space and upper case
/// forgiven.
pub open spec fn spelled_id(raw: Seq<char>) -> Seq<char> {
    text::lowercased(text::trimmed(raw))
}

/// A full object id.
///
/// Abbreviations are rejected: the queue compares these for equality to decide
/// whether a base branch moved, and an abbreviation would make that comparison
/// depend on how the id was printed.
#[derive(Debug, PartialEq, Eq, Hash, PartialOrd, Ord)]
pub struct Sha {
    id: String,
}

/// A text that is not a full object id.
#[derive(Debug, PartialEq, Eq)]
pub struct NotAnObjectId {
    pub raw: String,
}

impl View for Sha {
    type V = Seq<char>;

    closed spec fn view(&self) -> Seq<char> {
        self.id@
    }
}

impl Clone for Sha {
    fn clone(&self) -> (r: Self)
        ensures
            r == *self,
    {
        proof {
            use_type_invariant(self);
        }
        Sha { id: self.id.clone() }
    }
}

impl Sha {
    #[verifier::type_invariant]
    spec fn is_full(self) -> bool {
        is_object_id(self.id@)
    }

    pub fn parse(raw: &str) -> (r: Result<Self, NotAnObjectId>)
        ensures
            match r {
                Ok(sha) => sha@ == spelled_id(raw@) && is_object_id(sha@),
                Err(e) => e.raw@ == raw@ && !is_object_id(spelled_id(raw@)),
            },
    {
        let id = text::to_lower(&text::trim(raw));
        let chars = text::chars_of(&id);
        let full_length = chars.len() == 40 || chars.len() == 64;
        if !full_length {
            return Err(NotAnObjectId { raw: raw.to_string() });
        }
        for i in 0..chars.len()
            invariant
                chars@ == id@,
                id@ == spelled_id(raw@),
                forall|j: int| 0 <= j < i ==> is_hex(#[trigger] id@[j]),
        {
            let c: char = chars[i];
            if !(('0' <= c && c <= '9') || ('a' <= c && c <= 'f')) {
                return Err(NotAnObjectId { raw: raw.to_string() });
            }
        }
        Ok(Sha { id })
    }

    pub fn as_str(&self) -> (r: &str)
        ensures
            r@ == self@,
            is_object_id(r@),
    {
        proof {
            use_type_invariant(self);
        }
        self.id.as_str()
    }

    /// Whether two ids name the same object.
    pub fn same(&self, other: &Sha) -> (r: bool)
        ensures
            r == (self@ == other@),
    {
        self.id == other.id
    }

    /// The first characters of the id, enough to recognise it by.
    pub fn short(&self) -> (r: String)
        ensures
            r@ == self@.take(7),
    {
        proof {
            use_type_invariant(self);
        }
        let chars = text::chars_of(&self.id);
        text::text_of(vstd::slice::slice_subrange(chars.as_slice(), 0, 7))
    }
}

impl NotAnObjectId {
    pub fn message(&self) -> (r: String)
        ensures
            r@ == "not a full object id: "@ + text::quoted_text(self.raw@),
    {
        let mut r = "not a full object id: ".to_string();
        r.append(&text::quoted(&self.raw));
        r
    }
}

/// A full object id is spelled by itself, so an id written down reads back as
/// the same id.
pub proof fn object_id_spells_itself(id: Seq<char>)
    requires
        is_object_id(id),
    ensures
        spelled_id(id) == id,
{
    assert(is_hex(id[0]) && is_hex(id[id.len() - 1]));
    assert(text::trimmed(id) == id);
    assert(text::lowercased(id) =~= id);
}

/// The result of merging one branch into the candidate under construction.
#[derive(Debug, PartialEq, Eq)]
pub enum MergeOutcome {
    Merged(Sha),
    /// A textual conflict. This is a verdict on the entry, not an error: the
    /// entry cannot be integrated at this base and the queue must say so.
    Conflicted,
}

/// The result of moving a base branch.
#[derive(Debug, Clone, Copy, PartialEq, Eq, Structural)]
pub enum RefUpdate {
    Updated,
    /// The branch was not where we last saw it, so whatever we gated was gated
    /// against a base that no longer applies.
    Stale,
}

/// One checkout attached to a repository.
#[derive(Debug, PartialEq, Eq)]
pub struct Worktree {
    pub path: String,
    /// `None` for a detached HEAD.
    pub branch: Option<String>,
}

/// What a checkout is: where, and on which branch.
pub struct WorktreeView {
    pub path: Seq<char>,
    pub branch: Option<Seq<char>>,
}

impl View for Worktree {
    type V = WorktreeView;

    open spec fn view(&self) -> WorktreeView {
        WorktreeView { path: self.path@, branch: text::optional(self.branch) }
    }
}

/// The checkouts of a list.
pub open spec fn worktree_views(list: Seq<Worktree>) -> Seq<WorktreeView> {
    Seq::new(list.len(), |i: int| list[i]@)
}

pub trait Git {
    /// Resolve a ref to the commit it points at.
    fn resolve(&self, refname: &str) -> Result<Sha, Failure>;

    /// Every checkout attached to the repository, including the primary one.
    fn worktrees(&self) -> Result<Vec<Worktree>, Failure>;

    /// Put the integration checkout on this commit with a detached HEAD.
    ///
    /// Tracked changes are discarded. Untracked files are left alone, so a
    /// build cache survives from one candidate to the next.
    fn checkout_detached(&self, at: &Sha) -> Result<(), Failure>;

    /// Merge a commit into the integration checkout's current HEAD.
    fn merge(&self, commit: &Sha, message: &str) -> Result<MergeOutcome, Failure>;

    /// Move a branch from one commit to another, atomically, failing if it is
    /// not currently at `from`.
    fn fast_forward(&self, refname: &str, from: &Sha, to: &Sha) -> Result<RefUpdate, Failure>;

    /// Read a file as it exists in a commit, or `None` if the commit has no
    /// such path.
    ///
    /// Out of the commit, deliberately, never off a working tree: the merge gate
    /// command is read this way, and reading it from disk would let whatever a
    /// candidate leaves in the integration checkout decide what the worker
    /// runs.
    fn read_file_at(&self, at: &Sha, path: &str) -> Result<Option<String>, Failure>;
}

/// A branch by its own name: `main` and `refs/heads/main` name the same branch.
pub open spec fn branch_name(refname: Seq<char>) -> Seq<char> {
    if text::begins_with(refname, "refs/heads/"@) {
        refname.skip("refs/heads/"@.len() as int)
    } else {
        refname
    }
}

/// Whether a checkout has the named branch checked out.
pub open spec fn holds(w: WorktreeView, refname: Seq<char>) -> bool {
    match w.branch {
        Some(branch) => branch_name(branch) == branch_name(refname),
        None => false,
    }
}

/// The paths of the checkouts that have the named branch checked out, in the
/// order in which the checkouts are listed.
pub open spec fn holders(list: Seq<WorktreeView>, refname: Seq<char>) -> Seq<Seq<char>> {
    list.filter(|w: WorktreeView| holds(w, refname)).map_values(|w: WorktreeView| w.path)
}

/// `main` and `refs/heads/main` name the same branch.
pub fn normalise_ref(refname: &str) -> (r: String)
    ensures
        r@ == branch_name(refname@),
{
    match text::strip_prefix(refname, "refs/heads/") {
        Some(rest) => rest,
        None => refname.to_string(),
    }
}

/// The paths of the listed checkouts that have `refname` checked out.
pub fn holding(list: &Vec<Worktree>, refname: &str) -> (r: Vec<String>)
    ensures
        text::texts(r@) == holders(worktree_views(list@), refname@),
{
    let wanted = normalise_ref(refname);
    let mut r: Vec<String> = Vec::new();
    let ghost views = worktree_views(list@);
    let ghost pred = |w: WorktreeView| holds(w, refname@);
    let ghost path = |w: WorktreeView| w.path;
    proof {
        reveal(Seq::filter);
    }
    for i in 0..list.len()
        invariant
            views == worktree_views(list@),
            pred == (|w: WorktreeView| holds(w, refname@)),
            path == (|w: WorktreeView| w.path),
            wanted@ == branch_name(refname@),
            text::texts(r@) == views.take(i as int).filter(pred).map_values(path),
    {
        proof {
            crate::seqs::filter_take(views, i as int, pred);
        }
        let held = match &list[i].branch {
            Some(branch) => normalise_ref(branch) == wanted,
            None => false,
        };
        assert(held == pred(views[i as int]));
        if held {
            let ghost before = r@;
            r.push(list[i].path.clone());
            assert(text::texts(r@) =~= text::texts(before).push(list[i as int].path@));
            assert(views.take(i + 1).filter(pred).map_values(path) =~= views.take(
                i as int,
            ).filter(pred).map_values(path).push(views[i as int].path));
        }
    }
    assert(views.take(views.len() as int) =~= views);
    r
}

/// Checkouts that currently have `refname` checked out. Empty means the ref is
/// safe to move.
///
/// This guard is not optional. `git update-ref` moves a branch that is checked
/// out, in the current worktree or in another one, with no warning and no
/// refusal, and leaves that checkout's index disagreeing with its HEAD so the
/// whole difference shows up as staged changes. Git will not stop the queue
/// from corrupting somebody's working copy, so the queue stops itself.
///
/// The intended layout follows from this: the base branch is checked out
/// nowhere. The integration checkout runs on a detached HEAD, and developers
/// work on feature branches.
pub fn checkouts_holding<G: Git>(git: &G, refname: &str) -> (r: Result<Vec<String>, Failure>)
    ensures
        match r {
            Ok(found) => exists|list: Vec<Worktree>|
                call_ensures(G::worktrees, (git,), Ok::<Vec<Worktree>, Failure>(list))
                    && text::texts(found@) == #[trigger] holders(worktree_views(list@), refname@),
            Err(failure) => call_ensures(G::worktrees, (git,), Err::<Vec<Worktree>, Failure>(failure)),
        },
{
    match git.worktrees() {
        Ok(list) => Ok(holding(&list, refname)),
        Err(failure) => Err(failure),
    }
}

/// The guard does not depend on how either side spells the branch.
pub proof fn spelling_is_irrelevant(w: WorktreeView, short: Seq<char>)
    requires
        !text::begins_with(short, "refs/heads/"@),
    ensures
        holds(w, "refs/heads/"@ + short) == holds(w, short),
        w.branch == Some(short) || w.branch == Some("refs/heads/"@ + short) ==> holds(w, short),
{
    let long = "refs/heads/"@ + short;
    assert(long.take("refs/heads/"@.len() as int) =~= "refs/heads/"@);
    assert(long.skip("refs/heads/"@.len() as int) =~= short);
}

} // verus!
