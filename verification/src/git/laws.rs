//! What reading git's answers is for.

use vstd::prelude::*;

use crate::git::command::checkouts;
use crate::git::command::listed;
use crate::git::command::parse_worktrees;
use crate::git::command::qualify;
use crate::git::command::Listing;
use crate::git::holders;
use crate::git::holds;
use crate::git::worktree_views;
use crate::git::Sha;
use crate::git::Worktree;
use crate::git::WorktreeView;
use crate::text::begins_with;
use crate::text::is_white_space;
use crate::text::text_lines;
use crate::text::trimmed;
use crate::wording::begins_with_the_first;
use crate::wording::is_blank;
use crate::wording::is_plain;
use crate::wording::lines_read_back;
use crate::wording::trimming_leaves_the_middle;
use crate::wording::written_lines;

verus! {

/// The lines that list a checkout: where it is, which commit it is at, which
/// branch it has checked out or that it has none, and a blank line.
pub open spec fn record(checkout: WorktreeView, head: Seq<char>) -> Seq<Seq<char>> {
    seq![
        "worktree "@ + checkout.path,
        "HEAD "@ + head,
        match checkout.branch {
            Some(branch) => "branch "@ + branch,
            None => "detached"@,
        },
        Seq::empty(),
    ]
}

/// The lines that list a number of checkouts.
pub open spec fn records(list: Seq<WorktreeView>, heads: Seq<Seq<char>>) -> Seq<Seq<char>>
    decreases list.len(),
{
    if list.len() == 0 {
        Seq::empty()
    } else {
        records(list.drop_last(), heads.drop_last()) + record(list.last(), heads.last())
    }
}

/// The checkouts can be listed, each of its lines as one line.
pub open spec fn can_be_listed(list: Seq<WorktreeView>, heads: Seq<Seq<char>>) -> bool {
    &&& list.len() == heads.len()
    &&& forall|i: int|
        0 <= i < list.len() ==> {
            &&& is_plain(#[trigger] list[i].path)
            &&& list[i].branch matches Some(branch) ==> is_plain(branch)
            &&& is_plain(heads[i])
        }
}

/// How the words begin and how long they are.
proof fn the_words()
    ensures
        "worktree "@.len() == 9 && "worktree "@[0] == 'w' && is_plain("worktree "@),
        "HEAD "@.len() == 5 && "HEAD "@[0] == 'H' && is_plain("HEAD "@),
        "branch "@.len() == 7 && "branch "@[0] == 'b' && is_plain("branch "@),
        "detached"@.len() == 8 && "detached"@[0] == 'd' && is_plain("detached"@),
        !is_white_space("detached"@[7]),
{
    reveal_strlit("worktree ");
    reveal_strlit("HEAD ");
    reveal_strlit("branch ");
    reveal_strlit("detached");
}

/// A line that follows a word is read as what follows the word, and as no other
/// word.
proof fn a_word_is_read(rest: Seq<char>)
    ensures
        begins_with("worktree "@ + rest, "worktree "@),
        ("worktree "@ + rest).skip("worktree "@.len() as int) == rest,
        begins_with("branch "@ + rest, "branch "@),
        ("branch "@ + rest).skip("branch "@.len() as int) == rest,
        !begins_with("branch "@ + rest, "worktree "@),
        !begins_with("HEAD "@ + rest, "worktree "@),
        !begins_with("HEAD "@ + rest, "branch "@),
        !begins_with("detached"@, "worktree "@),
        !begins_with("detached"@, "branch "@),
        !begins_with(Seq::<char>::empty(), "worktree "@),
        !begins_with(Seq::<char>::empty(), "branch "@),
{
    the_words();
    let w = "worktree "@;
    let b = "branch "@;
    assert((w + rest).take(w.len() as int) =~= w);
    assert((w + rest).skip(w.len() as int) =~= rest);
    assert((b + rest).take(b.len() as int) =~= b);
    assert((b + rest).skip(b.len() as int) =~= rest);
    if begins_with(b + rest, w) {
        assert((b + rest).take(w.len() as int)[0] == w[0]);
    }
    if begins_with("HEAD "@ + rest, w) {
        assert(("HEAD "@ + rest).take(w.len() as int)[0] == w[0]);
    }
    if begins_with("HEAD "@ + rest, b) {
        assert(("HEAD "@ + rest).take(b.len() as int)[0] == b[0]);
    }
    if begins_with("detached"@, b) {
        assert("detached"@.take(b.len() as int)[0] == b[0]);
    }
}

/// What has been read after the records of a number of checkouts, and after the
/// first three lines of the last.
proof fn the_records_are_read(list: Seq<WorktreeView>, heads: Seq<Seq<char>>)
    requires
        list.len() == heads.len(),
    ensures
        records(list, heads).len() == 4 * list.len(),
        list.len() == 0 ==> listed(records(list, heads)) == (Listing {
            found: Seq::empty(),
            path: None,
            branch: None,
        }),
        list.len() > 0 ==> {
            &&& listed(records(list, heads)) == listed(records(list, heads).drop_last())
            &&& listed(records(list, heads)) == (Listing {
                found: list.drop_last(),
                path: Some(list.last().path),
                branch: list.last().branch,
            })
        },
    decreases list.len(),
{
    if list.len() > 0 {
        the_records_are_read(list.drop_last(), heads.drop_last());
        let had = records(list.drop_last(), heads.drop_last());
        let checkout = list.last();
        let r = record(checkout, heads.last());
        let l1 = had.push(r[0]);
        let l2 = l1.push(r[1]);
        let l3 = l2.push(r[2]);
        let l4 = l3.push(r[3]);
        assert(records(list, heads) =~= l4);
        assert(l4.drop_last() =~= l3);
        assert(l3.drop_last() =~= l2);
        assert(l2.drop_last() =~= l1);
        assert(l1.drop_last() =~= had);
        a_word_is_read(checkout.path);
        a_word_is_read(heads.last());
        if checkout.branch is Some {
            a_word_is_read(checkout.branch->0);
        }
        if list.len() > 1 {
            let before = list.drop_last();
            assert(before.drop_last().push(WorktreeView {
                path: before.last().path,
                branch: before.last().branch,
            }) =~= before);
        } else {
            assert(list.drop_last() =~= Seq::<WorktreeView>::empty());
        }
        assert(listed(l1) == (Listing {
            found: list.drop_last(),
            path: Some(checkout.path),
            branch: None,
        }));
        assert(listed(l2) == listed(l1));
        assert(listed(l3).branch == checkout.branch);
        assert(listed(l4) == listed(l3));
    }
}

proof fn records_are_plain(list: Seq<WorktreeView>, heads: Seq<Seq<char>>)
    requires
        can_be_listed(list, heads),
    ensures
        forall|i: int| 0 <= i < records(list, heads).len() ==> is_plain(
            #[trigger] records(list, heads)[i],
        ),
    decreases list.len(),
{
    if list.len() > 0 {
        let n = list.len() - 1;
        let less = list.drop_last();
        let fewer = heads.drop_last();
        assert forall|i: int| 0 <= i < less.len() implies {
            &&& is_plain(#[trigger] less[i].path)
            &&& less[i].branch matches Some(branch) ==> is_plain(branch)
            &&& is_plain(fewer[i])
        } by {
            assert(less[i] == list[i]);
            assert(is_plain(list[i].path));
        }
        assert(can_be_listed(less, fewer));
        records_are_plain(less, fewer);
        the_words();
        assert(is_plain(list[n].path));
        let r = record(list.last(), heads.last());
        assert(is_plain(r[0]));
        assert(is_plain(r[1]));
        assert(is_plain(r[2]));
        assert(is_plain(r[3]));
        let had = records(less, fewer);
        assert forall|i: int| 0 <= i < records(list, heads).len() implies is_plain(
            #[trigger] records(list, heads)[i],
        ) by {
            if i < had.len() {
                assert(records(list, heads)[i] == had[i]);
            } else {
                assert(records(list, heads)[i] == r[i - had.len()]);
            }
        }
    }
}

/// Reading the listing of any checkouts gives back those checkouts: the same
/// paths, the same branches, in the same order, however many there are and
/// wherever in the list a checkout stands.
pub proof fn a_listing_reads_back(list: Seq<WorktreeView>, heads: Seq<Seq<char>>)
    requires
        can_be_listed(list, heads),
    ensures
        checkouts(written_lines(records(list, heads))) == list,
{
    records_are_plain(list, heads);
    lines_read_back(records(list, heads), Seq::empty());
    the_records_are_read(list, heads);
    if list.len() > 0 {
        let last = list.last();
        assert(list.drop_last().push(WorktreeView { path: last.path, branch: last.branch })
            =~= list);
    } else {
        assert(list =~= Seq::empty());
    }
}

/// So it does of the listing without the white space at its end, where the last
/// branch does not end in white space itself.
pub proof fn a_trimmed_listing_reads_back(list: Seq<WorktreeView>, heads: Seq<Seq<char>>)
    requires
        can_be_listed(list, heads),
        list.len() > 0 ==> (list.last().branch matches Some(branch) ==> branch.len() > 0
            && !is_white_space(branch[branch.len() - 1])),
    ensures
        checkouts(trimmed(written_lines(records(list, heads)))) == list,
{
    records_are_plain(list, heads);
    the_records_are_read(list, heads);
    let all = records(list, heads);
    if list.len() == 0 {
        assert(all =~= Seq::<Seq<char>>::empty());
        assert(trimmed(written_lines(all)) == written_lines(all));
        a_listing_reads_back(list, heads);
    } else {
        the_words();
        first_line(list, heads);
        let n = all.len() as int;
        let r = record(list.last(), heads.last());
        assert(all[n - 1] == r[3] && all[n - 2] == r[2]);
        assert(all[0][0] == 'w');
        a_blank_line_is_cut(all);
        let last = list.last();
        assert(list.drop_last().push(WorktreeView { path: last.path, branch: last.branch })
            =~= list);
    }
}

/// Cutting the white space off lines that end in a blank one leaves the others.
proof fn a_blank_line_is_cut(lines: Seq<Seq<char>>)
    requires
        forall|i: int| 0 <= i < lines.len() ==> is_plain(#[trigger] lines[i]),
        lines.len() >= 3,
        lines[lines.len() - 1].len() == 0,
        lines[lines.len() - 2].len() > 0,
        !is_white_space(lines[lines.len() - 2][lines[lines.len() - 2].len() - 1]),
        lines[0].len() > 0,
        !is_white_space(lines[0][0]),
    ensures
        text_lines(trimmed(written_lines(lines))) == lines.drop_last(),
{
    let n = lines.len() as int;
    let open = lines[n - 2];
    let most = lines.take(n - 2);
    let text = written_lines(lines);
    let middle = written_lines(most) + open;
    let none = Seq::<char>::empty();
    let trail = seq!['\n', '\n'];
    assert(text == none + middle + trail) by {
        assert(lines.drop_last().drop_last() =~= most);
        assert(lines.drop_last().last() == open);
        assert(written_lines(lines.drop_last()) == middle.push('\n'));
        assert(middle.push('\n') + lines.last() =~= middle.push('\n'));
        assert(text =~= middle.push('\n').push('\n'));
        assert(none + middle + trail =~= middle.push('\n').push('\n'));
    }
    assert(trimmed(text) == middle) by {
        begins_with_the_first(most);
        assert(middle[0] == lines[0][0]);
        assert(middle[middle.len() - 1] == open[open.len() - 1]);
        assert(is_blank(trail));
        trimming_leaves_the_middle(none, middle, trail);
    }
    assert(text_lines(middle) == most.push(open)) by {
        assert forall|i: int| 0 <= i < most.len() implies is_plain(#[trigger] most[i]) by {
            assert(most[i] == lines[i]);
        }
        assert(is_plain(lines[n - 2]));
        lines_read_back(most, open);
    }
    assert(most.push(open) =~= lines.drop_last());
}

proof fn first_line(list: Seq<WorktreeView>, heads: Seq<Seq<char>>)
    requires
        list.len() == heads.len(),
        list.len() > 0,
    ensures
        records(list, heads).len() > 0,
        records(list, heads)[0] == "worktree "@ + list[0].path,
    decreases list.len(),
{
    if list.len() > 1 {
        first_line(list.drop_last(), heads.drop_last());
    } else {
        assert(records(list.drop_last(), heads.drop_last()) =~= Seq::<Seq<char>>::empty());
    }
}

/// A line that names neither a path nor a branch says nothing of which checkouts
/// there are, wherever it stands.
pub proof fn other_lines_say_nothing(
    before: Seq<Seq<char>>,
    line: Seq<char>,
    after: Seq<Seq<char>>,
)
    requires
        !begins_with(line, "worktree "@),
        !begins_with(line, "branch "@),
    ensures
        listed(before.push(line) + after) == listed(before + after),
    decreases after.len(),
{
    let with = before.push(line) + after;
    let without = before + after;
    if after.len() == 0 {
        assert(with =~= before.push(line));
        assert(without =~= before);
        assert(with.drop_last() =~= before);
    } else {
        other_lines_say_nothing(before, line, after.drop_last());
        assert(with.drop_last() =~= before.push(line) + after.drop_last());
        assert(without.drop_last() =~= before + after.drop_last());
        assert(with.last() == without.last());
    }
}

/// What the function that reads a listing returns is what was listed.
pub proof fn what_was_listed_is_returned(
    list: Seq<WorktreeView>,
    heads: Seq<Seq<char>>,
    porcelain: &str,
    r: Vec<Worktree>,
)
    requires
        can_be_listed(list, heads),
        porcelain@ == written_lines(records(list, heads)),
        call_ensures(parse_worktrees, (porcelain,), r),
    ensures
        r@.len() == list.len(),
        forall|i: int|
            0 <= i < list.len() ==> {
                &&& (#[trigger] r@[i]).path@ == list[i].path
                &&& r@[i].branch is Some <==> list[i].branch is Some
                &&& r@[i].branch matches Some(branch) ==> Some(branch@) == list[i].branch
            },
{
    a_listing_reads_back(list, heads);
    assert(worktree_views(r@) == list);
    assert forall|i: int| 0 <= i < list.len() implies {
        &&& (#[trigger] r@[i]).path@ == list[i].path
        &&& r@[i].branch is Some <==> list[i].branch is Some
        &&& r@[i].branch matches Some(branch) ==> Some(branch@) == list[i].branch
    } by {
        assert(worktree_views(r@)[i] == r@[i]@);
    }
}

/// A checkout has a branch exactly where it names it, in short or in full.
pub proof fn a_branch_is_held_under_either_name(w: WorktreeView, short: Seq<char>)
    requires
        !begins_with(short, "refs/heads/"@),
    ensures
        holds(w, short) <==> w.branch == Some(short) || w.branch == Some("refs/heads/"@ + short),
{
    let full = "refs/heads/"@;
    let n = full.len() as int;
    assert((full + short).take(n) =~= full);
    assert((full + short).skip(n) =~= short);
    if let Some(branch) = w.branch {
        if begins_with(branch, full) {
            assert(branch =~= branch.take(n) + branch.skip(n));
        }
    }
}

/// The checkouts that hold a branch are exactly those that have it, under its short
/// or its full name: each such path is there, no other is, and there is none
/// exactly where nobody has the branch.
pub proof fn who_holds_a_branch(list: Seq<Worktree>, short: Seq<char>)
    requires
        !begins_with(short, "refs/heads/"@),
    ensures
        ({
            let has = |w: Worktree|
                w.branch matches Some(b) && (b@ == short || b@ == "refs/heads/"@ + short);
            let held = holders(worktree_views(list), short);
            &&& held.len() == 0 <==> !exists|i: int| 0 <= i < list.len() && has(#[trigger] list[i])
            &&& forall|path: Seq<char>| #[trigger]
                held.contains(path) <==> exists|i: int|
                    0 <= i < list.len() && has(#[trigger] list[i]) && list[i].path@ == path
        }),
{
    let has = |w: Worktree|
        w.branch matches Some(b) && (b@ == short || b@ == "refs/heads/"@ + short);
    let views = worktree_views(list);
    let pred = |w: WorktreeView| holds(w, short);
    let kept = views.filter(pred);
    let held = holders(views, short);
    assert forall|i: int| 0 <= i < list.len() implies pred(views[i]) == has(#[trigger] list[i]) by {
        a_branch_is_held_under_either_name(list[i]@, short);
    }
    assert forall|path: Seq<char>| #[trigger] held.contains(path) <==> exists|i: int|
        0 <= i < list.len() && has(#[trigger] list[i]) && list[i].path@ == path by {
        if held.contains(path) {
            let k = choose|k: int| 0 <= k < held.len() && held[k] == path;
            views.lemma_filter_pred(pred, k);
            views.lemma_filter_contains_rev(pred, kept[k]);
            let i = choose|i: int| 0 <= i < views.len() && views[i] == kept[k];
            assert(has(list[i]) && list[i].path@ == path);
        }
        if exists|i: int| 0 <= i < list.len() && has(#[trigger] list[i]) && list[i].path@ == path {
            let i = choose|i: int|
                0 <= i < list.len() && has(#[trigger] list[i]) && list[i].path@ == path;
            assert(pred(views[i]));
            views.lemma_filter_contains(pred, i);
            let k = choose|k: int| 0 <= k < kept.len() && kept[k] == views[i];
            assert(held[k] == path);
        }
    }
    if held.len() > 0 {
        assert(held.contains(held[0]));
    }
    if exists|i: int| 0 <= i < list.len() && has(#[trigger] list[i]) {
        let i = choose|i: int| 0 <= i < list.len() && has(#[trigger] list[i]);
        assert(held.contains(list[i].path@));
    }
}

/// One checkout more adds its path at the end where it holds the branch, and
/// nothing where it does not.
pub proof fn holders_are_in_the_order_of_the_list(
    list: Seq<WorktreeView>,
    w: WorktreeView,
    short: Seq<char>,
)
    requires
        !begins_with(short, "refs/heads/"@),
    ensures
        holders(list.push(w), short) == (if w.branch == Some(short) || w.branch == Some(
            "refs/heads/"@ + short,
        ) {
            holders(list, short).push(w.path)
        } else {
            holders(list, short)
        }),
{
    a_branch_is_held_under_either_name(w, short);
    let pred = |w: WorktreeView| holds(w, short);
    reveal(Seq::filter);
    assert(list.push(w).drop_last() =~= list);
    assert(holders(list.push(w), short) =~= if pred(w) {
        holders(list, short).push(w.path)
    } else {
        holders(list, short)
    });
}

/// A branch is spelled out once: a short name under the heads, and a full one as it
/// is. Spelling it out and cutting it short again gives back the short name.
pub proof fn a_branch_is_spelled_out_once(refname: &str, r: String, short: String)
    requires
        call_ensures(qualify, (refname,), r),
        call_ensures(crate::git::normalise_ref, (refname,), short),
    ensures
        begins_with(r@, "refs/"@),
        begins_with(refname@, "refs/"@) ==> r@ == refname@,
        !begins_with(refname@, "refs/"@) ==> r@ == "refs/heads/"@ + refname@ && short@ == refname@,
        refname@ == "refs/heads/"@ + short@ || short@ == refname@,
        begins_with(refname@, "refs/heads/"@) ==> refname@ == "refs/heads/"@ + short@,
{
    reveal_strlit("refs/");
    reveal_strlit("refs/heads/");
    let full = "refs/heads/"@;
    let n = full.len() as int;
    assert(full.take(5) =~= "refs/"@);
    if begins_with(refname@, full) {
        assert(refname@ =~= refname@.take(n) + refname@.skip(n));
        assert(refname@.take(5) =~= refname@.take(n).take(5));
        assert(begins_with(refname@, "refs/"@));
    }
    let long = full + refname@;
    assert(long.take(5) =~= full.take(5));
}

/// A text is a commit's name exactly where it is, white space aside, forty or
/// sixty-four hexadecimal digits, in either case. It is kept in lower case, digit
/// for digit.
pub proof fn only_a_full_name_names_a_commit(
    lead: Seq<char>,
    id: Seq<char>,
    trail: Seq<char>,
    raw: &str,
    r: Result<Sha, crate::git::NotAnObjectId>,
)
    requires
        is_blank(lead),
        is_blank(trail),
        id.len() > 0 ==> !is_white_space(id[0]) && !is_white_space(id[id.len() - 1]),
        raw@ == lead + id + trail,
        call_ensures(Sha::parse, (raw,), r),
    ensures
        r is Ok <==> (id.len() == 40 || id.len() == 64) && forall|i: int|
            0 <= i < id.len() ==> '0' <= #[trigger] id[i] <= '9' || 'a' <= id[i] <= 'f' || 'A'
                <= id[i] <= 'F',
        r matches Ok(sha) ==> sha@.len() == id.len() && forall|i: int|
            0 <= i < id.len() ==> #[trigger] sha@[i] as int == (if 'A' <= id[i] <= 'F' {
                id[i] as int + 32
            } else {
                id[i] as int
            }),
        r matches Err(e) ==> e.raw@ == raw@,
{
    trimming_leaves_the_middle(lead, id, trail);
    let low = crate::text::lowercased(id);
    assert forall|i: int| 0 <= i < id.len() implies (crate::git::is_hex(#[trigger] low[i]) <==> '0'
        <= id[i] <= '9' || 'a' <= id[i] <= 'f' || 'A' <= id[i] <= 'F') by {
        crate::wording::case_is_of_letters(id, i);
    }
    assert(low.len() == id.len());
    if r is Ok {
        assert forall|i: int| 0 <= i < id.len() implies '0' <= #[trigger] id[i] <= '9' || 'a'
            <= id[i] <= 'f' || 'A' <= id[i] <= 'F' by {
            assert(crate::git::is_hex(low[i]));
        }
    } else if (id.len() == 40 || id.len() == 64) && forall|i: int|
        0 <= i < id.len() ==> '0' <= #[trigger] id[i] <= '9' || 'a' <= id[i] <= 'f' || 'A' <= id[i]
            <= 'F' {
        assert forall|i: int| 0 <= i < low.len() implies crate::git::is_hex(#[trigger] low[i]) by {
            assert('0' <= id[i] <= '9' || 'a' <= id[i] <= 'f' || 'A' <= id[i] <= 'F');
        }
        assert(false);
    }
}

/// The guard names every checkout that git lists as having the branch, and no
/// other, and passes on what went wrong where git could not list them.
pub proof fn the_guard_names_every_holder<G: crate::git::Git>(
    git: &G,
    refname: &str,
    r: Result<Vec<String>, crate::failure::Failure>,
)
    requires
        call_ensures(crate::git::checkouts_holding::<G>, (git, refname), r),
        !begins_with(refname@, "refs/heads/"@),
    ensures
        r matches Ok(found) ==> exists|list: Vec<Worktree>|
            {
                &&& call_ensures(
                    G::worktrees,
                    (git,),
                    Ok::<Vec<Worktree>, crate::failure::Failure>(list),
                )
                &&& #[trigger] names_the_holders(found@, list@, refname@)
            },
        r matches Err(failure) ==> call_ensures(
            G::worktrees,
            (git,),
            Err::<Vec<Worktree>, crate::failure::Failure>(failure),
        ),
{
    if let Ok(found) = r {
        let list = choose|list: Vec<Worktree>|
            call_ensures(
                G::worktrees,
                (git,),
                Ok::<Vec<Worktree>, crate::failure::Failure>(list),
            ) && crate::text::texts(found@) == #[trigger] holders(
                worktree_views(list@),
                refname@,
            );
        who_holds_a_branch(list@, refname@);
        assert(names_the_holders(found@, list@, refname@));
    }
}

/// The paths are those of the checkouts that have the branch.
pub open spec fn names_the_holders(
    found: Seq<String>,
    list: Seq<Worktree>,
    short: Seq<char>,
) -> bool {
    forall|path: Seq<char>| #[trigger]
        crate::text::texts(found).contains(path) <==> exists|i: int|
            0 <= i < list.len() && (#[trigger] list[i]).path@ == path && (
            list[i].branch matches Some(b) && (b@ == short || b@ == "refs/heads/"@ + short))
}

} // verus!
