//! What is said when something cannot be done.

use vstd::prelude::*;

use crate::bytes::ByteSize;
use crate::bytes::SizeError;
use crate::config::ConfigError;
use crate::db::BadStamp;
use crate::db::Dangling;
use crate::failure::Failure;
use crate::gate::ends_in;
use crate::gate::marker;
use crate::gate::script;
use crate::gate::with_context;
use crate::git::NotAnObjectId;
use crate::git::Sha;
use crate::queue::lease::LeaseError;
use crate::queue::outcome::IllegalOutcomeTransition;
use crate::queue::state::IllegalCandidateTransition;
use crate::queue::state::IllegalEntryTransition;
use crate::queue::state::UnknownState;
use crate::queue::store::StoreError;
use crate::text::begins_with;
use crate::text::decimal;
use crate::text::integer;
use crate::text::occurs;
use crate::text::quoted_text;
use crate::tick::TickError;
use crate::worker::Fault;
use crate::worker::WorkOptions;

verus! {

/// A step that the queue does not take says what it is about: the entry, the
/// candidate, the branch or the state, as it was given.
pub proof fn a_refused_step_says_what_it_is_about(e: &StoreError, r: String)
    requires
        call_ensures(StoreError::message, (e,), r),
    ensures
        match e {
            StoreError::AlreadyLive { branch } => begins_with(r@, branch@),
            StoreError::UnknownEntry { id } => r@ == "no entry "@ + integer(*id as int),
            StoreError::UnknownCandidate { id } => r@ == "no candidate "@ + integer(*id as int),
            StoreError::NothingToMove { id, state } => r@ == "no candidate "@ + integer(*id as int)
                + " to move to "@ + state.name(),
            StoreError::RepeatedEntry { id } => begins_with(r@, "entry "@ + integer(*id as int)),
            StoreError::NotAnObjectId { raw } => crate::gate::ends_in(r@, quoted_text(raw@)),
            StoreError::NotAbandonment { state } => begins_with(r@, state.name()),
            StoreError::NoCommit { id } => begins_with(r@, "candidate "@ + integer(*id as int)),
            StoreError::AttemptsOverflow { id } => begins_with(r@, "entry "@ + integer(*id as int)),
            StoreError::NotWaiting { id } => begins_with(r@, "entry "@ + integer(*id as int)),
            StoreError::OutOfOrder { id } => begins_with(r@, "row "@ + integer(*id as int)),
            StoreError::NoEntries => r@ == "refusing to open a candidate over no entries"@,
            StoreError::OutOfNumbers => r@ == "there is no number left to give out"@,
            StoreError::AlreadyLeased => r@ == "the base branch already has a lease"@,
        },
{
    match e {
        StoreError::AlreadyLive { branch } => {
            crate::wording::beginning_is(
                branch@,
                branch@,
                " is already in the queue at this commit"@,
            );
        },
        StoreError::RepeatedEntry { id } => {
            let lead = "entry "@ + integer(*id as int);
            crate::wording::beginning_is(lead, lead, " is listed twice"@);
        },
        StoreError::NotAbandonment { state } => {
            crate::wording::beginning_is(
                state.name(),
                state.name(),
                " is not a way to abandon a candidate"@,
            );
        },
        StoreError::NoCommit { id } => {
            let lead = "candidate "@ + integer(*id as int);
            crate::wording::beginning_is(lead, lead, " does not name its commit"@);
        },
        StoreError::AttemptsOverflow { id } => {
            let lead = "entry "@ + integer(*id as int);
            crate::wording::beginning_is(lead, lead, " cannot be tried again"@);
        },
        StoreError::NotWaiting { id } => {
            let lead = "entry "@ + integer(*id as int);
            crate::wording::beginning_is(lead, lead, " is not waiting"@);
        },
        StoreError::OutOfOrder { id } => {
            let lead = "row "@ + integer(*id as int);
            crate::wording::beginning_is(lead, lead, " does not follow the rows before it"@);
        },
        _ => {},
    }
}

/// A tick that failed says what failed: what went wrong outside word for word, and
/// what the lease, the store or the configuration says of it.
pub proof fn a_failed_tick_says_what_failed(e: &TickError, r: String)
    requires
        call_ensures(TickError::message, (e,), r),
    ensures
        match e {
            TickError::Outside(failure) => r@ == failure@,
            TickError::Lease(inner) => r@ == inner.said(),
            TickError::Store(inner) => r@ == inner.said(),
            TickError::Config(inner) => r@ == inner.said(),
            TickError::NoConfig { at } => begins_with(r@, "sasse.toml is missing from "@ + at@),
            TickError::LogsTooLarge => r@ == "the logs take more bytes than can be counted"@,
            TickError::NothingToBisect => r@ == "cannot bisect an empty candidate"@,
        },
{
    if let TickError::NoConfig { at } = e {
        let lead = "sasse.toml is missing from "@ + at@;
        crate::wording::beginning_is(
            lead,
            lead,
            ", so there is no gate to run; the queue will not guess one"@,
        );
    }
}

/// A lease that was lost names its repository and its base branch.
pub proof fn a_lost_lease_is_named(e: &LeaseError, r: String)
    requires
        call_ensures(LeaseError::message, (e,), r),
    ensures
        match e {
            LeaseError::BadStamp { raw } => r@ == "parsing the lease timestamp "@ + quoted_text(
                raw@,
            ),
            LeaseError::TtlOutOfRange => r@ == "the lease would last past the end of the calendar"@,
            LeaseError::Lost { repo_path, base_branch } => begins_with(
                r@,
                "the lease on "@ + repo_path@ + " ("@ + base_branch@ + ")"@,
            ),
        },
{
    if let LeaseError::Lost { repo_path, base_branch } = e {
        reveal_strlit(") is no longer ours; it was reclaimed while we held it");
        reveal_strlit(")");
        let lead = "the lease on "@ + repo_path@ + " ("@ + base_branch@ + ")"@;
        let rest = ") is no longer ours; it was reclaimed while we held it"@.skip(1);
        assert(r@ =~= lead + rest);
        crate::wording::beginning_is(lead, lead, rest);
    }
}

/// What is not a size is quoted, and so is the unit that does not exist.
pub proof fn what_is_no_size_is_quoted(e: &SizeError, r: String)
    requires
        call_ensures(SizeError::message, (e,), r),
    ensures
        match e {
            SizeError::Empty => r@ == "a size cannot be empty"@,
            SizeError::NoNumber { raw } => begins_with(r@, quoted_text(raw@)),
            SizeError::UnknownSuffix { suffix } => begins_with(r@, quoted_text(suffix@)),
            SizeError::NotWhole { number } => begins_with(r@, quoted_text(number@)),
            SizeError::TooLarge { raw } => begins_with(r@, quoted_text(raw@)),
        },
{
    match e {
        SizeError::Empty => {},
        SizeError::NoNumber { raw } => {
            let q = quoted_text(raw@);
            crate::wording::beginning_is(q, q, " does not start with a number"@);
        },
        SizeError::UnknownSuffix { suffix } => {
            let q = quoted_text(suffix@);
            crate::wording::beginning_is(q, q, " is not a size suffix I know"@);
        },
        SizeError::NotWhole { number } => {
            let q = quoted_text(number@);
            crate::wording::beginning_is(q, q, " is not a whole number"@);
        },
        SizeError::TooLarge { raw } => {
            let q = quoted_text(raw@);
            crate::wording::beginning_is(q, q, " is too large to be a size in bytes"@);
        },
    }
}

/// A size is written in the largest unit that divides it, and in bytes where none
/// does: a number and the unit, which make up the size exactly.
pub proof fn a_size_is_written_in_its_largest_unit(size: ByteSize, r: String, n: nat)
    requires
        call_ensures(ByteSize::to_text, (size,), r),
        n > 0,
    ensures
        size@ == n * 1_073_741_824 ==> r@ == decimal(n) + "GB"@,
        size@ == n * 1_048_576 && n % 1024 != 0 ==> r@ == decimal(n) + "MB"@,
        size@ == n * 1024 && n % 1024 != 0 ==> r@ == decimal(n) + "KB"@,
        size@ == n && n % 1024 != 0 ==> r@ == decimal(n) + "B"@,
        size@ == 0 ==> r@ == decimal(0) + "B"@,
{
    let b = size@ as int;
    if b == n * 1_073_741_824 {
        assert(b % 1_073_741_824 == 0 && b / 1_073_741_824 == n as int);
    } else if b == n * 1_048_576 && n % 1024 != 0 {
        assert(b % 1_048_576 == 0 && b / 1_048_576 == n as int);
        assert(b % 1_073_741_824 != 0) by {
            if b % 1_073_741_824 == 0 {
                let k = b / 1_073_741_824;
                assert(b == k * 1_073_741_824);
                assert(n == k * 1024);
            }
        }
    } else if b == n * 1024 && n % 1024 != 0 {
        assert(b % 1024 == 0 && b / 1024 == n as int);
        assert(b % 1_048_576 != 0) by {
            if b % 1_048_576 == 0 {
                let k = b / 1_048_576;
                assert(n == k * 1024);
            }
        }
        assert(b % 1_073_741_824 != 0) by {
            if b % 1_073_741_824 == 0 {
                let k = b / 1_073_741_824;
                assert(n == k * 1_048_576);
            }
        }
    } else if b == n && n % 1024 != 0 {
        assert(b % 1_048_576 != 0) by {
            if b % 1_048_576 == 0 {
                assert(b == (b / 1_048_576) * 1_048_576);
            }
        }
        assert(b % 1_073_741_824 != 0) by {
            if b % 1_073_741_824 == 0 {
                assert(b == (b / 1_073_741_824) * 1_073_741_824);
            }
        }
    }
}

/// A command is handed to the shell as it is, behind the one line that puts what it
/// complains of in with the rest of what it says.
pub proof fn a_command_is_handed_over_as_it_is(command: &str, r: String)
    requires
        call_ensures(script, (command,), r),
    ensures
        r@ == "exec 2>&1\n"@ + command@,
{
}

/// The line that says how much of a log went says the number.
pub proof fn the_marker_says_how_much_went(dropped: u64)
    ensures
        marker(dropped) == vstd::utf8::encode_utf8(
            "\n[sasse dropped "@ + decimal(dropped as nat)
                + " bytes from the middle of this log]\n"@,
        ),
{
}

/// The first of a commit is its first seven digits.
pub proof fn the_first_of_a_commit(sha: &Sha, r: String)
    requires
        call_ensures(Sha::short, (sha,), r),
        sha@.len() >= 7,
    ensures
        r@.len() == 7,
        begins_with(sha@, r@),
{
}

/// A loop that is not told otherwise waits two seconds and puts up with five
/// failures.
pub proof fn how_a_loop_is_paced_by_default(r: WorkOptions)
    requires
        call_ensures(WorkOptions::default, (), r),
    ensures
        r.idle.secs == 2,
        r.idle.nanos == 0,
        r.give_up_after == 5,
{
}

/// A move that is not made names both of its ends.
pub proof fn a_refused_move_names_its_ends(
    entry: &IllegalEntryTransition,
    of_entry: String,
    candidate: &IllegalCandidateTransition,
    of_candidate: String,
    outcome: &IllegalOutcomeTransition,
    of_outcome: String,
)
    requires
        call_ensures(IllegalEntryTransition::message, (entry,), of_entry),
        call_ensures(IllegalCandidateTransition::message, (candidate,), of_candidate),
        call_ensures(IllegalOutcomeTransition::message, (outcome,), of_outcome),
    ensures
        ends_in(of_entry@, entry.from.name() + " -> "@ + entry.to.name()),
        ends_in(of_candidate@, candidate.from.name() + " -> "@ + candidate.to.name()),
        ends_in(of_outcome@, outcome.from.name() + " -> "@ + outcome.to.name()),
{
    let a = "illegal entry transition: "@ + (entry.from.name() + " -> "@ + entry.to.name());
    assert(of_entry@ =~= a);
    let b = "illegal candidate transition: "@ + (candidate.from.name() + " -> "@
        + candidate.to.name());
    assert(of_candidate@ =~= b);
    let c = "illegal outcome transition: "@ + (outcome.from.name() + " -> "@ + outcome.to.name());
    assert(of_outcome@ =~= c);
}

/// What cannot be read is quoted as it was given.
pub proof fn what_cannot_be_read_is_quoted(
    stamp: &BadStamp,
    of_stamp: String,
    id: &NotAnObjectId,
    of_id: String,
    state: &UnknownState,
    of_state: String,
)
    requires
        call_ensures(BadStamp::message, (stamp,), of_stamp),
        call_ensures(NotAnObjectId::message, (id,), of_id),
        call_ensures(UnknownState::message, (state,), of_state),
    ensures
        ends_in(of_stamp@, quoted_text(stamp.raw@)),
        ends_in(of_id@, quoted_text(id.raw@)),
        match state {
            UnknownState::Entry { raw } => ends_in(of_state@, quoted_text(raw@)),
            UnknownState::Candidate { raw } => ends_in(of_state@, quoted_text(raw@)),
        },
{
}

/// A configuration that is refused says which setting it is refused for.
pub proof fn a_refused_configuration_says_why(e: &ConfigError, r: String)
    requires
        call_ensures(ConfigError::message, (e,), r),
    ensures
        match e {
            ConfigError::Malformed { why } => ends_in(r@, why@),
            ConfigError::Unknown { key } => ends_in(r@, quoted_text(key@)),
            ConfigError::Unusable { key } => occurs(r@, quoted_text(key@)),
            ConfigError::EmptyGate => r@ == "sasse.toml declares an empty gate"@,
            ConfigError::ZeroBatch => begins_with(r@, "sasse.toml sets max_batch to 0"@),
            ConfigError::ZeroAttempts => begins_with(r@, "sasse.toml sets max_attempts to 0"@),
        },
{
    match e {
        ConfigError::Unusable { key } => {
            crate::wording::beginning_is(
                "parsing sasse.toml: the setting "@,
                quoted_text(key@),
                " is missing or unusable"@,
            );
        },
        ConfigError::ZeroBatch => {
            reveal_strlit("sasse.toml sets max_batch to 0");
            reveal_strlit(
                "sasse.toml sets max_batch to 0, which would queue forever without ever gating",
            );
            assert(r@.take(30) =~= "sasse.toml sets max_batch to 0"@);
        },
        ConfigError::ZeroAttempts => {
            reveal_strlit("sasse.toml sets max_attempts to 0");
            reveal_strlit(
                "sasse.toml sets max_attempts to 0, which would evict every entry on its first failure",
            );
            assert(r@.take(33) =~= "sasse.toml sets max_attempts to 0"@);
        },
        _ => {},
    }
}

/// How many rows a migration left dangling is in what is said of it.
pub proof fn what_is_left_dangling_is_counted(d: &Dangling, r: String)
    requires
        call_ensures(Dangling::message, (d,), r),
    ensures
        begins_with(r@, "migrating left "@ + integer(d.rows as int)),
{
    let lead = "migrating left "@ + integer(d.rows as int);
    crate::wording::beginning_is(
        lead,
        lead,
        " row(s) with a dangling reference; rolled back"@,
    );
}

/// What went wrong is kept word for word behind what was being done.
pub proof fn what_was_being_done_leads(doing: &str, failure: &Failure, r: Failure)
    requires
        call_ensures(with_context, (doing, failure), r),
    ensures
        begins_with(r@, doing@),
        ends_in(r@, failure@),
        r@.len() == doing@.len() + 2 + failure@.len(),
{
    reveal_strlit(": ");
    crate::wording::beginning_is(doing@, doing@, ": "@ + failure@);
    assert(r@ =~= doing@ + (": "@ + failure@));
}

/// The two faults are recorded in words that tell them apart.
pub proof fn faults_are_told_apart(a: Fault, b: Fault, of_a: String, of_b: String)
    requires
        call_ensures(Fault::description, (a,), of_a),
        call_ensures(Fault::description, (b,), of_b),
    ensures
        of_a@ == of_b@ <==> a == b,
        occurs(of_a@, "conflict"@) <==> a is Conflict,
{
    each_fault_is_plain(a, of_a);
    each_fault_is_plain(b, of_b);
}

proof fn each_fault_is_plain(fault: Fault, r: String)
    requires
        call_ensures(Fault::description, (fault,), r),
    ensures
        occurs(r@, "conflict"@) <==> fault is Conflict,
        r@ == fault.described(),
{
    reveal_strlit("conflicts with the base branch");
    reveal_strlit("conflict");
    reveal_strlit("failed");
    reveal_strlit(" the ");
    reveal_strlit("gate");
    reveal_strlit(" on its own");
    match fault {
        Fault::Conflict => {
            assert(r@.skip(0) =~= r@);
            assert(r@.skip(0).take(8) =~= "conflict"@);
            assert(begins_with(r@.skip(0), "conflict"@));
        },
        Fault::GateFailed => {
            assert(r@.len() == 26);
            assert forall|i: int| 0 <= i < 26 implies #[trigger] r@[i] != 'c' by {}
            assert forall|i: int| 0 <= i <= r@.len() implies !begins_with(
                #[trigger] r@.skip(i),
                "conflict"@,
            ) by {
                if begins_with(r@.skip(i), "conflict"@) {
                    assert(r@.skip(i).take(8)[0] == 'c');
                    assert(r@[i] == 'c');
                }
            }
        },
    }
}

} // verus!
