//! The way of one copy to one endpoint: it is sent, watched until it is
//! confirmed, and reported.

use crate::message::Signature;
use vstd::prelude::*;

verus! {

/// The nanoseconds that a copy is watched for at most.
pub const CONFIRMATION_TIMEOUT: u128 = 30_000_000_000;

/// The milliseconds between two questions for the status of a copy.
pub const POLL_INTERVAL_MILLIS: u64 = 500;

/// What a delivery is about to do.
#[derive(Clone, Copy, Debug, PartialEq, Eq)]
pub enum Stage {
    /// See whether the submission is to stop.
    Checking,
    /// Send the copy.
    Sending,
    /// Watch for the confirmation of the copy.
    Confirming { signature: Signature },
    /// Report what became of the copy.
    Reporting { signature: Signature, confirmed: bool },
    /// Nothing more.
    Done,
}

/// What came of it.
#[derive(Clone, Copy, Debug, PartialEq, Eq)]
pub enum Outcome {
    /// The submission is to stop, or not.
    Checked { stop: bool },
    /// The endpoint took the copy, under a signature, or did not.
    Sent { signature: Option<Signature> },
    /// The copy was confirmed, or not.
    Watched { confirmed: bool },
    /// The report is given.
    Reported,
}

/// Whether an outcome can come of a stage.
pub open spec fn can_follow(stage: Stage, outcome: Outcome) -> bool {
    match stage {
        Stage::Checking => outcome is Checked,
        Stage::Sending => outcome is Sent,
        Stage::Confirming { .. } => outcome is Watched,
        Stage::Reporting { .. } => outcome is Reported,
        Stage::Done => false,
    }
}

/// The stage that follows on an outcome.
pub open spec fn stage_on(stage: Stage, outcome: Outcome) -> Stage {
    match (stage, outcome) {
        (Stage::Checking, Outcome::Checked { stop }) => if stop {
            Stage::Done
        } else {
            Stage::Sending
        },
        (Stage::Sending, Outcome::Sent { signature }) => match signature {
            Some(signature) => Stage::Confirming { signature },
            None => Stage::Done,
        },
        (Stage::Confirming { signature }, Outcome::Watched { confirmed }) => Stage::Reporting {
            signature,
            confirmed,
        },
        (Stage::Reporting { .. }, Outcome::Reported) => Stage::Done,
        _ => stage,
    }
}

/// The stage that follows on an outcome. One that cannot come of the stage
/// changes nothing.
pub fn next_stage(stage: Stage, outcome: Outcome) -> (following: Stage)
    ensures
        following == stage_on(stage, outcome),
{
    match (stage, outcome) {
        (Stage::Checking, Outcome::Checked { stop }) => if stop {
            Stage::Done
        } else {
            Stage::Sending
        },
        (Stage::Sending, Outcome::Sent { signature }) => match signature {
            Some(signature) => Stage::Confirming { signature },
            None => Stage::Done,
        },
        (Stage::Confirming { signature }, Outcome::Watched { confirmed }) => Stage::Reporting {
            signature,
            confirmed,
        },
        (Stage::Reporting { .. }, Outcome::Reported) => Stage::Done,
        _ => stage,
    }
}

/// The stage of a delivery after a course of outcomes.
pub open spec fn stage_after(outcomes: Seq<Outcome>) -> Stage
    decreases outcomes.len(),
{
    if outcomes.len() == 0 {
        Stage::Checking
    } else {
        stage_on(stage_after(outcomes.drop_last()), outcomes.last())
    }
}

/// Whether each of the outcomes could come of the stage it came in.
pub open spec fn is_delivery(outcomes: Seq<Outcome>) -> bool
    decreases outcomes.len(),
{
    outcomes.len() > 0 ==> {
        &&& is_delivery(outcomes.drop_last())
        &&& can_follow(stage_after(outcomes.drop_last()), outcomes.last())
    }
}

/// A delivery reports only a copy that it sent, which was not to be stopped, with
/// the signature that the endpoint gave and what the watch saw.
pub proof fn law_report_tells_what_was_seen(outcomes: Seq<Outcome>)
    requires
        is_delivery(outcomes),
    ensures
        stage_after(outcomes) matches Stage::Reporting { signature, confirmed } ==> outcomes
            == seq![
            Outcome::Checked { stop: false },
            Outcome::Sent { signature: Some(signature) },
            Outcome::Watched { confirmed },
        ],
{
    reveal_with_fuel(stage_after, 4);
    reveal_with_fuel(is_delivery, 4);
    if let Stage::Reporting { signature, confirmed } = stage_after(outcomes) {
        let sent = outcomes.drop_last();
        let checked = sent.drop_last();
        let nothing = checked.drop_last();
        lemma_only_the_start_is_checking(nothing);
        assert(outcomes =~= seq![
            Outcome::Checked { stop: false },
            Outcome::Sent { signature: Some(signature) },
            Outcome::Watched { confirmed },
        ]);
    }
}

/// Only a delivery that has not begun is at its first stage.
proof fn lemma_only_the_start_is_checking(outcomes: Seq<Outcome>)
    requires
        is_delivery(outcomes),
        stage_after(outcomes) is Checking,
    ensures
        outcomes.len() == 0,
{
}

/// What an endpoint knows of a copy.
#[derive(Clone, Copy, Debug, PartialEq, Eq)]
pub enum SignatureStatus {
    /// The copy landed, and succeeded or failed.
    Landed { succeeded: bool },
    /// The endpoint has not seen the copy.
    Unknown,
    /// The endpoint could not be asked.
    Unreachable,
}

/// What a watch is about to do.
#[derive(Clone, Copy, Debug, PartialEq, Eq)]
pub enum Watch {
    /// See how long the watch has lasted.
    Timing,
    /// Ask for the status of the copy.
    Asking,
    /// Wait for the poll interval.
    Sleeping,
    /// Nothing more: the copy is confirmed, or not.
    Ended { confirmed: bool },
}

/// The step of a watch that follows on the nanoseconds that it has lasted.
pub open spec fn watch_on_time(elapsed: u128, timeout: u128) -> Watch {
    if elapsed < timeout {
        Watch::Asking
    } else {
        Watch::Ended { confirmed: false }
    }
}

/// The step of a watch that follows on the status of the copy.
pub open spec fn watch_on_status(status: SignatureStatus) -> Watch {
    match status {
        SignatureStatus::Landed { succeeded } => Watch::Ended { confirmed: succeeded },
        SignatureStatus::Unknown => Watch::Sleeping,
        SignatureStatus::Unreachable => Watch::Ended { confirmed: false },
    }
}

/// Asks for the status as long as the watch has not lasted for `timeout`.
pub fn watch_after_time(elapsed: u128, timeout: u128) -> (watch: Watch)
    ensures
        watch == watch_on_time(elapsed, timeout),
        elapsed < timeout ==> watch is Asking,
        elapsed >= timeout ==> watch == (Watch::Ended { confirmed: false }),
{
    if elapsed < timeout {
        Watch::Asking
    } else {
        Watch::Ended { confirmed: false }
    }
}

/// Ends the watch unless the endpoint has not seen the copy.
pub fn watch_after_status(status: SignatureStatus) -> (watch: Watch)
    ensures
        watch == watch_on_status(status),
        status is Unknown <==> watch is Sleeping,
        watch == (Watch::Ended { confirmed: true }) <==> status == (SignatureStatus::Landed {
            succeeded: true,
        }),
        watch is Sleeping || watch is Ended,
{
    match status {
        SignatureStatus::Landed { succeeded } => Watch::Ended { confirmed: succeeded },
        SignatureStatus::Unknown => Watch::Sleeping,
        SignatureStatus::Unreachable => Watch::Ended { confirmed: false },
    }
}

/// What a watch says after rounds, of each of which the nanoseconds that the
/// watch had lasted and the status are given; none where it goes on.
pub open spec fn verdict(rounds: Seq<(u128, SignatureStatus)>, timeout: u128) -> Option<bool>
    decreases rounds.len(),
{
    if rounds.len() == 0 {
        None
    } else {
        match watch_on_time(rounds[0].0, timeout) {
            Watch::Ended { confirmed } => Some(confirmed),
            Watch::Asking => match watch_on_status(rounds[0].1) {
                Watch::Ended { confirmed } => Some(confirmed),
                _ => verdict(rounds.drop_first(), timeout),
            },
            _ => verdict(rounds.drop_first(), timeout),
        }
    }
}

/// Whether the rounds before `at` were in time, and the copy was not seen in any.
pub open spec fn unseen_until(
    rounds: Seq<(u128, SignatureStatus)>,
    timeout: u128,
    at: int,
) -> bool {
    forall|i: int|
        0 <= i < at ==> (#[trigger] rounds[i]).0 < timeout && rounds[i].1 is Unknown
}

/// A copy is confirmed if and only if the first status that is not unknown comes
/// in time and says that it succeeded.
pub proof fn law_confirmed_only_by_success_in_time(
    rounds: Seq<(u128, SignatureStatus)>,
    timeout: u128,
)
    ensures
        verdict(rounds, timeout) == Some(true) <==> exists|at: int|
            0 <= at < rounds.len() && #[trigger] unseen_until(rounds, timeout, at) && rounds[at].0
                < timeout && rounds[at].1 == (SignatureStatus::Landed { succeeded: true }),
    decreases rounds.len(),
{
    if rounds.len() > 0 {
        let rest = rounds.drop_first();
        law_confirmed_only_by_success_in_time(rest, timeout);
        if rounds[0].0 < timeout && rounds[0].1 is Unknown {
            if verdict(rounds, timeout) == Some(true) {
                let at = choose|at: int|
                    0 <= at < rest.len() && #[trigger] unseen_until(rest, timeout, at) && rest[at].0
                        < timeout && rest[at].1 == (SignatureStatus::Landed { succeeded: true });
                assert forall|i: int| 0 <= i < at + 1 implies (#[trigger] rounds[i]).0 < timeout
                    && rounds[i].1 is Unknown by {
                    if i > 0 {
                        assert(rest[i - 1] == rounds[i]);
                    }
                }
                assert(unseen_until(rounds, timeout, at + 1));
            }
            if exists|at: int|
                0 <= at < rounds.len() && #[trigger] unseen_until(rounds, timeout, at)
                    && rounds[at].0 < timeout && rounds[at].1 == (SignatureStatus::Landed {
                    succeeded: true,
                }) {
                let at = choose|at: int|
                    0 <= at < rounds.len() && #[trigger] unseen_until(rounds, timeout, at)
                        && rounds[at].0 < timeout && rounds[at].1 == (SignatureStatus::Landed {
                        succeeded: true,
                    });
                assert forall|i: int| 0 <= i < at - 1 implies (#[trigger] rest[i]).0 < timeout
                    && rest[i].1 is Unknown by {
                    assert(rest[i] == rounds[i + 1]);
                }
                assert(unseen_until(rest, timeout, at - 1));
            }
        } else {
            assert forall|at: int|
                0 <= at < rounds.len() && #[trigger] unseen_until(rounds, timeout, at) implies at
                == 0 by {
                if at > 0 {
                    assert(rounds[0].0 < timeout && rounds[0].1 is Unknown);
                }
            }
            if rounds[0].0 < timeout && rounds[0].1 == (SignatureStatus::Landed {
                succeeded: true,
            }) {
                assert(unseen_until(rounds, timeout, 0));
            }
        }
    }
}

/// A watch goes on if and only if the copy was not seen in any round, and each
/// round was in time.
pub proof fn law_watch_goes_on_while_unseen(rounds: Seq<(u128, SignatureStatus)>, timeout: u128)
    ensures
        verdict(rounds, timeout) is None <==> unseen_until(rounds, timeout, rounds.len() as int),
    decreases rounds.len(),
{
    if rounds.len() > 0 {
        let rest = rounds.drop_first();
        law_watch_goes_on_while_unseen(rest, timeout);
        if verdict(rounds, timeout) is None {
            assert forall|i: int| 0 <= i < rounds.len() implies (#[trigger] rounds[i]).0 < timeout
                && rounds[i].1 is Unknown by {
                if i > 0 {
                    assert(rest[i - 1] == rounds[i]);
                }
            }
        }
        if unseen_until(rounds, timeout, rounds.len() as int) {
            assert(rounds[0].0 < timeout && rounds[0].1 is Unknown);
            assert forall|i: int| 0 <= i < rest.len() implies (#[trigger] rest[i]).0 < timeout
                && rest[i].1 is Unknown by {
                assert(rest[i] == rounds[i + 1]);
            }
        }
    }
}

/// As long as the watch has lasted for less than the timeout, the status is asked
/// for; once it has lasted for as long, the copy counts as not confirmed.
pub proof fn law_status_is_asked_for_in_time(elapsed: u128, timeout: u128)
    ensures
        elapsed < timeout <==> watch_on_time(elapsed, timeout) is Asking,
        elapsed >= timeout <==> watch_on_time(elapsed, timeout) == (Watch::Ended {
            confirmed: false,
        }),
{
}

/// A copy that landed ends the watch with its success; an endpoint that cannot be
/// asked ends it without; one that has not seen the copy is asked again later.
pub proof fn law_status_decides(status: SignatureStatus)
    ensures
        status matches SignatureStatus::Landed { succeeded } ==> watch_on_status(status) == (
        Watch::Ended { confirmed: succeeded }),
        status is Unreachable ==> watch_on_status(status) == (Watch::Ended { confirmed: false }),
        status is Unknown ==> watch_on_status(status) is Sleeping,
{
}

/// The status of a round counts only if it was asked for: what an endpoint would
/// have said later than the timeout changes nothing, and in time the first status
/// that is not unknown is the verdict.
pub proof fn law_first_known_status_is_the_verdict(
    before: Seq<(u128, SignatureStatus)>,
    elapsed: u128,
    status: SignatureStatus,
    after: Seq<(u128, SignatureStatus)>,
    timeout: u128,
)
    requires
        forall|i: int|
            0 <= i < before.len() ==> (#[trigger] before[i]).0 < timeout && before[i].1 is Unknown,
        status !is Unknown || elapsed >= timeout,
    ensures
        verdict(before.push((elapsed, status)) + after, timeout) == Some(
            elapsed < timeout && status == (SignatureStatus::Landed { succeeded: true }),
        ),
    decreases before.len(),
{
    let rounds = before.push((elapsed, status)) + after;
    if before.len() > 0 {
        let rest = before.drop_first();
        assert forall|i: int| 0 <= i < rest.len() implies (#[trigger] rest[i]).0 < timeout
            && rest[i].1 is Unknown by {
            assert(rest[i] == before[i + 1]);
        }
        law_first_known_status_is_the_verdict(rest, elapsed, status, after, timeout);
        assert(before[0].0 < timeout && before[0].1 is Unknown);
        assert(rounds[0] == before[0]);
        assert(rounds.drop_first() =~= rest.push((elapsed, status)) + after);
    } else {
        assert(rounds[0] == (elapsed, status));
    }
}

/// Where each outcome of a delivery leads: a stopped or refused copy is done with,
/// one that was sent is watched under the signature it was sent with, and what the
/// watch saw is reported under that signature. An outcome out of place changes
/// nothing.
pub proof fn law_outcomes_lead_on(
    stop: bool,
    sent: Option<Signature>,
    signature: Signature,
    confirmed: bool,
)
    ensures
        stage_on(Stage::Checking, Outcome::Checked { stop }) == if stop {
            Stage::Done
        } else {
            Stage::Sending
        },
        sent is None ==> stage_on(Stage::Sending, Outcome::Sent { signature: sent }) is Done,
        stage_on(Stage::Sending, Outcome::Sent { signature: Some(signature) }) == (
        Stage::Confirming { signature }),
        stage_on(Stage::Confirming { signature }, Outcome::Watched { confirmed }) == (
        Stage::Reporting { signature, confirmed }),
        stage_on(Stage::Reporting { signature, confirmed }, Outcome::Reported) is Done,
        forall|stage: Stage, outcome: Outcome|
            !(stage is Checking && outcome is Checked || stage is Sending && outcome is Sent
                || stage is Confirming && outcome is Watched || stage is Reporting
                && outcome is Reported) ==> #[trigger] stage_on(stage, outcome) == stage,
{
}

} // verus!
