use tx_submission::broadcast::{Broadcast, Event, Phase, REPORT_TIMEOUT_MILLIS};
use tx_submission::delivery::{
    next_stage, watch_after_status, watch_after_time, Outcome, SignatureStatus, Stage, Watch,
    CONFIRMATION_TIMEOUT, POLL_INTERVAL_MILLIS,
};
use tx_submission::message::Signature;

fn signature(byte: u8) -> Signature {
    Signature([byte; 64])
}

#[test]
fn every_copy_goes_to_every_endpoint_in_order() {
    let fees = [Some(11), None, Some(33)];
    let mut broadcast = Broadcast::start(3, 2);
    let mut launches = Vec::new();
    while broadcast.phase != Phase::Collecting {
        let event = match broadcast.phase {
            Phase::Estimating { blockhash } => match fees[blockhash] {
                Some(priority_fee) => Event::FeeEstimated { priority_fee },
                None => Event::FeeFailed,
            },
            Phase::Launching { blockhash, endpoint, priority_fee } => {
                launches.push((blockhash, endpoint, priority_fee));
                Event::Launched
            }
            _ => unreachable!(),
        };
        broadcast.step(event);
    }
    assert_eq!(launches, [(0, 0, 11), (0, 1, 11), (2, 0, 33), (2, 1, 33)]);
}

#[test]
fn first_confirmed_report_ends_the_submission() {
    let mut broadcast = Broadcast::start(0, 4);
    assert_eq!(broadcast.phase, Phase::Collecting);
    broadcast.step(Event::Reported { signature: signature(1), confirmed: false });
    assert_eq!(broadcast.phase, Phase::Collecting);
    assert!(!broadcast.should_stop());
    broadcast.step(Event::Reported { signature: signature(2), confirmed: true });
    assert_eq!(broadcast.phase, Phase::Finished { signature: Some(signature(2)) });
    assert!(broadcast.should_stop());
    broadcast.step(Event::Reported { signature: signature(3), confirmed: true });
    assert_eq!(broadcast.phase, Phase::Finished { signature: Some(signature(2)) });
}

#[test]
fn silence_ends_the_submission_without_a_signature() {
    let mut broadcast = Broadcast::start(0, 1);
    broadcast.step(Event::Silence);
    assert_eq!(broadcast.phase, Phase::Finished { signature: None });
    assert!(!broadcast.should_stop());
    assert_eq!(REPORT_TIMEOUT_MILLIS, 30_000);
}

#[test]
fn without_endpoints_only_fees_are_asked_for() {
    let mut broadcast = Broadcast::start(2, 0);
    assert_eq!(broadcast.phase, Phase::Estimating { blockhash: 0 });
    broadcast.step(Event::FeeEstimated { priority_fee: 1 });
    assert_eq!(broadcast.phase, Phase::Estimating { blockhash: 1 });
    broadcast.step(Event::FeeEstimated { priority_fee: 2 });
    assert_eq!(broadcast.phase, Phase::Collecting);
}

#[test]
fn event_out_of_place_changes_nothing() {
    let mut broadcast = Broadcast::start(1, 1);
    broadcast.step(Event::Silence);
    broadcast.step(Event::Launched);
    assert_eq!(broadcast.phase, Phase::Estimating { blockhash: 0 });
}

#[test]
fn delivery_sends_watches_and_reports() {
    let mut stage = Stage::Checking;
    stage = next_stage(stage, Outcome::Checked { stop: false });
    assert_eq!(stage, Stage::Sending);
    stage = next_stage(stage, Outcome::Sent { signature: Some(signature(5)) });
    assert_eq!(stage, Stage::Confirming { signature: signature(5) });
    stage = next_stage(stage, Outcome::Watched { confirmed: true });
    assert_eq!(stage, Stage::Reporting { signature: signature(5), confirmed: true });
    stage = next_stage(stage, Outcome::Reported);
    assert_eq!(stage, Stage::Done);
}

#[test]
fn unconfirmed_copy_is_reported_too() {
    let stage = Stage::Confirming { signature: signature(6) };
    assert_eq!(
        next_stage(stage, Outcome::Watched { confirmed: false }),
        Stage::Reporting { signature: signature(6), confirmed: false }
    );
}

#[test]
fn stopped_delivery_sends_nothing() {
    assert_eq!(next_stage(Stage::Checking, Outcome::Checked { stop: true }), Stage::Done);
}

#[test]
fn refused_copy_is_not_reported() {
    assert_eq!(next_stage(Stage::Sending, Outcome::Sent { signature: None }), Stage::Done);
    assert_eq!(next_stage(Stage::Done, Outcome::Reported), Stage::Done);
}

#[test]
fn watch_asks_until_the_timeout() {
    assert_eq!(watch_after_time(0, CONFIRMATION_TIMEOUT), Watch::Asking);
    assert_eq!(watch_after_time(29_999_999_999, CONFIRMATION_TIMEOUT), Watch::Asking);
    assert_eq!(
        watch_after_time(30_000_000_000, CONFIRMATION_TIMEOUT),
        Watch::Ended { confirmed: false }
    );
    assert_eq!(POLL_INTERVAL_MILLIS, 500);
}

fn watched(rounds: &[(u128, SignatureStatus)]) -> Option<bool> {
    for (elapsed, status) in rounds {
        let mut watch = watch_after_time(*elapsed, CONFIRMATION_TIMEOUT);
        if watch == Watch::Asking {
            watch = watch_after_status(*status);
        }
        if let Watch::Ended { confirmed } = watch {
            return Some(confirmed);
        }
    }
    None
}

#[test]
fn copy_is_confirmed_by_success_in_time() {
    let success = SignatureStatus::Landed { succeeded: true };
    let failure = SignatureStatus::Landed { succeeded: false };
    let unknown = SignatureStatus::Unknown;
    assert_eq!(watched(&[]), None);
    assert_eq!(watched(&[(0, unknown), (1, unknown)]), None);
    assert_eq!(watched(&[(0, unknown), (1, success)]), Some(true));
    assert_eq!(watched(&[(0, unknown), (1, failure), (2, success)]), Some(false));
    assert_eq!(watched(&[(0, SignatureStatus::Unreachable), (1, success)]), Some(false));
    assert_eq!(watched(&[(0, unknown), (CONFIRMATION_TIMEOUT, success)]), Some(false));
}

#[test]
fn watch_ends_on_every_status_but_unknown() {
    assert_eq!(
        watch_after_status(SignatureStatus::Landed { succeeded: true }),
        Watch::Ended { confirmed: true }
    );
    assert_eq!(
        watch_after_status(SignatureStatus::Landed { succeeded: false }),
        Watch::Ended { confirmed: false }
    );
    assert_eq!(
        watch_after_status(SignatureStatus::Unreachable),
        Watch::Ended { confirmed: false }
    );
    assert_eq!(watch_after_status(SignatureStatus::Unknown), Watch::Sleeping);
}
