//! The course of a submission: one copy of the transaction per blockhash, each
//! sent to every endpoint, until one of them is confirmed.

use crate::message::Signature;
use vstd::prelude::*;

verus! {

/// The milliseconds for which a submission waits for the next report.
pub const REPORT_TIMEOUT_MILLIS: u64 = 30_000;

/// What a submission is about to do.
#[derive(Clone, Copy, Debug, PartialEq, Eq)]
pub enum Phase {
    /// Estimate the priority fee of the copy with this blockhash.
    Estimating { blockhash: usize },
    /// Send the copy with this blockhash and priority fee to this endpoint.
    Launching { blockhash: usize, endpoint: usize, priority_fee: u64 },
    /// Wait for the report of a copy that was sent.
    Collecting,
    /// Nothing more: a copy was confirmed under this signature, or none was.
    Finished { signature: Option<Signature> },
}

/// What came of it.
#[derive(Clone, Copy, Debug, PartialEq, Eq)]
pub enum Event {
    /// The priority fee is known.
    FeeEstimated { priority_fee: u64 },
    /// The priority fee could not be had.
    FeeFailed,
    /// The copy is on its way.
    Launched,
    /// A copy was sent under this signature, and confirmed or not.
    Reported { signature: Signature, confirmed: bool },
    /// No further report came in time, or none can come.
    Silence,
}

/// A submission with a number of blockhashes to a number of endpoints.
pub struct Broadcast {
    pub blockhashes: usize,
    pub endpoints: usize,
    pub phase: Phase,
}

/// The phase in which the copy with a blockhash is begun: it is time to collect
/// where there is no such blockhash.
pub open spec fn beginning(blockhashes: usize, blockhash: int) -> Phase {
    if blockhash < blockhashes {
        Phase::Estimating { blockhash: blockhash as usize }
    } else {
        Phase::Collecting
    }
}

/// The phase in which a copy goes to an endpoint: the next copy is begun where
/// there is no such endpoint.
pub open spec fn launching(
    blockhashes: usize,
    endpoints: usize,
    blockhash: usize,
    endpoint: int,
    priority_fee: u64,
) -> Phase {
    if endpoint < endpoints {
        Phase::Launching { blockhash, endpoint: endpoint as usize, priority_fee }
    } else {
        beginning(blockhashes, blockhash + 1)
    }
}

/// Whether an event can come of a phase.
pub open spec fn fits(phase: Phase, event: Event) -> bool {
    match phase {
        Phase::Estimating { .. } => event is FeeEstimated || event is FeeFailed,
        Phase::Launching { .. } => event is Launched,
        Phase::Collecting => event is Reported || event is Silence,
        Phase::Finished { .. } => false,
    }
}

/// The phase that follows on an event. A copy whose fee could not be had is left
/// out; the first confirmed report ends the submission.
pub open spec fn next(blockhashes: usize, endpoints: usize, phase: Phase, event: Event) -> Phase {
    match (phase, event) {
        (Phase::Estimating { blockhash }, Event::FeeEstimated { priority_fee }) => launching(
            blockhashes,
            endpoints,
            blockhash,
            0,
            priority_fee,
        ),
        (Phase::Estimating { blockhash }, Event::FeeFailed) => beginning(
            blockhashes,
            blockhash + 1,
        ),
        (
            Phase::Launching { blockhash, endpoint, priority_fee },
            Event::Launched,
        ) => launching(blockhashes, endpoints, blockhash, endpoint + 1, priority_fee),
        (Phase::Collecting, Event::Reported { signature, confirmed }) => if confirmed {
            Phase::Finished { signature: Some(signature) }
        } else {
            Phase::Collecting
        },
        (Phase::Collecting, Event::Silence) => Phase::Finished { signature: None },
        _ => phase,
    }
}

impl Broadcast {
    /// The phase names a blockhash and an endpoint that there are.
    pub open spec fn wf(&self) -> bool {
        match self.phase {
            Phase::Estimating { blockhash } => blockhash < self.blockhashes,
            Phase::Launching { blockhash, endpoint, .. } => blockhash < self.blockhashes && endpoint
                < self.endpoints,
            _ => true,
        }
    }

    /// Begins a submission.
    pub fn start(blockhashes: usize, endpoints: usize) -> (broadcast: Self)
        ensures
            broadcast.wf(),
            broadcast.blockhashes == blockhashes,
            broadcast.endpoints == endpoints,
            broadcast.phase == beginning(blockhashes, 0),
    {
        let phase = if blockhashes > 0 {
            Phase::Estimating { blockhash: 0 }
        } else {
            Phase::Collecting
        };
        Broadcast { blockhashes, endpoints, phase }
    }

    /// Goes on to the copy after the one with `blockhash`.
    fn begin_next(&mut self, blockhash: usize)
        requires
            blockhash < old(self).blockhashes,
        ensures
            final(self).wf(),
            final(self).blockhashes == old(self).blockhashes,
            final(self).endpoints == old(self).endpoints,
            final(self).phase == beginning(old(self).blockhashes, blockhash + 1),
    {
        self.phase =
        if blockhash + 1 < self.blockhashes {
            Phase::Estimating { blockhash: blockhash + 1 }
        } else {
            Phase::Collecting
        };
    }

    /// Takes an event that can come of the phase. One that cannot changes nothing.
    pub fn step(&mut self, event: Event)
        requires
            old(self).wf(),
        ensures
            final(self).wf(),
            final(self).blockhashes == old(self).blockhashes,
            final(self).endpoints == old(self).endpoints,
            final(self).phase == next(
                old(self).blockhashes,
                old(self).endpoints,
                old(self).phase,
                event,
            ),
    {
        match (self.phase, event) {
            (Phase::Estimating { blockhash }, Event::FeeEstimated { priority_fee }) => {
                if self.endpoints > 0 {
                    self.phase = Phase::Launching { blockhash, endpoint: 0, priority_fee };
                } else {
                    self.begin_next(blockhash);
                }
            },
            (Phase::Estimating { blockhash }, Event::FeeFailed) => {
                self.begin_next(blockhash);
            },
            (Phase::Launching { blockhash, endpoint, priority_fee }, Event::Launched) => {
                if endpoint + 1 < self.endpoints {
                    self.phase =
                    Phase::Launching { blockhash, endpoint: endpoint + 1, priority_fee };
                } else {
                    self.begin_next(blockhash);
                }
            },
            (Phase::Collecting, Event::Reported { signature, confirmed }) => {
                if confirmed {
                    self.phase = Phase::Finished { signature: Some(signature) };
                }
            },
            (Phase::Collecting, Event::Silence) => {
                self.phase = Phase::Finished { signature: None };
            },
            _ => {},
        }
    }

    /// Whether the copies that are not sent yet need not be sent any more.
    pub fn should_stop(&self) -> (yes: bool)
        ensures
            yes == (self.phase matches Phase::Finished { signature } && signature is Some),
    {
        match self.phase {
            Phase::Finished { signature } => signature.is_some(),
            _ => false,
        }
    }
}

/// The phase after a course of events.
pub open spec fn phase_after(blockhashes: usize, endpoints: usize, events: Seq<Event>) -> Phase
    decreases events.len(),
{
    if events.len() == 0 {
        beginning(blockhashes, 0)
    } else {
        next(
            blockhashes,
            endpoints,
            phase_after(blockhashes, endpoints, events.drop_last()),
            events.last(),
        )
    }
}

/// Whether each of the events could come of the phase it came in.
pub open spec fn is_course(blockhashes: usize, endpoints: usize, events: Seq<Event>) -> bool
    decreases events.len(),
{
    events.len() > 0 ==> {
        &&& is_course(blockhashes, endpoints, events.drop_last())
        &&& fits(phase_after(blockhashes, endpoints, events.drop_last()), events.last())
    }
}

/// A copy on its way to an endpoint.
pub struct Launch {
    pub blockhash: int,
    pub endpoint: int,
    pub priority_fee: u64,
}

/// The copies that were sent in a course of events, in their order.
pub open spec fn launches(blockhashes: usize, endpoints: usize, events: Seq<Event>) -> Seq<Launch>
    decreases events.len(),
{
    if events.len() == 0 {
        Seq::empty()
    } else {
        let before = launches(blockhashes, endpoints, events.drop_last());
        match (phase_after(blockhashes, endpoints, events.drop_last()), events.last()) {
            (
                Phase::Launching { blockhash, endpoint, priority_fee },
                Event::Launched,
            ) => before.push(
                Launch { blockhash: blockhash as int, endpoint: endpoint as int, priority_fee },
            ),
            _ => before,
        }
    }
}

/// The answers to the questions for a fee, in their order.
pub open spec fn fees(events: Seq<Event>) -> Seq<Option<u64>>
    decreases events.len(),
{
    if events.len() == 0 {
        Seq::empty()
    } else {
        match events.last() {
            Event::FeeEstimated { priority_fee } => fees(events.drop_last()).push(
                Some(priority_fee),
            ),
            Event::FeeFailed => fees(events.drop_last()).push(None),
            _ => fees(events.drop_last()),
        }
    }
}

/// The copy with a blockhash on its way to the first `endpoints` endpoints.
pub open spec fn to_each(blockhash: int, endpoints: nat, priority_fee: u64) -> Seq<Launch> {
    Seq::new(endpoints, |endpoint: int| Launch { blockhash, endpoint, priority_fee })
}

/// For each blockhash whose fee is known, its copy on the way to every endpoint.
pub open spec fn all_launches(fees: Seq<Option<u64>>, endpoints: nat) -> Seq<Launch>
    decreases fees.len(),
{
    if fees.len() == 0 {
        Seq::empty()
    } else {
        let before = all_launches(fees.drop_last(), endpoints);
        match fees.last() {
            Some(priority_fee) => before + to_each(fees.len() - 1, endpoints, priority_fee),
            None => before,
        }
    }
}

/// Where a course of events stands with the fees and the copies.
spec fn on_course(blockhashes: usize, endpoints: usize, events: Seq<Event>) -> bool {
    let known = fees(events);
    let sent = launches(blockhashes, endpoints, events);
    match phase_after(blockhashes, endpoints, events) {
        Phase::Estimating { blockhash } => {
            &&& blockhash < blockhashes
            &&& known.len() == blockhash
            &&& sent == all_launches(known, endpoints as nat)
        },
        Phase::Launching { blockhash, endpoint, priority_fee } => {
            &&& blockhash < blockhashes
            &&& endpoint < endpoints
            &&& known.len() == blockhash + 1
            &&& known.last() == Some(priority_fee)
            &&& sent == all_launches(known.drop_last(), endpoints as nat) + to_each(
                blockhash as int,
                endpoint as nat,
                priority_fee,
            )
        },
        _ => {
            &&& known.len() == blockhashes
            &&& sent == all_launches(known, endpoints as nat)
        },
    }
}

/// Every course of events stays on course.
proof fn lemma_on_course(blockhashes: usize, endpoints: usize, events: Seq<Event>)
    requires
        is_course(blockhashes, endpoints, events),
    ensures
        on_course(blockhashes, endpoints, events),
    decreases events.len(),
{
    if events.len() > 0 {
        let before = events.drop_last();
        let known = fees(before);
        lemma_on_course(blockhashes, endpoints, before);
        match (phase_after(blockhashes, endpoints, before), events.last()) {
            (Phase::Estimating { blockhash }, Event::FeeEstimated { priority_fee }) => {
                assert(fees(events).drop_last() =~= known);
                assert(to_each(blockhash as int, 0, priority_fee) =~= Seq::<Launch>::empty());
                assert(launches(blockhashes, endpoints, events) =~= all_launches(
                    known,
                    endpoints as nat,
                ) + to_each(blockhash as int, 0, priority_fee));
            },
            (Phase::Estimating { .. }, Event::FeeFailed) => {
                assert(fees(events).drop_last() =~= known);
            },
            (Phase::Launching { blockhash, endpoint, priority_fee }, Event::Launched) => {
                assert(launches(blockhashes, endpoints, events) =~= all_launches(
                    known.drop_last(),
                    endpoints as nat,
                ) + to_each(blockhash as int, (endpoint + 1) as nat, priority_fee));
            },
            _ => {},
        }
    }
}

/// A submission that sends no more has asked for the fee of every blockhash
/// once, in their order, and has sent the copy of each whose fee is known, with
/// that fee, to every endpoint once, in their order: and nothing else.
pub proof fn law_every_copy_goes_to_every_endpoint(
    blockhashes: usize,
    endpoints: usize,
    events: Seq<Event>,
)
    requires
        is_course(blockhashes, endpoints, events),
        phase_after(blockhashes, endpoints, events) is Collecting || phase_after(
            blockhashes,
            endpoints,
            events,
        ) is Finished,
    ensures
        fees(events).len() == blockhashes,
        launches(blockhashes, endpoints, events) == all_launches(fees(events), endpoints as nat),
{
    lemma_on_course(blockhashes, endpoints, events);
}

/// Whether `events` hold a confirmed report.
pub open spec fn holds_confirmation(events: Seq<Event>) -> bool {
    exists|i: int|
        0 <= i < events.len() && (#[trigger] events[i] matches Event::Reported {
            confirmed,
            ..
        } && confirmed)
}

/// A submission is over at the first confirmed report, with the signature that
/// was reported, or at the first silence, with none; and at nothing else.
pub proof fn law_first_confirmation_decides(
    blockhashes: usize,
    endpoints: usize,
    events: Seq<Event>,
)
    requires
        is_course(blockhashes, endpoints, events),
    ensures
        match phase_after(blockhashes, endpoints, events) {
            Phase::Finished { signature: Some(signature) } => {
                &&& events.len() > 0
                &&& events.last() == (Event::Reported { signature, confirmed: true })
                &&& !holds_confirmation(events.drop_last())
            },
            Phase::Finished { signature: None } => {
                &&& events.len() > 0
                &&& events.last() is Silence
                &&& !holds_confirmation(events)
            },
            _ => !holds_confirmation(events),
        },
    decreases events.len(),
{
    if events.len() > 0 {
        let before = events.drop_last();
        law_first_confirmation_decides(blockhashes, endpoints, before);
        if !(phase_after(blockhashes, endpoints, events) matches Phase::Finished {
            signature: Some(_),
        }) {
            assert forall|i: int| 0 <= i < events.len() implies !(
            #[trigger] events[i] matches Event::Reported { confirmed, .. } && confirmed) by {
                if i < before.len() {
                    assert(events[i] == before[i]);
                }
            }
        }
    }
}

/// A silence while reports are collected ends the submission without a signature,
/// whatever the numbers of blockhashes and endpoints.
pub proof fn law_silence_ends_the_submission(
    blockhashes: usize,
    endpoints: usize,
    events: Seq<Event>,
)
    requires
        is_course(blockhashes, endpoints, events),
        events.len() > 0,
        events.last() is Silence,
    ensures
        phase_after(blockhashes, endpoints, events) == (Phase::Finished { signature: None }),
{
}

/// A report while reports are collected ends the submission with its signature if
/// it is confirmed, and is passed over if it is not.
pub proof fn law_report_ends_or_is_passed_over(
    blockhashes: usize,
    endpoints: usize,
    events: Seq<Event>,
)
    requires
        is_course(blockhashes, endpoints, events),
        events.len() > 0,
        events.last() is Reported,
    ensures
        events.last() matches Event::Reported { signature, confirmed } ==> phase_after(
            blockhashes,
            endpoints,
            events,
        ) == if confirmed {
            Phase::Finished { signature: Some(signature) }
        } else {
            Phase::Collecting
        },
{
}

/// Whatever came before: while reports are collected, a silence or a report may
/// come; a silence ends the submission, and so does a confirmed report, with its
/// signature; a report that is not confirmed is passed over. A submission that has
/// ended stays so.
pub proof fn law_collecting_goes_on_until_it_ends(
    blockhashes: usize,
    endpoints: usize,
    signature: Signature,
    ended: Phase,
    event: Event,
)
    requires
        ended is Finished,
    ensures
        fits(Phase::Collecting, Event::Silence),
        next(blockhashes, endpoints, Phase::Collecting, Event::Silence) == (Phase::Finished {
            signature: None,
        }),
        fits(Phase::Collecting, Event::Reported { signature, confirmed: true }),
        fits(Phase::Collecting, Event::Reported { signature, confirmed: false }),
        next(
            blockhashes,
            endpoints,
            Phase::Collecting,
            Event::Reported { signature, confirmed: true },
        ) == (Phase::Finished { signature: Some(signature) }),
        next(
            blockhashes,
            endpoints,
            Phase::Collecting,
            Event::Reported { signature, confirmed: false },
        ) is Collecting,
        next(blockhashes, endpoints, ended, event) == ended,
        !fits(ended, event),
{
}

/// A copy whose fee is known goes to the first endpoint, with that fee; from one
/// endpoint it goes on to the next, as the same copy with the same fee; behind the
/// last endpoint, or where the fee failed, the next blockhash is turned to; behind
/// the last blockhash reports are collected.
pub proof fn law_copies_are_sent_in_turn(
    blockhashes: usize,
    endpoints: usize,
    blockhash: usize,
    endpoint: usize,
    priority_fee: u64,
)
    requires
        blockhash < blockhashes,
        endpoint < endpoints,
    ensures
        ({
            let estimating = Phase::Estimating { blockhash };
            let first = Phase::Launching { blockhash, endpoint: 0, priority_fee };
            let here = Phase::Launching { blockhash, endpoint, priority_fee };
            let turned = if blockhash + 1 < blockhashes {
                Phase::Estimating { blockhash: (blockhash + 1) as usize }
            } else {
                Phase::Collecting
            };
            let known = Event::FeeEstimated { priority_fee };
            &&& fits(estimating, known) && fits(estimating, Event::FeeFailed)
            &&& fits(here, Event::Launched)
            &&& next(blockhashes, endpoints, estimating, known) == first
            &&& next(blockhashes, 0, estimating, known) == turned
            &&& next(blockhashes, endpoints, estimating, Event::FeeFailed) == turned
            &&& next(blockhashes, endpoints, here, Event::Launched) == if endpoint + 1
                < endpoints {
                Phase::Launching { blockhash, endpoint: (endpoint + 1) as usize, priority_fee }
            } else {
                turned
            }
            &&& beginning(blockhashes, 0) == (Phase::Estimating { blockhash: 0 })
        }),
        beginning(0, 0) is Collecting,
{
}

/// An event that cannot come of a phase changes nothing, and those that can are
/// told by the phase alone.
pub proof fn law_events_out_of_place_change_nothing(
    blockhashes: usize,
    endpoints: usize,
    phase: Phase,
    event: Event,
)
    ensures
        fits(phase, event) <==> {
            ||| phase is Estimating && (event is FeeEstimated || event is FeeFailed)
            ||| phase is Launching && event is Launched
            ||| phase is Collecting && (event is Reported || event is Silence)
        },
        !fits(phase, event) ==> next(blockhashes, endpoints, phase, event) == phase,
{
}

/// The phases follow on each other event by event, from the first blockhash on, and
/// a course of events is one of which every event could come.
pub proof fn law_course_goes_event_by_event(
    blockhashes: usize,
    endpoints: usize,
    events: Seq<Event>,
    event: Event,
)
    ensures
        phase_after(blockhashes, endpoints, Seq::empty()) == beginning(blockhashes, 0),
        is_course(blockhashes, endpoints, Seq::empty()),
        phase_after(blockhashes, endpoints, events.push(event)) == next(
            blockhashes,
            endpoints,
            phase_after(blockhashes, endpoints, events),
            event,
        ),
        is_course(blockhashes, endpoints, events.push(event)) <==> is_course(
            blockhashes,
            endpoints,
            events,
        ) && fits(phase_after(blockhashes, endpoints, events), event),
{
    assert(events.push(event).drop_last() =~= events);
}

} // verus!
