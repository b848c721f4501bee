//! Delivering the notifications of one event: one attempt for each matched
//! alert, none waiting for another, and none undone by what became of
//! another.

use crate::alerts::UserAlert;
use vstd::prelude::*;

verus! {

/// What became of the attempt to notify one alert.
#[derive(Debug, Clone, Copy, PartialEq, Eq, Structural)]
pub enum Delivery {
    /// The alert has no endpoint: nothing was sent, and nothing went wrong.
    Skipped,
    /// The endpoint took the notification.
    Sent,
    /// The notification could not be made or was not taken.
    Failed,
}

impl Delivery {
    /// What an endpoint's answer says of a notification: taken where the
    /// status is one of success, from 200 to 299, and not taken with any
    /// other.
    pub open spec fn answered(status: u16) -> Delivery {
        if 200 <= status <= 299 {
            Delivery::Sent
        } else {
            Delivery::Failed
        }
    }

    /// What became of a notification that the endpoint answered with the
    /// status.
    pub fn from_status(status: u16) -> (r: Delivery)
        ensures
            r == Delivery::answered(status),
    {
        if 200 <= status && status <= 299 {
            Delivery::Sent
        } else {
            Delivery::Failed
        }
    }
}

impl UserAlert {
    /// Where the notifications of the alert go, if anywhere.
    pub fn delivery_target(&self) -> (r: Option<&str>)
        ensures
            r is Some <==> self.discord_webhook is Some,
            r matches Some(target) ==> target@ == self.discord_webhook->0@,
    {
        match &self.discord_webhook {
            Some(target) => Some(target.as_str()),
            None => None,
        }
    }
}

/// The deliveries before any attempt has ended: one for each matched alert,
/// none with an outcome.
pub open spec fn all_pending(matched: nat) -> Seq<Option<Delivery>> {
    Seq::new(matched, |i: int| None::<Delivery>)
}

/// The deliveries after the attempt for the alert at `index` ended in
/// `outcome`. An alert has one attempt: an outcome for an alert that has one
/// already, or for no alert at all, changes nothing.
pub open spec fn recorded(
    deliveries: Seq<Option<Delivery>>,
    index: int,
    outcome: Delivery,
) -> Seq<Option<Delivery>> {
    if 0 <= index < deliveries.len() && deliveries[index] is None {
        deliveries.update(index, Some(outcome))
    } else {
        deliveries
    }
}

/// How many of the deliveries have the outcome.
pub open spec fn count_of(deliveries: Seq<Option<Delivery>>, outcome: Delivery) -> nat
    decreases deliveries.len(),
{
    if deliveries.len() == 0 {
        0
    } else {
        count_of(deliveries.drop_last(), outcome) + if deliveries.last() == Some(outcome) {
            1nat
        } else {
            0nat
        }
    }
}

/// How many of the deliveries have no outcome yet.
pub open spec fn count_pending(deliveries: Seq<Option<Delivery>>) -> nat
    decreases deliveries.len(),
{
    if deliveries.len() == 0 {
        0
    } else {
        count_pending(deliveries.drop_last()) + if deliveries.last() is None {
            1nat
        } else {
            0nat
        }
    }
}

/// What becomes of one attempt does not touch another: after any outcome for
/// one alert, a failure too, every other alert stands as it stood, pending
/// if it was pending.
pub proof fn lemma_outcome_leaves_the_others(
    deliveries: Seq<Option<Delivery>>,
    index: int,
    outcome: Delivery,
    other: int,
)
    requires
        0 <= other < deliveries.len(),
        other != index,
    ensures
        recorded(deliveries, index, outcome).len() == deliveries.len(),
        recorded(deliveries, index, outcome)[other] == deliveries[other],
{
}

/// The outcomes of two alerts can come in either order.
pub proof fn lemma_outcomes_in_either_order(
    deliveries: Seq<Option<Delivery>>,
    first: int,
    first_outcome: Delivery,
    second: int,
    second_outcome: Delivery,
)
    requires
        first != second,
    ensures
        recorded(recorded(deliveries, first, first_outcome), second, second_outcome) == recorded(
            recorded(deliveries, second, second_outcome),
            first,
            first_outcome,
        ),
{
    assert(recorded(recorded(deliveries, first, first_outcome), second, second_outcome)
        =~= recorded(recorded(deliveries, second, second_outcome), first, first_outcome));
}

/// The deliveries after the attempts for the first `count` alerts ended in
/// the first `count` of the outcomes, each outcome being that of the alert
/// at its place.
pub open spec fn recorded_in_turn(
    deliveries: Seq<Option<Delivery>>,
    outcomes: Seq<Delivery>,
    count: nat,
) -> Seq<Option<Delivery>>
    decreases count,
{
    if count == 0 {
        deliveries
    } else {
        recorded(
            recorded_in_turn(deliveries, outcomes, (count - 1) as nat),
            count - 1,
            outcomes[count - 1],
        )
    }
}

/// Whatever the outcomes are, failures among them or not, every alert whose
/// attempt has ended has its own outcome, and every other matched alert is
/// still pending.
pub proof fn lemma_every_alert_gets_its_outcome(outcomes: Seq<Delivery>, count: nat)
    requires
        count <= outcomes.len(),
    ensures
        recorded_in_turn(all_pending(outcomes.len()), outcomes, count).len() == outcomes.len(),
        forall|i: int|
            0 <= i < count ==> #[trigger] recorded_in_turn(
                all_pending(outcomes.len()),
                outcomes,
                count,
            )[i] == Some(outcomes[i]),
        forall|i: int|
            count <= i < outcomes.len() ==> #[trigger] recorded_in_turn(
                all_pending(outcomes.len()),
                outcomes,
                count,
            )[i] is None,
    decreases count,
{
    if count > 0 {
        lemma_every_alert_gets_its_outcome(outcomes, (count - 1) as nat);
    }
}

/// The deliveries of one event, each pending or with its outcome.
#[derive(Debug)]
pub struct Dispatch {
    deliveries: Vec<Option<Delivery>>,
}

impl View for Dispatch {
    type V = Seq<Option<Delivery>>;

    closed spec fn view(&self) -> Seq<Option<Delivery>> {
        self.deliveries@
    }
}

impl Dispatch {
    /// The deliveries for `matched` alerts, all of them pending.
    pub fn new(matched: usize) -> (r: Dispatch)
        ensures
            r@ == all_pending(matched as nat),
    {
        let mut deliveries: Vec<Option<Delivery>> = Vec::new();
        while deliveries.len() < matched
            invariant
                deliveries@.len() <= matched,
                forall|i: int| 0 <= i < deliveries@.len() ==> deliveries@[i] is None,
            decreases matched - deliveries.len(),
        {
            deliveries.push(None);
        }
        assert(deliveries@ =~= all_pending(matched as nat));
        Dispatch { deliveries }
    }

    /// For how many alerts the deliveries stand.
    pub fn matched(&self) -> (n: usize)
        ensures
            n == self@.len(),
    {
        self.deliveries.len()
    }

    /// Whether the alert at `index` is one of the matched and its attempt
    /// has not ended yet.
    pub fn is_pending(&self, index: usize) -> (r: bool)
        ensures
            r <==> index < self@.len() && self@[index as int] is None,
    {
        index < self.deliveries.len() && self.deliveries[index].is_none()
    }

    /// Takes note of how the attempt for the alert at `index` ended.
    pub fn record(&mut self, index: usize, outcome: Delivery)
        ensures
            final(self)@ == recorded(old(self)@, index as int, outcome),
    {
        if index < self.deliveries.len() && self.deliveries[index].is_none() {
            self.deliveries.set(index, Some(outcome));
        }
    }

    /// How many attempts have failed so far.
    pub fn failed(&self) -> (n: usize)
        ensures
            n == count_of(self@, Delivery::Failed),
    {
        let mut n: usize = 0;
        let mut i: usize = 0;
        assert(self.deliveries@.take(0) =~= Seq::<Option<Delivery>>::empty());
        while i < self.deliveries.len()
            invariant
                i <= self.deliveries.len(),
                n <= i,
                n == count_of(self.deliveries@.take(i as int), Delivery::Failed),
            decreases self.deliveries.len() - i,
        {
            proof {
                assert(self.deliveries@.take(i + 1).drop_last() =~= self.deliveries@.take(
                    i as int,
                ));
            }
            match self.deliveries[i] {
                Some(Delivery::Failed) => {
                    n += 1;
                },
                _ => {},
            }
            i += 1;
        }
        assert(self.deliveries@.take(i as int) =~= self.deliveries@);
        n
    }

    /// How many attempts have not ended yet.
    pub fn pending(&self) -> (n: usize)
        ensures
            n == count_pending(self@),
    {
        let mut n: usize = 0;
        let mut i: usize = 0;
        assert(self.deliveries@.take(0) =~= Seq::<Option<Delivery>>::empty());
        while i < self.deliveries.len()
            invariant
                i <= self.deliveries.len(),
                n <= i,
                n == count_pending(self.deliveries@.take(i as int)),
            decreases self.deliveries.len() - i,
        {
            proof {
                assert(self.deliveries@.take(i + 1).drop_last() =~= self.deliveries@.take(
                    i as int,
                ));
            }
            if self.deliveries[i].is_none() {
                n += 1;
            }
            i += 1;
        }
        assert(self.deliveries@.take(i as int) =~= self.deliveries@);
        n
    }
}

} // verus!
