//! Workers: what a worker thread does next.
use crate::channel;
use crate::history;
use crate::lanes::Lanes;
use crate::FutureType;
use async_task::Runnable;
use flume::Receiver;
use vstd::prelude::*;

verus! {

/// How long a worker rests when both lanes are empty, in milliseconds.
pub const IDLE_MILLIS: u64 = 100;

/// What a worker does next.
pub enum WorkerAction {
    /// Poll a task once.
    Run(Runnable),
    /// Rest for this many milliseconds.
    Sleep(u64),
}

/// What a worker has of one lane: its channel, the label of the worker's handle
/// of it, and the moments at which the worker polled it.
#[verifier::ext_equal]
pub struct Inbox {
    pub channel: int,
    pub label: Option<(bool, usize)>,
    pub polls: Seq<nat>,
}

impl Inbox {
    /// What the lane holds at a moment, the front first.
    pub open spec fn held(self, moment: nat) -> Seq<Runnable> {
        history::contents(self.channel, moment)
    }

    /// At a moment the front leaves the lane, the worker is the one that takes
    /// it, and no other channel changes.
    pub open spec fn takes(self, moment: nat) -> bool {
        &&& history::leaves(self.channel, moment)
        &&& channel::taker(self.channel, moment) == self.label
        &&& history::only_changes(self.channel, moment)
    }

    /// What a poll at a moment finds and does: the front of the lane is taken
    /// if the lane holds anything, and nothing happens otherwise.
    pub open spec fn poll_gives(self, moment: nat, found: Option<Runnable>) -> bool {
        if self.held(moment).len() > 0 {
            self.takes(moment) && found == Some(self.held(moment)[0])
        } else {
            found is None
        }
    }
}

/// A worker as its contracts see it: the lane it serves first, what it has of
/// each lane, and the moment it has come to.
#[verifier::ext_equal]
pub struct WorkerView {
    pub home: FutureType,
    pub high: Inbox,
    pub low: Inbox,
    pub now: nat,
}

impl WorkerView {
    pub open spec fn inbox(self, order: FutureType) -> Inbox {
        match order {
            FutureType::High => self.high,
            FutureType::Low => self.low,
        }
    }

    /// This worker after it polled one lane at a moment.
    pub open spec fn polled(self, order: FutureType, moment: nat) -> WorkerView {
        let inbox = self.inbox(order);
        let polled = Inbox { polls: inbox.polls.push(moment), ..inbox };
        match order {
            FutureType::High => WorkerView { high: polled, now: moment + 1, ..self },
            FutureType::Low => WorkerView { low: polled, now: moment + 1, ..self },
        }
    }

    /// One step of this worker, which looks at its own lane at the moment
    /// `first`. If that lane holds anything then, the worker takes its front and
    /// runs it. Otherwise it looks at the other lane, at the later moment
    /// `second`; it takes and runs the front of that lane if it holds anything
    /// then, and rests otherwise.
    pub open spec fn looks(
        self,
        after: WorkerView,
        action: WorkerAction,
        first: nat,
        second: nat,
    ) -> bool {
        let own = self.inbox(self.home);
        let away = self.inbox(self.home.other());
        &&& self.now <= first
        &&& if own.held(first).len() > 0 {
            &&& own.takes(first)
            &&& action == WorkerAction::Run(own.held(first)[0])
            &&& after == self.polled(self.home, first)
        } else {
            &&& first < second
            &&& after == self.polled(self.home, first).polled(self.home.other(), second)
            &&& if away.held(second).len() > 0 {
                &&& away.takes(second)
                &&& action == WorkerAction::Run(away.held(second)[0])
            } else {
                action == WorkerAction::Sleep(IDLE_MILLIS)
            }
        }
    }

    /// Nothing that this worker took until it became `after` was taken under a
    /// label of `other`, unless the two have that label in common.
    pub open spec fn takes_apart_from(self, after: WorkerView, other: WorkerView) -> bool {
        forall|order: FutureType, moment: nat|
            #![trigger self.inbox(order).held(moment)]
            after.inbox(order).polls == self.inbox(order).polls.push(moment) && self.inbox(
                order,
            ).held(moment).len() > 0 && other.inbox(order).label != self.inbox(order).label
                ==> channel::taker(self.inbox(order).channel, moment) != other.inbox(order).label
    }

    /// `after` and `action` are what one step of this worker can come to.
    pub open spec fn steps(self, after: WorkerView, action: WorkerAction) -> bool {
        exists|first: nat, second: nat| #[trigger] self.looks(after, action, first, second)
    }
}

proof fn lemma_step_takes_apart(
    before: WorkerView,
    after: WorkerView,
    action: WorkerAction,
    first: nat,
    second: nat,
    other: WorkerView,
)
    requires
        before.looks(after, action, first, second),
    ensures
        before.takes_apart_from(after, other),
{
    assert forall|order: FutureType, moment: nat|
        #![trigger before.inbox(order).held(moment)]
        after.inbox(order).polls == before.inbox(order).polls.push(moment) && before.inbox(
            order,
        ).held(moment).len() > 0 implies before.inbox(order).takes(moment) by {
        let polls = before.inbox(order).polls;
        assert(polls.push(moment).last() == moment);
        assert(polls.push(moment).len() != polls.len());
        assert(polls.push(first).last() == first);
        assert(polls.push(second).last() == second);
    }
}

/// What a worker holds while it makes a step. Only a step can make one, and a
/// lane is polled only by who holds one.
pub struct Turn {
    home: FutureType,
}

/// One worker: the lane it serves first, and a receiver of each lane.
pub struct Worker {
    home: FutureType,
    high: Receiver<Runnable>,
    low: Receiver<Runnable>,
}

impl View for Worker {
    type V = WorkerView;

    closed spec fn view(&self) -> WorkerView {
        WorkerView {
            home: self.home,
            high: Inbox {
                channel: channel::receiver_channel(self.high),
                label: channel::receiver_label(self.high),
                polls: channel::polls(self.high),
            },
            low: Inbox {
                channel: channel::receiver_channel(self.low),
                label: channel::receiver_label(self.low),
                polls: channel::polls(self.low),
            },
            now: if channel::receiver_now(self.high) >= channel::receiver_now(self.low) {
                channel::receiver_now(self.high)
            } else {
                channel::receiver_now(self.low)
            },
        }
    }
}

impl Worker {
    pub(crate) fn new(
        home: FutureType,
        high: Receiver<Runnable>,
        low: Receiver<Runnable>,
    ) -> (worker: Worker)
        ensures
            worker@.home == home,
            worker@.high == (Inbox {
                channel: channel::receiver_channel(high),
                label: channel::receiver_label(high),
                polls: channel::polls(high),
            }),
            worker@.low == (Inbox {
                channel: channel::receiver_channel(low),
                label: channel::receiver_label(low),
                polls: channel::polls(low),
            }),
            worker@.now >= channel::receiver_now(high),
            worker@.now >= channel::receiver_now(low),
        opens_invariants none
    {
        Worker { home, high, low }
    }

    /// Polls one lane once, after all that the worker did before.
    fn poll(&mut self, order: FutureType, turn: &Turn) -> (found: Option<Runnable>)
        ensures
            exists|moment: nat|
                {
                    &&& old(self)@.now <= moment
                    &&& final(self)@ == #[trigger] old(self)@.polled(order, moment)
                    &&& old(self)@.inbox(order).poll_gives(moment, found)
                },
    {
        let res = match order {
            FutureType::High => channel::try_recv(&mut self.high, &self.low, turn),
            FutureType::Low => channel::try_recv(&mut self.low, &self.high, turn),
        };
        proof {
            let moment = self@.inbox(order).polls.last();
            assert(self@ =~= old(self)@.polled(order, moment));
        }
        match res {
            Ok(runnable) => Some(runnable),
            Err(_) => None,
        }
    }

    /// Decides what to do next: run the front of the worker's own lane, or else
    /// that of the other lane, or else rest. The other lane is looked at only
    /// when the worker's own lane was found empty.
    pub fn next_action(&mut self) -> (action: WorkerAction)
        ensures
            old(self)@.steps(final(self)@, action),
            // What this step takes is taken by none of the workers that were
            // made for a lane under another label.
            forall|lanes: Lanes, home: FutureType, count: usize, made: Vec<Worker>, i: int|
                #![trigger call_ensures(Lanes::workers, (&lanes, home, count), made), made@[i]]
                call_ensures(Lanes::workers, (&lanes, home, count), made) && 0 <= i < made@.len()
                    ==> old(self)@.takes_apart_from(final(self)@, made@[i]@),
            // The worker stays on the lanes that it was made on, whichever
            // handle stands for them.
            forall|lanes: Lanes, copy: Lanes, order: FutureType|
                #![trigger call_ensures(Lanes::clone, (&lanes,), copy), copy.channel(order)]
                call_ensures(Lanes::clone, (&lanes,), copy) && old(self)@.inbox(order).channel
                    == lanes.channel(order) ==> final(self)@.inbox(order).channel == copy.channel(
                    order,
                ),
    {
        let (home, away) = match self.home {
            FutureType::High => (FutureType::High, FutureType::Low),
            FutureType::Low => (FutureType::Low, FutureType::High),
        };
        let turn = Turn { home };
        let own = self.poll(home, &turn);
        let ghost between = self@;
        let ghost first = choose|moment: nat|
            {
                &&& old(self)@.now <= moment
                &&& between == #[trigger] old(self)@.polled(home, moment)
                &&& old(self)@.inbox(home).poll_gives(moment, own)
            };
        match own {
            Some(runnable) => {
                let action = WorkerAction::Run(runnable);
                assert(old(self)@.looks(self@, action, first, 0));
                assert forall|other: WorkerView| old(self)@.takes_apart_from(self@, other) by {
                    lemma_step_takes_apart(old(self)@, self@, action, first, 0, other);
                }
                action
            },
            None => {
                let other = self.poll(away, &turn);
                let ghost second = choose|moment: nat|
                    {
                        &&& between.now <= moment
                        &&& self@ == #[trigger] between.polled(away, moment)
                        &&& between.inbox(away).poll_gives(moment, other)
                    };
                let action = match other {
                    Some(runnable) => WorkerAction::Run(runnable),
                    None => WorkerAction::Sleep(IDLE_MILLIS),
                };
                assert(old(self)@.looks(self@, action, first, second));
                assert forall|other: WorkerView| old(self)@.takes_apart_from(self@, other) by {
                    lemma_step_takes_apart(old(self)@, self@, action, first, second, other);
                }
                action
            },
        }
    }
}

} // verus!
