//! The two lanes in which tasks wait, and the spawning of tasks on them.
use crate::channel;
use crate::history;
use crate::worker::{Inbox, Worker, WorkerView};
use crate::FutureType;
use async_task::{Runnable, Task};
use flume::{Receiver, Sender};
use std::future::Future;
use vstd::future::*;
use vstd::prelude::*;

verus! {

/// Moments follow each other, all before `now`.
pub open spec fn in_order(moments: Seq<nat>, now: nat) -> bool {
    &&& forall|i: int, j: int| 0 <= i < j < moments.len() ==> moments[i] < moments[j]
    &&& forall|i: int| 0 <= i < moments.len() ==> #[trigger] moments[i] < now
}

/// Both handles of one channel. It keeps a receiver, so that the channel stays
/// open for as long as something can be sent to it.
pub struct Lane {
    pub(crate) sender: Sender<Runnable>,
    pub(crate) receiver: Receiver<Runnable>,
}

impl Lane {
    /// The two handles belong to one channel. The sends came one after the
    /// other. The receiver only keeps the channel open: nothing is taken
    /// through it.
    #[verifier::type_invariant]
    pub(crate) open spec fn well_formed(self) -> bool {
        &&& channel::sender_channel(self.sender) == channel::receiver_channel(self.receiver)
        &&& in_order(channel::sends(self.sender), channel::sender_now(self.sender))
        &&& channel::polls(self.receiver) == Seq::<nat>::empty()
        &&& channel::receiver_label(self.receiver) is None
    }

    fn new(besides: Option<&Sender<Runnable>>) -> (lane: Lane)
        ensures
            besides matches Some(sender) ==> channel::sender_channel(lane.sender)
                != channel::sender_channel(*sender),
            channel::sends(lane.sender) == Seq::<nat>::empty(),
            history::joined(
                channel::sender_channel(lane.sender),
                channel::sender_now(lane.sender),
            ) == 0,
        opens_invariants none
    {
        let (sender, receiver) = channel::unbounded(besides);
        Lane { sender, receiver }
    }

    fn handle(&self) -> (lane: Lane)
        ensures
            channel::sender_channel(lane.sender) == channel::sender_channel(self.sender),
            channel::sends(lane.sender) == channel::sends(self.sender),
            channel::sender_now(lane.sender) >= channel::sender_now(self.sender),
        opens_invariants none
    {
        proof {
            use_type_invariant(self);
        }
        Lane {
            sender: channel::clone_sender(&self.sender),
            receiver: channel::clone_receiver(&self.receiver, &self.sender, None),
        }
    }

    fn push(&mut self, runnable: Runnable)
        ensures
            channel::sender_channel(final(self).sender) == channel::sender_channel(
                old(self).sender,
            ),
            ({
                let moment = channel::sends(final(self).sender).last();
                &&& channel::sends(final(self).sender) == channel::sends(old(self).sender).push(
                    moment,
                )
                &&& channel::sender_now(old(self).sender) <= moment
                &&& channel::sender_now(final(self).sender) == moment + 1
                &&& in_order(
                    channel::sends(final(self).sender),
                    channel::sender_now(final(self).sender),
                )
                &&& channel::joining(channel::sender_channel(old(self).sender), moment) == Some(
                    runnable,
                )
                &&& history::only_changes(channel::sender_channel(old(self).sender), moment)
            }),
        opens_invariants none
    {
        proof {
            use_type_invariant(&*self);
        }
        let _ = channel::send(self, runnable);
    }
}

/// What tells a worker from the others: the lane it serves, and its number
/// among the workers of that lane.
pub open spec fn worker_label(home: FutureType, number: usize) -> Option<(bool, usize)> {
    Some((home == FutureType::High, number))
}

/// The lane of each priority. A value of this type is a handle: its clones
/// stand for the same two lanes.
pub struct Lanes {
    high: Lane,
    low: Lane,
}

impl Lanes {
    spec fn lane(self, order: FutureType) -> Lane {
        match order {
            FutureType::High => self.high,
            FutureType::Low => self.low,
        }
    }

    /// The channel behind the lane of `order`.
    pub closed spec fn channel(self, order: FutureType) -> int {
        channel::sender_channel(self.lane(order).sender)
    }

    /// The moments at which this handle sent to the lane of `order`.
    pub closed spec fn sent(self, order: FutureType) -> Seq<nat> {
        channel::sends(self.lane(order).sender)
    }

    /// The moment that this handle has come to in the lane of `order`.
    pub closed spec fn now(self, order: FutureType) -> nat {
        channel::sender_now(self.lane(order).sender)
    }

    /// `after` is `self`, or a clone of it, once `runnable` was sent through it to
    /// the lane of `order`. The runnable joined that lane at the last moment
    /// sent, which came after all that the handle had sent to the lane, and
    /// nothing else was sent.
    pub open spec fn scheduled(self, after: Lanes, order: FutureType, runnable: Runnable) -> bool {
        &&& after.channel(FutureType::High) == self.channel(FutureType::High)
        &&& after.channel(FutureType::Low) == self.channel(FutureType::Low)
        &&& after.sent(order.other()) == self.sent(order.other())
        &&& after.now(order.other()) >= self.now(order.other())
        &&& after.sent(order) == self.sent(order).push(after.sent(order).last())
        &&& self.now(order) <= after.sent(order).last()
        &&& after.now(order) == after.sent(order).last() + 1
        &&& in_order(after.sent(order), after.now(order))
        &&& channel::joining(self.channel(order), after.sent(order).last()) == Some(runnable)
        &&& history::only_changes(self.channel(order), after.sent(order).last())
    }

    /// Opens two lanes, empty and apart from each other.
    pub fn new() -> (lanes: Lanes)
        ensures
            lanes.channel(FutureType::High) != lanes.channel(FutureType::Low),
            lanes.sent(FutureType::High) == Seq::<nat>::empty(),
            lanes.sent(FutureType::Low) == Seq::<nat>::empty(),
            forall|order: FutureType|
                history::joined(#[trigger] lanes.channel(order), lanes.now(order)) == 0,
            forall|order: FutureType|
                history::contents(#[trigger] lanes.channel(order), lanes.now(order))
                    == Seq::<Runnable>::empty(),
        opens_invariants none
    {
        let high = Lane::new(None);
        let low = Lane::new(Some(&high.sender));
        let lanes = Lanes { high, low };
        proof {
            let high_now = lanes.now(FutureType::High);
            let low_now = lanes.now(FutureType::Low);
            history::law_history_only_grows(lanes.channel(FutureType::High), high_now, high_now);
            history::law_history_only_grows(lanes.channel(FutureType::Low), low_now, low_now);
        }
        lanes
    }

    /// Sends a task to the lane of its priority. The lane is open, so this
    /// always succeeds.
    pub fn schedule(&mut self, order: FutureType, runnable: Runnable)
        ensures
            old(self).scheduled(*final(self), order, runnable),
        opens_invariants none
    {
        match order {
            FutureType::High => self.high.push(runnable),
            FutureType::Low => self.low.push(runnable),
        }
    }

    /// A new worker on these lanes, as its contracts see it.
    pub open spec fn new_worker(self, home: FutureType, number: usize, now: nat) -> WorkerView {
        let label = worker_label(home, number);
        WorkerView {
            home,
            high: Inbox { channel: self.channel(FutureType::High), label, polls: Seq::empty() },
            low: Inbox { channel: self.channel(FutureType::Low), label, polls: Seq::empty() },
            now,
        }
    }

    /// A worker that serves the lane of `home` and steals from the other lane.
    /// Workers of one lane are told apart by their numbers. The worker starts
    /// after all that this handle has sent.
    pub fn worker(&self, home: FutureType, number: usize) -> (worker: Worker)
        ensures
            worker@ == self.new_worker(home, number, worker@.now),
            worker@.now >= self.now(FutureType::High),
            worker@.now >= self.now(FutureType::Low),
        opens_invariants none
    {
        let label: Option<(bool, usize)> = match home {
            FutureType::High => Some((true, number)),
            FutureType::Low => Some((false, number)),
        };
        proof {
            use_type_invariant(&self.high);
            use_type_invariant(&self.low);
        }
        Worker::new(
            home,
            channel::clone_receiver(&self.high.receiver, &self.high.sender, label),
            channel::clone_receiver(&self.low.receiver, &self.low.sender, label),
        )
    }

    /// As many workers as a lane is to have, numbered from 0.
    pub fn workers(&self, home: FutureType, count: usize) -> (workers: Vec<Worker>)
        ensures
            workers@.len() == count,
            forall|i: int|
                0 <= i < count ==> (#[trigger] workers@[i])@ == self.new_worker(
                    home,
                    i as usize,
                    workers@[i]@.now,
                ),
            forall|i: int|
                0 <= i < count ==> {
                    &&& (#[trigger] workers@[i])@.now >= self.now(FutureType::High)
                    &&& workers@[i]@.now >= self.now(FutureType::Low)
                },
    {
        let mut workers: Vec<Worker> = Vec::new();
        for number in 0..count
            invariant
                workers@.len() == number,
                forall|i: int|
                    0 <= i < number ==> (#[trigger] workers@[i])@ == self.new_worker(
                        home,
                        i as usize,
                        workers@[i]@.now,
                    ),
                forall|i: int|
                    0 <= i < number ==> {
                        &&& (#[trigger] workers@[i])@.now >= self.now(FutureType::High)
                        &&& workers@[i]@.now >= self.now(FutureType::Low)
                    },
        {
            workers.push(self.worker(home, number));
        }
        workers
    }

    /// Sends a task to the lane of its priority through a handle of its own,
    /// and gives that handle back.
    pub fn reschedule(&self, order: FutureType, runnable: Runnable) -> (used: Lanes)
        ensures
            self.scheduled(used, order, runnable),
        opens_invariants none
    {
        let mut used = self.handle();
        used.schedule(order, runnable);
        used
    }

    /// Another handle of the same two lanes, with the same past.
    fn handle(&self) -> (copy: Lanes)
        ensures
            copy.channel(FutureType::High) == self.channel(FutureType::High),
            copy.channel(FutureType::Low) == self.channel(FutureType::Low),
            copy.sent(FutureType::High) == self.sent(FutureType::High),
            copy.sent(FutureType::Low) == self.sent(FutureType::Low),
            copy.now(FutureType::High) >= self.now(FutureType::High),
            copy.now(FutureType::Low) >= self.now(FutureType::Low),
        opens_invariants none
    {
        Lanes { high: self.high.handle(), low: self.low.handle() }
    }
}

impl Clone for Lanes {
    /// Another handle of the same two lanes, with the same past.
    fn clone(&self) -> (copy: Self)
        ensures
            copy.channel(FutureType::High) == self.channel(FutureType::High),
            copy.channel(FutureType::Low) == self.channel(FutureType::Low),
            copy.sent(FutureType::High) == self.sent(FutureType::High),
            copy.sent(FutureType::Low) == self.sent(FutureType::Low),
            copy.now(FutureType::High) >= self.now(FutureType::High),
            copy.now(FutureType::Low) >= self.now(FutureType::Low),
    {
        self.handle()
    }
}

/// Makes a task out of `future` and sends it to the lane of its priority: what
/// joins that lane is a runnable that polls `future` for the task returned.
/// Awaiting the task that is returned gives what the future gives. Whenever it
/// is woken, the task goes back to the lane it was spawned on.
pub fn spawn_task<F, T>(future: F, order: FutureType, lanes: &mut Lanes) -> (task: Task<T>)
    where F: Future<Output = T> + Send + 'static, T: Send + 'static,
    ensures
        task@ == future@,
        ({
            let moment = final(lanes).sent(order).last();
            let runnable = channel::joining(old(lanes).channel(order), moment)->0;
            &&& old(lanes).scheduled(*final(lanes), order, runnable)
            &&& channel::polled_future(runnable) == (
                channel::future_number(future),
                channel::future_number(task),
            )
            &&& channel::wake_channel(runnable) == old(lanes).channel(order)
        }),
    opens_invariants none
{
    let (runnable, task) = channel::spawn(future, order, lanes.handle());
    // `Runnable::schedule` would pass the runnable to its schedule function,
    // which sends it to this very lane.
    lanes.schedule(order, runnable);
    task
}

} // verus!
