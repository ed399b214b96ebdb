//! The outside types and calls that the lanes rest on: flume's channels and
//! async-task's tasks. The declarations and wrappers here are believed, not
//! proved.
//!
//! A flume channel is shared by threads, so what it holds is not a function of
//! any one handle. It is a function of the channel and the moment: flume works
//! under a lock, so the operations on all channels take effect one after the
//! other, and the number of those before it is the moment of an operation. An
//! operation that begins after another has ended has the later moment. A handle
//! has a past: the moments of what was done through it, and a moment that all
//! that it does from now on comes at or after.
//!
//! Handles are made and sent through by wrappers that open no invariants, and a
//! channel is polled by one that may open any. So a function that is declared
//! to open none takes nothing out of a channel, through whatever handle.
use crate::history;
use crate::lanes::Lane;
use crate::lanes::Lanes;
use crate::worker::Turn;
use crate::FutureType;
use async_task::{Runnable, Task};
use flume::{Receiver, SendError, Sender, TryRecvError};
use std::future::Future;
use vstd::future::*;
use vstd::prelude::*;

verus! {

/// `async_task::Runnable`, opaque: a task that is due to be polled once.
#[verifier::external_type_specification]
#[verifier::external_body]
#[verifier::reject_recursive_types(M)]
pub struct ExRunnable<M>(async_task::Runnable<M>);

/// `async_task::Task`, opaque: the handle that a task's output is awaited on.
#[verifier::external_type_specification]
#[verifier::external_body]
#[verifier::reject_recursive_types(T)]
#[verifier::reject_recursive_types(M)]
pub struct ExTask<T, M>(async_task::Task<T, M>);

/// `flume::Sender`, opaque: the sending handle of a channel.
#[verifier::external_type_specification]
#[verifier::external_body]
#[verifier::reject_recursive_types(T)]
pub struct ExSender<T>(flume::Sender<T>);

/// `flume::Receiver`, opaque: the receiving handle of a channel.
#[verifier::external_type_specification]
#[verifier::external_body]
#[verifier::reject_recursive_types(T)]
pub struct ExReceiver<T>(flume::Receiver<T>);

/// `flume::SendError`, opaque: every receiver of the channel is gone.
#[verifier::external_type_specification]
#[verifier::external_body]
#[verifier::reject_recursive_types(T)]
pub struct ExSendError<T>(flume::SendError<T>);

/// `flume::TryRecvError`, opaque: nothing was there to take.
#[verifier::external_type_specification]
#[verifier::external_body]
pub struct ExTryRecvError(flume::TryRecvError);

/// The channel that a sending handle belongs to.
pub uninterp spec fn sender_channel(sender: Sender<Runnable>) -> int;

/// The channel that a receiving handle belongs to.
pub uninterp spec fn receiver_channel(receiver: Receiver<Runnable>) -> int;

/// The moments at which a sending handle sent, oldest first. A clone starts
/// with the past of the handle it was cloned from.
pub uninterp spec fn sends(sender: Sender<Runnable>) -> Seq<nat>;

/// The moment that a sending handle has come to.
pub uninterp spec fn sender_now(sender: Sender<Runnable>) -> nat;

/// The moments at which a receiving handle polled, oldest first. A clone starts
/// with the past of the handle it was cloned from.
pub uninterp spec fn polls(receiver: Receiver<Runnable>) -> Seq<nat>;

/// The moment that a receiving handle has come to.
pub uninterp spec fn receiver_now(receiver: Receiver<Runnable>) -> nat;

/// The runnable that joins a channel by the operation at a moment, if one does.
pub uninterp spec fn joining(channel: int, moment: nat) -> Option<Runnable>;

/// Whether the operation at a moment takes the front out of a channel.
pub uninterp spec fn leaving(channel: int, moment: nat) -> bool;

/// The label of the receiving handle that takes the front out of a channel at
/// a moment.
pub uninterp spec fn taker(channel: int, moment: nat) -> Option<(bool, usize)>;

/// The label that a receiving handle was given when it was made.
pub uninterp spec fn receiver_label(receiver: Receiver<Runnable>) -> Option<(bool, usize)>;

/// The channel that a task's runnable is sent to whenever the task is woken.
pub uninterp spec fn wake_channel(runnable: Runnable) -> int;

/// The number, among the futures of its type, of the future that a task's
/// runnable polls, and that of the `Task`, itself a future, on which the task
/// is awaited.
pub uninterp spec fn polled_future(runnable: Runnable) -> (int, int);

/// `numbers` gives different futures of a type different numbers.
pub open spec fn tells_apart<F>(numbers: spec_fn(F) -> int) -> bool {
    forall|one: F, other: F| #[trigger] numbers(one) == #[trigger] numbers(other) ==> one == other
}

/// The number of a future, in one fixed numbering of the futures of its type.
/// The numbering tells the futures of a type apart where the integers suffice
/// for them; futures of different types may have the same number.
pub open spec fn future_number<F>(future: F) -> int {
    let numbers = choose|numbers: spec_fn(F) -> int| tells_apart(numbers);
    numbers(future)
}

/// Calls `flume::unbounded`: makes a channel without a limit and gives its two
/// handles. The channel is a new one, so it is not that of a handle `besides`
/// which is already there. Nothing has joined it, neither handle has a past,
/// and the receiver has no label.
#[verifier::external_body]
pub(crate) fn unbounded(besides: Option<&Sender<Runnable>>) -> (handles: (
    Sender<Runnable>,
    Receiver<Runnable>,
))
    ensures
        sender_channel(handles.0) == receiver_channel(handles.1),
        besides matches Some(sender) ==> sender_channel(handles.0) != sender_channel(*sender),
        history::joined(sender_channel(handles.0), sender_now(handles.0)) == 0,
        sends(handles.0) == Seq::<nat>::empty(),
        polls(handles.1) == Seq::<nat>::empty(),
        receiver_label(handles.1) == None::<(bool, usize)>,
    opens_invariants none
{
    let _ = besides;
    flume::unbounded()
}

/// Calls `flume::Sender::clone`: another handle of the same channel, which has
/// come at least to where the handle it is cloned from has come.
#[verifier::external_body]
pub(crate) fn clone_sender(sender: &Sender<Runnable>) -> (copy: Sender<Runnable>)
    ensures
        sender_channel(copy) == sender_channel(*sender),
        sends(copy) == sends(*sender),
        sender_now(copy) >= sender_now(*sender),
    opens_invariants none
{
    sender.clone()
}

/// Calls `flume::Receiver::clone`: another handle of the same channel. What is
/// done through it comes after all that was done through the handle it is
/// cloned from, and through a sender `after` that is there when it is made.
/// The label is what the contracts tell the new handle by; flume knows nothing
/// of it. A handle that has a label is not cloned, so that all that is taken
/// under a label is taken through handles that were given it.
#[verifier::external_body]
pub(crate) fn clone_receiver(
    receiver: &Receiver<Runnable>,
    after: &Sender<Runnable>,
    label: Option<(bool, usize)>,
) -> (copy: Receiver<Runnable>)
    requires
        receiver_label(*receiver) is None,
    ensures
        receiver_label(copy) == label,
        receiver_channel(copy) == receiver_channel(*receiver),
        polls(copy) == polls(*receiver),
        receiver_now(copy) >= receiver_now(*receiver),
        receiver_now(copy) >= sender_now(*after),
    opens_invariants none
{
    let _ = (after, label);
    receiver.clone()
}

/// Calls `flume::Sender::send` on a lane's sender. A send fails only when
/// every receiver of the channel is gone, so it cannot fail while the lane
/// holds a receiver of the same channel. What was sent joins the channel at a
/// moment to which the handle had not come before, and no other channel changes
/// at that moment; a failed send leaves nothing behind.
#[verifier::external_body]
pub(crate) fn send(lane: &mut Lane, runnable: Runnable) -> (res: Result<(), SendError<Runnable>>)
    ensures
        final(lane).receiver == old(lane).receiver,
        sender_channel(final(lane).sender) == sender_channel(old(lane).sender),
        sender_channel(old(lane).sender) == receiver_channel(old(lane).receiver) ==> res is Ok,
        res is Ok ==> {
            let moment = sends(final(lane).sender).last();
            &&& sends(final(lane).sender) == sends(old(lane).sender).push(moment)
            &&& sender_now(old(lane).sender) <= moment
            &&& sender_now(final(lane).sender) == moment + 1
            &&& joining(sender_channel(old(lane).sender), moment) == Some(runnable)
            &&& history::only_changes(sender_channel(old(lane).sender), moment)
        },
        res is Err ==> {
            &&& sends(final(lane).sender) == sends(old(lane).sender)
            &&& sender_now(final(lane).sender) >= sender_now(old(lane).sender)
        },
    opens_invariants none
{
    lane.sender.send(runnable)
}

/// Calls `flume::Receiver::try_recv`: takes the front out of the channel, or
/// gives an error where the channel holds nothing. This comes after all that
/// was done through this handle and through a handle `after`, and no other
/// channel changes at that moment. It is done only in a worker's turn. What the
/// channel holds at that moment is up to the other threads' sends and polls,
/// and left unsaid.
#[verifier::external_body]
pub(crate) fn try_recv(
    receiver: &mut Receiver<Runnable>,
    after: &Receiver<Runnable>,
    turn: &Turn,
) -> (res: Result<Runnable, TryRecvError>)
    ensures
        receiver_channel(*final(receiver)) == receiver_channel(*old(receiver)),
        receiver_label(*final(receiver)) == receiver_label(*old(receiver)),
        polls(*final(receiver)) == polls(*old(receiver)).push(polls(*final(receiver)).last()),
        receiver_now(*old(receiver)) <= polls(*final(receiver)).last(),
        receiver_now(*after) <= polls(*final(receiver)).last(),
        receiver_now(*final(receiver)) == polls(*final(receiver)).last() + 1,
        history::only_changes(receiver_channel(*old(receiver)), polls(*final(receiver)).last()),
        joining(receiver_channel(*old(receiver)), polls(*final(receiver)).last()) is None,
        leaving(receiver_channel(*old(receiver)), polls(*final(receiver)).last()) == (res is Ok),
        match res {
            Ok(runnable) => {
                let channel = receiver_channel(*old(receiver));
                let moment = polls(*final(receiver)).last();
                &&& history::contents(channel, moment).len() > 0
                &&& history::contents(channel, moment)[0] == runnable
                &&& taker(channel, moment) == receiver_label(*old(receiver))
            },
            Err(_) => history::contents(
                receiver_channel(*old(receiver)),
                polls(*final(receiver)).last(),
            ).len() == 0,
        },
{
    let _ = (after, turn);
    receiver.try_recv()
}

/// Calls `async_task::spawn` with a schedule function that sends the task's
/// runnable to the lane of `order`. The runnable polls `future` for the task
/// that is given back, awaiting that task gives the future's output, and a wake
/// sends the runnable to that lane's channel.
#[verifier::external_body]
pub(crate) fn spawn<F, T>(future: F, order: FutureType, lanes: Lanes) -> (res: (Runnable, Task<T>))
    where F: Future<Output = T> + Send + 'static, T: Send + 'static,
    ensures
        polled_future(res.0) == (future_number(future), future_number(res.1)),
        res.1@ == future@,
        wake_channel(res.0) == lanes.channel(order),
    opens_invariants none
{
    async_task::spawn(future, move |runnable| { lanes.reschedule(order, runnable); })
}

} // verus!
