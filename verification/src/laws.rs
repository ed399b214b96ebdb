//! What holds of the lanes and the workers as a whole.
use crate::channel;
use crate::history;
use crate::lanes::{in_order, spawn_task, Lanes};
use crate::worker::{Inbox, Worker, WorkerAction, WorkerView, IDLE_MILLIS};
use crate::FutureType;
use async_task::{Runnable, Task};
use std::future::Future;
use vstd::multiset::Multiset;
use vstd::prelude::*;

verus! {

/// What a worker does that finds `own` in its own lane and `away` in the other
/// lane.
pub open spec fn decision(own: Seq<Runnable>, away: Seq<Runnable>) -> WorkerAction {
    if own.len() > 0 {
        WorkerAction::Run(own[0])
    } else if away.len() > 0 {
        WorkerAction::Run(away[0])
    } else {
        WorkerAction::Sleep(IDLE_MILLIS)
    }
}

/// A worker takes the head of its own lane if that lane holds anything, else
/// the head of the other lane if that one does, and rests only if both are
/// empty. What the lanes hold is what they hold at the moment the worker has
/// come to; that no other thread changes them while it looks makes this one
/// moment.
pub proof fn law_worker_takes_the_head(before: WorkerView, after: WorkerView, action: WorkerAction)
    requires
        before.steps(after, action),
        forall|moment: nat, order: FutureType|
            before.now <= moment < after.now ==> #[trigger] before.inbox(order).held(moment)
                == before.inbox(order).held(before.now),
    ensures
        action == decision(
            before.inbox(before.home).held(before.now),
            before.inbox(before.home.other()).held(before.now),
        ),
{
    let (first, second) = choose|first: nat, second: nat|
        before.looks(after, action, first, second);
    assert(before.inbox(before.home).held(first) == before.inbox(before.home).held(before.now));
}

/// Own lane first: where a worker's own lane holds something all the time that
/// the worker looks, the worker runs the head of that lane and does not touch
/// the other lane, whatever the other threads do.
pub proof fn law_own_lane_first(before: WorkerView, after: WorkerView, action: WorkerAction)
    requires
        before.steps(after, action),
        forall|moment: nat|
            before.now <= moment < after.now ==> (#[trigger] before.inbox(before.home).held(
                moment,
            )).len() > 0,
    ensures
        after.inbox(before.home.other()) == before.inbox(before.home.other()),
        exists|moment: nat|
            {
                &&& before.now <= moment < after.now
                &&& #[trigger] before.inbox(before.home).takes(moment)
                &&& action == WorkerAction::Run(before.inbox(before.home).held(moment)[0])
            },
{
    let (first, second) = choose|first: nat, second: nat|
        before.looks(after, action, first, second);
    assert(before.inbox(before.home).held(first).len() > 0);
    assert(before.inbox(before.home).takes(first));
}

/// Stealing: where a worker finds its own lane empty and the other lane holds
/// something all the time that the worker looks, the worker runs the head of
/// the other lane.
pub proof fn law_idle_worker_steals(before: WorkerView, after: WorkerView, action: WorkerAction)
    requires
        before.steps(after, action),
        forall|moment: nat|
            before.now <= moment < after.now ==> (#[trigger] before.inbox(before.home).held(
                moment,
            )).len() == 0,
        forall|moment: nat|
            before.now <= moment < after.now ==> (#[trigger] before.inbox(
                before.home.other(),
            ).held(moment)).len() > 0,
    ensures
        exists|moment: nat|
            {
                &&& before.now <= moment < after.now
                &&& #[trigger] before.inbox(before.home.other()).takes(moment)
                &&& action == WorkerAction::Run(
                    before.inbox(before.home.other()).held(moment)[0],
                )
            },
{
    let (first, second) = choose|first: nat, second: nat|
        before.looks(after, action, first, second);
    assert(before.inbox(before.home).held(first).len() == 0);
    assert(before.inbox(before.home.other()).held(second).len() > 0);
    assert(before.inbox(before.home.other()).takes(second));
}

/// A worker that rests has found its own lane empty and then the other lane
/// empty, and it rests for the same time whichever lane it serves.
pub proof fn law_rests_only_on_empty_lanes(
    before: WorkerView,
    after: WorkerView,
    action: WorkerAction,
)
    requires
        before.steps(after, action),
        action is Sleep,
    ensures
        action == WorkerAction::Sleep(IDLE_MILLIS),
        exists|first: nat, second: nat|
            {
                &&& before.now <= first < second < after.now
                &&& (#[trigger] before.inbox(before.home).held(first)).len() == 0
                &&& (#[trigger] before.inbox(before.home.other()).held(second)).len() == 0
            },
{
    let (first, second) = choose|first: nat, second: nat|
        before.looks(after, action, first, second);
    assert(before.inbox(before.home).held(first).len() == 0);
    assert(before.inbox(before.home.other()).held(second).len() == 0);
}

/// The worker with its two lanes exchanged.
pub open spec fn mirrored(worker: WorkerView) -> WorkerView {
    WorkerView { home: worker.home.other(), high: worker.low, low: worker.high, now: worker.now }
}

/// The two kinds of worker follow one rule: exchange the lanes, and what a
/// worker of one kind may do becomes what a worker of the other kind may do.
pub proof fn law_kinds_mirror_each_other(
    before: WorkerView,
    after: WorkerView,
    action: WorkerAction,
)
    requires
        before.steps(after, action),
    ensures
        mirrored(before).steps(mirrored(after), action),
{
    let (first, second) = choose|first: nat, second: nat|
        before.looks(after, action, first, second);
    assert(mirrored(before).looks(mirrored(after), action, first, second));
}

/// A worker goes through `states` by doing `actions`, one after the other.
pub open spec fn is_run(states: Seq<WorkerView>, actions: Seq<WorkerAction>) -> bool {
    &&& states.len() == actions.len() + 1
    &&& forall|i: int|
        0 <= i < actions.len() ==> states[i].steps(states[i + 1], #[trigger] actions[i])
}

proof fn lemma_run_without_last(states: Seq<WorkerView>, actions: Seq<WorkerAction>)
    requires
        is_run(states, actions),
        actions.len() > 0,
    ensures
        is_run(states.drop_last(), actions.drop_last()),
        states[actions.len() - 1].steps(states.last(), actions.last()),
{
    let fewer = states.drop_last();
    let done = actions.drop_last();
    assert forall|i: int| 0 <= i < done.len() implies fewer[i].steps(
        fewer[i + 1],
        #[trigger] done[i],
    ) by {
        assert(done[i] == actions[i]);
    }
    assert(states[actions.len() - 1].steps(states[actions.len() as int], actions[actions.len()
        - 1]));
}

/// The worker keeps its lanes and its labels, and time goes on.
pub open spec fn same_worker(before: WorkerView, after: WorkerView) -> bool {
    &&& after.home == before.home
    &&& after.high.channel == before.high.channel
    &&& after.low.channel == before.low.channel
    &&& after.high.label == before.high.label
    &&& after.low.label == before.low.label
    &&& before.now <= after.now
}

proof fn lemma_run_is_of_one_worker(
    states: Seq<WorkerView>,
    actions: Seq<WorkerAction>,
    i: int,
    j: int,
)
    requires
        is_run(states, actions),
        0 <= i <= j < states.len(),
    ensures
        same_worker(states[i], states[j]),
    decreases j,
{
    if i < j {
        lemma_run_is_of_one_worker(states, actions, i, j - 1);
        assert(states[j - 1].steps(states[j], actions[j - 1]));
    }
}

/// The tasks that polls of a channel at given moments have taken out of it.
pub open spec fn taken(channel: int, polls: Seq<nat>) -> Multiset<Runnable>
    decreases polls.len(),
{
    if polls.len() == 0 {
        Multiset::empty()
    } else {
        let held = history::contents(channel, polls.last());
        if held.len() > 0 {
            taken(channel, polls.drop_last()).insert(held[0])
        } else {
            taken(channel, polls.drop_last())
        }
    }
}

/// The tasks that a worker has taken out of the two lanes.
pub open spec fn taken_by(worker: WorkerView) -> Multiset<Runnable> {
    taken(worker.high.channel, worker.high.polls).add(
        taken(worker.low.channel, worker.low.polls),
    )
}

/// The tasks that actions run.
pub open spec fn tasks_run(actions: Seq<WorkerAction>) -> Multiset<Runnable>
    decreases actions.len(),
{
    if actions.len() == 0 {
        Multiset::empty()
    } else {
        match actions.last() {
            WorkerAction::Run(runnable) => tasks_run(actions.drop_last()).insert(runnable),
            WorkerAction::Sleep(_) => tasks_run(actions.drop_last()),
        }
    }
}

proof fn lemma_taken_by_polled(worker: WorkerView, order: FutureType, moment: nat)
    ensures
        ({
            let held = worker.inbox(order).held(moment);
            taken_by(worker.polled(order, moment)) == if held.len() > 0 {
                taken_by(worker).insert(held[0])
            } else {
                taken_by(worker)
            }
        }),
{
    let inbox = worker.inbox(order);
    assert(inbox.polls.push(moment).drop_last() =~= inbox.polls);
    let held = inbox.held(moment);
    assert(taken_by(worker.polled(order, moment)) =~= if held.len() > 0 {
        taken_by(worker).insert(held[0])
    } else {
        taken_by(worker)
    });
}

/// A worker runs exactly what it took out of the lanes through its own handles,
/// each task once, however many steps it makes.
pub proof fn law_worker_runs_what_it_takes(states: Seq<WorkerView>, actions: Seq<WorkerAction>)
    requires
        is_run(states, actions),
    ensures
        taken_by(states.last()) == taken_by(states.first()).add(tasks_run(actions)),
    decreases actions.len(),
{
    if actions.len() == 0 {
        assert(taken_by(states.last()) =~= taken_by(states.first()).add(tasks_run(actions)));
    } else {
        lemma_run_without_last(states, actions);
        law_worker_runs_what_it_takes(states.drop_last(), actions.drop_last());
        let before = states[actions.len() - 1];
        let (first, second) = choose|first: nat, second: nat|
            before.looks(states.last(), actions.last(), first, second);
        lemma_taken_by_polled(before, before.home, first);
        lemma_taken_by_polled(before.polled(before.home, first), before.home.other(), second);
        assert(taken_by(states.last()) =~= taken_by(states.first()).add(tasks_run(actions)));
    }
}

/// A worker's polls of each lane come one after the other, however many steps
/// it makes.
pub proof fn law_run_keeps_order(states: Seq<WorkerView>, actions: Seq<WorkerAction>)
    requires
        is_run(states, actions),
        in_order(states[0].high.polls, states[0].now),
        in_order(states[0].low.polls, states[0].now),
    ensures
        in_order(states.last().high.polls, states.last().now),
        in_order(states.last().low.polls, states.last().now),
    decreases actions.len(),
{
    if actions.len() > 0 {
        lemma_run_without_last(states, actions);
        law_run_keeps_order(states.drop_last(), actions.drop_last());
    }
}

/// Whatever a poll found was taken under the label of the handle.
pub open spec fn took_under_its_label(inbox: Inbox) -> bool {
    forall|i: int|
        0 <= i < inbox.polls.len() && inbox.held(#[trigger] inbox.polls[i]).len() > 0
            ==> inbox.takes(inbox.polls[i])
}

proof fn lemma_run_takes_under_its_label(states: Seq<WorkerView>, actions: Seq<WorkerAction>)
    requires
        is_run(states, actions),
        took_under_its_label(states[0].high),
        took_under_its_label(states[0].low),
    ensures
        took_under_its_label(states.last().high),
        took_under_its_label(states.last().low),
    decreases actions.len(),
{
    if actions.len() > 0 {
        lemma_run_without_last(states, actions);
        lemma_run_takes_under_its_label(states.drop_last(), actions.drop_last());
    }
}

/// No entry is taken twice: two different workers on the same lanes, however
/// many steps each makes, never take the same entry out of a lane. An entry is
/// known by how many have left the lane before it.
pub proof fn law_workers_never_take_the_same_entry(
    lanes: Lanes,
    one_home: FutureType,
    one_number: usize,
    one: Seq<WorkerView>,
    one_actions: Seq<WorkerAction>,
    other_home: FutureType,
    other_number: usize,
    other: Seq<WorkerView>,
    other_actions: Seq<WorkerAction>,
    order: FutureType,
    i: int,
    j: int,
)
    requires
        one_home != other_home || one_number != other_number,
        is_run(one, one_actions),
        is_run(other, other_actions),
        one[0] == lanes.new_worker(one_home, one_number, one[0].now),
        other[0] == lanes.new_worker(other_home, other_number, other[0].now),
        0 <= i < one.last().inbox(order).polls.len(),
        0 <= j < other.last().inbox(order).polls.len(),
        history::contents(lanes.channel(order), one.last().inbox(order).polls[i]).len() > 0,
        history::contents(lanes.channel(order), other.last().inbox(order).polls[j]).len() > 0,
    ensures
        history::left(lanes.channel(order), one.last().inbox(order).polls[i]) != history::left(
            lanes.channel(order),
            other.last().inbox(order).polls[j],
        ),
{
    let channel = lanes.channel(order);
    let one_taken = one.last().inbox(order).polls[i];
    let other_taken = other.last().inbox(order).polls[j];
    lemma_run_takes_under_its_label(one, one_actions);
    lemma_run_takes_under_its_label(other, other_actions);
    lemma_run_is_of_one_worker(one, one_actions, 0, one.len() - 1);
    lemma_run_is_of_one_worker(other, other_actions, 0, other.len() - 1);
    if history::left(channel, one_taken) == history::left(channel, other_taken) {
        history::law_leaves_once(channel, one_taken, other_taken);
    }
}

/// The step at index `i` of a run takes the entry that joined the lane of
/// `order` at the moment `joins`, at the moment `taken`.
pub open spec fn step_takes(
    states: Seq<WorkerView>,
    i: int,
    order: FutureType,
    joins: nat,
    taken: nat,
) -> bool {
    let channel = states[i].inbox(order).channel;
    &&& states[i + 1].inbox(order).polls == states[i].inbox(order).polls.push(taken)
    &&& history::contents(channel, taken).len() > 0
    &&& history::left(channel, taken) == history::joined(channel, joins)
}

proof fn lemma_step_takes(
    states: Seq<WorkerView>,
    actions: Seq<WorkerAction>,
    i: int,
    order: FutureType,
    joins: nat,
    taken: nat,
    runnable: Runnable,
)
    requires
        is_run(states, actions),
        0 <= i < actions.len(),
        step_takes(states, i, order, joins, taken),
        channel::joining(states[i].inbox(order).channel, joins) == Some(runnable),
    ensures
        joins < taken,
        states[i].now <= taken < states[i + 1].now,
        actions[i] == WorkerAction::Run(runnable),
{
    let before = states[i];
    let after = states[i + 1];
    let action = actions[i];
    let channel = before.inbox(order).channel;
    let polls = before.inbox(order).polls;
    assert(before.steps(after, action));
    let (first, second) = choose|first: nat, second: nat|
        before.looks(after, action, first, second);
    assert(after.inbox(order).polls.last() == taken);
    assert(polls.push(taken).len() != polls.len());
    assert(polls.push(first).last() == first);
    assert(polls.push(second).last() == second);
    assert(history::leaves(channel, taken));
    if taken <= joins {
        history::lemma_one_operation(channel, taken);
        if taken < joins {
            history::law_history_only_grows(channel, taken + 1, joins);
        }
    }
    history::law_channel_keeps_what_joined(channel, joins, taken, runnable);
}

/// What is sent is what is run: when a step of a worker takes what a handle has
/// sent to a lane, the worker runs the task that was sent.
pub proof fn law_worker_runs_what_was_sent(
    before: Lanes,
    after: Lanes,
    order: FutureType,
    runnable: Runnable,
    states: Seq<WorkerView>,
    actions: Seq<WorkerAction>,
    i: int,
    taken: nat,
)
    requires
        before.scheduled(after, order, runnable),
        is_run(states, actions),
        0 <= i < actions.len(),
        states[i].inbox(order).channel == before.channel(order),
        step_takes(states, i, order, after.sent(order).last(), taken),
    ensures
        actions[i] == WorkerAction::Run(runnable),
{
    lemma_step_takes(states, actions, i, order, after.sent(order).last(), taken, runnable);
}

/// Tasks of one priority start first in, first out. One task is sent to a lane
/// and then another, through the same handle or through a handle that was made
/// after the first was sent. When one worker takes both, it runs the first in
/// an earlier step than the second.
pub proof fn law_tasks_start_in_the_order_of_sending(
    one: Lanes,
    one_after: Lanes,
    other: Lanes,
    other_after: Lanes,
    order: FutureType,
    first: Runnable,
    second: Runnable,
    states: Seq<WorkerView>,
    actions: Seq<WorkerAction>,
    i: int,
    j: int,
    first_taken: nat,
    second_taken: nat,
)
    requires
        one.scheduled(one_after, order, first),
        other.scheduled(other_after, order, second),
        other.channel(order) == one.channel(order),
        one_after.now(order) <= other.now(order),
        is_run(states, actions),
        states[0].inbox(order).channel == one.channel(order),
        0 <= i < actions.len(),
        0 <= j < actions.len(),
        step_takes(states, i, order, one_after.sent(order).last(), first_taken),
        step_takes(states, j, order, other_after.sent(order).last(), second_taken),
    ensures
        i < j,
        actions[i] == WorkerAction::Run(first),
        actions[j] == WorkerAction::Run(second),
{
    let first_joins = one_after.sent(order).last();
    let second_joins = other_after.sent(order).last();
    lemma_run_is_of_one_worker(states, actions, 0, i);
    lemma_run_is_of_one_worker(states, actions, 0, j);
    lemma_step_takes(states, actions, i, order, first_joins, first_taken, first);
    lemma_step_takes(states, actions, j, order, second_joins, second_taken, second);
    history::law_first_in_first_out(
        one.channel(order),
        first_joins,
        second_joins,
        first_taken,
        second_taken,
    );
    if j <= i {
        if j < i {
            lemma_run_is_of_one_worker(states, actions, j + 1, i);
        } else {
            let polls = states[i].inbox(order).polls;
            assert(polls.push(first_taken).last() == polls.push(second_taken).last());
        }
    }
}

/// How many have left the lanes that hold up an entry of the lane of `order`
/// for a worker: that lane, and the worker's own if it is another one.
pub open spec fn ahead_gone(worker: WorkerView, order: FutureType, now: nat) -> int {
    history::left(worker.inbox(order).channel, now) + if worker.home == order {
        0
    } else {
        history::left(worker.inbox(worker.home).channel, now)
    }
}

proof fn lemma_run_makes_progress(
    states: Seq<WorkerView>,
    actions: Seq<WorkerAction>,
    order: FutureType,
    joins: nat,
)
    requires
        is_run(states, actions),
        channel::joining(states[0].inbox(order).channel, joins) is Some,
        joins < states[0].now,
    ensures
        ({
            let start = states[0];
            let channel = start.inbox(order).channel;
            let end = states.last().now;
            ||| history::left(channel, end) > history::joined(channel, joins)
            ||| ahead_gone(start, order, end) >= ahead_gone(start, order, start.now)
                + actions.len()
        }),
    decreases actions.len(),
{
    if actions.len() > 0 {
        let start = states[0];
        let n = actions.len() as int;
        let before = states[n - 1];
        let after = states[n];
        lemma_run_without_last(states, actions);
        lemma_run_makes_progress(states.drop_last(), actions.drop_last(), order, joins);
        lemma_run_is_of_one_worker(states, actions, 0, n - 1);
        let channel = start.inbox(order).channel;
        let own = start.inbox(start.home).channel;
        let (first, second) = choose|first: nat, second: nat|
            before.looks(after, actions.last(), first, second);
        // The worker polls the lane of `order` at one of these moments, unless
        // it takes something out of its own lane.
        history::lemma_one_operation(channel, joins);
        history::lemma_one_operation(own, first);
        history::law_history_only_grows(own, before.now, first);
        history::law_history_only_grows(own, first + 1, after.now);
        history::law_history_only_grows(own, before.now, after.now);
        history::law_history_only_grows(channel, before.now, after.now);
        history::law_history_only_grows(channel, joins + 1, first);
        history::law_history_only_grows(channel, first, after.now);
        if before.home != order && before.inbox(before.home).held(first).len() == 0 {
            history::lemma_one_operation(channel, second);
            history::law_history_only_grows(channel, before.now, second);
            history::law_history_only_grows(channel, second, after.now);
            history::law_history_only_grows(channel, second + 1, after.now);
            history::law_history_only_grows(channel, joins + 1, second);
        }
    }
}

/// No task is stranded: a task that waits in the lane of `order` has come to
/// the front and been taken once one worker, of either kind, has made enough
/// steps. Enough is one step for the task and for each entry ahead of it; a
/// worker that serves the other lane needs one more for each entry that its own
/// lane holds or gets meanwhile. What other workers do can only help.
pub proof fn law_no_task_is_stranded(
    states: Seq<WorkerView>,
    actions: Seq<WorkerAction>,
    order: FutureType,
    joins: nat,
    runnable: Runnable,
)
    requires
        is_run(states, actions),
        channel::joining(states[0].inbox(order).channel, joins) == Some(runnable),
        joins < states[0].now,
        ({
            let start = states[0];
            let channel = start.inbox(order).channel;
            let own = start.inbox(start.home).channel;
            let before_it = history::joined(channel, joins) - history::left(channel, start.now);
            let own_work = history::joined(own, states.last().now) - history::left(own, start.now);
            actions.len() >= before_it + 1 + if start.home == order {
                0
            } else {
                own_work
            }
        }),
    ensures
        ({
            let channel = states[0].inbox(order).channel;
            exists|taken: nat|
                {
                    &&& joins < taken < states.last().now
                    &&& #[trigger] history::leaves(channel, taken)
                    &&& history::left(channel, taken) == history::joined(channel, joins)
                    &&& history::contents(channel, taken)[0] == runnable
                }
        }),
{
    let channel = states[0].inbox(order).channel;
    lemma_run_makes_progress(states, actions, order, joins);
    history::law_what_left_was_the_front(channel, joins, states.last().now, runnable);
}

/// A spawn or any other send changes the lanes by one operation: the runnable
/// joins the end of the lane of its priority. Nothing leaves either lane by it,
/// and the other lane holds what it held.
pub proof fn law_send_changes_one_lane(
    before: Lanes,
    after: Lanes,
    order: FutureType,
    runnable: Runnable,
)
    requires
        before.scheduled(after, order, runnable),
        before.channel(FutureType::High) != before.channel(FutureType::Low),
    ensures
        ({
            let moment = after.sent(order).last();
            let lane = before.channel(order);
            let other = before.channel(order.other());
            &&& history::contents(lane, moment + 1) == history::contents(lane, moment).push(
                runnable,
            )
            &&& history::contents(other, moment + 1) == history::contents(other, moment)
            &&& history::left(lane, moment + 1) == history::left(lane, moment)
            &&& history::left(other, moment + 1) == history::left(other, moment)
        }),
{
    let moment = after.sent(order).last();
    let other = before.channel(order.other());
    assert(channel::joining(other, moment) is None);
    history::lemma_one_operation(before.channel(order), moment);
    history::lemma_one_operation(other, moment);
}

/// What is sent to a lane goes behind what waits there: of what the lane holds
/// at a moment before the send, all that was not taken since stands ahead of
/// the new task, in the same order, and the new task is the last.
pub proof fn law_sent_task_goes_behind_what_waits(
    before: Lanes,
    after: Lanes,
    order: FutureType,
    runnable: Runnable,
    earlier: nat,
)
    requires
        before.scheduled(after, order, runnable),
        earlier <= after.sent(order).last(),
        history::left(before.channel(order), after.sent(order).last()) - history::left(
            before.channel(order),
            earlier,
        ) <= history::contents(before.channel(order), earlier).len(),
    ensures
        ({
            let lane = before.channel(order);
            let moment = after.sent(order).last();
            let gone = history::left(lane, moment) - history::left(lane, earlier);
            let stay = history::contents(lane, earlier).skip(gone);
            let held = history::contents(lane, moment + 1);
            &&& held.last() == runnable
            &&& stay.len() < held.len()
            &&& held.take(stay.len() as int) == stay
        }),
{
    let lane = before.channel(order);
    let moment = after.sent(order).last();
    history::law_what_waits_keeps_its_place(lane, earlier, moment);
    let stay = history::contents(lane, earlier).skip(
        history::left(lane, moment) - history::left(lane, earlier),
    );
    assert(history::contents(lane, moment + 1).take(stay.len() as int) =~= history::contents(
        lane,
        moment,
    ).take(stay.len() as int));
}

/// A woken task gives way: what waits in its lane when the task is sent back
/// stands ahead of it, unless it was taken meanwhile.
pub proof fn law_woken_task_gives_way(
    lanes: Lanes,
    order: FutureType,
    runnable: Runnable,
    used: Lanes,
    earlier: nat,
)
    requires
        call_ensures(Lanes::reschedule, (&lanes, order, runnable), used),
        earlier <= lanes.now(order),
        history::left(lanes.channel(order), used.sent(order).last()) - history::left(
            lanes.channel(order),
            earlier,
        ) <= history::contents(lanes.channel(order), earlier).len(),
    ensures
        ({
            let lane = lanes.channel(order);
            let moment = used.sent(order).last();
            let gone = history::left(lane, moment) - history::left(lane, earlier);
            let waits = history::contents(lane, earlier).skip(gone);
            let held = history::contents(lane, moment + 1);
            &&& held.last() == runnable
            &&& waits.len() < held.len()
            &&& held.take(waits.len() as int) == waits
        }),
{
    law_sent_task_goes_behind_what_waits(lanes, used, order, runnable, earlier);
}

/// New workers find what waits: a task that was sent before the workers of a
/// lane were made stands in its lane when a worker starts, unless it came to
/// the front and was taken.
pub proof fn law_new_workers_find_what_waits(
    before: Lanes,
    after: Lanes,
    order: FutureType,
    runnable: Runnable,
    home: FutureType,
    count: usize,
    made: Vec<Worker>,
    i: int,
)
    requires
        before.scheduled(after, order, runnable),
        call_ensures(Lanes::workers, (&after, home, count), made),
        0 <= i < count,
    ensures
        ({
            let lane = before.channel(order);
            let joins = after.sent(order).last();
            let start = made@[i]@.now;
            let place = history::joined(lane, joins) - history::left(lane, start);
            ||| 0 <= place < made@[i]@.inbox(order).held(start).len() && made@[i]@.inbox(
                order,
            ).held(start)[place] == runnable
            ||| exists|taken: nat|
                {
                    &&& joins < taken < start
                    &&& #[trigger] history::leaves(lane, taken)
                    &&& history::contents(lane, taken)[0] == runnable
                }
        }),
{
    let lane = before.channel(order);
    let joins = after.sent(order).last();
    let worker = made@[i]@;
    assert(worker == after.new_worker(home, i as usize, worker.now));
    assert(worker.now >= after.now(order));
    if history::left(lane, worker.now) > history::joined(lane, joins) {
        history::law_what_left_was_the_front(lane, joins, worker.now, runnable);
    } else {
        history::law_channel_keeps_what_joined(lane, joins, worker.now, runnable);
    }
}

/// A worker of either kind runs what waits: one of the workers that were made
/// for a lane, whose own lane is empty while something waits in the other lane
/// and no other thread takes or sends, runs the head of the other lane in its
/// first step.
pub proof fn law_new_worker_steals_what_waits(
    lanes: Lanes,
    home: FutureType,
    count: usize,
    made: Vec<Worker>,
    i: int,
    after: WorkerView,
    action: WorkerAction,
)
    requires
        call_ensures(Lanes::workers, (&lanes, home, count), made),
        0 <= i < count,
        made@[i]@.steps(after, action),
        forall|moment: nat, order: FutureType|
            made@[i]@.now <= moment < after.now ==> #[trigger] made@[i]@.inbox(order).held(moment)
                == made@[i]@.inbox(order).held(made@[i]@.now),
        history::contents(lanes.channel(home), made@[i]@.now).len() == 0,
        history::contents(lanes.channel(home.other()), made@[i]@.now).len() > 0,
    ensures
        action == WorkerAction::Run(
            history::contents(lanes.channel(home.other()), made@[i]@.now)[0],
        ),
{
    assert(made@[i]@ == lanes.new_worker(home, i as usize, made@[i]@.now));
    law_worker_takes_the_head(made@[i]@, after, action);
}

/// Tasks are run first in, first out, by whichever workers. One task is sent to
/// a lane and then another, through the same handle or one made after the first
/// was sent. When the second is taken, the first has been the front and been
/// taken before.
pub proof fn law_first_task_is_taken_first(
    one: Lanes,
    one_after: Lanes,
    other: Lanes,
    other_after: Lanes,
    order: FutureType,
    first: Runnable,
    second: Runnable,
    second_taken: nat,
)
    requires
        one.scheduled(one_after, order, first),
        other.scheduled(other_after, order, second),
        other.channel(order) == one.channel(order),
        one_after.now(order) <= other.now(order),
        history::leaves(one.channel(order), second_taken),
        history::left(one.channel(order), second_taken) == history::joined(
            one.channel(order),
            other_after.sent(order).last(),
        ),
    ensures
        history::contents(one.channel(order), second_taken)[0] == second,
        exists|first_taken: nat|
            {
                &&& one_after.sent(order).last() < first_taken < second_taken
                &&& #[trigger] history::leaves(one.channel(order), first_taken)
                &&& history::contents(one.channel(order), first_taken)[0] == first
            },
{
    let lane = one.channel(order);
    let first_joins = one_after.sent(order).last();
    let second_joins = other_after.sent(order).last();
    history::lemma_one_operation(lane, first_joins);
    history::law_history_only_grows(lane, first_joins + 1, second_joins);
    history::law_what_left_was_the_front(lane, first_joins, second_taken, first);
    if second_taken <= second_joins {
        history::lemma_one_operation(lane, second_taken);
        if second_taken < second_joins {
            history::law_history_only_grows(lane, second_taken + 1, second_joins);
        }
    }
    history::law_channel_keeps_what_joined(lane, second_joins, second_taken, second);
}

/// A spawn adds one task to one lane and does nothing else to either: at the
/// moment of the spawn a runnable that polls the future joins the end of the
/// lane of its priority, nothing leaves a lane, and the other lane holds what it
/// held.
pub proof fn law_spawn_adds_one_task<F, T>(
    future: F,
    order: FutureType,
    lanes: &mut Lanes,
    task: Task<T>,
)
    where F: Future<Output = T> + Send + 'static, T: Send + 'static,
    requires
        call_ensures(spawn_task::<F, T>, (future, order, lanes), task),
        old(lanes).channel(FutureType::High) != old(lanes).channel(FutureType::Low),
    ensures
        ({
            let moment = final(lanes).sent(order).last();
            let lane = old(lanes).channel(order);
            let other = old(lanes).channel(order.other());
            let runnable = history::contents(lane, moment + 1).last();
            &&& moment >= old(lanes).now(order)
            &&& channel::polled_future(runnable).0 == channel::future_number(future)
            &&& history::contents(lane, moment + 1) == history::contents(lane, moment).push(
                runnable,
            )
            &&& history::contents(other, moment + 1) == history::contents(other, moment)
            &&& history::left(lane, moment + 1) == history::left(lane, moment)
            &&& history::left(other, moment + 1) == history::left(other, moment)
        }),
        final(lanes).sent(order.other()) == old(lanes).sent(order.other()),
        final(lanes).sent(order).len() == old(lanes).sent(order).len() + 1,
{
    let moment = final(lanes).sent(order).last();
    let runnable = channel::joining(old(lanes).channel(order), moment)->0;
    law_send_changes_one_lane(*old(lanes), *final(lanes), order, runnable);
}

/// A scheduled task waits its turn: what waits in its lane when it is scheduled
/// stands ahead of it, unless it was taken meanwhile.
pub proof fn law_scheduled_task_waits_its_turn(
    lanes: &mut Lanes,
    order: FutureType,
    runnable: Runnable,
    earlier: nat,
)
    requires
        call_ensures(Lanes::schedule, (lanes, order, runnable), ()),
        earlier <= old(lanes).now(order),
        history::left(old(lanes).channel(order), final(lanes).sent(order).last())
            - history::left(old(lanes).channel(order), earlier) <= history::contents(
            old(lanes).channel(order),
            earlier,
        ).len(),
    ensures
        ({
            let lane = old(lanes).channel(order);
            let moment = final(lanes).sent(order).last();
            let gone = history::left(lane, moment) - history::left(lane, earlier);
            let waits = history::contents(lane, earlier).skip(gone);
            let held = history::contents(lane, moment + 1);
            &&& held.last() == runnable
            &&& waits.len() < held.len()
            &&& held.take(waits.len() as int) == waits
        }),
{
    law_sent_task_goes_behind_what_waits(*old(lanes), *final(lanes), order, runnable, earlier);
}

/// What leaves a lane by a worker's step is run by that step. The step takes
/// one task when it runs one, the front of its lane at the moment it is taken,
/// and nothing else joins or leaves either lane at that moment; it takes none
/// when it rests.
pub proof fn law_step_takes_only_what_it_runs(
    worker: &mut Worker,
    action: WorkerAction,
    order: FutureType,
    moment: nat,
)
    requires
        call_ensures(Worker::next_action, (worker,), action),
        final(worker)@.inbox(order).polls == old(worker)@.inbox(order).polls.push(moment),
        old(worker)@.inbox(FutureType::High).channel != old(worker)@.inbox(
            FutureType::Low,
        ).channel,
    ensures
        ({
            let lane = old(worker)@.inbox(order);
            let other = old(worker)@.inbox(order.other());
            if lane.held(moment).len() > 0 {
                &&& action == WorkerAction::Run(lane.held(moment)[0])
                &&& lane.held(moment + 1) == lane.held(moment).drop_first()
                &&& other.held(moment + 1) == other.held(moment)
            } else {
                order == old(worker)@.home || action is Sleep
            }
        }),
{
    let before = old(worker)@;
    let after = final(worker)@;
    let (first, second) = choose|first: nat, second: nat|
        before.looks(after, action, first, second);
    let lane = before.inbox(order);
    let other = before.inbox(order.other());
    assert(lane.polls.push(moment).last() == moment);
    assert(lane.polls.push(moment).len() != lane.polls.len());
    assert(lane.polls.push(first).last() == first);
    assert(lane.polls.push(second).last() == second);
    if lane.held(moment).len() > 0 {
        assert(lane.takes(moment));
        history::lemma_one_operation(lane.channel, moment);
        history::law_front_leaves(lane.channel, moment);
        history::lemma_one_operation(other.channel, moment);
        assert(channel::joining(other.channel, moment) is None);
    }
}

} // verus!
