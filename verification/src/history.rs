//! The history of a channel: what it holds at each moment.
//!
//! The operations on channels take effect one after the other. A moment is the
//! number of operations that came before; the operation at a moment makes of
//! what the channel holds then what it holds at the next moment.
use crate::channel;
use async_task::Runnable;
use vstd::prelude::*;

verus! {

/// What a channel holds at a moment, the front first: what has joined it and
/// not yet left. What joins goes to the end, and what leaves is the front.
pub open spec fn contents(channel: int, moment: nat) -> Seq<Runnable>
    decreases moment,
{
    if moment == 0 {
        Seq::empty()
    } else {
        let last = (moment - 1) as nat;
        let held = contents(channel, last);
        match channel::joining(channel, last) {
            Some(runnable) => held.push(runnable),
            None => if channel::leaving(channel, last) && held.len() > 0 {
                held.drop_first()
            } else {
                held
            },
        }
    }
}

/// How many runnables have joined a channel before a moment.
pub open spec fn joined(channel: int, moment: nat) -> nat
    decreases moment,
{
    if moment == 0 {
        0
    } else {
        let last = (moment - 1) as nat;
        joined(channel, last) + if channel::joining(channel, last) is Some {
            1nat
        } else {
            0nat
        }
    }
}

/// How many runnables have left a channel before a moment.
pub open spec fn left(channel: int, moment: nat) -> int {
    joined(channel, moment) - contents(channel, moment).len()
}

/// The front of a channel leaves it at a moment.
pub open spec fn leaves(channel: int, moment: nat) -> bool {
    &&& channel::joining(channel, moment) is None
    &&& channel::leaving(channel, moment)
    &&& contents(channel, moment).len() > 0
}

/// The operation at a moment changes no channel but this one.
pub open spec fn only_changes(channel: int, moment: nat) -> bool {
    forall|other: int|
        other != channel ==> #[trigger] channel::joining(other, moment) is None
            && !channel::leaving(other, moment)
}

/// What joins a channel goes to the end of what it holds.
pub proof fn law_join_goes_to_the_end(channel: int, moment: nat, runnable: Runnable)
    requires
        channel::joining(channel, moment) == Some(runnable),
    ensures
        contents(channel, moment + 1) == contents(channel, moment).push(runnable),
{
}

/// What leaves a channel is the front of what it holds.
pub proof fn law_front_leaves(channel: int, moment: nat)
    requires
        leaves(channel, moment),
    ensures
        contents(channel, moment + 1) == contents(channel, moment).drop_first(),
{
}

/// What one operation does to the numbers of what has joined and left.
pub proof fn lemma_one_operation(channel: int, moment: nat)
    ensures
        joined(channel, moment + 1) == joined(channel, moment) + if channel::joining(
            channel,
            moment,
        ) is Some {
            1int
        } else {
            0int
        },
        left(channel, moment + 1) == left(channel, moment) + if leaves(channel, moment) {
            1int
        } else {
            0int
        },
{
}

/// Joining and leaving are not undone: the numbers of what has joined and of
/// what has left only grow.
pub proof fn law_history_only_grows(channel: int, earlier: nat, later: nat)
    requires
        earlier <= later,
    ensures
        joined(channel, earlier) <= joined(channel, later),
        0 <= left(channel, earlier) <= left(channel, later),
    decreases later,
{
    if earlier < later {
        law_history_only_grows(channel, earlier, (later - 1) as nat);
        lemma_one_operation(channel, (later - 1) as nat);
    } else if later > 0 {
        law_history_only_grows(channel, (earlier - 1) as nat, (later - 1) as nat);
        lemma_one_operation(channel, (later - 1) as nat);
    }
}

/// Nothing is lost in a channel: what joined stands in it, behind as many as
/// joined before and have not left, until all of those and then it have left.
pub proof fn law_channel_keeps_what_joined(channel: int, joins: nat, moment: nat, runnable: Runnable)
    requires
        channel::joining(channel, joins) == Some(runnable),
        joins < moment,
        left(channel, moment) <= joined(channel, joins),
    ensures
        joined(channel, joins) < joined(channel, moment),
        contents(channel, moment)[joined(channel, joins) - left(channel, moment)] == runnable,
    decreases moment,
{
    let last = (moment - 1) as nat;
    lemma_one_operation(channel, last);
    law_history_only_grows(channel, last, moment);
    if joins < last {
        law_channel_keeps_what_joined(channel, joins, last, runnable);
    }
}

/// What joined a channel leaves it from the front: once more have left than
/// had joined before it, there was a moment at which it was the front and left.
pub proof fn law_what_left_was_the_front(channel: int, joins: nat, moment: nat, runnable: Runnable)
    requires
        channel::joining(channel, joins) == Some(runnable),
        left(channel, moment) > joined(channel, joins),
    ensures
        exists|taken: nat|
            {
                &&& joins < taken < moment
                &&& #[trigger] leaves(channel, taken)
                &&& left(channel, taken) == joined(channel, joins)
                &&& contents(channel, taken)[0] == runnable
            },
    decreases moment,
{
    lemma_one_operation(channel, joins);
    if moment <= joins + 1 {
        law_history_only_grows(channel, moment, joins + 1);
        assert(false);
    }
    let last = (moment - 1) as nat;
    lemma_one_operation(channel, last);
    if left(channel, last) > joined(channel, joins) {
        law_what_left_was_the_front(channel, joins, last, runnable);
    } else {
        law_channel_keeps_what_joined(channel, joins, last, runnable);
        assert(leaves(channel, last));
    }
}

/// What waits keeps its place: of what a channel holds at one moment, it holds
/// at a later moment all that has not left since, in the same order, at the
/// front and so ahead of all that has joined since. What has left since is what
/// stood at the front.
pub proof fn law_what_waits_keeps_its_place(channel: int, earlier: nat, later: nat)
    requires
        earlier <= later,
        left(channel, later) - left(channel, earlier) <= contents(channel, earlier).len(),
    ensures
        ({
            let gone = left(channel, later) - left(channel, earlier);
            let stay = contents(channel, earlier).skip(gone);
            &&& stay.len() <= contents(channel, later).len()
            &&& contents(channel, later).take(stay.len() as int) == stay
        }),
    decreases later,
{
    let held = contents(channel, earlier);
    if earlier < later {
        let last = (later - 1) as nat;
        law_history_only_grows(channel, earlier, last);
        law_history_only_grows(channel, last, later);
        lemma_one_operation(channel, last);
        law_what_waits_keeps_its_place(channel, earlier, last);
        let before = held.skip(left(channel, last) - left(channel, earlier));
        let stay = held.skip(left(channel, later) - left(channel, earlier));
        let now = contents(channel, later);
        assert forall|i: int| 0 <= i < stay.len() implies #[trigger] now[i] == stay[i] by {
            let at = if leaves(channel, last) {
                i + 1
            } else {
                i
            };
            assert(contents(channel, last).take(before.len() as int)[at] == before[at]);
        }
        assert(now.take(stay.len() as int) =~= stay);
    } else {
        assert(held.skip(0) =~= held);
        assert(held.take(held.len() as int) =~= held);
    }
}

/// First in, first out, whoever sends and whoever takes: of two runnables that
/// joined a channel, the one that joined first leaves first.
pub proof fn law_first_in_first_out(
    channel: int,
    first_joins: nat,
    second_joins: nat,
    first_leaves: nat,
    second_leaves: nat,
)
    requires
        channel::joining(channel, first_joins) is Some,
        channel::joining(channel, second_joins) is Some,
        first_joins < second_joins,
        left(channel, first_leaves) == joined(channel, first_joins),
        left(channel, second_leaves) == joined(channel, second_joins),
    ensures
        first_leaves < second_leaves,
{
    lemma_one_operation(channel, first_joins);
    law_history_only_grows(channel, first_joins + 1, second_joins);
    if second_leaves <= first_leaves {
        law_history_only_grows(channel, second_leaves, first_leaves);
    }
}

/// Each entry leaves once: two moments at which the same entry leaves are one.
pub proof fn law_leaves_once(channel: int, one: nat, other: nat)
    requires
        leaves(channel, one),
        leaves(channel, other),
        left(channel, one) == left(channel, other),
    ensures
        one == other,
{
    if one < other {
        lemma_one_operation(channel, one);
        law_history_only_grows(channel, one + 1, other);
    } else if other < one {
        lemma_one_operation(channel, other);
        law_history_only_grows(channel, other + 1, one);
    }
}

} // verus!
