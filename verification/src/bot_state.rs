//! One bot of the swarm: the task that it carries out, if it has one, and
//! what it does with each event.

use std::sync::Arc;
use parking_lot::Mutex;
use vstd::prelude::*;
use vstd::string::StringExecFns;
use crate::chat_task::{
    lemma_spaced_events_say_all, lemma_spaced_events_send_all, messages_between, said, spaced,
    ChatView,
};
use crate::client::{Action, ActionView, Event};
use crate::goto_block::GotoView;
use crate::lock::{lock, new_slot, slot_made_with, value};
use crate::queue::TaskQueue;
use crate::swarm::SwarmState;
use crate::task::{BotTask, Task, TaskView};

verus! {

/// What a report says of a bot without a task.
pub open spec fn no_task() -> Seq<char> {
    "No task"@
}

/// What a report says that a bot is busy with: the name of its task, or
/// `No task`.
pub open spec fn task_name(slot: Option<TaskView>) -> Seq<char> {
    match slot {
        Some(task) => task.name(),
        None => no_task(),
    }
}

/// Whether `name` is what a report can say of a bot: the name of a task, or
/// `No task`.
pub open spec fn is_task_name(name: Seq<char>) -> bool {
    exists|slot: Option<TaskView>| name == #[trigger] task_name(slot)
}

/// The name of the task in `slot`, or `No task`.
pub fn slot_name(slot: &Option<Task>) -> (name: String)
    ensures
        name@ == task_name(slot.deep_view()),
{
    match slot {
        Some(task) => String::from_str(task.get_name()),
        None => String::from_str("No task"),
    }
}

/// The line with which a bot announces that it takes up the task `name`.
pub open spec fn starting(name: Seq<char>) -> Seq<char> {
    "Starting "@ + name
}

/// The line with which a bot announces that its task `name` is done.
pub open spec fn finished(name: Seq<char>) -> Seq<char> {
    "Finished "@ + name
}

/// What one event leaves behind: the bot's state, the queue, and what the
/// bot is asked to do.
pub struct Step {
    pub state: Option<TaskView>,
    pub queue: Seq<TaskView>,
    pub actions: Seq<ActionView>,
}

/// What a bot in `state` does with `event`, delivered at `now`, while
/// `queue` holds the tasks that wait.
///
/// A busy bot whose task is done announces it, drops the task and is idle.
/// A busy bot whose task is not done hands it the event. An idle bot takes
/// the oldest task of the queue and announces it; the task gets its first
/// event when the next one comes. An idle bot that finds no task stays idle.
pub open spec fn step(
    state: Option<TaskView>,
    queue: Seq<TaskView>,
    now: nat,
    event: Event,
) -> Step {
    match state {
        Some(task) => if task.done() {
            Step { state: None, queue, actions: seq![ActionView::Chat(finished(task.name()))] }
        } else {
            Step { state: Some(task.after(now, event)), queue, actions: task.actions(now) }
        },
        None => if queue.len() > 0 {
            Step {
                state: Some(queue.first()),
                queue: queue.drop_first(),
                actions: seq![ActionView::Chat(starting(queue.first().name()))],
            }
        } else {
            Step { state: None, queue, actions: Seq::empty() }
        },
    }
}

/// What a busy bot does with `event`: `step`, which does not look at the
/// queue where the bot has a task.
fn work(now: u64, event: &Event, slot: &mut Option<Task>) -> (actions: Vec<Action>)
    requires
        *old(slot) is Some,
    ensures
        forall|queue: Seq<TaskView>|
            final(slot).deep_view() == (#[trigger] step(
                old(slot).deep_view(),
                queue,
                now as nat,
                *event,
            )).state,
        forall|queue: Seq<TaskView>|
            actions.deep_view() == (#[trigger] step(
                old(slot).deep_view(),
                queue,
                now as nat,
                *event,
            )).actions,
{
    let mut actions: Vec<Action> = Vec::new();
    match slot.take() {
        Some(mut task) => {
            if task.end() {
                let mut text = String::from_str("Finished ");
                text.append(task.get_name());
                actions.push(Action::Chat(text));
                assert(actions.deep_view() =~= seq![ActionView::Chat(finished(task@.name()))]);
            } else {
                actions = task.on_event(now, event);
                *slot = Some(task);
            }
        },
        None => {},
    }
    actions
}

/// What an idle bot does with `claimed`, which it took from the front of
/// the queue: it keeps the task and announces it, or stays idle where it
/// found none.
fn claim(slot: &mut Option<Task>, claimed: Option<Task>) -> (actions: Vec<Action>)
    requires
        *old(slot) is None,
    ensures
        *final(slot) == claimed,
        actions.deep_view() == match claimed {
            Some(task) => seq![ActionView::Chat(starting(task@.name()))],
            None => Seq::empty(),
        },
{
    let mut actions: Vec<Action> = Vec::new();
    match claimed {
        Some(task) => {
            let mut text = String::from_str("Starting ");
            text.append(task.get_name());
            actions.push(Action::Chat(text));
            assert(actions.deep_view() =~= seq![ActionView::Chat(starting(task@.name()))]);
            *slot = Some(task);
        },
        None => {
            assert(actions.deep_view() =~= Seq::<ActionView>::empty());
        },
    }
    actions
}

/// Lets a bot take `event`, delivered at `now` nanoseconds on the caller's
/// clock, and returns what the bot is to do, as `step` says. `slot` holds the
/// bot's task, if it has one, and `tasks` is the queue of the swarm.
pub fn handle(now: u64, event: &Event, slot: &mut Option<Task>, tasks: &mut TaskQueue) -> (actions:
    Vec<Action>)
    ensures
        final(slot).deep_view() == step(
            old(slot).deep_view(),
            old(tasks)@,
            now as nat,
            *event,
        ).state,
        final(tasks)@ == step(old(slot).deep_view(), old(tasks)@, now as nat, *event).queue,
        actions.deep_view() == step(
            old(slot).deep_view(),
            old(tasks)@,
            now as nat,
            *event,
        ).actions,
{
    if slot.is_some() {
        work(now, event, slot)
    } else {
        let claimed = tasks.pop_front();
        claim(slot, claimed)
    }
}

/// The states of several bots, and the queue, after each bot in turn has
/// taken one event.
pub open spec fn round(
    states: Seq<Option<TaskView>>,
    queue: Seq<TaskView>,
    now: nat,
    event: Event,
) -> (Seq<Option<TaskView>>, Seq<TaskView>)
    decreases states.len(),
{
    if states.len() == 0 {
        (states, queue)
    } else {
        let (earlier, left) = round(states.drop_last(), queue, now, event);
        let last = step(states.last(), left, now, event);
        (earlier.push(last.state), last.queue)
    }
}

/// Idle bots share the queue fairly. When each of `bots` idle bots takes one
/// event, the first bot takes the oldest task, the next bot the next, and so
/// on: as many bots are busy afterwards as there were tasks, or all of them,
/// no two with the same place of the queue, and the tasks that no bot took
/// still wait, in order.
pub proof fn lemma_idle_bots_claim_in_order(
    bots: nat,
    queue: Seq<TaskView>,
    now: nat,
    event: Event,
)
    ensures
        ({
            let (states, left) = round(Seq::new(bots, |i: int| None), queue, now, event);
            let claimed = if bots <= queue.len() {
                bots
            } else {
                queue.len()
            };
            &&& states.len() == bots
            &&& forall|i: int| 0 <= i < claimed ==> #[trigger] states[i] == Some(queue[i])
            &&& forall|i: int| claimed <= i < bots ==> #[trigger] states[i] is None
            &&& left == queue.skip(claimed as int)
        }),
    decreases bots,
{
    let idle = Seq::new(bots, |i: int| None::<TaskView>);
    if bots == 0 {
        assert(queue.skip(0) =~= queue);
    } else {
        let fewer = (bots - 1) as nat;
        lemma_idle_bots_claim_in_order(fewer, queue, now, event);
        assert(idle.drop_last() =~= Seq::new(fewer, |i: int| None::<TaskView>));
        let (earlier, left) = round(idle.drop_last(), queue, now, event);
        let last = step(idle.last(), left, now, event);
        let (states, rest) = round(idle, queue, now, event);
        assert(states == earlier.push(last.state));
        assert(rest == last.queue);
        if fewer < queue.len() {
            assert(left.first() == queue[fewer as int]);
            assert(left.drop_first() =~= queue.skip(bots as int));
        }
    }
}

/// What a bot has done after `events`, delivered at `times`, in that order:
/// its state, the queue, and all that it was asked to do, from the first
/// action to the last.
pub open spec fn run(
    state: Option<TaskView>,
    queue: Seq<TaskView>,
    times: Seq<nat>,
    events: Seq<Event>,
) -> Step
    recommends
        times.len() == events.len(),
    decreases times.len(),
{
    if times.len() == 0 {
        Step { state, queue, actions: Seq::empty() }
    } else {
        let before = run(state, queue, times.drop_last(), events.drop_last());
        let last = step(before.state, before.queue, times.last(), events.last());
        Step { state: last.state, queue: last.queue, actions: before.actions + last.actions }
    }
}

/// The first event that an idle bot gets claims the task at the front of
/// the queue, and announces it.
proof fn lemma_first_event_claims(
    task: TaskView,
    waiting: Seq<TaskView>,
    times: Seq<nat>,
    events: Seq<Event>,
)
    requires
        times.len() == events.len(),
        times.len() > 0,
    ensures
        run(None, seq![task] + waiting, times.take(1), events.take(1)) == (Step {
            state: Some(task),
            queue: waiting,
            actions: seq![ActionView::Chat(starting(task.name()))],
        }),
{
    let queue = seq![task] + waiting;
    let first = times.take(1);
    assert(first.drop_last() =~= Seq::<nat>::empty());
    assert(queue.first() == task);
    assert(queue.drop_first() =~= waiting);
    let start = run(None, queue, first.drop_last(), events.take(1).drop_last());
    assert(start.state is None && start.queue == queue && start.actions
        =~= Seq::<ActionView>::empty());
    let claimed = run(None, queue, first, events.take(1));
    assert(claimed.actions =~= seq![ActionView::Chat(starting(task.name()))]);
}

/// An idle bot that claims a chat task and then gets `sent` events, `delay`
/// apart or more, has said the first `sent` messages, and the task is in its
/// slot.
proof fn lemma_chat_under_way(
    messages: Seq<Seq<char>>,
    delay: nat,
    waiting: Seq<TaskView>,
    times: Seq<nat>,
    events: Seq<Event>,
    sent: int,
)
    requires
        0 <= sent <= messages.len(),
        times.len() == events.len(),
        times.len() > sent,
        forall|i: int| 2 <= i <= sent ==> #[trigger] times[i] >= times[i - 1] + delay,
    ensures
        ({
            let fresh = ChatView::fresh(messages, delay);
            let heard = times.subrange(1, sent + 1);
            &&& spaced(heard, delay)
            &&& fresh.after_all(heard).index == sent
            &&& run(
                None,
                seq![TaskView::Chat(fresh)] + waiting,
                times.take(sent + 1),
                events.take(sent + 1),
            ) == (Step {
                state: Some(TaskView::Chat(fresh.after_all(heard))),
                queue: waiting,
                actions: seq![ActionView::Chat(starting("Chat"@))] + said(fresh, heard),
            })
        }),
    decreases sent,
{
    let fresh = ChatView::fresh(messages, delay);
    let queue = seq![TaskView::Chat(fresh)] + waiting;
    let heard = times.subrange(1, sent + 1);
    assert(spaced(heard, delay)) by {
        assert forall|i: int| 0 < i < heard.len() implies #[trigger] heard[i] >= heard[i - 1]
            + delay by {
            assert(heard[i] == times[i + 1] && heard[i - 1] == times[i]);
        }
    }
    lemma_spaced_events_send_all(fresh, heard);
    if sent == 0 {
        lemma_first_event_claims(TaskView::Chat(fresh), waiting, times, events);
        assert(heard =~= Seq::<nat>::empty());
        assert(said(fresh, heard) =~= Seq::<ActionView>::empty());
        assert(fresh.after_all(heard) == fresh);
        assert(seq![ActionView::Chat(starting("Chat"@))] + said(fresh, heard)
            =~= seq![ActionView::Chat(starting("Chat"@))]);
    } else {
        lemma_chat_under_way(messages, delay, waiting, times, events, sent - 1);
        let earlier = times.subrange(1, sent);
        let so_far = times.take(sent + 1);
        assert(so_far.drop_last() =~= times.take(sent));
        assert(events.take(sent + 1).drop_last() =~= events.take(sent));
        assert(so_far.last() == times[sent]);
        assert(heard.drop_last() =~= earlier);
        assert(heard.last() == times[sent]);
        let before = run(None, queue, times.take(sent), events.take(sent));
        let task = fresh.after_all(earlier);
        assert(before.state == Some(TaskView::Chat(task)));
        assert(!task.done());
        let after = run(None, queue, so_far, events.take(sent + 1));
        assert(after.actions =~= seq![ActionView::Chat(starting("Chat"@))] + said(fresh, heard));
    }
}

/// From claim to finish. An idle bot finds a chat task at the front of the
/// queue, and events come, whatever they are: the first claims the task, the
/// next ones come `delay` apart or more, one for each message, and one more
/// comes at any time. Then the bot has announced the task, said every
/// message once and in order, and announced the end once; it is idle again,
/// and the tasks behind the first still wait.
pub proof fn lemma_chat_from_claim_to_finish(
    messages: Seq<Seq<char>>,
    delay: nat,
    waiting: Seq<TaskView>,
    times: Seq<nat>,
    events: Seq<Event>,
)
    requires
        times.len() == messages.len() + 2,
        events.len() == times.len(),
        forall|i: int| 2 <= i <= messages.len() ==> #[trigger] times[i] >= times[i - 1] + delay,
    ensures
        ({
            let fresh = ChatView::fresh(messages, delay);
            run(None, seq![TaskView::Chat(fresh)] + waiting, times, events) == (Step {
                state: None,
                queue: waiting,
                actions: seq![ActionView::Chat(starting("Chat"@))] + messages_between(
                    fresh,
                    0,
                    messages.len() as int,
                ) + seq![ActionView::Chat(finished("Chat"@))],
            })
        }),
{
    let fresh = ChatView::fresh(messages, delay);
    let queue = seq![TaskView::Chat(fresh)] + waiting;
    let count = messages.len() as int;
    let heard = times.subrange(1, count + 1);
    lemma_chat_under_way(messages, delay, waiting, times, events, count);
    lemma_spaced_events_say_all(fresh, heard);
    assert(times.drop_last() =~= times.take(count + 1));
    assert(events.drop_last() =~= events.take(count + 1));
    let before = run(None, queue, times.take(count + 1), events.take(count + 1));
    let task = fresh.after_all(heard);
    assert(before.state == Some(TaskView::Chat(task)));
    lemma_spaced_events_send_all(fresh, heard);
    assert(task.done());
    let end = run(None, queue, times, events);
    assert(end.actions =~= seq![ActionView::Chat(starting("Chat"@))] + messages_between(
        fresh,
        0,
        count,
    ) + seq![ActionView::Chat(finished("Chat"@))]);
}

/// Whether `event` is a tick that finds the bot at the target of `goto`.
pub open spec fn arrives(goto: GotoView, event: Event) -> bool {
    event matches Event::Tick { position } && goto.reached(position)
}

/// An idle bot that claims a walk, starts it with the next event and then
/// gets `more` events, none of which finds it at the target, has announced
/// the task and asked for the walk, and the walk is in its slot, started.
proof fn lemma_goto_under_way(
    goto: GotoView,
    waiting: Seq<TaskView>,
    times: Seq<nat>,
    events: Seq<Event>,
    more: int,
)
    requires
        !goto.started,
        !goto.finished,
        0 <= more,
        times.len() == events.len(),
        times.len() >= more + 2,
        forall|i: int| 2 <= i < more + 2 ==> !arrives(goto, #[trigger] events[i]),
    ensures
        run(
            None,
            seq![TaskView::GotoBlock(goto)] + waiting,
            times.take(more + 2),
            events.take(more + 2),
        ) == (Step {
            state: Some(TaskView::GotoBlock(GotoView { started: true, ..goto })),
            queue: waiting,
            actions: seq![
                ActionView::Chat(starting("GotoBlock"@)),
                ActionView::Chat(goto.announcement()),
                ActionView::Goto(goto.goal()),
            ],
        }),
    decreases more,
{
    let queue = seq![TaskView::GotoBlock(goto)] + waiting;
    let so_far = times.take(more + 2);
    let seen = events.take(more + 2);
    assert(so_far.drop_last() =~= times.take(more + 1));
    assert(seen.drop_last() =~= events.take(more + 1));
    assert(seen.last() == events[more + 1]);
    let after = run(None, queue, so_far, seen);
    if more == 0 {
        lemma_first_event_claims(TaskView::GotoBlock(goto), waiting, times, events);
        assert(after.actions =~= seq![
            ActionView::Chat(starting("GotoBlock"@)),
            ActionView::Chat(goto.announcement()),
            ActionView::Goto(goto.goal()),
        ]);
    } else {
        lemma_goto_under_way(goto, waiting, times, events, more - 1);
        assert(!arrives(goto, events[more + 1]));
        assert(after.actions =~= seq![
            ActionView::Chat(starting("GotoBlock"@)),
            ActionView::Chat(goto.announcement()),
            ActionView::Goto(goto.goal()),
        ]);
    }
}

/// From claim to arrival. An idle bot finds a walk at the front of the
/// queue, and events come at any time: the first claims the walk, the second
/// starts it, then come events that do not find the bot at the target, then
/// a tick that does, and one more event. Then the bot has announced the
/// task, announced the walk and asked for it once, and announced the end
/// once; it is idle again, and the tasks behind the first still wait.
pub proof fn lemma_goto_from_claim_to_finish(
    goto: GotoView,
    waiting: Seq<TaskView>,
    times: Seq<nat>,
    events: Seq<Event>,
)
    requires
        !goto.started,
        !goto.finished,
        times.len() == events.len(),
        times.len() >= 4,
        forall|i: int| 2 <= i < events.len() - 2 ==> !arrives(goto, #[trigger] events[i]),
        arrives(goto, events[events.len() - 2]),
    ensures
        run(None, seq![TaskView::GotoBlock(goto)] + waiting, times, events) == (Step {
            state: None,
            queue: waiting,
            actions: seq![
                ActionView::Chat(starting("GotoBlock"@)),
                ActionView::Chat(goto.announcement()),
                ActionView::Goto(goto.goal()),
                ActionView::Chat(finished("GotoBlock"@)),
            ],
        }),
{
    let queue = seq![TaskView::GotoBlock(goto)] + waiting;
    let count = times.len() as int;
    lemma_goto_under_way(goto, waiting, times, events, count - 4);
    let walking = run(None, queue, times.take(count - 2), events.take(count - 2));
    assert(times.drop_last() =~= times.take(count - 1));
    assert(events.drop_last() =~= events.take(count - 1));
    assert(times.take(count - 1).drop_last() =~= times.take(count - 2));
    assert(events.take(count - 1).drop_last() =~= events.take(count - 2));
    assert(events.take(count - 1).last() == events[count - 2]);
    let arrived = run(None, queue, times.take(count - 1), events.take(count - 1));
    assert(arrived.state == Some(
        TaskView::GotoBlock(GotoView { started: true, finished: true, ..goto }),
    ));
    assert(arrived.actions =~= walking.actions);
    let end = run(None, queue, times, events);
    assert(end.actions =~= seq![
        ActionView::Chat(starting("GotoBlock"@)),
        ActionView::Chat(goto.announcement()),
        ActionView::Goto(goto.goal()),
        ActionView::Chat(finished("GotoBlock"@)),
    ]);
}

/// One bot of a swarm: the task that it carries out, if it has one, behind
/// a lock. The bot itself changes it, with `handle`; a report reads it, with
/// `get_task`. Copies share the lock.
pub struct BotState {
    /// The slot of the bot, behind its lock. Every function of this library
    /// that reads or changes the slot takes the lock itself: a caller that
    /// holds this lock while it calls one of them waits for ever.
    pub task: Arc<Mutex<Option<Task>>>,
}

impl Clone for BotState {
    /// A copy that shares the lock, and the task behind it.
    fn clone(&self) -> (copy: Self)
        ensures
            copy.task == self.task,
    {
        Self { task: self.task.clone() }
    }
}

impl Default for BotState {
    /// An idle bot: its lock is made with an empty slot.
    fn default() -> (state: Self)
        ensures
            slot_made_with(*state.task) is None,
    {
        Self { task: Arc::new(new_slot(None)) }
    }
}

impl BotState {
    /// The name of the bot's task at this moment, or `No task`.
    pub fn get_task(&self) -> (name: String)
        ensures
            is_task_name(name@),
    {
        let mut held = lock(&self.task);
        let slot = value(&mut held);
        let name = slot_name(slot);
        assert(name@ == task_name(slot.deep_view()));
        name
    }

    /// Lets the bot take `event`, delivered at `now`, and returns what it is
    /// to do: what `step` says for the task that the bot has, and for the
    /// queue of `swarm` at the moment at which an idle bot looks into it. The
    /// bot's lock is held while the step is made; an idle bot takes the lock
    /// of the queue as well, and makes its step under both. Both are free
    /// again when the actions are returned.
    pub fn handle(&self, now: u64, event: &Event, swarm: &SwarmState) -> (actions: Vec<Action>)
        ensures
            exists|slot: Option<TaskView>, queue: Seq<TaskView>|
                actions.deep_view() == (#[trigger] step(slot, queue, now as nat, *event)).actions,
    {
        let mut held = lock(&self.task);
        let slot = value(&mut held);
        let ghost before = slot.deep_view();
        if slot.is_some() {
            let actions = work(now, event, slot);
            assert(actions.deep_view() == step(
                before,
                Seq::<TaskView>::empty(),
                now as nat,
                *event,
            ).actions);
            actions
        } else {
            let mut held_tasks = lock(&swarm.tasks);
            let tasks = value(&mut held_tasks);
            let ghost queue = tasks@;
            let actions = handle(now, event, slot, tasks);
            assert(actions.deep_view() == step(before, queue, now as nat, *event).actions);
            actions
        }
    }
}

} // verus!
