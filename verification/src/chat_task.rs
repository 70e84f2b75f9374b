//! The task that says a list of messages, one after the other, no faster
//! than its delay allows.

use vstd::prelude::*;
use crate::client::{Action, ActionView, Event};
use crate::task::BotTask;

verus! {

/// The least time between two messages of a task made by `Chat::init`: one
/// second, in nanoseconds.
pub const DELAY: u64 = 1_000_000_000;

/// Says its messages in order. A message is sent by the first event that
/// comes at least `delay` nanoseconds after the message before it; the first
/// message waits for nothing.
pub struct Chat {
    last_update: Option<u64>,
    messages: Vec<String>,
    index: usize,
    delay: u64,
}

/// The model of a `Chat`.
pub struct ChatView {
    /// When the last message was sent, if one was.
    pub last_update: Option<nat>,
    /// All messages, sent or not.
    pub messages: Seq<Seq<char>>,
    /// How many messages were sent.
    pub index: nat,
    /// The least time between two messages.
    pub delay: nat,
}

impl ChatView {
    /// The task that `messages` and `delay` make: nothing sent yet.
    pub open spec fn fresh(messages: Seq<Seq<char>>, delay: nat) -> ChatView {
        ChatView { last_update: None, messages, index: 0, delay }
    }

    /// No more messages are sent than there are.
    pub open spec fn wf(self) -> bool {
        self.index <= self.messages.len()
    }

    /// All messages are sent.
    pub open spec fn done(self) -> bool {
        self.index == self.messages.len()
    }

    /// The time that has passed at `now` since the last message; none where
    /// the clock went backwards.
    pub open spec fn elapsed(self, now: nat) -> nat
        recommends
            self.last_update is Some,
    {
        let last = self.last_update->Some_0;
        if now >= last {
            (now - last) as nat
        } else {
            0
        }
    }

    /// Whether the delay allows a message at `now`.
    pub open spec fn due(self, now: nat) -> bool {
        self.last_update is None || self.elapsed(now) >= self.delay
    }

    /// Whether an event at `now` sends a message.
    pub open spec fn fires(self, now: nat) -> bool {
        self.index < self.messages.len() && self.due(now)
    }

    /// The state after an event at `now`.
    pub open spec fn after(self, now: nat) -> ChatView {
        if self.fires(now) {
            ChatView { last_update: Some(now), index: self.index + 1, ..self }
        } else {
            self
        }
    }

    /// The actions that an event at `now` gives rise to: the next message,
    /// or nothing.
    pub open spec fn actions(self, now: nat) -> Seq<ActionView> {
        if self.fires(now) {
            seq![ActionView::Chat(self.messages[self.index as int])]
        } else {
            Seq::empty()
        }
    }

    /// The state after events at each of `times`, in that order.
    pub open spec fn after_all(self, times: Seq<nat>) -> ChatView
        decreases times.len(),
    {
        if times.len() == 0 {
            self
        } else {
            self.after_all(times.drop_last()).after(times.last())
        }
    }
}

impl View for Chat {
    type V = ChatView;

    closed spec fn view(&self) -> ChatView {
        ChatView {
            last_update: match self.last_update {
                Some(t) => Some(t as nat),
                None => None,
            },
            messages: self.messages.deep_view(),
            index: self.index as nat,
            delay: self.delay as nat,
        }
    }
}

impl Chat {
    #[verifier::type_invariant]
    spec fn inv(self) -> bool {
        self.index <= self.messages.len()
    }

    /// A task that says `args`, one word each, `DELAY` apart.
    pub fn init(args: Vec<String>) -> (task: Self)
        ensures
            task@ == ChatView::fresh(args.deep_view(), DELAY as nat),
            task@.wf(),
    {
        Self { last_update: None, messages: args, index: 0, delay: DELAY }
    }

    /// A task that says `args`, `delay` nanoseconds apart.
    pub fn with_delay(args: Vec<String>, delay: u64) -> (task: Self)
        ensures
            task@ == ChatView::fresh(args.deep_view(), delay as nat),
            task@.wf(),
    {
        Self { last_update: None, messages: args, index: 0, delay }
    }

    /// How many messages were sent.
    pub fn sent(&self) -> (sent: usize)
        ensures
            sent == self@.index,
            self@.wf(),
    {
        proof {
            use_type_invariant(self);
        }
        self.index
    }

    /// How many messages there are, sent or not.
    pub fn len(&self) -> (len: usize)
        ensures
            len == self@.messages.len(),
    {
        self.messages.len()
    }

    /// The least time between two messages, in nanoseconds.
    pub fn delay(&self) -> (delay: u64)
        ensures
            delay == self@.delay,
    {
        self.delay
    }

    /// Whether the delay allows a message at `now`.
    fn due(&self, now: u64) -> (due: bool)
        ensures
            due == self@.due(now as nat),
    {
        match self.last_update {
            None => true,
            Some(last) => {
                let elapsed = if now >= last {
                    now - last
                } else {
                    0
                };
                elapsed >= self.delay
            },
        }
    }
}

impl BotTask for Chat {
    open spec fn name(&self) -> Seq<char> {
        "Chat"@
    }

    open spec fn done(&self) -> bool {
        self@.done()
    }

    fn get_name(&self) -> (name: &str) {
        "Chat"
    }

    fn on_event(&mut self, now: u64, event: &Event) -> (actions: Vec<Action>)
        ensures
            old(self)@.wf(),
            final(self)@.wf(),
            final(self)@ == old(self)@.after(now as nat),
            actions.deep_view() == old(self)@.actions(now as nat),
    {
        proof {
            use_type_invariant(&*self);
        }
        let mut actions: Vec<Action> = Vec::new();
        if self.index < self.messages.len() && self.due(now) {
            actions.push(Action::Chat(self.messages[self.index].clone()));
            self.index += 1;
            self.last_update = Some(now);
        }
        proof {
            use_type_invariant(&*self);
        }
        assert(actions.deep_view() =~= old(self)@.actions(now as nat));
        actions
    }

    fn end(&self) -> (done: bool) {
        self.index == self.messages.len()
    }
}

/// Whether no time of `times` is earlier than one before it.
pub open spec fn non_decreasing(times: Seq<nat>) -> bool {
    forall|i: int, j: int| 0 <= i <= j < times.len() ==> times[i] <= times[j]
}

/// One event sends one message at most.
pub proof fn lemma_one_message_per_event(task: ChatView, now: nat)
    ensures
        task.index <= task.after(now).index <= task.index + 1,
        task.actions(now).len() == task.after(now).index - task.index,
{
}

/// Done stays done: a task that has sent all its messages is left as it is
/// by every further event, whenever it comes, and sends nothing more.
pub proof fn lemma_done_stays_done(task: ChatView, times: Seq<nat>)
    requires
        task.done(),
    ensures
        task.after_all(times) == task,
        task.after_all(times).done(),
        forall|now: nat| (#[trigger] task.actions(now)).len() == 0,
    decreases times.len(),
{
    if times.len() > 0 {
        lemma_done_stays_done(task, times.drop_last());
    }
}

/// What `lemma_throttle` states, with what its induction needs besides.
proof fn lemma_throttle_step(task: ChatView, times: Seq<nat>)
    requires
        non_decreasing(times),
        task.last_update is Some && times.len() > 0 ==> task.last_update->Some_0 <= times[0],
    ensures
        ({
            let end = task.after_all(times);
            let sent = end.index - task.index;
            &&& end.messages == task.messages
            &&& end.delay == task.delay
            &&& 0 <= sent <= times.len()
            &&& sent == 0 ==> end.last_update == task.last_update
            &&& sent > 0 ==> {
                &&& end.last_update is Some
                &&& times[0] <= end.last_update->Some_0 <= times.last()
                &&& task.last_update is Some ==> sent * task.delay <= end.last_update->Some_0
                    - task.last_update->Some_0
                &&& task.last_update is None ==> (sent - 1) * task.delay <= end.last_update->Some_0
                    - times[0]
            }
        }),
    decreases times.len(),
{
    if times.len() > 0 {
        let earlier = times.drop_last();
        let now = times.last();
        assert(non_decreasing(earlier)) by {
            assert forall|i: int, j: int| 0 <= i <= j < earlier.len() implies earlier[i]
                <= earlier[j] by {
                assert(earlier[i] == times[i] && earlier[j] == times[j]);
            }
        }
        if earlier.len() > 0 {
            assert(earlier[0] == times[0]);
            assert(earlier.last() == times[times.len() - 2]);
        }
        lemma_throttle_step(task, earlier);
        let mid = task.after_all(earlier);
        let end = task.after_all(times);
        assert(end == mid.after(now));
        let sent = mid.index - task.index;
        if mid.fires(now) {
            let delay = task.delay as int;
            assert((sent + 1) * delay == sent * delay + delay) by (nonlinear_arith);
            assert((sent - 1 + 1) * delay == (sent - 1) * delay + delay) by (nonlinear_arith);
            assert(times[0] <= now);
            if sent > 0 {
                let last = mid.last_update->Some_0;
                assert(last <= now);
                assert(now - last >= delay);
            } else {
                assert(0 * delay == 0) by (nonlinear_arith);
                assert(1 * delay == delay) by (nonlinear_arith);
            }
        }
    }
}

/// Throttling. Take events at times that a clock gives one after the other,
/// none of them before the task's last message. Then the messages sent in
/// answer to them, each `delay` long, fit into the time from the last message
/// before them to the last event: they are no more than that time divided by
/// `delay`. For a task that has sent nothing yet, all but the first fit into
/// the time from the first event to the last. And there are no more messages
/// than events.
pub proof fn lemma_throttle(task: ChatView, times: Seq<nat>)
    requires
        times.len() > 0,
        non_decreasing(times),
        task.last_update is Some ==> task.last_update->Some_0 <= times[0],
    ensures
        ({
            let sent = task.after_all(times).index - task.index;
            &&& 0 <= sent <= times.len()
            &&& task.last_update is Some ==> sent * task.delay <= times.last()
                - task.last_update->Some_0
            &&& task.last_update is Some && task.delay > 0 ==> sent <= (times.last()
                - task.last_update->Some_0) / (task.delay as int)
            &&& task.last_update is None && sent > 0 ==> (sent - 1) * task.delay <= times.last()
                - times[0]
            &&& task.last_update is None && sent > 0 && task.delay > 0 ==> sent - 1 <= (
            times.last() - times[0]) / (task.delay as int)
        }),
{
    lemma_throttle_step(task, times);
    let sent = task.after_all(times).index - task.index;
    let delay = task.delay as int;
    if sent == 0 {
        assert(sent * delay == 0) by (nonlinear_arith)
            requires
                sent == 0,
        ;
    }
    if delay > 0 {
        if task.last_update is Some {
            let span = times.last() - task.last_update->Some_0;
            assert(sent <= span / delay) by (nonlinear_arith)
                requires
                    sent * delay <= span,
                    delay > 0,
            ;
        } else if sent > 0 {
            let span = times.last() - times[0];
            assert(sent - 1 <= span / delay) by (nonlinear_arith)
                requires
                    (sent - 1) * delay <= span,
                    delay > 0,
            ;
        }
    }
}

/// Whether each time of `times` is at least `delay` after the one before it.
pub open spec fn spaced(times: Seq<nat>, delay: nat) -> bool {
    forall|i: int| 0 < i < times.len() ==> #[trigger] times[i] >= times[i - 1] + delay
}

/// Nothing holds a task up. Events that come `delay` apart or more, the
/// first of them no sooner than `delay` after the task's last message, send
/// one message each until all are sent: after as many events as messages
/// were left, the task is done.
pub proof fn lemma_spaced_events_send_all(task: ChatView, times: Seq<nat>)
    requires
        task.wf(),
        spaced(times, task.delay),
        task.last_update is Some && times.len() > 0 ==> times[0] >= task.last_update->Some_0
            + task.delay,
    ensures
        ({
            let end = task.after_all(times);
            let left = task.messages.len() - task.index;
            &&& end.messages == task.messages
            &&& end.delay == task.delay
            &&& end.index == task.index + if times.len() <= left {
                times.len() as int
            } else {
                left
            }
            &&& times.len() >= left ==> end.done()
            &&& times.len() > 0 && end.index > task.index ==> end.last_update is Some
                && end.last_update->Some_0 <= times.last()
            &&& times.len() > 0 && end.index == task.index ==> end.last_update
                == task.last_update
        }),
    decreases times.len(),
{
    if times.len() > 0 {
        let earlier = times.drop_last();
        let now = times.last();
        assert(spaced(earlier, task.delay)) by {
            assert forall|i: int| 0 < i < earlier.len() implies #[trigger] earlier[i] >= earlier[i
                - 1] + task.delay by {
                assert(earlier[i] == times[i] && earlier[i - 1] == times[i - 1]);
            }
        }
        if earlier.len() > 0 {
            assert(earlier[0] == times[0]);
            assert(earlier.last() == times[times.len() - 2]);
            assert(times[times.len() - 1] >= times[times.len() - 2] + task.delay);
        }
        lemma_spaced_events_send_all(task, earlier);
        let mid = task.after_all(earlier);
        assert(task.after_all(times) == mid.after(now));
        if mid.index < mid.messages.len() {
            assert(mid.index - task.index == earlier.len());
            assert(mid.due(now));
        }
    }
}

/// What a task says in answer to events at each of `times`, in that order.
pub open spec fn said(task: ChatView, times: Seq<nat>) -> Seq<ActionView>
    decreases times.len(),
{
    if times.len() == 0 {
        Seq::empty()
    } else {
        said(task, times.drop_last()) + task.after_all(times.drop_last()).actions(times.last())
    }
}

/// The messages `from` to `to` of `task`, each as the action that sends it.
pub open spec fn messages_between(task: ChatView, from: int, to: int) -> Seq<ActionView> {
    Seq::new((to - from) as nat, |i: int| ActionView::Chat(task.messages[from + i]))
}

/// Events that come `delay` apart or more, the first of them no sooner than
/// `delay` after the task's last message, are answered with the messages
/// that were left, in order, one for each event until all are sent.
pub proof fn lemma_spaced_events_say_all(task: ChatView, times: Seq<nat>)
    requires
        task.wf(),
        spaced(times, task.delay),
        task.last_update is Some && times.len() > 0 ==> times[0] >= task.last_update->Some_0
            + task.delay,
    ensures
        said(task, times) == messages_between(
            task,
            task.index as int,
            task.after_all(times).index as int,
        ),
    decreases times.len(),
{
    lemma_spaced_events_send_all(task, times);
    if times.len() == 0 {
        assert(said(task, times) =~= messages_between(task, task.index as int, task.index as int));
    } else {
        let earlier = times.drop_last();
        assert(spaced(earlier, task.delay)) by {
            assert forall|i: int| 0 < i < earlier.len() implies #[trigger] earlier[i] >= earlier[i
                - 1] + task.delay by {
                assert(earlier[i] == times[i] && earlier[i - 1] == times[i - 1]);
            }
        }
        if earlier.len() > 0 {
            assert(earlier[0] == times[0]);
        }
        lemma_spaced_events_say_all(task, earlier);
        lemma_spaced_events_send_all(task, earlier);
        let mid = task.after_all(earlier);
        let end = task.after_all(times);
        assert(end == mid.after(times.last()));
        assert(said(task, times) =~= messages_between(task, task.index as int, end.index as int));
    }
}

} // verus!
