//! The contract that every task meets, whatever it does, and the tasks that
//! there are.

use vstd::prelude::*;
use vstd::string::StringExecFns;
use crate::chat_task::{Chat, ChatView};
use crate::client::{Action, ActionView, Event};
use crate::goto_block::{GotoBlock, GotoView};

verus! {

/// A unit of work that a bot carries out event by event. A task holds all
/// that it needs to go on where it stopped; it is told the time and the
/// event, and answers with what its bot is to do.
pub trait BotTask: Send {
    /// The name that announcements and reports give the task.
    spec fn name(&self) -> Seq<char>;

    /// Whether the task has nothing left to do.
    spec fn done(&self) -> bool;

    /// The task's name.
    fn get_name(&self) -> (name: &str)
        ensures
            name@ == self.name(),
    ;

    /// Takes one event, delivered at `now` nanoseconds on the caller's
    /// clock, and returns the actions that it gives rise to. The name never
    /// changes, and a task that is done stays done and asks for nothing.
    fn on_event(&mut self, now: u64, event: &Event) -> (actions: Vec<Action>)
        ensures
            final(self).name() == old(self).name(),
            old(self).done() ==> final(self).done() && actions@.len() == 0,
    ;

    /// Whether the task is done.
    fn end(&self) -> (done: bool)
        ensures
            done == self.done(),
    ;
}

/// How a list of tasks shows one of them: `BotTask(` and `)` around its name.
pub open spec fn fmt_spec(name: Seq<char>) -> Seq<char> {
    "BotTask("@ + name + ")"@
}

/// The text that shows `task` in a list of tasks.
pub fn fmt<T: BotTask>(task: &T) -> (text: String)
    ensures
        text@ == fmt_spec(task.name()),
{
    let mut text = String::from_str("BotTask(");
    text.append(task.get_name());
    text.append(")");
    assert(text@ =~= fmt_spec(task.name()));
    text
}

/// Any of the tasks that a command can ask for.
pub enum Task {
    Chat(Chat),
    GotoBlock(GotoBlock),
}

/// The model of a `Task`.
pub enum TaskView {
    Chat(ChatView),
    GotoBlock(GotoView),
}

impl TaskView {
    /// What holds of every task that was made and changed by this library:
    /// a chat task has sent no more messages than it has, and a walk that
    /// has arrived was started.
    pub open spec fn wf(self) -> bool {
        match self {
            TaskView::Chat(chat) => chat.wf(),
            TaskView::GotoBlock(goto) => goto.wf(),
        }
    }

    /// The task's name.
    pub open spec fn name(self) -> Seq<char> {
        match self {
            TaskView::Chat(_) => "Chat"@,
            TaskView::GotoBlock(_) => "GotoBlock"@,
        }
    }

    /// Whether the task has nothing left to do.
    pub open spec fn done(self) -> bool {
        match self {
            TaskView::Chat(chat) => chat.done(),
            TaskView::GotoBlock(goto) => goto.finished,
        }
    }

    /// The state after `event`, delivered at `now`.
    pub open spec fn after(self, now: nat, event: Event) -> TaskView {
        match self {
            TaskView::Chat(chat) => TaskView::Chat(chat.after(now)),
            TaskView::GotoBlock(goto) => TaskView::GotoBlock(goto.after(event)),
        }
    }

    /// The actions that an event at `now` gives rise to.
    pub open spec fn actions(self, now: nat) -> Seq<ActionView> {
        match self {
            TaskView::Chat(chat) => chat.actions(now),
            TaskView::GotoBlock(goto) => goto.actions(),
        }
    }
}

impl View for Task {
    type V = TaskView;

    open spec fn view(&self) -> TaskView {
        match self {
            Task::Chat(chat) => TaskView::Chat(chat@),
            Task::GotoBlock(goto) => TaskView::GotoBlock(goto@),
        }
    }
}

impl DeepView for Task {
    type V = TaskView;

    open spec fn deep_view(&self) -> TaskView {
        self@
    }
}

impl BotTask for Task {
    open spec fn name(&self) -> Seq<char> {
        self@.name()
    }

    open spec fn done(&self) -> bool {
        self@.done()
    }

    fn get_name(&self) -> (name: &str) {
        match self {
            Task::Chat(chat) => chat.get_name(),
            Task::GotoBlock(goto) => goto.get_name(),
        }
    }

    fn on_event(&mut self, now: u64, event: &Event) -> (actions: Vec<Action>)
        ensures
            old(self)@.wf(),
            final(self)@.wf(),
            final(self)@ == old(self)@.after(now as nat, *event),
            actions.deep_view() == old(self)@.actions(now as nat),
    {
        match self {
            Task::Chat(chat) => chat.on_event(now, event),
            Task::GotoBlock(goto) => goto.on_event(now, event),
        }
    }

    fn end(&self) -> (done: bool) {
        match self {
            Task::Chat(chat) => chat.end(),
            Task::GotoBlock(goto) => goto.end(),
        }
    }
}

} // verus!
