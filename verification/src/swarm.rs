//! The swarm as a whole: what a line of the chat does to the queue that the
//! bots share, and the report on the bots and the queue.

use std::sync::Arc;
use parking_lot::Mutex;
use vstd::prelude::*;
use vstd::string::StringExecFns;
use crate::bot_state::{is_task_name, no_task, task_name, BotState};
use crate::command::{command_of, parse_command, Command, CommandView};
use crate::lock::{lock, new_queue, queue_made_with, value};
use crate::queue::{names_of, TaskQueue};
use crate::task::{fmt_spec, Task, TaskView};

verus! {

/// What a report says of one bot: its name, and the name of its task or
/// `No task`.
pub struct BotStatus {
    pub username: String,
    pub task: String,
}

/// The model of a `BotStatus`.
pub struct BotStatusView {
    pub username: Seq<char>,
    pub task: Seq<char>,
}

impl View for BotStatus {
    type V = BotStatusView;

    open spec fn view(&self) -> BotStatusView {
        BotStatusView { username: self.username@, task: self.task@ }
    }
}

impl DeepView for BotStatus {
    type V = BotStatusView;

    open spec fn deep_view(&self) -> BotStatusView {
        self@
    }
}

impl BotStatus {
    /// What a report says of the bot `username` in `state`, at this moment.
    pub fn new(username: String, state: &BotState) -> (status: Self)
        ensures
            status@.username == username@,
            is_task_name(status@.task),
    {
        Self { username, task: state.get_task() }
    }
}

impl BotStatusView {
    /// The line of a report for this bot.
    pub open spec fn line(self) -> Seq<char> {
        self.username + " - "@ + self.task
    }
}

/// `items`, with `, ` between one and the next.
pub open spec fn joined(items: Seq<Seq<char>>) -> Seq<char>
    decreases items.len(),
{
    if items.len() == 0 {
        Seq::empty()
    } else if items.len() == 1 {
        items[0]
    } else {
        joined(items.drop_last()) + ", "@ + items.last()
    }
}

/// The line of a report for the tasks that wait: each as `BotTask(name)`,
/// the oldest first, in square brackets.
pub open spec fn unstarted_line(queue: Seq<TaskView>) -> Seq<char> {
    "Unstarted: ["@ + joined(Seq::new(queue.len(), |i: int| fmt_spec(queue[i].name()))) + "]"@
}

/// The report: one line for each bot, in the order given, then the line for
/// the queue.
pub open spec fn status_report(bots: Seq<BotStatusView>, queue: Seq<TaskView>) -> Seq<Seq<char>> {
    Seq::new(bots.len(), |i: int| bots[i].line()).push(unstarted_line(queue))
}

/// The line of a report for the tasks with the names `names`.
fn unstarted(names: &Vec<String>) -> (line: String)
    ensures
        line@ == "Unstarted: ["@ + joined(
            Seq::new(names.len() as nat, |i: int| fmt_spec(names.deep_view()[i])),
        ) + "]"@,
{
    let ghost shown = Seq::new(names.len() as nat, |i: int| fmt_spec(names.deep_view()[i]));
    let mut list = String::new();
    let n = names.len();
    let mut i: usize = 0;
    assert(shown.take(0) =~= Seq::<Seq<char>>::empty());
    while i < n
        invariant
            n == names.len(),
            i <= n,
            shown == Seq::new(names.len() as nat, |i: int| fmt_spec(names.deep_view()[i])),
            list@ == joined(shown.take(i as int)),
        decreases n - i,
    {
        let ghost before = list@;
        if i > 0 {
            list.append(", ");
        }
        list.append("BotTask(");
        list.append(names[i].as_str());
        list.append(")");
        proof {
            let next = shown.take(i + 1);
            assert(next.drop_last() =~= shown.take(i as int));
            assert(next.last() == fmt_spec(names@[i as int]@));
            if i > 0 {
                assert(list@ =~= before + ", "@ + next.last());
            } else {
                assert(list@ =~= next.last());
            }
        }
        i += 1;
    }
    assert(shown.take(n as int) =~= shown);
    let mut line = String::from_str("Unstarted: [");
    line.append(list.as_str());
    line.append("]");
    line
}

/// Writes the report on `bots` and on the tasks that wait in `tasks`.
pub fn report(bots: &Vec<BotStatus>, tasks: &TaskQueue) -> (lines: Vec<String>)
    ensures
        lines.deep_view() == status_report(bots.deep_view(), tasks@),
{
    let ghost expected = status_report(bots.deep_view(), tasks@);
    let mut lines: Vec<String> = Vec::new();
    let n = bots.len();
    let mut i: usize = 0;
    while i < n
        invariant
            n == bots.len(),
            i <= n,
            expected == status_report(bots.deep_view(), tasks@),
            lines.deep_view() == expected.take(i as int),
        decreases n - i,
    {
        let ghost before = lines.deep_view();
        let mut line = String::from_str(bots[i].username.as_str());
        line.append(" - ");
        line.append(bots[i].task.as_str());
        assert(line@ =~= bots.deep_view()[i as int].line());
        lines.push(line);
        assert(lines.deep_view() =~= before.push(line@));
        assert(lines.deep_view() =~= expected.take(i + 1));
        i += 1;
    }
    let ghost before = lines.deep_view();
    let names = tasks.snapshot();
    let last = unstarted(&names);
    proof {
        assert(names.deep_view() == names_of(tasks@));
        assert(names.len() == tasks@.len()) by {
            assert(names.deep_view().len() == names_of(tasks@).len());
        }
        assert forall|i: int| 0 <= i < tasks@.len() implies names.deep_view()[i]
            == #[trigger] tasks@[i].name() by {
            assert(names_of(tasks@)[i] == tasks@[i].name());
        }
        assert(Seq::new(names.len() as nat, |i: int| fmt_spec(names.deep_view()[i])) =~= Seq::new(
            tasks@.len(),
            |i: int| fmt_spec(tasks@[i].name()),
        ));
    }
    lines.push(last);
    assert(lines.deep_view() =~= before.push(last@));
    assert(lines.deep_view() =~= expected);
    lines
}

/// What a line of the chat leaves behind: the queue, and the lines of the
/// report that it asked for.
pub struct SwarmStep {
    pub queue: Seq<TaskView>,
    pub report: Seq<Seq<char>>,
}

/// What the line `content` of the chat does, while `queue` holds the tasks
/// that wait and `bots` says what the bots do: a command that asks for a task
/// puts it behind the tasks that wait, `!status` gives the report and
/// leaves the queue alone, and any other line does nothing.
pub open spec fn swarm_step(
    bots: Seq<BotStatusView>,
    content: Seq<char>,
    queue: Seq<TaskView>,
) -> SwarmStep {
    match command_of(content) {
        CommandView::Run(task) => SwarmStep { queue: queue.push(task), report: Seq::empty() },
        CommandView::Status => SwarmStep { queue, report: status_report(bots, queue) },
        CommandView::Nothing => SwarmStep { queue, report: Seq::empty() },
    }
}

/// Takes the line `content` of the chat, as `swarm_step` says, and returns
/// the lines of the report, if the line asked for one. `bots` is what a
/// report says of each bot at this moment, `tasks` the queue that the swarm
/// shares.
pub fn handle_swarm(bots: &Vec<BotStatus>, content: &str, tasks: &mut TaskQueue) -> (lines: Vec<
    String,
>)
    ensures
        final(tasks)@ == swarm_step(bots.deep_view(), content@, old(tasks)@).queue,
        lines.deep_view() == swarm_step(bots.deep_view(), content@, old(tasks)@).report,
{
    match parse_command(content) {
        Command::Run(task) => {
            tasks.push(task);
            let lines: Vec<String> = Vec::new();
            assert(lines.deep_view() =~= Seq::<Seq<char>>::empty());
            lines
        },
        Command::Status => report(bots, tasks),
        Command::Nothing => {
            let lines: Vec<String> = Vec::new();
            assert(lines.deep_view() =~= Seq::<Seq<char>>::empty());
            lines
        },
    }
}

/// What the bots of a swarm share: the queue of the tasks that wait, behind
/// one lock. Every call takes the lock, does its work on the queue and gives
/// the lock back, so that calls from several bots never mix. Copies share
/// the lock.
pub struct SwarmState {
    /// The queue of the swarm, behind its lock. Every function of this
    /// library that reads or changes the queue takes the lock itself: a
    /// caller that holds this lock while it calls one of them waits for
    /// ever.
    pub tasks: Arc<Mutex<TaskQueue>>,
}

impl Clone for SwarmState {
    /// A copy that shares the lock, and the queue behind it.
    fn clone(&self) -> (copy: Self)
        ensures
            copy.tasks == self.tasks,
    {
        Self { tasks: self.tasks.clone() }
    }
}

impl Default for SwarmState {
    /// A swarm without tasks: its lock is made with an empty queue.
    fn default() -> (state: Self)
        ensures
            queue_made_with(*state.tasks) == Seq::<TaskView>::empty(),
    {
        Self { tasks: Arc::new(new_queue(TaskQueue::new())) }
    }
}

impl SwarmState {
    /// Puts `task` behind all tasks that wait.
    pub fn push(&self, task: Task) {
        let mut held = lock(&self.tasks);
        let tasks = value(&mut held);
        tasks.push(task);
    }

    /// Takes out the task that has waited longest at this moment; `None`
    /// where no task waits. It never waits for a task to come.
    pub fn pop_front(&self) -> Option<Task> {
        let mut held = lock(&self.tasks);
        let tasks = value(&mut held);
        tasks.pop_front()
    }

    /// Whether no task waits at this moment.
    pub fn is_empty(&self) -> bool {
        let mut held = lock(&self.tasks);
        let tasks = value(&mut held);
        tasks.is_empty()
    }

    /// The names of the tasks that wait at this moment, the oldest first.
    pub fn snapshot(&self) -> (names: Vec<String>)
        ensures
            exists|queue: Seq<TaskView>| names.deep_view() == #[trigger] names_of(queue),
    {
        let mut held = lock(&self.tasks);
        let tasks = value(&mut held);
        let names = tasks.snapshot();
        assert(names.deep_view() == names_of(tasks@));
        names
    }

    /// What a report says of each of `bots` at this moment. The bots are
    /// read one after the other, each under its own lock.
    fn statuses(bots: &Vec<(String, BotState)>) -> (statuses: Vec<BotStatus>)
        ensures
            statuses.len() == bots.len(),
            forall|i: int|
                0 <= i < statuses.len() ==> (#[trigger] statuses.deep_view()[i]).username
                    == bots[i].0@ && is_task_name(statuses.deep_view()[i].task),
    {
        let mut statuses: Vec<BotStatus> = Vec::new();
        let n = bots.len();
        let mut i: usize = 0;
        while i < n
            invariant
                n == bots.len(),
                i <= n,
                statuses.len() == i,
                forall|k: int|
                    0 <= k < i ==> (#[trigger] statuses[k])@.username == bots[k].0@
                        && is_task_name(statuses[k]@.task),
            decreases n - i,
        {
            statuses.push(BotStatus::new(bots[i].0.clone(), &bots[i].1));
            i += 1;
        }
        assert forall|k: int| 0 <= k < statuses.len() implies (
        #[trigger] statuses.deep_view()[k]).username == bots[k].0@ && is_task_name(
            statuses.deep_view()[k].task,
        ) by {
            assert(statuses.deep_view()[k] == statuses[k]@);
        }
        statuses
    }

    /// Takes the line `content` of the chat and returns the lines of the
    /// report, if it asked for one: what `swarm_step` says for what the bots
    /// do and the queue holds at this moment. `bots` are the bots of the
    /// swarm with their names; they are read for a report only, and before
    /// the lock of the queue is taken.
    pub fn handle_swarm(&self, bots: &Vec<(String, BotState)>, content: &str) -> (lines: Vec<
        String,
    >)
        ensures
            exists|statuses: Seq<BotStatusView>, queue: Seq<TaskView>|
                {
                    &&& statuses.len() == bots.len()
                    &&& forall|i: int|
                        0 <= i < statuses.len() ==> (#[trigger] statuses[i]).username
                            == bots[i].0@ && is_task_name(statuses[i].task)
                    &&& lines.deep_view() == (#[trigger] swarm_step(
                        statuses,
                        content@,
                        queue,
                    )).report
                },
    {
        let ghost named = Seq::new(
            bots.len() as nat,
            |i: int| BotStatusView { username: bots[i].0@, task: no_task() },
        );
        assert(is_task_name(no_task())) by {
            assert(no_task() == task_name(None));
        }
        let ghost none = Seq::<TaskView>::empty();
        match parse_command(content) {
            Command::Run(task) => {
                self.push(task);
                let lines: Vec<String> = Vec::new();
                assert(lines.deep_view() =~= swarm_step(named, content@, none).report);
                lines
            },
            Command::Status => {
                let statuses = SwarmState::statuses(bots);
                let mut held = lock(&self.tasks);
                let tasks = value(&mut held);
                let lines = report(&statuses, tasks);
                assert(lines.deep_view() == swarm_step(
                    statuses.deep_view(),
                    content@,
                    tasks@,
                ).report);
                lines
            },
            Command::Nothing => {
                let lines: Vec<String> = Vec::new();
                assert(lines.deep_view() =~= swarm_step(named, content@, none).report);
                lines
            },
        }
    }
}

} // verus!
