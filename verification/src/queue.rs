//! The queue of tasks that wait for a bot: first in, first out.

use vstd::prelude::*;
use vstd::string::StringExecFns;
use crate::task::{BotTask, Task, TaskView};

verus! {

/// The tasks that no bot has claimed yet, the oldest first. A task is in the
/// queue from `push` until the `pop_front` that hands it out, and nowhere
/// else in the queue after that.
pub struct TaskQueue {
    tasks: Vec<Task>,
}

/// The names of `tasks`, in order.
pub open spec fn names_of(tasks: Seq<TaskView>) -> Seq<Seq<char>> {
    Seq::new(tasks.len(), |i: int| tasks[i].name())
}

impl View for TaskQueue {
    type V = Seq<TaskView>;

    closed spec fn view(&self) -> Seq<TaskView> {
        self.tasks.deep_view()
    }
}

impl TaskQueue {
    /// An empty queue.
    pub fn new() -> (queue: Self)
        ensures
            queue@ == Seq::<TaskView>::empty(),
    {
        let queue = Self { tasks: Vec::new() };
        assert(queue@ =~= Seq::<TaskView>::empty());
        queue
    }

    /// Puts `task` behind all tasks that wait.
    pub fn push(&mut self, task: Task)
        ensures
            final(self)@ == old(self)@.push(task@),
    {
        self.tasks.push(task);
        assert(self@ =~= old(self)@.push(task@));
    }

    /// Takes out the task that has waited longest; `None` where no task
    /// waits.
    pub fn pop_front(&mut self) -> (task: Option<Task>)
        ensures
            match task {
                Some(t) => old(self)@.len() > 0 && t@ == old(self)@.first() && final(self)@ == old(
                    self,
                )@.drop_first(),
                None => old(self)@.len() == 0 && final(self)@ == old(self)@,
            },
    {
        if self.tasks.is_empty() {
            None
        } else {
            let task = self.tasks.remove(0);
            assert(self@ =~= old(self)@.drop_first());
            Some(task)
        }
    }

    /// Whether no task waits.
    pub fn is_empty(&self) -> (empty: bool)
        ensures
            empty == (self@.len() == 0),
    {
        self.tasks.is_empty()
    }

    /// How many tasks wait.
    pub fn len(&self) -> (n: usize)
        ensures
            n == self@.len(),
    {
        self.tasks.len()
    }

    /// The names of the tasks that wait, the oldest first. The queue is left
    /// as it is.
    pub fn snapshot(&self) -> (names: Vec<String>)
        ensures
            names.deep_view() == names_of(self@),
    {
        let mut names: Vec<String> = Vec::new();
        let n = self.tasks.len();
        let mut i: usize = 0;
        while i < n
            invariant
                n == self.tasks.len(),
                i <= n,
                names.deep_view() == names_of(self@).take(i as int),
            decreases n - i,
        {
            let ghost before = names.deep_view();
            let name = String::from_str(self.tasks[i].get_name());
            names.push(name);
            assert(names.deep_view() =~= before.push(name@));
            assert(names.deep_view() =~= names_of(self@).take(i + 1));
            i += 1;
        }
        assert(names_of(self@).take(n as int) =~= names_of(self@));
        names
    }
}

impl Default for TaskQueue {
    fn default() -> (queue: Self)
        ensures
            queue@ == Seq::<TaskView>::empty(),
    {
        TaskQueue::new()
    }
}

/// One call on a queue: `push` of a task, or `pop_front`.
pub enum QueueOp {
    Push(TaskView),
    PopFront,
}

/// The queue that `ops`, made in that order on the queue `start`, leave.
pub open spec fn queue_after(start: Seq<TaskView>, ops: Seq<QueueOp>) -> Seq<TaskView>
    decreases ops.len(),
{
    if ops.len() == 0 {
        start
    } else {
        let queue = queue_after(start, ops.drop_last());
        match ops.last() {
            QueueOp::Push(task) => queue.push(task),
            QueueOp::PopFront => if queue.len() > 0 {
                queue.drop_first()
            } else {
                queue
            },
        }
    }
}

/// The tasks that `ops` push, in the order of the calls.
pub open spec fn pushed_by(ops: Seq<QueueOp>) -> Seq<TaskView>
    decreases ops.len(),
{
    if ops.len() == 0 {
        Seq::empty()
    } else {
        let pushed = pushed_by(ops.drop_last());
        match ops.last() {
            QueueOp::Push(task) => pushed.push(task),
            QueueOp::PopFront => pushed,
        }
    }
}

/// The tasks that the calls of `pop_front` among `ops` hand out, in the
/// order of the calls, when `ops` are made on the queue `start`.
pub open spec fn popped_by(start: Seq<TaskView>, ops: Seq<QueueOp>) -> Seq<TaskView>
    decreases ops.len(),
{
    if ops.len() == 0 {
        Seq::empty()
    } else {
        let popped = popped_by(start, ops.drop_last());
        let queue = queue_after(start, ops.drop_last());
        match ops.last() {
            QueueOp::Push(_) => popped,
            QueueOp::PopFront => if queue.len() > 0 {
                popped.push(queue.first())
            } else {
                popped
            },
        }
    }
}

/// First in, first out. However pushes and pops follow one another, the
/// tasks handed out, followed by the tasks that still wait, are the tasks
/// that were in the queue at the start followed by the tasks pushed: every
/// task once, in the order of arrival.
pub proof fn lemma_fifo(start: Seq<TaskView>, ops: Seq<QueueOp>)
    ensures
        popped_by(start, ops) + queue_after(start, ops) == start + pushed_by(ops),
    decreases ops.len(),
{
    if ops.len() == 0 {
        assert(popped_by(start, ops) + queue_after(start, ops) =~= start + pushed_by(ops));
    } else {
        let before = ops.drop_last();
        lemma_fifo(start, before);
        let popped = popped_by(start, before);
        let queue = queue_after(start, before);
        let pushed = pushed_by(before);
        assert(popped + queue == start + pushed);
        match ops.last() {
            QueueOp::Push(task) => {
                assert(popped + queue.push(task) =~= (popped + queue).push(task));
                assert(start + pushed.push(task) =~= (start + pushed).push(task));
            },
            QueueOp::PopFront => {
                if queue.len() > 0 {
                    assert(popped.push(queue.first()) + queue.drop_first() =~= popped + queue);
                }
            },
        }
    }
}

/// The tasks of an empty queue are handed out in the order in which they
/// were pushed: the pops so far have handed out the first of the pushes,
/// and the rest of them wait, in order.
pub proof fn lemma_pops_follow_pushes(ops: Seq<QueueOp>)
    ensures
        popped_by(Seq::empty(), ops).len() <= pushed_by(ops).len(),
        popped_by(Seq::empty(), ops) == pushed_by(ops).take(
            popped_by(Seq::empty(), ops).len() as int,
        ),
        queue_after(Seq::empty(), ops) == pushed_by(ops).skip(
            popped_by(Seq::empty(), ops).len() as int,
        ),
{
    let start = Seq::<TaskView>::empty();
    lemma_fifo(start, ops);
    let popped = popped_by(start, ops);
    let queue = queue_after(start, ops);
    assert(start + pushed_by(ops) =~= pushed_by(ops));
    assert((popped + queue).take(popped.len() as int) =~= popped);
    assert((popped + queue).skip(popped.len() as int) =~= queue);
}

/// A task that was handed out is gone. Where the tasks can be told apart
/// (no two of those at the start and those pushed are equal), a task that
/// `pop_front` has handed out does not wait in the queue any more, so that
/// `snapshot` does not list it, and no `pop_front` hands it out again.
pub proof fn lemma_popped_is_gone(start: Seq<TaskView>, ops: Seq<QueueOp>)
    requires
        (start + pushed_by(ops)).no_duplicates(),
    ensures
        popped_by(start, ops).no_duplicates(),
        forall|i: int|
            0 <= i < popped_by(start, ops).len() ==> !queue_after(start, ops).contains(
                #[trigger] popped_by(start, ops)[i],
            ),
{
    lemma_fifo(start, ops);
    let all = start + pushed_by(ops);
    let popped = popped_by(start, ops);
    let queue = queue_after(start, ops);
    assert(all == popped + queue);
    assert forall|i: int, j: int| 0 <= i < popped.len() && 0 <= j < popped.len() && i != j implies popped[i]
        != popped[j] by {
        assert(all[i] == popped[i]);
        assert(all[j] == popped[j]);
    }
    assert forall|i: int| 0 <= i < popped.len() implies !queue.contains(#[trigger] popped[i]) by {
        if queue.contains(popped[i]) {
            let j = choose|j: int| 0 <= j < queue.len() && queue[j] == popped[i];
            assert(all[i] == popped[i]);
            assert(all[popped.len() + j] == queue[j]);
        }
    }
}

} // verus!
