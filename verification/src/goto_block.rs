//! The task that walks a bot to a block, or to a column of blocks.

use vstd::prelude::*;
use vstd::string::StringExecFns;
use crate::client::{Action, ActionView, BlockPos, Event, Goal};
use crate::number::{decimal, i32_of, parse_i32, push_i32};
use crate::task::BotTask;

verus! {

/// Walks to `x`, `z`, at the height `y` where one is given. The first event
/// announces the walk and asks the client for it; every tick after that
/// compares the bot's position with the target, until they are the same.
/// Nothing gives the walk up: a bot that cannot arrive walks for ever.
pub struct GotoBlock {
    x: i32,
    y: Option<i32>,
    z: i32,
    started: bool,
    finished: bool,
}

/// The model of a `GotoBlock`.
pub struct GotoView {
    pub x: i32,
    pub y: Option<i32>,
    pub z: i32,
    pub started: bool,
    pub finished: bool,
}

impl GotoView {
    /// The walk that the arguments of a command ask for: `x z` or `x y z`,
    /// each a decimal `i32`; nothing for any other number of arguments, or
    /// where one of them is no such number.
    pub open spec fn parsed(args: Seq<Seq<char>>) -> Option<GotoView> {
        if args.len() == 3 {
            match (i32_of(args[0]), i32_of(args[1]), i32_of(args[2])) {
                (Some(x), Some(y), Some(z)) => Some(
                    GotoView { x, y: Some(y), z, started: false, finished: false },
                ),
                _ => None,
            }
        } else if args.len() == 2 {
            match (i32_of(args[0]), i32_of(args[1])) {
                (Some(x), Some(z)) => Some(
                    GotoView { x, y: None, z, started: false, finished: false },
                ),
                _ => None,
            }
        } else {
            None
        }
    }

    /// A walk that has arrived was started.
    pub open spec fn wf(self) -> bool {
        self.finished ==> self.started
    }

    /// Whether a bot at `position` is at the target: `x` and `z` match, and
    /// so does `y` where the target has one.
    pub open spec fn reached(self, position: BlockPos) -> bool {
        &&& position.x == self.x
        &&& position.z == self.z
        &&& (self.y is None || self.y == Some(position.y))
    }

    /// What the client is asked for: the block itself where `y` is given,
    /// else the column.
    pub open spec fn goal(self) -> Goal {
        match self.y {
            Some(y) => Goal::Block(BlockPos { x: self.x, y, z: self.z }),
            None => Goal::XZ { x: self.x, z: self.z },
        }
    }

    /// The line that announces the walk; a target without `y` is announced
    /// with 0 in its place.
    pub open spec fn announcement(self) -> Seq<char> {
        let y = match self.y {
            Some(y) => y,
            None => 0i32,
        };
        "Going to ("@ + decimal(self.x as int) + ", "@ + decimal(y as int) + ", "@ + decimal(
            self.z as int,
        ) + ")"@
    }

    /// The state after one event.
    pub open spec fn after(self, event: Event) -> GotoView {
        if self.finished {
            self
        } else if !self.started {
            GotoView { started: true, ..self }
        } else {
            match event {
                Event::Tick { position } => GotoView { finished: self.reached(position), ..self },
                Event::Other => self,
            }
        }
    }

    /// The actions that one event gives rise to: the announcement and the
    /// request to walk, once, at the first event.
    pub open spec fn actions(self) -> Seq<ActionView> {
        if !self.finished && !self.started {
            seq![ActionView::Chat(self.announcement()), ActionView::Goto(self.goal())]
        } else {
            Seq::empty()
        }
    }
}

impl View for GotoBlock {
    type V = GotoView;

    closed spec fn view(&self) -> GotoView {
        GotoView {
            x: self.x,
            y: self.y,
            z: self.z,
            started: self.started,
            finished: self.finished,
        }
    }
}

impl GotoBlock {
    #[verifier::type_invariant]
    spec fn inv(self) -> bool {
        self.finished ==> self.started
    }

    /// Reads the target of a walk from the arguments of a command.
    pub fn parse(args: Vec<String>) -> (task: Option<Self>)
        ensures
            match task {
                Some(t) => GotoView::parsed(args.deep_view()) == Some(t@) && t@.wf(),
                None => GotoView::parsed(args.deep_view()) is None,
            },
    {
        if args.len() == 3 {
            let x = match parse_i32(args[0].as_str()) {
                Some(x) => x,
                None => { return None; },
            };
            let y = match parse_i32(args[1].as_str()) {
                Some(y) => y,
                None => { return None; },
            };
            let z = match parse_i32(args[2].as_str()) {
                Some(z) => z,
                None => { return None; },
            };
            Some(Self { x, y: Some(y), z, started: false, finished: false })
        } else if args.len() == 2 {
            let x = match parse_i32(args[0].as_str()) {
                Some(x) => x,
                None => { return None; },
            };
            let z = match parse_i32(args[1].as_str()) {
                Some(z) => z,
                None => { return None; },
            };
            Some(Self { x, y: None, z, started: false, finished: false })
        } else {
            None
        }
    }

    /// The target's `x`.
    pub fn x(&self) -> (x: i32)
        ensures
            x == self@.x,
    {
        self.x
    }

    /// The target's `y`, where it has one.
    pub fn y(&self) -> (y: Option<i32>)
        ensures
            y == self@.y,
    {
        self.y
    }

    /// The target's `z`.
    pub fn z(&self) -> (z: i32)
        ensures
            z == self@.z,
    {
        self.z
    }

    /// Whether the walk was announced and asked for.
    pub fn started(&self) -> (started: bool)
        ensures
            started == self@.started,
            self@.wf(),
    {
        proof {
            use_type_invariant(self);
        }
        self.started
    }

    /// The line that announces the walk.
    fn announcement(&self) -> (text: String)
        ensures
            text@ == self@.announcement(),
    {
        let mut text = String::from_str("Going to (");
        push_i32(&mut text, self.x);
        text.append(", ");
        push_i32(
            &mut text,
            match self.y {
                Some(y) => y,
                None => 0,
            },
        );
        text.append(", ");
        push_i32(&mut text, self.z);
        text.append(")");
        assert(text@ =~= self@.announcement());
        text
    }

    /// What the client is asked for.
    fn goal(&self) -> (goal: Goal)
        ensures
            goal == self@.goal(),
    {
        match self.y {
            Some(y) => Goal::Block(BlockPos { x: self.x, y, z: self.z }),
            None => Goal::XZ { x: self.x, z: self.z },
        }
    }
}

impl BotTask for GotoBlock {
    open spec fn name(&self) -> Seq<char> {
        "GotoBlock"@
    }

    open spec fn done(&self) -> bool {
        self@.finished
    }

    fn get_name(&self) -> (name: &str) {
        "GotoBlock"
    }

    fn on_event(&mut self, now: u64, event: &Event) -> (actions: Vec<Action>)
        ensures
            old(self)@.wf(),
            final(self)@.wf(),
            final(self)@ == old(self)@.after(*event),
            actions.deep_view() == old(self)@.actions(),
    {
        proof {
            use_type_invariant(&*self);
        }
        let mut actions: Vec<Action> = Vec::new();
        if self.finished {
        } else if !self.started {
            self.started = true;
            actions.push(Action::Chat(self.announcement()));
            actions.push(Action::Goto(self.goal()));
        } else {
            match event {
                Event::Tick { position } => {
                    self.finished = position.x == self.x && position.z == self.z && match self.y {
                        Some(y) => position.y == y,
                        None => true,
                    };
                },
                Event::Other => {},
            }
        }
        assert(actions.deep_view() =~= old(self)@.actions());
        actions
    }

    fn end(&self) -> (done: bool) {
        self.finished
    }
}

/// The arguments of a command are read as a walk exactly where there are
/// two or three of them and each is a decimal `i32`; a walk that is read has
/// not started.
pub proof fn lemma_parsed_when(args: Seq<Seq<char>>)
    ensures
        GotoView::parsed(args) is Some <==> (args.len() == 2 || args.len() == 3) && forall|
            i: int,
        | 0 <= i < args.len() ==> i32_of(#[trigger] args[i]) is Some,
        GotoView::parsed(args) matches Some(goto) ==> {
            &&& goto.wf()
            &&& !goto.started
            &&& !goto.finished
            &&& Some(goto.x) == i32_of(args[0])
            &&& Some(goto.z) == i32_of(args.last())
            &&& args.len() == 2 ==> goto.y is None
            &&& args.len() == 3 ==> goto.y == i32_of(args[1])
        },
{
}

/// The first event of a walk starts it and announces it, whatever the event
/// is: the walk is announced and asked for, and is under way.
pub proof fn lemma_first_event_starts(task: GotoView, first: Event)
    requires
        task.wf(),
        !task.started,
    ensures
        task.actions() == seq![ActionView::Chat(task.announcement()), ActionView::Goto(task.goal())],
        task.after(first) == (GotoView { started: true, ..task }),
        !task.after(first).finished,
{
}

/// Every event leaves a walk well-formed, and started: a walk that has
/// arrived, after any event, is a walk that was started.
pub proof fn lemma_event_keeps_wf(task: GotoView, event: Event)
    requires
        task.wf(),
    ensures
        task.after(event).wf(),
        task.after(event).started,
{
}

/// The walk is announced and asked for once: whatever the first event was,
/// no later event gives rise to an action.
pub proof fn lemma_acts_once(task: GotoView, first: Event)
    ensures
        task.after(first).actions().len() == 0,
{
}

/// Done stays done: a walk that has arrived is left as it is by every
/// further event, wherever the bot is by then.
pub proof fn lemma_arrived_stays_arrived(task: GotoView, event: Event)
    requires
        task.finished,
    ensures
        task.after(event) == task,
        task.actions().len() == 0,
{
}

/// A walk is done only by a tick that finds the bot at the target.
pub proof fn lemma_arrives_at_target(task: GotoView, event: Event)
    requires
        !task.finished,
        task.after(event).finished,
    ensures
        task.started,
        event matches Event::Tick { position } && task.reached(position),
{
}

} // verus!
