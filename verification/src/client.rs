//! What passes between a task and the game client that runs its bot: the
//! events that the client delivers, and the actions that a task asks of it.
//! All of it is plain data, so that the caller alone talks to the client.

use vstd::prelude::*;

verus! {

/// The position of a block in the world.
#[derive(Debug, Clone, Copy, PartialEq, Eq, Structural)]
pub struct BlockPos {
    pub x: i32,
    pub y: i32,
    pub z: i32,
}

/// Where a bot is asked to walk.
#[derive(Debug, Clone, Copy, PartialEq, Eq, Structural)]
pub enum Goal {
    /// Exactly this block.
    Block(BlockPos),
    /// Any block of the column at `x`, `z`.
    XZ { x: i32, z: i32 },
}

/// One event, as the client delivers it to a bot.
#[derive(Debug, Clone, Copy, PartialEq, Eq, Structural)]
pub enum Event {
    /// The periodic tick, with the block that the bot stands in.
    Tick { position: BlockPos },
    /// Any other event.
    Other,
}

/// What a bot is asked to do in answer to an event.
#[derive(Debug, PartialEq, Eq)]
pub enum Action {
    /// Send this line to the chat.
    Chat(String),
    /// Start walking to this goal.
    Goto(Goal),
}

/// The model of an `Action`: its text as a sequence of characters.
pub enum ActionView {
    Chat(Seq<char>),
    Goto(Goal),
}

impl View for Action {
    type V = ActionView;

    open spec fn view(&self) -> ActionView {
        match self {
            Action::Chat(text) => ActionView::Chat(text@),
            Action::Goto(goal) => ActionView::Goto(*goal),
        }
    }
}

impl DeepView for Action {
    type V = ActionView;

    open spec fn deep_view(&self) -> ActionView {
        self@
    }
}

} // verus!
