//! Task orchestration for a swarm of bots: a shared queue of tasks, the tasks
//! themselves, the chat commands that create them and the per-bot state
//! machine that claims and advances them.

pub mod text;
pub mod number;
pub mod client;
pub mod clock;
pub mod lock;
pub mod task;
pub mod chat_task;
pub mod goto_block;
pub mod queue;
pub mod command;
pub mod bot_state;
pub mod swarm;
