//! The commands that the chat gives the swarm, one line each.
//!
//! | line                 | meaning                                        |
//! |----------------------|------------------------------------------------|
//! | `!chat <word> ...`   | a task that says the words, one message each   |
//! | `!goto <x> <z>`      | a task that walks to the column `x`, `z`       |
//! | `!goto <x> <y> <z>`  | a task that walks to the block `x`, `y`, `z`   |
//! | `!status`            | a report on the bots and on the queue          |
//!
//! Any other line is no command, and is passed over in silence.

use vstd::prelude::*;
use vstd::string::StringExecFns;
use crate::chat_task::{Chat, ChatView, DELAY};
use crate::goto_block::{GotoBlock, GotoView};
use crate::number::{decimal, lemma_decimal_is_word, lemma_decimal_round_trip};
use crate::task::{Task, TaskView};
use crate::text::{is_word, lemma_words_of_line, lemma_words_of_word, line_of, split_whitespace, words};

verus! {

/// What a line of the chat asks for.
pub enum Command {
    /// A task to put into the queue.
    Run(Task),
    /// Report what the bots do and which tasks wait.
    Status,
    /// Nothing: the line is no command.
    Nothing,
}

/// The model of a `Command`.
pub enum CommandView {
    Run(TaskView),
    Status,
    Nothing,
}

impl View for Command {
    type V = CommandView;

    open spec fn view(&self) -> CommandView {
        match self {
            Command::Run(task) => CommandView::Run(task@),
            Command::Status => CommandView::Status,
            Command::Nothing => CommandView::Nothing,
        }
    }
}

/// What `line` asks for. Its first word names the command, case and all;
/// the words behind it are the command's arguments. A line without words, an
/// unknown first word, or arguments that the command cannot read, ask for
/// nothing.
pub open spec fn command_of(line: Seq<char>) -> CommandView {
    let args = words(line);
    if args.len() == 0 {
        CommandView::Nothing
    } else if args[0] == "!chat"@ {
        CommandView::Run(TaskView::Chat(ChatView::fresh(args.drop_first(), DELAY as nat)))
    } else if args[0] == "!goto"@ {
        match GotoView::parsed(args.drop_first()) {
            Some(goto) => CommandView::Run(TaskView::GotoBlock(goto)),
            None => CommandView::Nothing,
        }
    } else if args[0] == "!status"@ {
        CommandView::Status
    } else {
        CommandView::Nothing
    }
}

/// The task that `line` asks for, if it asks for one.
pub open spec fn task_of(line: Seq<char>) -> Option<TaskView> {
    match command_of(line) {
        CommandView::Run(task) => Some(task),
        _ => None,
    }
}

/// Whether `word` is the command word `verb`.
fn is_verb(word: &String, verb: &str) -> (same: bool)
    ensures
        same == (word@ == verb@),
{
    *word == String::from_str(verb)
}

/// Reads a line of the chat as a command.
pub fn parse_command(line: &str) -> (command: Command)
    ensures
        command@ == command_of(line@),
{
    let mut args = split_whitespace(line);
    if args.len() == 0 {
        return Command::Nothing;
    }
    let ghost all = args.deep_view();
    let verb = args.remove(0);
    assert(verb@ == all[0]);
    assert(args.deep_view() =~= all.drop_first());
    if is_verb(&verb, "!chat") {
        Command::Run(Task::Chat(Chat::init(args)))
    } else if is_verb(&verb, "!goto") {
        match GotoBlock::parse(args) {
            Some(goto) => Command::Run(Task::GotoBlock(goto)),
            None => Command::Nothing,
        }
    } else if is_verb(&verb, "!status") {
        Command::Status
    } else {
        Command::Nothing
    }
}

/// Whether a line of the chat asks for the report, so that a caller reads
/// the bots only where a report is made of them.
pub fn asks_for_status(line: &str) -> (asks: bool)
    ensures
        asks == (command_of(line@) is Status),
{
    match parse_command(line) {
        Command::Status => true,
        _ => false,
    }
}

/// Reads a line of the chat as a task: `Some` where the line is a command
/// that asks for one.
pub fn parse(line: &str) -> (task: Option<Task>)
    ensures
        task.deep_view() == task_of(line@),
{
    match parse_command(line) {
        Command::Run(task) => Some(task),
        _ => None,
    }
}

/// The three command words are words, and no two of them are the same.
proof fn lemma_verbs()
    ensures
        is_word("!chat"@),
        is_word("!goto"@),
        is_word("!status"@),
        "!chat"@ != "!goto"@,
        "!chat"@ != "!status"@,
        "!goto"@ != "!status"@,
{
    reveal_strlit("!chat");
    reveal_strlit("!goto");
    reveal_strlit("!status");
    assert("!chat"@[1] == 'c' && "!goto"@[1] == 'g' && "!status"@[1] == 's');
}

/// `!chat` and words behind it ask for the task that says those words, one
/// message each; `!chat` alone asks for a task without messages.
pub proof fn lemma_chat_line(messages: Seq<Seq<char>>)
    requires
        forall|i: int| 0 <= i < messages.len() ==> is_word(#[trigger] messages[i]),
    ensures
        command_of(line_of(seq!["!chat"@] + messages)) == CommandView::Run(
            TaskView::Chat(ChatView::fresh(messages, DELAY as nat)),
        ),
{
    lemma_verbs();
    let items = seq!["!chat"@] + messages;
    assert forall|i: int| 0 <= i < items.len() implies is_word(#[trigger] items[i]) by {
        if i > 0 {
            assert(items[i] == messages[i - 1]);
        }
    }
    lemma_words_of_line(items);
    assert(items.drop_first() =~= messages);
}

/// `!goto` and two numbers ask for the walk to that column: the first
/// number is `x`, the second `z`, and the height is left open.
pub proof fn lemma_goto_column_line(x: i32, z: i32)
    ensures
        command_of(line_of(seq!["!goto"@, decimal(x as int), decimal(z as int)]))
            == CommandView::Run(
            TaskView::GotoBlock(GotoView { x, y: None, z, started: false, finished: false }),
        ),
{
    lemma_verbs();
    lemma_decimal_is_word(x as int);
    lemma_decimal_is_word(z as int);
    lemma_decimal_round_trip(x);
    lemma_decimal_round_trip(z);
    let items = seq!["!goto"@, decimal(x as int), decimal(z as int)];
    lemma_words_of_line(items);
    let args = items.drop_first();
    assert(args.len() == 2 && args[0] == decimal(x as int) && args[1] == decimal(z as int));
}

/// `!goto` and three numbers ask for the walk to that block: `x`, `y` and
/// `z`, in this order.
pub proof fn lemma_goto_block_line(x: i32, y: i32, z: i32)
    ensures
        command_of(
            line_of(seq!["!goto"@, decimal(x as int), decimal(y as int), decimal(z as int)]),
        ) == CommandView::Run(
            TaskView::GotoBlock(GotoView { x, y: Some(y), z, started: false, finished: false }),
        ),
{
    lemma_verbs();
    lemma_decimal_is_word(x as int);
    lemma_decimal_is_word(y as int);
    lemma_decimal_is_word(z as int);
    lemma_decimal_round_trip(x);
    lemma_decimal_round_trip(y);
    lemma_decimal_round_trip(z);
    let items = seq!["!goto"@, decimal(x as int), decimal(y as int), decimal(z as int)];
    lemma_words_of_line(items);
    let args = items.drop_first();
    assert(args.len() == 3 && args[0] == decimal(x as int) && args[1] == decimal(y as int)
        && args[2] == decimal(z as int));
}

/// `!goto` with fewer than two or more than three arguments asks for
/// nothing, whatever the arguments are.
pub proof fn lemma_goto_wrong_count(args: Seq<Seq<char>>)
    requires
        forall|i: int| 0 <= i < args.len() ==> is_word(#[trigger] args[i]),
        args.len() != 2,
        args.len() != 3,
    ensures
        command_of(line_of(seq!["!goto"@] + args)) == CommandView::Nothing,
{
    lemma_verbs();
    let items = seq!["!goto"@] + args;
    assert forall|i: int| 0 <= i < items.len() implies is_word(#[trigger] items[i]) by {
        if i > 0 {
            assert(items[i] == args[i - 1]);
        }
    }
    lemma_words_of_line(items);
    assert(items.drop_first() =~= args);
}

/// `!status` asks for the report.
pub proof fn lemma_status_line()
    ensures
        command_of("!status"@) == CommandView::Status,
{
    lemma_verbs();
    lemma_words_of_word("!status"@);
}

/// Reading a line changes nothing and depends on nothing but the line: a
/// line whose first word is none of the command words asks for nothing.
pub proof fn lemma_unknown_verb(line: Seq<char>)
    requires
        words(line).len() > 0,
        words(line)[0] != "!chat"@,
        words(line)[0] != "!goto"@,
        words(line)[0] != "!status"@,
    ensures
        command_of(line) == CommandView::Nothing,
        task_of(line) is None,
{
}

} // verus!
