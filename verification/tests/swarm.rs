use swarm_tasks::bot_state::{handle, slot_name};
use swarm_tasks::chat_task::Chat;
use swarm_tasks::client::{Action, BlockPos, Event, Goal};
use swarm_tasks::command::{asks_for_status, parse, parse_command, Command};
use swarm_tasks::goto_block::GotoBlock;
use swarm_tasks::queue::TaskQueue;
use swarm_tasks::swarm::{handle_swarm, report, BotStatus};
use swarm_tasks::task::{BotTask, Task};

fn strings(items: &[&str]) -> Vec<String> {
    items.iter().map(|s| s.to_string()).collect()
}

fn say(text: &str) -> Action {
    Action::Chat(text.to_string())
}

fn chat(items: &[&str]) -> Task {
    Task::Chat(Chat::init(strings(items)))
}

fn goto(items: &[&str]) -> Task {
    Task::GotoBlock(GotoBlock::parse(strings(items)).unwrap())
}

fn target(task: &Task) -> (i32, Option<i32>, i32) {
    match task {
        Task::GotoBlock(goto) => (goto.x(), goto.y(), goto.z()),
        Task::Chat(_) => panic!("a chat task has no target"),
    }
}

fn messages(task: &Task) -> usize {
    match task {
        Task::Chat(chat) => chat.len(),
        Task::GotoBlock(_) => panic!("a walk has no messages"),
    }
}

fn status(username: &str, task: &str) -> BotStatus {
    BotStatus { username: username.to_string(), task: task.to_string() }
}

#[test]
fn parse_goto_with_two_numbers() {
    let task = parse("!goto 10 20").unwrap();
    assert_eq!(target(&task), (10, None, 20));
    assert!(!task.end());
}

#[test]
fn parse_goto_with_three_numbers() {
    let task = parse("!goto 10 5 20").unwrap();
    assert_eq!(target(&task), (10, Some(5), 20));
}

#[test]
fn parse_goto_with_one_number_is_nothing() {
    assert!(parse("!goto 10").is_none());
    assert!(parse("!goto").is_none());
    assert!(parse("!goto 1 2 3 4").is_none());
}

#[test]
fn parse_goto_with_letters_is_nothing() {
    assert!(parse("!goto a b").is_none());
    assert!(parse("!goto 1 b 3").is_none());
}

#[test]
fn parse_chat_takes_each_word_as_a_message() {
    let mut task = parse("!chat hi bye").unwrap();
    assert_eq!(task.get_name(), "Chat");
    assert_eq!(messages(&task), 2);
    assert_eq!(task.on_event(0, &Event::Other), vec![say("hi")]);
    assert_eq!(task.on_event(999_999_999, &Event::Other), Vec::<Action>::new());
    assert_eq!(task.on_event(1_000_000_000, &Event::Other), vec![say("bye")]);
    assert!(task.end());
}

#[test]
fn parse_chat_without_words_is_a_task_that_is_done() {
    let task = parse("!chat").unwrap();
    assert_eq!(messages(&task), 0);
    assert!(task.end());
}

#[test]
fn parse_passes_over_what_is_no_command() {
    assert!(parse("").is_none());
    assert!(parse("    ").is_none());
    assert!(parse("hello there").is_none());
    assert!(parse("!dance").is_none());
    assert!(parse("!Chat hi").is_none());
    assert!(parse("!GOTO 1 2").is_none());
    assert!(parse("chat hi").is_none());
    assert!(parse("!chathi").is_none());
    assert!(parse("!status").is_none());
}

#[test]
fn parse_skips_separators_around_words() {
    let task = parse("  \t!goto   -3\u{a0}4  ").unwrap();
    assert_eq!(target(&task), (-3, None, 4));
}

#[test]
fn parse_command_tells_status_from_nothing() {
    assert!(matches!(parse_command("!status"), Command::Status));
    assert!(matches!(parse_command("  !status now"), Command::Status));
    assert!(matches!(parse_command("status"), Command::Nothing));
    assert!(matches!(parse_command(""), Command::Nothing));
    assert!(matches!(parse_command("!goto x"), Command::Nothing));
    assert!(matches!(parse_command("!chat a"), Command::Run(Task::Chat(_))));
    assert!(matches!(parse_command("!goto 1 2"), Command::Run(Task::GotoBlock(_))));
}

#[test]
fn only_status_asks_for_the_report() {
    assert!(asks_for_status("!status"));
    assert!(asks_for_status("  !status  please "));
    assert!(!asks_for_status("!Status"));
    assert!(!asks_for_status("status"));
    assert!(!asks_for_status("!chat !status"));
    assert!(!asks_for_status("!goto 1 2"));
    assert!(!asks_for_status(""));
}

#[test]
fn queue_starts_empty() {
    let mut queue = TaskQueue::new();
    assert!(queue.is_empty());
    assert_eq!(queue.len(), 0);
    assert_eq!(queue.snapshot(), Vec::<String>::new());
    assert!(queue.pop_front().is_none());
    assert!(queue.is_empty());
    assert!(TaskQueue::default().is_empty());
}

#[test]
fn queue_hands_out_in_order_of_arrival() {
    let mut queue = TaskQueue::new();
    queue.push(goto(&["1", "1"]));
    queue.push(goto(&["2", "2"]));
    assert_eq!(target(&queue.pop_front().unwrap()), (1, None, 1));
    queue.push(goto(&["3", "3"]));
    queue.push(goto(&["4", "4"]));
    assert_eq!(queue.len(), 3);
    assert_eq!(target(&queue.pop_front().unwrap()), (2, None, 2));
    assert_eq!(target(&queue.pop_front().unwrap()), (3, None, 3));
    queue.push(goto(&["5", "5"]));
    assert_eq!(target(&queue.pop_front().unwrap()), (4, None, 4));
    assert_eq!(target(&queue.pop_front().unwrap()), (5, None, 5));
    assert!(queue.pop_front().is_none());
    assert!(queue.is_empty());
}

#[test]
fn queue_loses_and_repeats_nothing() {
    let mut queue = TaskQueue::new();
    let mut pushed: Vec<i32> = Vec::new();
    let mut popped: Vec<i32> = Vec::new();
    let mut seed: u32 = 12345;
    for n in 0..2000 {
        seed = seed.wrapping_mul(1103515245).wrapping_add(12345);
        if (seed >> 16) % 3 != 0 {
            queue.push(goto(&[&n.to_string(), "0"]));
            pushed.push(n);
        } else if let Some(task) = queue.pop_front() {
            popped.push(target(&task).0);
        }
        assert_eq!(queue.len() + popped.len(), pushed.len());
    }
    while let Some(task) = queue.pop_front() {
        popped.push(target(&task).0);
    }
    assert_eq!(popped, pushed);
}

#[test]
fn snapshot_lists_names_and_changes_nothing() {
    let mut queue = TaskQueue::new();
    queue.push(chat(&["a"]));
    queue.push(goto(&["1", "2"]));
    queue.push(chat(&[]));
    assert_eq!(queue.snapshot(), vec!["Chat", "GotoBlock", "Chat"]);
    assert_eq!(queue.snapshot(), vec!["Chat", "GotoBlock", "Chat"]);
    assert_eq!(queue.len(), 3);
    assert!(!queue.is_empty());
}

#[test]
fn popped_task_is_gone_from_the_queue() {
    let mut queue = TaskQueue::new();
    queue.push(goto(&["1", "2"]));
    queue.push(chat(&["a"]));
    let task = queue.pop_front().unwrap();
    assert_eq!(task.get_name(), "GotoBlock");
    assert_eq!(queue.snapshot(), vec!["Chat"]);
    assert_eq!(queue.pop_front().unwrap().get_name(), "Chat");
    assert!(queue.pop_front().is_none());
    assert_eq!(queue.snapshot(), Vec::<String>::new());
}

#[test]
fn slot_is_named_after_its_task() {
    assert_eq!(slot_name(&None), "No task");
    assert_eq!(slot_name(&Some(chat(&["a"]))), "Chat");
    assert_eq!(slot_name(&Some(goto(&["1", "2"]))), "GotoBlock");
}

#[test]
fn idle_bot_with_empty_queue_stays_idle() {
    let mut state: Option<Task> = None;
    let mut queue = TaskQueue::new();
    assert_eq!(handle(0, &Event::Other, &mut state, &mut queue), Vec::<Action>::new());
    assert!(state.is_none());
    assert!(queue.is_empty());
}

#[test]
fn idle_bot_claims_without_advancing() {
    let mut state: Option<Task> = None;
    let mut queue = TaskQueue::new();
    queue.push(chat(&["hi"]));
    queue.push(goto(&["1", "2"]));
    assert_eq!(handle(0, &Event::Other, &mut state, &mut queue), vec![say("Starting Chat")]);
    assert_eq!(slot_name(&state), "Chat");
    assert_eq!(messages(state.as_ref().unwrap()), 1);
    assert!(!state.as_ref().unwrap().end());
    assert_eq!(queue.snapshot(), vec!["GotoBlock"]);
}

#[test]
fn busy_bot_leaves_the_queue_alone() {
    let mut state: Option<Task> = None;
    let mut queue = TaskQueue::new();
    queue.push(goto(&["1", "2"]));
    queue.push(chat(&["hi"]));
    handle(0, &Event::Other, &mut state, &mut queue);
    assert_eq!(slot_name(&state), "GotoBlock");
    for now in 1..20u64 {
        handle(now, &Event::Tick { position: BlockPos { x: 0, y: 0, z: 0 } }, &mut state, &mut queue);
        assert_eq!(slot_name(&state), "GotoBlock");
        assert_eq!(queue.snapshot(), vec!["Chat"]);
    }
}

#[test]
fn end_to_end_chat() {
    let delay: u64 = 1_000_000_000;
    let mut state: Option<Task> = None;
    let mut queue = TaskQueue::new();
    queue.push(chat(&["hi", "bye"]));

    let mut finished = 0;
    let mut said: Vec<String> = Vec::new();
    let mut now: u64 = 0;

    assert_eq!(handle(now, &Event::Other, &mut state, &mut queue), vec![say("Starting Chat")]);
    assert_eq!(slot_name(&state), "Chat");
    assert!(queue.is_empty());

    now += delay;
    assert_eq!(handle(now, &Event::Other, &mut state, &mut queue), vec![say("hi")]);
    assert!(!state.as_ref().unwrap().end());
    assert_eq!(handle(now + 1, &Event::Other, &mut state, &mut queue), Vec::<Action>::new());

    now += delay;
    assert_eq!(handle(now, &Event::Other, &mut state, &mut queue), vec![say("bye")]);
    assert!(state.as_ref().unwrap().end());

    for step in 0..10u64 {
        for action in handle(now + step, &Event::Other, &mut state, &mut queue) {
            match action {
                Action::Chat(text) if text == "Finished Chat" => finished += 1,
                Action::Chat(text) => said.push(text),
                Action::Goto(_) => panic!("a chat task asks for no walk"),
            }
        }
        assert!(state.is_none());
        assert_eq!(slot_name(&state), "No task");
    }
    assert_eq!(finished, 1);
    assert_eq!(said, Vec::<String>::new());
}

#[test]
fn end_to_end_goto() {
    let mut state: Option<Task> = None;
    let mut queue = TaskQueue::new();
    let lines = handle_swarm(&Vec::new(), "!goto 3 64 -3", &mut queue);
    assert_eq!(lines, Vec::<String>::new());
    let at = |x, y, z| Event::Tick { position: BlockPos { x, y, z } };

    assert_eq!(handle(0, &at(0, 64, 0), &mut state, &mut queue), vec![say("Starting GotoBlock")]);
    assert_eq!(
        handle(50, &at(0, 64, 0), &mut state, &mut queue),
        vec![say("Going to (3, 64, -3)"), Action::Goto(Goal::Block(BlockPos { x: 3, y: 64, z: -3 }))]
    );
    assert_eq!(handle(100, &at(1, 64, -1), &mut state, &mut queue), Vec::<Action>::new());
    assert_eq!(handle(150, &at(2, 64, -2), &mut state, &mut queue), Vec::<Action>::new());
    assert_eq!(handle(200, &at(3, 64, -3), &mut state, &mut queue), Vec::<Action>::new());
    assert_eq!(slot_name(&state), "GotoBlock");
    assert_eq!(handle(250, &at(3, 64, -3), &mut state, &mut queue), vec![say("Finished GotoBlock")]);
    assert_eq!(slot_name(&state), "No task");
    assert_eq!(handle(300, &at(3, 64, -3), &mut state, &mut queue), Vec::<Action>::new());
}

#[test]
fn three_idle_bots_share_two_tasks() {
    let mut queue = TaskQueue::new();
    queue.push(goto(&["1", "1"]));
    queue.push(goto(&["2", "2"]));
    let mut bots: Vec<Option<Task>> = vec![None, None, None];
    for bot in bots.iter_mut() {
        handle(0, &Event::Other, bot, &mut queue);
    }
    let busy: Vec<&Task> = bots.iter().filter_map(|bot| bot.as_ref()).collect();
    assert_eq!(busy.len(), 2);
    assert_eq!(bots.iter().filter(|bot| bot.is_none()).count(), 1);
    assert_eq!(target(busy[0]), (1, None, 1));
    assert_eq!(target(busy[1]), (2, None, 2));
    assert!(bots[2].is_none());
    assert!(queue.is_empty());
}

#[test]
fn bot_takes_the_next_task_after_finishing() {
    let mut state: Option<Task> = None;
    let mut queue = TaskQueue::new();
    queue.push(chat(&[]));
    queue.push(chat(&["x"]));
    assert_eq!(handle(0, &Event::Other, &mut state, &mut queue), vec![say("Starting Chat")]);
    assert_eq!(handle(1, &Event::Other, &mut state, &mut queue), vec![say("Finished Chat")]);
    assert_eq!(handle(2, &Event::Other, &mut state, &mut queue), vec![say("Starting Chat")]);
    assert_eq!(handle(3, &Event::Other, &mut state, &mut queue), vec![say("x")]);
    assert_eq!(handle(4, &Event::Other, &mut state, &mut queue), vec![say("Finished Chat")]);
    assert_eq!(handle(5, &Event::Other, &mut state, &mut queue), Vec::<Action>::new());
}

#[test]
fn commands_fill_the_queue_in_order() {
    let mut queue = TaskQueue::new();
    let bots = vec![status("bot0", "No task")];
    assert_eq!(handle_swarm(&bots, "!chat hi bye", &mut queue), Vec::<String>::new());
    assert_eq!(handle_swarm(&bots, "!goto 1 2", &mut queue), Vec::<String>::new());
    assert_eq!(handle_swarm(&bots, "!goto 1", &mut queue), Vec::<String>::new());
    assert_eq!(handle_swarm(&bots, "good morning", &mut queue), Vec::<String>::new());
    assert_eq!(handle_swarm(&bots, "", &mut queue), Vec::<String>::new());
    assert_eq!(handle_swarm(&bots, "!goto 4 5 6", &mut queue), Vec::<String>::new());
    assert_eq!(queue.snapshot(), vec!["Chat", "GotoBlock", "GotoBlock"]);
    assert_eq!(messages(&queue.pop_front().unwrap()), 2);
    assert_eq!(target(&queue.pop_front().unwrap()), (1, None, 2));
    assert_eq!(target(&queue.pop_front().unwrap()), (4, Some(5), 6));
}

#[test]
fn status_reports_bots_and_queue() {
    let mut queue = TaskQueue::new();
    let mut busy: Option<Task> = None;
    queue.push(goto(&["1", "2"]));
    handle(0, &Event::Other, &mut busy, &mut queue);
    queue.push(chat(&["a"]));
    queue.push(goto(&["3", "4"]));
    let bots = vec![status("bot0", &slot_name(&busy)), status("bot1", &slot_name(&None))];
    let lines = handle_swarm(&bots, "!status", &mut queue);
    assert_eq!(
        lines,
        vec!["bot0 - GotoBlock", "bot1 - No task", "Unstarted: [BotTask(Chat), BotTask(GotoBlock)]"]
    );
    assert_eq!(queue.snapshot(), vec!["Chat", "GotoBlock"]);
    assert_eq!(slot_name(&busy), "GotoBlock");
}

#[test]
fn status_of_an_empty_swarm() {
    let mut queue = TaskQueue::new();
    assert_eq!(handle_swarm(&Vec::new(), "!status", &mut queue), vec!["Unstarted: []"]);
    queue.push(chat(&[]));
    assert_eq!(report(&Vec::new(), &queue), vec!["Unstarted: [BotTask(Chat)]"]);
    assert_eq!(
        report(&vec![status("a", "b"), status("", "")], &TaskQueue::new()),
        vec!["a - b", " - ", "Unstarted: []"]
    );
}
