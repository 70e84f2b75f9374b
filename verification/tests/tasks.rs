use swarm_tasks::chat_task::{Chat, DELAY};
use swarm_tasks::client::{Action, BlockPos, Event, Goal};
use swarm_tasks::goto_block::GotoBlock;
use swarm_tasks::task::{fmt, BotTask, Task};

fn strings(items: &[&str]) -> Vec<String> {
    items.iter().map(|s| s.to_string()).collect()
}

fn tick(x: i32, y: i32, z: i32) -> Event {
    Event::Tick { position: BlockPos { x, y, z } }
}

fn say(text: &str) -> Action {
    Action::Chat(text.to_string())
}

#[test]
fn chat_is_named_chat() {
    let task = Chat::init(strings(&["hi"]));
    assert_eq!(task.get_name(), "Chat");
    assert_eq!(fmt(&task), "BotTask(Chat)");
}

#[test]
fn chat_starts_with_nothing_sent() {
    let task = Chat::init(strings(&["hi", "bye"]));
    assert_eq!(task.sent(), 0);
    assert_eq!(task.len(), 2);
    assert_eq!(task.delay(), 1_000_000_000);
    assert_eq!(DELAY, 1_000_000_000);
    assert!(!task.end());
}

#[test]
fn chat_without_messages_is_done_at_once() {
    let mut task = Chat::init(Vec::new());
    assert!(task.end());
    assert_eq!(task.on_event(0, &Event::Other), Vec::<Action>::new());
    assert_eq!(task.on_event(5 * DELAY, &tick(0, 0, 0)), Vec::<Action>::new());
    assert!(task.end());
    assert_eq!(task.sent(), 0);
}

#[test]
fn chat_sends_first_message_at_once() {
    let mut task = Chat::init(strings(&["hi", "bye"]));
    assert_eq!(task.on_event(0, &Event::Other), vec![say("hi")]);
    assert_eq!(task.sent(), 1);
    assert!(!task.end());
}

#[test]
fn chat_waits_for_its_delay() {
    let mut task = Chat::init(strings(&["hi", "bye"]));
    assert_eq!(task.on_event(100, &Event::Other), vec![say("hi")]);
    assert_eq!(task.on_event(100, &Event::Other), Vec::<Action>::new());
    assert_eq!(task.on_event(600_000_000, &tick(1, 2, 3)), Vec::<Action>::new());
    assert_eq!(task.on_event(1_000_000_099, &Event::Other), Vec::<Action>::new());
    assert_eq!(task.sent(), 1);
    assert_eq!(task.on_event(1_000_000_100, &Event::Other), vec![say("bye")]);
    assert_eq!(task.sent(), 2);
    assert!(task.end());
}

#[test]
fn chat_measures_from_the_last_message() {
    let mut task = Chat::with_delay(strings(&["a", "b", "c"]), 10);
    assert_eq!(task.on_event(3, &Event::Other), vec![say("a")]);
    assert_eq!(task.on_event(25, &Event::Other), vec![say("b")]);
    assert_eq!(task.on_event(34, &Event::Other), Vec::<Action>::new());
    assert_eq!(task.on_event(35, &Event::Other), vec![say("c")]);
    assert!(task.end());
}

#[test]
fn chat_sends_nothing_when_the_clock_goes_back() {
    let mut task = Chat::with_delay(strings(&["a", "b"]), 10);
    assert_eq!(task.on_event(1000, &Event::Other), vec![say("a")]);
    assert_eq!(task.on_event(5, &Event::Other), Vec::<Action>::new());
    assert_eq!(task.on_event(1009, &Event::Other), Vec::<Action>::new());
    assert_eq!(task.on_event(1010, &Event::Other), vec![say("b")]);
}

#[test]
fn chat_without_delay_sends_one_message_per_event() {
    let mut task = Chat::with_delay(strings(&["a", "b", "c"]), 0);
    assert_eq!(task.on_event(7, &Event::Other), vec![say("a")]);
    assert_eq!(task.on_event(7, &Event::Other), vec![say("b")]);
    assert_eq!(task.on_event(7, &Event::Other), vec![say("c")]);
    assert_eq!(task.on_event(7, &Event::Other), Vec::<Action>::new());
}

#[test]
fn chat_done_stays_done() {
    let mut task = Chat::with_delay(strings(&["only"]), 5);
    assert_eq!(task.on_event(0, &Event::Other), vec![say("only")]);
    assert!(task.end());
    for now in [0u64, 5, 6, 1000, u64::MAX] {
        assert_eq!(task.on_event(now, &Event::Other), Vec::<Action>::new());
        assert!(task.end());
        assert_eq!(task.sent(), 1);
    }
}

#[test]
fn chat_is_throttled() {
    let delay: u64 = 1000;
    let mut task = Chat::with_delay(strings(&["1", "2", "3", "4", "5", "6", "7", "8"]), delay);
    assert_eq!(task.on_event(0, &Event::Other).len(), 1);
    let mut now: u64 = 0;
    let mut sent_after_first = 0;
    while now < 5500 {
        now += 50;
        let actions = task.on_event(now, &Event::Other);
        assert!(actions.len() <= 1);
        sent_after_first += actions.len() as u64;
        assert!(sent_after_first <= now / delay);
    }
    assert_eq!(sent_after_first, 5);
    assert_eq!(task.sent(), 6);
}

#[test]
fn chat_handles_the_largest_time() {
    let mut task = Chat::with_delay(strings(&["a", "b"]), u64::MAX);
    assert_eq!(task.on_event(0, &Event::Other), vec![say("a")]);
    assert_eq!(task.on_event(u64::MAX - 1, &Event::Other), Vec::<Action>::new());
    assert_eq!(task.on_event(u64::MAX, &Event::Other), vec![say("b")]);
}

#[test]
fn goto_parses_two_numbers_as_column() {
    let task = GotoBlock::parse(strings(&["10", "20"])).unwrap();
    assert_eq!((task.x(), task.y(), task.z()), (10, None, 20));
    assert!(!task.started());
    assert!(!task.end());
}

#[test]
fn goto_parses_three_numbers_as_block() {
    let task = GotoBlock::parse(strings(&["10", "5", "20"])).unwrap();
    assert_eq!((task.x(), task.y(), task.z()), (10, Some(5), 20));
    let task = GotoBlock::parse(strings(&["-1", "-64", "+3"])).unwrap();
    assert_eq!((task.x(), task.y(), task.z()), (-1, Some(-64), 3));
}

#[test]
fn goto_rejects_other_argument_counts() {
    assert!(GotoBlock::parse(Vec::new()).is_none());
    assert!(GotoBlock::parse(strings(&["10"])).is_none());
    assert!(GotoBlock::parse(strings(&["1", "2", "3", "4"])).is_none());
}

#[test]
fn goto_rejects_what_is_no_number() {
    assert!(GotoBlock::parse(strings(&["a", "b"])).is_none());
    assert!(GotoBlock::parse(strings(&["1", "b"])).is_none());
    assert!(GotoBlock::parse(strings(&["a", "2"])).is_none());
    assert!(GotoBlock::parse(strings(&["1", "2", "c"])).is_none());
    assert!(GotoBlock::parse(strings(&["1", "b", "3"])).is_none());
    assert!(GotoBlock::parse(strings(&["a", "2", "3"])).is_none());
    assert!(GotoBlock::parse(strings(&["1.5", "2"])).is_none());
    assert!(GotoBlock::parse(strings(&["2147483648", "2"])).is_none());
}

#[test]
fn goto_is_named_goto_block() {
    let task = GotoBlock::parse(strings(&["1", "2"])).unwrap();
    assert_eq!(task.get_name(), "GotoBlock");
    assert_eq!(fmt(&task), "BotTask(GotoBlock)");
}

#[test]
fn goto_block_announces_and_asks_once() {
    let mut task = GotoBlock::parse(strings(&["10", "5", "-20"])).unwrap();
    assert_eq!(
        task.on_event(0, &Event::Other),
        vec![say("Going to (10, 5, -20)"), Action::Goto(Goal::Block(BlockPos { x: 10, y: 5, z: -20 }))]
    );
    assert!(task.started());
    assert!(!task.end());
    assert_eq!(task.on_event(1, &Event::Other), Vec::<Action>::new());
    assert_eq!(task.on_event(2, &tick(0, 0, 0)), Vec::<Action>::new());
    assert!(!task.end());
}

#[test]
fn goto_column_announces_zero_for_the_height() {
    let mut task = GotoBlock::parse(strings(&["-7", "2147483647"])).unwrap();
    assert_eq!(
        task.on_event(0, &tick(-7, 0, 2147483647)),
        vec![say("Going to (-7, 0, 2147483647)"), Action::Goto(Goal::XZ { x: -7, z: 2147483647 })]
    );
    assert!(!task.end());
}

#[test]
fn goto_first_event_does_not_look_at_the_position() {
    let mut task = GotoBlock::parse(strings(&["1", "2", "3"])).unwrap();
    assert_eq!(task.on_event(0, &tick(1, 2, 3)).len(), 2);
    assert!(!task.end());
    assert_eq!(task.on_event(0, &tick(1, 2, 3)), Vec::<Action>::new());
    assert!(task.end());
}

#[test]
fn goto_block_finishes_on_the_exact_block() {
    let mut task = GotoBlock::parse(strings(&["1", "2", "3"])).unwrap();
    task.on_event(0, &Event::Other);
    for position in [(0, 2, 3), (1, 1, 3), (1, 3, 3), (1, 2, 4), (3, 2, 1)] {
        task.on_event(0, &tick(position.0, position.1, position.2));
        assert!(!task.end(), "at {:?}", position);
    }
    task.on_event(0, &Event::Other);
    assert!(!task.end());
    task.on_event(0, &tick(1, 2, 3));
    assert!(task.end());
}

#[test]
fn goto_column_finishes_at_any_height() {
    let mut task = GotoBlock::parse(strings(&["1", "3"])).unwrap();
    task.on_event(0, &Event::Other);
    task.on_event(0, &tick(1, 70, 4));
    assert!(!task.end());
    task.on_event(0, &tick(2, 70, 3));
    assert!(!task.end());
    task.on_event(0, &tick(1, -64, 3));
    assert!(task.end());
}

#[test]
fn goto_done_stays_done() {
    let mut task = GotoBlock::parse(strings(&["1", "3"])).unwrap();
    task.on_event(0, &Event::Other);
    task.on_event(0, &tick(1, 0, 3));
    assert!(task.end());
    assert_eq!(task.on_event(0, &tick(9, 9, 9)), Vec::<Action>::new());
    assert!(task.end());
    assert_eq!(task.on_event(0, &Event::Other), Vec::<Action>::new());
    assert!(task.end());
}

#[test]
fn goto_that_never_arrives_is_never_done() {
    let mut task = GotoBlock::parse(strings(&["1", "3"])).unwrap();
    for now in 0..1000u64 {
        task.on_event(now * 50, &tick(0, 0, 0));
        assert!(!task.end());
    }
}

#[test]
fn task_passes_on_to_its_variant() {
    let mut chat = Task::Chat(Chat::init(strings(&["hi"])));
    assert_eq!(chat.get_name(), "Chat");
    assert!(!chat.end());
    assert_eq!(chat.on_event(0, &Event::Other), vec![say("hi")]);
    assert!(chat.end());
    assert_eq!(fmt(&chat), "BotTask(Chat)");

    let mut goto = Task::GotoBlock(GotoBlock::parse(strings(&["0", "0"])).unwrap());
    assert_eq!(goto.get_name(), "GotoBlock");
    assert_eq!(goto.on_event(0, &Event::Other).len(), 2);
    assert!(!goto.end());
    goto.on_event(0, &tick(0, 5, 0));
    assert!(goto.end());
    assert_eq!(fmt(&goto), "BotTask(GotoBlock)");
}
