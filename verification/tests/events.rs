use wasm_core::api::event::{RESULT_ALLOW, RESULT_DEFAULT, RESULT_DENY};
use wasm_core::event::{after_answer, CommandNames, DispatchStep, EventNames};

fn names(list: &[&str]) -> Vec<String> {
    list.iter().map(|s| s.to_string()).collect()
}

#[test]
fn event_ids_count_from_one() {
    let table = EventNames::new(&names(&["player_join", "player_leave", "tick"]));
    assert_eq!(table.get_event_id("player_join"), 1);
    assert_eq!(table.get_event_id("player_leave"), 2);
    assert_eq!(table.get_event_id("tick"), 3);
    assert!(table.contains("tick"));
    assert!(!table.contains("place_block"));
}

#[test]
fn repeated_event_name_keeps_last_position() {
    let table = EventNames::new(&names(&["a", "b", "a"]));
    assert_eq!(table.get_event_id("a"), 3);
    assert_eq!(table.get_event_id("b"), 2);
}

#[test]
fn command_ids_count_from_zero() {
    let table = CommandNames::new(&names(&["sgui:open_menu", "sgui:close"]));
    assert_eq!(table.get_custom_command_id("sgui:open_menu"), 0);
    assert_eq!(table.get_custom_command_id("sgui:close"), 1);
    assert_eq!(table.get_custom_command_id("missing"), -1);
}

#[test]
fn empty_tables() {
    assert!(!EventNames::new(&Vec::new()).contains("tick"));
    assert_eq!(CommandNames::new(&Vec::new()).get_custom_command_id("x"), -1);
}

#[test]
fn non_default_answer_finishes() {
    assert!(matches!(after_answer(Some(RESULT_DENY)), DispatchStep::Finish(-1)));
    assert!(matches!(after_answer(Some(RESULT_ALLOW)), DispatchStep::Finish(1)));
    assert!(matches!(after_answer(Some(42)), DispatchStep::Finish(42)));
}

#[test]
fn default_answer_asks_next() {
    assert!(matches!(after_answer(Some(RESULT_DEFAULT)), DispatchStep::Next));
}

#[test]
fn failure_is_reported() {
    assert!(matches!(after_answer(None), DispatchStep::ReportAndNext));
}

#[test]
fn first_decisive_answer_wins() {
    let answers = [Some(0), None, Some(0), Some(-1), Some(1)];
    let mut result = RESULT_DEFAULT;
    for a in answers {
        match after_answer(a) {
            DispatchStep::Finish(r) => {
                result = r;
                break;
            }
            DispatchStep::Next | DispatchStep::ReportAndNext => {}
        }
    }
    assert_eq!(result, RESULT_DENY);
}
