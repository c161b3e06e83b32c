use email_picker::selector::{event_for_key, Event, Key, Outcome, SelectorState};

fn three() -> Vec<String> {
    vec!["a@x.com".to_string(), "b@x.com".to_string(), "c@x.com".to_string()]
}

fn at_cursor(items: Vec<String>, cursor: usize) -> SelectorState {
    let mut state = SelectorState::new(items);
    for _ in 0..cursor {
        assert_eq!(state.apply(Event::MoveDown), None);
    }
    assert_eq!(state.cursor(), cursor);
    state
}

#[test]
fn new_starts_on_the_first_item() {
    let state = SelectorState::new(three());
    assert_eq!(state.cursor(), 0);
    assert_eq!(state.items(), &three());
    assert_eq!(state.current(), "a@x.com");
}

#[test]
fn try_new_refuses_an_empty_list() {
    assert!(SelectorState::try_new(Vec::new()).is_none());
}

#[test]
fn try_new_accepts_a_single_item() {
    let state = SelectorState::try_new(vec!["only@x.com".to_string()]).unwrap();
    assert_eq!(state.cursor(), 0);
    assert_eq!(state.items().len(), 1);
}

#[test]
fn keys_stand_for_their_events() {
    assert_eq!(event_for_key(Key::Down), Event::MoveDown);
    assert_eq!(event_for_key(Key::Up), Event::MoveUp);
    assert_eq!(event_for_key(Key::Enter), Event::Confirm);
    assert_eq!(event_for_key(Key::Char('q')), Event::Cancel);
}

#[test]
fn other_keys_are_ignored() {
    assert_eq!(event_for_key(Key::Char('Q')), Event::Ignored);
    assert_eq!(event_for_key(Key::Char('x')), Event::Ignored);
    assert_eq!(event_for_key(Key::Char('\n')), Event::Ignored);
    assert_eq!(event_for_key(Key::Other), Event::Ignored);
}

#[test]
fn move_down_steps_to_the_next_item() {
    let mut state = SelectorState::new(three());
    assert_eq!(state.apply(Event::MoveDown), None);
    assert_eq!(state.cursor(), 1);
    assert_eq!(state.apply(Event::MoveDown), None);
    assert_eq!(state.cursor(), 2);
}

#[test]
fn move_up_steps_to_the_previous_item() {
    let mut state = at_cursor(three(), 2);
    assert_eq!(state.apply(Event::MoveUp), None);
    assert_eq!(state.cursor(), 1);
    assert_eq!(state.apply(Event::MoveUp), None);
    assert_eq!(state.cursor(), 0);
}

#[test]
fn move_down_wraps_from_last_to_first() {
    let mut state = at_cursor(three(), 2);
    assert_eq!(state.apply(Event::MoveDown), None);
    assert_eq!(state.cursor(), 0);
}

#[test]
fn move_up_wraps_from_first_to_last() {
    let mut state = SelectorState::new(three());
    assert_eq!(state.apply(Event::MoveUp), None);
    assert_eq!(state.cursor(), 2);
}

#[test]
fn down_then_up_returns_to_every_cursor() {
    for cursor in 0..3 {
        let mut state = at_cursor(three(), cursor);
        state.apply(Event::MoveDown);
        state.apply(Event::MoveUp);
        assert_eq!(state.cursor(), cursor);
        assert_eq!(state.items(), &three());
    }
}

#[test]
fn up_then_down_returns_to_every_cursor() {
    for cursor in 0..3 {
        let mut state = at_cursor(three(), cursor);
        state.apply(Event::MoveUp);
        state.apply(Event::MoveDown);
        assert_eq!(state.cursor(), cursor);
        assert_eq!(state.items(), &three());
    }
}

#[test]
fn a_single_item_keeps_the_cursor() {
    let mut state = SelectorState::new(vec!["only@x.com".to_string()]);
    assert_eq!(state.apply(Event::MoveDown), None);
    assert_eq!(state.cursor(), 0);
    assert_eq!(state.apply(Event::MoveUp), None);
    assert_eq!(state.cursor(), 0);
    assert_eq!(
        state.apply(Event::Confirm),
        Some(Outcome::Confirmed("only@x.com".to_string()))
    );
}

#[test]
fn confirm_yields_the_item_under_the_cursor() {
    for cursor in 0..3 {
        let mut state = at_cursor(three(), cursor);
        assert_eq!(
            state.apply(Event::Confirm),
            Some(Outcome::Confirmed(three()[cursor].clone()))
        );
        assert_eq!(state.cursor(), cursor);
    }
}

#[test]
fn cancel_yields_cancelled_from_every_cursor() {
    for cursor in 0..3 {
        let mut state = at_cursor(three(), cursor);
        assert_eq!(state.apply(Event::Cancel), Some(Outcome::Cancelled));
        assert_eq!(state.cursor(), cursor);
    }
}

#[test]
fn cancel_after_moves_yields_cancelled() {
    let mut state = SelectorState::new(three());
    let events = vec![Event::MoveUp, Event::MoveUp, Event::Ignored, Event::MoveDown, Event::Cancel];
    assert_eq!(state.run(&events), Some(Outcome::Cancelled));
}

#[test]
fn an_ignored_event_changes_nothing() {
    for cursor in 0..3 {
        let mut state = at_cursor(three(), cursor);
        assert_eq!(state.apply(Event::Ignored), None);
        assert_eq!(state.cursor(), cursor);
        assert_eq!(state.items(), &three());
    }
}

#[test]
fn an_ignored_key_changes_nothing() {
    let mut state = at_cursor(three(), 1);
    assert_eq!(state.apply(event_for_key(Key::Char('j'))), None);
    assert_eq!(state.cursor(), 1);
}

#[test]
fn only_the_row_under_the_cursor_is_highlighted() {
    let state = at_cursor(three(), 1);
    assert!(!state.is_highlighted(0));
    assert!(state.is_highlighted(1));
    assert!(!state.is_highlighted(2));
    assert!(!state.is_highlighted(3));
}

#[test]
fn scenario_down_down_confirm() {
    let mut state = SelectorState::new(three());
    let events = vec![Event::MoveDown, Event::MoveDown, Event::Confirm];
    assert_eq!(state.run(&events), Some(Outcome::Confirmed("c@x.com".to_string())));
}

#[test]
fn scenario_up_confirm() {
    let mut state = SelectorState::new(three());
    let events = vec![Event::MoveUp, Event::Confirm];
    assert_eq!(state.run(&events), Some(Outcome::Confirmed("c@x.com".to_string())));
    assert_eq!(state.cursor(), 2);
}

#[test]
fn scenario_cancel_from_every_cursor() {
    for cursor in 0..3 {
        let mut state = at_cursor(three(), cursor);
        assert_eq!(state.run(&vec![Event::Cancel]), Some(Outcome::Cancelled));
    }
}

#[test]
fn run_without_a_closing_event_has_no_outcome() {
    let mut state = SelectorState::new(three());
    assert_eq!(state.run(&vec![Event::MoveDown, Event::Ignored]), None);
    assert_eq!(state.cursor(), 1);
    assert_eq!(state.run(&Vec::new()), None);
    assert_eq!(state.cursor(), 1);
}

#[test]
fn run_stops_at_the_first_closing_event() {
    let mut state = SelectorState::new(three());
    let events = vec![Event::MoveDown, Event::Confirm, Event::MoveDown, Event::Cancel];
    assert_eq!(state.run(&events), Some(Outcome::Confirmed("b@x.com".to_string())));
    assert_eq!(state.cursor(), 1);
}

#[test]
fn a_cloned_outcome_equals_its_source() {
    let confirmed = Outcome::Confirmed("a@x.com".to_string());
    assert_eq!(confirmed.clone(), confirmed);
    assert_eq!(Outcome::Cancelled.clone(), Outcome::Cancelled);
    assert_ne!(confirmed, Outcome::Cancelled);
}
