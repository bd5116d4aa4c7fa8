use raycaster_engine::screens::{Action, Screen, UiEvent};

fn levels() -> Vec<String> {
    vec!["a.map".to_string(), "b.map".to_string(), "c.map".to_string()]
}

fn selected(screen: &Screen) -> usize {
    match screen {
        Screen::Title { selected, .. } => *selected,
        _ => panic!("not the menu"),
    }
}

#[test]
fn menu_starts_at_the_first_level() {
    match Screen::default(levels()) {
        Screen::Title { selected, levels: l } => {
            assert_eq!(selected, 0);
            assert_eq!(l, levels());
        }
        _ => panic!("not the menu"),
    }
    assert!(matches!(Screen::default(Vec::new()), Screen::Title { selected: 0, .. }));
}

#[test]
fn selection_moves_within_the_list() {
    let screen = Screen::default(levels());
    let (screen, action) = screen.on_event(UiEvent::Up);
    assert_eq!((selected(&screen), action), (0, Action::Stay));
    let (screen, action) = screen.on_event(UiEvent::Down);
    assert_eq!((selected(&screen), action), (1, Action::Stay));
    let (screen, _) = screen.on_event(UiEvent::Down);
    assert_eq!(selected(&screen), 2);
    let (screen, action) = screen.on_event(UiEvent::Down);
    assert_eq!((selected(&screen), action), (2, Action::Stay));
    let (screen, _) = screen.on_event(UiEvent::Up);
    assert_eq!(selected(&screen), 1);
    let (screen, action) = screen.on_event(UiEvent::Other);
    assert_eq!((selected(&screen), action), (1, Action::Stay));
    let (screen, action) = screen.on_event(UiEvent::GoalReached);
    assert_eq!((selected(&screen), action), (1, Action::Stay));
    match screen {
        Screen::Title { levels: l, .. } => assert_eq!(l, levels()),
        _ => panic!("not the menu"),
    }
}

#[test]
fn return_starts_the_selected_level() {
    let screen = Screen::default(levels());
    let (screen, _) = screen.on_event(UiEvent::Down);
    let (screen, action) = screen.on_event(UiEvent::Return);
    assert!(matches!(screen, Screen::Game));
    assert_eq!(action, Action::StartLevel("levels/b.map".to_string()));

    let (screen, action) = Screen::default(levels()).on_event(UiEvent::Return);
    assert!(matches!(screen, Screen::Game));
    assert_eq!(action, Action::StartLevel("levels/a.map".to_string()));
}

#[test]
fn menu_can_be_left() {
    for event in [UiEvent::Quit, UiEvent::Escape] {
        let (screen, action) = Screen::default(levels()).on_event(event);
        assert_eq!(selected(&screen), 0);
        assert_eq!(action, Action::Exit);
        let (_, action) = Screen::default(Vec::new()).on_event(event);
        assert_eq!(action, Action::Exit);
    }
    let (screen, action) = Screen::default(Vec::new()).on_event(UiEvent::Up);
    assert_eq!((selected(&screen), action), (0, Action::Stay));
}

#[test]
fn game_ends_at_the_goal_or_on_request() {
    let (screen, action) = Screen::Game.on_event(UiEvent::GoalReached);
    assert!(matches!(screen, Screen::Victory));
    assert_eq!(action, Action::Stay);
    for event in [UiEvent::Quit, UiEvent::Escape] {
        let (screen, action) = Screen::Game.on_event(event);
        assert!(matches!(screen, Screen::Game));
        assert_eq!(action, Action::Exit);
    }
    for event in [UiEvent::Up, UiEvent::Down, UiEvent::Return, UiEvent::Other] {
        let (screen, action) = Screen::Game.on_event(event);
        assert!(matches!(screen, Screen::Game));
        assert_eq!(action, Action::Stay);
    }
}

#[test]
fn victory_leads_back_to_the_menu_or_out() {
    let (screen, action) = Screen::Victory.on_event(UiEvent::Return);
    assert!(matches!(screen, Screen::Victory));
    assert_eq!(action, Action::OpenMenu);
    for event in [UiEvent::Quit, UiEvent::Escape] {
        let (_, action) = Screen::Victory.on_event(event);
        assert_eq!(action, Action::Exit);
    }
    for event in [UiEvent::Up, UiEvent::Down, UiEvent::GoalReached, UiEvent::Other] {
        let (screen, action) = Screen::Victory.on_event(event);
        assert!(matches!(screen, Screen::Victory));
        assert_eq!(action, Action::Stay);
    }
}
