//! The screens of the game and the transitions between them.
//!
//! The caller draws the current screen, polls its input devices and hands
//! each event to `Screen::on_event`, which answers with the next screen and
//! with what the caller has to do.

use vstd::prelude::*;
use vstd::string::*;

verus! {

/// What is on display.
pub enum Screen {
    /// The level menu, with the index of the highlighted level.
    Title { selected: usize, levels: Vec<String> },
    /// A level is being played.
    Game,
    /// The goal of the level was reached.
    Victory,
}

/// What the player or the game did.
#[derive(Debug, Clone, Copy, PartialEq, Eq)]
pub enum UiEvent {
    /// The window was closed.
    Quit,
    Escape,
    Up,
    Down,
    Return,
    /// The player stands on the goal cell.
    GoalReached,
    /// Anything else.
    Other,
}

/// What the caller has to do after an event.
#[derive(Debug, Clone, PartialEq, Eq)]
pub enum Action {
    /// Nothing.
    Stay,
    /// Leave the program.
    Exit,
    /// Load the level stored under this path and play it.
    StartLevel(String),
    /// List the levels anew and show the menu.
    OpenMenu,
}

/// Directory of the level files, with its separator.
pub open spec fn level_dir() -> Seq<char> {
    "levels/"@
}

/// The highlighted entry after `event`, in a menu of `count` entries.
pub open spec fn moved_selection(selected: int, count: int, event: UiEvent) -> int {
    if event == UiEvent::Up && selected > 0 {
        selected - 1
    } else if event == UiEvent::Down && selected < count - 1 {
        selected + 1
    } else {
        selected
    }
}

impl Screen {
    /// The menu can take `event`: moving down needs a level, and starting
    /// needs a highlighted level.
    pub open spec fn accepts(self, event: UiEvent) -> bool {
        self matches Screen::Title { selected, levels } ==> {
            &&& event == UiEvent::Down ==> levels.len() > 0
            &&& event == UiEvent::Return ==> selected < levels.len()
        }
    }

    /// Whether the screen can take `event`.
    pub fn can_handle(&self, event: UiEvent) -> (ok: bool)
        ensures
            ok == self.accepts(event),
    {
        match self {
            Screen::Title { selected, levels } => match event {
                UiEvent::Down => levels.len() > 0,
                UiEvent::Return => *selected < levels.len(),
                _ => true,
            },
            _ => true,
        }
    }

    /// The level menu with its first entry highlighted.
    pub fn default(levels: Vec<String>) -> (screen: Screen)
        ensures
            screen == (Screen::Title { selected: 0, levels }),
    {
        Screen::Title { selected: 0, levels }
    }

    /// The screen after `event`, and what the caller has to do.
    pub fn on_event(self, event: UiEvent) -> (next: (Screen, Action))
        requires
            self.accepts(event),
        ensures
            match self {
                Screen::Title { selected, levels } => match event {
                    UiEvent::Quit | UiEvent::Escape => next.0 == self && next.1 == Action::Exit,
                    UiEvent::Return => next.0 == Screen::Game && (next.1 matches Action::StartLevel(
                        path,
                    ) && path@ == level_dir() + levels[selected as int]@),
                    _ => next.0 == (Screen::Title {
                        selected: moved_selection(
                            selected as int,
                            levels.len() as int,
                            event,
                        ) as usize,
                        levels,
                    }) && next.1 == Action::Stay,
                },
                Screen::Game => match event {
                    UiEvent::Quit | UiEvent::Escape => next.0 == Screen::Game && next.1
                        == Action::Exit,
                    UiEvent::GoalReached => next.0 == Screen::Victory && next.1 == Action::Stay,
                    _ => next.0 == Screen::Game && next.1 == Action::Stay,
                },
                Screen::Victory => match event {
                    UiEvent::Quit | UiEvent::Escape => next.0 == Screen::Victory && next.1
                        == Action::Exit,
                    UiEvent::Return => next.0 == Screen::Victory && next.1 == Action::OpenMenu,
                    _ => next.0 == Screen::Victory && next.1 == Action::Stay,
                },
            },
    {
        match self {
            Screen::Title { selected, levels } => match event {
                UiEvent::Quit | UiEvent::Escape => (Screen::Title { selected, levels }, Action::Exit),
                UiEvent::Up => {
                    let at: usize = if selected > 0 {
                        selected - 1
                    } else {
                        selected
                    };
                    (Screen::Title { selected: at, levels }, Action::Stay)
                },
                UiEvent::Down => {
                    let at: usize = if selected < levels.len() - 1 {
                        selected + 1
                    } else {
                        selected
                    };
                    (Screen::Title { selected: at, levels }, Action::Stay)
                },
                UiEvent::Return => {
                    let mut path = String::from_str("levels/");
                    path.append(levels[selected].as_str());
                    (Screen::Game, Action::StartLevel(path))
                },
                _ => (Screen::Title { selected, levels }, Action::Stay),
            },
            Screen::Game => match event {
                UiEvent::Quit | UiEvent::Escape => (Screen::Game, Action::Exit),
                UiEvent::GoalReached => (Screen::Victory, Action::Stay),
                _ => (Screen::Game, Action::Stay),
            },
            Screen::Victory => match event {
                UiEvent::Quit | UiEvent::Escape => (Screen::Victory, Action::Exit),
                UiEvent::Return => (Screen::Victory, Action::OpenMenu),
                _ => (Screen::Victory, Action::Stay),
            },
        }
    }
}

} // verus!
