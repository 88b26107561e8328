use vstd::prelude::*;

use crate::beatmap::Beatmap;
use crate::state::results::ResultsData;

verus! {

/// The moves from one screen of the game to another.
pub enum StateTransition {
    MainMenu,
    SongSelect,
    Editor,
    StartBeatmap(Beatmap),
    Results(ResultsData),
    Quit,
}

/// The screens of the game.
#[derive(Debug, Clone, Copy, PartialEq, Eq, Structural)]
pub enum Screen {
    MainMenu,
    SongSelect,
    Editor,
    Playing,
    Results,
}

/// The screen that a transition leads to, given whether setting up that
/// screen failed: a failed editor falls back to the main menu, a song that
/// fails to start falls back to the song selection; quitting leads to no
/// screen.
pub fn screen_after(transition: &StateTransition, init_failed: bool) -> (r: Option<Screen>)
    ensures
        r == match transition {
            StateTransition::MainMenu => Some(Screen::MainMenu),
            StateTransition::SongSelect => Some(Screen::SongSelect),
            StateTransition::Editor => Some(
                if init_failed {
                    Screen::MainMenu
                } else {
                    Screen::Editor
                },
            ),
            StateTransition::StartBeatmap(_) => Some(
                if init_failed {
                    Screen::SongSelect
                } else {
                    Screen::Playing
                },
            ),
            StateTransition::Results(_) => Some(Screen::Results),
            StateTransition::Quit => None,
        },
{
    match transition {
        StateTransition::MainMenu => Some(Screen::MainMenu),
        StateTransition::SongSelect => Some(Screen::SongSelect),
        StateTransition::Editor => Some(
            if init_failed {
                Screen::MainMenu
            } else {
                Screen::Editor
            },
        ),
        StateTransition::StartBeatmap(_) => Some(
            if init_failed {
                Screen::SongSelect
            } else {
                Screen::Playing
            },
        ),
        StateTransition::Results(_) => Some(Screen::Results),
        StateTransition::Quit => None,
    }
}

} // verus!
