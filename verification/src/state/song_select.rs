use vstd::prelude::*;

use crate::beatmap::Beatmap;
use crate::update::StateTransition;

verus! {

/// The state of the song selection screen.
pub struct SongSelectLogicData {
    pub beatmaps: Vec<Beatmap>,
    pub selected: Option<usize>,
}

/// The buttons of the song selection screen.
#[derive(Debug, Clone, Copy, PartialEq, Eq, Structural)]
pub enum SongSelectEvent {
    SelectSong(usize),
    Start,
    MainMenu,
}

impl SongSelectLogicData {
    /// The screen over the given beatmaps, with none selected.
    pub fn new(beatmaps: Vec<Beatmap>) -> (r: Self)
        ensures
            r.beatmaps@ == beatmaps@,
            r.selected is None,
    {
        SongSelectLogicData { beatmaps, selected: None }
    }

    /// One button press: selecting a song remembers it; Start, once a song
    /// is selected, takes that beatmap out of the list and starts it; Main
    /// Menu goes back to the main menu.
    pub fn handle_event(&mut self, event: SongSelectEvent) -> (r: Option<StateTransition>)
        requires
            event == SongSelectEvent::Start && old(self).selected is Some ==> old(self).selected->0
                < old(self).beatmaps@.len(),
        ensures
            match event {
                SongSelectEvent::SelectSong(i) => {
                    &&& r is None
                    &&& final(self).selected == Some(i)
                    &&& final(self).beatmaps@ == old(self).beatmaps@
                },
                SongSelectEvent::Start => match old(self).selected {
                    None => {
                        &&& r is None
                        &&& final(self).selected is None
                        &&& final(self).beatmaps@ == old(self).beatmaps@
                    },
                    Some(i) => {
                        &&& r matches Some(StateTransition::StartBeatmap(b))
                        &&& b == old(self).beatmaps@[i as int]
                        &&& final(self).beatmaps@ == old(self).beatmaps@.remove(i as int)
                        &&& final(self).selected == Some(i)
                    },
                },
                SongSelectEvent::MainMenu => {
                    &&& r matches Some(t)
                    &&& t is MainMenu
                    &&& final(self).selected == old(self).selected
                    &&& final(self).beatmaps@ == old(self).beatmaps@
                },
            },
    {
        match event {
            SongSelectEvent::SelectSong(index) => {
                self.selected = Some(index);
                None
            },
            SongSelectEvent::Start => {
                if let Some(index) = self.selected {
                    let beatmap = self.beatmaps.remove(index);
                    Some(StateTransition::StartBeatmap(beatmap))
                } else {
                    None
                }
            },
            SongSelectEvent::MainMenu => Some(StateTransition::MainMenu),
        }
    }
}

} // verus!
