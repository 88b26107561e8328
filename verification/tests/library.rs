use std::collections::VecDeque;
use std::time::Duration;

use rhythm_game::beatmap::{
    Beatmap, BeatmapMeta, HitObject, HitObjectType, Lane, copy_hit_objects, sort_by_time,
};
use rhythm_game::data::{GameConfig, KeyAction};
use rhythm_game::input::Key;
use rhythm_game::state::editor::{EditorTimeline, bpm_from_text, bpm_text_is_number};
use rhythm_game::state::main_menu::starter_beatmap;
use rhythm_game::state::playing::{
    Judgement, PlayInput, PlayingLogicData, PlayingStep, expire_judgements, hit_note,
    render_up_to, should_pop_note,
};
use rhythm_game::state::results::{ResultsEvent, ResultsLogicData, count_judgements};
use rhythm_game::state::song_select::{SongSelectEvent, SongSelectLogicData};
use rhythm_game::tween::{Tween, TweenEasing, TweenSample, TweenState};
use rhythm_game::update::{Screen, StateTransition, screen_after};
use rhythm_game::state::playing::{calculate_accuracy, press_time_ms};
use std::time::Instant;

fn note(time: u32, lane: Lane) -> HitObject {
    HitObject {
        time,
        lane,
        kind: HitObjectType::Chip,
    }
}

fn beatmap(title: &str, hit_objects: Vec<HitObject>) -> Beatmap {
    Beatmap {
        meta: BeatmapMeta {
            title: title.to_string(),
            artist: "artist".to_string(),
            mapper: "mapper".to_string(),
            level_bits: 2.5f32.to_bits(),
            level_name: "normal".to_string(),
        },
        bpm: 150,
        beats_per_bar: 4,
        audio_path: "song.ogg".to_string(),
        hit_objects,
    }
}

fn queue(objects: &[HitObject]) -> VecDeque<HitObject> {
    objects.iter().copied().collect()
}

fn press(key: Key, at_ms: u32) -> PlayInput {
    PlayInput::Pressed { key, at_ms }
}

// ---- beatmaps

#[test]
fn sort_by_time_orders_and_keeps_ties_in_place() {
    let objects = vec![
        note(300, Lane::Up),
        note(100, Lane::Down),
        note(300, Lane::Down),
        note(0, Lane::Up),
    ];
    let sorted = sort_by_time(&objects);
    assert_eq!(
        sorted,
        vec![
            note(0, Lane::Up),
            note(100, Lane::Down),
            note(300, Lane::Up),
            note(300, Lane::Down),
        ]
    );
    assert!(sort_by_time(&vec![]).is_empty());
}

#[test]
fn duplicate_copies_every_field() {
    let original = beatmap("copy me", vec![note(5, Lane::Up), note(9, Lane::Down)]);
    let copy = original.duplicate();
    assert_eq!(copy.meta.title, "copy me");
    assert_eq!(copy.meta.level_bits, 2.5f32.to_bits());
    assert_eq!(copy.bpm, 150);
    assert_eq!(copy.audio_path, "song.ogg");
    assert_eq!(copy.hit_objects, original.hit_objects);
    assert_eq!(copy_hit_objects(&original.hit_objects), original.hit_objects);
}

#[test]
fn default_beatmap_is_empty() {
    let empty = Beatmap::default();
    assert!(empty.hit_objects.is_empty());
    assert_eq!(empty.bpm, 0);
    assert_eq!(empty.meta.title, "");
    assert_eq!(f32::from_bits(empty.meta.level_bits), 0.0);
}

#[test]
fn starter_beatmap_alternates_lanes_every_half_second() {
    let starter = starter_beatmap();
    assert_eq!(starter.hit_objects.len(), 100);
    assert_eq!(starter.hit_objects[0], note(0, Lane::Up));
    assert_eq!(starter.hit_objects[1], note(500, Lane::Down));
    assert_eq!(starter.hit_objects[99], note(49500, Lane::Down));
    assert_eq!(starter.meta.title, "Exit This Earth's Atmosphere");
    assert_eq!(starter.meta.artist, "Camellia");
    assert_eq!(starter.meta.mapper, "teatowel");
    assert_eq!(starter.meta.level_name, "evil");
    assert_eq!(f32::from_bits(starter.meta.level_bits), 9.5);
    assert_eq!(starter.bpm, 200);
    assert_eq!(starter.beats_per_bar, 4);
    assert_eq!(starter.audio_path, "music.wav");
}

// ---- keys and settings

#[test]
fn macos_keycodes() {
    assert_eq!(Key::from_macos_keycode(0), Key::A);
    assert_eq!(Key::from_macos_keycode(7), Key::X);
    assert_eq!(Key::from_macos_keycode(35), Key::P);
    assert_eq!(Key::from_macos_keycode(42), Key::Backslash);
    assert_eq!(Key::from_macos_keycode(43), Key::Comma);
    assert_eq!(Key::from_macos_keycode(53), Key::Escape);
    assert_eq!(Key::from_macos_keycode(126), Key::Up);
    assert_eq!(Key::from_macos_keycode(10), Key::Unknown(10));
    assert_eq!(Key::from_macos_keycode(500), Key::Unknown(500));
}

#[test]
fn windows_keycodes() {
    assert_eq!(Key::from_windows_keycode(0x41), Key::A);
    assert_eq!(Key::from_windows_keycode(0x58), Key::X);
    assert_eq!(Key::from_windows_keycode(0xBC), Key::Comma);
    assert_eq!(Key::from_windows_keycode(0xBE), Key::Dot);
    assert_eq!(Key::from_windows_keycode(0x1B), Key::Escape);
    assert_eq!(Key::from_windows_keycode(0x7B), Key::F12);
    assert_eq!(Key::from_windows_keycode(0xDD), Key::RightBracket);
    assert_eq!(Key::from_windows_keycode(0x07), Key::Unknown(7));
}

#[test]
fn default_config_binds_two_keys_per_lane() {
    let config = GameConfig::default();
    assert_eq!(config.song_folder, "songs");
    assert_eq!(config.lane_speed, 20);
    assert_eq!(config.keybinds.len(), 5);
    assert_eq!(config.action_for(Key::X), Some(KeyAction::LaneUp));
    assert_eq!(config.action_for(Key::C), Some(KeyAction::LaneUpAlt));
    assert_eq!(config.action_for(Key::Comma), Some(KeyAction::LaneDown));
    assert_eq!(config.action_for(Key::Dot), Some(KeyAction::LaneDownAlt));
    assert_eq!(config.action_for(Key::Escape), Some(KeyAction::Exit));
    assert_eq!(config.action_for(Key::Z), None);
    assert_eq!(config.action_for(Key::Unknown(3)), None);
}

// ---- judging notes

#[test]
fn render_window_is_fifty_ms_per_unit_of_lane_speed() {
    assert_eq!(render_up_to(20, 1000), 2000);
    assert_eq!(render_up_to(0, 7), 7);
}

#[test]
fn hit_note_judges_by_distance_from_the_note() {
    let cases = [
        (1000, Some(Judgement::Perfect(0))),
        (1060, Some(Judgement::Perfect(-60))),
        (939, Some(Judgement::Great(61))),
        (1090, Some(Judgement::Great(-90))),
        (1120, Some(Judgement::Okay(-120))),
        (850, Some(Judgement::Bad(150))),
        (1150, Some(Judgement::Bad(-150))),
        (849, None),
        (1151, None),
    ];
    for (at_ms, expected) in cases {
        let mut lane = queue(&[note(1000, Lane::Up), note(2000, Lane::Up)]);
        let judgement = hit_note(&mut lane, at_ms);
        assert_eq!(judgement, expected, "press at {at_ms}");
        let left = if expected.is_some() { 1 } else { 2 };
        assert_eq!(lane.len(), left);
        assert_eq!(lane.back(), Some(&note(2000, Lane::Up)));
    }
    let mut empty = VecDeque::new();
    assert_eq!(hit_note(&mut empty, 0), None);
}

#[test]
fn notes_are_missed_once_they_leave_the_screen() {
    // at lane speed 20 a note leaves the screen 144.4 ms after its time
    let n = note(1000, Lane::Down);
    assert_eq!(should_pop_note(&n, 1144, 20), None);
    assert_eq!(should_pop_note(&n, 1145, 20), Some(Judgement::Miss(-200)));
    assert_eq!(should_pop_note(&n, 900, 20), None);
    // with no lane speed a note is missed as soon as its time has passed
    assert_eq!(should_pop_note(&n, 1000, 0), None);
    assert_eq!(should_pop_note(&n, 1001, 0), Some(Judgement::Miss(-200)));
}

#[test]
fn judgements_expire_after_their_display_time() {
    let mut shown: VecDeque<(Judgement, u32)> = [
        (Judgement::Perfect(0), 100),
        (Judgement::Great(10), 400),
        (Judgement::Miss(-200), 900),
    ]
    .into_iter()
    .collect();
    expire_judgements(&mut shown, 1000);
    assert_eq!(
        shown,
        [(Judgement::Great(10), 400), (Judgement::Miss(-200), 900)]
            .into_iter()
            .collect::<VecDeque<_>>()
    );
    expire_judgements(&mut shown, 1001);
    assert_eq!(shown.len(), 1);
    // judgements taken after the given time stay
    expire_judgements(&mut shown, 0);
    assert_eq!(shown.len(), 1);
}

#[test]
fn count_judgements_by_kind() {
    let judgements = vec![
        (Judgement::Perfect(0), 0),
        (Judgement::Perfect(3), 1),
        (Judgement::Great(20), 2),
        (Judgement::Okay(40), 3),
        (Judgement::Miss(-200), 4),
        (Judgement::Miss(-200), 5),
        (Judgement::Miss(-200), 6),
    ];
    let counts = count_judgements(&judgements);
    assert_eq!(
        (counts.perfect, counts.great, counts.okay, counts.bad, counts.miss),
        (2, 1, 1, 0, 3)
    );
}

// ---- playing a song

fn two_lane_song() -> PlayingLogicData {
    PlayingLogicData::from_beatmap(beatmap(
        "two lanes",
        vec![
            note(3000, Lane::Up),
            note(1000, Lane::Up),
            note(1000, Lane::Down),
            note(5000, Lane::Down),
        ],
    ))
}

#[test]
fn notes_wait_in_time_order() {
    let song = two_lane_song();
    let times: Vec<u32> = song.remaining_hit_objects.iter().map(|o| o.time).collect();
    assert_eq!(times, vec![1000, 1000, 3000, 5000]);
    assert_eq!(song.lane_speed, 20);
    assert_eq!(song.bpm, 150);
    assert_eq!(song.score, 0);
}

#[test]
fn notes_come_on_screen_in_their_lanes() {
    let mut song = two_lane_song();
    let config = GameConfig::default();
    // at time 0 notes up to 1000 ms are due
    let step = song.update(0, &vec![], &config);
    assert_eq!(
        step,
        PlayingStep::Continue {
            keys_down: (false, false)
        }
    );
    assert_eq!(song.active_hit_objects.up, queue(&[note(1000, Lane::Up)]));
    assert_eq!(song.active_hit_objects.down, queue(&[note(1000, Lane::Down)]));
    assert_eq!(song.remaining_hit_objects.len(), 2);
    // at time 2000 the note at 3000 comes on screen too
    song.update(2000, &vec![], &config);
    assert_eq!(song.remaining_hit_objects.len(), 1);
}

#[test]
fn a_hit_scores_and_is_shown() {
    let mut song = two_lane_song();
    let config = GameConfig::default();
    song.update(0, &vec![], &config);
    let step = song.update(1010, &vec![press(Key::X, 1020)], &config);
    assert_eq!(
        step,
        PlayingStep::Continue {
            keys_down: (true, false)
        }
    );
    assert_eq!(song.score, 250000);
    assert_eq!(song.judgements, vec![(Judgement::Perfect(-20), 1010)]);
    assert_eq!(
        song.active_judgements.up,
        [(Judgement::Perfect(-20), 1010)].into_iter().collect::<VecDeque<_>>()
    );
    assert!(song.active_hit_objects.up.is_empty());
    // the other lane's key hits the other lane
    song.update(1050, &vec![press(Key::Dot, 1100)], &config);
    assert_eq!(song.score, 250000 + (250000 / 4) * 2);
    assert_eq!(song.judgements[1], (Judgement::Okay(-100), 1050));
}

#[test]
fn releasing_a_key_clears_its_lane_flag_and_unbound_keys_do_nothing() {
    let mut song = two_lane_song();
    let config = GameConfig::default();
    let inputs = vec![
        press(Key::C, 0),
        PlayInput::Released { key: Key::C },
        press(Key::Q, 0),
        press(Key::Comma, 0),
    ];
    let step = song.update(0, &inputs, &config);
    assert_eq!(
        step,
        PlayingStep::Continue {
            keys_down: (false, true)
        }
    );
    // presses 1000 ms early judge nothing
    assert!(song.judgements.is_empty());
}

#[test]
fn escape_leaves_the_song_with_its_results() {
    let mut song = two_lane_song();
    let config = GameConfig::default();
    song.update(0, &vec![], &config);
    let step = song.update(
        1000,
        &vec![press(Key::X, 1000), press(Key::Escape, 1000), press(Key::Comma, 1000)],
        &config,
    );
    assert_eq!(step, PlayingStep::Quit);
    // the events after the escape were still taken
    assert_eq!(song.judgements.len(), 2);
    let results = song.results();
    assert_eq!(results.score, 500000);
    assert_eq!(results.judgements.len(), 2);
    assert_eq!(results.accuracy.ratio(), (8, 8));
    assert_eq!(results.beatmap.meta.title, "two lanes");
    assert_eq!(results.beatmap.hit_objects.len(), 4);
}

#[test]
fn missed_notes_are_judged_and_the_song_completes() {
    let mut song = two_lane_song();
    let config = GameConfig::default();
    song.update(0, &vec![], &config);
    let step = song.update(6000, &vec![], &config);
    assert_eq!(
        step,
        PlayingStep::Complete {
            keys_down: (false, false)
        }
    );
    assert_eq!(song.score, 0);
    assert_eq!(song.judgements.len(), 4);
    assert!(song
        .judgements
        .iter()
        .all(|j| *j == (Judgement::Miss(-200), 6000)));
    assert_eq!(song.active_judgements.up.len(), 2);
    assert_eq!(song.active_judgements.down.len(), 2);
    let results = song.results();
    assert_eq!(results.accuracy.ratio(), (0, 16));
}

#[test]
fn an_empty_song_completes_at_once() {
    let mut song = PlayingLogicData::from_beatmap(beatmap("empty", vec![]));
    let step = song.update(0, &vec![], &GameConfig::default());
    assert_eq!(
        step,
        PlayingStep::Complete {
            keys_down: (false, false)
        }
    );
}

// ---- results and song selection

#[test]
fn results_buttons() {
    let results = ResultsLogicData {
        score: 10,
        accuracy: rhythm_game::state::playing::calculate_accuracy(&[]),
        judgements: vec![(Judgement::Bad(100), 5)],
        beatmap: beatmap("again", vec![note(1, Lane::Up)]),
    };
    assert!(matches!(
        results.handle_event(ResultsEvent::MainMenu),
        StateTransition::MainMenu
    ));
    match results.handle_event(ResultsEvent::Retry) {
        StateTransition::StartBeatmap(b) => {
            assert_eq!(b.meta.title, "again");
            assert_eq!(b.hit_objects, vec![note(1, Lane::Up)]);
        }
        _ => panic!("retry should start the beatmap again"),
    }
    let counts = results.counts();
    assert_eq!(counts.bad, 1);
    assert_eq!(counts.perfect + counts.great + counts.okay + counts.miss, 0);
}

#[test]
fn song_select_starts_the_selected_song() {
    let mut select = SongSelectLogicData::new(vec![
        beatmap("first", vec![]),
        beatmap("second", vec![]),
        beatmap("third", vec![]),
    ]);
    assert_eq!(select.selected, None);
    // start with nothing selected does nothing
    assert!(select.handle_event(SongSelectEvent::Start).is_none());
    assert!(select.handle_event(SongSelectEvent::SelectSong(2)).is_none());
    assert!(select.handle_event(SongSelectEvent::SelectSong(1)).is_none());
    assert_eq!(select.selected, Some(1));
    match select.handle_event(SongSelectEvent::Start) {
        Some(StateTransition::StartBeatmap(b)) => assert_eq!(b.meta.title, "second"),
        _ => panic!("start should start the selected song"),
    }
    let titles: Vec<&str> = select.beatmaps.iter().map(|b| b.meta.title.as_str()).collect();
    assert_eq!(titles, vec!["first", "third"]);
    assert!(matches!(
        select.handle_event(SongSelectEvent::MainMenu),
        Some(StateTransition::MainMenu)
    ));
}

// ---- the editor

#[test]
fn editor_timeline_follows_the_playback_position() {
    let objects = vec![
        note(500, Lane::Up),
        note(1500, Lane::Down),
        note(2500, Lane::Up),
        note(9000, Lane::Down),
    ];
    let mut timeline = EditorTimeline::new();
    timeline.load(&objects);
    assert_eq!(timeline.future, queue(&objects));
    assert!(timeline.current.is_empty() && timeline.past.is_empty());

    // at 600 ms notes up to 1600 ms are on screen
    timeline.advance(600, 20);
    assert_eq!(timeline.current, queue(&[note(500, Lane::Up), note(1500, Lane::Down)]));
    assert_eq!(timeline.future.len(), 2);

    // at 2000 ms the notes at 500 and 1500 have gone by, most recent first
    timeline.advance(2000, 20);
    assert_eq!(timeline.past, queue(&[note(1500, Lane::Down), note(500, Lane::Up)]));
    assert_eq!(timeline.current, queue(&[note(2500, Lane::Up)]));
    assert_eq!(timeline.future, queue(&[note(9000, Lane::Down)]));

    // all notes are still there, in time order
    assert_eq!(timeline.collect_hit_objects(), objects);

    // loading again puts everything back in the future
    timeline.load(&vec![note(7, Lane::Up)]);
    assert_eq!(timeline.future, queue(&[note(7, Lane::Up)]));
    assert!(timeline.current.is_empty() && timeline.past.is_empty());
}

#[test]
fn editor_bpm_text() {
    assert_eq!(bpm_from_text("140"), 140);
    assert_eq!(bpm_from_text("+95"), 95);
    assert_eq!(bpm_from_text("4294967295"), u32::MAX);
    assert_eq!(bpm_from_text("4294967296"), 120);
    assert_eq!(bpm_from_text(""), 120);
    assert_eq!(bpm_from_text("-1"), 120);
    assert_eq!(bpm_from_text(" 90"), 120);
    assert_eq!(bpm_from_text("fast"), 120);
}

// ---- animations

#[test]
fn tween_runs_until_its_span_is_over() {
    let mut tween = Tween::new(0.0f32, 0.3f32, Duration::from_secs(1), TweenEasing::EaseOut)
        .expect("end time");
    assert_eq!(*tween.state(), TweenState::NotStarted);
    assert_eq!(tween.target(), 0.3);
    match tween.advance(250, 1000) {
        TweenSample::InProgress {
            from,
            to,
            elapsed_ms,
            span_ms,
            easing,
        } => {
            assert_eq!((from, to, elapsed_ms, span_ms), (0.0, 0.3, 250, 1000));
            assert_eq!(easing, TweenEasing::EaseOut);
        }
        TweenSample::Done(_) => panic!("a quarter of the way is not done"),
    }
    assert!(matches!(tween.advance(1000, 1000), TweenSample::InProgress { .. }));
    assert!(matches!(tween.advance(1001, 1000), TweenSample::Done(t) if t == 0.3));
    assert_eq!(*tween.state(), TweenState::Finished);
    // a finished animation reads its target from then on
    assert!(matches!(tween.get(), TweenSample::Done(t) if t == 0.3));
    assert_eq!(*tween.state(), TweenState::Finished);
}

#[test]
fn tween_starts_at_its_first_reading() {
    let mut tween = Tween::new(1u32, 5u32, Duration::from_secs(3600), TweenEasing::Linear)
        .expect("end time");
    match tween.get() {
        TweenSample::InProgress { from, to, span_ms, .. } => {
            assert_eq!((from, to), (1, 5));
            assert!(span_ms <= 3_600_000);
        }
        TweenSample::Done(_) => panic!("an hour-long animation is not done at once"),
    }
    assert_eq!(*tween.state(), TweenState::Playing);
}

#[test]
fn tween_with_no_length_finishes_at_once() {
    let mut tween = Tween::new(0.0f32, 1.0f32, Duration::ZERO, TweenEasing::Linear)
        .expect("end time");
    assert!(matches!(tween.get(), TweenSample::Done(t) if t == 1.0));
    assert_eq!(*tween.state(), TweenState::Finished);

    let mut other = Tween::new(2u8, 9u8, Duration::from_secs(5), TweenEasing::EaseIn)
        .expect("end time");
    assert!(matches!(other.advance(0, 0), TweenSample::Done(9)));
    assert_eq!(*other.state(), TweenState::Finished);
}

#[test]
fn editor_accepts_only_numbers_as_bpm() {
    assert!(bpm_text_is_number("180"));
    assert!(bpm_text_is_number("+7"));
    assert!(!bpm_text_is_number("1.5"));
    assert!(!bpm_text_is_number(""));
    assert!(!bpm_text_is_number("99999999999"));
}

#[test]
fn failed_screens_fall_back() {
    assert_eq!(screen_after(&StateTransition::Editor, false), Some(Screen::Editor));
    assert_eq!(screen_after(&StateTransition::Editor, true), Some(Screen::MainMenu));
    let start = StateTransition::StartBeatmap(beatmap("s", vec![]));
    assert_eq!(screen_after(&start, false), Some(Screen::Playing));
    assert_eq!(screen_after(&start, true), Some(Screen::SongSelect));
    assert_eq!(screen_after(&StateTransition::MainMenu, true), Some(Screen::MainMenu));
    assert_eq!(screen_after(&StateTransition::SongSelect, false), Some(Screen::SongSelect));
    assert_eq!(screen_after(&StateTransition::Quit, false), None);
}

#[test]
fn perfect_hits_on_every_note_reach_the_maximum() {
    let mut song = PlayingLogicData::from_beatmap(beatmap(
        "short",
        vec![note(1000, Lane::Up), note(2000, Lane::Down)],
    ));
    let config = GameConfig::default();
    song.update(0, &vec![], &config);
    song.update(1000, &vec![press(Key::X, 1000)], &config);
    let before = song.judgements.clone();
    song.update(2000, &vec![press(Key::Comma, 2010)], &config);
    // judgements only grow at the end
    assert_eq!(&song.judgements[..before.len()], &before[..]);
    assert_eq!(song.score, 1000000);
    // notes still to come all lie beyond the render window
    let mut song = two_lane_song();
    song.update(1500, &vec![], &config);
    assert!(song.remaining_hit_objects.iter().all(|o| o.time > 1500 + 20 * 50));
}

#[test]
fn accuracy_does_not_depend_on_order_or_errors() {
    let a = vec![
        (Judgement::Perfect(0), 0),
        (Judgement::Bad(120), 10),
        (Judgement::Great(-70), 20),
    ];
    let b = vec![
        (Judgement::Great(80), 5),
        (Judgement::Perfect(-3), 1),
        (Judgement::Bad(-140), 2),
    ];
    assert_eq!(calculate_accuracy(&a).ratio(), calculate_accuracy(&b).ratio());
}

#[test]
fn bound_keys_are_found_and_unbound_keys_are_not() {
    let config = GameConfig {
        song_folder: String::new(),
        lane_speed: 10,
        keybinds: vec![(Key::A, KeyAction::Exit), (Key::B, KeyAction::LaneDown)],
    };
    assert_eq!(config.action_for(Key::B), Some(KeyAction::LaneDown));
    assert_eq!(config.action_for(Key::A), Some(KeyAction::Exit));
    assert_eq!(config.action_for(Key::P), None);
}

#[test]
fn settings_with_a_key_bound_twice_are_told_apart() {
    assert!(GameConfig::default().has_unique_keys());
    let twice = GameConfig {
        song_folder: String::new(),
        lane_speed: 20,
        keybinds: vec![
            (Key::A, KeyAction::LaneUp),
            (Key::B, KeyAction::LaneDown),
            (Key::A, KeyAction::Exit),
        ],
    };
    assert!(!twice.has_unique_keys());
}

#[test]
fn press_times_count_from_the_start_of_the_song() {
    let start = Instant::now();
    let later = start + Duration::from_millis(250);
    assert_eq!(press_time_ms(later, start), 250);
    assert_eq!(press_time_ms(start, later), 0);
    assert_eq!(press_time_ms(start, start), 0);
}
