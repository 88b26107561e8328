use vstd::prelude::*;

use std::collections::VecDeque;

use crate::beatmap::{Beatmap, HitObject, Lane, at_time, same_beatmap, sorted_by_time, sort_by_time};
use crate::data::{GameConfig, KeyAction, bound_action, keys_unique};
use crate::input::Key;
use crate::state::results::ResultsData;
use crate::tween::{duration_as_millis, duration_from, instant_duration_since, whole_millis};

use std::time::Instant;

verus! {

/// How long in ms judgements should show on the screen.
pub const JUDGEMENT_DISPLAY_TIME: u32 = 600;

/// The input timings for each judgement window, in ms either side of a note.
pub const PERFECT: u32 = 60;

pub const GREAT: u32 = 90;

pub const OK: u32 = 120;

pub const BAD: u32 = 150;

pub const MISS: u32 = 200;

/// The score of a song played with a Perfect on every note.
pub const MAX_SCORE: u32 = 1000000;

/// A note judgement. The number is the signed error in ms: positive
/// when the note was hit early, negative when late.
#[derive(Debug, Clone, Copy, PartialEq, Eq, Structural)]
pub enum Judgement {
    Perfect(i32),
    Great(i32),
    Okay(i32),
    Bad(i32),
    Miss(i32),
}

pub open spec fn abs(d: int) -> int {
    if d < 0 {
        -d
    } else {
        d
    }
}

/// The judgement of a hit `difference` ms away from its note, if the hit is
/// close enough to count.
pub open spec fn judge(difference: int) -> Option<Judgement> {
    let d = abs(difference);
    if d <= PERFECT {
        Some(Judgement::Perfect(difference as i32))
    } else if d <= GREAT {
        Some(Judgement::Great(difference as i32))
    } else if d <= OK {
        Some(Judgement::Okay(difference as i32))
    } else if d <= BAD {
        Some(Judgement::Bad(difference as i32))
    } else {
        None
    }
}

/// The judgement that a press at `at_ms` gets from the first note of `lane`.
pub open spec fn judge_front(lane: Seq<HitObject>, at_ms: u32) -> Option<Judgement> {
    if lane.len() == 0 {
        None
    } else {
        judge(lane[0].time - at_ms)
    }
}

/// The most that one note can add to the score of a song of `n` notes.
pub open spec fn per_note(n: int) -> int {
    1000000int / n
}

/// What a judgement adds to the score of a song of `n` notes.
pub open spec fn points(j: Judgement, n: int) -> int {
    let m = per_note(n);
    match j {
        Judgement::Perfect(_) => m,
        Judgement::Great(_) => (m / 4) * 3,
        Judgement::Okay(_) => (m / 4) * 2,
        Judgement::Bad(_) => m / 4,
        Judgement::Miss(_) => 0,
    }
}

/// A judgement's share of a full note, in quarters.
pub open spec fn quarters(j: Judgement) -> int {
    match j {
        Judgement::Perfect(_) => 4,
        Judgement::Great(_) => 3,
        Judgement::Okay(_) => 2,
        Judgement::Bad(_) => 1,
        Judgement::Miss(_) => 0,
    }
}

/// The quarters earned by all of `s`.
pub open spec fn total_quarters(s: Seq<(Judgement, u32)>) -> int
    decreases s.len(),
{
    if s.len() == 0 {
        0
    } else {
        total_quarters(s.drop_last()) + quarters(s.last().0)
    }
}

/// How many judgements of `s` are of the kind that `kind` picks out.
pub open spec fn count_of(s: Seq<(Judgement, u32)>, kind: spec_fn(Judgement) -> bool) -> nat
    decreases s.len(),
{
    if s.len() == 0 {
        0
    } else {
        count_of(s.drop_last(), kind) + if kind(s.last().0) {
            1nat
        } else {
            0nat
        }
    }
}

/// How many judgements of `s` are Perfect.
pub open spec fn perfects(s: Seq<(Judgement, u32)>) -> nat {
    count_of(s, |j: Judgement| j is Perfect)
}

/// How many judgements of `s` are Great.
pub open spec fn greats(s: Seq<(Judgement, u32)>) -> nat {
    count_of(s, |j: Judgement| j is Great)
}

/// How many judgements of `s` are Okay.
pub open spec fn okays(s: Seq<(Judgement, u32)>) -> nat {
    count_of(s, |j: Judgement| j is Okay)
}

/// How many judgements of `s` are Bad.
pub open spec fn bads(s: Seq<(Judgement, u32)>) -> nat {
    count_of(s, |j: Judgement| j is Bad)
}

/// How many judgements of `s` are Miss.
pub open spec fn miss_count(s: Seq<(Judgement, u32)>) -> nat {
    count_of(s, |j: Judgement| j is Miss)
}

/// The accuracy weights: a Perfect earns four quarters of a note, a Great
/// three, an Okay two, a Bad one and a Miss none; so the quarters earned by
/// a list of judgements are fixed by how many of each kind it holds, and
/// every judgement is of exactly one kind.
pub proof fn lemma_accuracy_weights(s: Seq<(Judgement, u32)>)
    ensures
        total_quarters(s) == 4 * perfects(s) + 3 * greats(s) + 2 * okays(s) + bads(s),
        perfects(s) + greats(s) + okays(s) + bads(s) + miss_count(s) == s.len(),
    decreases s.len(),
{
    if s.len() > 0 {
        lemma_accuracy_weights(s.drop_last());
    }
}

/// The weights of the kinds strictly decrease from Perfect down to Miss.
/// A Perfect adds a whole note's points to the score, any other judgement
/// its weight in quarters of the note, each quarter rounded down; where a
/// note is worth a whole number of quarters, what a judgement adds is its
/// exact share of the note.
pub proof fn lemma_weights_order(j: Judgement, n: int)
    ensures
        quarters(j) == 4 <==> j is Perfect,
        quarters(j) == 3 <==> j is Great,
        quarters(j) == 2 <==> j is Okay,
        quarters(j) == 1 <==> j is Bad,
        quarters(j) == 0 <==> j is Miss,
        n > 0 && per_note(n) % 4 == 0 ==> 4 * points(j, n) == quarters(j) * per_note(n),
        !(j is Perfect) ==> points(j, n) == quarters(j) * (per_note(n) / 4),
        j is Perfect ==> points(j, n) == per_note(n),
{
    if n > 0 && per_note(n) % 4 == 0 {
        let m = per_note(n);
        assert(4 * (m / 4) == m) by (nonlinear_arith)
            requires
                m % 4 == 0,
        ;
        assert(4 * ((m / 4) * 3) == 3 * m) by (nonlinear_arith)
            requires
                4 * (m / 4) == m,
        ;
        assert(4 * ((m / 4) * 2) == 2 * m) by (nonlinear_arith)
            requires
                4 * (m / 4) == m,
        ;
    }
}

/// A note that lies so far behind `time` that it has left the screen:
/// drawn at lane speed `lane_speed`, its position is past the left edge of
/// the play field by more than the width of a note (`9 * lateness > 65 *
/// lane_speed` is that condition stated on whole numbers).
pub open spec fn missed(note: HitObject, time: u32, lane_speed: u32) -> bool {
    9 * (time - note.time) > 65 * lane_speed
}

/// The upper bound on the score once `judged` of `n` notes are judged.
pub open spec fn score_cap(judged: int, n: int) -> int {
    if n == 0 {
        0
    } else {
        judged * per_note(n)
    }
}

pub proof fn lemma_score_cap(a: int, b: int, n: int)
    requires
        0 <= a <= b <= n,
    ensures
        score_cap(a, n) <= score_cap(b, n),
        score_cap(b, n) <= MAX_SCORE,
        n > 0 ==> score_cap(a + 1, n) == score_cap(a, n) + per_note(n),
        score_cap(a, n) >= 0,
{
    if n > 0 {
        let p = per_note(n);
        assert(p >= 0) by (nonlinear_arith)
            requires
                n > 0,
                p == 1000000int / n,
        ;
        assert(a * p <= b * p) by (nonlinear_arith)
            requires
                0 <= a <= b,
                p >= 0,
        ;
        assert(b * p <= n * p) by (nonlinear_arith)
            requires
                0 <= b <= n,
                p >= 0,
        ;
        assert(n * p <= 1000000) by (nonlinear_arith)
            requires
                n > 0,
                p == 1000000int / n,
        ;
        assert((a + 1) * p == a * p + p) by (nonlinear_arith);
        assert(a * p >= 0) by (nonlinear_arith)
            requires
                a >= 0,
                p >= 0,
        ;
    }
}

pub proof fn lemma_points_at_most_per_note(j: Judgement, n: int)
    requires
        n > 0,
    ensures
        0 <= points(j, n) <= per_note(n),
{
    let m = per_note(n);
    assert(m >= 0) by (nonlinear_arith)
        requires
            n > 0,
            m == 1000000int / n,
    ;
}

/// The point in the song, in ms, up to which notes are shown.
pub fn render_up_to(lane_speed: u32, time: u32) -> (r: u32)
    requires
        time + lane_speed * 50 <= u32::MAX,
    ensures
        r == time + lane_speed * 50,
{
    time + lane_speed * 50
}

/// Returns a Miss if the given note should be removed from the active notes
/// queue because it has passed the hit position.
pub fn should_pop_note(note: &HitObject, time: u32, lane_speed: u32) -> (r: Option<Judgement>)
    requires
        time + lane_speed * 50 <= u32::MAX,
    ensures
        missed(*note, time, lane_speed) ==> r == Some(Judgement::Miss(-200i32)),
        !missed(*note, time, lane_speed) ==> r is None,
{
    let late: bool = if time > note.time {
        ((time - note.time) as u64) * 9 > (lane_speed as u64) * 65
    } else {
        false
    };
    if late {
        Some(Judgement::Miss(-200))
    } else {
        None
    }
}

/// Checks if the first note of a lane has been hit by a press at `at_ms`
/// (ms since the start of the song), and if it has, pops it and returns the
/// judgement.
pub fn hit_note(lane_queue: &mut VecDeque<HitObject>, at_ms: u32) -> (r: Option<Judgement>)
    ensures
        r == judge_front(old(lane_queue)@, at_ms),
        r is Some ==> final(lane_queue)@ == old(lane_queue)@.drop_first(),
        r is None ==> final(lane_queue)@ == old(lane_queue)@,
{
    if lane_queue.len() == 0 {
        return None;
    }
    let next = lane_queue[0];
    // positive means early, negative means late
    let difference: i64 = next.time as i64 - at_ms as i64;
    let magnitude: i64 = if difference < 0 {
        -difference
    } else {
        difference
    };
    let judgement = if magnitude <= PERFECT as i64 {
        Judgement::Perfect(difference as i32)
    } else if magnitude <= GREAT as i64 {
        Judgement::Great(difference as i32)
    } else if magnitude <= OK as i64 {
        Judgement::Okay(difference as i32)
    } else if magnitude <= BAD as i64 {
        Judgement::Bad(difference as i32)
    } else {
        return None;
    };
    let _ = lane_queue.pop_front();
    Some(judgement)
}

/// Adds to a score what a judgement earns in the given beatmap: a Perfect
/// earns `1000000 / n` for a song of `n` notes, a Great three quarters of
/// that, an Okay half, a Bad a quarter (each quarter rounded down), a Miss
/// nothing.
pub fn add_score(beatmap: &Beatmap, judgement: &Judgement, score: &mut u32)
    requires
        0 < beatmap.hit_objects@.len() <= u32::MAX,
        *old(score) + points(*judgement, beatmap.hit_objects@.len() as int) <= u32::MAX,
    ensures
        *final(score) == *old(score) + points(*judgement, beatmap.hit_objects@.len() as int),
{
    let max_score_per_note = MAX_SCORE / (beatmap.hit_objects.len() as u32);
    let gained = match judgement {
        Judgement::Perfect(_) => max_score_per_note,
        Judgement::Great(_) => (max_score_per_note / 4) * 3,
        Judgement::Okay(_) => (max_score_per_note / 4) * 2,
        Judgement::Bad(_) => max_score_per_note / 4,
        Judgement::Miss(_) => 0,
    };
    *score = *score + gained;
}

/// The accuracy of a player over a list of judgements: the quarters that
/// they earned out of four per judgement. Where nothing has been judged the
/// accuracy is full.
#[derive(Debug, Clone, Copy, PartialEq, Eq, Structural)]
pub struct Accuracy {
    pub earned_quarters: u128,
    pub judged: u64,
}

impl Accuracy {
    /// The accuracy as a fraction (numerator, denominator), 1/1 where
    /// nothing has been judged.
    pub fn ratio(&self) -> (r: (u128, u128))
        ensures
            self.judged == 0 ==> r == (1u128, 1u128),
            self.judged > 0 ==> r.0 == self.earned_quarters && r.1 == 4 * self.judged,
    {
        if self.judged == 0 {
            (1, 1)
        } else {
            (self.earned_quarters, 4 * (self.judged as u128))
        }
    }
}

/// Calculates the accuracy of the player based on the judgements taken.
pub fn calculate_accuracy(judgements: &[(Judgement, u32)]) -> (r: Accuracy)
    ensures
        r.judged == judgements@.len(),
        r.earned_quarters == total_quarters(judgements@),
        r.earned_quarters == 4 * perfects(judgements@) + 3 * greats(judgements@) + 2 * okays(
            judgements@,
        ) + bads(judgements@),
{
    let mut earned: u128 = 0;
    let mut i: usize = 0;
    while i < judgements.len()
        invariant
            i <= judgements@.len(),
            earned == total_quarters(judgements@.take(i as int)),
            earned <= 4 * i,
        decreases judgements@.len() - i,
    {
        let (judgement, _) = judgements[i];
        let q: u128 = match judgement {
            Judgement::Perfect(_) => 4,
            Judgement::Great(_) => 3,
            Judgement::Okay(_) => 2,
            Judgement::Bad(_) => 1,
            Judgement::Miss(_) => 0,
        };
        proof {
            assert(judgements@.take(i + 1).drop_last() =~= judgements@.take(i as int));
        }
        earned = earned + q;
        i += 1;
    }
    proof {
        assert(judgements@.take(i as int) =~= judgements@);
        lemma_accuracy_weights(judgements@);
    }
    Accuracy { earned_quarters: earned, judged: judgements.len() as u64 }
}

/// Accuracy never exceeds full: at most four quarters per judgement.
pub proof fn lemma_accuracy_at_most_full(s: Seq<(Judgement, u32)>)
    ensures
        0 <= total_quarters(s) <= 4 * s.len(),
    decreases s.len(),
{
    if s.len() > 0 {
        lemma_accuracy_at_most_full(s.drop_last());
    }
}

/// Accuracy is full exactly when every judgement is a Perfect, and zero
/// exactly when every judgement is a Miss.
pub proof fn lemma_accuracy_extremes(s: Seq<(Judgement, u32)>)
    ensures
        total_quarters(s) == 4 * s.len() <==> forall|i: int|
            0 <= i < s.len() ==> s[i].0 is Perfect,
        total_quarters(s) == 0 <==> forall|i: int| 0 <= i < s.len() ==> s[i].0 is Miss,
    decreases s.len(),
{
    if s.len() > 0 {
        let init = s.drop_last();
        lemma_accuracy_extremes(init);
        lemma_accuracy_at_most_full(init);
        assert forall|i: int| 0 <= i < init.len() implies init[i] == s[i] by {}
        if forall|i: int| 0 <= i < s.len() ==> s[i].0 is Perfect {
            assert(s[s.len() - 1].0 is Perfect);
            assert forall|i: int| 0 <= i < init.len() implies init[i].0 is Perfect by {
                assert(s[i].0 is Perfect);
            }
        }
        if total_quarters(s) == 4 * s.len() {
            assert forall|i: int| 0 <= i < s.len() implies s[i].0 is Perfect by {
                if i < s.len() - 1 {
                    assert(init[i].0 is Perfect);
                }
            }
        }
        if forall|i: int| 0 <= i < s.len() ==> s[i].0 is Miss {
            assert(s[s.len() - 1].0 is Miss);
            assert forall|i: int| 0 <= i < init.len() implies init[i].0 is Miss by {
                assert(s[i].0 is Miss);
            }
        }
        if total_quarters(s) == 0 {
            assert forall|i: int| 0 <= i < s.len() implies s[i].0 is Miss by {
                if i < s.len() - 1 {
                    assert(init[i].0 is Miss);
                }
            }
        }
    }
}


/// The notes currently on screen, lane by lane.
pub struct ActiveHitObjects {
    pub up: VecDeque<HitObject>,
    pub down: VecDeque<HitObject>,
}

/// The judgements currently shown on screen, lane by lane, each with the
/// time it was taken.
pub struct ActiveJudgements {
    pub up: VecDeque<(Judgement, u32)>,
    pub down: VecDeque<(Judgement, u32)>,
}

/// The state of a song being played.
pub struct PlayingLogicData {
    pub beatmap: Beatmap,
    /// Notes not yet on screen, from the earliest to the latest.
    pub remaining_hit_objects: VecDeque<HitObject>,
    pub active_hit_objects: ActiveHitObjects,
    /// Judgements are stored with the timestamp they were taken.
    pub judgements: Vec<(Judgement, u32)>,
    pub active_judgements: ActiveJudgements,
    pub bpm: u32,
    pub lane_speed: u32,
    pub score: u32,
}

/// A key press or release during play, with the time of a press in ms
/// since the start of the song.
#[derive(Debug, Clone, Copy, PartialEq, Eq, Structural)]
pub enum PlayInput {
    Pressed { key: Key, at_ms: u32 },
    Released { key: Key },
}

/// What an update of the play state asks of its caller.
#[derive(Debug, Clone, Copy, PartialEq, Eq)]
pub enum PlayingStep {
    /// The player asked to leave the song.
    Quit,
    /// Play goes on; which lane keys were pressed during the update.
    Continue { keys_down: (bool, bool) },
    /// Every note has been played.
    Complete { keys_down: (bool, bool) },
}

/// The abstract state of a song being played.
#[verifier::ext_equal]
pub struct PlayModel {
    pub remaining: Seq<HitObject>,
    pub up: Seq<HitObject>,
    pub down: Seq<HitObject>,
    pub judgements: Seq<(Judgement, u32)>,
    pub shown_up: Seq<(Judgement, u32)>,
    pub shown_down: Seq<(Judgement, u32)>,
    pub score: int,
}

/// `s` with the judgement `j` taken at `time` recorded.
pub open spec fn record(s: Seq<(Judgement, u32)>, j: Judgement, time: u32) -> Seq<(Judgement, u32)> {
    s.push((j, time))
}

/// A press at `at_ms`, at song time `time`, on the first note of `lane`.
pub open spec fn apply_hit(m: PlayModel, lane: Lane, at_ms: u32, time: u32, n: int) -> PlayModel {
    let queue = if lane == Lane::Up {
        m.up
    } else {
        m.down
    };
    match judge_front(queue, at_ms) {
        None => m,
        Some(j) => PlayModel {
            up: if lane == Lane::Up {
                m.up.drop_first()
            } else {
                m.up
            },
            down: if lane == Lane::Up {
                m.down
            } else {
                m.down.drop_first()
            },
            judgements: record(m.judgements, j, time),
            shown_up: if lane == Lane::Up {
                record(m.shown_up, j, time)
            } else {
                m.shown_up
            },
            shown_down: if lane == Lane::Up {
                m.shown_down
            } else {
                record(m.shown_down, j, time)
            },
            score: m.score + points(j, n),
            ..m
        },
    }
}

/// The effect of one input: the new state, and the flags (upper lane key
/// down, lower lane key down, leave requested).
pub open spec fn apply_input(
    m: PlayModel,
    held: (bool, bool, bool),
    input: PlayInput,
    binds: Seq<(Key, KeyAction)>,
    time: u32,
    n: int,
) -> (PlayModel, (bool, bool, bool)) {
    match input {
        PlayInput::Pressed { key, at_ms } => match bound_action(binds, key) {
            None => (m, held),
            Some(KeyAction::Exit) => (m, (held.0, held.1, true)),
            Some(KeyAction::LaneUp) | Some(KeyAction::LaneUpAlt) => (
                apply_hit(m, Lane::Up, at_ms, time, n),
                (true, held.1, held.2),
            ),
            Some(KeyAction::LaneDown) | Some(KeyAction::LaneDownAlt) => (
                apply_hit(m, Lane::Down, at_ms, time, n),
                (held.0, true, held.2),
            ),
        },
        PlayInput::Released { key } => match bound_action(binds, key) {
            Some(KeyAction::LaneUp) | Some(KeyAction::LaneUpAlt) => (m, (false, held.1, held.2)),
            Some(KeyAction::LaneDown) | Some(KeyAction::LaneDownAlt) => (
                m,
                (held.0, false, held.2),
            ),
            _ => (m, held),
        },
    }
}

/// The upper lane played by a press at `at_ms`, at song time `time`, in a
/// song of `n` notes: a press close enough to the earliest note of the
/// upper lane judges that note by its distance from the press, takes it off
/// the lane, records and shows its judgement and adds its points; the lower
/// lane and the notes to come stay as they were. A press too far from any
/// note changes nothing.
pub open spec fn upper_lane_pressed(m: PlayModel, m1: PlayModel, at_ms: u32, time: u32, n: int) -> bool {
    &&& m1.remaining == m.remaining
    &&& m1.down == m.down
    &&& m1.shown_down == m.shown_down
    &&& match (if m.up.len() == 0 {
        None
    } else {
        judge(m.up[0].time - at_ms)
    }) {
        None => m1 == m,
        Some(j) => {
            &&& m1.up == m.up.drop_first()
            &&& m1.judgements == m.judgements.push((j, time))
            &&& m1.shown_up == m.shown_up.push((j, time))
            &&& m1.score == m.score + points(j, n)
        },
    }
}

/// The lower lane played by a press, as `upper_lane_pressed` with the lanes
/// exchanged.
pub open spec fn lower_lane_pressed(m: PlayModel, m1: PlayModel, at_ms: u32, time: u32, n: int) -> bool {
    &&& m1.remaining == m.remaining
    &&& m1.up == m.up
    &&& m1.shown_up == m.shown_up
    &&& match (if m.down.len() == 0 {
        None
    } else {
        judge(m.down[0].time - at_ms)
    }) {
        None => m1 == m,
        Some(j) => {
            &&& m1.down == m.down.drop_first()
            &&& m1.judgements == m.judgements.push((j, time))
            &&& m1.shown_down == m.shown_down.push((j, time))
            &&& m1.score == m.score + points(j, n)
        },
    }
}

/// The lane keys: a press of a key bound to LaneUp or LaneUpAlt plays the
/// upper lane and marks the upper lane key as down; a press of a key bound
/// to LaneDown or LaneDownAlt plays the lower lane and marks the lower lane
/// key as down; neither touches the other lane. Releasing such a key marks
/// its lane key as up and changes nothing else. A key bound to Exit asks to
/// leave, and a key bound to nothing is ignored.
pub proof fn lemma_lane_keys(
    m: PlayModel,
    held: (bool, bool, bool),
    key: Key,
    at_ms: u32,
    binds: Seq<(Key, KeyAction)>,
    time: u32,
    n: int,
)
    ensures
        ({
            let (m1, h1) = apply_input(m, held, PlayInput::Pressed { key, at_ms }, binds, time, n);
            &&& (bound_action(binds, key) == Some(KeyAction::LaneUp) || bound_action(binds, key)
                == Some(KeyAction::LaneUpAlt)) ==> {
                &&& h1 == (true, held.1, held.2)
                &&& upper_lane_pressed(m, m1, at_ms, time, n)
            }
            &&& (bound_action(binds, key) == Some(KeyAction::LaneDown) || bound_action(binds, key)
                == Some(KeyAction::LaneDownAlt)) ==> {
                &&& h1 == (held.0, true, held.2)
                &&& lower_lane_pressed(m, m1, at_ms, time, n)
            }
            &&& bound_action(binds, key) == Some(KeyAction::Exit) ==> m1 == m && h1 == (
                held.0,
                held.1,
                true,
            )
            &&& bound_action(binds, key) is None ==> m1 == m && h1 == held
        }),
        ({
            let (m1, h1) = apply_input(m, held, PlayInput::Released { key }, binds, time, n);
            &&& m1 == m
            &&& (bound_action(binds, key) == Some(KeyAction::LaneUp) || bound_action(binds, key)
                == Some(KeyAction::LaneUpAlt)) ==> h1 == (false, held.1, held.2)
            &&& (bound_action(binds, key) == Some(KeyAction::LaneDown) || bound_action(binds, key)
                == Some(KeyAction::LaneDownAlt)) ==> h1 == (held.0, false, held.2)
            &&& (bound_action(binds, key) == Some(KeyAction::Exit) || bound_action(binds, key) is None)
                ==> h1 == held
        }),
{
}

/// An alternate lane key acts exactly as the main key of its lane: pressing
/// or releasing a key bound to LaneUpAlt has the effect of pressing or
/// releasing one bound to LaneUp, and likewise for the lower lane.
pub proof fn lemma_alt_keys_alike(
    m: PlayModel,
    held: (bool, bool, bool),
    main: Key,
    alt: Key,
    at_ms: u32,
    binds: Seq<(Key, KeyAction)>,
    time: u32,
    n: int,
)
    requires
        (bound_action(binds, main) == Some(KeyAction::LaneUp) && bound_action(binds, alt) == Some(
            KeyAction::LaneUpAlt,
        )) || (bound_action(binds, main) == Some(KeyAction::LaneDown) && bound_action(binds, alt)
            == Some(KeyAction::LaneDownAlt)),
    ensures
        apply_input(m, held, PlayInput::Pressed { key: main, at_ms }, binds, time, n) == apply_input(
            m,
            held,
            PlayInput::Pressed { key: alt, at_ms },
            binds,
            time,
            n,
        ),
        apply_input(m, held, PlayInput::Released { key: main }, binds, time, n) == apply_input(
            m,
            held,
            PlayInput::Released { key: alt },
            binds,
            time,
            n,
        ),
{
}


/// The effect of a list of inputs, taken in order.
pub open spec fn apply_inputs(
    m: PlayModel,
    held: (bool, bool, bool),
    inputs: Seq<PlayInput>,
    binds: Seq<(Key, KeyAction)>,
    time: u32,
    n: int,
) -> (PlayModel, (bool, bool, bool))
    decreases inputs.len(),
{
    if inputs.len() == 0 {
        (m, held)
    } else {
        let (m1, h1) = apply_input(m, held, inputs[0], binds, time, n);
        apply_inputs(m1, h1, inputs.drop_first(), binds, time, n)
    }
}

/// A judgement taken at `entry.1` has been shown for its full time at `time`.
pub open spec fn expired(entry: (Judgement, u32), time: u32) -> bool {
    time - entry.1 > JUDGEMENT_DISPLAY_TIME
}

/// `q` without the expired judgements at its front.
pub open spec fn expire(q: Seq<(Judgement, u32)>, time: u32) -> Seq<(Judgement, u32)>
    decreases q.len(),
{
    if q.len() > 0 && expired(q[0], time) {
        expire(q.drop_first(), time)
    } else {
        q
    }
}

/// How many notes at the front of `s` are due on screen by `bound`.
pub open spec fn released_count(s: Seq<HitObject>, bound: int) -> nat
    decreases s.len(),
{
    if s.len() > 0 && s[0].time <= bound {
        1 + released_count(s.drop_first(), bound)
    } else {
        0
    }
}

/// The notes of `s` that travel along `lane`, in order.
pub open spec fn in_lane(s: Seq<HitObject>, lane: Lane) -> Seq<HitObject>
    decreases s.len(),
{
    if s.len() == 0 {
        s
    } else if s.last().lane == lane {
        in_lane(s.drop_last(), lane).push(s.last())
    } else {
        in_lane(s.drop_last(), lane)
    }
}

/// How many notes at the front of `s` have been missed at `time`.
pub open spec fn missed_count(s: Seq<HitObject>, time: u32, lane_speed: u32) -> nat
    decreases s.len(),
{
    if s.len() > 0 && missed(s[0], time, lane_speed) {
        1 + missed_count(s.drop_first(), time, lane_speed)
    } else {
        0
    }
}

/// `k` Miss judgements taken at `time`.
pub open spec fn misses(k: nat, time: u32) -> Seq<(Judgement, u32)> {
    Seq::new(k, |i: int| (Judgement::Miss(-200i32), time))
}

/// The state after the judgements have expired, the due notes have come on
/// screen and the missed notes have been judged, at `time`.
pub open spec fn tick(m: PlayModel, time: u32, lane_speed: u32) -> PlayModel {
    let bound = time + lane_speed * 50;
    let k = released_count(m.remaining, bound);
    let released = m.remaining.take(k as int);
    let up = m.up + in_lane(released, Lane::Up);
    let down = m.down + in_lane(released, Lane::Down);
    let ku = missed_count(up, time, lane_speed);
    let kd = missed_count(down, time, lane_speed);
    PlayModel {
        remaining: m.remaining.skip(k as int),
        up: up.skip(ku as int),
        down: down.skip(kd as int),
        judgements: m.judgements + misses(ku, time) + misses(kd, time),
        shown_up: expire(m.shown_up, time) + misses(ku, time),
        shown_down: expire(m.shown_down, time) + misses(kd, time),
        score: m.score,
    }
}

/// Every note has been played.
pub open spec fn all_played(m: PlayModel) -> bool {
    m.remaining.len() == 0 && m.up.len() == 0 && m.down.len() == 0
}

/// What the judgements of `s` add to the score of a song of `n` notes.
pub open spec fn points_sum(s: Seq<(Judgement, u32)>, n: int) -> int
    decreases s.len(),
{
    if s.len() == 0 {
        0
    } else {
        points_sum(s.drop_last(), n) + points(s.last().0, n)
    }
}

/// A lane is in time order and none of its notes is later than a note still
/// to come.
pub open spec fn lane_ordered(lane: Seq<HitObject>, remaining: Seq<HitObject>) -> bool {
    &&& sorted_by_time(lane)
    &&& forall|i: int, j: int|
        0 <= i < lane.len() && 0 <= j < remaining.len() ==> #[trigger] lane[i].time
            <= #[trigger] remaining[j].time
}

pub proof fn lemma_points_sum_concat(a: Seq<(Judgement, u32)>, b: Seq<(Judgement, u32)>, n: int)
    ensures
        points_sum(a + b, n) == points_sum(a, n) + points_sum(b, n),
    decreases b.len(),
{
    if b.len() == 0 {
        assert(a + b =~= a);
    } else {
        lemma_points_sum_concat(a, b.drop_last(), n);
        assert((a + b).drop_last() =~= a + b.drop_last());
    }
}

/// Misses earn nothing.
pub proof fn lemma_points_sum_misses(k: nat, time: u32, n: int)
    ensures
        points_sum(misses(k, time), n) == 0,
    decreases k,
{
    if k > 0 {
        lemma_points_sum_misses((k - 1) as nat, time, n);
        assert(misses(k, time).drop_last() =~= misses((k - 1) as nat, time));
    }
}

/// The judgements of `s` earn at most the per-note maximum each, and earn
/// exactly that in all only where every one of them is a Perfect (or a note
/// can earn nothing at all).
pub proof fn lemma_points_sum_bound(s: Seq<(Judgement, u32)>, n: int)
    requires
        n > 0,
    ensures
        0 <= points_sum(s, n) <= s.len() * per_note(n),
        per_note(n) > 0 && points_sum(s, n) == s.len() * per_note(n) ==> forall|i: int|
            0 <= i < s.len() ==> s[i].0 is Perfect,
        (forall|i: int| 0 <= i < s.len() ==> s[i].0 is Perfect) ==> points_sum(s, n) == s.len()
            * per_note(n),
    decreases s.len(),
{
    let p = per_note(n);
    assert(p >= 0) by (nonlinear_arith)
        requires
            n > 0,
            p == 1000000int / n,
    ;
    if s.len() > 0 {
        let init = s.drop_last();
        lemma_points_sum_bound(init, n);
        assert(s.len() * p == init.len() * p + p) by (nonlinear_arith)
            requires
                s.len() == init.len() + 1,
        ;
        assert(0 <= init.len() * p) by (nonlinear_arith)
            requires
                p >= 0,
        ;
        lemma_points_at_most_per_note(s.last().0, n);
        assert forall|i: int| 0 <= i < init.len() implies init[i] == s[i] by {}
        if p > 0 && points_sum(s, n) == s.len() * p {
            assert(points(s.last().0, n) == p);
            assert(s.last().0 is Perfect) by {
                assert(p / 4 * 3 < p) by (nonlinear_arith)
                    requires
                        p > 0,
                ;
                assert(p / 4 * 2 < p) by (nonlinear_arith)
                    requires
                        p > 0,
                ;
                assert(p / 4 < p) by (nonlinear_arith)
                    requires
                        p > 0,
                ;
            }
            assert forall|i: int| 0 <= i < s.len() implies s[i].0 is Perfect by {
                if i < init.len() {
                    assert(init[i].0 is Perfect);
                }
            }
        }
        if forall|i: int| 0 <= i < s.len() ==> s[i].0 is Perfect {
            assert(s[s.len() - 1].0 is Perfect);
            assert forall|i: int| 0 <= i < init.len() implies init[i].0 is Perfect by {
                assert(s[i].0 is Perfect);
            }
        }
    }
}

/// A lane's notes lie within any bounds that hold all of `s`.
pub proof fn lemma_in_lane_bounds(s: Seq<HitObject>, lane: Lane, lo: int, hi: int)
    requires
        forall|k: int| 0 <= k < s.len() ==> lo <= #[trigger] s[k].time <= hi,
    ensures
        forall|i: int|
            0 <= i < in_lane(s, lane).len() ==> lo <= #[trigger] in_lane(s, lane)[i].time <= hi,
    decreases s.len(),
{
    if s.len() > 0 {
        let init = s.drop_last();
        assert forall|k: int| 0 <= k < init.len() implies lo <= #[trigger] init[k].time <= hi by {
            assert(init[k] == s[k]);
        }
        lemma_in_lane_bounds(init, lane, lo, hi);
    }
}

/// A lane's part of a list in time order is in time order.
pub proof fn lemma_in_lane_sorted(s: Seq<HitObject>, lane: Lane)
    requires
        sorted_by_time(s),
    ensures
        sorted_by_time(in_lane(s, lane)),
    decreases s.len(),
{
    if s.len() > 0 {
        let init = s.drop_last();
        assert(sorted_by_time(init)) by {
            assert forall|a: int, b: int| 0 <= a <= b < init.len() implies init[a].time
                <= init[b].time by {
                assert(init[a] == s[a]);
                assert(init[b] == s[b]);
            }
        }
        lemma_in_lane_sorted(init, lane);
        assert forall|k: int| 0 <= k < init.len() implies 0 <= #[trigger] init[k].time
            <= s.last().time by {
            assert(init[k] == s[k]);
        }
        lemma_in_lane_bounds(init, lane, 0, s.last().time as int);
    }
}

/// The notes due by `bound` are exactly the front of a list in time order:
/// the rest are all later than `bound`.
pub proof fn lemma_released_count_stop(s: Seq<HitObject>, bound: int)
    requires
        sorted_by_time(s),
    ensures
        released_count(s, bound) <= s.len(),
        forall|j: int| released_count(s, bound) <= j < s.len() ==> #[trigger] s[j].time > bound,
    decreases s.len(),
{
    if s.len() > 0 && s[0].time <= bound {
        let rest = s.drop_first();
        assert(sorted_by_time(rest)) by {
            assert forall|a: int, b: int| 0 <= a <= b < rest.len() implies rest[a].time
                <= rest[b].time by {
                assert(rest[a] == s[a + 1]);
                assert(rest[b] == s[b + 1]);
            }
        }
        lemma_released_count_stop(rest, bound);
        assert forall|j: int| released_count(s, bound) <= j < s.len() implies #[trigger] s[j].time
            > bound by {
            assert(s[j] == rest[j - 1]);
        }
    } else if s.len() > 0 {
        assert forall|j: int| 0 <= j < s.len() implies #[trigger] s[j].time > bound by {
            assert(s[0].time <= s[j].time);
        }
    }
}

/// Moving the due notes of `remaining` to the back of a lane keeps the lane
/// in time order and no later than the notes still to come.
pub proof fn lemma_release_ordered(
    lane_notes: Seq<HitObject>,
    remaining: Seq<HitObject>,
    k: int,
    lane: Lane,
)
    requires
        lane_ordered(lane_notes, remaining),
        sorted_by_time(remaining),
        0 <= k <= remaining.len(),
    ensures
        lane_ordered(lane_notes + in_lane(remaining.take(k), lane), remaining.skip(k)),
{
    let released = remaining.take(k);
    let added = in_lane(released, lane);
    let joined = lane_notes + added;
    assert(sorted_by_time(released)) by {
        assert forall|a: int, b: int| 0 <= a <= b < released.len() implies released[a].time
            <= released[b].time by {
            assert(released[a] == remaining[a]);
            assert(released[b] == remaining[b]);
        }
    }
    lemma_in_lane_sorted(released, lane);
    let lo: int = if k > 0 {
        remaining[0].time as int
    } else {
        0
    };
    let hi: int = if k < remaining.len() {
        remaining[k].time as int
    } else {
        u32::MAX as int
    };
    assert forall|m: int| 0 <= m < released.len() implies lo <= #[trigger] released[m].time
        <= hi by {
        assert(released[m] == remaining[m]);
    }
    lemma_in_lane_bounds(released, lane, lo, hi);
    if added.len() > 0 {
        lemma_in_lane_length(released, lane);
    }
    assert forall|a: int, b: int| 0 <= a <= b < joined.len() implies joined[a].time
        <= joined[b].time by {
        if a < lane_notes.len() && b >= lane_notes.len() {
            assert(joined[b] == added[b - lane_notes.len()]);
            assert(lane_notes[a].time <= remaining[0].time);
        } else if a >= lane_notes.len() {
            assert(joined[a] == added[a - lane_notes.len()]);
            assert(joined[b] == added[b - lane_notes.len()]);
        }
    }
    let rest = remaining.skip(k);
    assert forall|i: int, j: int|
        0 <= i < joined.len() && 0 <= j < rest.len() implies #[trigger] joined[i].time
        <= #[trigger] rest[j].time by {
        assert(rest[j] == remaining[k + j]);
        assert(remaining[k].time <= remaining[k + j].time);
        if i < lane_notes.len() {
            assert(lane_notes[i].time <= remaining[k + j].time);
        } else {
            assert(joined[i] == added[i - lane_notes.len()]);
        }
    }
}

/// A lane's part of a list is no longer than the list.
pub proof fn lemma_in_lane_length(s: Seq<HitObject>, lane: Lane)
    ensures
        in_lane(s, lane).len() <= s.len(),
    decreases s.len(),
{
    if s.len() > 0 {
        lemma_in_lane_length(s.drop_last(), lane);
    }
}

/// Dropping notes from the front of a lane keeps it ordered.
pub proof fn lemma_skip_ordered(lane_notes: Seq<HitObject>, remaining: Seq<HitObject>, k: int)
    requires
        lane_ordered(lane_notes, remaining),
        0 <= k <= lane_notes.len(),
    ensures
        lane_ordered(lane_notes.skip(k), remaining),
{
    let rest = lane_notes.skip(k);
    assert forall|a: int, b: int| 0 <= a <= b < rest.len() implies rest[a].time
        <= rest[b].time by {
        assert(rest[a] == lane_notes[a + k]);
        assert(rest[b] == lane_notes[b + k]);
    }
    assert forall|i: int, j: int|
        0 <= i < rest.len() && 0 <= j < remaining.len() implies #[trigger] rest[i].time
        <= #[trigger] remaining[j].time by {
        assert(rest[i] == lane_notes[i + k]);
    }
}

/// Where `before` is a prefix of `after`, the judgements of `after` earn
/// what those of `before` earn plus what the appended ones earn.
pub proof fn lemma_points_sum_after(
    before: Seq<(Judgement, u32)>,
    after: Seq<(Judgement, u32)>,
    n: int,
)
    requires
        after.len() >= before.len(),
        after.take(before.len() as int) == before,
    ensures
        points_sum(after, n) == points_sum(before, n) + points_sum(
            after.skip(before.len() as int),
            n,
        ),
{
    assert(after =~= before + after.skip(before.len() as int));
    lemma_points_sum_concat(before, after.skip(before.len() as int), n);
}

impl PlayingLogicData {
    pub open spec fn model(&self) -> PlayModel {
        PlayModel {
            remaining: self.remaining_hit_objects@,
            up: self.active_hit_objects.up@,
            down: self.active_hit_objects.down@,
            judgements: self.judgements@,
            shown_up: self.active_judgements.up@,
            shown_down: self.active_judgements.down@,
            score: self.score as int,
        }
    }

    /// The number of notes of the song.
    pub open spec fn note_count(&self) -> int {
        self.beatmap.hit_objects@.len() as int
    }

    /// The invariant of a song being played: the notes to come are in time
    /// order, each lane holds only its own notes, in time order and none
    /// later than a note to come, every note is either to come, on screen,
    /// or judged exactly once, and the score is what the judgements earn,
    /// at most the per-note maximum for each.
    pub open spec fn wf(&self) -> bool {
        let m = self.model();
        let n = self.note_count();
        &&& n <= u32::MAX
        &&& sorted_by_time(m.remaining)
        &&& forall|i: int| 0 <= i < m.up.len() ==> (#[trigger] m.up[i]).lane == Lane::Up
        &&& forall|i: int| 0 <= i < m.down.len() ==> (#[trigger] m.down[i]).lane == Lane::Down
        &&& m.remaining.len() + m.up.len() + m.down.len() + m.judgements.len() == n
        &&& m.score <= score_cap(m.judgements.len() as int, n)
        &&& m.score == points_sum(m.judgements, n)
        &&& lane_ordered(m.up, m.remaining)
        &&& lane_ordered(m.down, m.remaining)
    }

    /// Prepares a beatmap to be played: all of its notes are to come, in
    /// time order, nothing is judged and the score is zero. Notes move at
    /// lane speed 20.
    pub fn from_beatmap(beatmap: Beatmap) -> (r: Self)
        requires
            beatmap.hit_objects@.len() <= u32::MAX,
        ensures
            r.wf(),
            r.beatmap == beatmap,
            r.bpm == beatmap.bpm,
            r.lane_speed == 20,
            r.model().remaining.to_multiset() == beatmap.hit_objects@.to_multiset(),
            forall|time: u32|
                #[trigger] at_time(r.model().remaining, time) == at_time(
                    beatmap.hit_objects@,
                    time,
                ),
            r.model().up.len() == 0,
            r.model().down.len() == 0,
            r.model().judgements.len() == 0,
            r.model().shown_up.len() == 0,
            r.model().shown_down.len() == 0,
            r.model().score == 0,
    {
        let sorted = sort_by_time(&beatmap.hit_objects);
        let mut remaining: VecDeque<HitObject> = VecDeque::new();
        let mut i: usize = 0;
        while i < sorted.len()
            invariant
                i <= sorted@.len(),
                remaining@ == sorted@.take(i as int),
            decreases sorted@.len() - i,
        {
            remaining.push_back(sorted[i]);
            i += 1;
            proof {
                assert(sorted@.take(i as int) =~= sorted@.take(i - 1).push(sorted@[i - 1]));
            }
        }
        proof {
            assert(sorted@.take(i as int) =~= sorted@);
            vstd::seq_lib::to_multiset_len(sorted@);
            vstd::seq_lib::to_multiset_len(beatmap.hit_objects@);
        }
        let bpm = beatmap.bpm;
        PlayingLogicData {
            beatmap,
            remaining_hit_objects: remaining,
            active_hit_objects: ActiveHitObjects { up: VecDeque::new(), down: VecDeque::new() },
            judgements: Vec::new(),
            active_judgements: ActiveJudgements { up: VecDeque::new(), down: VecDeque::new() },
            bpm,
            lane_speed: 20,
            score: 0,
        }
    }
}


/// The notes of `s` are spread over the two lanes: each lane's part holds
/// only that lane's notes, and the two parts together are as long as `s`.
pub proof fn lemma_in_lane(s: Seq<HitObject>)
    ensures
        in_lane(s, Lane::Up).len() + in_lane(s, Lane::Down).len() == s.len(),
        forall|i: int|
            0 <= i < in_lane(s, Lane::Up).len() ==> (#[trigger] in_lane(s, Lane::Up)[i]).lane
                == Lane::Up,
        forall|i: int|
            0 <= i < in_lane(s, Lane::Down).len() ==> (#[trigger] in_lane(s, Lane::Down)[i]).lane
                == Lane::Down,
    decreases s.len(),
{
    if s.len() > 0 {
        lemma_in_lane(s.drop_last());
    }
}

/// Removes the judgements at the front of `queue` that have been shown for
/// their full time at `time`.
pub fn expire_judgements(queue: &mut VecDeque<(Judgement, u32)>, time: u32)
    ensures
        final(queue)@ == expire(old(queue)@, time),
{
    loop
        invariant
            expire(queue@, time) == expire(old(queue)@, time),
        ensures
            queue@.len() == 0 || !expired(queue@[0], time),
        decreases queue@.len(),
    {
        if queue.len() == 0 {
            break ;
        }
        let (_, created) = queue[0];
        if time.saturating_sub(created) > JUDGEMENT_DISPLAY_TIME {
            proof {
                assert(queue@.drop_first() =~= queue@.subrange(1, queue@.len() as int));
            }
            let _ = queue.pop_front();
        } else {
            break ;
        }
    }
}

/// Moves the notes due on screen by `bound` from the front of `remaining` to
/// the back of their lanes.
pub fn release_due_notes(
    remaining: &mut VecDeque<HitObject>,
    active: &mut ActiveHitObjects,
    bound: u32,
)
    ensures
        ({
            let k = released_count(old(remaining)@, bound as int);
            let released = old(remaining)@.take(k as int);
            &&& k <= old(remaining)@.len()
            &&& final(remaining)@ == old(remaining)@.skip(k as int)
            &&& final(active).up@ == old(active).up@ + in_lane(released, Lane::Up)
            &&& final(active).down@ == old(active).down@ + in_lane(released, Lane::Down)
        }),
{
    let ghost rem0 = remaining@;
    let ghost up0 = active.up@;
    let ghost down0 = active.down@;
    let total: usize = remaining.len();
    let mut i: usize = 0;
    proof {
        assert(rem0.skip(0) =~= rem0);
        assert(rem0.take(0) =~= Seq::<HitObject>::empty());
        assert(up0 + Seq::<HitObject>::empty() =~= up0);
        assert(down0 + Seq::<HitObject>::empty() =~= down0);
    }
    loop
        invariant
            i <= rem0.len(),
            remaining@ == rem0.skip(i as int),
            active.up@ == up0 + in_lane(rem0.take(i as int), Lane::Up),
            active.down@ == down0 + in_lane(rem0.take(i as int), Lane::Down),
            released_count(rem0, bound as int) == i + released_count(remaining@, bound as int),
            rem0.len() == total,
        ensures
            remaining@.len() == 0 || remaining@[0].time > bound,
        decreases rem0.len() - i,
    {
        if remaining.len() == 0 {
            break ;
        }
        if remaining[0].time > bound {
            break ;
        }
        let ghost before = remaining@;
        let object = remaining.pop_front().unwrap();
        proof {
            assert(before.drop_first() =~= remaining@);
            assert(rem0.skip(i + 1) =~= before.drop_first());
            assert(rem0.take(i + 1).drop_last() =~= rem0.take(i as int));
            assert(rem0.take(i + 1).last() == object);
        }
        match object.lane {
            Lane::Up => {
                active.up.push_back(object);
                proof {
                    assert(active.up@ =~= up0 + in_lane(rem0.take(i + 1), Lane::Up));
                    assert(active.down@ =~= down0 + in_lane(rem0.take(i + 1), Lane::Down));
                }
            },
            Lane::Down => {
                active.down.push_back(object);
                proof {
                    assert(active.up@ =~= up0 + in_lane(rem0.take(i + 1), Lane::Up));
                    assert(active.down@ =~= down0 + in_lane(rem0.take(i + 1), Lane::Down));
                }
            },
        }
        i += 1;
    }
}

/// Judges as missed the notes at the front of a lane that have left the
/// screen at `time`: each is removed from the lane and a Miss taken at
/// `time` is recorded for it, and shown.
pub fn judge_missed_notes(
    lane: &mut VecDeque<HitObject>,
    shown: &mut VecDeque<(Judgement, u32)>,
    judgements: &mut Vec<(Judgement, u32)>,
    time: u32,
    lane_speed: u32,
)
    requires
        time + lane_speed * 50 <= u32::MAX,
    ensures
        ({
            let k = missed_count(old(lane)@, time, lane_speed);
            &&& k <= old(lane)@.len()
            &&& final(lane)@ == old(lane)@.skip(k as int)
            &&& final(shown)@ == old(shown)@ + misses(k, time)
            &&& final(judgements)@ == old(judgements)@ + misses(k, time)
        }),
{
    let ghost lane0 = lane@;
    let ghost shown0 = shown@;
    let ghost judged0 = judgements@;
    let total: usize = lane.len();
    let mut j: usize = 0;
    proof {
        assert(lane0.skip(0) =~= lane0);
        assert(shown0 + misses(0, time) =~= shown0);
        assert(judged0 + misses(0, time) =~= judged0);
    }
    loop
        invariant
            j <= lane0.len(),
            time + lane_speed * 50 <= u32::MAX,
            lane@ == lane0.skip(j as int),
            shown@ == shown0 + misses(j as nat, time),
            judgements@ == judged0 + misses(j as nat, time),
            missed_count(lane0, time, lane_speed) == j + missed_count(lane@, time, lane_speed),
            lane0.len() == total,
        ensures
            lane@.len() == 0 || !missed(lane@[0], time, lane_speed),
        decreases lane0.len() - j,
    {
        if lane.len() == 0 {
            break ;
        }
        let judgement = match should_pop_note(&lane[0], time, lane_speed) {
            Some(judgement) => judgement,
            None => break ,
        };
        let ghost before = lane@;
        let _ = lane.pop_front();
        judgements.push((judgement, time));
        shown.push_back((judgement, time));
        proof {
            assert(before.drop_first() =~= lane@);
            assert(lane0.skip(j + 1) =~= before.drop_first());
            assert(misses((j + 1) as nat, time) =~= misses(j as nat, time).push(
                (Judgement::Miss(-200i32), time),
            ));
            assert(shown@ =~= shown0 + misses((j + 1) as nat, time));
            assert(judgements@ =~= judged0 + misses((j + 1) as nat, time));
        }
        j += 1;
    }
}

impl PlayingLogicData {
    /// A press on `lane` at `at_ms`, at song time `time`: a judged note is
    /// removed, its judgement recorded and shown, and the score raised.
    fn hit_lane(&mut self, lane: Lane, at_ms: u32, time: u32)
        requires
            old(self).wf(),
        ensures
            final(self).wf(),
            final(self).beatmap == old(self).beatmap,
            final(self).bpm == old(self).bpm,
            final(self).lane_speed == old(self).lane_speed,
            final(self).model() == apply_hit(old(self).model(), lane, at_ms, time, old(self).note_count()),
            final(self).judgements@.len() >= old(self).judgements@.len(),
            final(self).judgements@.take(old(self).judgements@.len() as int)
                == old(self).judgements@,
    {
        let ghost m0 = self.model();
        let ghost n = self.note_count();
        let judgement = if lane == Lane::Up {
            hit_note(&mut self.active_hit_objects.up, at_ms)
        } else {
            hit_note(&mut self.active_hit_objects.down, at_ms)
        };
        if let Some(j) = judgement {
            proof {
                let judged = m0.judgements.len() as int;
                lemma_score_cap(judged, judged, n);
                lemma_score_cap(judged, judged + 1, n);
                lemma_points_at_most_per_note(j, n);
            }
            add_score(&self.beatmap, &j, &mut self.score);
            self.judgements.push((j, time));
            if lane == Lane::Up {
                self.active_judgements.up.push_back((j, time));
            } else {
                self.active_judgements.down.push_back((j, time));
            }
            proof {
                assert(self.model() =~= apply_hit(m0, lane, at_ms, time, n));
                let m = self.model();
                assert(m.judgements.drop_last() =~= m0.judgements);
                assert(m.judgements.take(m0.judgements.len() as int) =~= m0.judgements);
                if lane == Lane::Up {
                    lemma_skip_ordered(m0.up, m0.remaining, 1);
                    assert(m.up =~= m0.up.skip(1));
                } else {
                    lemma_skip_ordered(m0.down, m0.remaining, 1);
                    assert(m.down =~= m0.down.skip(1));
                }
                assert forall|i: int| 0 <= i < m.up.len() implies (#[trigger] m.up[i]).lane
                    == Lane::Up by {
                    if lane == Lane::Up {
                        assert(m.up[i] == m0.up[i + 1]);
                    }
                }
                assert forall|i: int| 0 <= i < m.down.len() implies (#[trigger] m.down[i]).lane
                    == Lane::Down by {
                    if lane == Lane::Down {
                        assert(m.down[i] == m0.down[i + 1]);
                    }
                }
            }
        } else {
            proof {
                assert(self.model() =~= apply_hit(m0, lane, at_ms, time, n));
                assert(self.judgements@.take(m0.judgements.len() as int) =~= m0.judgements);
            }
        }
    }

    /// One input at song time `time`; `held` are the flags (upper lane key
    /// down, lower lane key down, leave requested) so far.
    fn handle_input(
        &mut self,
        input: PlayInput,
        held: (bool, bool, bool),
        time: u32,
        config: &GameConfig,
    ) -> (r: (bool, bool, bool))
        requires
            old(self).wf(),
            keys_unique(config.keybinds@),
        ensures
            final(self).wf(),
            final(self).beatmap == old(self).beatmap,
            final(self).bpm == old(self).bpm,
            final(self).lane_speed == old(self).lane_speed,
            final(self).model() == apply_input(
                old(self).model(),
                held,
                input,
                config.keybinds@,
                time,
                old(self).note_count(),
            ).0,
            r == apply_input(
                old(self).model(),
                held,
                input,
                config.keybinds@,
                time,
                old(self).note_count(),
            ).1,
            final(self).judgements@.len() >= old(self).judgements@.len(),
            final(self).judgements@.take(old(self).judgements@.len() as int)
                == old(self).judgements@,
    {
        proof {
            assert(self.judgements@.take(self.judgements@.len() as int) =~= self.judgements@);
        }
        match input {
            PlayInput::Pressed { key, at_ms } => match config.action_for(key) {
                None => held,
                Some(KeyAction::Exit) => (held.0, held.1, true),
                Some(KeyAction::LaneUp) | Some(KeyAction::LaneUpAlt) => {
                    self.hit_lane(Lane::Up, at_ms, time);
                    (true, held.1, held.2)
                },
                Some(KeyAction::LaneDown) | Some(KeyAction::LaneDownAlt) => {
                    self.hit_lane(Lane::Down, at_ms, time);
                    (held.0, true, held.2)
                },
            },
            PlayInput::Released { key } => match config.action_for(key) {
                Some(KeyAction::LaneUp) | Some(KeyAction::LaneUpAlt) => (false, held.1, held.2),
                Some(KeyAction::LaneDown) | Some(KeyAction::LaneDownAlt) => (held.0, false, held.2),
                _ => held,
            },
        }
    }

    /// One update of the song at song time `time`: the inputs are taken in
    /// order; unless one of them asks to leave the song, the judgements shown
    /// for their full time are removed, the notes due on screen by
    /// `time + 50 * lane_speed` come on screen, and the notes that have left
    /// the screen are judged as missed.
    pub fn update(&mut self, time: u32, inputs: &Vec<PlayInput>, config: &GameConfig) -> (r:
        PlayingStep)
        requires
            old(self).wf(),
            keys_unique(config.keybinds@),
            time + old(self).lane_speed * 50 <= u32::MAX,
        ensures
            final(self).wf(),
            final(self).beatmap == old(self).beatmap,
            final(self).bpm == old(self).bpm,
            final(self).lane_speed == old(self).lane_speed,
            final(self).judgements@.len() >= old(self).judgements@.len(),
            final(self).judgements@.take(old(self).judgements@.len() as int)
                == old(self).judgements@,
            final(self).score == old(self).score + points_sum(
                final(self).judgements@.skip(old(self).judgements@.len() as int),
                old(self).note_count(),
            ),
            ({
                let (m1, held) = apply_inputs(
                    old(self).model(),
                    (false, false, false),
                    inputs@,
                    config.keybinds@,
                    time,
                    old(self).note_count(),
                );
                if held.2 {
                    &&& r == PlayingStep::Quit
                    &&& final(self).model() == m1
                } else {
                    &&& final(self).model() == tick(m1, time, old(self).lane_speed)
                    &&& forall|j: int|
                        0 <= j < final(self).remaining_hit_objects@.len()
                            ==> #[trigger] final(self).remaining_hit_objects@[j].time > time
                            + old(self).lane_speed * 50
                    &&& r == (if all_played(final(self).model()) {
                        PlayingStep::Complete { keys_down: (held.0, held.1) }
                    } else {
                        PlayingStep::Continue { keys_down: (held.0, held.1) }
                    })
                }
            }),
            r matches PlayingStep::Complete { .. } ==> {
                &&& final(self).remaining_hit_objects@.len() == 0
                &&& final(self).active_hit_objects.up@.len() == 0
                &&& final(self).active_hit_objects.down@.len() == 0
                &&& final(self).judgements@.len() == old(self).note_count()
            },
            r matches PlayingStep::Continue { .. } ==> {
                ||| final(self).remaining_hit_objects@.len() > 0
                ||| final(self).active_hit_objects.up@.len() > 0
                ||| final(self).active_hit_objects.down@.len() > 0
            },
            r matches PlayingStep::Continue { .. } ==> {
                &&& final(self).judgements@.len() < old(self).note_count()
            },
    {
        let ghost m0 = self.model();
        let ghost n = self.note_count();
        let ghost binds = config.keybinds@;
        let ghost target = apply_inputs(m0, (false, false, false), inputs@, binds, time, n);
        let ghost j0 = self.judgements@;
        let mut held: (bool, bool, bool) = (false, false, false);
        let mut i: usize = 0;
        proof {
            assert(inputs@.skip(0) =~= inputs@);
        }
        while i < inputs.len()
            invariant
                i <= inputs@.len(),
                self.wf(),
                self.beatmap == old(self).beatmap,
                self.bpm == old(self).bpm,
                self.lane_speed == old(self).lane_speed,
                n == self.note_count(),
                binds == config.keybinds@,
                keys_unique(config.keybinds@),
                apply_inputs(self.model(), held, inputs@.skip(i as int), binds, time, n) == target,
                self.judgements@.len() >= j0.len(),
                self.judgements@.take(j0.len() as int) == j0,
            decreases inputs@.len() - i,
        {
            proof {
                assert(inputs@.skip(i as int)[0] == inputs@[i as int]);
                assert(inputs@.skip(i as int).drop_first() =~= inputs@.skip(i + 1));
            }
            let ghost before = self.judgements@;
            held = self.handle_input(inputs[i], held, time, config);
            proof {
                assert(self.judgements@.take(j0.len() as int) =~= self.judgements@.take(
                    before.len() as int,
                ).take(j0.len() as int));
            }
            i += 1;
        }
        proof {
            assert(inputs@.skip(i as int).len() == 0);
            lemma_points_sum_after(j0, self.judgements@, n);
        }
        // leaving the song early skips the rest of the update
        if held.2 {
            return PlayingStep::Quit;
        }
        let ghost m1 = self.model();

        // expired judgements
        expire_judgements(&mut self.active_judgements.up, time);
        expire_judgements(&mut self.active_judgements.down, time);

        // notes that come on screen
        let bound = render_up_to(self.lane_speed, time);
        release_due_notes(&mut self.remaining_hit_objects, &mut self.active_hit_objects, bound);
        let ghost m2 = self.model();

        // notes that have left the screen
        judge_missed_notes(
            &mut self.active_hit_objects.up,
            &mut self.active_judgements.up,
            &mut self.judgements,
            time,
            self.lane_speed,
        );
        judge_missed_notes(
            &mut self.active_hit_objects.down,
            &mut self.active_judgements.down,
            &mut self.judgements,
            time,
            self.lane_speed,
        );
        proof {
            let k = released_count(m1.remaining, bound as int);
            let released = m1.remaining.take(k as int);
            lemma_in_lane(released);
            let ku = missed_count(m2.up, time, self.lane_speed);
            let kd = missed_count(m2.down, time, self.lane_speed);
            assert(self.model() =~= tick(m1, time, self.lane_speed));
            let m = self.model();
            assert forall|a: int, b: int|
                0 <= a <= b < m.remaining.len() implies m.remaining[a].time
                <= m.remaining[b].time by {
                assert(m.remaining[a] == m1.remaining[a + k]);
                assert(m.remaining[b] == m1.remaining[b + k]);
            }
            assert forall|x: int| 0 <= x < m.up.len() implies (#[trigger] m.up[x]).lane
                == Lane::Up by {
                assert(m.up[x] == m2.up[x + ku]);
                if x + ku < m1.up.len() {
                    assert(m2.up[x + ku] == m1.up[x + ku]);
                } else {
                    assert(m2.up[x + ku] == in_lane(released, Lane::Up)[x + ku - m1.up.len()]);
                }
            }
            assert forall|x: int| 0 <= x < m.down.len() implies (#[trigger] m.down[x]).lane
                == Lane::Down by {
                assert(m.down[x] == m2.down[x + kd]);
                if x + kd < m1.down.len() {
                    assert(m2.down[x + kd] == m1.down[x + kd]);
                } else {
                    assert(m2.down[x + kd] == in_lane(released, Lane::Down)[x + kd
                        - m1.down.len()]);
                }
            }
            lemma_score_cap(m1.judgements.len() as int, m.judgements.len() as int, n);
            lemma_points_sum_concat(m1.judgements, misses(ku, time), n);
            lemma_points_sum_concat(m1.judgements + misses(ku, time), misses(kd, time), n);
            lemma_points_sum_misses(ku, time, n);
            lemma_points_sum_misses(kd, time, n);
            lemma_released_count_stop(m1.remaining, bound as int);
            lemma_release_ordered(m1.up, m1.remaining, k as int, Lane::Up);
            lemma_release_ordered(m1.down, m1.remaining, k as int, Lane::Down);
            lemma_skip_ordered(m2.up, m2.remaining, ku as int);
            lemma_skip_ordered(m2.down, m2.remaining, kd as int);
            assert forall|j: int| 0 <= j < m.remaining.len() implies #[trigger] m.remaining[j].time
                > time + self.lane_speed * 50 by {
                assert(m.remaining[j] == m1.remaining[j + k]);
            }
            assert(m.judgements.take(j0.len() as int) =~= m1.judgements.take(j0.len() as int));
            lemma_points_sum_after(j0, m.judgements, n);
        }
        let keys_down = (held.0, held.1);
        if self.remaining_hit_objects.len() == 0 && self.active_hit_objects.up.len() == 0
            && self.active_hit_objects.down.len() == 0 {
            PlayingStep::Complete { keys_down }
        } else {
            PlayingStep::Continue { keys_down }
        }
    }
}

/// A song is played out exactly when every one of its notes has been
/// judged: nothing is left to come and both lanes are empty just when there
/// are as many judgements as notes.
pub proof fn lemma_played_out_when_all_judged(data: &PlayingLogicData)
    requires
        data.wf(),
    ensures
        all_played(data.model()) <==> data.judgements@.len() == data.note_count(),
        (data.remaining_hit_objects@.len() == 0 && data.active_hit_objects.up@.len() == 0
            && data.active_hit_objects.down@.len() == 0) <==> data.judgements@.len()
            == data.note_count(),
{
}

/// A copy of a list of judgements.
pub fn copy_judgements(judgements: &Vec<(Judgement, u32)>) -> (r: Vec<(Judgement, u32)>)
    ensures
        r@ == judgements@,
{
    let mut r: Vec<(Judgement, u32)> = Vec::new();
    let mut i: usize = 0;
    while i < judgements.len()
        invariant
            i <= judgements@.len(),
            r@ == judgements@.take(i as int),
        decreases judgements@.len() - i,
    {
        r.push(judgements[i]);
        i += 1;
        proof {
            assert(judgements@.take(i as int) =~= judgements@.take(i - 1).push(judgements@[i - 1]));
        }
    }
    proof {
        assert(judgements@.take(i as int) =~= judgements@);
    }
    r
}

impl PlayingLogicData {
    /// What the results screen shows of this play: the score, the accuracy
    /// and the judgements taken, and the beatmap played.
    pub fn results(&self) -> (r: ResultsData)
        ensures
            r.score == self.score,
            r.accuracy.judged == self.judgements@.len(),
            r.accuracy.earned_quarters == total_quarters(self.judgements@),
            r.judgements@ == self.judgements@,
            same_beatmap(r.beatmap, self.beatmap),
    {
        ResultsData {
            score: self.score,
            accuracy: calculate_accuracy(self.judgements.as_slice()),
            judgements: copy_judgements(&self.judgements),
            beatmap: self.beatmap.duplicate(),
        }
    }
}

/// The score of a play never exceeds the maximum score.
pub proof fn lemma_score_at_most_max(data: &PlayingLogicData)
    requires
        data.wf(),
    ensures
        data.score <= MAX_SCORE,
{
    let n = data.note_count();
    lemma_score_cap(data.judgements@.len() as int, data.judgements@.len() as int, n);
    lemma_score_cap(data.judgements@.len() as int, n, n);
}

/// A song of `n` notes played with a Perfect on every note scores `n` times
/// the per-note maximum: never more than the maximum score, and exactly
/// the maximum where `n` divides it.
pub proof fn lemma_perfect_play_score(n: int)
    requires
        n > 0,
    ensures
        n * points(Judgement::Perfect(0), n) <= MAX_SCORE,
        1000000int % n == 0 ==> n * points(Judgement::Perfect(0), n) == MAX_SCORE,
{
    let p = per_note(n);
    assert(n * p <= 1000000) by (nonlinear_arith)
        requires
            n > 0,
            p == 1000000int / n,
    ;
    if 1000000int % n == 0 {
        assert(n * p == 1000000) by (nonlinear_arith)
            requires
                n > 0,
                p == 1000000int / n,
                1000000int % n == 0,
        ;
    }
}

/// A press counts exactly when it lies within the Bad window of its note,
/// and the judgement carries the signed error; the windows nest from
/// Perfect out to Bad.
pub proof fn lemma_judgement_windows(difference: int)
    ensures
        judge(difference) is Some <==> abs(difference) <= BAD,
        judge(difference) matches Some(Judgement::Perfect(e)) ==> e == difference && abs(
            difference,
        ) <= PERFECT,
        judge(difference) matches Some(Judgement::Great(e)) ==> e == difference && PERFECT < abs(
            difference,
        ) <= GREAT,
        judge(difference) matches Some(Judgement::Okay(e)) ==> e == difference && GREAT < abs(
            difference,
        ) <= OK,
        judge(difference) matches Some(Judgement::Bad(e)) ==> e == difference && OK < abs(
            difference,
        ) <= BAD,
{
}

/// Every note of the song is accounted for exactly once: still to come, on
/// screen, or judged.
pub proof fn lemma_notes_accounted(data: &PlayingLogicData)
    requires
        data.wf(),
    ensures
        data.remaining_hit_objects@.len() + data.active_hit_objects.up@.len()
            + data.active_hit_objects.down@.len() + data.judgements@.len()
            == data.beatmap.hit_objects@.len(),
{
}

/// A play reaches the maximum score exactly when every note of the song
/// has been judged a Perfect and the number of notes divides the maximum
/// score.
pub proof fn lemma_max_score_only_all_perfect(data: &PlayingLogicData)
    requires
        data.wf(),
    ensures
        data.score == MAX_SCORE <==> {
            &&& data.note_count() > 0
            &&& data.judgements@.len() == data.note_count()
            &&& forall|i: int| 0 <= i < data.judgements@.len() ==> data.judgements@[i].0 is Perfect
            &&& 1000000int % data.note_count() == 0
        },
{
    let n = data.note_count();
    let js = data.judgements@;
    let len = js.len() as int;
    if n > 0 {
        let p = per_note(n);
        lemma_points_sum_bound(js, n);
        lemma_perfect_play_score(n);
        vstd::arithmetic::div_mod::lemma_fundamental_div_mod(1000000, n);
        assert(len * p <= n * p) by (nonlinear_arith)
            requires
                0 <= len <= n,
                p >= 0,
        ;
        assert(n * p <= 1000000) by (nonlinear_arith)
            requires
                n > 0,
                p == 1000000int / n,
        ;
        if data.score == MAX_SCORE {
            assert(p > 0) by (nonlinear_arith)
                requires
                    1000000 <= len * p,
                    p >= 0,
            ;
            assert(len == n) by (nonlinear_arith)
                requires
                    len * p == n * p,
                    p > 0,
            ;
        }
        if len == n && (forall|i: int| 0 <= i < js.len() ==> js[i].0 is Perfect) && 1000000int % n
            == 0 {
            assert(points(Judgement::Perfect(0), n) == p);
        }
    }
}

/// What a judgement earns toward the accuracy depends on its kind alone,
/// not on its error or the time it was taken.
pub proof fn lemma_accuracy_kinds_only(a: Seq<(Judgement, u32)>, b: Seq<(Judgement, u32)>)
    requires
        a.len() == b.len(),
        forall|i: int| 0 <= i < a.len() ==> quarters(#[trigger] a[i].0) == quarters(b[i].0),
    ensures
        total_quarters(a) == total_quarters(b),
    decreases a.len(),
{
    if a.len() > 0 {
        assert forall|i: int| 0 <= i < a.drop_last().len() implies quarters(
            #[trigger] a.drop_last()[i].0,
        ) == quarters(b.drop_last()[i].0) by {
            assert(quarters(a[i].0) == quarters(b[i].0));
        }
        lemma_accuracy_kinds_only(a.drop_last(), b.drop_last());
        assert(quarters(a[a.len() - 1].0) == quarters(b[b.len() - 1].0));
    }
}

/// Taking one judgement out of a list takes its quarters out of the total.
pub proof fn lemma_total_quarters_remove(s: Seq<(Judgement, u32)>, i: int)
    requires
        0 <= i < s.len(),
    ensures
        total_quarters(s) == total_quarters(s.remove(i)) + quarters(s[i].0),
    decreases s.len(),
{
    if i == s.len() - 1 {
        assert(s.remove(i) =~= s.drop_last());
    } else {
        lemma_total_quarters_remove(s.drop_last(), i);
        assert(s.remove(i).drop_last() =~= s.drop_last().remove(i));
        assert(s.remove(i).last() == s.last());
    }
}

/// The accuracy does not depend on the order of the judgements.
pub proof fn lemma_accuracy_order_free(a: Seq<(Judgement, u32)>, b: Seq<(Judgement, u32)>)
    requires
        a.to_multiset() == b.to_multiset(),
    ensures
        a.len() == b.len(),
        total_quarters(a) == total_quarters(b),
    decreases a.len(),
{
    broadcast use vstd::seq_lib::group_to_multiset_ensures;
    broadcast use vstd::multiset::group_multiset_axioms;

    if a.len() > 0 {
        let x = a.last();
        let init = a.drop_last();
        assert(a =~= init.push(x));
        assert(a.to_multiset() =~= init.to_multiset().insert(x));
        assert(a.to_multiset().count(x) > 0);
        assert(b.contains(x));
        let i = choose|i: int| 0 <= i < b.len() && b[i] == x;
        assert(b.remove(i).to_multiset() =~= b.to_multiset().remove(x));
        assert(init.to_multiset() =~= a.to_multiset().remove(x));
        lemma_accuracy_order_free(init, b.remove(i));
        lemma_total_quarters_remove(b, i);
    } else {
        assert(b.to_multiset().len() == 0);
    }
}

/// The time of a key press in whole milliseconds after the start of the
/// song (zero where the press came first), or the largest time where it lies
/// further than that.
pub fn press_time_ms(at: Instant, start: Instant) -> (r: u32)
    ensures
        r == if whole_millis(duration_from(at, start)) <= u32::MAX {
            whole_millis(duration_from(at, start))
        } else {
            u32::MAX as u128
        },
{
    let ms = duration_as_millis(&instant_duration_since(&at, &start));
    if ms <= u32::MAX as u128 {
        ms as u32
    } else {
        u32::MAX
    }
}

} // verus!
