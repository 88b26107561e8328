use vstd::prelude::*;

use std::collections::VecDeque;

use crate::beatmap::{HitObject, at_time, sort_by_time, sorted_by_time};
use crate::state::playing::{missed, missed_count, released_count, render_up_to, should_pop_note};

verus! {

broadcast use {vstd::seq_lib::group_to_multiset_ensures, vstd::seq_lib::lemma_multiset_commutative};

/// The notes of the beatmap being edited, split by the playback position:
/// `past` holds the notes that have gone by (the most recent first),
/// `current` the notes on screen and `future` the notes still to come.
pub struct EditorTimeline {
    pub past: VecDeque<HitObject>,
    pub current: VecDeque<HitObject>,
    pub future: VecDeque<HitObject>,
}

/// All the notes of a timeline, queue after queue.
pub open spec fn all_notes(past: Seq<HitObject>, current: Seq<HitObject>, future: Seq<HitObject>) -> Seq<
    HitObject,
> {
    past + current + future
}

/// Moves `k` notes from the front of `s` to the front of `past`, one by one.
pub open spec fn pass(past: Seq<HitObject>, s: Seq<HitObject>, k: int) -> Seq<HitObject> {
    s.take(k).reverse() + past
}

/// The timeline at playback position `time`: the notes due on screen by
/// `time + 50 * lane_speed` move from `future` to `current`, then the notes
/// that have left the screen move from `current` to `past`.
pub open spec fn advanced(
    past: Seq<HitObject>,
    current: Seq<HitObject>,
    future: Seq<HitObject>,
    time: u32,
    lane_speed: u32,
) -> (Seq<HitObject>, Seq<HitObject>, Seq<HitObject>) {
    let k = released_count(future, time + lane_speed * 50) as int;
    let on_screen = current + future.take(k);
    let kp = missed_count(on_screen, time, lane_speed) as int;
    (pass(past, on_screen, kp), on_screen.skip(kp), future.skip(k))
}

/// Moving the playback position keeps every note of the beatmap: the notes
/// of the three queues together are the same before and after.
pub proof fn lemma_advance_keeps_notes(
    past: Seq<HitObject>,
    current: Seq<HitObject>,
    future: Seq<HitObject>,
    time: u32,
    lane_speed: u32,
)
    ensures
        ({
            let (p, c, f) = advanced(past, current, future, time, lane_speed);
            all_notes(p, c, f).to_multiset() == all_notes(past, current, future).to_multiset()
        }),
{
    let k = released_count(future, time + lane_speed * 50) as int;
    lemma_released_count_bounded(future, time + lane_speed * 50);
    let on_screen = current + future.take(k);
    let kp = missed_count(on_screen, time, lane_speed) as int;
    lemma_missed_count_bounded(on_screen, time, lane_speed);
    assert(future.take(k) + future.skip(k) =~= future);
    assert(on_screen.take(kp) + on_screen.skip(kp) =~= on_screen);
    on_screen.take(kp).lemma_reverse_to_multiset();
    let (p, c, f) = advanced(past, current, future, time, lane_speed);
    broadcast use vstd::multiset::group_multiset_axioms;

    let rev = on_screen.take(kp).reverse();
    let kept = on_screen.skip(kp);
    let left = future.skip(k);
    assert(p == rev + past);
    assert(c == kept);
    assert(f == left);
    assert(all_notes(p, c, f) == rev + past + kept + left);
    assert((rev + past + kept + left).to_multiset() =~= rev.to_multiset().add(
        past.to_multiset(),
    ).add(kept.to_multiset()).add(left.to_multiset()));
    assert(on_screen.to_multiset() =~= on_screen.take(kp).to_multiset().add(kept.to_multiset()));
    assert(on_screen.to_multiset() =~= current.to_multiset().add(future.take(k).to_multiset()));
    assert(future.to_multiset() =~= future.take(k).to_multiset().add(left.to_multiset()));
    assert((past + current + future).to_multiset() =~= past.to_multiset().add(
        current.to_multiset(),
    ).add(future.to_multiset()));
    assert forall|x: HitObject|
        #[trigger] all_notes(p, c, f).to_multiset().count(x) == all_notes(
            past,
            current,
            future,
        ).to_multiset().count(x) by {
        assert(rev.to_multiset().count(x) == on_screen.take(kp).to_multiset().count(x));
        assert(on_screen.to_multiset().count(x) == on_screen.take(kp).to_multiset().count(x)
            + kept.to_multiset().count(x));
        assert(on_screen.to_multiset().count(x) == current.to_multiset().count(x) + future.take(
            k,
        ).to_multiset().count(x));
        assert(future.to_multiset().count(x) == future.take(k).to_multiset().count(x)
            + left.to_multiset().count(x));
    }
    assert(all_notes(p, c, f).to_multiset() =~= all_notes(past, current, future).to_multiset());
}

pub proof fn lemma_released_count_bounded(s: Seq<HitObject>, bound: int)
    ensures
        released_count(s, bound) <= s.len(),
    decreases s.len(),
{
    if s.len() > 0 {
        lemma_released_count_bounded(s.drop_first(), bound);
    }
}

pub proof fn lemma_missed_count_bounded(s: Seq<HitObject>, time: u32, lane_speed: u32)
    ensures
        missed_count(s, time, lane_speed) <= s.len(),
    decreases s.len(),
{
    if s.len() > 0 {
        lemma_missed_count_bounded(s.drop_first(), time, lane_speed);
    }
}

impl EditorTimeline {
    /// An empty timeline.
    pub fn new() -> (r: Self)
        ensures
            r.past@.len() == 0,
            r.current@.len() == 0,
            r.future@.len() == 0,
    {
        EditorTimeline { past: VecDeque::new(), current: VecDeque::new(), future: VecDeque::new() }
    }

    /// Puts the notes of a freshly loaded beatmap at the start of the song:
    /// all of them are still to come.
    pub fn load(&mut self, hit_objects: &Vec<HitObject>)
        ensures
            final(self).past@.len() == 0,
            final(self).current@.len() == 0,
            final(self).future@ == hit_objects@,
    {
        let mut future: VecDeque<HitObject> = VecDeque::new();
        let mut i: usize = 0;
        while i < hit_objects.len()
            invariant
                i <= hit_objects@.len(),
                future@ == hit_objects@.take(i as int),
            decreases hit_objects@.len() - i,
        {
            future.push_back(hit_objects[i]);
            i += 1;
            proof {
                assert(hit_objects@.take(i as int) =~= hit_objects@.take(i - 1).push(
                    hit_objects@[i - 1],
                ));
            }
        }
        proof {
            assert(hit_objects@.take(i as int) =~= hit_objects@);
        }
        self.future = future;
        self.current.clear();
        self.past.clear();
    }

    /// Moves the timeline to playback position `time` at lane speed
    /// `lane_speed`.
    pub fn advance(&mut self, time: u32, lane_speed: u32)
        requires
            time + lane_speed * 50 <= u32::MAX,
        ensures
            final(self).past@ == advanced(
                old(self).past@,
                old(self).current@,
                old(self).future@,
                time,
                lane_speed,
            ).0,
            final(self).current@ == advanced(
                old(self).past@,
                old(self).current@,
                old(self).future@,
                time,
                lane_speed,
            ).1,
            final(self).future@ == advanced(
                old(self).past@,
                old(self).current@,
                old(self).future@,
                time,
                lane_speed,
            ).2,
    {
        let bound = render_up_to(lane_speed, time);
        let ghost future0 = self.future@;
        let ghost current0 = self.current@;
        let ghost past0 = self.past@;
        let total: usize = self.future.len();
        let mut i: usize = 0;
        proof {
            assert(future0.skip(0) =~= future0);
            assert(current0 + future0.take(0) =~= current0);
        }
        // add future notes
        loop
            invariant
                i <= future0.len(),
                future0.len() == total,
                self.future@ == future0.skip(i as int),
                self.current@ == current0 + future0.take(i as int),
                self.past@ == past0,
                released_count(future0, bound as int) == i + released_count(
                    self.future@,
                    bound as int,
                ),
            ensures
                self.future@.len() == 0 || self.future@[0].time > bound,
            decreases future0.len() - i,
        {
            if self.future.len() == 0 {
                break ;
            }
            if self.future[0].time > bound {
                break ;
            }
            let ghost before = self.future@;
            let object = self.future.pop_front().unwrap();
            self.current.push_back(object);
            proof {
                assert(before.drop_first() =~= self.future@);
                assert(future0.skip(i + 1) =~= before.drop_first());
                assert(self.current@ =~= current0 + future0.take(i + 1));
            }
            i += 1;
        }
        let ghost on_screen = self.current@;
        let on_screen_len: usize = self.current.len();
        let mut j: usize = 0;
        proof {
            assert(on_screen.skip(0) =~= on_screen);
            assert(pass(past0, on_screen, 0) =~= past0);
        }
        // remove old notes
        loop
            invariant
                j <= on_screen.len(),
                on_screen.len() == on_screen_len,
                time + lane_speed * 50 <= u32::MAX,
                self.current@ == on_screen.skip(j as int),
                self.past@ == pass(past0, on_screen, j as int),
                self.future@ == future0.skip(i as int),
                missed_count(on_screen, time, lane_speed) == j + missed_count(
                    self.current@,
                    time,
                    lane_speed,
                ),
            ensures
                self.current@.len() == 0 || !missed(self.current@[0], time, lane_speed),
            decreases on_screen.len() - j,
        {
            if self.current.len() == 0 {
                break ;
            }
            if should_pop_note(&self.current[0], time, lane_speed).is_none() {
                break ;
            }
            let ghost before = self.current@;
            let object = self.current.pop_front().unwrap();
            self.past.push_front(object);
            proof {
                assert(before.drop_first() =~= self.current@);
                assert(on_screen.skip(j + 1) =~= before.drop_first());
                assert(pass(past0, on_screen, j + 1) =~= seq![object] + pass(
                    past0,
                    on_screen,
                    j as int,
                ));
            }
            j += 1;
        }
        proof {
            assert(released_count(future0, bound as int) == i);
            assert(missed_count(on_screen, time, lane_speed) == j);
        }
    }

    /// All the notes of the timeline, from the earliest to the latest.
    pub fn collect_hit_objects(&self) -> (r: Vec<HitObject>)
        ensures
            sorted_by_time(r@),
            r@.to_multiset() == all_notes(self.past@, self.current@, self.future@).to_multiset(),
            forall|time: u32|
                #[trigger] at_time(r@, time) == at_time(
                    all_notes(self.past@, self.current@, self.future@),
                    time,
                ),
    {
        let mut objects: Vec<HitObject> = Vec::new();
        let mut i: usize = 0;
        while i < self.past.len()
            invariant
                i <= self.past@.len(),
                objects@ == self.past@.take(i as int),
            decreases self.past@.len() - i,
        {
            objects.push(self.past[i]);
            i += 1;
            proof {
                assert(self.past@.take(i as int) =~= self.past@.take(i - 1).push(self.past@[i - 1]));
            }
        }
        proof {
            assert(self.past@.take(i as int) =~= self.past@);
        }
        let mut i: usize = 0;
        while i < self.current.len()
            invariant
                i <= self.current@.len(),
                objects@ == self.past@ + self.current@.take(i as int),
            decreases self.current@.len() - i,
        {
            objects.push(self.current[i]);
            i += 1;
            proof {
                assert(self.past@ + self.current@.take(i as int) =~= (self.past@
                    + self.current@.take(i - 1)).push(self.current@[i - 1]));
            }
        }
        proof {
            assert(self.current@.take(i as int) =~= self.current@);
        }
        let mut i: usize = 0;
        while i < self.future.len()
            invariant
                i <= self.future@.len(),
                objects@ == self.past@ + self.current@ + self.future@.take(i as int),
            decreases self.future@.len() - i,
        {
            objects.push(self.future[i]);
            i += 1;
            proof {
                assert(self.past@ + self.current@ + self.future@.take(i as int) =~= (self.past@
                    + self.current@ + self.future@.take(i - 1)).push(self.future@[i - 1]));
            }
        }
        proof {
            assert(self.future@.take(i as int) =~= self.future@);
        }
        sort_by_time(&objects)
    }
}

/// The bpm written when the bpm text of the editor is not a number.
pub const DEFAULT_BPM: u32 = 120;

pub open spec fn is_digit(c: char) -> bool {
    '0' as u32 <= c as u32 <= '9' as u32
}

/// The number written by the decimal digits `s`.
pub open spec fn digits_value(s: Seq<char>) -> int
    decreases s.len(),
{
    if s.len() == 0 {
        0
    } else {
        digits_value(s.drop_last()) * 10 + (s.last() as u32 - '0' as u32)
    }
}

/// The unsigned 32-bit number that `s` writes in decimal: an optional `+`
/// followed by one or more digits and nothing else, of a value that fits.
pub open spec fn parsed_u32(s: Seq<char>) -> Option<u32> {
    let digits = if s.len() > 0 && s[0] == '+' {
        s.drop_first()
    } else {
        s
    };
    if digits.len() > 0 && (forall|i: int| 0 <= i < digits.len() ==> is_digit(#[trigger] digits[i]))
        && digits_value(digits) <= u32::MAX {
        Some(digits_value(digits) as u32)
    } else {
        None
    }
}

/// `str::parse::<u32>`: as its documentation states, an optional `+`
/// followed by decimal digits only, whose value fits in 32 bits, parses to
/// that value; any other text (empty, signs alone, other characters,
/// whitespace, overflow) is an error.
#[verifier::external_body]
fn parse_u32(text: &str) -> (r: Option<u32>)
    ensures
        r == parsed_u32(text@),
{
    text.parse::<u32>().ok()
}

/// The bpm that the editor saves for its bpm text: the number it writes,
/// or 120 where it writes none.
pub fn bpm_from_text(text: &str) -> (r: u32)
    ensures
        r == match parsed_u32(text@) {
            Some(bpm) => bpm,
            None => DEFAULT_BPM,
        },
{
    match parse_u32(text) {
        Some(bpm) => bpm,
        None => DEFAULT_BPM,
    }
}

/// The bpm text writes a number, so the editor accepts it.
pub fn bpm_text_is_number(text: &str) -> (r: bool)
    ensures
        r == parsed_u32(text@) is Some,
{
    parse_u32(text).is_some()
}

} // verus!
