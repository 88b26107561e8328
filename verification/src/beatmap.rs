use vstd::prelude::*;

verus! {

broadcast use vstd::seq_lib::group_to_multiset_ensures;

/// Which of the two lanes a hit object travels along.
#[derive(Debug, Clone, Copy, PartialEq, Eq, Structural)]
pub enum Lane {
    Up,
    Down,
}

/// The kind of a hit object.
#[derive(Debug, Clone, Copy, PartialEq, Eq, Structural)]
pub enum HitObjectType {
    Chip,
    Long,
}

/// One note of a beatmap.
#[derive(Debug, Clone, Copy, PartialEq, Eq, Structural)]
pub struct HitObject {
    /// The time in ms, from the beginning of the song.
    pub time: u32,
    pub lane: Lane,
    pub kind: HitObjectType,
}

/// Metadata associated with a Beatmap.
///
/// The difficulty level is a single-precision number; it is kept here as
/// the bit pattern of that number, which the library never interprets.
#[derive(Debug)]
pub struct BeatmapMeta {
    pub title: String,
    pub artist: String,
    pub mapper: String,
    pub level_bits: u32,
    pub level_name: String,
}

/// The full data for one level.
#[derive(Debug)]
pub struct Beatmap {
    pub meta: BeatmapMeta,
    pub bpm: u32,
    /// Affects where the bar lines are drawn, if enabled.
    pub beats_per_bar: u8,
    /// Location of the song, relative to the songs folder.
    pub audio_path: String,
    pub hit_objects: Vec<HitObject>,
}

/// `s` lists its hit objects from the earliest to the latest.
pub open spec fn sorted_by_time(s: Seq<HitObject>) -> bool {
    forall|i: int, j: int| 0 <= i <= j < s.len() ==> s[i].time <= s[j].time
}

impl Default for BeatmapMeta {
    fn default() -> (r: Self)
        ensures
            r.title@ == Seq::<char>::empty(),
            r.artist@ == Seq::<char>::empty(),
            r.mapper@ == Seq::<char>::empty(),
            r.level_bits == 0,
            r.level_name@ == Seq::<char>::empty(),
    {
        BeatmapMeta {
            title: String::new(),
            artist: String::new(),
            mapper: String::new(),
            level_bits: 0,
            level_name: String::new(),
        }
    }
}

impl Default for Beatmap {
    fn default() -> (r: Self)
        ensures
            r.meta.title@ == Seq::<char>::empty(),
            r.meta.artist@ == Seq::<char>::empty(),
            r.meta.mapper@ == Seq::<char>::empty(),
            r.meta.level_bits == 0,
            r.meta.level_name@ == Seq::<char>::empty(),
            r.bpm == 0,
            r.beats_per_bar == 0,
            r.audio_path@ == Seq::<char>::empty(),
            r.hit_objects@ == Seq::<HitObject>::empty(),
    {
        Beatmap {
            meta: BeatmapMeta::default(),
            bpm: 0,
            beats_per_bar: 0,
            audio_path: String::new(),
            hit_objects: Vec::new(),
        }
    }
}

/// A copy of a list of hit objects.
pub fn copy_hit_objects(objects: &Vec<HitObject>) -> (r: Vec<HitObject>)
    ensures
        r@ == objects@,
{
    let mut r: Vec<HitObject> = Vec::new();
    let mut i: usize = 0;
    while i < objects.len()
        invariant
            i <= objects.len(),
            r@ == objects@.take(i as int),
        decreases objects.len() - i,
    {
        r.push(objects[i]);
        i += 1;
        proof {
            assert(objects@.take(i as int) =~= objects@.take(i - 1).push(objects@[i - 1]));
        }
    }
    proof {
        assert(objects@.take(i as int) =~= objects@);
    }
    r
}

impl BeatmapMeta {
    /// A copy of this metadata.
    pub fn duplicate(&self) -> (r: Self)
        ensures
            r == *self,
    {
        BeatmapMeta {
            title: self.title.clone(),
            artist: self.artist.clone(),
            mapper: self.mapper.clone(),
            level_bits: self.level_bits,
            level_name: self.level_name.clone(),
        }
    }
}

/// `a` and `b` hold the same beatmap.
pub open spec fn same_beatmap(a: Beatmap, b: Beatmap) -> bool {
    &&& a.meta == b.meta
    &&& a.bpm == b.bpm
    &&& a.beats_per_bar == b.beats_per_bar
    &&& a.audio_path == b.audio_path
    &&& a.hit_objects@ == b.hit_objects@
}

impl Beatmap {
    /// A copy of this beatmap.
    pub fn duplicate(&self) -> (r: Self)
        ensures
            same_beatmap(r, *self),
    {
        Beatmap {
            meta: self.meta.duplicate(),
            bpm: self.bpm,
            beats_per_bar: self.beats_per_bar,
            audio_path: self.audio_path.clone(),
            hit_objects: copy_hit_objects(&self.hit_objects),
        }
    }
}

/// The hit objects of `s` at `time`, in order.
pub open spec fn at_time(s: Seq<HitObject>, time: u32) -> Seq<HitObject>
    decreases s.len(),
{
    if s.len() == 0 {
        s
    } else if s.last().time == time {
        at_time(s.drop_last(), time).push(s.last())
    } else {
        at_time(s.drop_last(), time)
    }
}

pub proof fn lemma_at_time_concat(a: Seq<HitObject>, b: Seq<HitObject>, time: u32)
    ensures
        at_time(a + b, time) == at_time(a, time) + at_time(b, time),
    decreases b.len(),
{
    if b.len() == 0 {
        assert(a + b =~= a);
        assert(at_time(a, time) + at_time(b, time) =~= at_time(a, time));
    } else {
        lemma_at_time_concat(a, b.drop_last(), time);
        assert((a + b).drop_last() =~= a + b.drop_last());
        if b.last().time == time {
            assert(at_time(a, time) + at_time(b, time) =~= (at_time(a, time) + at_time(
                b.drop_last(),
                time,
            )).push(b.last()));
        }
    }
}

/// Where every object of `s` is later than `time`, none is at `time`.
pub proof fn lemma_at_time_none(s: Seq<HitObject>, time: u32)
    requires
        forall|k: int| 0 <= k < s.len() ==> s[k].time > time,
    ensures
        at_time(s, time) == Seq::<HitObject>::empty(),
    decreases s.len(),
{
    if s.len() > 0 {
        lemma_at_time_none(s.drop_last(), time);
    }
}

/// Inserting `x` after the objects no later than it and before the later
/// ones keeps a list in time order, and adds `x` at the end of the objects
/// at its time.
pub proof fn lemma_insert_in_order(before: Seq<HitObject>, pos: int, x: HitObject)
    requires
        0 <= pos <= before.len(),
        sorted_by_time(before),
        forall|k: int| 0 <= k < pos ==> before[k].time <= x.time,
        pos < before.len() ==> before[pos].time > x.time,
    ensures
        sorted_by_time(before.insert(pos, x)),
        forall|time: u32|
            #[trigger] at_time(before.insert(pos, x), time) == if x.time == time {
                at_time(before, time).push(x)
            } else {
                at_time(before, time)
            },
{
    let r = before.insert(pos, x);
    before.insert_ensures(pos, x);
    assert forall|a: int, b: int| 0 <= a <= b < r.len() implies r[a].time <= r[b].time by {
        if a < pos && b < pos {
        } else if a < pos && b == pos {
        } else if a < pos {
            assert(r[b] == before[b - 1]);
        } else if a == pos && b == pos {
        } else if a == pos {
            assert(r[b] == before[b - 1]);
        } else {
            assert(r[a] == before[a - 1]);
            assert(r[b] == before[b - 1]);
        }
    }
    let head = before.take(pos);
    let tail = before.skip(pos);
    assert(before =~= head + tail);
    assert(r =~= head.push(x) + tail);
    assert forall|time: u32| #[trigger] at_time(r, time) == if x.time == time {
        at_time(before, time).push(x)
    } else {
        at_time(before, time)
    } by {
        lemma_at_time_concat(head, tail, time);
        lemma_at_time_concat(head.push(x), tail, time);
        assert(head.push(x).drop_last() =~= head);
        if x.time == time {
            assert forall|k: int| 0 <= k < tail.len() implies tail[k].time > time by {
                assert(tail[k] == before[pos + k]);
            }
            lemma_at_time_none(tail, time);
            assert(at_time(head, time) + at_time(tail, time) =~= at_time(head, time));
            assert(at_time(head.push(x), time) + at_time(tail, time) =~= at_time(
                head.push(x),
                time,
            ));
        }
    }
}

/// The hit objects of `objects`, ordered from the earliest to the latest;
/// objects with equal times keep their relative order.
pub fn sort_by_time(objects: &Vec<HitObject>) -> (r: Vec<HitObject>)
    ensures
        sorted_by_time(r@),
        r@.to_multiset() == objects@.to_multiset(),
        forall|time: u32| #[trigger] at_time(r@, time) == at_time(objects@, time),
{
    let mut r: Vec<HitObject> = Vec::new();
    let mut i: usize = 0;
    while i < objects.len()
        invariant
            i <= objects.len(),
            r@.len() == i,
            sorted_by_time(r@),
            r@.to_multiset() == objects@.take(i as int).to_multiset(),
            forall|time: u32| #[trigger] at_time(r@, time) == at_time(objects@.take(i as int), time),
        decreases objects.len() - i,
    {
        let x = objects[i];
        // the first position that holds a later object
        let mut pos: usize = 0;
        while pos < r.len() && r[pos].time <= x.time
            invariant
                pos <= r@.len(),
                forall|k: int| 0 <= k < pos ==> r@[k].time <= x.time,
            decreases r@.len() - pos,
        {
            pos += 1;
        }
        let ghost before = r@;
        r.insert(pos, x);
        proof {
            before.insert_ensures(pos as int, x);
            assert(objects@.take(i + 1) =~= objects@.take(i as int).push(x));
            lemma_insert_in_order(before, pos as int, x);
            assert forall|time: u32| #[trigger] at_time(r@, time) == at_time(
                objects@.take(i + 1),
                time,
            ) by {
                assert(objects@.take(i + 1).drop_last() =~= objects@.take(i as int));
            }
        }
        i += 1;
    }
    proof {
        assert(objects@.take(i as int) =~= objects@);
    }
    r
}

} // verus!
