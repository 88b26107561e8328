use vstd::prelude::*;

use crate::beatmap::{Beatmap, BeatmapMeta, HitObject, HitObjectType, Lane};

verus! {

/// The bit pattern of the difficulty level 9.5.
pub const LEVEL_NINE_AND_A_HALF: u32 = 0x4118_0000;

/// The note that the song started from the main menu has at position `i`:
/// a chip every 500 ms, alternating between the upper and the lower lane.
pub open spec fn starter_note(i: int) -> HitObject {
    HitObject {
        time: (i * 500) as u32,
        lane: if i % 2 == 0 {
            Lane::Up
        } else {
            Lane::Down
        },
        kind: HitObjectType::Chip,
    }
}

/// The song that the Start button of the main menu plays: a hundred chips
/// at 200 bpm.
pub fn starter_beatmap() -> (r: Beatmap)
    ensures
        r.hit_objects@.len() == 100,
        forall|i: int| 0 <= i < 100 ==> #[trigger] r.hit_objects@[i] == starter_note(i),
        r.meta.title@ == "Exit This Earth's Atmosphere"@,
        r.meta.artist@ == "Camellia"@,
        r.meta.mapper@ == "teatowel"@,
        r.meta.level_name@ == "evil"@,
        r.meta.level_bits == LEVEL_NINE_AND_A_HALF,
        r.bpm == 200,
        r.beats_per_bar == 4,
        r.audio_path@ == "music.wav"@,
{
    let mut hit_objects: Vec<HitObject> = Vec::new();
    let mut i: u32 = 0;
    while i < 100
        invariant
            i <= 100,
            hit_objects@.len() == i,
            forall|k: int| 0 <= k < i ==> #[trigger] hit_objects@[k] == starter_note(k),
        decreases 100 - i,
    {
        hit_objects.push(
            HitObject {
                time: i * 500,
                lane: if i % 2 == 0 {
                    Lane::Up
                } else {
                    Lane::Down
                },
                kind: HitObjectType::Chip,
            },
        );
        i += 1;
    }
    Beatmap {
        meta: BeatmapMeta {
            title: "Exit This Earth's Atmosphere".to_owned(),
            artist: "Camellia".to_owned(),
            mapper: "teatowel".to_owned(),
            level_name: "evil".to_owned(),
            level_bits: LEVEL_NINE_AND_A_HALF,
        },
        bpm: 200,
        beats_per_bar: 4,
        audio_path: "music.wav".to_owned(),
        hit_objects,
    }
}

} // verus!
