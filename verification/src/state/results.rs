use vstd::prelude::*;

use crate::beatmap::{Beatmap, same_beatmap};
use crate::state::playing::{Accuracy, Judgement, bads, greats, miss_count, okays, perfects};
use crate::update::StateTransition;

verus! {

/// Payload carried by the `StateTransition::Results` transition.
pub struct ResultsData {
    pub score: u32,
    pub accuracy: Accuracy,
    pub judgements: Vec<(Judgement, u32)>,
    pub beatmap: Beatmap,
}

/// The state of the results screen.
pub struct ResultsLogicData {
    pub score: u32,
    pub accuracy: Accuracy,
    pub judgements: Vec<(Judgement, u32)>,
    pub beatmap: Beatmap,
}

/// The buttons of the results screen.
#[derive(Debug, Clone, Copy, PartialEq, Eq, Structural)]
pub enum ResultsEvent {
    MainMenu,
    Retry,
}

/// How many judgements of each kind were taken.
#[derive(Debug, Clone, Copy, PartialEq, Eq, Structural)]
pub struct JudgementCounts {
    pub perfect: u32,
    pub great: u32,
    pub okay: u32,
    pub bad: u32,
    pub miss: u32,
}

/// The kind of a judgement, from 0 (Perfect) to 4 (Miss).
pub open spec fn kind_of(j: Judgement) -> int {
    match j {
        Judgement::Perfect(_) => 0,
        Judgement::Great(_) => 1,
        Judgement::Okay(_) => 2,
        Judgement::Bad(_) => 3,
        Judgement::Miss(_) => 4,
    }
}

/// How many of the judgements in `s` are of kind `kind`.
pub open spec fn count_kind(s: Seq<(Judgement, u32)>, kind: int) -> int
    decreases s.len(),
{
    if s.len() == 0 {
        0
    } else {
        count_kind(s.drop_last(), kind) + if kind_of(s.last().0) == kind {
            1int
        } else {
            0int
        }
    }
}

/// Each judgement is counted under exactly one kind.
pub proof fn lemma_counts_add_up(s: Seq<(Judgement, u32)>)
    ensures
        count_kind(s, 0) + count_kind(s, 1) + count_kind(s, 2) + count_kind(s, 3) + count_kind(s, 4)
            == s.len(),
        forall|k: int| 0 <= k <= 4 ==> 0 <= #[trigger] count_kind(s, k) <= s.len(),
    decreases s.len(),
{
    if s.len() > 0 {
        lemma_counts_add_up(s.drop_last());
    }
}

/// Each kind's count is the number of judgements of that variant.
pub proof fn lemma_count_kind_by_variant(s: Seq<(Judgement, u32)>)
    ensures
        count_kind(s, 0) == perfects(s),
        count_kind(s, 1) == greats(s),
        count_kind(s, 2) == okays(s),
        count_kind(s, 3) == bads(s),
        count_kind(s, 4) == miss_count(s),
    decreases s.len(),
{
    if s.len() > 0 {
        lemma_count_kind_by_variant(s.drop_last());
    }
}

/// Counts the judgements of each kind.
pub fn count_judgements(judgements: &[(Judgement, u32)]) -> (r: JudgementCounts)
    requires
        forall|k: int| 0 <= k <= 4 ==> #[trigger] count_kind(judgements@, k) <= u32::MAX,
    ensures
        r.perfect == count_kind(judgements@, 0),
        r.great == count_kind(judgements@, 1),
        r.okay == count_kind(judgements@, 2),
        r.bad == count_kind(judgements@, 3),
        r.miss == count_kind(judgements@, 4),
        r.perfect == perfects(judgements@),
        r.great == greats(judgements@),
        r.okay == okays(judgements@),
        r.bad == bads(judgements@),
        r.miss == miss_count(judgements@),
{
    let mut counts = JudgementCounts { perfect: 0, great: 0, okay: 0, bad: 0, miss: 0 };
    let mut i: usize = 0;
    while i < judgements.len()
        invariant
            i <= judgements@.len(),
            forall|k: int| 0 <= k <= 4 ==> #[trigger] count_kind(judgements@, k) <= u32::MAX,
            counts.perfect == count_kind(judgements@.take(i as int), 0),
            counts.great == count_kind(judgements@.take(i as int), 1),
            counts.okay == count_kind(judgements@.take(i as int), 2),
            counts.bad == count_kind(judgements@.take(i as int), 3),
            counts.miss == count_kind(judgements@.take(i as int), 4),
        decreases judgements@.len() - i,
    {
        proof {
            let prefix = judgements@.take(i + 1);
            assert(prefix.drop_last() =~= judgements@.take(i as int));
            lemma_count_prefix_bounded(judgements@, i + 1);
            assert(prefix.last() == judgements@[i as int]);
            assert forall|k: int| 0 <= k <= 4 implies #[trigger] count_kind(prefix, k) <= u32::MAX by {
                assert(count_kind(prefix, k) <= count_kind(judgements@, k));
            }
            assert(count_kind(prefix, 0) <= u32::MAX);
            assert(count_kind(prefix, 1) <= u32::MAX);
            assert(count_kind(prefix, 2) <= u32::MAX);
            assert(count_kind(prefix, 3) <= u32::MAX);
            assert(count_kind(prefix, 4) <= u32::MAX);
        }
        match judgements[i].0 {
            Judgement::Perfect(_) => counts.perfect = counts.perfect + 1,
            Judgement::Great(_) => counts.great = counts.great + 1,
            Judgement::Okay(_) => counts.okay = counts.okay + 1,
            Judgement::Bad(_) => counts.bad = counts.bad + 1,
            Judgement::Miss(_) => counts.miss = counts.miss + 1,
        }
        i += 1;
    }
    proof {
        assert(judgements@.take(i as int) =~= judgements@);
        lemma_count_kind_by_variant(judgements@);
    }
    counts
}

/// A prefix holds no more judgements of a kind than the whole.
pub proof fn lemma_count_prefix_bounded(s: Seq<(Judgement, u32)>, len: int)
    requires
        0 <= len <= s.len(),
    ensures
        forall|k: int| #[trigger] count_kind(s.take(len), k) <= count_kind(s, k),
    decreases s.len() - len,
{
    if len < s.len() {
        lemma_count_prefix_bounded(s, len + 1);
        assert(s.take(len + 1).drop_last() =~= s.take(len));
        assert forall|k: int| #[trigger] count_kind(s.take(len), k) <= count_kind(s, k) by {
            assert(count_kind(s.take(len + 1), k) >= count_kind(s.take(len), k));
        }
    } else {
        assert(s.take(len) =~= s);
    }
}

impl ResultsLogicData {
    /// The move that a button of the results screen asks for: back to the
    /// main menu, or the same beatmap again.
    pub fn handle_event(&self, event: ResultsEvent) -> (r: StateTransition)
        ensures
            event == ResultsEvent::MainMenu ==> r is MainMenu,
            event == ResultsEvent::Retry ==> (r matches StateTransition::StartBeatmap(b)
                && same_beatmap(b, self.beatmap)),
    {
        match event {
            ResultsEvent::MainMenu => StateTransition::MainMenu,
            ResultsEvent::Retry => StateTransition::StartBeatmap(self.beatmap.duplicate()),
        }
    }

    /// How many judgements of each kind the player took.
    pub fn counts(&self) -> (r: JudgementCounts)
        requires
            self.judgements@.len() <= u32::MAX,
        ensures
            r.perfect == count_kind(self.judgements@, 0),
            r.great == count_kind(self.judgements@, 1),
            r.okay == count_kind(self.judgements@, 2),
            r.bad == count_kind(self.judgements@, 3),
            r.miss == count_kind(self.judgements@, 4),
            r.perfect == perfects(self.judgements@),
            r.great == greats(self.judgements@),
            r.okay == okays(self.judgements@),
            r.bad == bads(self.judgements@),
            r.miss == miss_count(self.judgements@),
    {
        proof {
            lemma_counts_add_up(self.judgements@);
        }
        count_judgements(self.judgements.as_slice())
    }
}

} // verus!
