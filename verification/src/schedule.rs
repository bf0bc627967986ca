//! The demo's timeline: scenes played one after another, each for a fixed time.

use vstd::prelude::*;

verus! {

/// The scenes of the demo.
#[derive(PartialEq, Eq, Structural, Clone, Copy, Debug)]
pub enum Scene {
    /// A loading bar fills up.
    Loading,
    /// The loading bar falls down and fades out.
    Dropping,
    /// The bar shrinks into a square over a rising mountain landscape.
    Undrop,
    /// The square rolls along while a message scrolls by.
    Walking,
    /// The landscape and the message leave the screen.
    Walkoff,
    /// The rotating tesseract.
    Hyper,
}

/// One entry of the timeline: a scene and how long it plays, in milliseconds.
#[derive(PartialEq, Eq, Structural, Clone, Copy, Debug)]
pub struct Slot {
    pub scene: Scene,
    pub duration_ms: u64,
}

/// When slot `i` starts: the sum of the durations of the slots before it.
pub open spec fn start_of(schedule: Seq<Slot>, i: int) -> int
    decreases i,
{
    if i <= 0 {
        0
    } else {
        start_of(schedule, i - 1) + schedule[i - 1].duration_ms
    }
}

/// The timeline's total length.
pub open spec fn total_of(schedule: Seq<Slot>) -> int {
    start_of(schedule, schedule.len() as int)
}

/// Slot `i` plays at `time_ms`: it started at or before it and has not ended yet.
pub open spec fn plays_at(schedule: Seq<Slot>, i: int, time_ms: int) -> bool {
    &&& 0 <= i < schedule.len()
    &&& start_of(schedule, i) <= time_ms < start_of(schedule, i + 1)
}

/// A slot never starts before an earlier one.
pub proof fn lemma_start_monotone(schedule: Seq<Slot>, i: int, j: int)
    requires
        0 <= i <= j,
    ensures
        start_of(schedule, i) <= start_of(schedule, j),
    decreases j - i,
{
    if i < j {
        lemma_start_monotone(schedule, i, j - 1);
    }
}

/// The demo's timeline: loading 2 s, dropping 1.5 s, undrop 2.5 s, walking 20 s,
/// walkoff 2 s, then the tesseract for 1000 s.
pub fn demo_schedule() -> (schedule: Vec<Slot>)
    ensures
        schedule@ == seq![
            Slot { scene: Scene::Loading, duration_ms: 2000 },
            Slot { scene: Scene::Dropping, duration_ms: 1500 },
            Slot { scene: Scene::Undrop, duration_ms: 2500 },
            Slot { scene: Scene::Walking, duration_ms: 20000 },
            Slot { scene: Scene::Walkoff, duration_ms: 2000 },
            Slot { scene: Scene::Hyper, duration_ms: 1000000 },
        ],
{
    vec![
        Slot { scene: Scene::Loading, duration_ms: 2000 },
        Slot { scene: Scene::Dropping, duration_ms: 1500 },
        Slot { scene: Scene::Undrop, duration_ms: 2500 },
        Slot { scene: Scene::Walking, duration_ms: 20000 },
        Slot { scene: Scene::Walkoff, duration_ms: 2000 },
        Slot { scene: Scene::Hyper, duration_ms: 1000000 },
    ]
}

/// Finds the slot that plays at `time_ms`: `Some((i, elapsed))` with `elapsed` the
/// time since slot `i` started, or `None` once the whole timeline has played.
pub fn scene_at(schedule: &Vec<Slot>, time_ms: u64) -> (found: Option<(usize, u64)>)
    ensures
        found is None <==> time_ms >= total_of(schedule@),
        found matches Some((i, elapsed)) ==> {
            &&& plays_at(schedule@, i as int, time_ms as int)
            &&& elapsed == time_ms - start_of(schedule@, i as int)
            &&& elapsed < schedule@[i as int].duration_ms
        },
{
    let mut runtime: u64 = 0;
    let mut i: usize = 0;
    while i < schedule.len()
        invariant
            i <= schedule.len(),
            runtime == start_of(schedule@, i as int),
            runtime <= time_ms,
        decreases schedule.len() - i,
    {
        let duration = schedule[i].duration_ms;
        if time_ms - runtime < duration {
            proof {
                lemma_start_monotone(schedule@, i + 1, schedule.len() as int);
            }
            return Some((i, time_ms - runtime));
        }
        runtime = runtime + duration;
        i = i + 1;
    }
    None
}

/// At any time at most one slot plays: the slots split the timeline into
/// consecutive, non-overlapping stretches.
pub proof fn lemma_one_slot_at_a_time(schedule: Seq<Slot>, i: int, j: int, time_ms: int)
    requires
        plays_at(schedule, i, time_ms),
        plays_at(schedule, j, time_ms),
    ensures
        i == j,
{
    if i < j {
        lemma_start_monotone(schedule, i + 1, j);
    } else if j < i {
        lemma_start_monotone(schedule, j + 1, i);
    }
}

/// Scenes play in timeline order: as time goes on, the slot that plays never goes back.
pub proof fn lemma_scenes_advance(schedule: Seq<Slot>, i1: int, t1: int, i2: int, t2: int)
    requires
        plays_at(schedule, i1, t1),
        plays_at(schedule, i2, t2),
        t1 <= t2,
    ensures
        i1 <= i2,
{
    if i2 < i1 {
        lemma_start_monotone(schedule, i2 + 1, i1);
    }
}

} // verus!
