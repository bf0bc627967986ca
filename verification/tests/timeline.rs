use hyperdemo::schedule::{demo_schedule, scene_at, Scene, Slot};

#[test]
fn demo_timeline_entries() {
    let schedule = demo_schedule();
    assert_eq!(schedule.len(), 6);
    assert_eq!(schedule[0], Slot { scene: Scene::Loading, duration_ms: 2000 });
    assert_eq!(schedule[3], Slot { scene: Scene::Walking, duration_ms: 20000 });
    assert_eq!(schedule[5], Slot { scene: Scene::Hyper, duration_ms: 1000000 });
}

#[test]
fn scene_boundaries() {
    let schedule = demo_schedule();
    assert_eq!(scene_at(&schedule, 0), Some((0, 0)));
    assert_eq!(scene_at(&schedule, 1999), Some((0, 1999)));
    assert_eq!(scene_at(&schedule, 2000), Some((1, 0)));
    assert_eq!(scene_at(&schedule, 3499), Some((1, 1499)));
    assert_eq!(scene_at(&schedule, 3500), Some((2, 0)));
    assert_eq!(scene_at(&schedule, 6000), Some((3, 0)));
    assert_eq!(scene_at(&schedule, 16000), Some((3, 10000)));
    assert_eq!(scene_at(&schedule, 26000), Some((4, 0)));
    assert_eq!(scene_at(&schedule, 28000), Some((5, 0)));
    assert_eq!(scene_at(&schedule, 1027999), Some((5, 999999)));
}

#[test]
fn after_the_timeline_nothing_plays() {
    let schedule = demo_schedule();
    assert_eq!(scene_at(&schedule, 1028000), None);
    assert_eq!(scene_at(&schedule, u64::MAX), None);
    assert_eq!(scene_at(&Vec::new(), 0), None);
}

#[test]
fn empty_slots_are_skipped() {
    let schedule = vec![
        Slot { scene: Scene::Loading, duration_ms: 0 },
        Slot { scene: Scene::Hyper, duration_ms: 5 },
    ];
    assert_eq!(scene_at(&schedule, 0), Some((1, 0)));
    assert_eq!(scene_at(&schedule, 4), Some((1, 4)));
    assert_eq!(scene_at(&schedule, 5), None);
}

#[test]
fn scenes_never_go_back() {
    let schedule = demo_schedule();
    let mut last = 0;
    for t in (0..1030000u64).step_by(250) {
        match scene_at(&schedule, t) {
            Some((i, elapsed)) => {
                assert!(i >= last);
                assert!(elapsed < schedule[i].duration_ms);
                last = i;
            }
            None => assert!(t >= 1028000),
        }
    }
}
