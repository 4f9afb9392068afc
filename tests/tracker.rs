use multitouch::tracker::{find_nearest_fingers, manage_fingers, Finger};

fn finger(id: i32, history: Vec<(i32, i32)>, age: i32) -> Finger {
    Finger { id, history, age }
}

fn summary(fingers: &Vec<Finger>) -> Vec<(i32, Vec<(i32, i32)>, i32)> {
    fingers.iter().map(|f| (f.id, f.history.clone(), f.age)).collect()
}

#[test]
fn bootstrap_opens_one_track_per_detection() {
    let mut fingers: Vec<Finger> = Vec::new();
    manage_fingers(&mut fingers, &vec![(10, 10), (200, 50), (40, 300)]);
    assert_eq!(
        summary(&fingers),
        vec![
            (0, vec![(10, 10)], 0),
            (1, vec![(200, 50)], 0),
            (2, vec![(40, 300)], 0),
        ]
    );
}

#[test]
fn bootstrap_with_no_detections_stays_empty() {
    let mut fingers: Vec<Finger> = Vec::new();
    manage_fingers(&mut fingers, &Vec::new());
    assert!(fingers.is_empty());
}

#[test]
fn two_detections_near_one_track_both_extend_it() {
    let mut fingers: Vec<Finger> = Vec::new();
    manage_fingers(&mut fingers, &vec![(10, 10)]);
    // Both lie at squared distance 25 from (10, 10), and 100 from each other.
    manage_fingers(&mut fingers, &vec![(15, 10), (5, 10)]);
    assert_eq!(summary(&fingers), vec![(0, vec![(10, 10), (15, 10), (5, 10)], 1)]);
}

#[test]
fn track_lifecycle_three_seen_four_missing() {
    let mut fingers: Vec<Finger> = Vec::new();
    for _ in 0..3 {
        manage_fingers(&mut fingers, &vec![(50, 60)]);
    }
    assert_eq!(summary(&fingers), vec![(0, vec![(50, 60), (50, 60), (50, 60)], 2)]);
    manage_fingers(&mut fingers, &Vec::new());
    manage_fingers(&mut fingers, &Vec::new());
    assert_eq!(summary(&fingers), vec![(0, vec![(50, 60), (50, 60), (50, 60)], 4)]);
    manage_fingers(&mut fingers, &Vec::new());
    assert!(fingers.is_empty());
    manage_fingers(&mut fingers, &Vec::new());
    assert!(fingers.is_empty());
    manage_fingers(&mut fingers, &vec![(50, 60)]);
    assert_eq!(summary(&fingers), vec![(0, vec![(50, 60)], 0)]);
}

#[test]
fn unmatched_detection_gets_collection_size_as_id() {
    let mut fingers = vec![finger(0, vec![(0, 0)], 0)];
    manage_fingers(&mut fingers, &vec![(100, 100), (3, 4)]);
    assert_eq!(
        summary(&fingers),
        vec![(0, vec![(0, 0), (3, 4)], 1), (1, vec![(100, 100)], 1)]
    );
}

#[test]
fn ids_repeat_after_an_eviction() {
    let mut fingers: Vec<Finger> = Vec::new();
    manage_fingers(&mut fingers, &vec![(0, 0)]);
    for _ in 0..3 {
        manage_fingers(&mut fingers, &Vec::new());
    }
    manage_fingers(&mut fingers, &vec![(500, 500)]);
    manage_fingers(&mut fingers, &vec![(900, 900)]);
    assert_eq!(
        summary(&fingers),
        vec![(1, vec![(500, 500)], 2), (2, vec![(900, 900)], 1)]
    );
    manage_fingers(&mut fingers, &vec![(300, 300)]);
    let ids: Vec<i32> = fingers.iter().map(|f| f.id).collect();
    assert_eq!(ids, vec![1, 2, 2]);
}

#[test]
fn matched_tracks_age_too() {
    let mut fingers = vec![finger(7, vec![(1, 1)], 4)];
    manage_fingers(&mut fingers, &vec![(1, 2)]);
    assert!(fingers.is_empty());
}

#[test]
fn matching_uses_positions_from_before_the_update() {
    // The second detection is close to where the first one moved the track,
    // but too far from where the track was.
    let mut fingers = vec![finger(0, vec![(0, 0)], 0)];
    manage_fingers(&mut fingers, &vec![(9, 0), (18, 0)]);
    assert_eq!(
        summary(&fingers),
        vec![(0, vec![(0, 0), (9, 0)], 1), (1, vec![(18, 0)], 1)]
    );
}

#[test]
fn nearest_picks_least_distance() {
    let fingers = vec![
        finger(0, vec![(0, 0), (20, 20)], 0),
        finger(1, vec![(3, 0)], 0),
        finger(2, vec![(1, 1)], 0),
    ];
    assert_eq!(find_nearest_fingers((0, 0), &fingers, 100), Some(2));
}

#[test]
fn nearest_tie_goes_to_first_track() {
    let fingers = vec![
        finger(0, vec![(30, 30)], 0),
        finger(1, vec![(2, 0)], 0),
        finger(2, vec![(0, 2)], 0),
    ];
    assert_eq!(find_nearest_fingers((0, 0), &fingers, 100), Some(1));
}

#[test]
fn nearest_threshold_is_strict() {
    let fingers = vec![finger(0, vec![(6, 8)], 0)];
    assert_eq!(find_nearest_fingers((0, 0), &fingers, 100), None);
    assert_eq!(find_nearest_fingers((0, 0), &fingers, 101), Some(0));
}

#[test]
fn nearest_of_no_tracks_is_none() {
    assert_eq!(find_nearest_fingers((0, 0), &Vec::new(), 100), None);
}

#[test]
fn nearest_handles_extreme_coordinates() {
    let fingers = vec![finger(0, vec![(i32::MIN, i32::MIN)], 0)];
    assert_eq!(find_nearest_fingers((i32::MAX, i32::MAX), &fingers, i32::MAX), None);
    let mut fingers = fingers;
    manage_fingers(&mut fingers, &vec![(i32::MAX, i32::MAX)]);
    assert_eq!(fingers.len(), 2);
    assert_eq!(fingers[1].id, 1);
}
