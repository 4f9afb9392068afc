use multitouch::detector::{
    accepted_contours, contour_is_finger, detect_fingers, ellipse_accepted, worth_fitting,
    ContourSummary, EllipseFit,
};

fn disk(x: i32, y: i32, diameter: u32) -> EllipseFit {
    EllipseFit { center_x: x, center_y: y, width: diameter, height: diameter }
}

fn contour(next_sibling: i32, doubled_area: u64, n_points: usize, fit: Option<EllipseFit>) -> ContourSummary {
    ContourSummary { next_sibling, doubled_area, n_points, fit }
}

#[test]
fn disk_of_50_px_gives_one_detection_at_its_center() {
    // Area 50 px²: diameter 7.979 px, scaled area 12.5.
    let contours = vec![contour(-1, 100, 20, Some(disk(40, 30, 7979)))];
    assert_eq!(detect_fingers(&contours), vec![(40, 30)]);
    assert_eq!(accepted_contours(&contours), vec![0]);
}

#[test]
fn disk_with_scaled_area_500_is_rejected() {
    // Scaled area pi * (w / 4)² = 500.007 for a diameter of 50.463 px.
    let e = disk(40, 30, 50463);
    assert!(!ellipse_accepted(&e));
    let contours = vec![contour(-1, 4000, 40, Some(e))];
    assert!(detect_fingers(&contours).is_empty());
}

#[test]
fn disk_of_500_px_has_scaled_area_125_and_is_kept() {
    // The scaled area is a quarter of the true area: 500 px² scale to 125.
    assert!(ellipse_accepted(&disk(0, 0, 25231)));
}

#[test]
fn elongated_ellipse_is_rejected() {
    let wide = EllipseFit { center_x: 5, center_y: 5, width: 15000, height: 5000 };
    let tall = EllipseFit { center_x: 5, center_y: 5, width: 5000, height: 15000 };
    assert!(!ellipse_accepted(&wide));
    assert!(!ellipse_accepted(&tall));
    let contours = vec![contour(-1, 200, 30, Some(wide))];
    assert!(detect_fingers(&contours).is_empty());
}

#[test]
fn axis_ratio_of_two_and_a_half_is_kept() {
    let e = EllipseFit { center_x: 5, center_y: 5, width: 10000, height: 4000 };
    assert!(ellipse_accepted(&e));
    let e = EllipseFit { center_x: 5, center_y: 5, width: 10001, height: 4000 };
    assert!(!ellipse_accepted(&e));
}

#[test]
fn scaled_area_bounds() {
    assert!(!ellipse_accepted(&disk(0, 0, 5046)));
    assert!(ellipse_accepted(&disk(0, 0, 5047)));
    assert!(ellipse_accepted(&disk(0, 0, 27639)));
    assert!(!ellipse_accepted(&disk(0, 0, 27640)));
    assert!(!ellipse_accepted(&disk(0, 0, 0)));
    assert!(!ellipse_accepted(&disk(0, 0, u32::MAX)));
}

#[test]
fn contour_gate_needs_area_over_30_and_over_4_points() {
    assert!(!worth_fitting(60, 10));
    assert!(worth_fitting(61, 10));
    assert!(!worth_fitting(100, 4));
    assert!(worth_fitting(100, 5));
    let good = Some(disk(1, 1, 7979));
    assert!(!contour_is_finger(&contour(-1, 60, 10, good)));
    assert!(!contour_is_finger(&contour(-1, 100, 4, good)));
    assert!(contour_is_finger(&contour(-1, 100, 5, good)));
    assert!(!contour_is_finger(&contour(-1, 100, 5, None)));
}

#[test]
fn only_the_sibling_chain_from_zero_is_visited() {
    let contours = vec![
        contour(2, 100, 20, Some(disk(10, 10, 7979))),
        // A hole inside contour 0: not on the chain.
        contour(-1, 100, 20, Some(disk(11, 11, 7979))),
        contour(3, 100, 20, Some(disk(50, 10, 50463))),
        contour(-1, 100, 20, Some(disk(90, 10, 7979))),
    ];
    assert_eq!(accepted_contours(&contours), vec![0, 3]);
    assert_eq!(detect_fingers(&contours), vec![(10, 10), (90, 10)]);
}

#[test]
fn no_contours_give_no_detections() {
    assert!(detect_fingers(&Vec::new()).is_empty());
    assert!(accepted_contours(&Vec::new()).is_empty());
}

#[test]
fn a_looping_chain_ends() {
    let contours = vec![
        contour(1, 100, 20, Some(disk(10, 10, 7979))),
        contour(0, 100, 20, Some(disk(20, 20, 7979))),
    ];
    assert_eq!(accepted_contours(&contours), vec![0, 1]);
    let contours = vec![contour(7, 100, 20, Some(disk(10, 10, 7979)))];
    assert_eq!(detect_fingers(&contours), vec![(10, 10)]);
}
