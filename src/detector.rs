use vstd::prelude::*;

verus! {

/// Ellipse sizes are measured in thousandths of a pixel.
pub const SUBPIXELS: u128 = 1000;

/// A contour must enclose more than 30 px², i.e. twice its area must exceed 60.
pub const MIN_DOUBLED_CONTOUR_AREA: u64 = 60;

/// A contour needs more than this many points for a stable ellipse fit.
pub const MIN_CONTOUR_POINTS: usize = 4;

/// Largest accepted ratio of one ellipse axis to the other, as a fraction.
pub const MAX_AXIS_RATIO_NUM: u128 = 5;
pub const MAX_AXIS_RATIO_DEN: u128 = 2;

/// Accepted range of `pi * (width / 4) * (height / 4)`, in px².
pub const MIN_ELLIPSE_AREA: u128 = 5;
pub const MAX_ELLIPSE_AREA: u128 = 150;

/// The double nearest to pi, written as the exact fraction it stands for.
pub const PI_NUM: u128 = 884279719003555;
pub const PI_DEN: u128 = 281474976710656;

/// An ellipse fitted to a contour: its center in whole pixels and its full
/// width and height in thousandths of a pixel.
#[derive(Clone, Copy, Debug, PartialEq, Eq)]
pub struct EllipseFit {
    pub center_x: i32,
    pub center_y: i32,
    pub width: u32,
    pub height: u32,
}

/// What the detector reads of one contour of the mask.
#[derive(Clone, Copy, Debug, PartialEq, Eq)]
pub struct ContourSummary {
    /// Index of the next contour at the same level; negative at the end of the chain.
    pub next_sibling: i32,
    /// Twice the enclosed area, in px² (the area of a polygon with integer
    /// vertices is a multiple of one half).
    pub doubled_area: u64,
    /// Number of points of the contour.
    pub n_points: usize,
    /// The ellipse fitted to the contour, where one was fitted.
    pub fit: Option<EllipseFit>,
}

/// A contour large enough, and with enough points, to fit an ellipse to.
pub open spec fn fit_worthy(doubled_area: int, n_points: int) -> bool {
    doubled_area > MIN_DOUBLED_CONTOUR_AREA && n_points > MIN_CONTOUR_POINTS
}

/// Neither axis is more than 2.5 times the other.
pub open spec fn finger_shaped(e: EllipseFit) -> bool {
    &&& MAX_AXIS_RATIO_DEN * e.width <= MAX_AXIS_RATIO_NUM * e.height
    &&& MAX_AXIS_RATIO_DEN * e.height <= MAX_AXIS_RATIO_NUM * e.width
}

/// `pi * (width / 4) * (height / 4)`, with sizes in pixels, lies in
/// `[MIN_ELLIPSE_AREA, MAX_ELLIPSE_AREA]`; here both sides are multiplied by
/// `16 * SUBPIXELS² * PI_DEN`.
pub open spec fn finger_sized(e: EllipseFit) -> bool {
    let scaled = PI_NUM * e.width * e.height;
    let unit = 16 * SUBPIXELS * SUBPIXELS * PI_DEN;
    MIN_ELLIPSE_AREA * unit <= scaled <= MAX_ELLIPSE_AREA * unit
}

/// A fitted ellipse that counts as a fingertip.
pub open spec fn ellipse_ok(e: EllipseFit) -> bool {
    finger_shaped(e) && finger_sized(e)
}

/// A contour that counts as a fingertip.
pub open spec fn contour_accepted(c: ContourSummary) -> bool {
    &&& fit_worthy(c.doubled_area as int, c.n_points as int)
    &&& c.fit matches Some(e) && ellipse_ok(e)
}

/// Accepted contours along the sibling chain that starts at `idx`, following
/// at most `fuel` links; the chain ends at an index outside `cs`.
pub open spec fn accepted_from(cs: Seq<ContourSummary>, idx: int, fuel: nat) -> Seq<usize>
    decreases fuel,
{
    if fuel == 0 || idx < 0 || idx >= cs.len() {
        Seq::empty()
    } else {
        let rest = accepted_from(cs, cs[idx].next_sibling as int, (fuel - 1) as nat);
        if contour_accepted(cs[idx]) {
            seq![idx as usize] + rest
        } else {
            rest
        }
    }
}

/// Accepted top-level contours: the sibling chain from contour 0, visiting
/// no more links than there are contours.
pub open spec fn accepted(cs: Seq<ContourSummary>) -> Seq<usize> {
    accepted_from(cs, 0, cs.len())
}

/// The detection an accepted ellipse gives.
pub open spec fn center(e: EllipseFit) -> (i32, i32) {
    (e.center_x, e.center_y)
}

/// Whether an ellipse should be fitted to a contour with this doubled area
/// and number of points.
pub fn worth_fitting(doubled_area: u64, n_points: usize) -> (r: bool)
    ensures
        r == fit_worthy(doubled_area as int, n_points as int),
{
    doubled_area > MIN_DOUBLED_CONTOUR_AREA && n_points > MIN_CONTOUR_POINTS
}

/// Whether a fitted ellipse has the shape and size of a fingertip.
pub fn ellipse_accepted(e: &EllipseFit) -> (r: bool)
    ensures
        r == ellipse_ok(*e),
{
    let w = e.width as u128;
    let h = e.height as u128;
    if MAX_AXIS_RATIO_DEN * w > MAX_AXIS_RATIO_NUM * h || MAX_AXIS_RATIO_DEN * h > MAX_AXIS_RATIO_NUM * w {
        return false;
    }
    assert(w * h <= 0xffff_ffff * 0xffff_ffffu128) by (nonlinear_arith)
        requires
            w <= 0xffff_ffff,
            h <= 0xffff_ffff,
    ;
    let area = w * h;
    assert(PI_NUM * area <= PI_NUM * (0xffff_ffff * 0xffff_ffffu128)) by (nonlinear_arith)
        requires
            area <= 0xffff_ffff * 0xffff_ffffu128,
    ;
    let scaled = PI_NUM * area;
    assert(scaled == PI_NUM * e.width * e.height) by (nonlinear_arith)
        requires
            scaled == PI_NUM * area,
            area == w * h,
            w == e.width,
            h == e.height,
    ;
    let unit: u128 = 16 * SUBPIXELS * SUBPIXELS * PI_DEN;
    MIN_ELLIPSE_AREA * unit <= scaled && scaled <= MAX_ELLIPSE_AREA * unit
}

/// Whether a contour is taken for a fingertip: large enough, with enough
/// points, and with a fitted ellipse of fingertip shape and size.
pub fn contour_is_finger(c: &ContourSummary) -> (r: bool)
    ensures
        r == contour_accepted(*c),
{
    if !worth_fitting(c.doubled_area, c.n_points) {
        return false;
    }
    match &c.fit {
        Some(e) => ellipse_accepted(e),
        None => false,
    }
}

/// Indices of the accepted top-level contours, in the order of the sibling
/// chain that starts at contour 0.
pub fn accepted_contours(contours: &Vec<ContourSummary>) -> (r: Vec<usize>)
    ensures
        r@ == accepted(contours@),
{
    let ghost cs = contours@;
    let mut result: Vec<usize> = Vec::new();
    let mut idx: i32 = 0;
    let mut steps: usize = 0;
    while idx >= 0 && (idx as usize) < contours.len() && steps < contours.len()
        invariant
            cs == contours@,
            steps <= contours.len(),
            result@ + accepted_from(cs, idx as int, (cs.len() - steps) as nat) == accepted(cs),
        decreases contours.len() - steps,
    {
        let c = &contours[idx as usize];
        let ghost rest = accepted_from(cs, c.next_sibling as int, (cs.len() - steps - 1) as nat);
        if contour_is_finger(c) {
            result.push(idx as usize);
            assert(seq![idx as usize] + rest == accepted_from(cs, idx as int, (cs.len() - steps) as nat));
            assert(result@ + rest =~= accepted(cs));
        }
        idx = c.next_sibling;
        steps = steps + 1;
    }
    assert(accepted_from(cs, idx as int, (cs.len() - steps) as nat) == Seq::<usize>::empty());
    assert(result@ =~= accepted(cs));
    result
}

proof fn lemma_accepted_from(cs: Seq<ContourSummary>, idx: int, fuel: nat)
    requires
        cs.len() <= usize::MAX,
    ensures
        forall|k: int| 0 <= k < accepted_from(cs, idx, fuel).len() ==> {
            let i = #[trigger] accepted_from(cs, idx, fuel)[k];
            &&& i < cs.len()
            &&& contour_accepted(cs[i as int])
        },
    decreases fuel,
{
    if fuel > 0 && 0 <= idx < cs.len() {
        let rest = accepted_from(cs, cs[idx].next_sibling as int, (fuel - 1) as nat);
        lemma_accepted_from(cs, cs[idx].next_sibling as int, (fuel - 1) as nat);
        if contour_accepted(cs[idx]) {
            let all = accepted_from(cs, idx, fuel);
            assert forall|k: int| 0 <= k < all.len() implies {
                let i = #[trigger] all[k];
                &&& i < cs.len()
                &&& contour_accepted(cs[i as int])
            } by {
                assert(all == seq![idx as usize] + rest);
                if k > 0 {
                    assert(all[k] == rest[k - 1]);
                } else {
                    assert(all[k] == idx as usize);
                }
            }
        }
    }
}

/// Centers of the accepted top-level contours, in the order of the sibling
/// chain that starts at contour 0.
pub fn detect_fingers(contours: &Vec<ContourSummary>) -> (r: Vec<(i32, i32)>)
    ensures
        r@.len() == accepted(contours@).len(),
        forall|k: int| 0 <= k < r@.len() ==> {
            let i = accepted(contours@)[k] as int;
            &&& 0 <= i < contours.len()
            &&& contours@[i].fit matches Some(e) && #[trigger] r@[k] == center(e)
        },
{
    let accepted_idx = accepted_contours(contours);
    let n_contours: usize = contours.len();
    proof {
        assert(contours@.len() == n_contours);
        lemma_accepted_from(contours@, 0, contours@.len());
    }
    let mut result: Vec<(i32, i32)> = Vec::new();
    let mut k: usize = 0;
    while k < accepted_idx.len()
        invariant
            k <= accepted_idx.len(),
            accepted_idx@ == accepted(contours@),
            result@.len() == k,
            forall|j: int| 0 <= j < accepted_idx.len() ==> {
                let i = #[trigger] accepted_idx@[j];
                &&& i < contours.len()
                &&& contour_accepted(contours@[i as int])
            },
            forall|j: int| 0 <= j < k ==> {
                let i = accepted_idx@[j] as int;
                &&& contours@[i].fit matches Some(e) && #[trigger] result@[j] == center(e)
            },
        decreases accepted_idx.len() - k,
    {
        let i = accepted_idx[k];
        assert(contour_accepted(contours@[i as int]));
        match &contours[i].fit {
            Some(e) => {
                result.push((e.center_x, e.center_y));
            },
            None => {},
        }
        k = k + 1;
    }
    result
}

/// An ellipse three times as long as it is wide, either way round, is never
/// taken for a fingertip, whatever its size.
pub proof fn lemma_elongated_rejected(e: EllipseFit)
    requires
        e.width == 3 * e.height || e.height == 3 * e.width,
    ensures
        !ellipse_ok(e),
{
    if e.width == 0 || e.height == 0 {
        assert(e.width == 0 && e.height == 0);
        assert(PI_NUM * e.width * e.height == 0);
    }
}

/// An ellipse whose scaled area `pi * (width / 4) * (height / 4)` exceeds
/// `MAX_ELLIPSE_AREA` px² is never taken for a fingertip, whatever its shape.
pub proof fn lemma_oversized_rejected(e: EllipseFit)
    requires
        PI_NUM * e.width * e.height > MAX_ELLIPSE_AREA * 16 * SUBPIXELS * SUBPIXELS * PI_DEN,
    ensures
        !ellipse_ok(e),
{
}

} // verus!
