use vstd::prelude::*;

verus! {

/// Squared distance under which a detection may continue an existing track.
pub const DISTANCE_TO_FINGER_THRESHOLD: i32 = 100;

/// Age at which a track is evicted on the next update.
pub const MAX_AGE: i32 = 4;

/// A tracked touch point.
pub struct Finger {
    /// Identity of the track.
    pub id: i32,
    /// Positions of the track, oldest first; the last one is its current position.
    pub history: Vec<(i32, i32)>,
    /// Updates survived since creation; the track is evicted once this reached `MAX_AGE`.
    pub age: i32,
}

/// Mathematical model of a `Finger`.
pub struct FingerView {
    pub id: int,
    pub history: Seq<(i32, i32)>,
    pub age: int,
}

impl View for Finger {
    type V = FingerView;

    open spec fn view(&self) -> FingerView {
        FingerView { id: self.id as int, history: self.history@, age: self.age as int }
    }
}

/// A live track has a current position and an age in `0..=MAX_AGE`.
pub open spec fn finger_wf(f: FingerView) -> bool {
    &&& f.history.len() > 0
    &&& 0 <= f.age <= MAX_AGE
}

/// Every track of a collection is live.
pub open spec fn fingers_wf(fs: Seq<FingerView>) -> bool {
    forall|i: int| 0 <= i < fs.len() ==> #[trigger] finger_wf(fs[i])
}

/// The models of a collection of tracks.
pub open spec fn views(fs: Seq<Finger>) -> Seq<FingerView> {
    fs.map_values(|f: Finger| f@)
}

/// Most recent known position of a track.
pub open spec fn last_position(f: FingerView) -> (i32, i32) {
    f.history.last()
}

/// Squared Euclidean distance between two points.
pub open spec fn dist2(p: (i32, i32), q: (i32, i32)) -> int {
    (p.0 - q.0) * (p.0 - q.0) + (p.1 - q.1) * (p.1 - q.1)
}

/// Squared distance from `p` to the current position of track `k`.
pub open spec fn dist_to(fs: Seq<FingerView>, p: (i32, i32), k: int) -> int {
    dist2(p, last_position(fs[k]))
}

/// The track among the first `n` of `fs` that is nearest to `p` with a squared
/// distance under `threshold`; of several at the same distance, the first.
pub open spec fn nearest_among(fs: Seq<FingerView>, p: (i32, i32), threshold: int, n: int) -> Option<int>
    decreases n,
{
    if n <= 0 {
        None
    } else {
        let best = nearest_among(fs, p, threshold, n - 1);
        let d = dist_to(fs, p, n - 1);
        if d < threshold && (best is None || d < dist_to(fs, p, best->0)) {
            Some(n - 1)
        } else {
            best
        }
    }
}

/// The track that a detection at `p` continues, if any.
pub open spec fn nearest(fs: Seq<FingerView>, p: (i32, i32), threshold: int) -> Option<int> {
    nearest_among(fs, p, threshold, fs.len() as int)
}

/// What `nearest_among` picks, stated without the scan: no track at all when
/// none is under the threshold, else the first track at the least distance.
pub proof fn lemma_nearest_among(fs: Seq<FingerView>, p: (i32, i32), threshold: int, n: int)
    requires
        0 <= n <= fs.len(),
    ensures
        match nearest_among(fs, p, threshold, n) {
            None => forall|j: int| 0 <= j < n ==> dist_to(fs, p, j) >= threshold,
            Some(k) => {
                &&& 0 <= k < n
                &&& dist_to(fs, p, k) < threshold
                &&& forall|j: int| 0 <= j < n ==> dist_to(fs, p, k) <= dist_to(fs, p, j)
                &&& forall|j: int| 0 <= j < k ==> dist_to(fs, p, k) < dist_to(fs, p, j)
            },
        },
    decreases n,
{
    if n > 0 {
        lemma_nearest_among(fs, p, threshold, n - 1);
    }
}

/// A track that starts at `p`.
pub open spec fn new_finger(id: int, p: (i32, i32), age: int) -> FingerView {
    FingerView { id, history: seq![p], age }
}

/// Track `f` moved on to `p`.
pub open spec fn appended(f: FingerView, p: (i32, i32)) -> FingerView {
    FingerView { history: f.history.push(p), ..f }
}

/// The tracks after the first `n` detections were associated against the
/// positions in `fs`: a matched detection extends the nearest track's history,
/// an unmatched one opens a track whose id is the number of tracks so far.
pub open spec fn associate(fs: Seq<FingerView>, dets: Seq<(i32, i32)>, n: int) -> Seq<FingerView>
    decreases n,
{
    if n <= 0 {
        fs
    } else {
        let cur = associate(fs, dets, n - 1);
        let p = dets[n - 1];
        match nearest(fs, p, DISTANCE_TO_FINGER_THRESHOLD as int) {
            Some(k) => cur.update(k, appended(cur[k], p)),
            None => cur.push(new_finger(cur.len() as int, p, 0)),
        }
    }
}

/// The first `n` tracks of `fs` after one step of aging: a track that reached
/// `MAX_AGE` is dropped, every other one grows one older.
pub open spec fn age_all(fs: Seq<FingerView>, n: int) -> Seq<FingerView>
    decreases n,
{
    if n <= 0 {
        Seq::empty()
    } else {
        let rest = age_all(fs, n - 1);
        let f = fs[n - 1];
        if f.age < MAX_AGE {
            rest.push(FingerView { age: f.age + 1, ..f })
        } else {
            rest
        }
    }
}

/// One tracker update: with no live tracks, each detection opens a track whose
/// id is its position in `dets`; otherwise detections are associated and then
/// every track is aged.
pub open spec fn update(fs: Seq<FingerView>, dets: Seq<(i32, i32)>) -> Seq<FingerView> {
    if fs.len() == 0 {
        Seq::new(dets.len(), |i: int| new_finger(i, dets[i], 0))
    } else {
        let assoc = associate(fs, dets, dets.len() as int);
        age_all(assoc, assoc.len() as int)
    }
}


/// Index of the track whose current position is nearest to `finger_coordinates`
/// with a squared distance under `distance_to_finger_threshold`, the first one
/// on a tie; `None` when no track is that close.
pub fn find_nearest_fingers(
    finger_coordinates: (i32, i32),
    fingers: &Vec<Finger>,
    distance_to_finger_threshold: i32,
) -> (r: Option<usize>)
    requires
        forall|i: int| 0 <= i < fingers.len() ==> #[trigger] fingers@[i].history@.len() > 0,
    ensures
        match r {
            None => nearest(views(fingers@), finger_coordinates, distance_to_finger_threshold as int) is None,
            Some(k) => nearest(views(fingers@), finger_coordinates, distance_to_finger_threshold as int) == Some(k as int),
        },
        match r {
            None => forall|j: int| 0 <= j < fingers.len() ==>
                dist_to(views(fingers@), finger_coordinates, j) >= distance_to_finger_threshold,
            Some(k) => {
                &&& k < fingers.len()
                &&& dist_to(views(fingers@), finger_coordinates, k as int) < distance_to_finger_threshold
                &&& forall|j: int| 0 <= j < fingers.len() ==>
                    dist_to(views(fingers@), finger_coordinates, k as int) <= dist_to(views(fingers@), finger_coordinates, j)
                &&& forall|j: int| 0 <= j < k ==>
                    dist_to(views(fingers@), finger_coordinates, k as int) < dist_to(views(fingers@), finger_coordinates, j)
            },
        },
{
    let ghost vs = views(fingers@);
    let ghost p = finger_coordinates;
    let ghost t = distance_to_finger_threshold as int;
    let mut best: Option<(usize, i128)> = None;
    let mut i: usize = 0;
    while i < fingers.len()
        invariant
            i <= fingers.len(),
            vs == views(fingers@),
            p == finger_coordinates,
            t == distance_to_finger_threshold as int,
            forall|j: int| 0 <= j < fingers.len() ==> #[trigger] fingers@[j].history@.len() > 0,
            match best {
                None => nearest_among(vs, p, t, i as int) is None,
                Some((k, d)) => nearest_among(vs, p, t, i as int) == Some(k as int) && d == dist_to(vs, p, k as int),
            },
        decreases fingers.len() - i,
    {
        let location = fingers[i].history[fingers[i].history.len() - 1];
        assert(vs[i as int] == fingers@[i as int]@);
        assert(location == last_position(vs[i as int]));
        let dx: i128 = finger_coordinates.0 as i128 - location.0 as i128;
        let dy: i128 = finger_coordinates.1 as i128 - location.1 as i128;
        assert(dx * dx <= 0x1_0000_0000_0000_0000 && dy * dy <= 0x1_0000_0000_0000_0000) by (nonlinear_arith)
            requires
                -0x1_0000_0000 <= dx <= 0x1_0000_0000,
                -0x1_0000_0000 <= dy <= 0x1_0000_0000,
        ;
        assert(0 <= dx * dx && 0 <= dy * dy) by (nonlinear_arith);
        let distance: i128 = dx * dx + dy * dy;
        assert(distance == dist2(p, location)) by (nonlinear_arith)
            requires
                dx == p.0 - location.0,
                dy == p.1 - location.1,
                distance == dx * dx + dy * dy,
        ;
        assert(distance == dist_to(vs, p, i as int));
        let closer = match best {
            None => true,
            Some((_, d)) => distance < d,
        };
        if distance < distance_to_finger_threshold as i128 && closer {
            best = Some((i, distance));
        }
        i = i + 1;
    }
    proof {
        lemma_nearest_among(vs, p, t, vs.len() as int);
    }
    match best {
        None => None,
        Some((k, _)) => Some(k),
    }
}

proof fn lemma_associate(fs: Seq<FingerView>, dets: Seq<(i32, i32)>, n: int)
    requires
        0 <= n <= dets.len(),
        fingers_wf(fs),
    ensures
        fs.len() <= associate(fs, dets, n).len() <= fs.len() + n,
        fingers_wf(associate(fs, dets, n)),
    decreases n,
{
    if n > 0 {
        lemma_associate(fs, dets, n - 1);
        lemma_nearest_among(fs, dets[n - 1], DISTANCE_TO_FINGER_THRESHOLD as int, fs.len() as int);
        let cur = associate(fs, dets, n - 1);
        let next = associate(fs, dets, n);
        assert forall|i: int| 0 <= i < next.len() implies #[trigger] finger_wf(next[i]) by {
            if i < cur.len() {
                assert(finger_wf(cur[i]));
            }
        }
    }
}

proof fn lemma_age_all(fs: Seq<FingerView>, n: int)
    requires
        0 <= n <= fs.len(),
        fingers_wf(fs),
    ensures
        age_all(fs, n).len() <= n,
        fingers_wf(age_all(fs, n)),
    decreases n,
{
    if n > 0 {
        lemma_age_all(fs, n - 1);
        assert(finger_wf(fs[n - 1]));
        let rest = age_all(fs, n - 1);
        let next = age_all(fs, n);
        assert forall|i: int| 0 <= i < next.len() implies #[trigger] finger_wf(next[i]) by {
            if i < rest.len() {
                assert(finger_wf(rest[i]));
            }
        }
    }
}

/// Updates the live tracks with the detections of one frame.
///
/// With no live track, each detection opens a track whose id is its position
/// among the detections. Otherwise each detection is matched against the
/// positions the tracks had before this update: it extends the history of the
/// nearest track under `DISTANCE_TO_FINGER_THRESHOLD`, or opens a new track
/// whose id is the number of tracks at that moment. Then a track that reached
/// `MAX_AGE` is evicted and every other one grows one older.
pub fn manage_fingers(fingers: &mut Vec<Finger>, finger_coordinates: &Vec<(i32, i32)>)
    requires
        fingers_wf(views(old(fingers)@)),
        old(fingers).len() + finger_coordinates.len() <= i32::MAX,
    ensures
        views(final(fingers)@) == update(views(old(fingers)@), finger_coordinates@),
        fingers_wf(views(final(fingers)@)),
{
    let ghost fs = views(fingers@);
    let ghost dets = finger_coordinates@;
    if fingers.len() == 0 {
        let mut i: usize = 0;
        while i < finger_coordinates.len()
            invariant
                i <= finger_coordinates.len() <= i32::MAX,
                dets == finger_coordinates@,
                views(fingers@) =~= Seq::new(i as nat, |j: int| new_finger(j, dets[j], 0)),
            decreases finger_coordinates.len() - i,
        {
            let mut history: Vec<(i32, i32)> = Vec::new();
            history.push(finger_coordinates[i]);
            assert(history@ =~= seq![dets[i as int]]);
            let ghost before = fingers@;
            let finger = Finger { id: i as i32, history, age: 0 };
            assert(finger@ == new_finger(i as int, dets[i as int], 0));
            fingers.push(finger);
            assert(views(fingers@) =~= views(before).push(finger@));
            i = i + 1;
        }
        return;
    }
    // Every detection is matched against the tracks as they were before this update.

    let mut matches: Vec<Option<usize>> = Vec::new();
    let mut i: usize = 0;
    while i < finger_coordinates.len()
        invariant
            i <= finger_coordinates.len(),
            fs == views(fingers@),
            fingers_wf(fs),
            dets == finger_coordinates@,
            matches.len() == i,
            forall|j: int| 0 <= j < i ==> match #[trigger] matches@[j] {
                None => nearest(fs, dets[j], DISTANCE_TO_FINGER_THRESHOLD as int) is None,
                Some(k) => nearest(fs, dets[j], DISTANCE_TO_FINGER_THRESHOLD as int) == Some(k as int)
                    && k < fs.len(),
            },
        decreases finger_coordinates.len() - i,
    {
        proof {
            assert forall|j: int| 0 <= j < fingers.len() implies #[trigger] fingers@[j].history@.len() > 0 by {
                assert(finger_wf(fs[j]));
            }
        }
        let m = find_nearest_fingers(finger_coordinates[i], fingers, DISTANCE_TO_FINGER_THRESHOLD);
        matches.push(m);
        i = i + 1;
    }

    let ghost n0 = fs.len();
    let mut i: usize = 0;
    while i < finger_coordinates.len()
        invariant
            i <= finger_coordinates.len(),
            n0 == fs.len(),
            n0 + finger_coordinates.len() <= i32::MAX,
            fingers_wf(fs),
            dets == finger_coordinates@,
            matches.len() == finger_coordinates.len(),
            forall|j: int| 0 <= j < finger_coordinates.len() ==> match #[trigger] matches@[j] {
                None => nearest(fs, dets[j], DISTANCE_TO_FINGER_THRESHOLD as int) is None,
                Some(k) => nearest(fs, dets[j], DISTANCE_TO_FINGER_THRESHOLD as int) == Some(k as int)
                    && k < fs.len(),
            },
            views(fingers@) == associate(fs, dets, i as int),
        decreases finger_coordinates.len() - i,
    {
        proof {
            lemma_associate(fs, dets, i as int);
        }
        let p = finger_coordinates[i];
        match matches[i] {
            Some(k) => {
                let ghost before = views(fingers@);
                assert(before[k as int] == fingers@[k as int]@);
                fingers[k].history.push(p);
                assert(fingers@[k as int]@ == appended(before[k as int], p));
                assert(views(fingers@) =~= before.update(k as int, appended(before[k as int], p)));
                assert(views(fingers@) =~= associate(fs, dets, i + 1));
            },
            None => {
                let id = fingers.len() as i32;
                let mut history: Vec<(i32, i32)> = Vec::new();
                history.push(p);
                assert(history@ =~= seq![p]);
                fingers.push(Finger { id, history, age: 0 });
                assert(views(fingers@) =~= associate(fs, dets, i + 1));
            },
        }
        i = i + 1;
    }

    // Aging: a track that reached the bound leaves, every other one grows older.
    let ghost assoc = views(fingers@);
    proof {
        lemma_associate(fs, dets, dets.len() as int);
    }
    let mut rest: Vec<Finger> = Vec::new();
    std::mem::swap(fingers, &mut rest);
    let ghost total = rest.len();
    while rest.len() > 0
        invariant
            total == assoc.len(),
            rest.len() <= total,
            fingers_wf(assoc),
            views(rest@) =~= assoc.subrange(total - rest.len(), total as int),
            views(fingers@) =~= age_all(assoc, total - rest.len()),
        decreases rest.len(),
    {
        let ghost done = total - rest.len();
        let ghost before = rest@;
        assert(views(before)[0] == before[0]@);
        let mut finger = rest.remove(0);
        assert(rest@ =~= before.subrange(1, before.len() as int));
        assert(views(rest@) =~= views(before).subrange(1, before.len() as int));
        assert(finger@ == assoc[done]);
        assert(finger_wf(assoc[done]));
        assert(views(rest@) =~= assoc.subrange(done + 1, total as int));
        if finger.age < MAX_AGE {
            finger.age = finger.age + 1;
            fingers.push(finger);
        }
        assert(views(fingers@) =~= age_all(assoc, done + 1));
    }
    proof {
        lemma_age_all(assoc, assoc.len() as int);
    }
}

/// With no live track, an update opens exactly one track per detection, in
/// order: ids `0, 1, ...`, a history holding just that detection, age zero.
pub proof fn lemma_bootstrap(dets: Seq<(i32, i32)>)
    ensures
        update(Seq::empty(), dets).len() == dets.len(),
        forall|i: int| 0 <= i < dets.len() ==> {
            let f = #[trigger] update(Seq::empty(), dets)[i];
            &&& f.id == i
            &&& f.history == seq![dets[i]]
            &&& f.age == 0
        },
{
}

/// Matching is not exclusive: two detections that both lie within the
/// threshold of the one live track both extend its history, in detection
/// order; the aging step then keeps that track unless it had reached `MAX_AGE`.
pub proof fn lemma_shared_match(f: FingerView, d1: (i32, i32), d2: (i32, i32))
    requires
        finger_wf(f),
        dist2(d1, last_position(f)) < DISTANCE_TO_FINGER_THRESHOLD,
        dist2(d2, last_position(f)) < DISTANCE_TO_FINGER_THRESHOLD,
    ensures
        associate(seq![f], seq![d1, d2], 2) == seq![appended(appended(f, d1), d2)],
        update(seq![f], seq![d1, d2]) == if f.age < MAX_AGE {
            seq![FingerView { age: f.age + 1, ..appended(appended(f, d1), d2) }]
        } else {
            Seq::empty()
        },
{
    let fs = seq![f];
    let dets = seq![d1, d2];
    assert(nearest_among(fs, d1, DISTANCE_TO_FINGER_THRESHOLD as int, 0) is None);
    assert(nearest_among(fs, d2, DISTANCE_TO_FINGER_THRESHOLD as int, 0) is None);
    assert(dist_to(fs, d1, 0) == dist2(d1, last_position(f)));
    assert(dist_to(fs, d2, 0) == dist2(d2, last_position(f)));
    assert(nearest(fs, d1, DISTANCE_TO_FINGER_THRESHOLD as int) == Some(0int));
    assert(nearest(fs, d2, DISTANCE_TO_FINGER_THRESHOLD as int) == Some(0int));
    assert(associate(fs, dets, 0) == fs);
    assert(dets[0] == d1 && dets[1] == d2);
    assert(associate(fs, dets, 1) =~= seq![appended(f, d1)]);
    assert(associate(fs, dets, 2) =~= seq![appended(appended(f, d1), d2)]);
    let assoc = associate(fs, dets, 2);
    assert(age_all(assoc, 0) =~= Seq::<FingerView>::empty());
    assert(update(fs, dets) =~= age_all(assoc, 1));
    if f.age < MAX_AGE {
        assert(age_all(assoc, 1) =~= seq![FingerView { age: f.age + 1, ..appended(appended(f, d1), d2) }]);
    }
}

/// Life of a track seen at one position for three frames and then missing:
/// after two empty frames it has reached `MAX_AGE` with its three positions,
/// after the third it is gone, and the next detection opens a track under
/// the same id, since ids follow the number of live tracks.
pub proof fn lemma_track_lifecycle(p: (i32, i32), q: (i32, i32))
    ensures
        ({
            let s3 = update(update(update(Seq::empty(), seq![p]), seq![p]), seq![p]);
            let s5 = update(update(s3, Seq::empty()), Seq::empty());
            let s6 = update(s5, Seq::empty());
            let s7 = update(s6, Seq::empty());
            &&& s5 == seq![FingerView { id: 0, history: seq![p, p, p], age: MAX_AGE as int }]
            &&& s6.len() == 0
            &&& s7.len() == 0
            &&& update(s7, seq![q]) == seq![new_finger(0, q, 0)]
        }),
{
    let none: Seq<(i32, i32)> = Seq::empty();
    let t = DISTANCE_TO_FINGER_THRESHOLD as int;
    assert(dist2(p, p) == 0);
    let s1 = update(Seq::empty(), seq![p]);
    assert(s1 =~= seq![new_finger(0, p, 0)]);
    let s2 = update(s1, seq![p]);
    assert(nearest_among(s1, p, t, 0) is None);
    assert(dist_to(s1, p, 0) == 0);
    assert(nearest(s1, p, t) == Some(0int));
    assert(associate(s1, seq![p], 0) == s1);
    assert(seq![p].push(p) =~= seq![p, p]);
    assert(seq![p][0] == p);
    assert(associate(s1, seq![p], 1) =~= seq![FingerView { id: 0, history: seq![p, p], age: 0 }]);
    assert(age_all(associate(s1, seq![p], 1), 0) =~= Seq::<FingerView>::empty());
    assert(s2 =~= seq![FingerView { id: 0, history: seq![p, p], age: 1 }]);
    let s3 = update(s2, seq![p]);
    assert(nearest_among(s2, p, t, 0) is None);
    assert(dist_to(s2, p, 0) == 0);
    assert(nearest(s2, p, t) == Some(0int));
    assert(associate(s2, seq![p], 0) == s2);
    assert(seq![p, p].push(p) =~= seq![p, p, p]);
    assert(associate(s2, seq![p], 1) =~= seq![FingerView { id: 0, history: seq![p, p, p], age: 1 }]);
    assert(age_all(associate(s2, seq![p], 1), 0) =~= Seq::<FingerView>::empty());
    assert(s3 =~= seq![FingerView { id: 0, history: seq![p, p, p], age: 2 }]);
    let s4 = update(s3, none);
    assert(age_all(s3, 0) =~= Seq::<FingerView>::empty());
    assert(s4 =~= seq![FingerView { id: 0, history: seq![p, p, p], age: 3 }]);
    let s5 = update(s4, none);
    assert(age_all(s4, 0) =~= Seq::<FingerView>::empty());
    assert(s5 =~= seq![FingerView { id: 0, history: seq![p, p, p], age: 4 }]);
    let s6 = update(s5, none);
    assert(age_all(s5, 0) =~= Seq::<FingerView>::empty());
    assert(s6 =~= Seq::<FingerView>::empty());
    let s7 = update(s6, none);
    assert(s7 =~= Seq::<FingerView>::empty());
    assert(update(s7, seq![q]) =~= seq![new_finger(0, q, 0)]);
}

} // verus!
