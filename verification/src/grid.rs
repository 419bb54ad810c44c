//! Placing per-layer data on the plotting grid: the grid is cut into
//! consecutive index segments, one per layer, given by their start indices.
use vstd::prelude::*;

verus! {

/// The segment boundaries `starts[0] <= starts[1] <= … <= starts[count]`
/// lie on a grid of `len` points.
pub open spec fn segments_fit(starts: Seq<usize>, count: int, len: int) -> bool {
    &&& starts.len() >= count + 1
    &&& forall|i: int| 0 <= i < count ==> #[trigger] starts[i] <= starts[i + 1]
    &&& count >= 0 ==> starts[count] <= len
}

/// A profile of `len` points holding `values[i]` on segment `i`
/// (`starts[i] <= j < starts[i + 1]`) and `fill` outside every segment.
pub fn fill_segments<T: Copy>(len: usize, fill: T, values: &Vec<T>, starts: &Vec<usize>) -> (profile: Vec<T>)
    requires
        segments_fit(starts@, values@.len() as int, len as int),
    ensures
        profile@.len() == len,
        forall|i: int, j: int|
            0 <= i < values@.len() && starts@[i] <= j < starts@[i + 1] ==> #[trigger] profile@[j]
                == #[trigger] values@[i],
        forall|j: int|
            0 <= j < len && (forall|i: int| 0 <= i < values@.len() ==> !(starts@[i] <= j
                < #[trigger] starts@[i + 1])) ==> #[trigger] profile@[j] == fill,
{
    let mut profile: Vec<T> = Vec::new();
    let mut j: usize = 0;
    while j < len
        invariant
            j <= len,
            profile@.len() == j,
            forall|k: int| 0 <= k < j ==> #[trigger] profile@[k] == fill,
        decreases len - j,
    {
        profile.push(fill);
        j = j + 1;
    }
    let count = values.len();
    let mut i: usize = 0;
    while i < count
        invariant
            count == values@.len(),
            segments_fit(starts@, count as int, len as int),
            i <= count,
            profile@.len() == len,
            forall|a: int, k: int|
                0 <= a < i && starts@[a] <= k < starts@[a + 1] ==> #[trigger] profile@[k]
                    == #[trigger] values@[a],
            forall|k: int|
                0 <= k < len && (forall|a: int| 0 <= a < i ==> !(starts@[a] <= k
                    < #[trigger] starts@[a + 1])) ==> #[trigger] profile@[k] == fill,
            forall|a: int| 0 <= a < i ==> #[trigger] starts@[a + 1] <= starts@[i as int],
        decreases count - i,
    {
        proof {
            lemma_starts_chain(starts@, count as int, i as int, len as int);
        }
        let start = starts[i];
        let end = starts[i + 1];
        let v = values[i];
        let mut k: usize = start;
        while k < end
            invariant
                count == values@.len(),
                segments_fit(starts@, count as int, len as int),
                i < count,
                start == starts@[i as int],
                end == starts@[i + 1],
                v == values@[i as int],
                start <= k <= end,
                end <= len,
                profile@.len() == len,
                forall|a: int, m: int|
                    0 <= a < i && starts@[a] <= m < starts@[a + 1] ==> #[trigger] profile@[m]
                        == #[trigger] values@[a],
                forall|m: int| start <= m < k ==> #[trigger] profile@[m] == v,
                forall|m: int|
                    0 <= m < len && !(start <= m < k) && (forall|a: int| 0 <= a < i ==> !(starts@[a]
                        <= m < #[trigger] starts@[a + 1])) ==> #[trigger] profile@[m] == fill,
                forall|a: int| 0 <= a < i ==> #[trigger] starts@[a + 1] <= starts@[i as int],
            decreases end - k,
        {
            profile.set(k, v);
            k = k + 1;
        }
        proof {
            assert(starts@[i as int] <= starts@[i + 1]);
        }
        i = i + 1;
    }
    profile
}

/// The boundaries before segment `i` are not above `starts[i]`, and
/// `starts[i + 1]` is within the grid.
proof fn lemma_starts_chain(starts: Seq<usize>, count: int, i: int, len: int)
    requires
        segments_fit(starts, count, len),
        0 <= i < count,
    ensures
        starts[i + 1] <= len,
    decreases count - i,
{
    if i + 1 < count {
        lemma_starts_chain(starts, count, i + 1, len);
        assert(starts[i + 1] <= starts[i + 2]);
    }
}

/// The points of `xs` cut into the segments `starts[i] .. starts[i + 1]`.
pub fn split_segments<T: Copy>(xs: &Vec<T>, starts: &Vec<usize>) -> (parts: Vec<Vec<T>>)
    requires
        starts@.len() >= 1,
        segments_fit(starts@, starts@.len() - 1, xs@.len() as int),
    ensures
        parts@.len() == starts@.len() - 1,
        forall|i: int|
            0 <= i < parts@.len() ==> #[trigger] parts@[i]@ == xs@.subrange(
                starts@[i] as int,
                starts@[i + 1] as int,
            ),
{
    let count = starts.len() - 1;
    let mut parts: Vec<Vec<T>> = Vec::new();
    let mut i: usize = 0;
    while i < count
        invariant
            count == starts@.len() - 1,
            segments_fit(starts@, count as int, xs@.len() as int),
            i <= count,
            parts@.len() == i,
            forall|a: int|
                0 <= a < i ==> #[trigger] parts@[a]@ == xs@.subrange(
                    starts@[a] as int,
                    starts@[a + 1] as int,
                ),
        decreases count - i,
    {
        proof {
            lemma_starts_chain(starts@, count as int, i as int, xs@.len() as int);
        }
        let start = starts[i];
        let end = starts[i + 1];
        let mut part: Vec<T> = Vec::new();
        let mut k: usize = start;
        while k < end
            invariant
                start <= k <= end,
                end <= xs@.len(),
                part@ == xs@.subrange(start as int, k as int),
            decreases end - k,
        {
            part.push(xs[k]);
            proof {
                assert(xs@.subrange(start as int, k as int).push(xs@[k as int]) =~= xs@.subrange(
                    start as int,
                    k + 1,
                ));
            }
            k = k + 1;
        }
        parts.push(part);
        i = i + 1;
    }
    parts
}


/// The relation that a test reports as true.
pub open spec fn reported<T, F: Fn(T, T) -> bool>(test: F) -> spec_fn(T, T) -> bool {
    |a: T, b: T| test.ensures((a, b), true)
}

/// The state of the scan for segment starts after the first `i` grid points:
/// the starts found so far and the index of the boundary looked for next,
/// or `None` once a point reaches the last boundary, which ends the grid.
pub open spec fn scan_starts<T>(
    xs: Seq<T>,
    bounds: Seq<T>,
    reached: spec_fn(T, T) -> bool,
    i: int,
) -> Option<(Seq<usize>, int)>
    decreases i,
{
    if i <= 0 {
        Some((seq![0usize], 1))
    } else {
        match scan_starts(xs, bounds, reached, i - 1) {
            None => None,
            Some((found, k)) => if reached(xs[i - 1], bounds[k]) {
                if k + 1 < bounds.len() {
                    Some((found.push((i - 1) as usize), k + 1))
                } else {
                    None
                }
            } else {
                Some((found, k))
            },
        }
    }
}

/// The scan keeps its next boundary within `bounds` and its starts in
/// increasing order below the points scanned.
proof fn lemma_scan_shape<T>(xs: Seq<T>, bounds: Seq<T>, reached: spec_fn(T, T) -> bool, i: int)
    requires
        bounds.len() >= 2,
        0 <= i <= xs.len() <= usize::MAX,
    ensures
        scan_starts(xs, bounds, reached, i) matches Some((found, k)) ==> {
            &&& 1 <= k < bounds.len()
            &&& found.len() == k
            &&& found[0] == 0
            &&& forall|a: int| 0 <= a < found.len() ==> #[trigger] found[a] <= i
            &&& forall|a: int| 0 < a < found.len() ==> #[trigger] found[a] < i
            &&& forall|a: int| 0 <= a < found.len() - 1 ==> #[trigger] found[a] <= found[a + 1]
        },
    decreases i,
{
    if i > 0 {
        lemma_scan_shape(xs, bounds, reached, i - 1);
        match scan_starts(xs, bounds, reached, i - 1) {
            None => {},
            Some((found, k)) => {
                if reached(xs[i - 1], bounds[k]) && k + 1 < bounds.len() {
                    let next = found.push((i - 1) as usize);
                    assert forall|a: int| 0 <= a < next.len() - 1 implies #[trigger] next[a]
                        <= next[a + 1] by {
                        if a + 1 < found.len() {
                            assert(next[a] == found[a] && next[a + 1] == found[a + 1]);
                        } else {
                            assert(next[a] == found[a]);
                        }
                    }
                    assert forall|a: int| 0 < a < next.len() implies #[trigger] next[a] < i by {
                        if a < found.len() {
                            assert(next[a] == found[a]);
                        }
                    }
                    assert forall|a: int| 0 <= a < next.len() implies #[trigger] next[a] <= i by {
                        if a < found.len() {
                            assert(next[a] == found[a]);
                        }
                    }
                }
            },
        }
    }
}


/// What the scan for segment starts finds, for any test `reached`: segment
/// `m >= 1` starts at a point that reaches boundary `m`, and no point between
/// the start of segment `m - 1` (exclusive; from point 0 for segment 1) and
/// it reaches boundary `m`; no point scanned after the last start reaches the
/// boundary looked for next; and the scan ends (`None`) only at a point that
/// reaches the last boundary.
#[verifier::spinoff_prover]
#[verifier::rlimit(50)]
pub proof fn lemma_scan_characterised<T>(
    xs: Seq<T>,
    bounds: Seq<T>,
    reached: spec_fn(T, T) -> bool,
    i: int,
)
    requires
        bounds.len() >= 2,
        0 <= i <= xs.len() <= usize::MAX,
    ensures
        scan_starts(xs, bounds, reached, i) matches Some((found, k)) ==> {
            &&& k == found.len()
            &&& forall|m: int| 1 <= m < found.len() ==> #[trigger] reached(
                xs[found[m] as int],
                bounds[m],
            )
            &&& forall|m: int, t: int|
                1 <= m < found.len() && (if m == 1 { 0 } else { found[m - 1] + 1 }) <= t
                    < found[m] ==> !#[trigger] reached(xs[t], bounds[m])
            &&& forall|t: int|
                (if k == 1 { 0 } else { found[k - 1] + 1 }) <= t < i ==> !#[trigger] reached(
                    xs[t],
                    bounds[k],
                )
        },
        scan_starts(xs, bounds, reached, i) is None ==> exists|t: int|
            0 <= t < i && #[trigger] reached(xs[t], bounds[bounds.len() - 1]),
    decreases i,
{
    lemma_scan_shape(xs, bounds, reached, i);
    if i > 0 {
        lemma_scan_characterised(xs, bounds, reached, i - 1);
        lemma_scan_shape(xs, bounds, reached, i - 1);
        let p = i - 1;
        match scan_starts(xs, bounds, reached, i - 1) {
            None => {
                let t = choose|t: int| 0 <= t < i - 1 && #[trigger] reached(xs[t], bounds[bounds.len() - 1]);
                assert(0 <= t < i && reached(xs[t], bounds[bounds.len() - 1]));
            },
            Some((found, k)) => {
                if reached(xs[p], bounds[k]) {
                    if k + 1 < bounds.len() {
                        let next = found.push(p as usize);
                        assert(next[k] == p);
                        assert forall|m: int| 1 <= m < next.len() implies #[trigger] reached(
                            xs[next[m] as int],
                            bounds[m],
                        ) by {
                            if m < found.len() {
                                assert(next[m] == found[m]);
                            }
                        }
                        assert forall|m: int, t: int|
                            1 <= m < next.len() && (if m == 1 { 0 } else { next[m - 1] + 1 }) <= t
                                < next[m] implies !#[trigger] reached(xs[t], bounds[m]) by {
                            if m < found.len() {
                                assert(next[m] == found[m]);
                                assert(next[m - 1] == found[m - 1]);
                            } else {
                                if m > 1 {
                                    assert(next[m - 1] == found[m - 1]);
                                }
                            }
                        }
                    } else {
                        assert(k == bounds.len() - 1);
                        assert(0 <= p < i && reached(xs[p], bounds[bounds.len() - 1]));
                    }
                }
            },
        }
    }
}


/// The scan's findings, read on the list of starts that `segment_starts`
/// returns (the found starts followed by the grid's length).
proof fn lemma_starts_from_scan<T, F: Fn(T, T) -> bool>(
    xs: Seq<T>,
    bounds: Seq<T>,
    reached: F,
    s: Seq<usize>,
)
    requires
        bounds.len() >= 2,
        xs.len() <= usize::MAX,
        s.len() >= 1,
        scan_starts(xs, bounds, reported(reached), xs.len() as int) == Some(
            (s.drop_last(), s.len() - 1),
        ),
    ensures
        forall|m: int| 1 <= m < s.len() - 1 ==> reached.ensures(
            (xs[#[trigger] s[m] as int], bounds[m]),
            true,
        ),
        forall|m: int, t: int|
            1 <= m < s.len() - 1 && (if m == 1 { 0 } else { s[m - 1] + 1 }) <= t < s[m]
                ==> !reached.ensures((#[trigger] xs[t], #[trigger] bounds[m]), true),
        forall|t: int|
            (if s.len() == 2 { 0 } else { s[s.len() - 2] + 1 }) <= t < xs.len()
                ==> !reached.ensures((#[trigger] xs[t], bounds[s.len() - 1]), true),
{
    let rel = reported(reached);
    let found = s.drop_last();
    lemma_scan_characterised(xs, bounds, rel, xs.len() as int);
    lemma_scan_shape(xs, bounds, rel, xs.len() as int);
    assert(s.len() >= 2);
    assert forall|m: int| 1 <= m < s.len() - 1 implies reached.ensures(
        (xs[#[trigger] s[m] as int], bounds[m]),
        true,
    ) by {
        assert(s[m] == found[m]);
        assert(rel(xs[found[m] as int], bounds[m]));
    }
    assert forall|m: int, t: int|
        1 <= m < s.len() - 1 && (if m == 1 { 0 } else { s[m - 1] + 1 }) <= t < s[m] implies !reached.ensures(
        (#[trigger] xs[t], #[trigger] bounds[m]),
        true,
    ) by {
        assert(s[m] == found[m]);
        if m > 1 {
            assert(s[m - 1] == found[m - 1]);
        }
        assert(!rel(xs[t], bounds[m]));
    }
    assert forall|t: int|
        (if s.len() == 2 { 0 } else { s[s.len() - 2] + 1 }) <= t < xs.len() implies !reached.ensures(
        (#[trigger] xs[t], bounds[s.len() - 1]),
        true,
    ) by {
        let k = s.len() - 1;
        assert(k == found.len());
        if s.len() > 2 {
            assert(s[s.len() - 2] == found[k - 1]);
        }
        assert((if k == 1 { 0 } else { found[k - 1] + 1 }) <= t < xs.len());
        assert(!rel(xs[t], bounds[k]));
    }
}

/// When the scan ends early, some point reaches the last boundary.
proof fn lemma_scan_none<T, F: Fn(T, T) -> bool>(xs: Seq<T>, bounds: Seq<T>, reached: F)
    requires
        bounds.len() >= 2,
        xs.len() <= usize::MAX,
        scan_starts(xs, bounds, reported(reached), xs.len() as int) is None,
    ensures
        exists|t: int|
            0 <= t < xs.len() && reached.ensures((#[trigger] xs[t], bounds[bounds.len() - 1]), true),
{
    let rel = reported(reached);
    lemma_scan_characterised(xs, bounds, rel, xs.len() as int);
    let t = choose|t: int| 0 <= t < xs.len() && #[trigger] rel(xs[t], bounds[bounds.len() - 1]);
    assert(reached.ensures((xs[t], bounds[bounds.len() - 1]), true));
}

/// The start index of each layer's segment on a grid of points `xs`, for the
/// layer boundaries `bounds` (the first boundary is the grid's origin and is
/// not looked for): segment 0 starts at 0, and walking the points in order,
/// each point that reaches the boundary looked for starts the next segment
/// and moves on to the next boundary; the grid's length closes the last
/// segment. `None` when a point reaches the last boundary, which is the end
/// of the grid.
pub fn segment_starts<T: Copy, F: Fn(T, T) -> bool>(xs: &Vec<T>, bounds: &Vec<T>, reached: F) -> (starts: Option<Vec<usize>>)
    requires
        bounds@.len() >= 2,
        forall|a: T, b: T| #[trigger] reached.requires((a, b)),
        forall|a: T, b: T|
            !(#[trigger] reached.ensures((a, b), true) && reached.ensures((a, b), false)),
    ensures
        match scan_starts(xs@, bounds@, reported(reached), xs@.len() as int) {
            None => starts is None,
            Some((found, k)) => starts matches Some(s) && s@ == found.push(xs@.len() as usize),
        },
        starts matches Some(s) ==> segments_fit(s@, s@.len() - 1, xs@.len() as int) && s@[0] == 0
            && s@[s@.len() - 1] == xs@.len() && s@.len() <= bounds@.len(),
        starts matches Some(s) ==> {
            &&& forall|m: int| 1 <= m < s@.len() - 1 ==> reached.ensures(
                (xs@[#[trigger] s@[m] as int], bounds@[m]),
                true,
            )
            &&& forall|m: int, t: int|
                1 <= m < s@.len() - 1 && (if m == 1 { 0 } else { s@[m - 1] + 1 }) <= t < s@[m]
                    ==> !reached.ensures((#[trigger] xs@[t], #[trigger] bounds@[m]), true)
            &&& forall|t: int|
                (if s@.len() == 2 { 0 } else { s@[s@.len() - 2] + 1 }) <= t < xs@.len()
                    ==> !reached.ensures((#[trigger] xs@[t], bounds@[s@.len() - 1]), true)
        },
        starts is None ==> exists|t: int|
            0 <= t < xs@.len() && reached.ensures(
                (#[trigger] xs@[t], bounds@[bounds@.len() - 1]),
                true,
            ),
{
    let ghost rel = reported(reached);
    let mut found: Vec<usize> = Vec::new();
    found.push(0);
    let mut k: usize = 1;
    let n = xs.len();
    let mut i: usize = 0;
    while i < n
        invariant
            n == xs@.len(),
            bounds@.len() >= 2,
            i <= n,
            rel == reported(reached),
            forall|a: T, b: T| #[trigger] reached.requires((a, b)),
            forall|a: T, b: T|
                !(#[trigger] reached.ensures((a, b), true) && reached.ensures((a, b), false)),
            scan_starts(xs@, bounds@, rel, i as int) == Some((found@, k as int)),
        decreases n - i,
    {
        proof {
            lemma_scan_shape(xs@, bounds@, rel, i as int);
        }
        let r = reached(xs[i], bounds[k]);
        proof {
            if !r {
                assert(!rel(xs@[i as int], bounds@[k as int]));
            }
        }
        if r {
            if k < bounds.len() - 1 {
                found.push(i);
                k = k + 1;
            } else {
                proof {
                    lemma_scan_stays_none(xs@, bounds@, rel, i + 1, n as int);
                    lemma_scan_none(xs@, bounds@, reached);
                }
                return None;
            }
        }
        i = i + 1;
    }
    proof {
        lemma_scan_shape(xs@, bounds@, rel, n as int);
    }
    let ghost before = found@;
    found.push(n);
    proof {
        assert(found@.drop_last() =~= before);
        lemma_starts_from_scan(xs@, bounds@, reached, found@);
    }
    proof {
        let s = found@;
        assert forall|a: int| 0 <= a < s.len() - 1 implies #[trigger] s[a] <= s[a + 1] by {
            if a + 1 < s.len() - 1 {
                assert(s[a] == found@.drop_last()[a]);
            }
        }
    }
    Some(found)
}

/// Once the scan has ended it stays ended.
proof fn lemma_scan_stays_none<T>(
    xs: Seq<T>,
    bounds: Seq<T>,
    reached: spec_fn(T, T) -> bool,
    i: int,
    j: int,
)
    requires
        0 <= i <= j,
        scan_starts(xs, bounds, reached, i) is None,
    ensures
        scan_starts(xs, bounds, reached, j) is None,
    decreases j - i,
{
    if i < j {
        lemma_scan_stays_none(xs, bounds, reached, i, j - 1);
    }
}

} // verus!
