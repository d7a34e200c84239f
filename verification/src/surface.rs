//! The per-polygon pipeline state: the ordered, deduplicated set of
//! projected posts, the translation of all coordinates into a local frame
//! that the area kernel's bounds accept, the accumulation of clipped
//! facets into the flat and surface area totals, and the final estimate.
//!
//! The Delaunay triangulation and the polygon/triangle clipping run
//! outside the library in floating point; the application loops over the
//! triangles and feeds each clipped ring back in, and every decision about
//! it — validation, elevation, thresholds, the sums — is made and proved
//! here.

use vstd::prelude::*;

use crate::intersection::{interp_result_matches, spec_interpolated};
use crate::point::{xy_eq, xy_lt, MercatorPoint};
use crate::polygon::{
    ring_elevated,
    ring_in_bounds,
    spec_area3d,
    spec_flat,
    spec_planar_area,
    COORD_LIMIT,
    RING_LIMIT,
};
use crate::triangulation::{triangle_elevated, triangle_in_bounds, Triangle};

verus! {

/// Strictly ascending in the lexicographic `(x, y)` order: no two
/// elements share a key.
pub open spec fn sorted_strict(s: Seq<MercatorPoint>) -> bool {
    forall|i: int, j: int| 0 <= i < j < s.len() ==> xy_lt(#[trigger] s[i], #[trigger] s[j])
}

/// Some element of `s` has the same `(x, y)` key as `p`.
pub open spec fn has_key(s: Seq<MercatorPoint>, p: MercatorPoint) -> bool {
    exists|k: int| 0 <= k < s.len() && xy_eq(#[trigger] s[k], p)
}

/// Inserts a post into the ordered set unless its `(x, y)` key is already
/// present; the first post inserted under a key keeps its elevation.
pub fn insert_post(set: &mut Vec<MercatorPoint>, p: MercatorPoint)
    requires
        sorted_strict(old(set)@),
    ensures
        sorted_strict(final(set)@),
        has_key(old(set)@, p) ==> final(set)@ == old(set)@,
        !has_key(old(set)@, p) ==> exists|k: int|
            0 <= k <= old(set)@.len() && final(set)@ == #[trigger] old(set)@.insert(k, p),
{
    let n = set.len();
    let mut pos: usize = 0;
    while pos < n && set[pos].lt(&p)
    invariant
        n == set@.len(),
        sorted_strict(set@),
        pos <= n,
        forall|i: int| 0 <= i < pos ==> xy_lt(#[trigger] set@[i], p),
    decreases n - pos,
    {
        pos = pos + 1;
    }
    if pos < n {
        let q = set[pos];
        if !p.lt(&q) {
            proof {
                assert(xy_eq(set@[pos as int], p));
            }
            return ;
        }
    }
    proof {
        assert(pos < n ==> xy_lt(p, set@[pos as int]));
        assert(!has_key(set@, p)) by {
            assert forall|k: int| 0 <= k < set@.len() implies !xy_eq(#[trigger] set@[k], p) by {
                if k < pos {
                    assert(xy_lt(set@[k], p));
                } else {
                    if k > pos {
                        assert(xy_lt(set@[pos as int], set@[k]));
                    }
                    assert(xy_lt(p, set@[k]));
                }
            }
        }
    }
    let ghost before = set@;
    set.insert(pos, p);
    proof {
        assert(set@ == before.insert(pos as int, p));
        assert(sorted_strict(set@)) by {
            assert forall|i: int, j: int| 0 <= i < j < set@.len() implies xy_lt(
                #[trigger] set@[i],
                #[trigger] set@[j],
            ) by {
                if i < pos && j < pos {
                } else if i == pos as int {
                    assert(set@[j] == before[j - 1] && j - 1 >= pos);
                    if j - 1 > pos {
                        assert(xy_lt(before[pos as int], before[j - 1]));
                    }
                } else if j == pos as int {
                    assert(set@[i] == before[i]);
                } else if i > pos {
                    assert(set@[i] == before[i - 1] && set@[j] == before[j - 1]);
                } else {
                    assert(set@[i] == before[i] && set@[j] == before[j - 1]);
                    if j - 1 > pos as int {
                        assert(xy_lt(before[i], before[j - 1]));
                    } else {
                        assert(j - 1 == pos as int);
                        assert(before[i] == set@[i]);
                    }
                }
            }
        }
    }
}

/// The point appears verbatim in one of the two sequences.
pub open spec fn came_from(v: MercatorPoint, a: Seq<MercatorPoint>, b: Seq<MercatorPoint>) -> bool {
    (exists|j: int| 0 <= j < a.len() && v == #[trigger] a[j]) || (exists|j: int|
        0 <= j < b.len() && v == #[trigger] b[j])
}

/// The point appears verbatim in the sequence.
pub open spec fn appears_in(v: MercatorPoint, s: Seq<MercatorPoint>) -> bool {
    exists|j: int| 0 <= j < s.len() && v == #[trigger] s[j]
}

/// The batch index `i` is the first in `posts` to bear its `(x, y)` key.
pub open spec fn first_of_key(posts: Seq<MercatorPoint>, i: int) -> bool {
    forall|j: int| 0 <= j < i ==> !xy_eq(#[trigger] posts[j], posts[i])
}

/// Carrying an element of a shorter batch prefix over to a longer one.
proof fn lemma_came_from_longer(
    v: MercatorPoint,
    a: Seq<MercatorPoint>,
    b: Seq<MercatorPoint>,
    i: int,
    l: int,
)
    requires
        0 <= i <= l <= b.len(),
        came_from(v, a, b.take(i)),
    ensures
        came_from(v, a, b.take(l)),
{
    if exists|j: int| 0 <= j < b.take(i).len() && v == #[trigger] b.take(i)[j] {
        let j = choose|j: int| 0 <= j < b.take(i).len() && v == #[trigger] b.take(i)[j];
        assert(v == b.take(l)[j]);
    }
}

/// Adds a batch of posts to the ordered set: afterwards every post's key
/// is present; every element already in the set survives verbatim; the
/// first batch post under a key that was not yet in the set is stored
/// verbatim (so the first post under a key keeps its elevation); and
/// every element of the set came verbatim from the old set or from the
/// batch.
pub fn add_posts(set: &mut Vec<MercatorPoint>, posts: &Vec<MercatorPoint>)
    requires
        sorted_strict(old(set)@),
    ensures
        sorted_strict(final(set)@),
        forall|i: int| 0 <= i < posts@.len() ==> has_key(final(set)@, #[trigger] posts@[i]),
        forall|i: int| 0 <= i < old(set)@.len() ==> appears_in(#[trigger] old(set)@[i], final(set)@),
        forall|i: int|
            0 <= i < posts@.len() && !has_key(old(set)@, #[trigger] posts@[i]) && first_of_key(
                posts@,
                i,
            ) ==> appears_in(posts@[i], final(set)@),
        forall|k: int|
            0 <= k < final(set)@.len() ==> came_from(#[trigger] final(set)@[k], old(set)@, posts@),
{
    let ghost orig = set@;
    proof {
        assert forall|k: int| 0 <= k < set@.len() implies came_from(
            #[trigger] set@[k],
            orig,
            posts@.take(0),
        ) by {
            assert(set@[k] == orig[k]);
        }
    }
    let n = posts.len();
    let mut i: usize = 0;
    while i < n
    invariant
        n == posts@.len(),
        sorted_strict(set@),
        i <= n,
        forall|k: int| 0 <= k < i ==> has_key(set@, #[trigger] posts@[k]),
        forall|k: int| 0 <= k < orig.len() ==> appears_in(#[trigger] orig[k], set@),
        forall|m: int|
            0 <= m < i && !has_key(orig, #[trigger] posts@[m]) && first_of_key(posts@, m)
                ==> appears_in(posts@[m], set@),
        forall|k: int|
            0 <= k < set@.len() ==> came_from(#[trigger] set@[k], orig, posts@.take(i as int)),
    decreases n - i,
    {
        let ghost before = set@;
        insert_post(set, posts[i]);
        proof {
            if !has_key(before, posts@[i as int]) {
                let k = choose|k: int|
                    0 <= k <= before.len() && set@ == #[trigger] before.insert(k, posts@[i as int]);
                assert forall|m: int| 0 <= m < before.len() implies has_key(
                    set@,
                    #[trigger] before[m],
                ) by {
                    if m < k {
                        assert(set@[m] == before[m]);
                        assert(xy_eq(set@[m], before[m]));
                    } else {
                        assert(set@[m + 1] == before[m]);
                        assert(xy_eq(set@[m + 1], before[m]));
                    }
                }
                assert(set@[k] == posts@[i as int]);
                assert(has_key(set@, posts@[i as int]));
                assert forall|m: int| 0 <= m < i + 1 implies has_key(
                    set@,
                    #[trigger] posts@[m],
                ) by {
                    if m < i {
                        let w = choose|w: int| 0 <= w < before.len() && xy_eq(
                            #[trigger] before[w],
                            posts@[m],
                        );
                        if w < k {
                            assert(xy_eq(set@[w], posts@[m]));
                        } else {
                            assert(xy_eq(set@[w + 1], posts@[m]));
                        }
                    }
                }
                assert forall|m: int| 0 <= m < orig.len() implies appears_in(
                    #[trigger] orig[m],
                    set@,
                ) by {
                    let w = choose|w: int| 0 <= w < before.len() && orig[m] == #[trigger] before[w];
                    if w < k {
                        assert(set@[w] == orig[m]);
                    } else {
                        assert(set@[w + 1] == orig[m]);
                    }
                }
                assert forall|m: int|
                    0 <= m < i + 1 && !has_key(orig, #[trigger] posts@[m]) && first_of_key(
                        posts@,
                        m,
                    ) implies appears_in(posts@[m], set@) by {
                    if m == i {
                        assert(set@[k] == posts@[m]);
                    } else {
                        let w = choose|w: int|
                            0 <= w < before.len() && posts@[m] == #[trigger] before[w];
                        if w < k {
                            assert(set@[w] == posts@[m]);
                        } else {
                            assert(set@[w + 1] == posts@[m]);
                        }
                    }
                }
                assert forall|m: int| 0 <= m < set@.len() implies came_from(
                    #[trigger] set@[m],
                    orig,
                    posts@.take(i as int + 1),
                ) by {
                    if m < k {
                        assert(set@[m] == before[m]);
                        lemma_came_from_longer(before[m], orig, posts@, i as int, i as int + 1);
                    } else if m == k {
                        assert(set@[m] == posts@.take(i as int + 1)[i as int]);
                    } else {
                        assert(set@[m] == before[m - 1]);
                        lemma_came_from_longer(before[m - 1], orig, posts@, i as int, i as int + 1);
                    }
                }
            } else {
                // The key is already present: the set is unchanged, and if
                // that contradicts the first-occurrence conditions for this
                // batch index, the earlier bearer of the key witnesses it.
                assert(set@ == before);
                assert forall|m: int|
                    0 <= m < i + 1 && !has_key(orig, #[trigger] posts@[m]) && first_of_key(
                        posts@,
                        m,
                    ) implies appears_in(posts@[m], set@) by {
                    if m == i {
                        let w = choose|w: int| 0 <= w < before.len() && xy_eq(
                            #[trigger] before[w],
                            posts@[i as int],
                        );
                        assert(came_from(before[w], orig, posts@.take(i as int)));
                        if exists|j: int| 0 <= j < orig.len() && before[w] == #[trigger] orig[j] {
                            let j = choose|j: int|
                                0 <= j < orig.len() && before[w] == #[trigger] orig[j];
                            assert(xy_eq(orig[j], posts@[i as int]));
                            assert(has_key(orig, posts@[i as int]));
                            assert(false);
                        } else {
                            let j = choose|j: int|
                                0 <= j < posts@.take(i as int).len() && before[w]
                                    == #[trigger] posts@.take(i as int)[j];
                            assert(posts@.take(i as int)[j] == posts@[j]);
                            assert(xy_eq(posts@[j], posts@[i as int]));
                            assert(!first_of_key(posts@, i as int));
                            assert(false);
                        }
                    }
                }
                assert forall|m: int| 0 <= m < set@.len() implies came_from(
                    #[trigger] set@[m],
                    orig,
                    posts@.take(i as int + 1),
                ) by {
                    lemma_came_from_longer(set@[m], orig, posts@, i as int, i as int + 1);
                }
            }
        }
        i = i + 1;
    }
    proof {
        assert(posts@.take(n as int) =~= posts@);
    }
}

/// Why a polygon and its posts cannot enter the local frame.
#[derive(Clone, Copy, Debug, PartialEq, Eq, Structural)]
pub enum FrameError {
    /// The polygon ring is empty.
    EmptyPolygon,
    /// The points span more than the kernel's coordinate bound on an axis.
    RegionTooLarge,
    /// Some elevation's magnitude exceeds the kernel's coordinate bound.
    ElevationOutOfRange,
}

/// All points translated by `(-dx, -dy)`.
pub open spec fn spec_translated(s: Seq<MercatorPoint>, dx: int, dy: int) -> Seq<MercatorPoint> {
    s.map_values(
        |p: MercatorPoint|
            MercatorPoint { x: (p.x - dx) as i64, y: (p.y - dy) as i64, ele: p.ele },
    )
}

/// Every elevation that a point carries is within the kernel's bound.
pub open spec fn eles_in_limit(s: Seq<MercatorPoint>) -> bool {
    forall|i: int|
        0 <= i < s.len() ==> match (#[trigger] s[i]).ele {
            Some(e) => -(COORD_LIMIT as int) <= e <= COORD_LIMIT as int,
            None => true,
        }
}

/// A kernel-sized window anchored at `(dx, dy)` holds every point, and
/// both anchor coordinates are attained — so `(dx, dy)` is exactly the
/// componentwise minimum corner, and such a window exists precisely when
/// neither axis spreads beyond the kernel's bound.
pub open spec fn frame_fits(all: Seq<MercatorPoint>, dx: int, dy: int) -> bool {
    &&& forall|k: int|
        0 <= k < all.len() ==> dx <= (#[trigger] all[k]).x <= dx + COORD_LIMIT && dy <= all[k].y
            <= dy + COORD_LIMIT
    &&& exists|k: int| 0 <= k < all.len() && (#[trigger] all[k]).x == dx
    &&& exists|k: int| 0 <= k < all.len() && (#[trigger] all[k]).y == dy
}

/// Translates the polygon ring and the posts into a frame anchored at the
/// joint minimum corner, so that the area kernel's coordinate bounds
/// hold. Succeeds if and only if the polygon is non-empty, the joint
/// extent fits the kernel's bound on both axes, and every elevation does
/// too; each error variant is pinned to its cause.
pub fn prepare_local_frame(polygon: &Vec<MercatorPoint>, posts: &Vec<MercatorPoint>) -> (r: Result<
    (Vec<MercatorPoint>, Vec<MercatorPoint>),
    FrameError,
>)
    ensures
        match r {
            Ok(pair) => {
                &&& polygon@.len() > 0
                &&& eles_in_limit(polygon@ + posts@)
                &&& exists|dx: int, dy: int|
                    #[trigger] frame_fits(polygon@ + posts@, dx, dy) && pair.0@ == spec_translated(
                        polygon@,
                        dx,
                        dy,
                    ) && pair.1@ == spec_translated(posts@, dx, dy)
                &&& ring_in_bounds(pair.0@)
                &&& ring_in_bounds(pair.1@)
            },
            Err(e) => {
                &&& (e == FrameError::EmptyPolygon <==> polygon@.len() == 0)
                &&& (e == FrameError::RegionTooLarge ==> polygon@.len() > 0 && !(exists|
                    dx: int,
                    dy: int,
                |
                    #[trigger] frame_fits(polygon@ + posts@, dx, dy)))
                &&& (e == FrameError::ElevationOutOfRange ==> polygon@.len() > 0 && (exists|
                    dx: int,
                    dy: int,
                |
                    #[trigger] frame_fits(polygon@ + posts@, dx, dy)) && !eles_in_limit(
                    polygon@ + posts@,
                ))
            },
        },
{
    let ghost all = polygon@ + posts@;
    if polygon.len() == 0 {
        return Err(FrameError::EmptyPolygon);
    }
    let pb = crate::polygon::mercatorbbox(polygon);
    let mut min_x = pb.min.x;
    let mut min_y = pb.min.y;
    let mut max_x = pb.max.x;
    let mut max_y = pb.max.y;
    if posts.len() > 0 {
        let sb = crate::polygon::mercatorbbox(posts);
        if sb.min.x < min_x {
            min_x = sb.min.x;
        }
        if sb.min.y < min_y {
            min_y = sb.min.y;
        }
        if sb.max.x > max_x {
            max_x = sb.max.x;
        }
        if sb.max.y > max_y {
            max_y = sb.max.y;
        }
    }
    proof {
        assert forall|k: int|
            0 <= k < all.len() implies min_x <= (#[trigger] all[k]).x <= max_x && min_y
            <= all[k].y <= max_y by {
            if k < polygon@.len() {
                assert(all[k] == polygon@[k]);
            } else {
                assert(all[k] == posts@[k - polygon@.len()]);
            }
        }
    }
    // Indices where the joint minimum and maximum are attained.
    let ghost kminx = spec_attained_x(polygon@, posts@, min_x as int);
    let ghost kminy = spec_attained_y(polygon@, posts@, min_y as int);
    let ghost kmaxx = spec_attained_x(polygon@, posts@, max_x as int);
    let ghost kmaxy = spec_attained_y(polygon@, posts@, max_y as int);
    proof {
        lemma_attained(polygon@, posts@, min_x as int, min_y as int, max_x as int, max_y as int);
        assert(all[kminx].x == min_x && all[kminy].y == min_y && all[kmaxx].x == max_x
            && all[kmaxy].y == max_y && 0 <= kminx < all.len() && 0 <= kminy < all.len() && 0
            <= kmaxx < all.len() && 0 <= kmaxy < all.len());
    }
    let sx_opt = max_x.checked_sub(min_x);
    let sy_opt = max_y.checked_sub(min_y);
    let fits: bool = match (sx_opt, sy_opt) {
        (Some(w), Some(h)) => w <= COORD_LIMIT && h <= COORD_LIMIT,
        _ => false,
    };
    if !fits {
        proof {
            assert(max_x - min_x > COORD_LIMIT || max_y - min_y > COORD_LIMIT);
            assert forall|dx: int, dy: int| !#[trigger] frame_fits(all, dx, dy) by {
                if frame_fits(all, dx, dy) {
                    assert(dx <= all[kminx].x && all[kmaxx].x <= dx + COORD_LIMIT);
                    assert(dy <= all[kminy].y && all[kmaxy].y <= dy + COORD_LIMIT);
                    assert(false);
                }
            }
        }
        return Err(FrameError::RegionTooLarge);
    }
    proof {
        assert(frame_fits(all, min_x as int, min_y as int));
        assert forall|k: int|
            0 <= k < polygon@.len() implies min_x <= (#[trigger] polygon@[k]).x <= min_x
            + COORD_LIMIT && min_y <= polygon@[k].y <= min_y + COORD_LIMIT by {
            assert(all[k] == polygon@[k]);
        }
        assert forall|k: int|
            0 <= k < posts@.len() implies min_x <= (#[trigger] posts@[k]).x <= min_x + COORD_LIMIT
            && min_y <= posts@[k].y <= min_y + COORD_LIMIT by {
            assert(all[polygon@.len() + k] == posts@[k]);
        }
    }
    let tp = match translate_checked(polygon, min_x, min_y) {
        Some(v) => v,
        None => {
            proof {
                let b = choose|b: int| 0 <= b < polygon@.len() && !match (
                    #[trigger] polygon@[b]).ele {
                    Some(e) => -(COORD_LIMIT as int) <= e <= COORD_LIMIT as int,
                    None => true,
                };
                assert(all[b] == polygon@[b]);
                assert(!eles_in_limit(all));
            }
            return Err(FrameError::ElevationOutOfRange);
        },
    };
    let ts = match translate_checked(posts, min_x, min_y) {
        Some(v) => v,
        None => {
            proof {
                let b = choose|b: int| 0 <= b < posts@.len() && !match (#[trigger] posts@[b]).ele {
                    Some(e) => -(COORD_LIMIT as int) <= e <= COORD_LIMIT as int,
                    None => true,
                };
                assert(all[polygon@.len() + b] == posts@[b]);
                assert(!eles_in_limit(all));
            }
            return Err(FrameError::ElevationOutOfRange);
        },
    };
    proof {
        assert forall|k: int|
            0 <= k < all.len() implies match (#[trigger] all[k]).ele {
            Some(e) => -(COORD_LIMIT as int) <= e <= COORD_LIMIT as int,
            None => true,
        } by {
            if k < polygon@.len() {
                assert(all[k] == polygon@[k]);
            } else {
                assert(all[k] == posts@[k - polygon@.len()]);
            }
        }
        assert(frame_fits(all, min_x as int, min_y as int) && tp@ == spec_translated(
            polygon@,
            min_x as int,
            min_y as int,
        ) && ts@ == spec_translated(posts@, min_x as int, min_y as int));
    }
    Ok((tp, ts))
}

/// An index of the joint sequence whose x coordinate equals `v`, when one
/// exists.
spec fn spec_attained_x(a: Seq<MercatorPoint>, b: Seq<MercatorPoint>, v: int) -> int {
    choose|k: int| 0 <= k < (a + b).len() && ((a + b)[k]).x == v
}

spec fn spec_attained_y(a: Seq<MercatorPoint>, b: Seq<MercatorPoint>, v: int) -> int {
    choose|k: int| 0 <= k < (a + b).len() && ((a + b)[k]).y == v
}

/// The joint minimum and maximum corners computed from the two parts'
/// bounding boxes are attained by some point of the joint sequence.
proof fn lemma_attained(
    a: Seq<MercatorPoint>,
    b: Seq<MercatorPoint>,
    min_x: int,
    min_y: int,
    max_x: int,
    max_y: int,
)
    requires
        (exists|k: int| 0 <= k < a.len() && (#[trigger] a[k]).x == min_x) || (exists|k: int|
            0 <= k < b.len() && (#[trigger] b[k]).x == min_x),
        (exists|k: int| 0 <= k < a.len() && (#[trigger] a[k]).y == min_y) || (exists|k: int|
            0 <= k < b.len() && (#[trigger] b[k]).y == min_y),
        (exists|k: int| 0 <= k < a.len() && (#[trigger] a[k]).x == max_x) || (exists|k: int|
            0 <= k < b.len() && (#[trigger] b[k]).x == max_x),
        (exists|k: int| 0 <= k < a.len() && (#[trigger] a[k]).y == max_y) || (exists|k: int|
            0 <= k < b.len() && (#[trigger] b[k]).y == max_y),
    ensures
        0 <= spec_attained_x(a, b, min_x) < (a + b).len() && ((a + b)[spec_attained_x(
            a,
            b,
            min_x,
        )]).x == min_x,
        0 <= spec_attained_y(a, b, min_y) < (a + b).len() && ((a + b)[spec_attained_y(
            a,
            b,
            min_y,
        )]).y == min_y,
        0 <= spec_attained_x(a, b, max_x) < (a + b).len() && ((a + b)[spec_attained_x(
            a,
            b,
            max_x,
        )]).x == max_x,
        0 <= spec_attained_y(a, b, max_y) < (a + b).len() && ((a + b)[spec_attained_y(
            a,
            b,
            max_y,
        )]).y == max_y,
{
    lemma_attained_x(a, b, min_x);
    lemma_attained_y(a, b, min_y);
    lemma_attained_x(a, b, max_x);
    lemma_attained_y(a, b, max_y);
}

proof fn lemma_attained_x(a: Seq<MercatorPoint>, b: Seq<MercatorPoint>, v: int)
    requires
        (exists|k: int| 0 <= k < a.len() && (#[trigger] a[k]).x == v) || (exists|k: int|
            0 <= k < b.len() && (#[trigger] b[k]).x == v),
    ensures
        0 <= spec_attained_x(a, b, v) < (a + b).len() && ((a + b)[spec_attained_x(a, b, v)]).x
            == v,
{
    if exists|k: int| 0 <= k < a.len() && (#[trigger] a[k]).x == v {
        let k = choose|k: int| 0 <= k < a.len() && (#[trigger] a[k]).x == v;
        assert(((a + b)[k]).x == v);
    } else {
        let k = choose|k: int| 0 <= k < b.len() && (#[trigger] b[k]).x == v;
        assert(((a + b)[a.len() + k]).x == v);
    }
}

proof fn lemma_attained_y(a: Seq<MercatorPoint>, b: Seq<MercatorPoint>, v: int)
    requires
        (exists|k: int| 0 <= k < a.len() && (#[trigger] a[k]).y == v) || (exists|k: int|
            0 <= k < b.len() && (#[trigger] b[k]).y == v),
    ensures
        0 <= spec_attained_y(a, b, v) < (a + b).len() && ((a + b)[spec_attained_y(a, b, v)]).y
            == v,
{
    if exists|k: int| 0 <= k < a.len() && (#[trigger] a[k]).y == v {
        let k = choose|k: int| 0 <= k < a.len() && (#[trigger] a[k]).y == v;
        assert(((a + b)[k]).y == v);
    } else {
        let k = choose|k: int| 0 <= k < b.len() && (#[trigger] b[k]).y == v;
        assert(((a + b)[a.len() + k]).y == v);
    }
}

/// Translates every point of a window anchored at `(dx, dy)` into the
/// local frame; fails exactly when some elevation's magnitude exceeds the
/// kernel's bound.
fn translate_checked(points: &Vec<MercatorPoint>, dx: i64, dy: i64) -> (r: Option<
    Vec<MercatorPoint>,
>)
    requires
        forall|k: int|
            0 <= k < points@.len() ==> dx <= (#[trigger] points@[k]).x <= dx + COORD_LIMIT && dy
                <= points@[k].y <= dy + COORD_LIMIT,
    ensures
        match r {
            Some(v) => v@ == spec_translated(points@, dx as int, dy as int) && ring_in_bounds(v@)
                && eles_in_limit(points@),
            None => !eles_in_limit(points@),
        },
{
    let n = points.len();
    let mut ret: Vec<MercatorPoint> = Vec::new();
    let mut i: usize = 0;
    while i < n
    invariant
        n == points@.len(),
        forall|k: int|
            0 <= k < points@.len() ==> dx <= (#[trigger] points@[k]).x <= dx + COORD_LIMIT && dy
                <= points@[k].y <= dy + COORD_LIMIT,
        i <= n,
        ret@.len() == i,
        forall|k: int| 0 <= k < i ==> ret@[k] == spec_translated(points@, dx as int, dy as int)[k],
        forall|k: int|
            0 <= k < i ==> match (#[trigger] points@[k]).ele {
                Some(e) => -(COORD_LIMIT as int) <= e <= COORD_LIMIT as int,
                None => true,
            },
        ring_in_bounds(ret@),
    decreases n - i,
    {
        let p = points[i];
        let ok = match p.ele {
            Some(e) => -COORD_LIMIT <= e && e <= COORD_LIMIT,
            None => true,
        };
        if !ok {
            proof {
                assert(!eles_in_limit(points@));
            }
            return None;
        }
        let ghost prev = ret@;
        ret.push(MercatorPoint { x: p.x - dx, y: p.y - dy, ele: p.ele });
        proof {
            assert(forall|k: int| 0 <= k < prev.len() ==> ret@[k] == prev[k]);
        }
        i = i + 1;
    }
    proof {
        assert(ret@ =~= spec_translated(points@, dx as int, dy as int));
    }
    Some(ret)
}

/// The flat-facet area threshold below which a clipped facet is dropped
/// as an artifact: one thousandth of a square meter, in square
/// centimeters.
pub const AREA_THRESHOLD: u64 = 10;

/// The elevation interpolated at `p`, zero when undefined (only read when
/// the facet passes the elevation checks).
pub open spec fn interp_val(p: MercatorPoint, t: Triangle) -> int {
    match spec_interpolated(p, t) {
        Some(q) => q,
        None => 0,
    }
}

/// Every vertex of the clipped ring gets an interpolated elevation within
/// the kernel's bounds.
pub open spec fn spec_elevations_ok(ring: Seq<MercatorPoint>, t: Triangle) -> bool {
    crate::intersection::spec_bary_den(t) != 0 && forall|k: int|
        0 <= k < ring.len() ==> (spec_interpolated(#[trigger] ring[k], t) matches Some(q)
            && -(COORD_LIMIT as int) <= q <= COORD_LIMIT as int)
}

/// The clipped ring with the interpolated elevation attached to each
/// vertex.
pub open spec fn spec_elevated_ring(ring: Seq<MercatorPoint>, t: Triangle) -> Seq<MercatorPoint> {
    ring.map_values(
        |p: MercatorPoint|
            MercatorPoint { x: p.x, y: p.y, ele: Some(interp_val(p, t) as i64) },
    )
}

/// Every vertex of the ring lies within the kernel's coordinate bounds.
pub open spec fn ring_xy_in_bounds(ring: Seq<MercatorPoint>) -> bool {
    forall|k: int|
        0 <= k < ring.len() ==> crate::intersection::point_xy_in_bounds(#[trigger] ring[k])
}

/// What one clipped facet contributes: `None` when the facet is dropped —
/// too few vertices, too many, a vertex out of bounds, a missing or
/// out-of-bounds elevation, or a flat area under the threshold — else the
/// pair of its flat (planar) and 3D areas in square centimeters.
pub open spec fn spec_facet_outcome(ring: Seq<MercatorPoint>, t: Triangle) -> Option<(int, int)> {
    if ring.len() < 3 || ring.len() > RING_LIMIT as int || !ring_xy_in_bounds(ring)
        || !spec_elevations_ok(ring, t) {
        None
    } else {
        let er = spec_elevated_ring(ring, t);
        let a2 = spec_planar_area(er);
        if a2 < AREA_THRESHOLD as int {
            None
        } else {
            Some((a2, spec_area3d(er)))
        }
    }
}

/// The running totals over the kept facets: the summed flat (planar)
/// areas, the summed 3D areas, and how many facets were kept.
#[derive(Clone, Copy, Debug)]
pub struct SurfaceTotals {
    pub flat_cm2: u128,
    pub surface_cm2: u128,
    pub facets: u64,
}

impl SurfaceTotals {
    /// Each sum is bounded by one maximal facet area per kept facet, so
    /// the running sums can never overflow.
    pub open spec fn wf(&self) -> bool {
        self.flat_cm2 <= self.facets * 0xffff_ffff_ffff_ffff && self.surface_cm2 <= self.facets
            * 0xffff_ffff_ffff_ffff
    }

    /// Fresh totals: nothing accumulated.
    pub fn new() -> (r: SurfaceTotals)
        ensures
            r.flat_cm2 == 0 && r.surface_cm2 == 0 && r.facets == 0,
            r.wf(),
    {
        SurfaceTotals { flat_cm2: 0, surface_cm2: 0, facets: 0 }
    }
}

/// Folds one clipped facet into the totals: validates the ring,
/// interpolates its elevations from the triangle, drops artifacts below
/// the area threshold, and accumulates the flat and 3D areas of a kept
/// facet. Returns whether the facet was kept.
pub fn process_facet(acc: &mut SurfaceTotals, ring: &Vec<MercatorPoint>, tri: &Triangle) -> (kept:
    bool)
    requires
        old(acc).wf(),
        old(acc).facets < 0xffff_ffff_ffff_ffff,
        triangle_in_bounds(*tri),
        triangle_elevated(*tri),
    ensures
        final(acc).wf(),
        final(acc).facets <= old(acc).facets + 1,
        kept == (spec_facet_outcome(ring@, *tri) is Some),
        match spec_facet_outcome(ring@, *tri) {
            Some(pair) => {
                &&& final(acc).flat_cm2 == old(acc).flat_cm2 + pair.0
                &&& final(acc).surface_cm2 == old(acc).surface_cm2 + pair.1
                &&& final(acc).facets == old(acc).facets + 1
            },
            None => *final(acc) == *old(acc),
        },
{
    let n = ring.len();
    if n < 3 || n > RING_LIMIT {
        return false;
    }
    let mut i: usize = 0;
    while i < n
    invariant
        n == ring@.len(),
        i <= n,
        *acc == *old(acc),
        old(acc).wf(),
        forall|k: int|
            0 <= k < i ==> crate::intersection::point_xy_in_bounds(#[trigger] ring@[k]),
    decreases n - i,
    {
        let p = ring[i];
        if p.x < -COORD_LIMIT || p.x > COORD_LIMIT || p.y < -COORD_LIMIT || p.y > COORD_LIMIT {
            proof {
                assert(!crate::intersection::point_xy_in_bounds(ring@[i as int]));
                assert(!ring_xy_in_bounds(ring@));
            }
            return false;
        }
        i = i + 1;
    }
    let elevated = crate::intersection::elevate_ring(ring, tri);
    let mut j: usize = 0;
    while j < n
    invariant
        n == ring@.len(),
        elevated@.len() == n,
        *acc == *old(acc),
        old(acc).wf(),
        triangle_in_bounds(*tri),
        triangle_elevated(*tri),
        forall|k: int|
            0 <= k < n ==> {
                &&& (#[trigger] elevated@[k]).x == ring@[k].x
                &&& elevated@[k].y == ring@[k].y
                &&& interp_result_matches(ring@[k], *tri, elevated@[k].ele)
            },
        j <= n,
        forall|k: int|
            0 <= k < j ==> (spec_interpolated(#[trigger] ring@[k], *tri) matches Some(q) && -(
            COORD_LIMIT as int) <= q <= COORD_LIMIT as int),
        forall|k: int|
            0 <= k < j ==> ((#[trigger] elevated@[k]).ele matches Some(e) && -COORD_LIMIT <= e
                <= COORD_LIMIT),
    decreases n - j,
    {
        let ok = match elevated[j].ele {
            Some(e) => -COORD_LIMIT <= e && e <= COORD_LIMIT,
            None => false,
        };
        if !ok {
            proof {
                assert(!spec_elevations_ok(ring@, *tri)) by {
                    if crate::intersection::spec_bary_den(*tri) != 0 {
                        assert(!(spec_interpolated(ring@[j as int], *tri) matches Some(q) && -(
                        COORD_LIMIT as int) <= q <= COORD_LIMIT as int));
                    } else {
                        assert(spec_interpolated(ring@[0], *tri) is None);
                    }
                }
            }
            return false;
        }
        j = j + 1;
    }
    proof {
        if crate::intersection::spec_bary_den(*tri) == 0 && n > 0 {
            assert(spec_interpolated(ring@[0], *tri) is None);
            assert(elevated@[0].ele matches Some(e) && -COORD_LIMIT <= e <= COORD_LIMIT);
            assert(false);
        }
        assert(spec_elevations_ok(ring@, *tri));
        assert(elevated@ =~= spec_elevated_ring(ring@, *tri));
        assert(ring_in_bounds(elevated@));
        assert(ring_elevated(elevated@));
    }
    let flattened = crate::polygon::flat(&elevated);
    proof {
        crate::polygon::lemma_flat_area_is_shoelace(elevated@);
        assert(ring_in_bounds(spec_flat(elevated@)));
        assert(ring_elevated(spec_flat(elevated@)));
    }
    let a2 = crate::polygon::calculate_3d_surface_area(&flattened);
    if a2 < AREA_THRESHOLD {
        return false;
    }
    let a3 = crate::polygon::calculate_3d_surface_area(&elevated);
    proof {
        let f0 = old(acc).flat_cm2 as int;
        let s0 = old(acc).surface_cm2 as int;
        let c0 = old(acc).facets as int;
        assert(f0 + a2 <= (c0 + 1) * 0xffff_ffff_ffff_ffff && s0 + a3 <= (c0 + 1)
            * 0xffff_ffff_ffff_ffff && (c0 + 1) * 0xffff_ffff_ffff_ffff
            < 0x1_0000_0000_0000_0000_0000_0000_0000_0000) by (nonlinear_arith)
            requires
                f0 <= c0 * 0xffff_ffff_ffff_ffff,
                s0 <= c0 * 0xffff_ffff_ffff_ffff,
                0 <= c0 < 0xffff_ffff_ffff_ffff,
                0 <= a2 <= 0xffff_ffff_ffff_ffff,
                0 <= a3 <= 0xffff_ffff_ffff_ffff,
        ;
    }
    acc.flat_cm2 = acc.flat_cm2 + a2 as u128;
    acc.surface_cm2 = acc.surface_cm2 + a3 as u128;
    acc.facets = acc.facets + 1;
    true
}

/// The 3D estimate: the geodesic reference area scaled by the ratio of
/// the summed 3D areas to the summed flat areas, in integer arithmetic:
/// `surface * geodesic / flat`, rounded down. `None` when no flat area
/// was accumulated (the ratio is undefined) or the product leaves `u128`.
pub fn estimate_surface(totals: &SurfaceTotals, geodesic_cm2: u64) -> (r: Option<u128>)
    ensures
        match r {
            Some(e) => totals.flat_cm2 > 0 && totals.surface_cm2 * geodesic_cm2 <= u128::MAX && e
                == (totals.surface_cm2 as int) * (geodesic_cm2 as int) / (totals.flat_cm2 as int),
            None => totals.flat_cm2 == 0 || totals.surface_cm2 * geodesic_cm2 > u128::MAX,
        },
{
    if totals.flat_cm2 == 0 {
        return None;
    }
    match totals.surface_cm2.checked_mul(geodesic_cm2 as u128) {
        Some(prod) => Some(prod / totals.flat_cm2),
        None => None,
    }
}

} // verus!
