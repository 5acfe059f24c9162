//! The projection selector: picks the four-point correspondence that defines
//! the alignment transform of one image.
//!
//! Five anchor landmarks (the nose tip and the four eye corners) are taken
//! from the reference face and from the target face. Four candidate subsets
//! are built by dropping one eye corner at a time, in the order of the eye
//! corners (left outer, left inner, right inner, right outer); the nose tip is
//! always kept. The first candidate whose control points are non-degenerate on
//! both sides is selected. A candidate is degenerate when three of its four
//! control points are collinear — coincident points are a special case — for
//! then no unique transform exists.

use vstd::prelude::*;

use crate::geometry::collinear;
use crate::geometry::is_collinear;
use crate::landmarks::Landmarks;

verus! {

/// Positions of the five anchor landmarks inside a predictor's landmark
/// sequence.
///
/// The concrete indices are a property of the predictor model in use, so they
/// are configuration, not constants of the library.
#[derive(Debug, Clone, Copy, PartialEq, Eq, Structural)]
pub struct AnchorIndices {
    pub nose: usize,
    pub left_outer: usize,
    pub left_inner: usize,
    pub right_inner: usize,
    pub right_outer: usize,
}

impl AnchorIndices {
    /// Every anchor index falls inside a landmark sequence of length `n`.
    pub open spec fn in_bounds(&self, n: nat) -> bool {
        self.nose < n && self.left_outer < n && self.left_inner < n && self.right_inner < n
            && self.right_outer < n
    }

    /// The anchor indices of the widespread 68-point predictor convention:
    /// nose tip 30, eye corners 36, 39, 42 and 45.
    pub fn standard() -> (r: AnchorIndices)
        ensures
            r.nose == 30usize,
            r.left_outer == 36usize,
            r.left_inner == 39usize,
            r.right_inner == 42usize,
            r.right_outer == 45usize,
    {
        AnchorIndices { nose: 30, left_outer: 36, left_inner: 39, right_inner: 42, right_outer: 45 }
    }
}

/// The five anchor points of a face, in the fixed order: nose tip, then the
/// eye corners from left outer to right outer.
pub open spec fn anchor_points(lm: Seq<(i64, i64)>, idx: AnchorIndices) -> Seq<(i64, i64)> {
    seq![
        lm[idx.nose as int],
        lm[idx.left_outer as int],
        lm[idx.left_inner as int],
        lm[idx.right_inner as int],
        lm[idx.right_outer as int],
    ]
}

/// Candidate `k` keeps the nose tip and drops the eye corner at position
/// `k + 1` of the anchor sequence.
pub open spec fn candidate(anchors: Seq<(i64, i64)>, k: int) -> Seq<(i64, i64)> {
    anchors.remove(k + 1)
}

/// Four control points admit no unique transform when three of them are
/// collinear.
pub open spec fn degenerate(q: Seq<(i64, i64)>) -> bool {
    collinear(q[0], q[1], q[2]) || collinear(q[0], q[1], q[3]) || collinear(q[0], q[2], q[3])
        || collinear(q[1], q[2], q[3])
}

/// Candidate `k` yields a well-defined transform: it is non-degenerate on the
/// reference side and on the target side.
pub open spec fn candidate_ok(ra: Seq<(i64, i64)>, ta: Seq<(i64, i64)>, k: int) -> bool {
    !degenerate(candidate(ra, k)) && !degenerate(candidate(ta, k))
}

/// The chosen four-point correspondence: the transform mapping
/// `reference[i]` onto `target[i]` aligns the target image to the reference
/// pose.
#[derive(Debug, Clone, PartialEq)]
pub struct Selection {
    /// Which candidate was taken, in priority order.
    pub candidate: usize,
    /// The four control points on the reference face.
    pub reference: Vec<(i64, i64)>,
    /// The four control points on the target face.
    pub target: Vec<(i64, i64)>,
}

/// Why no correspondence could be selected.
#[derive(Debug, Clone, Copy, PartialEq, Eq, Structural)]
pub enum SelectError {
    /// An anchor index lies outside one of the landmark sequences.
    MissingAnchors,
    /// Every candidate subset is degenerate.
    NoValidProjection,
}

/// The five anchor points of a face, as values.
fn extract_anchors(lm: &Landmarks, idx: &AnchorIndices) -> (r: Option<Vec<(i64, i64)>>)
    ensures
        match r {
            Some(a) => idx.in_bounds(lm@.len()) && a@ == anchor_points(lm@, *idx),
            None => !idx.in_bounds(lm@.len()),
        },
{
    let n = lm.len();
    if idx.nose >= n || idx.left_outer >= n || idx.left_inner >= n || idx.right_inner >= n
        || idx.right_outer >= n {
        return None;
    }
    let mut out: Vec<(i64, i64)> = Vec::new();
    out.push(lm.point(idx.nose));
    out.push(lm.point(idx.left_outer));
    out.push(lm.point(idx.left_inner));
    out.push(lm.point(idx.right_inner));
    out.push(lm.point(idx.right_outer));
    proof {
        assert(out@ =~= anchor_points(lm@, *idx));
    }
    Some(out)
}

/// The four control points of candidate `k`.
fn candidate_points(anchors: &Vec<(i64, i64)>, k: usize) -> (r: Vec<(i64, i64)>)
    requires
        anchors@.len() == 5,
        k < 4,
    ensures
        r@ == candidate(anchors@, k as int),
        r@.len() == 4,
{
    let mut out: Vec<(i64, i64)> = Vec::new();
    let mut i: usize = 0;
    while i < 5
        invariant
            anchors@.len() == 5,
            k < 4,
            i <= 5,
            out@ == if i <= k + 1 {
                anchors@.take(i as int)
            } else {
                anchors@.remove(k + 1).take(i - 1)
            },
        decreases 5 - i,
    {
        if i != k + 1 {
            out.push(anchors[i]);
            proof {
                let rem = anchors@.remove(k as int + 1);
                if i < k + 1 {
                    assert(anchors@.take(i as int).push(anchors@[i as int]) =~= anchors@.take(
                        i as int + 1,
                    ));
                } else {
                    assert(rem[i - 1] == anchors@[i as int]);
                    assert(rem.take(i - 1).push(anchors@[i as int]) =~= rem.take(i as int));
                }
            }
        } else {
            proof {
                assert(anchors@.take(i as int) =~= anchors@.remove(k + 1).take(i as int));
            }
        }
        i = i + 1;
    }
    proof {
        assert(anchors@.remove(k + 1).take(4) =~= anchors@.remove(k + 1));
    }
    out
}

/// Decides whether four control points are degenerate.
fn is_degenerate(q: &Vec<(i64, i64)>) -> (r: bool)
    requires
        q@.len() == 4,
    ensures
        r == degenerate(q@),
{
    is_collinear(q[0], q[1], q[2]) || is_collinear(q[0], q[1], q[3]) || is_collinear(
        q[0],
        q[2],
        q[3],
    ) || is_collinear(q[1], q[2], q[3])
}

/// Selects the first candidate subset, in priority order, that yields a
/// well-defined transform between the reference face and the target face.
///
/// The result is exactly one of: the first non-degenerate candidate; a
/// report that an anchor index does not exist in one of the two landmark
/// sequences; or a report that all four candidates are degenerate.
pub fn select_projection(reference: &Landmarks, target: &Landmarks, idx: &AnchorIndices) -> (r:
    Result<Selection, SelectError>)
    ensures
        match r {
            Ok(sel) => {
                &&& idx.in_bounds(reference@.len())
                &&& idx.in_bounds(target@.len())
                &&& sel.candidate < 4
                &&& candidate_ok(
                    anchor_points(reference@, *idx),
                    anchor_points(target@, *idx),
                    sel.candidate as int,
                )
                &&& forall|j: int|
                    0 <= j < sel.candidate ==> !candidate_ok(
                        anchor_points(reference@, *idx),
                        anchor_points(target@, *idx),
                        j,
                    )
                &&& sel.reference@ == candidate(
                    anchor_points(reference@, *idx),
                    sel.candidate as int,
                )
                &&& sel.target@ == candidate(anchor_points(target@, *idx), sel.candidate as int)
            },
            Err(SelectError::MissingAnchors) => !idx.in_bounds(reference@.len())
                || !idx.in_bounds(target@.len()),
            Err(SelectError::NoValidProjection) => {
                &&& idx.in_bounds(reference@.len())
                &&& idx.in_bounds(target@.len())
                &&& forall|j: int|
                    0 <= j < 4 ==> !candidate_ok(
                        anchor_points(reference@, *idx),
                        anchor_points(target@, *idx),
                        j,
                    )
            },
        },
{
    let ra = match extract_anchors(reference, idx) {
        Some(a) => a,
        None => {
            return Err(SelectError::MissingAnchors);
        },
    };
    let ta = match extract_anchors(target, idx) {
        Some(a) => a,
        None => {
            return Err(SelectError::MissingAnchors);
        },
    };
    let mut k: usize = 0;
    while k < 4
        invariant
            ra@ == anchor_points(reference@, *idx),
            ta@ == anchor_points(target@, *idx),
            ra@.len() == 5,
            ta@.len() == 5,
            idx.in_bounds(reference@.len()),
            idx.in_bounds(target@.len()),
            k <= 4,
            forall|j: int| 0 <= j < k ==> !candidate_ok(ra@, ta@, j),
        decreases 4 - k,
    {
        let cr = candidate_points(&ra, k);
        let ct = candidate_points(&ta, k);
        if !is_degenerate(&cr) && !is_degenerate(&ct) {
            return Ok(Selection { candidate: k, reference: cr, target: ct });
        }
        k = k + 1;
    }
    Err(SelectError::NoValidProjection)
}

} // verus!
