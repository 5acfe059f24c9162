//! The landmark data model: bounding boxes, ordered landmark points, and the
//! faces found in one image.
//!
//! Landmark indices are stable: index `k` always denotes the same anatomical
//! feature across every face produced by one predictor model, so the order of
//! the points is significant and never changed.

use vstd::prelude::*;

verus! {

/// A bounding box of a detected face, as four integer pixel edges.
#[derive(Debug, Clone, Copy, PartialEq, Eq, Structural)]
pub struct Rect {
    pub left: i64,
    pub top: i64,
    pub right: i64,
    pub bottom: i64,
}

/// The ordered landmark points of one face, as integer pixel coordinates.
///
/// The cardinality and the order of the points are fixed by the external
/// predictor's output convention.
#[derive(Debug, Clone, PartialEq)]
pub struct Landmarks(Vec<(i64, i64)>);

impl View for Landmarks {
    type V = Seq<(i64, i64)>;

    closed spec fn view(&self) -> Seq<(i64, i64)> {
        self.0@
    }
}

impl Landmarks {
    /// Wraps an ordered list of points.
    pub fn new(points: Vec<(i64, i64)>) -> (r: Landmarks)
        ensures
            r@ == points@,
    {
        Landmarks(points)
    }

    /// How many landmark points this face has.
    pub fn len(&self) -> (r: usize)
        ensures
            r == self@.len(),
    {
        self.0.len()
    }

    /// The point at position `i`.
    pub fn point(&self, i: usize) -> (r: (i64, i64))
        requires
            i < self@.len(),
        ensures
            r == self@[i as int],
    {
        self.0[i]
    }

    /// All points, in order.
    pub fn points(&self) -> (r: &Vec<(i64, i64)>)
        ensures
            r@ == self@,
    {
        &self.0
    }
}

/// The mathematical value of one detected face: its bounding box and its
/// ordered landmark points.
#[verifier::ext_equal]
pub struct FaceV {
    pub rect: Rect,
    pub points: Seq<(i64, i64)>,
}

/// One detected face: a bounding box and the landmarks found inside it.
#[derive(Debug, Clone, PartialEq)]
pub struct Face(pub Rect, pub Landmarks);

impl View for Face {
    type V = FaceV;

    closed spec fn view(&self) -> FaceV {
        FaceV { rect: self.0, points: self.1@ }
    }
}

/// A face's mathematical value is built from its two fields.
pub proof fn lemma_face_view(f: &Face)
    ensures
        f@ == (FaceV { rect: f.0, points: f.1@ }),
{
}

/// The faces of an image, as mathematical values.
pub open spec fn faces_view(v: Seq<Face>) -> Seq<FaceV> {
    v.map_values(|f: Face| f@)
}

/// The faces found in a single image, in detector-output order.
///
/// The order carries no meaning beyond revealing multi-face ambiguity: an
/// image is only stabilized when exactly one face was found in it.
#[derive(Debug, Clone, PartialEq)]
pub struct Faces(Vec<Face>);

impl View for Faces {
    type V = Seq<FaceV>;

    closed spec fn view(&self) -> Seq<FaceV> {
        faces_view(self.0@)
    }
}

impl Faces {
    /// Wraps a list of detected faces.
    pub fn new(faces: Vec<Face>) -> (r: Faces)
        ensures
            r@ == faces_view(faces@),
    {
        Faces(faces)
    }

    /// How many faces were found.
    pub fn len(&self) -> (r: usize)
        ensures
            r == self@.len(),
    {
        self.0.len()
    }

    /// The face at position `i`.
    pub fn face(&self, i: usize) -> (r: &Face)
        requires
            i < self@.len(),
        ensures
            r@ == self@[i as int],
    {
        &self.0[i]
    }

    /// Gives the faces up, in order.
    pub fn into_vec(self) -> (r: Vec<Face>)
        ensures
            faces_view(r@) == self@,
    {
        self.0
    }
}

} // verus!
