//! Decision logic of the batch pipeline.
//!
//! The pipeline itself reads directories, runs the external detector and
//! writes images; none of that happens here. This module makes the decisions
//! those steps depend on: which detector variant may be used, which image is
//! the reference, which images are stabilized and which are skipped, and what
//! an output file's backup is called.

use vstd::prelude::*;

use crate::features::entries_view;
use crate::features::Features;
use crate::landmarks::Face;
use crate::landmarks::FaceV;
use crate::landmarks::Faces;
use crate::text::chars_eq;
use crate::text::str_to_chars;
use vstd::string::StringExecFns;

verus! {

/// The two detector variants the pipeline can be configured with.
#[derive(Debug, Clone, Copy, PartialEq, Eq, Structural)]
pub enum DetectorKind {
    /// The fast default detector.
    Fast,
    /// The slower, more accurate detector; it needs a model file.
    Accurate,
}

/// A configuration error, reported before any work begins.
#[derive(Debug, Clone, Copy, PartialEq, Eq, Structural)]
pub enum ConfigError {
    /// The accurate detector was requested without a path to its model.
    AccurateModelMissing,
}

/// The detector configuration of a run.
///
/// The accurate variant carries the model path it was configured with, so
/// that requesting it without a model is impossible once construction
/// succeeded.
#[derive(Debug, Clone, PartialEq)]
pub struct DetectorConfig {
    kind: DetectorKind,
    model: Option<String>,
}

impl DetectorConfig {
    /// The accurate variant always has a model path.
    pub open spec fn wf(&self) -> bool {
        self.kind() == DetectorKind::Accurate ==> self.model_path() is Some
    }

    /// Which detector variant was configured.
    pub closed spec fn kind(&self) -> DetectorKind {
        self.kind
    }

    /// The model path of the accurate detector, when one was supplied.
    pub closed spec fn model_path(&self) -> Option<Seq<char>> {
        match self.model {
            Some(ref m) => Some(m@),
            None => None,
        }
    }

    /// Configures a detector variant.
    ///
    /// Requesting the accurate variant without a model path is refused; the
    /// fast variant needs no model and ignores one.
    pub fn new(kind: DetectorKind, model: Option<String>) -> (r: Result<
        DetectorConfig,
        ConfigError,
    >)
        ensures
            match r {
                Ok(c) => {
                    &&& c.wf()
                    &&& c.kind() == kind
                    &&& kind == DetectorKind::Accurate ==> match (c.model_path(), model) {
                        (Some(p), Some(ref m)) => p == m@,
                        _ => false,
                    }
                },
                Err(ConfigError::AccurateModelMissing) => kind == DetectorKind::Accurate
                    && model is None,
            },
    {
        if kind == DetectorKind::Accurate && model.is_none() {
            return Err(ConfigError::AccurateModelMissing);
        }
        Ok(DetectorConfig { kind, model })
    }

    /// Which detector variant was configured.
    pub fn detector_kind(&self) -> (r: DetectorKind)
        ensures
            r == self.kind(),
    {
        self.kind
    }

    /// The configured model path of the accurate detector.
    pub fn model(&self) -> (r: &Option<String>)
        ensures
            match r {
                Some(m) => self.model_path() == Some(m@),
                None => self.model_path() is None,
            },
    {
        &self.model
    }
}

/// What the pipeline does with one non-reference image.
#[derive(Debug, Clone, PartialEq)]
pub enum PlannedAction {
    /// Exactly one face was found: warp the image onto the reference pose of
    /// this face.
    Stabilize(Face),
    /// No face was found: skip the image with a warning.
    SkipNoFaces,
    /// Several faces were found: skip the image with a warning.
    SkipMultipleFaces,
}

/// Why no transform plan exists for a feature store.
#[derive(Debug, Clone, Copy, PartialEq, Eq, Structural)]
pub enum PlanError {
    /// The store holds no image at all.
    NoImages,
    /// The reference image does not have exactly one face; the payload is
    /// the number found.
    AmbiguousReference(usize),
    /// The explicitly chosen reference name is not in the store.
    MissingReference,
}

/// The planned action matches the number of faces of the entry.
pub open spec fn action_matches(action: &PlannedAction, faces: Seq<FaceV>) -> bool {
    match action {
        PlannedAction::Stabilize(f) => faces.len() == 1 && f@ == faces[0],
        PlannedAction::SkipNoFaces => faces.len() == 0,
        PlannedAction::SkipMultipleFaces => faces.len() > 1,
    }
}

/// The transform phase of a run, fully decided.
///
/// The reference image is copied verbatim to the output directory; each
/// planned action stands for one further image, in sorted name order.
#[derive(Debug, Clone, PartialEq)]
pub struct TransformPlan {
    /// The directory the image names are relative to.
    pub basedir: String,
    /// The name of the reference image.
    pub reference_name: String,
    /// The single face of the reference image.
    pub reference: Face,
    /// Every other image of the store, with its decided action.
    pub actions: Vec<(String, PlannedAction)>,
}

/// Decides the whole transform phase from a feature store.
///
/// The reference is the first image in sorted name order. A store without
/// images, or whose reference does not have exactly one face, admits no plan:
/// an ambiguous reference is fatal. Every other image is stabilized when it
/// has exactly one face and skipped otherwise; skips are never fatal.
pub fn plan_transform(features: Features) -> (r: Result<TransformPlan, PlanError>)
    requires
        features.wf(),
    ensures
        match r {
            Ok(plan) => {
                &&& features@.entries.len() > 0
                &&& features@.entries[0].1.len() == 1
                &&& plan.basedir@ == features@.basedir
                &&& plan.reference_name@ == features@.entries[0].0
                &&& plan.reference@ == features@.entries[0].1[0]
                &&& plan.actions@.len() == features@.entries.len() - 1
                &&& forall|i: int|
                    0 <= i < plan.actions@.len() ==> (#[trigger] plan.actions@[i]).0@
                        == features@.entries[i + 1].0 && action_matches(
                        &plan.actions@[i].1,
                        features@.entries[i + 1].1,
                    )
            },
            Err(PlanError::NoImages) => features@.entries.len() == 0,
            Err(PlanError::AmbiguousReference(n)) => features@.entries.len() > 0 && n
                == features@.entries[0].1.len() && n != 1,
            Err(PlanError::MissingReference) => false,
        },
{
    let ghost entries0 = features@.entries;
    let mut features = features;
    let (reference_name, reference_faces) = match features.first_feature() {
        Some(e) => e,
        None => {
            return Err(PlanError::NoImages);
        },
    };
    if reference_faces.len() != 1 {
        return Err(PlanError::AmbiguousReference(reference_faces.len()));
    }
    let mut reference_vec = reference_faces.into_vec();
    let reference = reference_vec.remove(0);
    let basedir = features.basedir().clone();
    let rest = features.retrieve_features();
    proof {
        assert(entries_view(rest@) =~= entries0.drop_first());
    }
    let actions = classify_rest(rest);
    Ok(TransformPlan { basedir, reference_name, reference, actions })
}

/// Decides the transform phase with an explicitly chosen reference image,
/// overriding the sorted-name default.
///
/// The chosen name must be in the store and must have exactly one face; the
/// other images keep their sorted order and the usual skip rules.
pub fn plan_transform_from(features: Features, reference_name: &str) -> (r: Result<
    TransformPlan,
    PlanError,
>)
    requires
        features.wf(),
    ensures
        match r {
            Ok(plan) => exists|idx: int|
                {
                    &&& 0 <= idx < features@.entries.len()
                    &&& (#[trigger] features@.entries[idx]).0 == reference_name@
                    &&& features@.entries[idx].1.len() == 1
                    &&& plan.basedir@ == features@.basedir
                    &&& plan.reference_name@ == reference_name@
                    &&& plan.reference@ == features@.entries[idx].1[0]
                    &&& plan.actions@.len() == features@.entries.len() - 1
                    &&& forall|i: int|
                        0 <= i < plan.actions@.len() ==> (#[trigger] plan.actions@[i]).0@
                            == features@.entries.remove(idx)[i].0 && action_matches(
                            &plan.actions@[i].1,
                            features@.entries.remove(idx)[i].1,
                        )
                },
            Err(PlanError::MissingReference) => forall|k: int|
                0 <= k < features@.entries.len() ==> (#[trigger] features@.entries[k]).0
                    != reference_name@,
            Err(PlanError::AmbiguousReference(n)) => exists|idx: int|
                {
                    &&& 0 <= idx < features@.entries.len()
                    &&& (#[trigger] features@.entries[idx]).0 == reference_name@
                    &&& features@.entries[idx].1.len() == n
                    &&& n != 1
                },
            Err(PlanError::NoImages) => false,
        },
{
    let ghost entries0 = features@.entries;
    let mut features = features;
    let basedir = features.basedir().clone();
    let mut rest = features.retrieve_features();
    let key = str_to_chars(reference_name);
    let mut idx: usize = 0;
    loop
        invariant_except_break
            key@ == reference_name@,
            entries_view(rest@) == entries0,
            idx <= rest@.len(),
            forall|k: int| 0 <= k < idx ==> (#[trigger] entries0[k]).0 != reference_name@,
        ensures
            key@ == reference_name@,
            entries_view(rest@) == entries0,
            idx <= rest@.len(),
            forall|k: int| 0 <= k < idx ==> (#[trigger] entries0[k]).0 != reference_name@,
            idx < rest@.len() ==> entries0[idx as int].0 == reference_name@,
        decreases rest@.len() - idx,
    {
        if idx == rest.len() {
            break ;
        }
        let cur = str_to_chars(rest[idx].0.as_str());
        proof {
            assert(entries_view(rest@)[idx as int] == (rest@[idx as int].0@, rest@[idx as int].1@));
        }
        if chars_eq(&cur, &key) {
            break ;
        }
        idx = idx + 1;
    }
    if idx == rest.len() {
        return Err(PlanError::MissingReference);
    }
    let ghost found = idx as int;
    let ghost before = rest@;
    let (reference_name, reference_faces) = rest.remove(idx);
    proof {
        assert((reference_name@, reference_faces@) == entries0[found]);
    }
    if reference_faces.len() != 1 {
        return Err(PlanError::AmbiguousReference(reference_faces.len()));
    }
    let mut reference_vec = reference_faces.into_vec();
    let reference = reference_vec.remove(0);
    proof {
        assert forall|j: int| 0 <= j < rest@.len() implies entries_view(rest@)[j]
            == entries0.remove(found)[j] by {
            if j < found {
                assert(rest@[j] == before[j]);
                assert(entries_view(before)[j] == entries0[j]);
            } else {
                assert(rest@[j] == before[j + 1]);
                assert(entries_view(before)[j + 1] == entries0[j + 1]);
            }
        }
        assert(entries_view(rest@) =~= entries0.remove(found));
    }
    let actions = classify_rest(rest);
    Ok(TransformPlan { basedir, reference_name, reference, actions })
}

/// Classifies every remaining image: stabilize those with exactly one face,
/// skip the rest.
fn classify_rest(rest: Vec<(String, Faces)>) -> (actions: Vec<(String, PlannedAction)>)
    ensures
        actions@.len() == rest@.len(),
        forall|i: int|
            0 <= i < actions@.len() ==> (#[trigger] actions@[i]).0@ == entries_view(rest@)[i].0
                && action_matches(&actions@[i].1, entries_view(rest@)[i].1),
{
    let ghost restv = entries_view(rest@);
    let mut rest = rest;
    let mut actions: Vec<(String, PlannedAction)> = Vec::new();
    proof {
        assert(restv.skip(0) =~= restv);
    }
    while rest.len() > 0
        invariant
            restv.len() == actions@.len() + rest@.len(),
            entries_view(rest@) == restv.skip(actions@.len() as int),
            forall|i: int|
                0 <= i < actions@.len() ==> (#[trigger] actions@[i]).0@ == restv[i].0
                    && action_matches(&actions@[i].1, restv[i].1),
        decreases rest@.len(),
    {
        let ghost done = actions@.len() as int;
        let ghost old_rest = rest@;
        let (name, faces) = rest.remove(0);
        proof {
            assert forall|j: int| 0 <= j < rest@.len() implies entries_view(rest@)[j]
                == restv.skip(done + 1)[j] by {
                assert(rest@[j] == old_rest[j + 1]);
                assert(entries_view(old_rest)[j + 1] == restv.skip(done)[j + 1]);
            }
            assert(entries_view(rest@) =~= restv.skip(done + 1));
            assert(entries_view(old_rest)[done - done] == (name@, faces@));
            assert((name@, faces@) == restv[done]);
        }
        let action = if faces.len() == 0 {
            PlannedAction::SkipNoFaces
        } else if faces.len() == 1 {
            let mut v = faces.into_vec();
            PlannedAction::Stabilize(v.remove(0))
        } else {
            PlannedAction::SkipMultipleFaces
        };
        actions.push((name, action));
    }
    actions
}

/// The single face of an image, when the image has exactly one.
///
/// An image with zero or several faces yields nothing: it cannot serve as a
/// reference and is skipped by the transform phase.
pub fn single_face(faces: &Faces) -> (r: Option<&Face>)
    ensures
        match r {
            Some(f) => faces@.len() == 1 && f@ == faces@[0],
            None => faces@.len() != 1,
        },
{
    if faces.len() == 1 {
        Some(faces.face(0))
    } else {
        None
    }
}

/// The backup name of an output file: the file's name with a backup suffix
/// appended after any existing extension.
///
/// A feature file is never overwritten in place; the previous file is
/// renamed to this name first, and a failure to rename aborts the write.
pub fn backup_name(name: &str) -> (r: String)
    ensures
        r@ == name@ + seq!['.', 'b', 'a', 'k'],
{
    let mut out = name.to_owned();
    out.append(".bak");
    proof {
        reveal_strlit(".bak");
        assert(".bak"@ =~= seq!['.', 'b', 'a', 'k']);
    }
    out
}

} // verus!
