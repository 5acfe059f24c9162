//! Landmark-based face alignment: a verified core for aligning a collection
//! of face photographs to a single reference pose.
//!
//! The library holds the data model for detected faces (bounding boxes and
//! ordered landmark points), the feature store that persists the
//! filename-to-faces mapping as structured text, the projection selector that
//! picks a well-posed four-point correspondence from five anchor landmarks,
//! and the decision logic of the batch pipeline. Floating-point resampling,
//! image decoding and the external face detector live outside the library.

pub mod geometry;
pub mod gui;
pub mod codec;
pub mod decode;
pub mod pipeline;
pub mod roundtrip;
pub mod selector;
pub mod landmarks;
pub mod text;
pub mod features;
