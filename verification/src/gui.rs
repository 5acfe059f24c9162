//! The state of the graphical front end.
//!
//! The window shell itself (widgets, the file dialog, reading the picked
//! file) lives outside the library; it hands each outcome to `update` as a
//! plain value. This module holds what the front end decides: which store is
//! loaded and how an event changes the state.

use vstd::prelude::*;

use crate::decode::decode_features;
use crate::decode::spec_decode;
use crate::features::Features;
use crate::features::FeaturesV;

verus! {

/// An event of the graphical front end.
#[derive(Debug, Clone, Copy, PartialEq, Eq, Structural)]
pub enum Message {
    /// Nothing to do.
    NoOp,
    /// The user asked to open an encoded feature file.
    SelectFeaturesFile,
}

/// The front end's state: the images on display and the feature store
/// loaded from a picked file, if any.
#[derive(Debug, Clone, PartialEq)]
pub struct Gui {
    images: Vec<String>,
    features: Option<Features>,
}

impl Gui {
    /// The loaded feature store, as a mathematical value.
    pub closed spec fn loaded(&self) -> Option<FeaturesV> {
        match self.features {
            Some(ref f) => Some(f@),
            None => None,
        }
    }

    /// How many images are on display.
    pub closed spec fn image_count(&self) -> nat {
        self.images@.len()
    }

    /// A loaded store is always sorted.
    pub closed spec fn wf(&self) -> bool {
        match self.features {
            Some(ref f) => f.wf(),
            None => true,
        }
    }

    /// A fresh front end: nothing loaded, nothing on display.
    pub fn new() -> (r: Gui)
        ensures
            r.loaded() is None,
            r.image_count() == 0,
            r.wf(),
    {
        Gui { images: Vec::new(), features: None }
    }

    /// The window title.
    pub fn title(&self) -> (r: String)
        ensures
            r@ == "Extract Facial Features"@,
    {
        "Extract Facial Features".to_owned()
    }

    /// The loaded feature store.
    pub fn features(&self) -> (r: &Option<Features>)
        ensures
            match r {
                Some(f) => self.loaded() == Some(f@),
                None => self.loaded() is None,
            },
    {
        &self.features
    }

    /// Applies one event.
    ///
    /// For a file-selection event, `file_content` holds the text of the
    /// picked file, or nothing when the dialog was dismissed or the file
    /// could not be read. A file that decodes replaces the loaded store; any
    /// other outcome leaves the state unchanged.
    pub fn update(&mut self, message: Message, file_content: Option<&str>)
        requires
            old(self).wf(),
        ensures
            final(self).wf(),
            final(self).image_count() == old(self).image_count(),
            match message {
                Message::NoOp => *final(self) == *old(self),
                Message::SelectFeaturesFile => match file_content {
                    None => *final(self) == *old(self),
                    Some(s) => match spec_decode(s@) {
                        Some(fv) => final(self).loaded() == Some(fv),
                        None => *final(self) == *old(self),
                    },
                },
            },
    {
        match message {
            Message::NoOp => {},
            Message::SelectFeaturesFile => {
                match file_content {
                    None => {},
                    Some(s) => {
                        match decode_features(s) {
                            Some(f) => {
                                self.features = Some(f);
                            },
                            None => {},
                        }
                    },
                }
            },
        }
    }
}

} // verus!
