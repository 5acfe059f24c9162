//! The feature store's in-memory form: a mapping from image file name to the
//! faces found in that image, together with the base directory the names are
//! relative to.
//!
//! The mapping is kept sorted by name in the strict lexicographic order, with
//! every name occurring at most once. The first entry of a sorted store is the
//! reference image of the transform phase.

use vstd::prelude::*;

use crate::landmarks::FaceV;
use crate::landmarks::Faces;
use crate::text::chars_lt;
use crate::text::lemma_lex_transitive;
use crate::text::lemma_lex_trichotomy;
use crate::text::lex_lt;
use crate::text::str_to_chars;
use vstd::string::StringExecFns;

verus! {

/// One stored entry: an image file name and the faces found in the image.
pub type EntryV = (Seq<char>, Seq<FaceV>);

/// The mathematical value of a feature store.
#[verifier::ext_equal]
pub struct FeaturesV {
    pub basedir: Seq<char>,
    pub entries: Seq<EntryV>,
}

/// The stored entries of a feature store, as mathematical values.
pub open spec fn entries_view(v: Seq<(String, Faces)>) -> Seq<EntryV> {
    v.map_values(|e: (String, Faces)| (e.0@, e.1@))
}

/// The names are strictly increasing, hence unique.
pub open spec fn entries_sorted(entries: Seq<EntryV>) -> bool {
    forall|i: int, j: int|
        0 <= i < j < entries.len() ==> lex_lt(entries[i].0, entries[j].0)
}

/// Inserting a name that is already present replaces its faces; a new name
/// enters at its sorted position.
pub open spec fn insert_entry(entries: Seq<EntryV>, name: Seq<char>, faces: Seq<FaceV>) -> Seq<
    EntryV,
>
    decreases entries.len(),
{
    if entries.len() == 0 {
        seq![(name, faces)]
    } else if lex_lt(name, entries[0].0) {
        seq![(name, faces)] + entries
    } else if name == entries[0].0 {
        seq![(name, faces)] + entries.drop_first()
    } else {
        seq![entries[0]] + insert_entry(entries.drop_first(), name, faces)
    }
}

/// Insertion keeps the entries sorted.
pub proof fn lemma_insert_entry_sorted(entries: Seq<EntryV>, name: Seq<char>, faces: Seq<FaceV>)
    requires
        entries_sorted(entries),
    ensures
        entries_sorted(insert_entry(entries, name, faces)),
    decreases entries.len(),
{
    let out = insert_entry(entries, name, faces);
    if entries.len() == 0 {
    } else if lex_lt(name, entries[0].0) {
        assert forall|i: int, j: int| 0 <= i < j < out.len() implies lex_lt(
            out[i].0,
            out[j].0,
        ) by {
            if i > 0 {
                assert(out[i] == entries[i - 1]);
                assert(out[j] == entries[j - 1]);
            } else if j > 1 {
                lemma_lex_transitive(name, entries[0].0, entries[j - 1].0);
            }
        }
    } else if name == entries[0].0 {
        assert forall|i: int, j: int| 0 <= i < j < out.len() implies lex_lt(
            out[i].0,
            out[j].0,
        ) by {
            if i > 0 {
                assert(out[i] == entries[i]);
            }
            assert(out[j] == entries[j]);
        }
    } else {
        let tail = entries.drop_first();
        lemma_insert_entry_sorted(tail, name, faces);
        let ins = insert_entry(tail, name, faces);
        lemma_lex_trichotomy(name, entries[0].0);
        lemma_insert_entry_head(tail, name, faces);
        assert forall|i: int, j: int| 0 <= i < j < out.len() implies lex_lt(
            out[i].0,
            out[j].0,
        ) by {
            if i > 0 {
                assert(out[i] == ins[i - 1]);
                assert(out[j] == ins[j - 1]);
            } else {
                assert(out[j] == ins[j - 1]);
                if ins[j - 1].0 != name {
                    let k = choose|k: int| 0 <= k < tail.len() && ins[j - 1] == tail[k];
                    assert(tail[k] == entries[k + 1]);
                    assert(lex_lt(entries[0].0, entries[k + 1].0));
                }
            }
        }
    }
}

/// Every entry of an insertion result is the new entry or one of the old
/// ones.
proof fn lemma_insert_entry_head(entries: Seq<EntryV>, name: Seq<char>, faces: Seq<FaceV>)
    ensures
        forall|j: int|
            0 <= j < insert_entry(entries, name, faces).len() ==> (#[trigger] insert_entry(
                entries,
                name,
                faces,
            )[j]).0 == name || (exists|k: int|
                0 <= k < entries.len() && insert_entry(entries, name, faces)[j] == entries[k]),
    decreases entries.len(),
{
    let out = insert_entry(entries, name, faces);
    if entries.len() == 0 {
    } else if lex_lt(name, entries[0].0) {
        assert forall|j: int| 0 <= j < out.len() implies (out[j]).0 == name || (exists|k: int|
            0 <= k < entries.len() && out[j] == entries[k]) by {
            if j > 0 {
                assert(out[j] == entries[j - 1]);
            }
        }
    } else if name == entries[0].0 {
        assert forall|j: int| 0 <= j < out.len() implies (out[j]).0 == name || (exists|k: int|
            0 <= k < entries.len() && out[j] == entries[k]) by {
            if j > 0 {
                assert(out[j] == entries[j]);
            }
        }
    } else {
        let tail = entries.drop_first();
        lemma_insert_entry_head(tail, name, faces);
        let ins = insert_entry(tail, name, faces);
        assert forall|j: int| 0 <= j < out.len() implies (out[j]).0 == name || (exists|k: int|
            0 <= k < entries.len() && out[j] == entries[k]) by {
            if j == 0 {
                assert(out[0] == entries[0]);
            } else {
                assert(out[j] == ins[j - 1]);
                if ins[j - 1].0 != name {
                    let k = choose|k: int| 0 <= k < tail.len() && ins[j - 1] == tail[k];
                    assert(entries[k + 1] == tail[k]);
                }
            }
        }
    }
}

/// A feature store: the base directory and the name-to-faces mapping, sorted
/// by name.
#[derive(Debug, Clone, PartialEq)]
pub struct Features {
    basedir: String,
    features: Vec<(String, Faces)>,
}

impl View for Features {
    type V = FeaturesV;

    closed spec fn view(&self) -> FeaturesV {
        FeaturesV {
            basedir: self.basedir@,
            entries: entries_view(self.features@),
        }
    }
}

impl Features {
    /// The store's names are sorted and unique.
    pub open spec fn wf(&self) -> bool {
        entries_sorted(self@.entries)
    }

    /// An empty store over the given base directory.
    pub fn new(basedir: String) -> (r: Features)
        ensures
            r@.basedir == basedir@,
            r@.entries =~= Seq::<EntryV>::empty(),
            r.wf(),
    {
        let r = Features { basedir, features: Vec::new() };
        proof {
            assert(r@.entries =~= Seq::<EntryV>::empty());
        }
        r
    }

    /// The directory all stored names are relative to.
    pub fn basedir(&self) -> (r: &String)
        ensures
            r@ == self@.basedir,
    {
        &self.basedir
    }

    /// How many images the store holds.
    pub fn len(&self) -> (r: usize)
        ensures
            r == self@.entries.len(),
    {
        self.features.len()
    }

    /// The entry at position `i`, in sorted order.
    pub fn entry(&self, i: usize) -> (r: &(String, Faces))
        requires
            i < self@.entries.len(),
        ensures
            (r.0@, r.1@) == self@.entries[i as int],
    {
        &self.features[i]
    }

    /// Records the faces found in one image.
    ///
    /// A name already present has its faces replaced; a new name enters at
    /// its sorted position, so the store stays sorted.
    pub fn insert(&mut self, name: String, faces: Faces)
        requires
            old(self).wf(),
        ensures
            final(self)@.basedir == old(self)@.basedir,
            final(self)@.entries == insert_entry(old(self)@.entries, name@, faces@),
            final(self).wf(),
    {
        let ghost entries0 = self@.entries;
        let key = str_to_chars(name.as_str());
        let mut i: usize = 0;
        loop
            invariant_except_break
                self == old(self),
                entries0 == self@.entries,
                key@ == name@,
                i <= self.features.len(),
                forall|j: int| 0 <= j < i ==> lex_lt(entries0[j].0, name@),
            ensures
                self == old(self),
                entries0 == self@.entries,
                i <= self.features.len(),
                forall|j: int| 0 <= j < i ==> lex_lt(entries0[j].0, name@),
                i < self.features.len() ==> !lex_lt(entries0[i as int].0, name@),
            decreases self.features.len() - i,
        {
            if i == self.features.len() {
                break ;
            }
            let cur = str_to_chars(self.features[i].0.as_str());
            if !chars_lt(&cur, &key) {
                break ;
            }
            i = i + 1;
        }
        proof {
            lemma_insert_entry_take(entries0, name@, faces@, i as int);
            lemma_insert_entry_sorted(entries0, name@, faces@);
        }
        if i < self.features.len() {
            let cur = str_to_chars(self.features[i].0.as_str());
            let same = !chars_lt(&key, &cur) && !chars_lt(&cur, &key);
            proof {
                lemma_lex_trichotomy(name@, entries0[i as int].0);
            }
            if same {
                self.features.remove(i);
            }
        }
        self.features.insert(i, (name, faces));
        proof {
            let ghost target = insert_entry(entries0, name@, faces@);
            if i < entries0.len() && entries0[i as int].0 == name@ {
                assert(self@.entries =~= target);
            } else {
                assert(self@.entries =~= target);
            }
        }
    }

    /// Removes and returns the first entry in sorted order: the image whose
    /// name is lexicographically least, the reference of a transform run.
    pub fn first_feature(&mut self) -> (r: Option<(String, Faces)>)
        ensures
            final(self)@.basedir == old(self)@.basedir,
            old(self)@.entries.len() == 0 ==> r is None && final(self)@ == old(self)@,
            old(self)@.entries.len() > 0 ==> match r {
                Some(e) => (e.0@, e.1@) == old(self)@.entries[0] && final(self)@.entries == old(
                    self,
                )@.entries.drop_first() && (old(self).wf() ==> forall|k: int|
                    0 <= k < final(self)@.entries.len() ==> lex_lt(
                        e.0@,
                        (#[trigger] final(self)@.entries[k]).0,
                    )),
                None => false,
            },
            old(self).wf() ==> final(self).wf(),
    {
        if self.features.len() == 0 {
            return None;
        }
        let e = self.features.remove(0);
        proof {
            assert(self@.entries =~= old(self)@.entries.drop_first());
            if old(self).wf() {
                assert forall|k: int| 0 <= k < self@.entries.len() implies lex_lt(
                    e.0@,
                    (#[trigger] self@.entries[k]).0,
                ) by {
                    assert(self@.entries[k] == old(self)@.entries[k + 1]);
                    assert(lex_lt(old(self)@.entries[0].0, old(self)@.entries[k + 1].0));
                }
            }
        }
        Some(e)
    }

    /// Drains the store: returns every entry in sorted order and leaves the
    /// store empty.
    pub fn retrieve_features(&mut self) -> (r: Vec<(String, Faces)>)
        ensures
            final(self)@.basedir == old(self)@.basedir,
            final(self)@.entries =~= Seq::<EntryV>::empty(),
            entries_view(r@) == old(self)@.entries,
            final(self).wf(),
    {
        let mut out: Vec<(String, Faces)> = Vec::new();
        core::mem::swap(&mut out, &mut self.features);
        proof {
            assert(self@.entries =~= Seq::<EntryV>::empty());
        }
        out
    }

    /// The path of a stored image: the base directory, a separator, and the
    /// image's file name.
    pub fn feature_path(&self, name: &str) -> (r: String)
        ensures
            r@ == self@.basedir + seq!['/'] + name@,
    {
        let mut out = self.basedir.clone();
        out.append("/");
        out.append(name);
        proof {
            reveal_strlit("/");
            assert("/"@ =~= seq!['/']);
        }
        out
    }
}

/// Scanning past entries whose names are smaller leaves them in place.
proof fn lemma_insert_entry_take(entries: Seq<EntryV>, name: Seq<char>, faces: Seq<FaceV>, i: int)
    requires
        0 <= i <= entries.len(),
        forall|j: int| 0 <= j < i ==> lex_lt(entries[j].0, name),
    ensures
        insert_entry(entries, name, faces) == entries.take(i) + insert_entry(
            entries.skip(i),
            name,
            faces,
        ),
    decreases i,
{
    if i == 0 {
        assert(entries.take(0) + insert_entry(entries.skip(0), name, faces) =~= insert_entry(
            entries.skip(0),
            name,
            faces,
        ));
        assert(entries.skip(0) =~= entries);
    } else {
        lemma_lex_trichotomy(name, entries[0].0);
        let tail = entries.drop_first();
        assert forall|j: int| 0 <= j < i - 1 implies lex_lt(tail[j].0, name) by {
            assert(tail[j] == entries[j + 1]);
        }
        lemma_insert_entry_take(tail, name, faces, i - 1);
        assert(tail.skip(i - 1) =~= entries.skip(i));
        assert(seq![entries[0]] + (tail.take(i - 1) + insert_entry(entries.skip(i), name, faces))
            =~= entries.take(i) + insert_entry(entries.skip(i), name, faces));
    }
}

} // verus!
