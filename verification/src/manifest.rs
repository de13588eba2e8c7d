//! The manifest of a model pack: which file holds which model, and the
//! label reported on detection.

use vstd::prelude::*;

verus! {

/// Identifier of the first-stage (embedding) model in a manifest.
pub const LAYER1_ID: &'static str = "layer1";

/// Identifier of the second-stage (recurrent classifier) model in a manifest.
pub const LAYER2_ID: &'static str = "layer2";

/// Phrase reported on detection when the manifest carries no positive label.
pub const DEFAULT_PHRASE: &'static str = "wake";

/// One model listed in a manifest.
pub struct ManifestModel {
    pub id: String,
    pub file: String,
}

/// A parsed pack manifest (the JSON file at the root of a model pack).
pub struct Manifest {
    pub models: Vec<ManifestModel>,
    /// Optional label per class. Index = class id. For binary: `[negative, positive]`.
    pub labels: Option<Vec<String>>,
}

/// The file of the last model listed with identifier `id`, if any.
pub open spec fn spec_model_file(models: Seq<ManifestModel>, id: Seq<char>) -> Option<Seq<char>>
    decreases models.len(),
{
    if models.len() == 0 {
        None
    } else if models.last().id@ == id {
        Some(models.last().file@)
    } else {
        spec_model_file(models.drop_last(), id)
    }
}

/// The file found for `id` is that of the last model listed with that id,
/// wherever it stands in the list; there is none only when no model has it.
pub proof fn lemma_model_file_is_last_match(models: Seq<ManifestModel>, id: Seq<char>)
    ensures
        spec_model_file(models, id) is None <==> forall|j: int|
            0 <= j < models.len() ==> #[trigger] models[j].id@ != id,
        spec_model_file(models, id) matches Some(f) ==> exists|i: int|
            0 <= i < models.len() && #[trigger] models[i].id@ == id && models[i].file@ == f && (
            forall|j: int| i < j < models.len() ==> #[trigger] models[j].id@ != id),
    decreases models.len(),
{
    if models.len() > 0 {
        let prev = models.drop_last();
        let last = models.len() - 1;
        lemma_model_file_is_last_match(prev, id);
        assert(forall|j: int| 0 <= j < prev.len() ==> prev[j] == models[j]);
        if models[last].id@ == id {
            assert(models[last].id@ == id);
        } else if spec_model_file(prev, id) is Some {
            let f = spec_model_file(prev, id)->Some_0;
            let i = choose|i: int|
                0 <= i < prev.len() && #[trigger] prev[i].id@ == id && prev[i].file@ == f && (
                forall|j: int| i < j < prev.len() ==> #[trigger] prev[j].id@ != id);
            assert(models[i].id@ == id);
            assert forall|j: int| i < j < models.len() implies #[trigger] models[j].id@ != id by {
                if j < last {
                    assert(prev[j].id@ != id);
                }
            }
        } else {
            assert forall|j: int| 0 <= j < models.len() implies #[trigger] models[j].id@ != id by {
                if j < last {
                    assert(prev[j].id@ != id);
                }
            }
        }
    }
}

/// The phrase reported on detection is the label of class 1 (the positive
/// class) whenever the labels have an entry there, however many there are;
/// otherwise it is "wake".
pub proof fn lemma_phrase_is_positive_label(labels: Option<Vec<String>>)
    ensures
        labels is None ==> spec_detected_phrase(labels) == "wake"@,
        labels matches Some(l) ==> ((l@.len() >= 2 ==> spec_detected_phrase(labels) == l@[1]@)
            && (l@.len() < 2 ==> spec_detected_phrase(labels) == "wake"@)),
{
}

/// The text of an optional string.
pub open spec fn opt_text(o: Option<String>) -> Option<Seq<char>> {
    match o {
        Some(s) => Some(s@),
        None => None,
    }
}

/// The phrase reported on detection: the label of class 1 when there is
/// one, `DEFAULT_PHRASE` otherwise.
pub open spec fn spec_detected_phrase(labels: Option<Vec<String>>) -> Seq<char> {
    match labels {
        Some(l) => if l@.len() > 1 {
            l@[1]@
        } else {
            DEFAULT_PHRASE@
        },
        None => DEFAULT_PHRASE@,
    }
}

/// Entry `i` is the first among `names` that is named `name`.
pub open spec fn is_first_entry(names: Seq<String>, name: Seq<char>, i: int) -> bool {
    &&& 0 <= i < names.len()
    &&& names[i]@ == name
    &&& forall|j: int| 0 <= j < i ==> names[j]@ != name
}

/// Some entry among `names` is named `name`.
pub open spec fn has_entry(names: Seq<String>, name: Seq<char>) -> bool {
    exists|j: int| 0 <= j < names.len() && names[j]@ == name
}

/// The position of the first of the pack's entries named `name`, if any.
pub fn find_entry(names: &Vec<String>, name: &String) -> (r: Option<usize>)
    ensures
        match r {
            Some(i) => is_first_entry(names@, name@, i as int),
            None => !has_entry(names@, name@),
        },
{
    let mut i: usize = 0;
    while i < names.len()
        invariant
            i <= names@.len(),
            forall|j: int| 0 <= j < i ==> names@[j]@ != name@,
        decreases names@.len() - i,
    {
        if names[i] == *name {
            return Some(i);
        }
        i += 1;
    }
    None
}

/// A model the pack's manifest needs is not in the pack.
#[derive(PartialEq, Eq, Structural, Clone, Copy, Debug)]
pub enum PackError {
    /// No model with id `layer1` whose file is in the pack.
    MissingLayer1,
    /// No model with id `layer2` whose file is in the pack.
    MissingLayer2,
}

/// The model with identifier `id` is listed and its file is among `names`.
pub open spec fn layer_present(models: Seq<ManifestModel>, names: Seq<String>, id: Seq<char>) -> bool {
    match spec_model_file(models, id) {
        Some(f) => has_entry(names, f),
        None => false,
    }
}

impl Manifest {
    /// The file of the model with identifier `id`; when several models carry
    /// it, the one listed last.
    pub fn model_file(&self, id: &str) -> (r: Option<String>)
        ensures
            opt_text(r) == spec_model_file(self.models@, id@),
            r is None <==> forall|j: int|
                0 <= j < self.models@.len() ==> #[trigger] self.models@[j].id@ != id@,
            r matches Some(f) ==> exists|i: int|
                0 <= i < self.models@.len() && #[trigger] self.models@[i].id@ == id@
                    && self.models@[i].file@ == f@ && (forall|j: int|
                    i < j < self.models@.len() ==> #[trigger] self.models@[j].id@ != id@),
    {
        proof {
            lemma_model_file_is_last_match(self.models@, id@);
        }
        let wanted = String::from_str(id);
        let mut found: Option<String> = None;
        let mut i: usize = 0;
        while i < self.models.len()
            invariant
                i <= self.models@.len(),
                wanted@ == id@,
                opt_text(found) == spec_model_file(self.models@.take(i as int), id@),
            decreases self.models@.len() - i,
        {
            assert(self.models@.take(i + 1).drop_last() =~= self.models@.take(i as int));
            if self.models[i].id == wanted {
                found = Some(self.models[i].file.clone());
            }
            i += 1;
        }
        assert(self.models@.take(i as int) =~= self.models@);
        found
    }

    /// The positions among the pack's entries `names` of the files of the
    /// first- and second-stage models: an error for the first of them that
    /// is not listed or whose file is not in the pack.
    pub fn locate_layers(&self, names: &Vec<String>) -> (r: Result<(usize, usize), PackError>)
        ensures
            !layer_present(self.models@, names@, LAYER1_ID@) ==> r == Err::<
                (usize, usize),
                PackError,
            >(PackError::MissingLayer1),
            layer_present(self.models@, names@, LAYER1_ID@) && !layer_present(
                self.models@,
                names@,
                LAYER2_ID@,
            ) ==> r == Err::<(usize, usize), PackError>(PackError::MissingLayer2),
            layer_present(self.models@, names@, LAYER1_ID@) && layer_present(
                self.models@,
                names@,
                LAYER2_ID@,
            ) ==> (r matches Ok((a, b)) && is_first_entry(
                names@,
                spec_model_file(self.models@, LAYER1_ID@)->Some_0,
                a as int,
            ) && is_first_entry(names@, spec_model_file(self.models@, LAYER2_ID@)->Some_0, b as int)),
    {
        let first = match self.model_file(LAYER1_ID) {
            Some(f) => find_entry(names, &f),
            None => None,
        };
        let first = match first {
            Some(a) => a,
            None => return Err(PackError::MissingLayer1),
        };
        let second = match self.model_file(LAYER2_ID) {
            Some(f) => find_entry(names, &f),
            None => None,
        };
        match second {
            Some(b) => Ok((first, b)),
            None => Err(PackError::MissingLayer2),
        }
    }

    /// The phrase to report when the wake word is detected.
    pub fn detected_phrase(&self) -> (r: String)
        ensures
            r@ == spec_detected_phrase(self.labels),
            self.labels is None ==> r@ == DEFAULT_PHRASE@,
            self.labels matches Some(l) ==> ((l@.len() >= 2 ==> r@ == l@[1]@) && (l@.len() < 2
                ==> r@ == DEFAULT_PHRASE@)),
    {
        match &self.labels {
            Some(labels) => {
                if labels.len() > 1 {
                    labels[1].clone()
                } else {
                    String::from_str(DEFAULT_PHRASE)
                }
            },
            None => String::from_str(DEFAULT_PHRASE),
        }
    }
}

} // verus!
