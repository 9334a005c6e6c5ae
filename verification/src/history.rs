//! Snapshot reconstruction: derives a document's full text, before and
//! after a change, and the list of addressable snippets, from one stored
//! diff record.  Pure transforms; each change row is self-sufficient.

use vstd::prelude::*;

use crate::types::ChangeElement;
use crate::types::ChangeType;
use crate::types::CodemkinError;

verus! {

/// Text after the change: the concatenation of every `Same` and `Add` run.
pub open spec fn current_text(s: Seq<ChangeElement>) -> Seq<char>
    decreases s.len(),
{
    if s.len() == 0 {
        Seq::empty()
    } else {
        current_text(s.drop_last()) + (if s.last().type_ is Remove {
            Seq::<char>::empty()
        } else {
            s.last().content@
        })
    }
}

/// Text before the change: the concatenation of every `Same` and `Remove` run.
pub open spec fn previous_text(s: Seq<ChangeElement>) -> Seq<char>
    decreases s.len(),
{
    if s.len() == 0 {
        Seq::empty()
    } else {
        previous_text(s.drop_last()) + (if s.last().type_ is Add {
            Seq::<char>::empty()
        } else {
            s.last().content@
        })
    }
}

/// Number of snippets: the `Add` and `Remove` runs of a change.
pub open spec fn spec_snippet_count(s: Seq<ChangeElement>) -> nat
    decreases s.len(),
{
    if s.len() == 0 {
        0
    } else {
        spec_snippet_count(s.drop_last()) + (if s.last().type_ is Same {
            0nat
        } else {
            1nat
        })
    }
}

/// The snippets of a change, in order: every non-`Same` element.
pub open spec fn spec_snippets(s: Seq<ChangeElement>) -> Seq<ChangeElement>
    decreases s.len(),
{
    if s.len() == 0 {
        Seq::empty()
    } else if s.last().type_ is Same {
        spec_snippets(s.drop_last())
    } else {
        spec_snippets(s.drop_last()).push(s.last())
    }
}

proof fn lemma_take_one_more<A>(s: Seq<A>, i: int)
    requires
        0 <= i < s.len(),
    ensures
        s.take(i + 1).drop_last() =~= s.take(i),
        s.take(i + 1).last() == s[i],
{
}

/// Reconstructs the document text after the change: the concatenation of
/// every `Same` and `Add` run.
pub fn get_file_text(elements: &Vec<ChangeElement>) -> (r: String)
    ensures
        r@ == current_text(elements@),
{
    let mut text = String::new();
    let mut i: usize = 0;
    while i < elements.len()
        invariant
            i <= elements.len(),
            text@ == current_text(elements@.take(i as int)),
        decreases elements.len() - i,
    {
        proof {
            lemma_take_one_more(elements@, i as int);
        }
        match elements[i].type_ {
            ChangeType::Remove => {},
            _ => {
                text.append(elements[i].content.as_str());
            },
        }
        i = i + 1;
    }
    proof {
        assert(elements@.take(elements@.len() as int) =~= elements@);
    }
    text
}

/// Reconstructs the document text after the change.
pub fn reconstruct_current(elements: &Vec<ChangeElement>) -> (r: String)
    ensures
        r@ == current_text(elements@),
{
    get_file_text(elements)
}

/// Reconstructs the document text from immediately before the change: the
/// concatenation of every `Same` and `Remove` run.
pub fn reconstruct_previous(elements: &Vec<ChangeElement>) -> (r: String)
    ensures
        r@ == previous_text(elements@),
{
    let mut text = String::new();
    let mut i: usize = 0;
    while i < elements.len()
        invariant
            i <= elements.len(),
            text@ == previous_text(elements@.take(i as int)),
        decreases elements.len() - i,
    {
        proof {
            lemma_take_one_more(elements@, i as int);
        }
        match elements[i].type_ {
            ChangeType::Add => {},
            _ => {
                text.append(elements[i].content.as_str());
            },
        }
        i = i + 1;
    }
    proof {
        assert(elements@.take(elements@.len() as int) =~= elements@);
    }
    text
}

/// Counts the snippets of a change: every `Add` or `Remove` element.
pub fn get_snippets_count(elements: &Vec<ChangeElement>) -> (r: usize)
    ensures
        r == spec_snippet_count(elements@),
{
    let mut snippets_count: usize = 0;
    let mut i: usize = 0;
    while i < elements.len()
        invariant
            i <= elements.len(),
            snippets_count == spec_snippet_count(elements@.take(i as int)),
            snippets_count <= i,
        decreases elements.len() - i,
    {
        proof {
            lemma_take_one_more(elements@, i as int);
        }
        match elements[i].type_ {
            ChangeType::Same => {},
            _ => {
                snippets_count = snippets_count + 1;
            },
        }
        i = i + 1;
    }
    proof {
        assert(elements@.take(elements@.len() as int) =~= elements@);
    }
    snippets_count
}

/// Enumerates the snippets of a change in order: each non-`Same` element,
/// paired with its zero-based snippet index.
pub fn extract_snippets(elements: &Vec<ChangeElement>) -> (r: Vec<(usize, ChangeElement)>)
    ensures
        r@.len() == spec_snippet_count(elements@),
        forall|k: int|
            0 <= k < r@.len() ==> r@[k].0 == k && r@[k].1 == spec_snippets(elements@)[k],
{
    let mut snippets: Vec<(usize, ChangeElement)> = Vec::new();
    let mut i: usize = 0;
    while i < elements.len()
        invariant
            i <= elements.len(),
            snippets@.len() == spec_snippet_count(elements@.take(i as int)),
            snippets@.map_values(|p: (usize, ChangeElement)| p.1) =~= spec_snippets(
                elements@.take(i as int),
            ),
            forall|k: int| 0 <= k < snippets@.len() ==> #[trigger] snippets@[k].0 == k,
            spec_snippet_count(elements@.take(i as int)) == spec_snippets(
                elements@.take(i as int),
            ).len(),
        decreases elements.len() - i,
    {
        proof {
            lemma_take_one_more(elements@, i as int);
        }
        match elements[i].type_ {
            ChangeType::Same => {},
            _ => {
                let index = snippets.len();
                snippets.push((index, elements[i].clone()));
            },
        }
        i = i + 1;
        proof {
            assert(snippets@.map_values(|p: (usize, ChangeElement)| p.1) =~= spec_snippets(
                elements@.take(i as int),
            ));
        }
    }
    proof {
        assert(elements@.take(elements@.len() as int) =~= elements@);
    }
    snippets
}

/// Returns the content of the snippet with the given index, if any: the
/// text a viewer copies when that snippet is selected.
pub fn find_snippet(elements: &Vec<ChangeElement>, snippet_index: usize) -> (r: Option<String>)
    ensures
        snippet_index < spec_snippet_count(elements@) ==> (r matches Some(c) && c@
            == spec_snippets(elements@)[snippet_index as int].content@),
        snippet_index >= spec_snippet_count(elements@) ==> r is None,
{
    let snippets = extract_snippets(elements);
    if snippet_index < snippets.len() {
        let (_, elem) = &snippets[snippet_index];
        Some(elem.content.clone())
    } else {
        None
    }
}

/// One browsable version of a file, as the viewer consumes it: the
/// elements of a stored change row and, alongside, how many snippets it
/// holds.
pub struct FileState {
    pub snippet_count: usize,
    pub elements: Vec<ChangeElement>,
}

impl FileState {
    /// The recorded count is the element sequence's snippet count.
    pub open spec fn wf(self) -> bool {
        self.snippet_count == spec_snippet_count(self.elements@)
    }
}

/// Decodes one stored change row into a browsable file state.  A row
/// that does not hold the canonical serialized form is corrupt history:
/// surfaced to the caller, never silently repaired, and without effect on
/// other rows.
pub fn file_state_from_row(row: &str) -> (r: Result<FileState, CodemkinError>)
    ensures
        r matches Ok(fs) ==> fs.wf() && crate::codec::spec_serialize_elements(fs.elements@)
            == row@,
        r matches Err(e) ==> e == CodemkinError::CorruptHistory,
        (exists|x: Seq<ChangeElement>| row@ == crate::codec::spec_serialize_elements(x))
            ==> r is Ok,
{
    let elements = match crate::codec::parse_elements(row) {
        Ok(v) => v,
        Err(e) => {
            return Err(e);
        },
    };
    let snippet_count = get_snippets_count(&elements);
    Ok(FileState { snippet_count, elements })
}

/// The raw tagged sequence of a change, for display: each element as a
/// pair of its tag and its content.
pub fn render_as_unified(elements: &Vec<ChangeElement>) -> (r: Vec<(ChangeType, String)>)
    ensures
        r@.len() == elements@.len(),
        forall|k: int|
            0 <= k < r@.len() ==> r@[k].0 == elements@[k].type_ && r@[k].1@
                == elements@[k].content@,
{
    let mut rows: Vec<(ChangeType, String)> = Vec::new();
    let mut i: usize = 0;
    while i < elements.len()
        invariant
            i <= elements.len(),
            rows@.len() == i,
            forall|k: int|
                0 <= k < i ==> rows@[k].0 == elements@[k].type_ && rows@[k].1@
                    == elements@[k].content@,
        decreases elements.len() - i,
    {
        rows.push((elements[i].type_, elements[i].content.clone()));
        i = i + 1;
    }
    rows
}

} // verus!
