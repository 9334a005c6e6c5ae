//! Change log store: durable, queryable persistence for repositories,
//! documents, events and changes.  Rows are identified by their position
//! (row `i` carries id `i + 1`), the change log is append-only, and every
//! operation either applies in full or leaves the store untouched.

use vstd::prelude::*;

use crate::history::current_text;
use crate::types::Change;
use crate::types::ChangeElement;
use crate::types::CodemkinError;
use crate::types::Document;
use crate::types::Event;
use crate::types::RepoStatus;
use crate::types::Repository;

verus! {

/// Whether a stored string and a borrowed one hold the same characters.
pub fn string_eq_str(a: &String, b: &str) -> (r: bool)
    ensures
        r == (a@ == b@),
{
    let owned = b.to_owned();
    *a == owned
}

/// The changes of one document, in append order.
pub open spec fn changes_for(s: Seq<Change>, document_id: usize) -> Seq<Change>
    decreases s.len(),
{
    if s.len() == 0 {
        Seq::empty()
    } else if s.last().document_id == document_id {
        changes_for(s.drop_last(), document_id).push(s.last())
    } else {
        changes_for(s.drop_last(), document_id)
    }
}

/// The changes of one document strictly after a timestamp (`None` keeps
/// them all), in append order.
pub open spec fn spec_changes_after(
    s: Seq<Change>,
    document_id: usize,
    after: Option<u64>,
) -> Seq<Change>
    decreases s.len(),
{
    if s.len() == 0 {
        Seq::empty()
    } else {
        let rest = spec_changes_after(s.drop_last(), document_id, after);
        let keep = s.last().document_id == document_id && (match after {
            Some(t) => s.last().created_at > t,
            None => true,
        });
        if keep {
            rest.push(s.last())
        } else {
            rest
        }
    }
}

/// The in-memory model of the change log database.
pub struct Store {
    pub repositories: Vec<Repository>,
    pub documents: Vec<Document>,
    pub events: Vec<Event>,
    pub changes: Vec<Change>,
}

impl Store {
    /// A repository id names an existing row.
    pub open spec fn valid_repo_id(self, id: usize) -> bool {
        1 <= id <= self.repositories@.len()
    }

    /// A document id names an existing row.
    pub open spec fn valid_document_id(self, id: usize) -> bool {
        1 <= id <= self.documents@.len()
    }

    /// An event id names an existing row.
    pub open spec fn valid_event_id(self, id: usize) -> bool {
        1 <= id <= self.events@.len()
    }

    /// The row of a repository id.
    pub open spec fn repo(self, id: usize) -> Repository {
        self.repositories@[id - 1]
    }

    /// The row of a document id.
    pub open spec fn document(self, id: usize) -> Document {
        self.documents@[id - 1]
    }

    /// The row of an event id.
    pub open spec fn event(self, id: usize) -> Event {
        self.events@[id - 1]
    }

    /// Well-formedness of the store.
    ///
    /// Ids equal row position plus one; foreign keys name existing rows;
    /// canonical paths are unique within a repository; an event's parent
    /// is an earlier event of the same repository, so every parent chain
    /// descends and ends; a repository's current event is one of its own
    /// events; and the changes' timestamps never decrease along the log.
    pub open spec fn wf(self) -> bool {
        &&& forall|i: int|
            0 <= i < self.repositories@.len() ==> (#[trigger] self.repositories@[i]).id == i
                + 1
        &&& forall|i: int|
            0 <= i < self.documents@.len() ==> (#[trigger] self.documents@[i]).id == i + 1
        &&& forall|i: int|
            0 <= i < self.events@.len() ==> (#[trigger] self.events@[i]).id == i + 1
        &&& forall|i: int|
            0 <= i < self.changes@.len() ==> (#[trigger] self.changes@[i]).id == i + 1
        &&& forall|i: int|
            0 <= i < self.documents@.len() ==> self.valid_repo_id(
                (#[trigger] self.documents@[i]).repository_id,
            )
        &&& forall|i: int, j: int|
            0 <= i < j < self.documents@.len() && (#[trigger] self.documents@[i]).repository_id
                == (#[trigger] self.documents@[j]).repository_id
                ==> self.documents@[i].canonical_path@ != self.documents@[j].canonical_path@
        &&& forall|i: int|
            0 <= i < self.events@.len() ==> self.valid_repo_id(
                (#[trigger] self.events@[i]).repository_id,
            )
        &&& forall|i: int|
            0 <= i < self.events@.len() ==> ((#[trigger] self.events@[i]).parent_event matches
            Some(p) ==> 1 <= p <= i && self.event(p).repository_id
                == self.events@[i].repository_id)
        &&& forall|i: int|
            0 <= i < self.repositories@.len() ==> ((
            #[trigger] self.repositories@[i]).current_event matches Some(e)
                ==> self.valid_event_id(e) && self.event(e).repository_id == i + 1)
        &&& forall|i: int|
            0 <= i < self.changes@.len() ==> self.valid_document_id(
                (#[trigger] self.changes@[i]).document_id,
            )
        &&& forall|i: int|
            0 <= i < self.changes@.len() ==> self.valid_event_id(
                (#[trigger] self.changes@[i]).event_id,
            )
        &&& forall|i: int, j: int|
            0 <= i < j < self.changes@.len() ==> (#[trigger] self.changes@[i]).created_at <= (
            #[trigger] self.changes@[j]).created_at
        &&& forall|i: int|
            0 <= i < self.documents@.len() ==> (
            #[trigger] self.documents@[i]).content@.len() < usize::MAX
        &&& forall|i: int|
            0 <= i < self.documents@.len() && changes_for(
                self.changes@,
                (i + 1) as usize,
            ).len() > 0 ==> (#[trigger] self.documents@[i]).content@ == current_text(
                changes_for(self.changes@, (i + 1) as usize).last().elements@,
            )
    }

    /// An empty store.
    pub fn new() -> (r: Store)
        ensures
            r.wf(),
            r.repositories@.len() == 0,
            r.documents@.len() == 0,
            r.events@.len() == 0,
            r.changes@.len() == 0,
    {
        Store {
            repositories: Vec::new(),
            documents: Vec::new(),
            events: Vec::new(),
            changes: Vec::new(),
        }
    }

    /// Registers a watched repository root.  Idempotent by path: a root
    /// that is already registered keeps its row and its id.  An empty
    /// path is malformed and rejected.
    pub fn add_repository(&mut self, absolute_path: &str) -> (r: Result<usize, CodemkinError>)
        requires
            old(self).wf(),
            old(self).repositories@.len() < usize::MAX,
        ensures
            final (self).wf(),
            final (self).documents@ == old(self).documents@,
            final (self).events@ == old(self).events@,
            final (self).changes@ == old(self).changes@,
            absolute_path@.len() == 0 ==> r == Err::<usize, CodemkinError>(
                CodemkinError::InvalidInput,
            ) && final (self).repositories@ == old(self).repositories@,
            absolute_path@.len() > 0 ==> (r matches Ok(id) && {
                &&& final (self).valid_repo_id(id)
                &&& final (self).repo(id).absolute_path@ == absolute_path@
                &&& (exists|i: int|
                    0 <= i < old(self).repositories@.len() && (
                    #[trigger] old(self).repositories@[i]).absolute_path@ == absolute_path@)
                    ==> final (self).repositories@ == old(self).repositories@
                &&& !(exists|i: int|
                    0 <= i < old(self).repositories@.len() && (
                    #[trigger] old(self).repositories@[i]).absolute_path@ == absolute_path@)
                    ==> final (self).repositories@ == old(self).repositories@.push(
                    Repository {
                        id: (old(self).repositories@.len() + 1) as usize,
                        absolute_path: final (self).repo(id).absolute_path,
                        status: RepoStatus::Active,
                        current_event: None,
                    },
                ) && id == old(self).repositories@.len() + 1
            }),
    {
        if absolute_path.unicode_len() == 0 {
            return Err(CodemkinError::InvalidInput);
        }
        let mut i: usize = 0;
        while i < self.repositories.len()
            invariant
                self.wf(),
                self.repositories@ == old(self).repositories@,
                self.documents@ == old(self).documents@,
                self.events@ == old(self).events@,
                self.changes@ == old(self).changes@,
                absolute_path@.len() > 0,
                i <= self.repositories@.len(),
                forall|k: int|
                    0 <= k < i ==> (#[trigger] self.repositories@[k]).absolute_path@
                        != absolute_path@,
            decreases self.repositories@.len() - i,
        {
            if string_eq_str(&self.repositories[i].absolute_path, absolute_path) {
                let id = self.repositories[i].id;
                return Ok(id);
            }
            i = i + 1;
        }
        let id = self.repositories.len() + 1;
        self.repositories.push(
            Repository {
                id,
                absolute_path: absolute_path.to_owned(),
                status: RepoStatus::Active,
                current_event: None,
            },
        );
        proof {
            assert(forall|k: int|
                0 <= k < self.repositories@.len() - 1 ==> #[trigger] self.repositories@[k]
                    == old(self).repositories@[k]);
        }
        Ok(id)
    }

    /// Looks a document up by repository and canonical path.
    pub open spec fn document_index(self, repo_id: usize, canonical_path: Seq<char>) -> int {
        choose|i: int|
            0 <= i < self.documents@.len() && (#[trigger] self.documents@[i]).repository_id
                == repo_id && self.documents@[i].canonical_path@ == canonical_path
    }

    /// Whether a repository holds a document under a canonical path.
    pub open spec fn has_document(self, repo_id: usize, canonical_path: Seq<char>) -> bool {
        exists|i: int|
            0 <= i < self.documents@.len() && (#[trigger] self.documents@[i]).repository_id
                == repo_id && self.documents@[i].canonical_path@ == canonical_path
    }

    /// Registers a tracked file.  Idempotent by canonical path within the
    /// repository: inserting an already-known path keeps its row, its id
    /// and its stored content.  For a new path, `content` becomes the
    /// document's first baseline.  Fails when the repository id names no
    /// row.
    pub fn upsert_document(
        &mut self,
        repo_id: usize,
        relative_path: &str,
        canonical_path: &str,
        content: &str,
    ) -> (r: Result<usize, CodemkinError>)
        requires
            old(self).wf(),
            old(self).documents@.len() < usize::MAX,
            content@.len() < usize::MAX,
        ensures
            final (self).wf(),
            final (self).repositories@ == old(self).repositories@,
            final (self).events@ == old(self).events@,
            final (self).changes@ == old(self).changes@,
            !old(self).valid_repo_id(repo_id) ==> r == Err::<usize, CodemkinError>(
                CodemkinError::InvalidInput,
            ) && final (self).documents@ == old(self).documents@,
            old(self).valid_repo_id(repo_id) ==> (r matches Ok(id) && {
                &&& final (self).valid_document_id(id)
                &&& final (self).document(id).repository_id == repo_id
                &&& final (self).document(id).canonical_path@ == canonical_path@
                &&& old(self).has_document(repo_id, canonical_path@) ==> final (self).documents@
                    == old(self).documents@ && id == old(self).documents@[old(self).document_index(repo_id, canonical_path@)].id
                &&& !old(self).has_document(repo_id, canonical_path@) ==> final (self).documents@ == old(self).documents@.push(final (self).document(id)) && id
                    == old(self).documents@.len() + 1 && final (self).document(id).content@
                    == content@ && final (self).document(id).relative_path@ == relative_path@
            }),
    {
        if repo_id < 1 || repo_id > self.repositories.len() {
            return Err(CodemkinError::InvalidInput);
        }
        let mut i: usize = 0;
        while i < self.documents.len()
            invariant
                self.wf(),
                self.repositories@ == old(self).repositories@,
                self.documents@ == old(self).documents@,
                self.events@ == old(self).events@,
                self.changes@ == old(self).changes@,
                repo_id >= 1,
                repo_id <= self.repositories@.len(),
                i <= self.documents@.len(),
                forall|k: int|
                    0 <= k < i ==> !((#[trigger] self.documents@[k]).repository_id == repo_id
                        && self.documents@[k].canonical_path@ == canonical_path@),
            decreases self.documents@.len() - i,
        {
            if self.documents[i].repository_id == repo_id && string_eq_str(
                &self.documents[i].canonical_path,
                canonical_path,
            ) {
                let id = self.documents[i].id;
                return Ok(id);
            }
            i = i + 1;
        }
        let id = self.documents.len() + 1;
        self.documents.push(
            Document {
                id,
                repository_id: repo_id,
                relative_path: relative_path.to_owned(),
                canonical_path: canonical_path.to_owned(),
                content: content.to_owned(),
            },
        );
        proof {
            assert(forall|k: int|
                0 <= k < self.documents@.len() - 1 ==> #[trigger] self.documents@[k] == old(
                    self,
                ).documents@[k]);
            assert(forall|k: int|
                0 <= k < self.changes@.len() ==> (#[trigger] self.changes@[k]).document_id
                    != id);
            lemma_changes_for_absent(self.changes@, id);
        }
        Ok(id)
    }

    /// Starts an event for a scheduling pass: appends the event with the
    /// given parent and, in the same step, points the repository's
    /// current-event pointer at it.  The parent must be the repository's
    /// current event; anything else is rejected and the store is left
    /// untouched.
    pub fn add_event(&mut self, repo_id: usize, parent_event: Option<usize>) -> (r: Result<
        usize,
        CodemkinError,
    >)
        requires
            old(self).wf(),
            old(self).events@.len() < usize::MAX,
        ensures
            final (self).wf(),
            final (self).documents@ == old(self).documents@,
            final (self).changes@ == old(self).changes@,
            !(old(self).valid_repo_id(repo_id) && parent_event == old(self).repo(
                repo_id,
            ).current_event) ==> r == Err::<usize, CodemkinError>(CodemkinError::InvalidInput)
                && final (self).events@ == old(self).events@ && final (self).repositories@
                == old(self).repositories@,
            old(self).valid_repo_id(repo_id) && parent_event == old(self).repo(
                repo_id,
            ).current_event ==> (r matches Ok(id) && {
                &&& id == old(self).events@.len() + 1
                &&& final (self).repositories@.len() == old(self).repositories@.len()
                &&& final (self).valid_event_id(id)
                &&& final (self).events@ == old(self).events@.push(
                    Event { id, repository_id: repo_id, parent_event },
                )
                &&& final (self).repo(repo_id).current_event == Some(id)
                &&& final (self).repo(repo_id).absolute_path@ == old(self).repo(
                    repo_id,
                ).absolute_path@
                &&& forall|k: int|
                    0 <= k < old(self).repositories@.len() && k != repo_id - 1
                        ==> #[trigger] final (self).repositories@[k] == old(self).repositories@[k]
            }),
    {
        if repo_id < 1 || repo_id > self.repositories.len() {
            return Err(CodemkinError::InvalidInput);
        }
        let same_parent = match (parent_event, self.repositories[repo_id - 1].current_event) {
            (None, None) => true,
            (Some(p), Some(q)) => p == q,
            _ => false,
        };
        if !same_parent {
            return Err(CodemkinError::InvalidInput);
        }
        let id = self.events.len() + 1;
        self.events.push(Event { id, repository_id: repo_id, parent_event });
        let path = self.repositories[repo_id - 1].absolute_path.clone();
        let status = self.repositories[repo_id - 1].status;
        let repo = Repository { id: repo_id, absolute_path: path, status, current_event: Some(id) };
        self.repositories[repo_id - 1] = repo;
        proof {
            assert(forall|k: int|
                0 <= k < self.events@.len() - 1 ==> #[trigger] self.events@[k] == old(self).events@[k]);
            assert(forall|k: int|
                0 <= k < self.repositories@.len() && k != repo_id - 1
                    ==> #[trigger] self.repositories@[k] == old(self).repositories@[k]);
        }
        Ok(id)
    }

    /// Appends one change row.  Fails with `StorageError` when the
    /// document or event id names no row, leaving the store untouched.
    /// On success the change is appended after every existing row, its
    /// timestamp never below an earlier one, and the document's stored
    /// baseline advances to the text the change reconstructs to.
    pub fn append_change(
        &mut self,
        document_id: usize,
        event_id: usize,
        elements: Vec<ChangeElement>,
        now: u64,
    ) -> (r: Result<usize, CodemkinError>)
        requires
            old(self).wf(),
            old(self).changes@.len() < usize::MAX,
            current_text(elements@).len() < usize::MAX,
        ensures
            final (self).wf(),
            final (self).repositories@ == old(self).repositories@,
            final (self).events@ == old(self).events@,
            !(old(self).valid_document_id(document_id) && old(self).valid_event_id(event_id))
                ==> r == Err::<usize, CodemkinError>(CodemkinError::StorageError) && final (
            self).changes@ == old(self).changes@ && final (self).documents@ == old(self).documents@,
            old(self).valid_document_id(document_id) && old(self).valid_event_id(event_id)
                ==> (r matches Ok(id) && {
                &&& id == old(self).changes@.len() + 1
                &&& final (self).documents@.len() == old(self).documents@.len()
                &&& final (self).changes@.len() == old(self).changes@.len() + 1
                &&& forall|k: int|
                    0 <= k < old(self).changes@.len() ==> #[trigger] final (self).changes@[k]
                        == old(self).changes@[k]
                &&& final (self).changes@.last()@.id == id
                &&& final (self).changes@.last()@.document_id == document_id
                &&& final (self).changes@.last()@.event_id == event_id
                &&& final (self).changes@.last()@.elements == elements@
                &&& final (self).changes@.last()@.created_at == (if old(self).changes@.len() == 0 || old(self).changes@.last().created_at <= now {
                    now
                } else {
                    old(self).changes@.last().created_at
                })
                &&& final (self).document(document_id).content@ == current_text(elements@)
                &&& final (self).document(document_id).repository_id == old(self).document(
                    document_id,
                ).repository_id
                &&& final (self).document(document_id).canonical_path@ == old(self).document(
                    document_id,
                ).canonical_path@
                &&& final (self).document(document_id).relative_path@ == old(self).document(
                    document_id,
                ).relative_path@
                &&& forall|k: int|
                    0 <= k < old(self).documents@.len() && k != document_id - 1
                        ==> #[trigger] final (self).documents@[k] == old(self).documents@[k]
            }),
    {
        if document_id < 1 || document_id > self.documents.len() || event_id < 1 || event_id
            > self.events.len() {
            return Err(CodemkinError::StorageError);
        }
        let created_at: u64 = if self.changes.len() == 0 {
            now
        } else {
            let last = self.changes[self.changes.len() - 1].created_at;
            if last <= now {
                now
            } else {
                last
            }
        };
        let new_baseline = crate::history::get_file_text(&elements);
        let id = self.changes.len() + 1;
        self.changes.push(Change { id, document_id, event_id, created_at, elements });
        let doc = &self.documents[document_id - 1];
        let updated = Document {
            id: doc.id,
            repository_id: doc.repository_id,
            relative_path: doc.relative_path.clone(),
            canonical_path: doc.canonical_path.clone(),
            content: new_baseline,
        };
        self.documents[document_id - 1] = updated;
        proof {
            assert(forall|k: int|
                0 <= k < self.changes@.len() - 1 ==> #[trigger] self.changes@[k] == old(
                    self,
                ).changes@[k]);
            assert(forall|k: int|
                0 <= k < self.documents@.len() && k != document_id - 1
                    ==> #[trigger] self.documents@[k] == old(self).documents@[k]);
            let c = self.changes@.last();
            assert(self.changes@ == old(self).changes@.push(c));
            assert forall|i: int|
                0 <= i < self.documents@.len() && changes_for(
                    self.changes@,
                    (i + 1) as usize,
                ).len() > 0 implies (#[trigger] self.documents@[i]).content@ == current_text(
                changes_for(self.changes@, (i + 1) as usize).last().elements@,
            ) by {
                lemma_append_only(old(self).changes@, c, (i + 1) as usize);
                if i + 1 == document_id {
                    assert(changes_for(self.changes@, (i + 1) as usize).last() == c);
                } else {
                    assert(changes_for(self.changes@, (i + 1) as usize) == changes_for(
                        old(self).changes@,
                        (i + 1) as usize,
                    ));
                    assert(self.documents@[i] == old(self).documents@[i]);
                }
            }
        }
        Ok(id)
    }

    /// Every registered repository, in id order.
    pub fn get_repositories(&self) -> (r: Vec<Repository>)
        ensures
            r@ == self.repositories@,
    {
        let mut r: Vec<Repository> = Vec::new();
        let mut i: usize = 0;
        while i < self.repositories.len()
            invariant
                i <= self.repositories@.len(),
                r@ =~= self.repositories@.take(i as int),
            decreases self.repositories@.len() - i,
        {
            r.push(self.repositories[i].clone());
            i = i + 1;
        }
        proof {
            assert(self.repositories@.take(self.repositories@.len() as int)
                =~= self.repositories@);
        }
        r
    }

    /// Looks a document up by repository and canonical path.  Absence is
    /// not an error: an unknown path gives `None`.
    pub fn get_document(&self, repo_id: usize, canonical_path: &str) -> (r: Option<Document>)
        requires
            self.wf(),
        ensures
            self.has_document(repo_id, canonical_path@) ==> (r matches Some(d) && d
                == self.documents@[self.document_index(repo_id, canonical_path@)]),
            !self.has_document(repo_id, canonical_path@) ==> r is None,
    {
        let mut i: usize = 0;
        while i < self.documents.len()
            invariant
                self.wf(),
                i <= self.documents@.len(),
                forall|k: int|
                    0 <= k < i ==> !((#[trigger] self.documents@[k]).repository_id == repo_id
                        && self.documents@[k].canonical_path@ == canonical_path@),
            decreases self.documents@.len() - i,
        {
            if self.documents[i].repository_id == repo_id && string_eq_str(
                &self.documents[i].canonical_path,
                canonical_path,
            ) {
                return Some(self.documents[i].clone());
            }
            i = i + 1;
        }
        None
    }

    /// The stored baseline of a document: the last content the store has
    /// seen for it.  `None` when the path is not tracked; used for
    /// cold-start recovery after a daemon restart.
    pub fn get_document_baseline(&self, repo_id: usize, canonical_path: &str) -> (r: Option<
        String,
    >)
        requires
            self.wf(),
        ensures
            self.has_document(repo_id, canonical_path@) ==> (r matches Some(c) && c@
                == self.documents@[self.document_index(repo_id, canonical_path@)].content@),
            !self.has_document(repo_id, canonical_path@) ==> r is None,
    {
        match self.get_document(repo_id, canonical_path) {
            Some(d) => Some(d.content),
            None => None,
        }
    }

    /// Up to `limit` most recent changes of a document, most recent
    /// first.  Zero history gives the empty sequence, not an error.
    /// Rows already written never move: the result is a suffix of the
    /// document's append-ordered history, reversed, and timestamps never
    /// increase along it.
    pub fn latest_changes(&self, document_id: usize, limit: usize) -> (r: Vec<Change>)
        requires
            self.wf(),
        ensures
            ({
                let all = changes_for(self.changes@, document_id);
                &&& r@.len() == (if limit <= all.len() {
                    limit as int
                } else {
                    all.len() as int
                })
                &&& forall|k: int|
                    0 <= k < r@.len() ==> #[trigger] r@[k]@ == all[all.len() - 1 - k]@
                &&& forall|k: int|
                    0 <= k < r@.len() ==> (#[trigger] r@[k]@).document_id == document_id
                &&& forall|k: int, l: int|
                    0 <= k < l < r@.len() ==> (#[trigger] r@[k]@).created_at >= (
                    #[trigger] r@[l]@).created_at
            }),
    {
        let ghost all = changes_for(self.changes@, document_id);
        proof {
            lemma_changes_for_le(self.changes@, document_id);
            lemma_changes_for_of(self.changes@, document_id);
            lemma_changes_for_sorted(self.changes@, document_id);
            assert(self.changes@.take(self.changes@.len() as int) =~= self.changes@);
        }
        let mut r: Vec<Change> = Vec::new();
        let mut i: usize = self.changes.len();
        while i > 0 && r.len() < limit
            invariant
                self.wf(),
                i <= self.changes@.len(),
                all == changes_for(self.changes@, document_id),
                r@.len() <= limit,
                r@.len() <= all.len(),
                changes_for(self.changes@.take(i as int), document_id) == all.take(
                    all.len() - r@.len(),
                ),
                forall|k: int|
                    0 <= k < r@.len() ==> #[trigger] r@[k]@ == all[all.len() - 1 - k]@,
        decreases i,
        {
            i = i - 1;
            proof {
                assert(self.changes@.take(i + 1).drop_last() =~= self.changes@.take(i as int));
                assert(self.changes@.take(i + 1).last() == self.changes@[i as int]);
                let upper = changes_for(self.changes@.take(i + 1), document_id);
                if self.changes@[i as int].document_id == document_id {
                    assert(upper == changes_for(self.changes@.take(i as int), document_id).push(
                        self.changes@[i as int],
                    ));
                    assert(changes_for(self.changes@.take(i as int), document_id)
                        == upper.drop_last());
                    assert(all.take(all.len() - r@.len()).drop_last() =~= all.take(
                        all.len() - r@.len() - 1,
                    ));
                    assert(all.take(all.len() - r@.len()).last() == all[all.len() - r@.len()
                        - 1]);
                }
            }
            if self.changes[i].document_id == document_id {
                r.push(self.changes[i].clone());
            }
        }
        proof {
            if i == 0 {
                assert(self.changes@.take(0) =~= Seq::<Change>::empty());
                assert(changes_for(Seq::<Change>::empty(), document_id)
                    == Seq::<Change>::empty());
                assert(all.take(all.len() - r@.len()).len() == 0);
                assert(r@.len() == all.len());
            }
            assert(forall|k: int, l: int|
                0 <= k < l < r@.len() ==> (#[trigger] r@[k]@).created_at >= (
                #[trigger] r@[l]@).created_at);
        }
        r
    }

    /// The changes of a document whose timestamp is strictly after the
    /// given one, oldest first: the rows a sync client still has to
    /// upload.  `None` asks for the whole history.
    pub fn changes_after(&self, document_id: usize, after: Option<u64>) -> (r: Vec<Change>)
        requires
            self.wf(),
        ensures
            ({
                let wanted = spec_changes_after(self.changes@, document_id, after);
                r@.len() == wanted.len() && forall|k: int|
                    0 <= k < r@.len() ==> #[trigger] r@[k]@ == wanted[k]@
            }),
    {
        let mut r: Vec<Change> = Vec::new();
        let mut i: usize = 0;
        proof {
            assert(self.changes@.take(0) =~= Seq::<Change>::empty());
        }
        while i < self.changes.len()
            invariant
                self.wf(),
                i <= self.changes@.len(),
                r@.len() == spec_changes_after(
                    self.changes@.take(i as int),
                    document_id,
                    after,
                ).len(),
                forall|k: int|
                    0 <= k < r@.len() ==> #[trigger] r@[k]@ == spec_changes_after(
                        self.changes@.take(i as int),
                        document_id,
                        after,
                    )[k]@,
            decreases self.changes@.len() - i,
        {
            proof {
                assert(self.changes@.take(i + 1).drop_last() =~= self.changes@.take(i as int));
                assert(self.changes@.take(i + 1).last() == self.changes@[i as int]);
            }
            let keep = match after {
                Some(t) => self.changes[i].created_at > t,
                None => true,
            };
            if self.changes[i].document_id == document_id && keep {
                r.push(self.changes[i].clone());
            }
            i = i + 1;
        }
        proof {
            assert(self.changes@.take(self.changes@.len() as int) =~= self.changes@);
        }
        r
    }

    /// Decides at run time whether the store is well-formed: exactly what
    /// `wf` states, checked row by row.  A store loaded from an outside
    /// source is admitted into the verified operations only when this
    /// holds.
    #[verifier::rlimit(100)]
    pub fn check_wf(&self) -> (r: bool)
        ensures
            r == self.wf(),
    {
        let mut i: usize = 0;
        while i < self.repositories.len()
            invariant
                i <= self.repositories@.len(),
                forall|k: int|
                    0 <= k < i ==> (#[trigger] self.repositories@[k]).id == k + 1,
                forall|k: int|
                    0 <= k < i ==> ((#[trigger] self.repositories@[k]).current_event matches
                    Some(e) ==> self.valid_event_id(e) && self.event(e).repository_id == k
                        + 1),
            decreases self.repositories@.len() - i,
        {
            if self.repositories[i].id != i + 1 {
                return false;
            }
            match self.repositories[i].current_event {
                Some(e) => {
                    if e < 1 || e > self.events.len() {
                        return false;
                    }
                    if self.events[e - 1].repository_id != i + 1 {
                        return false;
                    }
                },
                None => {},
            }
            i = i + 1;
        }
        let mut i: usize = 0;
        while i < self.documents.len()
            invariant
                i <= self.documents@.len(),
                forall|k: int| 0 <= k < i ==> (#[trigger] self.documents@[k]).id == k + 1,
                forall|k: int|
                    0 <= k < i ==> self.valid_repo_id(
                        (#[trigger] self.documents@[k]).repository_id,
                    ),
                forall|k: int|
                    0 <= k < i ==> (#[trigger] self.documents@[k]).content@.len()
                        < usize::MAX,
                forall|k: int, l: int|
                    0 <= k < l < i && (#[trigger] self.documents@[k]).repository_id == (
                    #[trigger] self.documents@[l]).repository_id
                        ==> self.documents@[k].canonical_path@
                        != self.documents@[l].canonical_path@,
            decreases self.documents@.len() - i,
        {
            if self.documents[i].id != i + 1 {
                return false;
            }
            if self.documents[i].repository_id < 1 || self.documents[i].repository_id
                > self.repositories.len() {
                return false;
            }
            if self.documents[i].content.as_str().unicode_len() == usize::MAX {
                return false;
            }
            let mut j: usize = 0;
            while j < i
                invariant
                    j <= i < self.documents@.len(),
                    forall|k: int|
                        0 <= k < j && (#[trigger] self.documents@[k]).repository_id
                            == self.documents@[i as int].repository_id
                            ==> self.documents@[k].canonical_path@
                            != self.documents@[i as int].canonical_path@,
                decreases i - j,
            {
                if self.documents[j].repository_id == self.documents[i].repository_id
                    && string_eq_str(
                    &self.documents[j].canonical_path,
                    self.documents[i].canonical_path.as_str(),
                ) {
                    return false;
                }
                j = j + 1;
            }
            i = i + 1;
        }
        let mut i: usize = 0;
        while i < self.events.len()
            invariant
                i <= self.events@.len(),
                forall|k: int| 0 <= k < i ==> (#[trigger] self.events@[k]).id == k + 1,
                forall|k: int|
                    0 <= k < i ==> self.valid_repo_id(
                        (#[trigger] self.events@[k]).repository_id,
                    ),
                forall|k: int|
                    0 <= k < i ==> ((#[trigger] self.events@[k]).parent_event matches Some(
                        p,
                    ) ==> 1 <= p <= k && self.event(p).repository_id
                        == self.events@[k].repository_id),
            decreases self.events@.len() - i,
        {
            if self.events[i].id != i + 1 {
                return false;
            }
            if self.events[i].repository_id < 1 || self.events[i].repository_id
                > self.repositories.len() {
                return false;
            }
            match self.events[i].parent_event {
                Some(p) => {
                    if p < 1 || p > i {
                        return false;
                    }
                    if self.events[p - 1].repository_id != self.events[i].repository_id {
                        return false;
                    }
                },
                None => {},
            }
            i = i + 1;
        }
        let mut i: usize = 0;
        while i < self.changes.len()
            invariant
                i <= self.changes@.len(),
                forall|k: int| 0 <= k < i ==> (#[trigger] self.changes@[k]).id == k + 1,
                forall|k: int|
                    0 <= k < i ==> self.valid_document_id(
                        (#[trigger] self.changes@[k]).document_id,
                    ),
                forall|k: int|
                    0 <= k < i ==> self.valid_event_id(
                        (#[trigger] self.changes@[k]).event_id,
                    ),
                forall|k: int|
                    0 <= k < i && k + 1 < self.changes@.len() ==> (
                    #[trigger] self.changes@[k]).created_at <= self.changes@[k
                        + 1].created_at,
            decreases self.changes@.len() - i,
        {
            if self.changes[i].id != i + 1 {
                return false;
            }
            if self.changes[i].document_id < 1 || self.changes[i].document_id
                > self.documents.len() {
                return false;
            }
            if self.changes[i].event_id < 1 || self.changes[i].event_id > self.events.len() {
                return false;
            }
            if i + 1 < self.changes.len() {
                if self.changes[i].created_at > self.changes[i + 1].created_at {
                    return false;
                }
            }
            i = i + 1;
        }
        proof {
            assert forall|k: int, l: int|
                0 <= k < l < self.changes@.len() implies (
            #[trigger] self.changes@[k]).created_at <= (
            #[trigger] self.changes@[l]).created_at by {
                lemma_le_chain(self.changes@, k, l);
            }
        }
        // Baseline coherence: each document's stored content must be the
        // text its most recent change reconstructs to.
        let mut d: usize = 0;
        while d < self.documents.len()
            invariant
                d <= self.documents@.len(),
                forall|k: int|
                    0 <= k < self.documents@.len() ==> (#[trigger] self.documents@[k]).id
                        == k + 1,
                forall|k: int|
                    0 <= k < d && changes_for(self.changes@, (k + 1) as usize).len() > 0
                        ==> (#[trigger] self.documents@[k]).content@ == current_text(
                        changes_for(self.changes@, (k + 1) as usize).last().elements@,
                    ),
            decreases self.documents@.len() - d,
        {
            let doc_id = d + 1;
            let mut j: usize = self.changes.len();
            let mut found = false;
            let mut found_at: usize = 0;
            while j > 0 && !found
                invariant
                    j <= self.changes@.len(),
                    !found ==> forall|k: int|
                        j <= k < self.changes@.len() ==> (
                        #[trigger] self.changes@[k]).document_id != doc_id,
                    found ==> j < self.changes@.len() && found_at == j
                        && self.changes@[j as int].document_id == doc_id && forall|k: int|
                        j < k < self.changes@.len() ==> (
                        #[trigger] self.changes@[k]).document_id != doc_id,
                decreases j + (if found {
                    0int
                } else {
                    1int
                }),
            {
                j = j - 1;
                if self.changes[j].document_id == doc_id {
                    found = true;
                    found_at = j;
                }
            }
            if found {
                proof {
                    lemma_changes_for_last(self.changes@, doc_id, found_at as int);
                }
                let text = crate::history::get_file_text(&self.changes[found_at].elements);
                if !(self.documents[d].content == text) {
                    return false;
                }
            } else {
                proof {
                    lemma_changes_for_absent(self.changes@, doc_id);
                }
            }
            d = d + 1;
        }
        true
    }
}

/// A document's changes are a selection of the log: never more rows than
/// the log holds.
pub proof fn lemma_changes_for_le(s: Seq<Change>, document_id: usize)
    ensures
        changes_for(s, document_id).len() <= s.len(),
    decreases s.len(),
{
    if s.len() > 0 {
        lemma_changes_for_le(s.drop_last(), document_id);
    }
}

/// Append-only growth: appending one row to the log leaves every
/// document's selected history as it was, except that the row's own
/// document gains it at the end.  Rows already written never move.
pub proof fn lemma_append_only(s: Seq<Change>, c: Change, document_id: usize)
    ensures
        c.document_id == document_id ==> changes_for(s.push(c), document_id) == changes_for(
            s,
            document_id,
        ).push(c),
        c.document_id != document_id ==> changes_for(s.push(c), document_id) == changes_for(
            s,
            document_id,
        ),
{
    assert(s.push(c).drop_last() =~= s);
    assert(s.push(c).last() == c);
}

/// A document none of the log's rows name has no history.
proof fn lemma_changes_for_absent(s: Seq<Change>, document_id: usize)
    requires
        forall|k: int| 0 <= k < s.len() ==> (#[trigger] s[k]).document_id != document_id,
    ensures
        changes_for(s, document_id).len() == 0,
    decreases s.len(),
{
    if s.len() > 0 {
        assert(forall|k: int|
            0 <= k < s.drop_last().len() ==> (#[trigger] s.drop_last()[k]).document_id
                != document_id);
        lemma_changes_for_absent(s.drop_last(), document_id);
    }
}

/// Every selected change belongs to the document.
pub proof fn lemma_changes_for_of(s: Seq<Change>, document_id: usize)
    ensures
        forall|k: int|
            0 <= k < changes_for(s, document_id).len() ==> (#[trigger] changes_for(
                s,
                document_id,
            )[k]).document_id == document_id,
    decreases s.len(),
{
    if s.len() > 0 {
        lemma_changes_for_of(s.drop_last(), document_id);
        let prev = changes_for(s.drop_last(), document_id);
        let cur = changes_for(s, document_id);
        if s.last().document_id == document_id {
            assert(cur == prev.push(s.last()));
            assert(forall|k: int| 0 <= k < prev.len() ==> cur[k] == prev[k]);
            assert(cur[cur.len() - 1] == s.last());
        }
    }
}

/// Append-only ordering: when the log's timestamps never decrease, the
/// selected changes of one document are ordered the same way.
pub proof fn lemma_changes_for_sorted(s: Seq<Change>, document_id: usize)
    requires
        forall|i: int, j: int|
            0 <= i < j < s.len() ==> (#[trigger] s[i]).created_at <= (#[trigger] s[j]).created_at,
    ensures
        forall|i: int, j: int|
            0 <= i < j < changes_for(s, document_id).len() ==> (#[trigger] changes_for(
                s,
                document_id,
            )[i]).created_at <= (#[trigger] changes_for(s, document_id)[j]).created_at,
    decreases s.len(),
{
    if s.len() > 0 {
        assert(forall|i: int, j: int|
            0 <= i < j < s.drop_last().len() ==> (#[trigger] s.drop_last()[i]).created_at <= (
            #[trigger] s.drop_last()[j]).created_at);
        lemma_changes_for_sorted(s.drop_last(), document_id);
        let prev = changes_for(s.drop_last(), document_id);
        if s.last().document_id == document_id {
            assert(forall|i: int|
                0 <= i < prev.len() ==> (#[trigger] prev[i]).created_at
                    <= s.last().created_at) by {
                lemma_changes_for_last_le(s.drop_last(), document_id, s.last().created_at);
            }
        }
    }
}

proof fn lemma_changes_for_last_le(s: Seq<Change>, document_id: usize, bound: u64)
    requires
        forall|i: int| 0 <= i < s.len() ==> (#[trigger] s[i]).created_at <= bound,
    ensures
        forall|i: int|
            0 <= i < changes_for(s, document_id).len() ==> (#[trigger] changes_for(
                s,
                document_id,
            )[i]).created_at <= bound,
    decreases s.len(),
{
    if s.len() > 0 {
        assert(forall|i: int|
            0 <= i < s.drop_last().len() ==> (#[trigger] s.drop_last()[i]).created_at <= bound);
        lemma_changes_for_last_le(s.drop_last(), document_id, bound);
        let prev = changes_for(s.drop_last(), document_id);
        let cur = changes_for(s, document_id);
        if s.last().document_id == document_id {
            assert(cur == prev.push(s.last()));
            assert(s.last() == s[s.len() - 1]);
            assert(s.last().created_at <= bound);
            assert(forall|i: int| 0 <= i < prev.len() ==> cur[i] == prev[i]);
            assert(cur[cur.len() - 1] == s.last());
        }
    }
}

/// The stored baseline of a document with history is exactly the text
/// its most recent change reconstructs to: one row suffices to recover
/// the content the next diff must run against, also after a restart.
pub proof fn lemma_baseline_is_latest_reconstruction(s: Store, document_id: usize)
    requires
        s.wf(),
        s.valid_document_id(document_id),
        changes_for(s.changes@, document_id).len() > 0,
    ensures
        s.document(document_id).content@ == current_text(
            changes_for(s.changes@, document_id).last().elements@,
        ),
{
}

/// The last row of a document's history is the last row of the log that
/// names the document.
proof fn lemma_changes_for_last(s: Seq<Change>, document_id: usize, j: int)
    requires
        0 <= j < s.len(),
        s[j].document_id == document_id,
        forall|k: int| j < k < s.len() ==> (#[trigger] s[k]).document_id != document_id,
    ensures
        changes_for(s, document_id).len() > 0,
        changes_for(s, document_id).last() == s[j],
    decreases s.len(),
{
    if j == s.len() - 1 {
    } else {
        assert(s.last().document_id != document_id);
        assert(forall|k: int|
            j < k < s.drop_last().len() ==> (#[trigger] s.drop_last()[k]).document_id
                != document_id);
        assert(s.drop_last()[j] == s[j]);
        lemma_changes_for_last(s.drop_last(), document_id, j);
    }
}

proof fn lemma_le_chain(s: Seq<Change>, i: int, j: int)
    requires
        forall|k: int|
            0 <= k < s.len() - 1 ==> (#[trigger] s[k]).created_at <= s[k + 1].created_at,
        0 <= i < j < s.len(),
    ensures
        s[i].created_at <= s[j].created_at,
    decreases j - i,
{
    if i + 1 < j {
        lemma_le_chain(s, i, j - 1);
    }
}

/// History chain integrity: in a well-formed store, a repository's
/// current-event pointer names an existing event, and every parent link
/// of an existing event names an existing, strictly earlier event of the
/// same repository; a chain followed from any current-event pointer can
/// therefore never reach a missing event, and always ends.
pub proof fn lemma_history_chain_integrity(s: Store, repo_id: usize, event_id: usize)
    requires
        s.wf(),
    ensures
        s.valid_repo_id(repo_id) ==> (s.repo(repo_id).current_event matches Some(e)
            ==> s.valid_event_id(e)),
        s.valid_event_id(event_id) ==> (s.event(event_id).parent_event matches Some(p) ==> {
            &&& s.valid_event_id(p)
            &&& p < event_id
            &&& s.event(p).repository_id == s.event(event_id).repository_id
        }),
{
}

} // verus!
