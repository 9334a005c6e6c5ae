//! Data model of the change log: repositories, documents, events, changes
//! and the tagged line runs a change is made of.

use vstd::prelude::*;

verus! {

/// Lifecycle status of a watched repository.
#[derive(Clone, Copy, PartialEq, Eq, Structural, Debug)]
pub enum RepoStatus {
    Inactive,
    Starting,
    Active,
}

impl RepoStatus {
    /// Numeric code under which the status is persisted.
    pub open spec fn spec_code(self) -> u64 {
        match self {
            RepoStatus::Inactive => 0,
            RepoStatus::Starting => 1,
            RepoStatus::Active => 2,
        }
    }

    /// Returns the numeric code under which the status is persisted.
    pub fn code(self) -> (r: u64)
        ensures
            r == self.spec_code(),
    {
        match self {
            RepoStatus::Inactive => 0,
            RepoStatus::Starting => 1,
            RepoStatus::Active => 2,
        }
    }
}

/// Tag of one contiguous run of lines inside a diff.
#[derive(Clone, Copy, PartialEq, Eq, Structural, Debug)]
pub enum ChangeType {
    Same,
    Add,
    Remove,
}

/// One tagged contiguous run of lines.  The content is the exact text of
/// the run, line separators included.
#[derive(PartialEq, Debug)]
pub struct ChangeElement {
    pub type_: ChangeType,
    pub content: String,
}

impl Clone for ChangeElement {
    fn clone(&self) -> (r: Self)
        ensures
            r == *self,
    {
        ChangeElement { type_: self.type_, content: self.content.clone() }
    }
}

/// Errors of the engine.
#[derive(Clone, Copy, PartialEq, Eq, Structural, Debug)]
pub enum CodemkinError {
    /// The configuration folder is missing or malformed.
    InvalidCdmknFolder,
    /// A watcher already runs under the given process id.
    CdmknAlreadyRunning { pid: u32 },
    /// Malformed path or missing repository registration.
    InvalidInput,
    /// Transient file read or metadata failure during a tick.
    IoError,
    /// Transaction or connection failure in the change log store.
    StorageError,
    /// A stored change fails the reconstruction invariant.
    CorruptHistory,
}

/// A watched directory root.
#[derive(Debug)]
pub struct Repository {
    pub id: usize,
    pub absolute_path: String,
    pub status: RepoStatus,
    pub current_event: Option<usize>,
}

impl Clone for Repository {
    fn clone(&self) -> (r: Self)
        ensures
            r == *self,
    {
        Repository {
            id: self.id,
            absolute_path: self.absolute_path.clone(),
            status: self.status,
            current_event: self.current_event,
        }
    }
}

/// One tracked file inside a repository.  `content` is the last content
/// the store has seen for it: the baseline the next diff runs against.
#[derive(Debug)]
pub struct Document {
    pub id: usize,
    pub repository_id: usize,
    pub relative_path: String,
    pub canonical_path: String,
    pub content: String,
}

impl Clone for Document {
    fn clone(&self) -> (r: Self)
        ensures
            r == *self,
    {
        Document {
            id: self.id,
            repository_id: self.repository_id,
            relative_path: self.relative_path.clone(),
            canonical_path: self.canonical_path.clone(),
            content: self.content.clone(),
        }
    }
}

/// One tick of the watcher: groups the changes produced across documents
/// during one scheduling pass.  `parent_event` chains events through history.
#[derive(Clone, Copy, PartialEq, Eq, Structural, Debug)]
pub struct Event {
    pub id: usize,
    pub repository_id: usize,
    pub parent_event: Option<usize>,
}

/// One persisted diff record for a document.  Immutable once written.
#[derive(Debug)]
pub struct Change {
    pub id: usize,
    pub document_id: usize,
    pub event_id: usize,
    pub created_at: u64,
    pub elements: Vec<ChangeElement>,
}

/// Mathematical value of a `Change`.
pub struct ChangeData {
    pub id: usize,
    pub document_id: usize,
    pub event_id: usize,
    pub created_at: u64,
    pub elements: Seq<ChangeElement>,
}

impl View for Change {
    type V = ChangeData;

    open spec fn view(&self) -> ChangeData {
        ChangeData {
            id: self.id,
            document_id: self.document_id,
            event_id: self.event_id,
            created_at: self.created_at,
            elements: self.elements@,
        }
    }
}

impl Clone for Change {
    fn clone(&self) -> (r: Self)
        ensures
            r@ == self@,
    {
        let mut elements: Vec<ChangeElement> = Vec::new();
        let mut i: usize = 0;
        while i < self.elements.len()
            invariant
                i <= self.elements.len(),
                elements@ =~= self.elements@.take(i as int),
            decreases self.elements.len() - i,
        {
            elements.push(self.elements[i].clone());
            i = i + 1;
        }
        proof {
            assert(elements@ =~= self.elements@);
        }
        Change {
            id: self.id,
            document_id: self.document_id,
            event_id: self.event_id,
            created_at: self.created_at,
            elements,
        }
    }
}

/// Token credentials of the remote sync service.
#[derive(Debug)]
pub struct TokenCredentials {
    pub token: String,
    pub client: String,
    pub expiry: String,
    pub token_type: String,
    pub uid: String,
}

/// Local configuration: installation id and, once logged in, the token
/// credentials of the remote sync service.
#[derive(Debug)]
pub struct InternalConfig {
    pub id: String,
    pub token_credentials: Option<TokenCredentials>,
}

/// A user of the remote sync service.
#[derive(Debug)]
pub struct User {
    uid: String,
    id: String,
}

/// Envelope under which the remote sync service returns a user.
#[derive(Debug)]
pub struct UserResponse {
    data: User,
}

/// Payload that asks the remote sync service to create a repository.
#[derive(Debug)]
pub struct RepositoryRequest {
    pub name: String,
}

/// Payload that asks the remote sync service to create a document.
#[derive(Debug)]
pub struct DocumentRequest<'a> {
    pub path: &'a str,
}

/// Payload that uploads one change to the remote sync service.  The
/// elements travel in their serialized form.
#[derive(Debug)]
pub struct ChangeRequest {
    pub elements: String,
    pub document_id: String,
    pub created_at: u64,
}

/// Payload that uploads a batch of changes to the remote sync service.
#[derive(Debug)]
pub struct BulkChangeRequest {
    pub changes: Vec<ChangeRequest>,
}

} // verus!
