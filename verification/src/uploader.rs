//! Read-only enumeration for the sync client: the change rows of a
//! document that were written after the last successful push, shaped into
//! upload payloads.  The client itself — its connections, prompts and
//! authentication — lives outside the library and only consumes these.

use vstd::prelude::*;

use crate::codec::spec_serialize_elements;
use crate::store::spec_changes_after;
use crate::store::Store;
use crate::types::Change;
use crate::types::ChangeRequest;

verus! {

/// The address of the remote sync service.
pub fn get_api_url() -> (r: &'static str)
    ensures
        r@ == "https://api.getsesh.io"@,
{
    "https://api.getsesh.io"
}

/// Shapes change rows into upload payloads for one remote document: the
/// elements travel serialized, the timestamps unchanged.
pub fn build_change_requests(changes: &Vec<Change>, remote_document_id: &str) -> (r: Vec<
    ChangeRequest,
>)
    ensures
        r@.len() == changes@.len(),
        forall|k: int|
            0 <= k < r@.len() ==> {
                &&& (#[trigger] r@[k]).document_id@ == remote_document_id@
                &&& r@[k].created_at == changes@[k].created_at
                &&& r@[k].elements@ == spec_serialize_elements(changes@[k].elements@)
            },
{
    let mut r: Vec<ChangeRequest> = Vec::new();
    let mut i: usize = 0;
    while i < changes.len()
        invariant
            i <= changes@.len(),
            r@.len() == i,
            forall|k: int|
                0 <= k < i ==> {
                    &&& (#[trigger] r@[k]).document_id@ == remote_document_id@
                    &&& r@[k].created_at == changes@[k].created_at
                    &&& r@[k].elements@ == spec_serialize_elements(changes@[k].elements@)
                },
        decreases changes@.len() - i,
    {
        let elements = crate::codec::serialize_elements(&changes[i].elements);
        r.push(
            ChangeRequest {
                elements,
                document_id: remote_document_id.to_owned(),
                created_at: changes[i].created_at,
            },
        );
        i = i + 1;
    }
    r
}

/// The upload payloads still owed for one document: every change after
/// the remote side's last known timestamp, or the whole history when the
/// remote side has none, oldest first.
pub fn pending_change_requests(
    store: &Store,
    document_id: usize,
    remote_document_id: &str,
    last_remote: Option<u64>,
) -> (r: Vec<ChangeRequest>)
    requires
        store.wf(),
    ensures
        ({
            let wanted = spec_changes_after(store.changes@, document_id, last_remote);
            &&& r@.len() == wanted.len()
            &&& forall|k: int|
                0 <= k < r@.len() ==> {
                    &&& (#[trigger] r@[k]).document_id@ == remote_document_id@
                    &&& r@[k].created_at == wanted[k].created_at
                    &&& r@[k].elements@ == spec_serialize_elements(wanted[k].elements@)
                }
        }),
{
    let changes = store.changes_after(document_id, last_remote);
    let r = build_change_requests(&changes, remote_document_id);
    proof {
        let wanted = spec_changes_after(store.changes@, document_id, last_remote);
        assert(forall|k: int|
            0 <= k < changes@.len() ==> (#[trigger] changes@[k])@ == wanted[k]@);
    }
    r
}

} // verus!
