//! Registries over time: what a sequence of requests makes of a catalog,
//! in whatever order the requests of several callers happen to be served.

use crate::agent::{AgentRecord, AgentStatus};
use crate::error::ErrorView;
use crate::model::{created, deleted, name_in_use, status_changed, updated, Catalog};
use crate::time::Timestamp;
use vstd::prelude::*;

verus! {

/// One request that changes a registry, with the time at which it is
/// served. A registration carries the agent with its identifier decided.
pub enum Request {
    Create { submitted: AgentRecord, now: Timestamp },
    Update { id: Seq<char>, replacement: AgentRecord, now: Timestamp },
    Delete { id: Seq<char> },
    ChangeStatus { id: Seq<char>, status: AgentStatus, now: Timestamp },
}

/// What serving `request` makes of `catalog`, or why it is refused.
pub open spec fn served(catalog: Catalog, request: Request) -> Result<Catalog, ErrorView> {
    match request {
        Request::Create { submitted, now } => created(catalog, submitted, now),
        Request::Update { id, replacement, now } => updated(catalog, id, replacement, now),
        Request::Delete { id } => deleted(catalog, id),
        Request::ChangeStatus { id, status, now } => status_changed(catalog, id, status, now),
    }
}

/// The catalog once `request` has been served: a refused request leaves it
/// as it was.
pub open spec fn after(catalog: Catalog, request: Request) -> Catalog {
    match served(catalog, request) {
        Ok(next) => next,
        Err(_) => catalog,
    }
}

/// The catalog once `requests` have been served one after the other,
/// starting from `start`.
pub open spec fn replayed(start: Catalog, requests: Seq<Request>) -> Catalog
    decreases requests.len(),
{
    if requests.len() == 0 {
        start
    } else {
        after(replayed(start, requests.drop_last()), requests.last())
    }
}

/// The request at position `k` is accepted when its turn comes.
pub open spec fn accepted(start: Catalog, requests: Seq<Request>, k: int) -> bool {
    served(replayed(start, requests.take(k)), requests[k]) is Ok
}

/// How many of `requests` are registrations that are accepted.
pub open spec fn creations(start: Catalog, requests: Seq<Request>) -> nat
    decreases requests.len(),
{
    if requests.len() == 0 {
        0
    } else {
        let earlier = requests.drop_last();
        let counts = requests.last() is Create && served(
            replayed(start, earlier),
            requests.last(),
        ) is Ok;
        creations(start, earlier) + if counts {
            1nat
        } else {
            0nat
        }
    }
}

/// How many of `requests` are removals that are accepted.
pub open spec fn deletions(start: Catalog, requests: Seq<Request>) -> nat
    decreases requests.len(),
{
    if requests.len() == 0 {
        0
    } else {
        let earlier = requests.drop_last();
        let counts = requests.last() is Delete && served(
            replayed(start, earlier),
            requests.last(),
        ) is Ok;
        deletions(start, earlier) + if counts {
            1nat
        } else {
            0nat
        }
    }
}

/// How many of `requests` are accepted registrations under an identifier
/// that is in use when their turn comes: each of them replaces an agent.
pub open spec fn replacements(start: Catalog, requests: Seq<Request>) -> nat
    decreases requests.len(),
{
    if requests.len() == 0 {
        0
    } else {
        let earlier = requests.drop_last();
        let before = replayed(start, earlier);
        let counts = requests.last() is Create && served(before, requests.last()) is Ok
            && before.contains_key(requests.last()->submitted.id);
        replacements(start, earlier) + if counts {
            1nat
        } else {
            0nat
        }
    }
}

/// Only registrations, with names that differ from one another and from
/// every name in use in `start`, and with identifiers that differ from one
/// another.
pub open spec fn distinct_creations(start: Catalog, requests: Seq<Request>) -> bool {
    &&& forall|i: int| 0 <= i < requests.len() ==> (#[trigger] requests[i]) is Create
    &&& forall|i: int|
        0 <= i < requests.len() ==> !name_in_use(start, (#[trigger] requests[i])->submitted.name)
    &&& forall|i: int, j: int|
        0 <= i < j < requests.len() ==> (#[trigger] requests[i])->submitted.name != (
        #[trigger] requests[j])->submitted.name
    &&& forall|i: int, j: int|
        0 <= i < j < requests.len() ==> (#[trigger] requests[i])->submitted.id != (
        #[trigger] requests[j])->submitted.id
}

} // verus!
