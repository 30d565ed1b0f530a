//! What holds of the registry's operations taken together, proved of the
//! model that their contracts are stated over.

use crate::agent::{AgentRecord, AgentStatus};
use crate::error::{Error, ErrorView};
use crate::history::{
    accepted, after, creations, deletions, distinct_creations, replacements, replayed, served,
    Request,
};
use crate::model::{
    admitted, created, deleted, found, is_generated_id, name_in_use, names_unique, registers,
    stamps_ordered, status_changed, updated, Catalog,
};
use crate::time::Timestamp;
use vstd::prelude::*;

verus! {

/// Of two agents with one name, registered one after the other, the second
/// is refused as a conflict, whatever the identifiers of the two and
/// whether or not the first was accepted.
pub proof fn lemma_second_of_a_name_is_refused(
    catalog: Catalog,
    first: AgentRecord,
    first_at: Timestamp,
    second: AgentRecord,
    second_at: Timestamp,
)
    requires
        first.name == second.name,
    ensures
        match created(catalog, first, first_at) {
            Ok(next) => created(next, second, second_at) == Err::<Catalog, ErrorView>(
                ErrorView::Conflict { name: second.name },
            ),
            Err(_) => created(catalog, second, second_at) == Err::<Catalog, ErrorView>(
                ErrorView::Conflict { name: second.name },
            ),
        },
{
    if let Ok(next) = created(catalog, first, first_at) {
        assert(next.contains_key(first.id) && next[first.id].name == second.name);
    }
}

/// An agent that was registered is stored under the identifier it was
/// registered under, which is the stored agent's own; where it was submitted
/// without one, that identifier has the form of a generated one and is not
/// empty.
pub proof fn lemma_registered_under_its_id(
    outcome: Result<(), Error>,
    before: Catalog,
    after: Catalog,
    submitted: AgentRecord,
    id: Seq<char>,
    now: Timestamp,
)
    requires
        registers(outcome, before, after, submitted, id, now),
        outcome is Ok,
    ensures
        after.contains_key(id),
        after[id].id == id,
        after[id].name == submitted.name,
        submitted.id.len() == 0 ==> is_generated_id(id) && id.len() > 0,
        submitted.id.len() > 0 ==> id == submitted.id,
{
}

/// A registered agent is stored under its identifier with both time stamps
/// equal to the time of registration, with a status other than inactive, and
/// otherwise as submitted.
pub proof fn lemma_registered_as_submitted(catalog: Catalog, submitted: AgentRecord, now: Timestamp)
    requires
        created(catalog, submitted, now) is Ok,
    ensures
        ({
            let next = created(catalog, submitted, now)->Ok_0;
            &&& next.contains_key(submitted.id)
            &&& next[submitted.id].created_at == now
            &&& next[submitted.id].updated_at == now
            &&& next[submitted.id].status != AgentStatus::Inactive
            &&& submitted.status == AgentStatus::Inactive ==> next[submitted.id].status
                == AgentStatus::Active
            &&& submitted.status != AgentStatus::Inactive ==> next[submitted.id].status
                == submitted.status
            &&& next[submitted.id].id == submitted.id
            &&& next[submitted.id].name == submitted.name
            &&& next[submitted.id].description == submitted.description
            &&& next[submitted.id].capabilities == submitted.capabilities
        }),
{
}

/// An update at a time later than the agent's last change moves the time
/// of the last change strictly forward and keeps the time of creation.
pub proof fn lemma_update_advances_stamp(
    catalog: Catalog,
    id: Seq<char>,
    replacement: AgentRecord,
    now: Timestamp,
)
    requires
        catalog.contains_key(id),
        catalog[id].updated_at.precedes(now),
    ensures
        updated(catalog, id, replacement, now) is Ok,
        ({
            let next = updated(catalog, id, replacement, now)->Ok_0;
            &&& next.contains_key(id)
            &&& next[id].created_at == catalog[id].created_at
            &&& catalog[id].updated_at.precedes(next[id].updated_at)
        }),
{
}

/// A change of status at a time later than the agent's last change moves
/// the time of the last change strictly forward and keeps the time of
/// creation.
pub proof fn lemma_status_change_advances_stamp(
    catalog: Catalog,
    id: Seq<char>,
    status: AgentStatus,
    now: Timestamp,
)
    requires
        catalog.contains_key(id),
        catalog[id].updated_at.precedes(now),
    ensures
        status_changed(catalog, id, status, now) is Ok,
        ({
            let next = status_changed(catalog, id, status, now)->Ok_0;
            &&& next.contains_key(id)
            &&& next[id].created_at == catalog[id].created_at
            &&& catalog[id].updated_at.precedes(next[id].updated_at)
        }),
{
}

/// Lookup, update, removal and change of status of an identifier that is
/// not registered are all refused as not found, and leave the registry as
/// it was.
pub proof fn lemma_absent_id_is_not_found(
    catalog: Catalog,
    id: Seq<char>,
    replacement: AgentRecord,
    status: AgentStatus,
    now: Timestamp,
)
    requires
        !catalog.contains_key(id),
    ensures
        found(catalog, id) == Err::<AgentRecord, ErrorView>(ErrorView::NotFound { id }),
        updated(catalog, id, replacement, now) == Err::<Catalog, ErrorView>(
            ErrorView::NotFound { id },
        ),
        deleted(catalog, id) == Err::<Catalog, ErrorView>(ErrorView::NotFound { id }),
        status_changed(catalog, id, status, now) == Err::<Catalog, ErrorView>(
            ErrorView::NotFound { id },
        ),
        after(catalog, Request::Update { id, replacement, now }) == catalog,
        after(catalog, Request::Delete { id }) == catalog,
        after(catalog, Request::ChangeStatus { id, status, now }) == catalog,
{
}

/// Registration keeps names unique: where no two stored agents share a
/// name before, none do after.
pub proof fn lemma_create_keeps_names_unique(
    catalog: Catalog,
    submitted: AgentRecord,
    now: Timestamp,
)
    requires
        names_unique(catalog),
        created(catalog, submitted, now) is Ok,
    ensures
        names_unique(created(catalog, submitted, now)->Ok_0),
{
    let next = created(catalog, submitted, now)->Ok_0;
    assert forall|a: Seq<char>, b: Seq<char>|
        next.contains_key(a) && next.contains_key(b) && (#[trigger] next[a]).name == (
        #[trigger] next[b]).name implies a == b by {
        if a != submitted.id && b != submitted.id {
            assert(catalog[a].name == catalog[b].name);
        } else if a != submitted.id {
            assert(catalog.contains_key(a) && catalog[a].name == submitted.name);
        } else if b != submitted.id {
            assert(catalog.contains_key(b) && catalog[b].name == submitted.name);
        }
    }
}

/// An update keeps names unique where the replacement's name is that of no
/// other stored agent. The registry does not look at the name when it
/// updates: without this, two agents can come to share one.
pub proof fn lemma_update_keeps_names_unique(
    catalog: Catalog,
    id: Seq<char>,
    replacement: AgentRecord,
    now: Timestamp,
)
    requires
        names_unique(catalog),
        catalog.contains_key(id),
        forall|other: Seq<char>|
            catalog.contains_key(other) && other != id ==> (#[trigger] catalog[other]).name
                != replacement.name,
    ensures
        names_unique(updated(catalog, id, replacement, now)->Ok_0),
{
    let next = updated(catalog, id, replacement, now)->Ok_0;
    assert forall|a: Seq<char>, b: Seq<char>|
        next.contains_key(a) && next.contains_key(b) && (#[trigger] next[a]).name == (
        #[trigger] next[b]).name implies a == b by {
        if a != id && b != id {
            assert(catalog[a].name == catalog[b].name);
        } else if a != id {
            assert(catalog[a].name != replacement.name);
        } else if b != id {
            assert(catalog[b].name != replacement.name);
        }
    }
}

/// Removal and change of status keep names unique.
pub proof fn lemma_delete_and_status_keep_names_unique(
    catalog: Catalog,
    id: Seq<char>,
    status: AgentStatus,
    now: Timestamp,
)
    requires
        names_unique(catalog),
        catalog.contains_key(id),
    ensures
        names_unique(deleted(catalog, id)->Ok_0),
        names_unique(status_changed(catalog, id, status, now)->Ok_0),
{
    let removed = deleted(catalog, id)->Ok_0;
    assert forall|a: Seq<char>, b: Seq<char>|
        removed.contains_key(a) && removed.contains_key(b) && (#[trigger] removed[a]).name == (
        #[trigger] removed[b]).name implies a == b by {
        assert(catalog[a].name == catalog[b].name);
    }
    let changed = status_changed(catalog, id, status, now)->Ok_0;
    assert forall|a: Seq<char>, b: Seq<char>|
        changed.contains_key(a) && changed.contains_key(b) && (#[trigger] changed[a]).name == (
        #[trigger] changed[b]).name implies a == b by {
        assert(catalog[a].name == catalog[b].name);
    }
}

/// No agent was last changed before it was created, as long as the clock
/// has not gone back behind an agent's creation when that agent is changed:
/// registration and removal keep this whatever the time, update and change
/// of status where `now` is not earlier than the agent's creation.
pub proof fn lemma_stamps_stay_ordered(
    catalog: Catalog,
    id: Seq<char>,
    record: AgentRecord,
    status: AgentStatus,
    now: Timestamp,
)
    requires
        stamps_ordered(catalog),
    ensures
        created(catalog, record, now) is Ok ==> stamps_ordered(created(catalog, record, now)->Ok_0),
        deleted(catalog, id) is Ok ==> stamps_ordered(deleted(catalog, id)->Ok_0),
        catalog.contains_key(id) && catalog[id].created_at.not_after(now) ==> stamps_ordered(
            updated(catalog, id, record, now)->Ok_0,
        ) && stamps_ordered(status_changed(catalog, id, status, now)->Ok_0),
{
    if created(catalog, record, now) is Ok {
        let next = created(catalog, record, now)->Ok_0;
        assert forall|k: Seq<char>| next.contains_key(k) implies (#[trigger] next[k]).created_at.not_after(
            next[k].updated_at,
        ) by {
            if k != record.id {
                assert(catalog[k].created_at.not_after(catalog[k].updated_at));
            }
        }
    }
    if deleted(catalog, id) is Ok {
        let next = deleted(catalog, id)->Ok_0;
        assert forall|k: Seq<char>| next.contains_key(k) implies (#[trigger] next[k]).created_at.not_after(
            next[k].updated_at,
        ) by {
            assert(catalog[k].created_at.not_after(catalog[k].updated_at));
        }
    }
    if catalog.contains_key(id) && catalog[id].created_at.not_after(now) {
        let next = updated(catalog, id, record, now)->Ok_0;
        assert forall|k: Seq<char>| next.contains_key(k) implies (#[trigger] next[k]).created_at.not_after(
            next[k].updated_at,
        ) by {
            if k != id {
                assert(catalog[k].created_at.not_after(catalog[k].updated_at));
            }
        }
        let other = status_changed(catalog, id, status, now)->Ok_0;
        assert forall|k: Seq<char>| other.contains_key(k) implies (#[trigger] other[k]).created_at.not_after(
            other[k].updated_at,
        ) by {
            if k != id {
                assert(catalog[k].created_at.not_after(catalog[k].updated_at));
            }
        }
    }
}

/// After any sequence of requests the registry holds as many agents as it
/// held at the start, plus one for each accepted registration, minus one for
/// each accepted removal and for each registration that replaced an agent.
/// So a registry that started empty and saw no replacement holds as many
/// agents as registrations were accepted, less the removals accepted.
pub proof fn lemma_count_after_requests(start: Catalog, requests: Seq<Request>)
    requires
        start.dom().finite(),
    ensures
        replayed(start, requests).dom().finite(),
        replayed(start, requests).len() + deletions(start, requests) + replacements(
            start,
            requests,
        ) == start.len() + creations(start, requests),
        start == Map::<Seq<char>, AgentRecord>::empty() && replacements(start, requests) == 0
            ==> replayed(start, requests).len() == creations(start, requests) - deletions(
            start,
            requests,
        ),
    decreases requests.len(),
{
    if requests.len() > 0 {
        lemma_count_after_requests(start, requests.drop_last());
    }
}

/// A name in use after registrations only was in use at the start or is
/// the name of one of them.
proof fn lemma_names_after_creations(start: Catalog, requests: Seq<Request>, name: Seq<char>)
    requires
        forall|i: int| 0 <= i < requests.len() ==> (#[trigger] requests[i]) is Create,
        name_in_use(replayed(start, requests), name),
    ensures
        name_in_use(start, name) || exists|i: int|
            0 <= i < requests.len() && (#[trigger] requests[i])->submitted.name == name,
    decreases requests.len(),
{
    if requests.len() > 0 {
        let earlier = requests.drop_last();
        let before = replayed(start, earlier);
        let last = requests.last();
        assert(last is Create);
        assert forall|i: int| 0 <= i < earlier.len() implies (#[trigger] earlier[i]) is Create by {
            assert(earlier[i] == requests[i]);
        }
        let id = choose|id: Seq<char>|
            replayed(start, requests).contains_key(id) && (#[trigger] replayed(
                start,
                requests,
            )[id]).name == name;
        if served(before, last) is Ok && id == last->submitted.id {
            assert(requests[requests.len() - 1]->submitted.name == name);
        } else {
            assert(before.contains_key(id) && before[id].name == name);
            lemma_names_after_creations(start, earlier, name);
            if !name_in_use(start, name) {
                let i = choose|i: int|
                    0 <= i < earlier.len() && (#[trigger] earlier[i])->submitted.name == name;
                assert(requests[i] == earlier[i]);
            }
        }
    }
}

/// Registrations with distinct names, none of them in use, and distinct
/// identifiers are all accepted, in whatever order they are served, and
/// each agent is found afterwards under its identifier, stored as
/// registration stores it.
pub proof fn lemma_distinct_creations_all_stored(start: Catalog, requests: Seq<Request>)
    requires
        distinct_creations(start, requests),
    ensures
        forall|k: int| 0 <= k < requests.len() ==> #[trigger] accepted(start, requests, k),
        forall|k: int|
            0 <= k < requests.len() ==> {
                let request = #[trigger] requests[k];
                &&& replayed(start, requests).contains_key(request->submitted.id)
                &&& replayed(start, requests)[request->submitted.id] == admitted(
                    request->submitted,
                    request->Create_now,
                )
            },
    decreases requests.len(),
{
    if requests.len() > 0 {
        let earlier = requests.drop_last();
        let before = replayed(start, earlier);
        let last = requests.last();
        let n = requests.len() - 1;
        assert forall|i: int| 0 <= i < earlier.len() implies earlier[i] == requests[i] by {}
        assert(distinct_creations(start, earlier));
        lemma_distinct_creations_all_stored(start, earlier);
        assert(last is Create);
        if name_in_use(before, last->submitted.name) {
            lemma_names_after_creations(start, earlier, last->submitted.name);
            let i = choose|i: int|
                0 <= i < earlier.len() && (#[trigger] earlier[i])->submitted.name
                    == last->submitted.name;
            assert(requests[i]->submitted.name != requests[n]->submitted.name);
        }
        assert(served(before, last) is Ok);
        assert forall|k: int| 0 <= k < requests.len() implies #[trigger] accepted(
            start,
            requests,
            k,
        ) by {
            if k < n {
                assert(accepted(start, earlier, k));
                assert(earlier.take(k) =~= requests.take(k));
            } else {
                assert(requests.take(k) =~= earlier);
            }
        }
        assert forall|k: int| 0 <= k < requests.len() implies {
            let request = #[trigger] requests[k];
            &&& replayed(start, requests).contains_key(request->submitted.id)
            &&& replayed(start, requests)[request->submitted.id] == admitted(
                request->submitted,
                request->Create_now,
            )
        } by {
            if k < n {
                assert(requests[k] == earlier[k]);
                assert(requests[k]->submitted.id != requests[n]->submitted.id);
            }
        }
    }
}

} // verus!
