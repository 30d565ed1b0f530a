//! The registry as a finite map, and what each operation makes of it.
//!
//! These functions are the meaning of the registry's methods: a method's
//! contract says that its result and the registry's new contents are the ones
//! given here.

use crate::agent::{AgentRecord, AgentStatus};
use crate::error::{Error, ErrorView};
use crate::time::Timestamp;
use vstd::prelude::*;

verus! {

/// The contents of a registry: the record stored under each identifier.
pub type Catalog = Map<Seq<char>, AgentRecord>;

/// Some record of `catalog` carries `name`.
pub open spec fn name_in_use(catalog: Catalog, name: Seq<char>) -> bool {
    exists|id: Seq<char>| catalog.contains_key(id) && (#[trigger] catalog[id]).name == name
}

/// No two identifiers of `catalog` lead to records with the same name.
pub open spec fn names_unique(catalog: Catalog) -> bool {
    forall|a: Seq<char>, b: Seq<char>|
        catalog.contains_key(a) && catalog.contains_key(b) && (#[trigger] catalog[a]).name == (
        #[trigger] catalog[b]).name ==> a == b
}

/// Every record was last touched no earlier than it was created.
pub open spec fn stamps_ordered(catalog: Catalog) -> bool {
    forall|id: Seq<char>|
        catalog.contains_key(id) ==> (#[trigger] catalog[id]).created_at.not_after(
            catalog[id].updated_at,
        )
}

/// The length of an identifier that the registry generates.
pub const GENERATED_ID_LENGTH: usize = 36;

/// A digit of lower-case hexadecimal notation.
pub open spec fn is_hex_digit(c: char) -> bool {
    ('0' <= c && c <= '9') || ('a' <= c && c <= 'f')
}

/// `id` has the form of the identifiers that the registry generates: a
/// random (version 4) universally unique identifier in hyphenated lower-case
/// notation, `xxxxxxxx-xxxx-4xxx-yxxx-xxxxxxxxxxxx`, where each `x` is a
/// hexadecimal digit and `y` is one of `8`, `9`, `a` and `b`.
pub open spec fn is_generated_id(id: Seq<char>) -> bool {
    &&& id.len() == GENERATED_ID_LENGTH
    &&& forall|i: int|
        0 <= i < id.len() ==> if i == 8 || i == 13 || i == 18 || i == 23 {
            #[trigger] id[i] == '-'
        } else {
            is_hex_digit(id[i])
        }
    &&& id[14] == '4'
    &&& id[19] == '8' || id[19] == '9' || id[19] == 'a' || id[19] == 'b'
}

/// `id` can be the identifier that `submitted` is registered under: its
/// own, or a generated one where it has none.
pub open spec fn identifies(id: Seq<char>, submitted: AgentRecord) -> bool {
    if submitted.id.len() == 0 {
        is_generated_id(id)
    } else {
        id == submitted.id
    }
}

/// The record that is stored when `submitted` is registered at `now`: both
/// stamps are `now`, and an agent submitted as inactive starts out active.
pub open spec fn admitted(submitted: AgentRecord, now: Timestamp) -> AgentRecord {
    AgentRecord {
        status: if submitted.status == AgentStatus::Inactive {
            AgentStatus::Active
        } else {
            submitted.status
        },
        created_at: now,
        updated_at: now,
        ..submitted
    }
}

/// The record that replaces `stored` when `replacement` is written over it
/// at `now`: the replacement, but created when `stored` was.
pub open spec fn overwritten(
    stored: AgentRecord,
    replacement: AgentRecord,
    now: Timestamp,
) -> AgentRecord {
    AgentRecord { created_at: stored.created_at, updated_at: now, ..replacement }
}

/// `stored` with a new status, touched at `now`.
pub open spec fn restated(stored: AgentRecord, status: AgentStatus, now: Timestamp) -> AgentRecord {
    AgentRecord { status, updated_at: now, ..stored }
}

/// Registering `submitted` at `now`: refused when its name is in use, else
/// stored under its identifier.
pub open spec fn created(catalog: Catalog, submitted: AgentRecord, now: Timestamp) -> Result<
    Catalog,
    ErrorView,
> {
    if name_in_use(catalog, submitted.name) {
        Err(ErrorView::Conflict { name: submitted.name })
    } else {
        Ok(catalog.insert(submitted.id, admitted(submitted, now)))
    }
}

/// Looking up `id`.
pub open spec fn found(catalog: Catalog, id: Seq<char>) -> Result<AgentRecord, ErrorView> {
    if catalog.contains_key(id) {
        Ok(catalog[id])
    } else {
        Err(ErrorView::NotFound { id })
    }
}

/// Writing `replacement` over the record under `id` at `now`.
pub open spec fn updated(
    catalog: Catalog,
    id: Seq<char>,
    replacement: AgentRecord,
    now: Timestamp,
) -> Result<Catalog, ErrorView> {
    if catalog.contains_key(id) {
        Ok(catalog.insert(id, overwritten(catalog[id], replacement, now)))
    } else {
        Err(ErrorView::NotFound { id })
    }
}

/// Removing the record under `id`.
pub open spec fn deleted(catalog: Catalog, id: Seq<char>) -> Result<Catalog, ErrorView> {
    if catalog.contains_key(id) {
        Ok(catalog.remove(id))
    } else {
        Err(ErrorView::NotFound { id })
    }
}

/// Giving the record under `id` a new status at `now`.
pub open spec fn status_changed(
    catalog: Catalog,
    id: Seq<char>,
    status: AgentStatus,
    now: Timestamp,
) -> Result<Catalog, ErrorView> {
    if catalog.contains_key(id) {
        Ok(catalog.insert(id, restated(catalog[id], status, now)))
    } else {
        Err(ErrorView::NotFound { id })
    }
}

/// `listing` holds the records of `catalog` in the order of `ids`, which
/// names every identifier of the catalog once.
pub open spec fn lists_in_order(
    catalog: Catalog,
    ids: Seq<Seq<char>>,
    listing: Seq<AgentRecord>,
) -> bool {
    &&& ids.no_duplicates()
    &&& ids.to_set() == catalog.dom()
    &&& ids.len() == listing.len()
    &&& forall|i: int| 0 <= i < ids.len() ==> listing[i] == #[trigger] catalog[ids[i]]
}

/// `listing` holds the records of `catalog`, each identifier's once, in some
/// order.
pub open spec fn lists(catalog: Catalog, listing: Seq<AgentRecord>) -> bool {
    exists|ids: Seq<Seq<char>>| lists_in_order(catalog, ids, listing)
}

/// A method that was to turn `before` into `expected` did so: on success the
/// registry holds the new catalog, on failure it reports that failure and
/// holds what it held.
pub open spec fn settles(
    outcome: Result<(), Error>,
    before: Catalog,
    after: Catalog,
    expected: Result<Catalog, ErrorView>,
) -> bool {
    match expected {
        Ok(catalog) => outcome is Ok && after == catalog,
        Err(failure) => outcome is Err && outcome->Err_0@ == failure && after == before,
    }
}

/// A call that registered `submitted` under `id` at `now` ended as it
/// should.
pub open spec fn registers(
    outcome: Result<(), Error>,
    before: Catalog,
    after: Catalog,
    submitted: AgentRecord,
    id: Seq<char>,
    now: Timestamp,
) -> bool {
    &&& identifies(id, submitted)
    &&& settles(outcome, before, after, created(before, AgentRecord { id, ..submitted }, now))
}

} // verus!
