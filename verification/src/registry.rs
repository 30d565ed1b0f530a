//! The agent registry: agents by identifier, with unique names at creation
//! and time stamps kept on every change.

use crate::agent::{Agent, AgentRecord, AgentStatus};
use crate::error::Error;
use crate::model::{
    admitted, created, deleted, found, is_generated_id, lists, lists_in_order, name_in_use,
    overwritten, registers, restated, settles, status_changed, updated, Catalog,
};
use crate::time::{current_time, Timestamp};
use vstd::prelude::*;
use vstd::seq_lib::seq_to_set_is_finite;

verus! {

/// One stored agent and the identifier it is stored under.
struct Entry {
    key: String,
    agent: Agent,
}

/// The identifiers of `entries`, in their order.
spec fn keys(entries: Seq<Entry>) -> Seq<Seq<char>> {
    entries.map_values(|e: Entry| e.key@)
}

/// The catalog that `entries` stand for.
spec fn content(entries: Seq<Entry>) -> Catalog {
    Map::new(
        |id: Seq<char>| keys(entries).contains(id),
        |id: Seq<char>| entries[keys(entries).index_of(id)].agent@,
    )
}

/// An entry is found in the catalog under its key.
proof fn lemma_entry_in_content(entries: Seq<Entry>, i: int)
    requires
        keys(entries).no_duplicates(),
        0 <= i < entries.len(),
    ensures
        content(entries).contains_key(entries[i].key@),
        content(entries)[entries[i].key@] == entries[i].agent@,
{
    let ks = keys(entries);
    assert(ks[i] == entries[i].key@);
    assert(ks.contains(entries[i].key@));
    let j = ks.index_of(entries[i].key@);
    assert(ks[j] == ks[i]);
}

/// A key of the catalog is the key of some entry.
proof fn lemma_key_has_entry(entries: Seq<Entry>, id: Seq<char>) -> (i: int)
    requires
        content(entries).contains_key(id),
    ensures
        0 <= i < entries.len(),
        entries[i].key@ == id,
        content(entries)[id] == entries[i].agent@,
{
    let ks = keys(entries);
    assert(ks.contains(id));
    let i = ks.index_of(id);
    assert(ks[i] == id);
    i
}

/// Appending an entry with a new key stores its agent under that key.
proof fn lemma_content_push(entries: Seq<Entry>, entry: Entry)
    requires
        keys(entries).no_duplicates(),
        !keys(entries).contains(entry.key@),
    ensures
        keys(entries.push(entry)).no_duplicates(),
        content(entries.push(entry)) == content(entries).insert(entry.key@, entry.agent@),
{
    let grown = entries.push(entry);
    assert(keys(grown) =~= keys(entries).push(entry.key@));
    assert forall|id: Seq<char>| #[trigger]
        content(grown).contains_key(id) == content(entries).insert(
            entry.key@,
            entry.agent@,
        ).contains_key(id) by {
        if keys(entries).contains(id) {
            let i = keys(entries).index_of(id);
            assert(keys(grown)[i] == id);
        }
        if id == entry.key@ {
            assert(keys(grown)[entries.len() as int] == id);
        }
    }
    assert forall|id: Seq<char>| #[trigger] content(grown).contains_key(id) implies content(
        grown,
    )[id] == content(entries).insert(entry.key@, entry.agent@)[id] by {
        let i = lemma_key_has_entry(grown, id);
        if i < entries.len() {
            lemma_entry_in_content(entries, i);
        }
    }
    assert(content(grown) =~= content(entries).insert(entry.key@, entry.agent@));
}

/// Putting an agent in the place of the one stored under the same key stores
/// it under that key.
proof fn lemma_content_replace(entries: Seq<Entry>, i: int, entry: Entry)
    requires
        keys(entries).no_duplicates(),
        0 <= i < entries.len(),
        entry.key@ == entries[i].key@,
    ensures
        keys(entries.update(i, entry)).no_duplicates(),
        content(entries.update(i, entry)) == content(entries).insert(entry.key@, entry.agent@),
{
    let changed = entries.update(i, entry);
    assert(keys(changed) =~= keys(entries));
    assert forall|id: Seq<char>| #[trigger] content(changed).contains_key(id) implies content(
        changed,
    )[id] == content(entries).insert(entry.key@, entry.agent@)[id] by {
        let j = lemma_key_has_entry(changed, id);
        if j != i {
            lemma_entry_in_content(entries, j);
            assert(keys(entries)[j] == id && keys(entries)[i] == entry.key@);
        }
    }
    assert(content(changed) =~= content(entries).insert(entry.key@, entry.agent@));
}

/// Taking an entry out removes its key.
proof fn lemma_content_remove(entries: Seq<Entry>, i: int)
    requires
        keys(entries).no_duplicates(),
        0 <= i < entries.len(),
    ensures
        keys(entries.remove(i)).no_duplicates(),
        content(entries.remove(i)) == content(entries).remove(entries[i].key@),
{
    let rest = entries.remove(i);
    assert(keys(rest) =~= keys(entries).remove(i));
    assert forall|id: Seq<char>| #[trigger]
        content(rest).contains_key(id) == content(entries).remove(entries[i].key@).contains_key(
            id,
        ) by {
        if content(rest).contains_key(id) {
            let j = lemma_key_has_entry(rest, id);
            let k = if j < i { j } else { j + 1 };
            assert(keys(entries)[k] == id);
            assert(keys(entries)[i] == entries[i].key@);
        }
        if content(entries).remove(entries[i].key@).contains_key(id) {
            let k = lemma_key_has_entry(entries, id);
            let j = if k < i { k } else { k - 1 };
            assert(keys(rest)[j] == id);
        }
    }
    assert forall|id: Seq<char>| #[trigger] content(rest).contains_key(id) implies content(
        rest,
    )[id] == content(entries).remove(entries[i].key@)[id] by {
        let j = lemma_key_has_entry(rest, id);
        let k = if j < i { j } else { j + 1 };
        lemma_entry_in_content(entries, k);
    }
    assert(content(rest) =~= content(entries).remove(entries[i].key@));
}

/// The catalog of distinct keys has one identifier for each entry.
proof fn lemma_content_size(entries: Seq<Entry>)
    requires
        keys(entries).no_duplicates(),
    ensures
        content(entries).dom() == keys(entries).to_set(),
        content(entries).dom().finite(),
        content(entries).len() == entries.len(),
{
    assert(content(entries).dom() =~= keys(entries).to_set());
    seq_to_set_is_finite(keys(entries));
    keys(entries).unique_seq_to_set();
}

/// Draws a random identifier with `uuid::Uuid::new_v4` and renders it with
/// the type's `Display`, which writes the hyphenated lower-case form: 32
/// hexadecimal digits in groups of 8, 4, 4, 4 and 12, 36 characters in all.
/// `new_v4` sets the version digit, the first of the third group, to `4`,
/// and the two high bits of the variant digit, the first of the fourth
/// group, to `10`.
///
/// Nothing is claimed of which identifier comes back; that it differs from
/// the ones drawn before is likely and not certain. `new_v4` panics if the
/// system has no random bytes to give.
#[verifier::external_body]
fn generate_id() -> (id: String)
    ensures
        is_generated_id(id@),
{
    uuid::Uuid::new_v4().to_string()
}

/// The agents of a registry, each under one identifier.
pub struct AgentRegistry {
    entries: Vec<Entry>,
}

impl View for AgentRegistry {
    type V = Catalog;

    closed spec fn view(&self) -> Catalog {
        content(self.entries@)
    }
}

impl Default for AgentRegistry {
    /// An empty registry.
    fn default() -> (registry: Self)
        ensures
            registry@ == Map::<Seq<char>, AgentRecord>::empty(),
    {
        AgentRegistry::new()
    }
}

impl AgentRegistry {
    /// No identifier is stored twice.
    #[verifier::type_invariant]
    spec fn keys_distinct(self) -> bool {
        keys(self.entries@).no_duplicates()
    }

    /// An empty registry.
    pub fn new() -> (registry: Self)
        ensures
            registry@ == Map::<Seq<char>, AgentRecord>::empty(),
    {
        let registry = AgentRegistry { entries: Vec::new() };
        assert(registry@ =~= Map::<Seq<char>, AgentRecord>::empty());
        registry
    }

    /// A registry holds finitely many agents.
    pub proof fn lemma_finite(self)
        ensures
            self@.dom().finite(),
    {
        assert(self@.dom() =~= keys(self.entries@).to_set());
        seq_to_set_is_finite(keys(self.entries@));
    }

    /// Registers `agent` as of the current time, under its own identifier
    /// or, where that is empty, under a generated one.
    ///
    /// The call is refused exactly when a stored agent has the same name,
    /// whatever the identifier.
    pub fn create_agent(&mut self, agent: Agent) -> (outcome: Result<(), Error>)
        ensures
            exists|id: Seq<char>, now: Timestamp| #[trigger]
                registers(outcome, old(self)@, final(self)@, agent@, id, now),
            outcome is Err <==> name_in_use(old(self)@, agent@.name),
    {
        let mut submitted = agent;
        if submitted.id.as_str().is_empty() {
            submitted.id = generate_id();
        }
        let now = current_time();
        assert(submitted@ == AgentRecord { id: submitted.id@, ..agent@ });
        let outcome = self.create_agent_at(submitted, now);
        assert(registers(outcome, old(self)@, self@, agent@, submitted.id@, now));
        outcome
    }

    /// Registers `agent` under its own identifier as of `now`.
    ///
    /// Both time stamps of the stored agent are `now`, and an agent submitted
    /// as inactive is stored as active. The call is refused, and nothing
    /// changes, when a stored agent has the same name. An agent already stored
    /// under the identifier is replaced.
    pub fn create_agent_at(&mut self, agent: Agent, now: Timestamp) -> (outcome: Result<(), Error>)
        ensures
            settles(outcome, old(self)@, final(self)@, created(old(self)@, agent@, now)),
    {
        proof {
            use_type_invariant(&*self);
        }
        let mut record = agent;
        record.created_at = now;
        record.updated_at = now;
        if record.status == AgentStatus::Inactive {
            record.status = AgentStatus::Active;
        }
        assert(record@ == admitted(agent@, now));
        if self.name_taken(&record.name) {
            return Err(Error::Conflict { name: record.name });
        }
        let at = self.position(&record.id);
        let mut entries = self.take_entries();
        match at {
            Some(i) => {
                proof {
                    lemma_content_replace(
                        entries@,
                        i as int,
                        Entry { key: entries[i as int].key, agent: record },
                    );
                }
                entries[i].agent = record;
            },
            None => {
                let entry = Entry { key: record.id.clone(), agent: record };
                proof {
                    lemma_content_push(entries@, entry);
                }
                entries.push(entry);
            },
        }
        self.put_entries(entries);
        Ok(())
    }

    /// Hands out the entries and leaves none behind. `Vec`'s own methods
    /// may unwind, so the entries change outside the registry and come back
    /// through [`Self::put_entries`].
    fn take_entries(&mut self) -> (entries: Vec<Entry>)
        ensures
            entries == old(self).entries,
    {
        let mut entries: Vec<Entry> = Vec::new();
        core::mem::swap(&mut self.entries, &mut entries);
        entries
    }

    /// Makes `entries` the registry's own.
    fn put_entries(&mut self, entries: Vec<Entry>)
        requires
            keys(entries@).no_duplicates(),
        ensures
            final(self).entries == entries,
    {
        let mut entries = entries;
        core::mem::swap(&mut self.entries, &mut entries);
    }

    /// A copy of the agent stored under `id`.
    pub fn get_agent(&self, id: &str) -> (outcome: Result<Agent, Error>)
        ensures
            match found(self@, id@) {
                Ok(record) => outcome is Ok && outcome->Ok_0@ == record,
                Err(failure) => outcome is Err && outcome->Err_0@ == failure,
            },
    {
        proof {
            use_type_invariant(self);
        }
        let wanted = id.to_owned();
        match self.position(&wanted) {
            Some(i) => {
                proof {
                    lemma_entry_in_content(self.entries@, i as int);
                }
                Ok(self.entries[i].agent.clone())
            },
            None => Err(Error::NotFound { id: wanted }),
        }
    }

    /// Copies of all stored agents, each once. The order is that of first
    /// registration; callers should not rely on it.
    pub fn list_agents(&self) -> (outcome: Result<Vec<Agent>, Error>)
        ensures
            outcome is Ok,
            outcome->Ok_0@.len() == self@.len(),
            lists(self@, outcome->Ok_0@.map_values(|a: Agent| a@)),
    {
        proof {
            use_type_invariant(self);
        }
        let mut agents: Vec<Agent> = Vec::new();
        let mut i: usize = 0;
        while i < self.entries.len()
            invariant
                i <= self.entries.len(),
                agents.len() == i,
                forall|j: int| 0 <= j < i ==> agents[j]@ == self.entries[j].agent@,
            decreases self.entries.len() - i,
        {
            agents.push(self.entries[i].agent.clone());
            i += 1;
        }
        proof {
            let ids = keys(self.entries@);
            let listing = agents@.map_values(|a: Agent| a@);
            lemma_content_size(self.entries@);
            assert forall|j: int| 0 <= j < ids.len() implies listing[j] == #[trigger] self@[ids[j]] by {
                lemma_entry_in_content(self.entries@, j);
            }
            assert(lists_in_order(self@, ids, listing));
        }
        Ok(agents)
    }

    /// Writes `replacement` over the agent stored under `id`, as of the
    /// current time, which is read only where an agent is stored under `id`.
    pub fn update_agent(&mut self, id: &str, replacement: Agent) -> (outcome: Result<(), Error>)
        ensures
            exists|now: Timestamp| #[trigger]
                settles(
                    outcome,
                    old(self)@,
                    final(self)@,
                    updated(old(self)@, id@, replacement@, now),
                ),
            outcome is Err <==> !old(self)@.contains_key(id@),
    {
        let wanted = id.to_owned();
        if self.position(&wanted).is_none() {
            assert(settles(
                Err::<(), Error>(Error::NotFound { id: wanted }),
                self@,
                self@,
                updated(self@, id@, replacement@, Timestamp { secs: 0, nanos: 0 }),
            ));
            return Err(Error::NotFound { id: wanted });
        }
        let now = current_time();
        self.update_agent_at(id, replacement, now)
    }

    /// Writes `replacement` over the agent stored under `id`, as of `now`.
    ///
    /// The stored agent keeps the time of its creation and is touched at
    /// `now`; every other field is the replacement's, its identifier and its
    /// name included, neither of which is checked against the other agents.
    /// Where nothing is stored under `id` the call is refused and nothing
    /// changes.
    pub fn update_agent_at(&mut self, id: &str, replacement: Agent, now: Timestamp) -> (outcome:
        Result<(), Error>)
        ensures
            settles(outcome, old(self)@, final(self)@, updated(old(self)@, id@, replacement@, now)),
    {
        proof {
            use_type_invariant(&*self);
        }
        let wanted = id.to_owned();
        match self.position(&wanted) {
            Some(i) => {
                let mut record = replacement;
                let mut entries = self.take_entries();
                record.created_at = entries[i].agent.created_at;
                record.updated_at = now;
                proof {
                    lemma_entry_in_content(entries@, i as int);
                    assert(record@ == overwritten(old(self)@[id@], replacement@, now));
                    lemma_content_replace(
                        entries@,
                        i as int,
                        Entry { key: entries[i as int].key, agent: record },
                    );
                }
                entries[i].agent = record;
                self.put_entries(entries);
                Ok(())
            },
            None => Err(Error::NotFound { id: wanted }),
        }
    }

    /// Removes the agent stored under `id`. Where nothing is stored under
    /// `id` the call is refused and nothing changes.
    pub fn delete_agent(&mut self, id: &str) -> (outcome: Result<(), Error>)
        ensures
            settles(outcome, old(self)@, final(self)@, deleted(old(self)@, id@)),
    {
        proof {
            use_type_invariant(&*self);
        }
        let wanted = id.to_owned();
        match self.position(&wanted) {
            Some(i) => {
                let mut entries = self.take_entries();
                proof {
                    lemma_entry_in_content(entries@, i as int);
                    lemma_content_remove(entries@, i as int);
                }
                entries.remove(i);
                self.put_entries(entries);
                Ok(())
            },
            None => Err(Error::NotFound { id: wanted }),
        }
    }

    /// Gives the agent stored under `id` the status `status`, as of the
    /// current time, which is read only where an agent is stored under `id`.
    pub fn change_agent_status(&mut self, id: &str, status: AgentStatus) -> (outcome: Result<
        (),
        Error,
    >)
        ensures
            exists|now: Timestamp| #[trigger]
                settles(
                    outcome,
                    old(self)@,
                    final(self)@,
                    status_changed(old(self)@, id@, status, now),
                ),
            outcome is Err <==> !old(self)@.contains_key(id@),
    {
        let wanted = id.to_owned();
        if self.position(&wanted).is_none() {
            assert(settles(
                Err::<(), Error>(Error::NotFound { id: wanted }),
                self@,
                self@,
                status_changed(self@, id@, status, Timestamp { secs: 0, nanos: 0 }),
            ));
            return Err(Error::NotFound { id: wanted });
        }
        let now = current_time();
        self.change_agent_status_at(id, status, now)
    }

    /// Gives the agent stored under `id` the status `status`, as of `now`.
    ///
    /// The agent is touched at `now` and otherwise stays as it was. Where
    /// nothing is stored under `id` the call is refused and nothing changes.
    pub fn change_agent_status_at(&mut self, id: &str, status: AgentStatus, now: Timestamp) -> (outcome:
        Result<(), Error>)
        ensures
            settles(outcome, old(self)@, final(self)@, status_changed(old(self)@, id@, status, now)),
    {
        proof {
            use_type_invariant(&*self);
        }
        let wanted = id.to_owned();
        match self.position(&wanted) {
            Some(i) => {
                let mut entries = self.take_entries();
                let ghost before = entries@;
                entries[i].agent.status = status;
                entries[i].agent.updated_at = now;
                proof {
                    lemma_entry_in_content(before, i as int);
                    lemma_content_replace(before, i as int, entries[i as int]);
                    assert(entries@ =~= before.update(i as int, entries[i as int]));
                    assert(entries[i as int].agent@ == restated(old(self)@[id@], status, now));
                }
                self.put_entries(entries);
                Ok(())
            },
            None => Err(Error::NotFound { id: wanted }),
        }
    }

    /// Where `id` is stored, if it is.
    fn position(&self, id: &String) -> (at: Option<usize>)
        ensures
            match at {
                Some(i) => i < self.entries.len() && self.entries[i as int].key@ == id@,
                None => !self@.contains_key(id@),
            },
    {
        let mut i: usize = 0;
        while i < self.entries.len()
            invariant
                i <= self.entries.len(),
                forall|j: int| 0 <= j < i ==> self.entries[j].key@ != id@,
            decreases self.entries.len() - i,
        {
            if self.entries[i].key == *id {
                return Some(i);
            }
            i += 1;
        }
        proof {
            if self@.contains_key(id@) {
                let j = lemma_key_has_entry(self.entries@, id@);
            }
        }
        None
    }

    /// Whether some stored agent is named `name`.
    fn name_taken(&self, name: &String) -> (taken: bool)
        ensures
            taken == name_in_use(self@, name@),
    {
        proof {
            use_type_invariant(self);
        }
        let mut i: usize = 0;
        while i < self.entries.len()
            invariant
                i <= self.entries.len(),
                keys(self.entries@).no_duplicates(),
                forall|j: int| 0 <= j < i ==> self.entries[j].agent.name@ != name@,
            decreases self.entries.len() - i,
        {
            if self.entries[i].agent.name == *name {
                proof {
                    lemma_entry_in_content(self.entries@, i as int);
                    assert(self@[self.entries[i as int].key@].name == name@);
                }
                return true;
            }
            i += 1;
        }
        proof {
            if name_in_use(self@, name@) {
                let id = choose|id: Seq<char>|
                    self@.contains_key(id) && (#[trigger] self@[id]).name == name@;
                let j = lemma_key_has_entry(self.entries@, id);
            }
        }
        false
    }
}

} // verus!
