//! Agents and the records that stand for them in contracts.

use crate::time::Timestamp;
use vstd::prelude::*;

verus! {

/// Lifecycle state of an agent.
#[derive(Clone, Copy, Debug, PartialEq, Eq, Hash, Structural)]
pub enum AgentStatus {
    Active,
    Inactive,
    Suspended,
}

/// What an agent is to a contract: every field as a mathematical value.
pub struct AgentRecord {
    pub id: Seq<char>,
    pub name: Seq<char>,
    pub description: Seq<char>,
    pub capabilities: Seq<Seq<char>>,
    pub status: AgentStatus,
    pub created_at: Timestamp,
    pub updated_at: Timestamp,
}

/// A named, status-tracked entity of the registry.
#[derive(Debug, PartialEq, Eq)]
pub struct Agent {
    pub id: String,
    pub name: String,
    pub description: String,
    pub capabilities: Vec<String>,
    pub status: AgentStatus,
    pub created_at: Timestamp,
    pub updated_at: Timestamp,
}

impl View for Agent {
    type V = AgentRecord;

    open spec fn view(&self) -> AgentRecord {
        AgentRecord {
            id: self.id@,
            name: self.name@,
            description: self.description@,
            capabilities: self.capabilities.deep_view(),
            status: self.status,
            created_at: self.created_at,
            updated_at: self.updated_at,
        }
    }
}

impl Clone for Agent {
    /// A copy with the same record.
    fn clone(&self) -> (copy: Self)
        ensures
            copy@ == self@,
    {
        let capabilities = self.capabilities.clone();
        assert(capabilities.deep_view() =~= self.capabilities.deep_view());
        Agent {
            id: self.id.clone(),
            name: self.name.clone(),
            description: self.description.clone(),
            capabilities,
            status: self.status,
            created_at: self.created_at,
            updated_at: self.updated_at,
        }
    }
}

} // verus!
