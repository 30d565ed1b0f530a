use agent_registry::{Agent, AgentRegistry, AgentStatus, Error, Timestamp};

fn at(secs: i64, nanos: u32) -> Timestamp {
    Timestamp { secs, nanos }
}

fn agent(id: &str, name: &str, status: AgentStatus) -> Agent {
    Agent {
        id: id.to_string(),
        name: name.to_string(),
        description: format!("{} does things", name),
        capabilities: vec!["search".to_string(), "summarize".to_string()],
        status,
        created_at: at(0, 0),
        updated_at: at(0, 0),
    }
}

fn names(registry: &AgentRegistry) -> Vec<String> {
    let mut names: Vec<String> =
        registry.list_agents().unwrap().into_iter().map(|a| a.name).collect();
    names.sort();
    names
}

#[test]
fn new_registry_is_empty() {
    assert!(AgentRegistry::new().list_agents().unwrap().is_empty());
    assert!(AgentRegistry::default().list_agents().unwrap().is_empty());
}

#[test]
fn created_agent_is_stored_as_submitted_with_both_stamps_set() {
    let mut registry = AgentRegistry::new();
    let submitted = agent("a-1", "alpha", AgentStatus::Suspended);
    assert_eq!(registry.create_agent_at(submitted, at(100, 5)), Ok(()));
    let stored = registry.get_agent("a-1").unwrap();
    assert_eq!(
        stored,
        Agent {
            id: "a-1".to_string(),
            name: "alpha".to_string(),
            description: "alpha does things".to_string(),
            capabilities: vec!["search".to_string(), "summarize".to_string()],
            status: AgentStatus::Suspended,
            created_at: at(100, 5),
            updated_at: at(100, 5),
        }
    );
}

#[test]
fn inactive_agent_is_stored_active() {
    let mut registry = AgentRegistry::new();
    registry.create_agent_at(agent("a", "alpha", AgentStatus::Inactive), at(1, 0)).unwrap();
    registry.create_agent_at(agent("b", "beta", AgentStatus::Active), at(1, 0)).unwrap();
    registry.create_agent_at(agent("c", "gamma", AgentStatus::Suspended), at(1, 0)).unwrap();
    assert_eq!(registry.get_agent("a").unwrap().status, AgentStatus::Active);
    assert_eq!(registry.get_agent("b").unwrap().status, AgentStatus::Active);
    assert_eq!(registry.get_agent("c").unwrap().status, AgentStatus::Suspended);
}

#[test]
fn second_agent_of_a_name_is_a_conflict_whatever_its_id() {
    let mut registry = AgentRegistry::new();
    registry.create_agent_at(agent("a", "alpha", AgentStatus::Active), at(1, 0)).unwrap();
    let same_id = registry.create_agent_at(agent("a", "alpha", AgentStatus::Active), at(2, 0));
    let other_id = registry.create_agent_at(agent("b", "alpha", AgentStatus::Active), at(2, 0));
    let no_id = registry.create_agent(agent("", "alpha", AgentStatus::Active));
    let conflict = Err(Error::Conflict { name: "alpha".to_string() });
    assert_eq!(same_id, conflict);
    assert_eq!(other_id, conflict);
    assert_eq!(no_id, conflict);
    let listed = registry.list_agents().unwrap();
    assert_eq!(listed.len(), 1);
    assert_eq!(listed[0].id, "a");
    assert_eq!(listed[0].created_at, at(1, 0));
}

#[test]
fn names_are_compared_exactly() {
    let mut registry = AgentRegistry::new();
    registry.create_agent_at(agent("a", "alpha", AgentStatus::Active), at(1, 0)).unwrap();
    assert_eq!(registry.create_agent_at(agent("b", "Alpha", AgentStatus::Active), at(1, 0)), Ok(()));
    assert_eq!(registry.create_agent_at(agent("c", "alpha ", AgentStatus::Active), at(1, 0)), Ok(()));
    assert_eq!(names(&registry), vec!["Alpha", "alpha", "alpha "]);
}

#[test]
fn agent_without_id_gets_a_generated_one() {
    let mut registry = AgentRegistry::new();
    assert_eq!(registry.create_agent(agent("", "alpha", AgentStatus::Active)), Ok(()));
    assert_eq!(registry.create_agent(agent("", "beta", AgentStatus::Active)), Ok(()));
    let listed = registry.list_agents().unwrap();
    assert_eq!(listed.len(), 2);
    for stored in &listed {
        assert_eq!(stored.id.chars().count(), 36);
        for (i, c) in stored.id.chars().enumerate() {
            if i == 8 || i == 13 || i == 18 || i == 23 {
                assert_eq!(c, '-');
            } else {
                assert!(c.is_ascii_hexdigit() && !c.is_ascii_uppercase());
            }
        }
        assert_eq!(stored.id.chars().nth(14), Some('4'));
        assert!(matches!(stored.id.chars().nth(19), Some('8' | '9' | 'a' | 'b')));
        assert_eq!(registry.get_agent(&stored.id).unwrap().name, stored.name);
    }
    assert_ne!(listed[0].id, listed[1].id);
}

#[test]
fn agent_with_id_keeps_it() {
    let mut registry = AgentRegistry::new();
    assert_eq!(registry.create_agent(agent("mine", "alpha", AgentStatus::Active)), Ok(()));
    assert_eq!(registry.get_agent("mine").unwrap().id, "mine");
    assert_eq!(registry.list_agents().unwrap().len(), 1);
}

#[test]
fn create_agent_stamps_the_current_time() {
    let mut registry = AgentRegistry::new();
    let mut submitted = agent("a", "alpha", AgentStatus::Active);
    submitted.created_at = at(7, 7);
    submitted.updated_at = at(9, 9);
    let before = chrono::Utc::now();
    registry.create_agent(submitted).unwrap();
    let after = chrono::Utc::now();
    let stored = registry.get_agent("a").unwrap();
    assert_eq!(stored.created_at, stored.updated_at);
    let stamp = (stored.created_at.secs, stored.created_at.nanos);
    assert!((before.timestamp(), before.timestamp_subsec_nanos()) <= stamp);
    assert!(stamp <= (after.timestamp(), after.timestamp_subsec_nanos()));
    assert!(stored.created_at.nanos < 1_000_000_000);
}

#[test]
fn get_returns_a_copy() {
    let mut registry = AgentRegistry::new();
    registry.create_agent_at(agent("a", "alpha", AgentStatus::Active), at(1, 0)).unwrap();
    let mut copy = registry.get_agent("a").unwrap();
    copy.name = "changed".to_string();
    copy.capabilities.clear();
    let again = registry.get_agent("a").unwrap();
    assert_eq!(again.name, "alpha");
    assert_eq!(again.capabilities.len(), 2);
}

#[test]
fn update_overwrites_all_but_the_time_of_creation() {
    let mut registry = AgentRegistry::new();
    registry.create_agent_at(agent("a", "alpha", AgentStatus::Active), at(10, 0)).unwrap();
    let mut replacement = agent("a", "renamed", AgentStatus::Inactive);
    replacement.description = "new text".to_string();
    replacement.capabilities = vec!["plan".to_string()];
    replacement.created_at = at(999, 1);
    replacement.updated_at = at(999, 2);
    assert_eq!(registry.update_agent_at("a", replacement, at(20, 3)), Ok(()));
    assert_eq!(
        registry.get_agent("a").unwrap(),
        Agent {
            id: "a".to_string(),
            name: "renamed".to_string(),
            description: "new text".to_string(),
            capabilities: vec!["plan".to_string()],
            status: AgentStatus::Inactive,
            created_at: at(10, 0),
            updated_at: at(20, 3),
        }
    );
    assert_eq!(registry.list_agents().unwrap().len(), 1);
}

#[test]
fn update_advances_the_time_of_the_last_change() {
    let mut registry = AgentRegistry::new();
    registry.create_agent_at(agent("a", "alpha", AgentStatus::Active), at(10, 500)).unwrap();
    registry.update_agent_at("a", agent("a", "alpha", AgentStatus::Active), at(10, 501)).unwrap();
    let first = registry.get_agent("a").unwrap();
    registry.change_agent_status_at("a", AgentStatus::Suspended, at(11, 0)).unwrap();
    let second = registry.get_agent("a").unwrap();
    assert_eq!(first.created_at, at(10, 500));
    assert_eq!(second.created_at, at(10, 500));
    assert!(first.updated_at > first.created_at);
    assert!(second.updated_at > first.updated_at);
    assert_eq!(second.updated_at, at(11, 0));
}

#[test]
fn update_with_the_clock_reads_a_time_not_before_creation() {
    let mut registry = AgentRegistry::new();
    registry.create_agent(agent("a", "alpha", AgentStatus::Active)).unwrap();
    let created = registry.get_agent("a").unwrap();
    registry.update_agent("a", agent("a", "beta", AgentStatus::Active)).unwrap();
    let updated = registry.get_agent("a").unwrap();
    assert_eq!(updated.name, "beta");
    assert_eq!(updated.created_at, created.created_at);
    assert!(updated.updated_at >= created.updated_at);
    registry.change_agent_status("a", AgentStatus::Suspended).unwrap();
    let changed = registry.get_agent("a").unwrap();
    assert_eq!(changed.status, AgentStatus::Suspended);
    assert_eq!(changed.created_at, created.created_at);
    assert!(changed.updated_at >= updated.updated_at);
}

#[test]
fn update_does_not_check_the_new_name() {
    let mut registry = AgentRegistry::new();
    registry.create_agent_at(agent("a", "alpha", AgentStatus::Active), at(1, 0)).unwrap();
    registry.create_agent_at(agent("b", "beta", AgentStatus::Active), at(1, 0)).unwrap();
    assert_eq!(registry.update_agent_at("b", agent("b", "alpha", AgentStatus::Active), at(2, 0)), Ok(()));
    assert_eq!(names(&registry), vec!["alpha", "alpha"]);
}

#[test]
fn update_keeps_the_agent_under_the_id_it_was_stored_under() {
    let mut registry = AgentRegistry::new();
    registry.create_agent_at(agent("a", "alpha", AgentStatus::Active), at(1, 0)).unwrap();
    registry.update_agent_at("a", agent("other", "alpha", AgentStatus::Active), at(2, 0)).unwrap();
    assert_eq!(registry.get_agent("a").unwrap().id, "other");
    assert_eq!(
        registry.get_agent("other"),
        Err(Error::NotFound { id: "other".to_string() })
    );
}

#[test]
fn registering_under_an_id_in_use_replaces_the_agent() {
    let mut registry = AgentRegistry::new();
    registry.create_agent_at(agent("a", "alpha", AgentStatus::Active), at(1, 0)).unwrap();
    registry.create_agent_at(agent("b", "beta", AgentStatus::Active), at(1, 0)).unwrap();
    assert_eq!(registry.create_agent_at(agent("a", "gamma", AgentStatus::Active), at(5, 0)), Ok(()));
    assert_eq!(names(&registry), vec!["beta", "gamma"]);
    let stored = registry.get_agent("a").unwrap();
    assert_eq!(stored.name, "gamma");
    assert_eq!(stored.created_at, at(5, 0));
}

#[test]
fn change_status_touches_only_status_and_time() {
    let mut registry = AgentRegistry::new();
    registry.create_agent_at(agent("a", "alpha", AgentStatus::Active), at(1, 1)).unwrap();
    assert_eq!(registry.change_agent_status_at("a", AgentStatus::Inactive, at(2, 2)), Ok(()));
    let mut expected = agent("a", "alpha", AgentStatus::Inactive);
    expected.created_at = at(1, 1);
    expected.updated_at = at(2, 2);
    assert_eq!(registry.get_agent("a").unwrap(), expected);
}

#[test]
fn delete_removes_the_agent_and_frees_its_name() {
    let mut registry = AgentRegistry::new();
    registry.create_agent_at(agent("a", "alpha", AgentStatus::Active), at(1, 0)).unwrap();
    registry.create_agent_at(agent("b", "beta", AgentStatus::Active), at(1, 0)).unwrap();
    assert_eq!(registry.delete_agent("a"), Ok(()));
    assert_eq!(registry.get_agent("a"), Err(Error::NotFound { id: "a".to_string() }));
    assert_eq!(names(&registry), vec!["beta"]);
    assert_eq!(registry.create_agent_at(agent("c", "alpha", AgentStatus::Active), at(2, 0)), Ok(()));
    assert_eq!(names(&registry), vec!["alpha", "beta"]);
}

#[test]
fn absent_id_is_not_found_and_nothing_changes() {
    let mut registry = AgentRegistry::new();
    registry.create_agent_at(agent("a", "alpha", AgentStatus::Active), at(1, 0)).unwrap();
    let before = registry.list_agents().unwrap();
    let missing = || Error::NotFound { id: "zz".to_string() };
    assert_eq!(registry.get_agent("zz"), Err(missing()));
    assert_eq!(
        registry.update_agent("zz", agent("zz", "zeta", AgentStatus::Active)),
        Err(missing())
    );
    assert_eq!(
        registry.update_agent_at("zz", agent("zz", "zeta", AgentStatus::Active), at(9, 0)),
        Err(missing())
    );
    assert_eq!(registry.delete_agent("zz"), Err(missing()));
    assert_eq!(registry.change_agent_status("zz", AgentStatus::Suspended), Err(missing()));
    assert_eq!(
        registry.change_agent_status_at("zz", AgentStatus::Suspended, at(9, 0)),
        Err(missing())
    );
    assert_eq!(registry.get_agent(""), Err(Error::NotFound { id: String::new() }));
    assert_eq!(registry.list_agents().unwrap(), before);
}

#[test]
fn operations_on_an_empty_registry_are_not_found() {
    let mut registry = AgentRegistry::new();
    assert_eq!(registry.delete_agent("a"), Err(Error::NotFound { id: "a".to_string() }));
    assert_eq!(registry.get_agent("a"), Err(Error::NotFound { id: "a".to_string() }));
    assert!(registry.list_agents().unwrap().is_empty());
}

#[test]
fn listing_counts_creations_less_deletions() {
    let mut registry = AgentRegistry::new();
    let mut created = 0;
    for i in 0..7 {
        let outcome = registry.create_agent_at(
            agent(&format!("id-{}", i), &format!("name-{}", i % 5), AgentStatus::Active),
            at(i, 0),
        );
        if outcome.is_ok() {
            created += 1;
        }
    }
    assert_eq!(created, 5);
    let mut deleted = 0;
    for id in ["id-1", "id-3", "id-3", "id-6", "nobody"] {
        if registry.delete_agent(id).is_ok() {
            deleted += 1;
        }
    }
    assert_eq!(deleted, 2);
    assert_eq!(registry.list_agents().unwrap().len(), created - deleted);
    assert_eq!(names(&registry), vec!["name-0", "name-2", "name-4"]);
}

#[test]
fn creations_with_distinct_names_all_succeed_in_any_order() {
    let orders: [[usize; 4]; 3] = [[0, 1, 2, 3], [3, 2, 1, 0], [2, 0, 3, 1]];
    for order in orders {
        let mut registry = AgentRegistry::new();
        for i in order {
            let outcome = registry.create_agent_at(
                agent(&format!("id-{}", i), &format!("name-{}", i), AgentStatus::Active),
                at(i as i64, 0),
            );
            assert_eq!(outcome, Ok(()));
        }
        assert_eq!(names(&registry), vec!["name-0", "name-1", "name-2", "name-3"]);
        for i in 0..4 {
            let stored = registry.get_agent(&format!("id-{}", i)).unwrap();
            assert_eq!(stored.name, format!("name-{}", i));
            assert_eq!(stored.created_at, at(i as i64, 0));
        }
    }
}

#[test]
fn creations_without_ids_all_appear() {
    let mut registry = AgentRegistry::new();
    for i in 0..20 {
        assert_eq!(
            registry.create_agent(agent("", &format!("name-{}", i), AgentStatus::Active)),
            Ok(())
        );
    }
    assert_eq!(registry.list_agents().unwrap().len(), 20);
}

#[test]
fn listing_holds_copies_of_the_stored_agents() {
    let mut registry = AgentRegistry::new();
    registry.create_agent_at(agent("a", "alpha", AgentStatus::Active), at(1, 0)).unwrap();
    registry.create_agent_at(agent("b", "beta", AgentStatus::Suspended), at(2, 0)).unwrap();
    let mut listed = registry.list_agents().unwrap();
    listed.sort_by(|x, y| x.id.cmp(&y.id));
    assert_eq!(listed[0], registry.get_agent("a").unwrap());
    assert_eq!(listed[1], registry.get_agent("b").unwrap());
    assert_eq!(listed.len(), 2);
}

#[test]
fn cloned_agent_equals_its_source() {
    let source = agent("a", "alpha", AgentStatus::Suspended);
    assert_eq!(source.clone(), source);
}

#[test]
fn timestamps_are_ordered_by_seconds_then_nanoseconds() {
    assert!(at(1, 999_999_999) < at(2, 0));
    assert!(at(2, 0) < at(2, 1));
    assert!(at(-1, 5) < at(0, 0));
    assert_eq!(at(3, 4), at(3, 4));
}

#[test]
fn failures_are_described() {
    assert_eq!(
        Error::NotFound { id: "a-1".to_string() }.message(),
        "Agent with ID a-1 not found"
    );
    assert_eq!(
        Error::Conflict { name: "alpha".to_string() }.message(),
        "An agent with the name 'alpha' already exists"
    );
    assert_eq!(
        Error::LockFailure { resource: "agents".to_string() }.message(),
        "Failed to lock agents"
    );
}
