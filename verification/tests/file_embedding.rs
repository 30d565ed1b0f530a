use agent_registry::{
    Agent, AgentRegistry, AgentStatus, Error, FileEmbedding, FileEmbeddingService, IoOperation,
    StorageReport, Timestamp, EMBEDDING_DIMENSION,
};

fn vector(seed: u32) -> [u32; EMBEDDING_DIMENSION] {
    let mut v = [0u32; EMBEDDING_DIMENSION];
    for (i, x) in v.iter_mut().enumerate() {
        let component: f32 = (seed as f32 + i as f32) / 1000.0;
        *x = component.to_bits();
    }
    v
}

fn stored(seed: u32) -> StorageReport {
    StorageReport::Stored { embedding_vector: vector(seed) }
}

#[test]
fn embedding_has_128_components() {
    assert_eq!(EMBEDDING_DIMENSION, 128);
    assert_eq!(vector(0).len(), 128);
}

#[test]
fn paths_are_base_agent_file() {
    let store = FileEmbeddingService::new("./embeddings");
    assert_eq!(store.agent_directory("a1"), "./embeddings/a1");
    assert_eq!(store.file_location("a1", "f.txt"), "./embeddings/a1/f.txt");
    let other = FileEmbeddingService::new("/var/data");
    assert_eq!(other.agent_directory("agent 7"), "/var/data/agent 7");
    assert_eq!(other.file_location("agent 7", "notes.md"), "/var/data/agent 7/notes.md");
}

#[test]
fn stored_upload_is_indexed_and_listed() {
    let mut store = FileEmbeddingService::new("base");
    let entry = store.upload_and_embed_file("a1", "f.txt", stored(1)).unwrap();
    assert_eq!(
        entry,
        FileEmbedding {
            agent_id: "a1".to_string(),
            file_name: "f.txt".to_string(),
            file_path: "base/a1/f.txt".to_string(),
            embedding_vector: vector(1),
        }
    );
    assert_eq!(store.list_agent_embeddings("a1"), vec!["f.txt".to_string()]);
    let listed = store.list_embeddings_for_agent("a1");
    assert_eq!(listed.len(), 1);
    assert_eq!(*listed[0], entry);
}

#[test]
fn embedding_components_come_back_bit_for_bit() {
    let mut store = FileEmbeddingService::new("base");
    store.upload_and_embed_file("a1", "f.txt", stored(42)).unwrap();
    let listed = store.list_embeddings_for_agent("a1");
    let first: f32 = f32::from_bits(listed[0].embedding_vector[0]);
    let last: f32 = f32::from_bits(listed[0].embedding_vector[127]);
    assert_eq!(first, 0.042);
    assert_eq!(last, 0.169);
}

#[test]
fn agent_without_uploads_lists_nothing() {
    let mut store = FileEmbeddingService::new("base");
    assert!(store.list_embeddings_for_agent("a1").is_empty());
    assert!(store.list_agent_embeddings("a1").is_empty());
    store.upload_and_embed_file("a2", "f.txt", stored(1)).unwrap();
    assert!(store.list_embeddings_for_agent("a1").is_empty());
    assert!(store.list_agent_embeddings("a1").is_empty());
    assert!(store.list_agent_embeddings("").is_empty());
}

#[test]
fn second_upload_of_a_file_appends_a_second_entry() {
    let mut store = FileEmbeddingService::new("base");
    let first = store.upload_and_embed_file("a1", "f.txt", stored(1)).unwrap();
    let second = store.upload_and_embed_file("a1", "f.txt", stored(2)).unwrap();
    assert_eq!(first.file_path, second.file_path);
    assert_eq!(
        store.list_agent_embeddings("a1"),
        vec!["f.txt".to_string(), "f.txt".to_string()]
    );
    let listed = store.list_embeddings_for_agent("a1");
    assert_eq!(listed.len(), 2);
    assert_eq!(listed[0].embedding_vector, vector(1));
    assert_eq!(listed[1].embedding_vector, vector(2));
}

#[test]
fn listing_keeps_upload_order_and_only_the_agents_files() {
    let mut store = FileEmbeddingService::new("base");
    store.upload_and_embed_file("a1", "one", stored(1)).unwrap();
    store.upload_and_embed_file("a2", "two", stored(2)).unwrap();
    store.upload_and_embed_file("a1", "three", stored(3)).unwrap();
    store.upload_and_embed_file("A1", "four", stored(4)).unwrap();
    store.upload_and_embed_file("a1", "five", stored(5)).unwrap();
    assert_eq!(store.list_agent_embeddings("a1"), vec!["one", "three", "five"]);
    assert_eq!(store.list_agent_embeddings("a2"), vec!["two"]);
    assert_eq!(store.list_agent_embeddings("A1"), vec!["four"]);
    let listed = store.list_embeddings_for_agent("a1");
    assert_eq!(listed[1].file_path, "base/a1/three");
    assert_eq!(listed[2].embedding_vector, vector(5));
}

#[test]
fn failed_directory_is_reported_with_its_path_and_indexes_nothing() {
    let mut store = FileEmbeddingService::new("base");
    store.upload_and_embed_file("a1", "kept", stored(1)).unwrap();
    let outcome = store.upload_and_embed_file(
        "a1",
        "f.txt",
        StorageReport::DirectoryFailed { cause: "permission denied".to_string() },
    );
    let failure = outcome.unwrap_err();
    assert_eq!(
        failure,
        Error::Io {
            operation: IoOperation::CreateDirectory,
            path: "base/a1".to_string(),
            cause: "permission denied".to_string(),
        }
    );
    assert_eq!(
        failure.message(),
        "Failed to create agent directory base/a1: permission denied"
    );
    assert_eq!(store.list_agent_embeddings("a1"), vec!["kept"]);
}

#[test]
fn failed_write_is_reported_with_its_path_and_indexes_nothing() {
    let mut store = FileEmbeddingService::new("base");
    let outcome = store.upload_and_embed_file(
        "a1",
        "f.txt",
        StorageReport::WriteFailed { cause: "disk full".to_string() },
    );
    let failure = outcome.unwrap_err();
    assert_eq!(
        failure,
        Error::Io {
            operation: IoOperation::WriteFile,
            path: "base/a1/f.txt".to_string(),
            cause: "disk full".to_string(),
        }
    );
    assert_eq!(failure.message(), "Failed to save file base/a1/f.txt: disk full");
    assert!(store.list_embeddings_for_agent("a1").is_empty());
    store.upload_and_embed_file("a1", "f.txt", stored(1)).unwrap();
    assert_eq!(store.list_agent_embeddings("a1"), vec!["f.txt"]);
}

#[test]
fn uploads_need_no_registered_agent() {
    let mut store = FileEmbeddingService::new("base");
    assert!(store.upload_and_embed_file("never-registered", "f", stored(1)).is_ok());
    assert_eq!(store.list_agent_embeddings("never-registered"), vec!["f"]);
}

#[test]
fn cloned_entry_equals_its_source() {
    let mut store = FileEmbeddingService::new("base");
    let entry = store.upload_and_embed_file("a1", "f.txt", stored(9)).unwrap();
    assert_eq!(entry.clone(), entry);
}

#[test]
fn lock_failure_of_the_store_is_described() {
    assert_eq!(
        Error::LockFailure { resource: "embedding service".to_string() }.message(),
        "Failed to lock embedding service"
    );
}

#[test]
fn deleting_an_agent_keeps_its_embeddings() {
    let mut registry = AgentRegistry::new();
    let mut store = FileEmbeddingService::new("base");
    let stamp = Timestamp { secs: 1, nanos: 0 };
    registry
        .create_agent_at(
            Agent {
                id: "a1".to_string(),
                name: "alpha".to_string(),
                description: String::new(),
                capabilities: Vec::new(),
                status: AgentStatus::Active,
                created_at: stamp,
                updated_at: stamp,
            },
            stamp,
        )
        .unwrap();
    store.upload_and_embed_file("a1", "f.txt", stored(1)).unwrap();
    registry.delete_agent("a1").unwrap();
    assert_eq!(store.list_agent_embeddings("a1"), vec!["f.txt"]);
}
