//! The embedding store: where an agent's files are kept, and the index of
//! the embeddings computed from them, in upload order.
//!
//! The store never touches the file system and never computes an embedding
//! itself. It says where a file belongs, is told how persisting it went, and
//! keeps the index accordingly.

use crate::error::{Error, ErrorView, IoOperation};
use vstd::prelude::*;
use vstd::string::StringExecFns;

verus! {

/// The number of components of every embedding vector.
pub const EMBEDDING_DIMENSION: usize = 128;

/// An uploaded file and the embedding computed from its bytes.
///
/// Each component of `embedding_vector` is the bit pattern of one
/// single-precision number; the store carries the components and never
/// interprets them.
#[derive(Debug, PartialEq, Eq)]
pub struct FileEmbedding {
    pub agent_id: String,
    pub file_name: String,
    pub file_path: String,
    pub embedding_vector: [u32; EMBEDDING_DIMENSION],
}

/// A [`FileEmbedding`] as a mathematical value.
pub struct FileEmbeddingView {
    pub agent_id: Seq<char>,
    pub file_name: Seq<char>,
    pub file_path: Seq<char>,
    pub embedding_vector: Seq<u32>,
}

impl View for FileEmbedding {
    type V = FileEmbeddingView;

    open spec fn view(&self) -> FileEmbeddingView {
        FileEmbeddingView {
            agent_id: self.agent_id@,
            file_name: self.file_name@,
            file_path: self.file_path@,
            embedding_vector: self.embedding_vector@,
        }
    }
}

impl Clone for FileEmbedding {
    /// A copy with the same view.
    fn clone(&self) -> (copy: Self)
        ensures
            copy@ == self@,
    {
        FileEmbedding {
            agent_id: self.agent_id.clone(),
            file_name: self.file_name.clone(),
            file_path: self.file_path.clone(),
            embedding_vector: self.embedding_vector,
        }
    }
}

/// How persisting an uploaded file went, as the caller that did the work
/// reports it.
#[derive(Debug, PartialEq, Eq)]
pub enum StorageReport {
    /// The agent's directory could not be created; nothing was written.
    DirectoryFailed { cause: String },
    /// The directory exists and writing the file failed.
    WriteFailed { cause: String },
    /// The file is written, and this is the embedding of its bytes.
    Stored { embedding_vector: [u32; EMBEDDING_DIMENSION] },
}

/// The directory of an agent's files: `<base>/<agent_id>`.
pub open spec fn directory_of(base: Seq<char>, agent_id: Seq<char>) -> Seq<char> {
    base + "/"@ + agent_id
}

/// The place of an agent's file: `<base>/<agent_id>/<file_name>`.
pub open spec fn location_of(base: Seq<char>, agent_id: Seq<char>, file_name: Seq<char>) -> Seq<
    char,
> {
    directory_of(base, agent_id) + "/"@ + file_name
}

/// The index entry of a file of `agent_id` named `file_name`, kept below
/// `base`, with the embedding `embedding_vector`.
pub open spec fn entry_for(
    base: Seq<char>,
    agent_id: Seq<char>,
    file_name: Seq<char>,
    embedding_vector: Seq<u32>,
) -> FileEmbeddingView {
    FileEmbeddingView {
        agent_id,
        file_name,
        file_path: location_of(base, agent_id, file_name),
        embedding_vector,
    }
}

/// The entries of `index` that belong to `agent_id`, in their order.
pub open spec fn owned_by(index: Seq<FileEmbeddingView>, agent_id: Seq<char>) -> Seq<
    FileEmbeddingView,
> {
    index.filter(|e: FileEmbeddingView| e.agent_id == agent_id)
}

/// An entry lies where the store keeps its agent's files and has a full
/// embedding.
pub open spec fn placed(base: Seq<char>, entry: FileEmbeddingView) -> bool {
    &&& entry.file_path == location_of(base, entry.agent_id, entry.file_name)
    &&& entry.embedding_vector.len() == EMBEDDING_DIMENSION
}

/// What a store holds: its base directory and its index.
pub struct StoreView {
    pub base: Seq<char>,
    pub index: Seq<FileEmbeddingView>,
}

impl StoreView {
    /// Every entry of the index is [`placed`] below the base directory.
    pub open spec fn consistent(self) -> bool {
        forall|i: int| 0 <= i < self.index.len() ==> placed(self.base, #[trigger] self.index[i])
    }
}

/// The failure that an upload ends in, if `report` tells of one: the step
/// that failed, the path it failed on and the cause reported.
pub open spec fn failure_of(
    base: Seq<char>,
    agent_id: Seq<char>,
    file_name: Seq<char>,
    report: StorageReport,
) -> Option<ErrorView> {
    match report {
        StorageReport::DirectoryFailed { cause } => Some(
            ErrorView::Io {
                operation: IoOperation::CreateDirectory,
                path: directory_of(base, agent_id),
                cause: cause@,
            },
        ),
        StorageReport::WriteFailed { cause } => Some(
            ErrorView::Io {
                operation: IoOperation::WriteFile,
                path: location_of(base, agent_id, file_name),
                cause: cause@,
            },
        ),
        StorageReport::Stored { .. } => None,
    }
}

/// The index after an upload: one entry longer where the file was stored,
/// unchanged where it was not.
pub open spec fn index_after(
    store: StoreView,
    agent_id: Seq<char>,
    file_name: Seq<char>,
    report: StorageReport,
) -> Seq<FileEmbeddingView> {
    match report {
        StorageReport::Stored { embedding_vector } => store.index.push(
            entry_for(store.base, agent_id, file_name, embedding_vector@),
        ),
        _ => store.index,
    }
}

/// The names of the files of `index` that belong to `agent_id`, in their
/// order.
pub open spec fn names_owned_by(index: Seq<FileEmbeddingView>, agent_id: Seq<char>) -> Seq<
    Seq<char>,
> {
    owned_by(index, agent_id).map_values(|e: FileEmbeddingView| e.file_name)
}

/// Filtering one entry more either appends it or changes nothing.
proof fn lemma_owned_by_step(index: Seq<FileEmbeddingView>, i: int, agent_id: Seq<char>)
    requires
        0 <= i < index.len(),
    ensures
        owned_by(index.take(i + 1), agent_id) == if index[i].agent_id == agent_id {
            owned_by(index.take(i), agent_id).push(index[i])
        } else {
            owned_by(index.take(i), agent_id)
        },
{
    reveal(Seq::filter);
    assert(index.take(i + 1).drop_last() =~= index.take(i));
}

/// Listing an index that is one entry longer gives that entry last where
/// it belongs to the agent, and the same listing where it does not.
pub proof fn lemma_listing_grows_with_index(
    index: Seq<FileEmbeddingView>,
    entry: FileEmbeddingView,
    agent_id: Seq<char>,
)
    ensures
        owned_by(index.push(entry), agent_id) == if entry.agent_id == agent_id {
            owned_by(index, agent_id).push(entry)
        } else {
            owned_by(index, agent_id)
        },
        names_owned_by(index.push(entry), agent_id) == if entry.agent_id == agent_id {
            names_owned_by(index, agent_id).push(entry.file_name)
        } else {
            names_owned_by(index, agent_id)
        },
{
    let grown = index.push(entry);
    lemma_owned_by_step(grown, index.len() as int, agent_id);
    assert(grown.take(index.len() as int) =~= index);
    assert(grown.take(index.len() as int + 1) =~= grown);
    if entry.agent_id == agent_id {
        assert(names_owned_by(grown, agent_id) =~= names_owned_by(index, agent_id).push(
            entry.file_name,
        ));
    }
}

/// An agent none of whose files is in the index is listed with no entries
/// and no names; so is every agent while the index is empty.
pub proof fn lemma_nothing_uploaded_lists_nothing(
    index: Seq<FileEmbeddingView>,
    agent_id: Seq<char>,
)
    requires
        forall|i: int| 0 <= i < index.len() ==> (#[trigger] index[i]).agent_id != agent_id,
    ensures
        owned_by(index, agent_id) == Seq::<FileEmbeddingView>::empty(),
        names_owned_by(index, agent_id) == Seq::<Seq<char>>::empty(),
    decreases index.len(),
{
    reveal(Seq::filter);
    if index.len() > 0 {
        lemma_nothing_uploaded_lists_nothing(index.drop_last(), agent_id);
    }
    assert(names_owned_by(index, agent_id) =~= Seq::<Seq<char>>::empty());
}

/// A stored upload is listed last among its agent's files, under its name
/// and at its place below the base directory, and changes no other agent's
/// listing.
pub proof fn lemma_stored_upload_is_listed(
    store: StoreView,
    agent_id: Seq<char>,
    file_name: Seq<char>,
    embedding_vector: [u32; EMBEDDING_DIMENSION],
    other: Seq<char>,
)
    requires
        other != agent_id,
    ensures
        ({
            let report = StorageReport::Stored { embedding_vector };
            let index = index_after(store, agent_id, file_name, report);
            &&& owned_by(index, agent_id).last().file_path == location_of(
                store.base,
                agent_id,
                file_name,
            )
            &&& names_owned_by(index, agent_id) == names_owned_by(store.index, agent_id).push(
                file_name,
            )
            &&& owned_by(index, other) == owned_by(store.index, other)
        }),
{
    let entry = entry_for(store.base, agent_id, file_name, embedding_vector@);
    lemma_listing_grows_with_index(store.index, entry, agent_id);
    lemma_listing_grows_with_index(store.index, entry, other);
}

/// Uploading a file of the same agent and name a second time appends a
/// second entry at the same place: the index has both, in upload order, and
/// the agent's listing names the file twice more than before.
pub proof fn lemma_second_upload_appends_again(
    store: StoreView,
    agent_id: Seq<char>,
    file_name: Seq<char>,
    first: [u32; EMBEDDING_DIMENSION],
    second: [u32; EMBEDDING_DIMENSION],
)
    ensures
        ({
            let once = StoreView {
                index: index_after(
                    store,
                    agent_id,
                    file_name,
                    StorageReport::Stored { embedding_vector: first },
                ),
                ..store
            };
            let twice = index_after(
                once,
                agent_id,
                file_name,
                StorageReport::Stored { embedding_vector: second },
            );
            &&& twice.len() == store.index.len() + 2
            &&& twice == store.index.push(
                entry_for(store.base, agent_id, file_name, first@),
            ).push(entry_for(store.base, agent_id, file_name, second@))
            &&& twice[twice.len() - 2].file_path == twice[twice.len() - 1].file_path
            &&& names_owned_by(twice, agent_id) == names_owned_by(store.index, agent_id).push(
                file_name,
            ).push(file_name)
        }),
{
    let e1 = entry_for(store.base, agent_id, file_name, first@);
    let e2 = entry_for(store.base, agent_id, file_name, second@);
    lemma_listing_grows_with_index(store.index, e1, agent_id);
    lemma_listing_grows_with_index(store.index.push(e1), e2, agent_id);
}

/// The store of uploaded files' embeddings.
pub struct FileEmbeddingService {
    base_storage_path: String,
    embeddings: Vec<FileEmbedding>,
}

impl View for FileEmbeddingService {
    type V = StoreView;

    closed spec fn view(&self) -> StoreView {
        StoreView {
            base: self.base_storage_path@,
            index: self.embeddings@.map_values(|e: FileEmbedding| e@),
        }
    }
}

impl FileEmbeddingService {
    /// Every entry lies below the base directory, under its agent and name.
    #[verifier::type_invariant]
    spec fn entries_placed(self) -> bool {
        self@.consistent()
    }

    /// A store with an empty index that keeps its files below `base_path`.
    /// The caller sees to it that the directory exists.
    pub fn new(base_path: &str) -> (store: Self)
        ensures
            store@.base == base_path@,
            store@.index == Seq::<FileEmbeddingView>::empty(),
            store@.consistent(),
    {
        let store = FileEmbeddingService {
            base_storage_path: String::from_str(base_path),
            embeddings: Vec::new(),
        };
        assert(store@.index =~= Seq::<FileEmbeddingView>::empty());
        store
    }

    /// Records the upload of the file `file_name` for `agent_id`, given how
    /// persisting it went.
    ///
    /// Where the file was stored, an entry with its place and its embedding
    /// is appended to the index and a copy of it returned, also when the
    /// index holds an entry of that name already. Where the directory or the
    /// write failed, the failure names the path and the index stays as it
    /// was. Whether an agent of that identifier exists is not looked at.
    pub fn upload_and_embed_file(
        &mut self,
        agent_id: &str,
        file_name: &str,
        report: StorageReport,
    ) -> (outcome: Result<FileEmbedding, Error>)
        ensures
            final(self)@.base == old(self)@.base,
            final(self)@.index == index_after(old(self)@, agent_id@, file_name@, report),
            final(self)@.consistent(),
            match failure_of(old(self)@.base, agent_id@, file_name@, report) {
                Some(failure) => outcome is Err && outcome->Err_0@ == failure,
                None => outcome is Ok && outcome->Ok_0@ == final(self)@.index.last(),
            },
    {
        proof {
            use_type_invariant(&*self);
        }
        match report {
            StorageReport::DirectoryFailed { cause } => Err(
                Error::Io {
                    operation: IoOperation::CreateDirectory,
                    path: self.agent_directory(agent_id),
                    cause,
                },
            ),
            StorageReport::WriteFailed { cause } => Err(
                Error::Io {
                    operation: IoOperation::WriteFile,
                    path: self.file_location(agent_id, file_name),
                    cause,
                },
            ),
            StorageReport::Stored { embedding_vector } => {
                let embedding = FileEmbedding {
                    agent_id: agent_id.to_owned(),
                    file_name: file_name.to_owned(),
                    file_path: self.file_location(agent_id, file_name),
                    embedding_vector,
                };
                let copy = embedding.clone();
                let mut embeddings: Vec<FileEmbedding> = Vec::new();
                core::mem::swap(&mut self.embeddings, &mut embeddings);
                embeddings.push(embedding);
                proof {
                    assert(embeddings@.map_values(|e: FileEmbedding| e@) =~= old(
                        self,
                    )@.index.push(embedding@));
                }
                core::mem::swap(&mut self.embeddings, &mut embeddings);
                Ok(copy)
            },
        }
    }

    /// The entries of `agent_id`, in upload order: none where the agent has
    /// uploaded nothing. Every entry of the index, and so every one handed
    /// out, lies where the store keeps its agent's files.
    pub fn list_embeddings_for_agent(&self, agent_id: &str) -> (found: Vec<&FileEmbedding>)
        ensures
            found@.map_values(|e: &FileEmbedding| e@) == owned_by(self@.index, agent_id@),
            self@.consistent(),
    {
        proof {
            use_type_invariant(self);
        }
        let wanted = agent_id.to_owned();
        let mut found: Vec<&FileEmbedding> = Vec::new();
        let mut i: usize = 0;
        while i < self.embeddings.len()
            invariant
                i <= self.embeddings.len(),
                wanted@ == agent_id@,
                found@.map_values(|e: &FileEmbedding| e@) == owned_by(
                    self@.index.take(i as int),
                    agent_id@,
                ),
            decreases self.embeddings.len() - i,
        {
            proof {
                lemma_owned_by_step(self@.index, i as int, agent_id@);
            }
            if self.embeddings[i].agent_id == wanted {
                let ghost before = found@;
                found.push(&self.embeddings[i]);
                assert(found@.map_values(|e: &FileEmbedding| e@) =~= before.map_values(
                    |e: &FileEmbedding| e@,
                ).push(self@.index[i as int]));
            }
            i += 1;
        }
        assert(self@.index.take(i as int) =~= self@.index);
        found
    }

    /// The names of the files of `agent_id`, in upload order.
    pub fn list_agent_embeddings(&self, agent_id: &str) -> (names: Vec<String>)
        ensures
            names.deep_view() == names_owned_by(self@.index, agent_id@),
    {
        let found = self.list_embeddings_for_agent(agent_id);
        let mut names: Vec<String> = Vec::new();
        let mut i: usize = 0;
        while i < found.len()
            invariant
                i <= found.len(),
                names.len() == i,
                forall|j: int| 0 <= j < i ==> names[j]@ == found[j]@.file_name,
            decreases found.len() - i,
        {
            names.push(found[i].file_name.clone());
            i += 1;
        }
        assert(names.deep_view() =~= names_owned_by(self@.index, agent_id@));
        names
    }

    /// The directory that holds the files of `agent_id`.
    pub fn agent_directory(&self, agent_id: &str) -> (path: String)
        ensures
            path@ == directory_of(self@.base, agent_id@),
    {
        self.base_storage_path.clone().concat("/").concat(agent_id)
    }

    /// The place of the file `file_name` of `agent_id`.
    pub fn file_location(&self, agent_id: &str, file_name: &str) -> (path: String)
        ensures
            path@ == location_of(self@.base, agent_id@, file_name@),
    {
        self.agent_directory(agent_id).concat("/").concat(file_name)
    }
}

} // verus!
