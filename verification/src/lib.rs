//! Offline semantic search over a vault of notes.
//!
//! Short summaries are turned into fixed-length vectors by a deterministic,
//! training-free projection, kept in a store keyed by note identifier, and
//! ranked by similarity. Beside the search stand the rules of the vault
//! itself: the frontmatter of a note and its schema, the links between
//! notes, the folders of the vault.
//!
//! Everything here works on plain values. Numbers that are floating point
//! at run time travel as their IEEE-754 bit patterns, and the arithmetic on
//! them is supplied by the caller as two kernels: one that pools the
//! residues of a text into an embedding, one that scores two embeddings
//! against each other. Reading and writing files is left to the caller too.
pub mod audit;
pub mod blob;
pub mod embedding;
pub mod engine;
pub mod error;
pub mod footer;
pub mod frontmatter;
pub mod note;
pub mod params;
pub mod paths;
pub mod pattern;
pub mod primes;
pub mod ranking;
pub mod record;
pub mod row;
pub mod schema;
pub mod text;
pub mod vectordb;
pub mod wikilink;

pub use blob::{blob_to_embedding, embedding_to_blob};
pub use embedding::{tokenize, EmbeddingModel, EMBEDDING_DIM};
pub use engine::{simple_search, IndexingStats, Score, SearchEngine, SearchResult};
pub use error::SearchError;
pub use frontmatter::Frontmatter;
pub use note::Note;
pub use params::{AuditParams, GetNoteParams, ListNotesParams, SearchParams};
pub use paths::VaultPaths;
pub use record::NoteRecord;
pub use schema::SchemaViolation;
pub use vectordb::{IndexStats, StoreEntry, VectorDB};
pub use wikilink::{analyze_wikilinks, extract_wikilinks, WikilinkReport};
