//! Static code analysis engine: extracts symbols and call edges from source
//! files, links calls to symbols and builds a deterministic report together
//! with a cache for incremental runs.
pub mod analysis;
pub mod cache;
pub mod frontend;
pub mod grammar;
pub mod ids;
pub mod language;
pub mod model;
pub mod order;
pub mod parser;
pub mod syntax;
pub mod text;

pub use analysis::{
    analyze_path, build_output, AnalysisConfig, AnalysisOutput, FileOutcome, ProgressEvent,
};
pub use cache::{AnalysisCache, CacheEntry, CacheIndex, CachedFile};
pub use model::{
    AnalysisResult, AnalysisStats, CallEdge, FileInfo, Language, ParsedFile, Span, Symbol,
    SymbolKind,
};
pub use parser::{analyze_file, AnalysisError};
