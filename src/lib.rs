//! Rewrites marker comment lines of source files into framed banner blocks,
//! driven by a registry of languages and their single-line comment prefixes.

pub mod banner;
pub mod file_handler;
pub mod paths;
pub mod registry;
pub mod scanner;
pub mod text;

pub use banner::create_banner;
pub use file_handler::{
    format_file, select_files, should_process_file, should_process_with, tally, FileOutcome,
    RunSummary,
};
pub use paths::{extension_of, is_hidden_file};
pub use registry::{
    add_language, default_config, is_supported_file, list_languages, Language, LanguageConfig,
    LanguageError,
};
pub use scanner::{format_text, split_lines};
