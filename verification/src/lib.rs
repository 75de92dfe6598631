//! A small line-oriented text search library.
//!
//! A [`Config`] holds the parameters of one run: the query string, the path
//! of the file to search, and whether matching ignores letter case. The
//! search engine splits the file contents into lines and returns, in their
//! original order, the lines that contain the query as a contiguous
//! substring, either exactly or after lowercasing both sides.

mod config;
mod engine;
mod laws;

pub use config::built_config;
pub use config::lemma_config_equality;
pub use config::Config;
pub use config::ConfigError;
pub use config::ConfigView;
pub use engine::contains_at;
pub use engine::contains_substring;
pub use engine::find_newline;
pub use engine::lower_of;
pub use engine::matching_lines;
pub use engine::matching_lines_nocase;
pub use engine::run_search;
pub use engine::search;
pub use engine::search_case_insensitive;
pub use engine::split_into_lines;
pub use engine::split_lines;
pub use laws::lemma_absent_query_no_matches;
pub use laws::lemma_absent_query_no_matches_nocase;
pub use laws::lemma_contains_transitive;
pub use laws::lemma_line_is_substring;
pub use laws::lemma_result_is_matching_line;
pub use laws::lemma_nocase_result_is_matching_line;
pub use laws::lemma_search_keeps_order;
pub use laws::lemma_search_nocase_keeps_order;
