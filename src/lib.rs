//! A small line-oriented text search library: it picks out the lines of a
//! text that contain a query, either exactly or ignoring letter case.

mod config;
mod laws;
mod search;
mod text;

pub use config::{search_by_config, Config, NO_FILE_PATH, NO_QUERY};
pub use laws::{
    is_ordered_selection, lemma_empty_query_matches_all, lemma_ignore_case_not_stricter,
    lemma_search_exact, lemma_search_keeps_order, lemma_search_trims,
};
pub use search::{
    matching_lines, matching_lines_ignore_case, search, search_case_sensitive, select_by_key,
    select_matching, trimmed_lines,
};
pub use text::{
    is_substring, is_whitespace_char, lemma_trim_whitespace_shape, lines_of, lowercase_of,
    newline_pieces, str_views, strip_carriage_return, trim_end, trim_start, trim_whitespace,
};
