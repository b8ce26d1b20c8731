//! A routing table that stores HTTP route patterns in one prefix tree per
//! method and resolves request paths against them, binding variable segments
//! (written `:name` or `{name}`) to the literal text they matched.

mod bindings;
mod laws;
mod path;
mod table;
mod tree;

pub use laws::lemma_first_segment_never_binds;
pub use laws::lemma_insert_establishes_pattern;
pub use laws::lemma_insert_idempotent;
pub use laws::lemma_literal_beats_variable;
pub use laws::lemma_pattern_is_found;
pub use laws::lemma_pattern_survives_insert;
pub use laws::lemma_store_then_query_finds_pattern;
pub use table::Pretree;
pub use table::RouteError;
pub use table::is_method;
pub use table::method_index;

pub use tree::SpecNode;
pub use tree::Tree;
pub use tree::find_literal;
pub use tree::find_variable;
pub use tree::has_pattern;
pub use tree::lemma_find_literal;
pub use tree::lemma_find_variable;
pub use tree::spec_insert;
pub use tree::spec_search;
pub use bindings::Bindings;
pub use bindings::map_of;
pub use path::format_rule;
pub use path::is_variable;
pub use path::normalize;
pub use path::parse_path;
pub use path::seg_is_variable;
pub use path::split_slash;
pub use path::strip_colons;
pub use path::tokens_of;
