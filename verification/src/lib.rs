//! Renders a JSON-like ordered tree as deterministic, XML-like markup whose
//! tag names are derived from object keys.
//!
//! The library has three parts: a key normalizer that turns arbitrary key
//! strings into lowercase, hyphen-separated tag names; a text normalizer that
//! trims and dedents string values; and a recursive tree renderer that walks a
//! [`Value`] and emits tags in insertion order.

mod chars;
mod kebab;
mod render;
mod text;
mod value;

pub use kebab::kebab_spec;
pub use kebab::to_kebab_case;
pub use kebab::lemma_kebab_idempotent;
pub use kebab::lemma_kebab_hyphens;
pub use text::norm_string;
pub use text::format_string;
pub use text::format_string_content;
pub use value::Value;
pub use render::LLMLOptions;
pub use render::format_value;
pub use render::format_object;
pub use render::format_list;
pub use render::llml;
pub use render::llml_with_options;
pub use render::spec_render;
pub use render::spec_render_opts;
pub use render::lemma_render_deterministic;
