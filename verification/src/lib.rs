//! A backend-agnostic spell-checking core.
//!
//! Native spelling engines disagree on what a word is, on the unit in which
//! they report positions and on how corrections are delivered. This crate
//! holds the part that does not depend on any one engine: the token model,
//! the mapping between UTF-16 code-unit offsets and code-point offsets,
//! a fallback tokenizer, the sessions that turn engine answers into flagged
//! spans, and the facade that guards what a backend hands back.
//!
//! Every position in the public interface is a code-point offset, and every
//! span is end-inclusive.

pub mod aggregator;
pub mod backend;
pub mod facade;
pub mod locale;
pub mod offsets;
pub mod segmentation;
pub mod stubs;
pub mod tokenizer;
pub mod transactional;
pub mod utils;

pub use backend::BatchFailure;
pub use backend::DictionaryScope;
pub use backend::SpellCheckerImpl;
pub use facade::JsSuggestion;
pub use facade::SpellChecker;
