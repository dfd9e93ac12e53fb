//! A source-to-source instrumentation pass for inline markup templates.
//!
//! Given the body of a function that embeds a declarative markup template,
//! the pass rewrites every recognized opening element tag so that it carries
//! an extra attribute holding a source-location identifier. Everything else
//! — delimiter nesting, literal text, expression slots, unrelated tokens —
//! survives unchanged.

pub mod block;
pub mod engine;
pub mod laws;
pub mod locate;
pub mod srcloc;
pub mod token;
pub mod vocab;

pub use block::{add_locatorjs_id, add_locatorjs_id_to_block, FnItem, Stmt};
pub use engine::add_locatorjs_id_to_macro_tokens;
pub use locate::add_locatorjs_id_to_expr;
pub use srcloc::location_id;
pub use token::{Delim, Token, TokenView};
