//! Shell-like expansion of text.
//!
//! Two expansions are offered, and their composition:
//!
//! * tilde expansion: a `~` at the very start of a text, alone or followed by
//!   `/`, becomes the home directory ([`tilde_with_context`]);
//! * variable expansion: `$NAME` and `${NAME}` become what a lookup gives for
//!   `NAME`, and `$$` becomes `$` ([`env_with_context`],
//!   [`env_with_context_no_errors`]);
//! * full expansion: variables first, then the tilde, where a tilde that a
//!   variable's value brought to the start of the text is left alone
//!   ([`full_with_context`], [`full_with_context_no_errors`]).
//!
//! The home directory and the variables come from the caller, as closures. A
//! variable that the lookup does not know stays in the text as it was
//! written; a lookup that fails ends the expansion with a [`LookupError`].
//! Every function returns a `Cow`: a text in which nothing is replaced comes
//! back borrowed, and no new text is built for it.
//!
//! What a text means is laid down in [`syntax`], as a function from a text to
//! its tokens and from tokens and values to a result. The functions'
//! contracts speak of that model, [`scanner`] walks a text by it, and
//! [`laws`] holds what follows for every text.
pub mod chars;
pub mod env;
pub mod full;
pub mod laws;
pub mod scanner;
pub mod syntax;
pub mod tilde;

pub use chars::is_valid_var_name_char;
pub use env::{env_with_context, env_with_context_no_errors, LookupError};
pub use full::{full_with_context, full_with_context_no_errors};
pub use tilde::tilde_with_context;
