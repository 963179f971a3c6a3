//! A lexical scanner for embedded script literals.
//!
//! A host statement language may embed snippets of a scripting language
//! verbatim, for example `DEFINE FUNCTION ... { return x + 1; }`.  This
//! crate extracts such a snippet from the remaining source text: it consumes
//! input until the enclosing construct logically ends, skipping over nested
//! brace groups and quoted strings (single-, double- and backtick-quoted,
//! each with backslash escaping) so that brace or quote characters inside a
//! string never terminate the scan early.
//!
//! The scanner itself works on the UTF-8 bytes of the input; every byte that
//! steers it (braces, quotes, the backslash) is ASCII, so byte-wise scanning
//! agrees with character-wise scanning and every stop lands on a character
//! boundary.

mod laws;
mod scan;
mod script;

pub use laws::lemma_brace_balance;
pub use laws::lemma_deep_nesting;
pub use laws::lemma_escaped_quote_in_body;
pub use laws::lemma_literal_concat;
pub use laws::lemma_plain_text;
pub use laws::lemma_round_trip;
pub use laws::lemma_string_opacity;
pub use scan::is_plain_byte;
pub use scan::is_quote_byte;
pub use scan::is_string_body;
pub use scan::lemma_stopped_at_close;
pub use scan::nested_braces;
pub use scan::run_closed;
pub use scan::structural_count;
pub use scan::BACKSLASH;
pub use scan::BACKTICK;
pub use scan::CLOSE_BRACE;
pub use scan::DOUBLE_QUOTE;
pub use scan::OPEN_BRACE;
pub use scan::SINGLE_QUOTE;
pub use scan::scan_bytes;
pub use scan::scan_run;
pub use scan::scan_spec;
pub use scan::scan_step;
pub use scan::shift_run;
pub use scan::start_state;
pub use scan::ScanError;
pub use scan::ScanOutcome;
pub use scan::ScanRun;
pub use scan::ScanStep;
pub use scan::ScanState;
pub use script::script;
pub use script::Script;
