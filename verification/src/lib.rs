//! Reformats structured log entries: each entry is a JSON object (timestamp,
//! level, target, and a bag of fields) carried as one text blob, and is
//! rendered as a single human-readable line with integer fields shown in
//! hexadecimal.  Three known register-dump dialects embedded as string fields
//! are decoded and hex-formatted in place.

pub mod json;
pub mod line;
pub mod num;
pub mod rewrite;
pub mod text;

pub use json::Json;
pub use line::{format_value_as_hex, process_message};
pub use num::u64_to_hex;
pub use rewrite::{transform_segment_register, transform_tdx_exit_info, transform_tdx_guest_state};
