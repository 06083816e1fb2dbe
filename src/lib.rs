//! Fixed-capacity, null-terminated byte buffers and a level-filtered log
//! dispatcher, for handing data to C-style interfaces without allocation.
pub mod logging;
pub mod misc;

pub use logging::{dispatch_action, level_mask, mask_has_level, set_level_in_mask, LogAction, LogLevel, LogState};
pub use misc::{copy_str, fmt_to_buf, fmt_to_cstr, BufFmtWriter, ToCStr};
