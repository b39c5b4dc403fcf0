//! A leveled logger for the standard error stream.
//!
//! Records are gated by a verbosity threshold (raised by repeated `-v`
//! flags), an overriding quiet flag, and a filter over hierarchical module
//! paths: a minimal, sorted set of enabled path prefixes in which no entry
//! covers another. Enabled records are written one whole line at a time,
//! optionally timestamped, through a per-thread cached colorized handle on
//! the shared stream.

#![allow(unused_imports)]

use vstd::prelude::*;

mod filter;
mod level;
mod logger;
mod output;
mod path;
mod render;

pub use filter::all_valid;
pub use filter::antichain;
pub use filter::filter_inv;
pub use filter::includes_path;
pub use filter::insert_path;
pub use filter::lemma_includes_exact;
pub use filter::lemma_insert_all_covers;
pub use filter::lemma_insert_all_entries;
pub use filter::lemma_insert_all_inv;
pub use filter::lemma_insert_all_keeps;
pub use filter::lemma_insert_all_push;
pub use filter::lemma_insert_all_unrelated;
pub use filter::lemma_insert_keeps_coverage;
pub use filter::lemma_insert_nonempty;
pub use filter::lemma_insert_contents;
pub use filter::lemma_insert_idempotent;
pub use filter::lemma_insert_sorted;
pub use filter::lemma_insert_then_includes;
pub use filter::lemma_lower_bound;
pub use filter::lemma_lower_bound_unique;
pub use filter::lemma_run_len;
pub use filter::lower_bound;
pub use filter::paths_view;
pub use filter::run_len;
pub use filter::sorted;
pub use filter::spec_includes;
pub use filter::spec_insert;
pub use filter::spec_insert_all;
pub use level::LevelColor;
pub use level::ColorMode;
pub use level::Level;
pub use level::LevelFilter;
pub use level::Timestamp;
pub use level::filter_for_verbosity;
pub use level::filter_num;
pub use level::level_color;
pub use level::level_num;
pub use level::level_passes;
pub use level::spec_level_color;
pub use level::verbosity_filter;
pub use path::SEP_BYTE;
pub use path::ancestor_bytes;
pub use path::bytes_eq;
pub use path::bytes_lt;
pub use path::is_ancestor;
pub use path::is_submodule;
pub use path::lemma_ancestor_between;
pub use path::lemma_ancestor_extend;
pub use path::lemma_ancestor_le;
pub use path::lemma_ancestor_needs_boundary;
pub use path::lemma_ancestor_trans;
pub use path::lex_lt;
pub use path::sep_seq;
pub use path::valid_path;
pub use logger::lemma_quiet_silences;
pub use logger::paths_bytes;
pub use logger::StdErrLog;
pub use render::level_name;
pub use render::render_line;
pub use render::spec_level_name;
pub use render::spec_line;
pub use render::spec_timestamp_pattern;
pub use render::timestamp_pattern;

verus! {

/// creates a new stderr logger
pub fn new() -> (r: StdErrLog)
    ensures
        r.wf(),
        r.spec_verbosity() == LevelFilter::Error,
        !r.spec_quiet(),
        r.spec_timestamp() == Timestamp::Off,
        r.spec_modules() == Seq::<Seq<u8>>::empty(),
        r.spec_color() == ColorMode::Auto,
{
    StdErrLog::new()
}

} // verus!
