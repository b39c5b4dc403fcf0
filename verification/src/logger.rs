use vstd::prelude::*;
use vstd::string::StrSliceExecFns;
use vstd::string::StringSliceAdditionalSpecFns;
use vstd::utf8::encode_utf8;

use crate::filter::includes_path;
use crate::filter::insert_path;
use crate::filter::paths_view;
use crate::filter::sorted;
use crate::filter::spec_includes;
use crate::filter::spec_insert;
use crate::filter::spec_insert_all;
use crate::filter::lemma_insert_all_push;
use crate::level::filter_num;
use crate::level::filter_for_verbosity;
use crate::level::level_color;
use crate::level::level_num;
use crate::level::level_passes;
use crate::level::verbosity_filter;
use crate::level::LevelColor;
use crate::level::ColorMode;
use crate::level::Level;
use crate::level::LevelFilter;
use crate::level::Timestamp;
use crate::output::local_time_string;
use crate::output::to_termcolor_choice;
use crate::output::to_termcolor_color;
use crate::output::WriterCache;
use crate::path::bytes_eq;
use crate::render::render_line;
use crate::render::timestamp_pattern;

verus! {

/// The byte encodings of a list of path strings.
pub open spec fn paths_bytes(ms: Seq<String>) -> Seq<Seq<u8>> {
    Seq::new(ms.len(), |j: int| encode_utf8(ms[j]@))
}

/// Data specific to this logger: its configuration, set up before use and
/// read-only afterwards, and the per-thread writer cache.
pub struct StdErrLog {
    verbosity: LevelFilter,
    quiet: bool,
    timestamp: Timestamp,
    modules: Vec<Vec<u8>>,
    color_choice: ColorMode,
    writer: WriterCache,
}

impl StdErrLog {
    /// The configured verbosity threshold.
    pub closed spec fn spec_verbosity(&self) -> LevelFilter {
        self.verbosity
    }

    /// The configured quiet flag.
    pub closed spec fn spec_quiet(&self) -> bool {
        self.quiet
    }

    /// The configured timestamp mode.
    pub closed spec fn spec_timestamp(&self) -> Timestamp {
        self.timestamp
    }

    /// The configured color mode.
    pub closed spec fn spec_color(&self) -> ColorMode {
        self.color_choice
    }

    /// The enabled-prefix set, as byte sequences.
    pub closed spec fn spec_modules(&self) -> Seq<Seq<u8>> {
        paths_view(self.modules@)
    }

    /// The enabled-prefix set is sorted strictly ascending, so ordered
    /// search over it is meaningful.
    pub open spec fn wf(&self) -> bool {
        sorted(self.spec_modules())
    }

    /// The effective threshold: nothing enabled when quiet, else the
    /// configured verbosity. The verbosity itself is preserved under
    /// quiet, so clearing the flag restores it.
    pub open spec fn spec_threshold(&self) -> LevelFilter {
        if self.spec_quiet() {
            LevelFilter::Off
        } else {
            self.spec_verbosity()
        }
    }

    /// Is a record of this level and target emitted? It must pass the
    /// effective threshold and its target must be covered by the
    /// enabled-prefix set.
    pub open spec fn spec_enabled(&self, level: Level, target: Seq<u8>) -> bool {
        level_num(level) <= filter_num(self.spec_threshold()) && spec_includes(
            self.spec_modules(),
            target,
        )
    }

    /// creates a new stderr logger: errors only, not quiet, no
    /// timestamps, automatic color, every module enabled
    pub fn new() -> (r: StdErrLog)
        ensures
            r.wf(),
            r.spec_verbosity() == LevelFilter::Error,
            !r.spec_quiet(),
            r.spec_timestamp() == Timestamp::Off,
            r.spec_modules() == Seq::<Seq<u8>>::empty(),
            r.spec_color() == ColorMode::Auto,
    {
        let r = StdErrLog {
            verbosity: LevelFilter::Error,
            quiet: false,
            timestamp: Timestamp::Off,
            modules: Vec::new(),
            color_choice: ColorMode::Auto,
            writer: WriterCache::new(),
        };
        proof {
            assert(r.spec_modules() =~= Seq::<Seq<u8>>::empty());
        }
        r
    }

    /// Sets the verbosity level of messages that will be displayed from
    /// the count of repeated verbosity flags.
    pub fn verbosity(&mut self, verbosity: usize)
        ensures
            final(self).spec_verbosity() == filter_for_verbosity(verbosity as nat),
            final(self).spec_quiet() == old(self).spec_quiet(),
            final(self).spec_timestamp() == old(self).spec_timestamp(),
            final(self).spec_color() == old(self).spec_color(),
            final(self).spec_modules() == old(self).spec_modules(),
            final(self).wf() == old(self).wf(),
    {
        self.verbosity = verbosity_filter(verbosity);
    }

    /// silence all output, no matter the value of verbosity
    pub fn quiet(&mut self, quiet: bool)
        ensures
            final(self).spec_quiet() == quiet,
            final(self).spec_verbosity() == old(self).spec_verbosity(),
            final(self).spec_timestamp() == old(self).spec_timestamp(),
            final(self).spec_color() == old(self).spec_color(),
            final(self).spec_modules() == old(self).spec_modules(),
            final(self).wf() == old(self).wf(),
    {
        self.quiet = quiet;
    }

    /// Enables or disables the use of timestamps in log messages
    pub fn timestamp(&mut self, timestamp: Timestamp)
        ensures
            final(self).spec_timestamp() == timestamp,
            final(self).spec_verbosity() == old(self).spec_verbosity(),
            final(self).spec_quiet() == old(self).spec_quiet(),
            final(self).spec_color() == old(self).spec_color(),
            final(self).spec_modules() == old(self).spec_modules(),
            final(self).wf() == old(self).wf(),
    {
        self.timestamp = timestamp;
    }

    /// Enables or disables the use of color in log messages
    pub fn color(&mut self, choice: ColorMode)
        ensures
            final(self).spec_color() == choice,
            final(self).spec_verbosity() == old(self).spec_verbosity(),
            final(self).spec_quiet() == old(self).spec_quiet(),
            final(self).spec_timestamp() == old(self).spec_timestamp(),
            final(self).spec_modules() == old(self).spec_modules(),
            final(self).wf() == old(self).wf(),
    {
        self.color_choice = choice;
    }

    /// specify a module to allow to log to stderr
    pub fn module(&mut self, module: &str)
        requires
            old(self).wf(),
        ensures
            final(self).wf(),
            final(self).spec_modules() == spec_insert(
                old(self).spec_modules(),
                module.spec_bytes(),
            ),
            final(self).spec_verbosity() == old(self).spec_verbosity(),
            final(self).spec_quiet() == old(self).spec_quiet(),
            final(self).spec_timestamp() == old(self).spec_timestamp(),
            final(self).spec_color() == old(self).spec_color(),
    {
        let bytes = module.as_bytes_vec();
        insert_path(&mut self.modules, bytes);
    }

    /// specify modules to allow to log to stderr
    pub fn modules(&mut self, modules: &Vec<String>)
        requires
            old(self).wf(),
        ensures
            final(self).wf(),
            final(self).spec_modules() == spec_insert_all(
                old(self).spec_modules(),
                paths_bytes(modules@),
            ),
            final(self).spec_verbosity() == old(self).spec_verbosity(),
            final(self).spec_quiet() == old(self).spec_quiet(),
            final(self).spec_timestamp() == old(self).spec_timestamp(),
            final(self).spec_color() == old(self).spec_color(),
    {
        let ghost ps = paths_bytes(modules@);
        proof {
            assert(ps.take(0) =~= Seq::<Seq<u8>>::empty());
            assert(spec_insert_all(old(self).spec_modules(), ps.take(0)) == old(
                self,
            ).spec_modules());
        }
        let mut idx: usize = 0;
        while idx < modules.len()
            invariant
                idx <= modules@.len(),
                self.wf(),
                ps == paths_bytes(modules@),
                self.spec_modules() == spec_insert_all(old(self).spec_modules(), ps.take(idx as int)),
                self.spec_verbosity() == old(self).spec_verbosity(),
                self.spec_quiet() == old(self).spec_quiet(),
                self.spec_timestamp() == old(self).spec_timestamp(),
                self.spec_color() == old(self).spec_color(),
            decreases modules@.len() - idx,
        {
            let m: &String = &modules[idx];
            self.module(m.as_str());
            proof {
                assert(ps[idx as int] == encode_utf8(modules@[idx as int]@));
                lemma_insert_all_push(old(self).spec_modules(), ps.take(idx as int), ps[idx as int]);
                assert(ps.take(idx as int).push(ps[idx as int]) =~= ps.take(idx as int + 1));
            }
            idx += 1;
        }
        proof {
            assert(ps.take(modules@.len() as int) =~= ps);
        }
    }

    /// The effective threshold after the quiet override.
    pub fn log_level_filter(&self) -> (r: LevelFilter)
        ensures
            r == self.spec_threshold(),
    {
        if self.quiet {
            LevelFilter::Off
        } else {
            self.verbosity
        }
    }

    /// Does the enabled-prefix set cover this target path? An empty set
    /// covers every path.
    pub fn includes_module(&self, path: &str) -> (r: bool)
        requires
            self.wf(),
        ensures
            r == spec_includes(self.spec_modules(), path.spec_bytes()),
    {
        includes_path(&self.modules, path.as_bytes())
    }

    /// Is a record of this level and target emitted?
    pub fn enabled(&self, level: Level, target: &str) -> (r: bool)
        requires
            self.wf(),
        ensures
            r == self.spec_enabled(level, target.spec_bytes()),
    {
        level_passes(level, self.log_level_filter()) && self.includes_module(target)
    }

    /// Emit one record. Nothing happens unless the record is enabled; an
    /// enabled record is rendered into one line, optionally timestamped,
    /// and written through this thread's cached colorized handle.
    pub fn log(&self, level: Level, target: &str, message: &str)
        requires
            self.wf(),
    {
        if !self.enabled(level, target) {
            return;
        }
        let prefix: Option<String> = match timestamp_pattern(self.timestamp) {
            Some(p) => Some(local_time_string(p)),
            None => None,
        };
        let line = render_line(&prefix, level, message);
        let choice = to_termcolor_choice(self.color_choice);
        let color = to_termcolor_color(level_color(level));
        self.writer.write_line(choice, color, line.as_str());
    }

    /// How many enabled prefixes the set holds.
    pub fn modules_len(&self) -> (n: usize)
        ensures
            n == self.spec_modules().len(),
    {
        self.modules.len()
    }

    /// Is this exact path one of the stored prefixes?
    pub fn has_module(&self, path: &str) -> (r: bool)
        ensures
            r == self.spec_modules().contains(path.spec_bytes()),
    {
        let p = path.as_bytes();
        let mut i: usize = 0;
        while i < self.modules.len()
            invariant
                i <= self.modules@.len(),
                p@ == path.spec_bytes(),
                forall|j: int| 0 <= j < i ==> self.spec_modules()[j] != path.spec_bytes(),
            decreases self.modules@.len() - i,
        {
            if bytes_eq(self.modules[i].as_slice(), p) {
                proof {
                    assert(self.spec_modules()[i as int] == path.spec_bytes());
                }
                return true;
            }
            proof {
                assert(self.spec_modules()[i as int] == self.modules@[i as int]@);
            }
            i += 1;
        }
        proof {
            assert(!self.spec_modules().contains(path.spec_bytes()));
        }
        false
    }
}

/// When the quiet flag is set, no record of any level and any target is
/// emitted, whatever the stored verbosity.
pub proof fn lemma_quiet_silences(logger: &StdErrLog, level: Level, target: Seq<u8>)
    requires
        logger.spec_quiet(),
    ensures
        !logger.spec_enabled(level, target),
{
}

impl Clone for StdErrLog {
    /// Duplicating a logger copies its whole configuration; the
    /// per-thread writer cache starts out empty, since writer handles are
    /// thread-bound and are never shared between copies.
    fn clone(&self) -> (r: StdErrLog)
        ensures
            r.spec_verbosity() == self.spec_verbosity(),
            r.spec_quiet() == self.spec_quiet(),
            r.spec_timestamp() == self.spec_timestamp(),
            r.spec_color() == self.spec_color(),
            r.spec_modules() == self.spec_modules(),
            r.wf() == self.wf(),
    {
        let mut ms: Vec<Vec<u8>> = Vec::new();
        let mut i: usize = 0;
        while i < self.modules.len()
            invariant
                ms@.len() == i <= self.modules@.len(),
                forall|j: int| 0 <= j < i ==> ms@[j]@ == #[trigger] self.modules@[j]@,
            decreases self.modules@.len() - i,
        {
            let src = &self.modules[i];
            let mut entry: Vec<u8> = Vec::new();
            let mut t: usize = 0;
            while t < src.len()
                invariant
                    entry@.len() == t <= src@.len(),
                    forall|u: int| 0 <= u < t ==> entry@[u] == #[trigger] src@[u],
                decreases src@.len() - t,
            {
                entry.push(src[t]);
                t += 1;
            }
            proof {
                assert(entry@ =~= src@);
            }
            ms.push(entry);
            i += 1;
        }
        let r = StdErrLog {
            verbosity: self.verbosity,
            quiet: self.quiet,
            timestamp: self.timestamp,
            modules: ms,
            color_choice: self.color_choice,
            writer: WriterCache::new(),
        };
        proof {
            assert(r.spec_modules() =~= self.spec_modules());
        }
        r
    }
}

impl Default for StdErrLog {
    /// The default logger, as `new` builds it.
    fn default() -> (r: StdErrLog)
        ensures
            r.wf(),
            r.spec_verbosity() == LevelFilter::Error,
            !r.spec_quiet(),
            r.spec_timestamp() == Timestamp::Off,
            r.spec_modules() == Seq::<Seq<u8>>::empty(),
            r.spec_color() == ColorMode::Auto,
    {
        StdErrLog::new()
    }
}

} // verus!
