use std::cell::RefCell;
use std::io::LineWriter;
use std::io::Write;
use termcolor::WriteColor;
use vstd::prelude::*;

use crate::level::LevelColor;
use crate::level::ColorMode;

verus! {

/// termcolor's stream-choice enum, declared so that values of it can pass
/// through verified code on their way to the writer.
#[verifier::external_type_specification]
#[verifier::external_body]
pub struct ExTermColorChoice(termcolor::ColorChoice);

/// termcolor's color enum, declared so that values of it can pass through
/// verified code on their way to the writer.
#[verifier::external_type_specification]
#[verifier::external_body]
pub struct ExTermColor(termcolor::Color);

/// Relies on termcolor::ColorChoice: picks the variant matching ours.
#[verifier::external_body]
pub(crate) fn to_termcolor_choice(choice: ColorMode) -> termcolor::ColorChoice {
    match choice {
        ColorMode::Always => termcolor::ColorChoice::Always,
        ColorMode::Auto => termcolor::ColorChoice::Auto,
        ColorMode::Never => termcolor::ColorChoice::Never,
    }
}

/// Relies on termcolor::Color: picks the variant matching ours.
#[verifier::external_body]
pub(crate) fn to_termcolor_color(color: LevelColor) -> termcolor::Color {
    match color {
        LevelColor::Red => termcolor::Color::Red,
        LevelColor::Magenta => termcolor::Color::Magenta,
        LevelColor::Yellow => termcolor::Color::Yellow,
        LevelColor::Cyan => termcolor::Color::Cyan,
        LevelColor::Blue => termcolor::Color::Blue,
    }
}

/// Per-thread cache of line-buffered colorized handles on the shared
/// standard-error stream. Verus cannot declare the cache's type, so the
/// struct is opaque: nothing is stated or proved about what it holds, and
/// every thread writing through it gets its own handle.
#[verifier::external_body]
pub(crate) struct WriterCache {
    slots: thread_local::ThreadLocal<RefCell<LineWriter<termcolor::StandardStream>>>,
}

impl WriterCache {
    /// Relies on thread_local::ThreadLocal::new: a cache with no handles
    /// in it yet.
    #[verifier::external_body]
    pub(crate) fn new() -> WriterCache {
        WriterCache { slots: thread_local::ThreadLocal::new() }
    }

    /// Writes one whole line through the calling thread's cached handle,
    /// set to the given color and reset afterwards. Relies on
    /// thread_local::ThreadLocal::get_or to build and cache this thread's
    /// handle on first use, on std::io::LineWriter to pass the full line
    /// on in one write, and on termcolor's StandardStream, set_color and
    /// reset for the stream and its color state. A failed write of the
    /// line is discarded; a failed color change aborts, as the output
    /// environment is broken.
    #[verifier::external_body]
    pub(crate) fn write_line(&self, choice: termcolor::ColorChoice, color: termcolor::Color, line: &str) {
        let cell = self.slots.get_or(
            || RefCell::new(LineWriter::new(termcolor::StandardStream::stderr(choice))),
        );
        let mut w = cell.borrow_mut();
        w.get_mut().set_color(termcolor::ColorSpec::new().set_fg(Some(color))).expect(
            "failed to set color",
        );
        let _ = w.write_all(line.as_bytes());
        w.get_mut().reset().expect("failed to reset the color");
    }
}

/// Relies on chrono::Local::now and chrono's strftime-style formatting:
/// the current local time rendered with the given pattern. The result
/// depends on the clock, so nothing is stated about it. The pattern is
/// pinned to the three fixed ones the logger uses, on which chrono's
/// formatter does not fail.
#[verifier::external_body]
pub(crate) fn local_time_string(pattern: &str) -> String
    requires
        pattern@ == "%Y-%m-%dT%H:%M:%S%:z"@ || pattern@ == "%Y-%m-%dT%H:%M:%S%.6f%:z"@
            || pattern@ == "%Y-%m-%dT%H:%M:%S%.9f%:z"@,
{
    chrono::Local::now().format(pattern).to_string()
}

} // verus!
