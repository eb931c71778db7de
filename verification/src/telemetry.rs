//! The telemetry configuration builder: filter directives and the flags
//! that pick the exporters.
//!
//! Applying the configuration — parsing the directives, wiring exporters,
//! installing the global subscriber, and the writer the stdout exporter
//! uses — is I/O and stays outside this crate.

use vstd::prelude::*;
use vstd::string::StringExecFns;

verus! {

/// Configuration for telemetry initialization, built up by chained setters
/// starting from [`configure`].
#[derive(Debug)]
pub struct Config {
    /// Directives for the log filter, in the usual `target=level` syntax;
    /// empty means the default level.
    pub filter_directives: String,
    /// Write spans to stdout even when stdout is not a terminal.
    pub force_stdout: bool,
    /// Do not export spans over OTLP.
    pub no_otel: bool,
}

impl Config {
    fn new() -> (c: Config)
        ensures
            c.filter_directives@ == Seq::<char>::empty(),
            !c.force_stdout,
            !c.no_otel,
    {
        Config { filter_directives: String::new(), force_stdout: false, no_otel: false }
    }

    /// Replaces the filter directives.
    pub fn filter_directives(self, filter_directives: &str) -> (c: Config)
        ensures
            c.filter_directives@ == filter_directives@,
            c.force_stdout == self.force_stdout,
            c.no_otel == self.no_otel,
    {
        Config { filter_directives: String::from_str(filter_directives), ..self }
    }

    /// Turns on writing spans to stdout even when stdout is not a terminal.
    pub fn force_stdout(self) -> (c: Config)
        ensures
            c.filter_directives@ == self.filter_directives@,
            c.force_stdout,
            c.no_otel == self.no_otel,
    {
        self.set_force_stdout(true)
    }

    /// Sets whether spans are written to stdout even when stdout is not a
    /// terminal.
    pub fn set_force_stdout(self, force_stdout: bool) -> (c: Config)
        ensures
            c.filter_directives@ == self.filter_directives@,
            c.force_stdout == force_stdout,
            c.no_otel == self.no_otel,
    {
        Config { force_stdout, ..self }
    }

    /// Turns off the OTLP exporter.
    pub fn no_otel(self) -> (c: Config)
        ensures
            c.filter_directives@ == self.filter_directives@,
            c.force_stdout == self.force_stdout,
            c.no_otel,
    {
        self.set_no_otel(true)
    }

    /// Sets whether the OTLP exporter is disabled.
    pub fn set_no_otel(self, no_otel: bool) -> (c: Config)
        ensures
            c.filter_directives@ == self.filter_directives@,
            c.force_stdout == self.force_stdout,
            c.no_otel == no_otel,
    {
        Config { no_otel, ..self }
    }
}

/// Starts building a telemetry configuration: empty filter directives, no
/// forced stdout, OTLP export on.
pub fn configure() -> (c: Config)
    ensures
        c.filter_directives@ == Seq::<char>::empty(),
        !c.force_stdout,
        !c.no_otel,
{
    Config::new()
}

} // verus!
