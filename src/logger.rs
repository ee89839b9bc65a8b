//! Log levels and log lines. Lines are formatted and filtered here and
//! collected in a buffer; writing them out is left to the caller.

use vstd::prelude::*;

verus! {

/// Log level, from least to most severe.
#[derive(Clone, Copy, Debug, PartialEq, Eq, Structural)]
pub enum LogLevel {
    Debug,
    Info,
    Warning,
    Error,
}

impl LogLevel {
    /// Severity rank: 0 for `Debug` up to 3 for `Error`.
    pub open spec fn rank(self) -> nat {
        match self {
            LogLevel::Debug => 0,
            LogLevel::Info => 1,
            LogLevel::Warning => 2,
            LogLevel::Error => 3,
        }
    }

    /// The name written in a log line.
    pub open spec fn name(self) -> Seq<char> {
        match self {
            LogLevel::Debug => "DEBUG"@,
            LogLevel::Info => "INFO"@,
            LogLevel::Warning => "WARNING"@,
            LogLevel::Error => "ERROR"@,
        }
    }

    /// The name written in a log line.
    pub fn as_str(&self) -> (r: &'static str)
        ensures
            r@ == self.name(),
    {
        match self {
            LogLevel::Debug => "DEBUG",
            LogLevel::Info => "INFO",
            LogLevel::Warning => "WARNING",
            LogLevel::Error => "ERROR",
        }
    }

    /// The level logged by default: everything in a debug build, from
    /// `Info` up otherwise.
    pub fn effective(debug_build: bool) -> (r: LogLevel)
        ensures
            r == if debug_build {
                LogLevel::Debug
            } else {
                LogLevel::Info
            },
    {
        if debug_build {
            LogLevel::Debug
        } else {
            LogLevel::Info
        }
    }

    /// Whether a message of level `level` passes this threshold.
    pub fn allows(&self, level: LogLevel) -> (r: bool)
        ensures
            r == (level.rank() >= self.rank()),
    {
        let a: u8 = match level {
            LogLevel::Debug => 0,
            LogLevel::Info => 1,
            LogLevel::Warning => 2,
            LogLevel::Error => 3,
        };
        let b: u8 = match self {
            LogLevel::Debug => 0,
            LogLevel::Info => 1,
            LogLevel::Warning => 2,
            LogLevel::Error => 3,
        };
        a >= b
    }
}

/// The line logged for a message: `[time] [LEVEL] [module] message` and a
/// newline.
pub open spec fn log_line(timestamp: Seq<char>, level: LogLevel, module: Seq<char>, message: Seq<char>) -> Seq<char> {
    "["@ + timestamp + "] ["@ + level.name() + "] ["@ + module + "] "@ + message + "\n"@
}

/// Formats one log line.
pub fn format_log_line(timestamp: &str, level: LogLevel, module: &str, message: &str) -> (r: String)
    ensures
        r@ == log_line(timestamp@, level, module@, message@),
{
    let mut line = String::from_str("[");
    line.append(timestamp);
    line.append("] [");
    line.append(level.as_str());
    line.append("] [");
    line.append(module);
    line.append("] ");
    line.append(message);
    line.append("\n");
    line
}

/// Log lines waiting to be written, and the threshold they passed.
pub struct LogBuffer {
    level: LogLevel,
    lines: Vec<String>,
}

impl LogBuffer {
    /// The least severe level that is logged.
    pub closed spec fn threshold(&self) -> LogLevel {
        self.level
    }

    /// The least severe level that is logged.
    pub fn level(&self) -> (r: LogLevel)
        ensures
            r == self.threshold(),
    {
        self.level
    }

    /// The waiting lines, oldest first.
    pub closed spec fn pending(&self) -> Seq<Seq<char>> {
        Seq::new(self.lines@.len(), |i: int| self.lines@[i]@)
    }

    /// An empty buffer with threshold `level`.
    pub fn new(level: LogLevel) -> (r: Self)
        ensures
            r.threshold() == level,
            r.pending() == Seq::<Seq<char>>::empty(),
    {
        let r = LogBuffer { level, lines: Vec::new() };
        proof {
            assert(r.pending() =~= Seq::<Seq<char>>::empty());
        }
        r
    }

    /// Adds the line of a message if its level passes the threshold.
    pub fn log(&mut self, level: LogLevel, timestamp: &str, module: &str, message: &str)
        ensures
            final(self).threshold() == old(self).threshold(),
            final(self).pending() == if level.rank() >= old(self).threshold().rank() {
                old(self).pending().push(log_line(timestamp@, level, module@, message@))
            } else {
                old(self).pending()
            },
    {
        if self.level.allows(level) {
            let ghost pre = self.pending();
            let line = format_log_line(timestamp, level, module, message);
            self.lines.push(line);
            proof {
                assert(self.pending() =~= pre.push(log_line(timestamp@, level, module@, message@)));
            }
        }
    }

    /// Hands out the waiting lines, oldest first, and empties the buffer.
    pub fn take_lines(&mut self) -> (r: Vec<String>)
        ensures
            final(self).threshold() == old(self).threshold(),
            final(self).pending() == Seq::<Seq<char>>::empty(),
            r@.len() == old(self).pending().len(),
            forall|i: int| 0 <= i < r@.len() ==> #[trigger] r@[i]@ == old(self).pending()[i],
    {
        let mut out: Vec<String> = Vec::new();
        std::mem::swap(&mut out, &mut self.lines);
        proof {
            assert(self.pending() =~= Seq::<Seq<char>>::empty());
        }
        out
    }
}

/// Logs a debug message.
pub fn debug(log: &mut LogBuffer, timestamp: &str, module: &str, message: &str)
    ensures
        final(log).threshold() == old(log).threshold(),
        final(log).pending() == if old(log).threshold().rank() == 0 {
            old(log).pending().push(log_line(timestamp@, LogLevel::Debug, module@, message@))
        } else {
            old(log).pending()
        },
{
    log.log(LogLevel::Debug, timestamp, module, message);
}

/// Logs an info message.
pub fn info(log: &mut LogBuffer, timestamp: &str, module: &str, message: &str)
    ensures
        final(log).threshold() == old(log).threshold(),
        final(log).pending() == if old(log).threshold().rank() <= 1 {
            old(log).pending().push(log_line(timestamp@, LogLevel::Info, module@, message@))
        } else {
            old(log).pending()
        },
{
    log.log(LogLevel::Info, timestamp, module, message);
}

/// Logs a warning.
pub fn warning(log: &mut LogBuffer, timestamp: &str, module: &str, message: &str)
    ensures
        final(log).threshold() == old(log).threshold(),
        final(log).pending() == if old(log).threshold().rank() <= 2 {
            old(log).pending().push(log_line(timestamp@, LogLevel::Warning, module@, message@))
        } else {
            old(log).pending()
        },
{
    log.log(LogLevel::Warning, timestamp, module, message);
}

/// Logs an error.
pub fn error(log: &mut LogBuffer, timestamp: &str, module: &str, message: &str)
    ensures
        final(log).threshold() == old(log).threshold(),
        final(log).pending() == old(log).pending().push(
            log_line(timestamp@, LogLevel::Error, module@, message@),
        ),
{
    log.log(LogLevel::Error, timestamp, module, message);
}

} // verus!
