//! What is logged, and where it is written.
use vstd::prelude::*;
use vstd::string::*;

verus! {

/// How much of the log is written to files.
#[derive(Debug)]
pub struct LoggerConfig {
    write_info: bool,
    flush: bool,
}

impl LoggerConfig {
    /// Whether more than warnings is written to a file.
    pub closed spec fn writes_info(&self) -> bool {
        self.write_info
    }

    /// Whether each line is brought to the disk at once.
    pub closed spec fn flushes(&self) -> bool {
        self.flush
    }

    /// Everything is written, and lines wait for each other.
    pub fn new() -> (r: LoggerConfig)
        ensures
            r.writes_info(),
            !r.flushes(),
    {
        LoggerConfig { write_info: true, flush: false }
    }

    /// Sets whether more than warnings is written to a file, and hands the configuration back.
    pub fn write_info(&mut self, enabled: bool) -> (r: &mut LoggerConfig)
        ensures
            r.writes_info() == enabled,
            r.flushes() == old(self).flushes(),
            *final(self) == *final(r),
    {
        self.write_info = enabled;
        self
    }

    /// Sets whether each line is brought to the disk at once, and hands the configuration back.
    pub fn flush(&mut self, enabled: bool) -> (r: &mut LoggerConfig)
        ensures
            r.flushes() == enabled,
            r.writes_info() == old(self).writes_info(),
            *final(self) == *final(r),
    {
        self.flush = enabled;
        self
    }
}

/// How grave a message is.
#[derive(Clone, Copy, PartialEq, Eq, Structural, Debug)]
pub enum LogLevel {
    Error,
    Warn,
    Info,
    Debug,
    Trace,
}

impl LogLevel {
    /// Whether a message is a warning or worse.
    pub open spec fn grave(self) -> bool {
        self == LogLevel::Error || self == LogLevel::Warn
    }

    /// The name of the level in a line.
    pub open spec fn name(self) -> Seq<char> {
        match self {
            LogLevel::Error => "error"@,
            LogLevel::Warn => "warn"@,
            LogLevel::Info => "info"@,
            LogLevel::Debug => "debug"@,
            LogLevel::Trace => "trace"@,
        }
    }

    /// Whether a message of this level is logged at all.
    pub fn enabled(self) -> (r: bool)
        ensures
            r == (self != LogLevel::Trace),
    {
        match self {
            LogLevel::Trace => false,
            _ => true,
        }
    }

    /// The name of the level in a line.
    pub fn as_str(self) -> (r: &'static str)
        ensures
            r@ == self.name(),
    {
        match self {
            LogLevel::Error => "error",
            LogLevel::Warn => "warn",
            LogLevel::Info => "info",
            LogLevel::Debug => "debug",
            LogLevel::Trace => "trace",
        }
    }
}

/// A line of the log.
pub fn log_line(time: &str, level: LogLevel, target: &str, message: &str) -> (r: String)
    ensures
        r@ == time@ + " ["@ + level.name() + "/"@ + target@ + "] "@ + message@,
{
    let mut line = time.to_owned();
    line.append(" [");
    line.append(level.as_str());
    line.append("/");
    line.append(target);
    line.append("] ");
    line.append(message);
    line
}

/// So many lines fill a file.
pub const MAX_LINES: u32 = 100000;

/// Where a line goes.
#[derive(Clone, Copy, PartialEq, Eq, Structural, Debug)]
pub struct LogRoute {
    /// It goes to the error output, and not to the standard output.
    pub to_stderr: bool,
    /// It is written to the file of that output.
    pub to_file: bool,
    /// Before that, the file makes way for a new one.
    pub rotate: bool,
    /// After that, the file is brought to the disk.
    pub flush: bool,
}

/// How full the two files are.
#[derive(Debug)]
pub struct LogLines {
    err_lines: u32,
    out_lines: u32,
}

/// How full a file is after one more line.
pub open spec fn lines_after(lines: nat) -> nat {
    if lines + 1 > MAX_LINES {
        0
    } else {
        lines + 1
    }
}

impl LogLines {
    /// The lines counted in the file for warnings.
    pub closed spec fn err(&self) -> nat {
        self.err_lines as nat
    }

    /// The lines counted in the file for the rest.
    pub closed spec fn out(&self) -> nat {
        self.out_lines as nat
    }

    /// No file is ever counted over its limit.
    pub open spec fn wf(&self) -> bool {
        self.err() <= MAX_LINES && self.out() <= MAX_LINES
    }

    /// Both files are new.
    pub fn new() -> (r: LogLines)
        ensures
            r.wf(),
            r.err() == 0,
            r.out() == 0,
    {
        LogLines { err_lines: 0, out_lines: 0 }
    }

    /// Where the next line goes.
    pub fn route(&mut self, level: LogLevel, config: &LoggerConfig) -> (r: LogRoute)
        requires
            old(self).wf(),
        ensures
            final(self).wf(),
            r.to_stderr == level.grave(),
            r.to_file == (level.grave() || config.writes_info()),
            r.flush == (!level.grave() && config.writes_info() && config.flushes()),
            if level.grave() {
                &&& final(self).err() == lines_after(old(self).err())
                &&& final(self).out() == old(self).out()
                &&& r.rotate == (old(self).err() + 1 > MAX_LINES)
            } else if config.writes_info() {
                &&& final(self).out() == lines_after(old(self).out())
                &&& final(self).err() == old(self).err()
                &&& r.rotate == (old(self).out() + 1 > MAX_LINES)
            } else {
                &&& final(self).out() == old(self).out()
                &&& final(self).err() == old(self).err()
                &&& !r.rotate
            },
    {
        let grave = match level {
            LogLevel::Error => true,
            LogLevel::Warn => true,
            _ => false,
        };
        let mut rotate = false;
        if grave {
            self.err_lines = self.err_lines + 1;
            if self.err_lines > MAX_LINES {
                self.err_lines = 0;
                rotate = true;
            }
            return LogRoute { to_stderr: true, to_file: true, rotate, flush: false };
        }
        if !config.write_info {
            return LogRoute { to_stderr: false, to_file: false, rotate: false, flush: false };
        }
        self.out_lines = self.out_lines + 1;
        if self.out_lines > MAX_LINES {
            self.out_lines = 0;
            rotate = true;
        }
        LogRoute { to_stderr: false, to_file: true, rotate, flush: config.flush }
    }
}

/// How full a file is after so many lines.
pub open spec fn lines_after_many(lines: nat, more: nat) -> nat
    decreases more,
{
    if more == 0 {
        lines
    } else {
        lines_after(lines_after_many(lines, (more - 1) as nat))
    }
}

/// A new file makes way for another one exactly when one line more than it may hold is written.
pub proof fn full_file_makes_way(more: nat)
    requires
        more <= MAX_LINES + 1,
    ensures
        lines_after_many(0, more) == if more <= MAX_LINES {
            more
        } else {
            0
        },
    decreases more,
{
    if more > 0 {
        full_file_makes_way((more - 1) as nat);
    }
}

/// Warnings go to the error output and always to its file; the rest goes to the other output, and to its file
/// where that is wanted. Each file counts its own lines, and makes way for a new one when it is full, which is
/// after a hundred thousand lines.
pub proof fn lines_go_where_they_belong(lines: &mut LogLines, level: LogLevel, config: &LoggerConfig, r: LogRoute)
    requires
        call_ensures(LogLines::route, (lines, level, config), r),
        old(lines).wf(),
    ensures
        ({
            let grave = level == LogLevel::Error || level == LogLevel::Warn;
            &&& r.to_stderr <==> grave
            &&& r.to_file <==> grave || config.writes_info()
            &&& r.flush ==> r.to_file && !grave && config.flushes()
            &&& !grave && config.writes_info() && config.flushes() ==> r.flush
            &&& grave ==> final(lines).out() == old(lines).out()
            &&& !grave ==> final(lines).err() == old(lines).err()
            &&& !r.to_file ==> final(lines).out() == old(lines).out() && !r.rotate
            &&& grave ==> (r.rotate <==> old(lines).err() == 100_000) && final(lines).err() == if r.rotate {
                0
            } else {
                old(lines).err() + 1
            }
            &&& !grave && config.writes_info() ==> (r.rotate <==> old(lines).out() == 100_000) && final(lines).out()
                == if r.rotate {
                0
            } else {
                old(lines).out() + 1
            }
        }),
{
}

/// What is set of the log is what is found of it, and setting one thing leaves the other.
pub proof fn log_settings_are_kept(
    start: LoggerConfig,
    a: &mut LoggerConfig,
    b: &mut LoggerConfig,
    on: bool,
    x: &mut LoggerConfig,
    y: &mut LoggerConfig,
)
    requires
        call_ensures(LoggerConfig::new, (), start),
        call_ensures(LoggerConfig::write_info, (a, on), x),
        call_ensures(LoggerConfig::flush, (b, on), y),
    ensures
        start.writes_info() && !start.flushes(),
        old(x).writes_info() == on && old(x).flushes() == old(a).flushes(),
        old(y).flushes() == on && old(y).writes_info() == old(b).writes_info(),
        *final(a) == *final(x),
        *final(b) == *final(y),
{
}

/// A line of the log begins with the time and ends with the message; between them stand the level and where
/// the message came from, and different levels have different names.
pub proof fn line_tells_time_level_and_message(
    time: &str,
    level: LogLevel,
    target: &str,
    message: &str,
    r: String,
    other: LogLevel,
    enabled: bool,
)
    requires
        call_ensures(log_line, (time, level, target, message), r),
        call_ensures(LogLevel::enabled, (level,), enabled),
    ensures
        r@ == time@ + seq![' ', '['] + level.name() + seq!['/'] + target@ + seq![']', ' '] + message@,
        level.name() == other.name() ==> level == other,
        enabled <==> level != LogLevel::Trace,
{
    reveal_strlit(" [");
    reveal_strlit("/");
    reveal_strlit("] ");
    reveal_strlit("error");
    reveal_strlit("warn");
    reveal_strlit("info");
    reveal_strlit("debug");
    reveal_strlit("trace");
    assert(" ["@ =~= seq![' ', '[']);
    assert("/"@ =~= seq!['/']);
    assert("] "@ =~= seq![']', ' ']);
    assert("error"@[0] == 'e' && "warn"@[0] == 'w' && "info"@[0] == 'i' && "debug"@[0] == 'd' && "trace"@[0]
        == 't');
}

/// The first line of a new file never makes it way for another, and is counted in the file that it goes to.
pub proof fn first_line_is_counted(
    start: LogLines,
    lines: &mut LogLines,
    level: LogLevel,
    config: &LoggerConfig,
    r: LogRoute,
)
    requires
        call_ensures(LogLines::new, (), start),
        *old(lines) == start,
        call_ensures(LogLines::route, (lines, level, config), r),
    ensures
        !r.rotate,
        final(lines).err() + final(lines).out() == if r.to_file {
            1nat
        } else {
            0
        },
        r.to_stderr ==> final(lines).err() == 1,
{
}

} // verus!
