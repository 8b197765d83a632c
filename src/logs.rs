//! Logging settings and the per-request log buffers: the messages of one
//! request are held together and written out as one block when it ends, to
//! the error sink if any of them was an error.
use crate::text::{chars_of, lower, parse_unsigned, string_of};
use std::collections::HashMap;
use vstd::prelude::*;

verus! {

broadcast use vstd::std_specs::hash::group_hash_axioms;

/// A log verbosity level.
#[derive(PartialEq, Eq, Structural, Clone, Copy, Debug)]
pub enum LogLevel {
    Trace,
    Debug,
    Info,
    Warn,
    Error,
}

/// How often log files are rotated.
#[derive(PartialEq, Eq, Structural, Clone, Copy, Debug)]
pub enum RollingRotation {
    Hourly,
    Daily,
    Weekly,
    Monthly,
    Never,
}

/// The `[log]` settings.
#[derive(PartialEq, Eq, Clone, Debug)]
pub struct Log {
    pub level: LogLevel,
    pub dir: Option<String>,
    pub max_files: Option<usize>,
    pub rotation: RollingRotation,
}

/// The level a text names, as `tracing::Level`'s `FromStr` reads it: a
/// number 1 to 5 (error to trace), or a level name in any ASCII case.
pub open spec fn level_of(s: Seq<char>) -> Option<LogLevel> {
    match parse_unsigned(s, 10, usize::MAX as nat) {
        Some(n) if 1 <= n <= 5 => Some(
            if n == 1 {
                LogLevel::Error
            } else if n == 2 {
                LogLevel::Warn
            } else if n == 3 {
                LogLevel::Info
            } else if n == 4 {
                LogLevel::Debug
            } else {
                LogLevel::Trace
            },
        ),
        _ => if lower(s) == seq!['e', 'r', 'r', 'o', 'r'] {
            Some(LogLevel::Error)
        } else if lower(s) == seq!['w', 'a', 'r', 'n'] {
            Some(LogLevel::Warn)
        } else if lower(s) == seq!['i', 'n', 'f', 'o'] {
            Some(LogLevel::Info)
        } else if lower(s) == seq!['d', 'e', 'b', 'u', 'g'] {
            Some(LogLevel::Debug)
        } else if lower(s) == seq!['t', 'r', 'a', 'c', 'e'] {
            Some(LogLevel::Trace)
        } else {
            None
        },
    }
}

/// Relies on `tracing::Level`'s `FromStr`.
#[verifier::external_body]
pub(crate) fn parse_level(s: &str) -> (r: Option<LogLevel>)
    ensures
        r == level_of(s@),
{
    <tracing::Level as std::str::FromStr>::from_str(s).ok().map(|l| match l {
        tracing::Level::ERROR => LogLevel::Error,
        tracing::Level::WARN => LogLevel::Warn,
        tracing::Level::INFO => LogLevel::Info,
        tracing::Level::DEBUG => LogLevel::Debug,
        _ => LogLevel::Trace,
    })
}

/// Which parts of an event a log line shows.
#[derive(PartialEq, Eq, Structural, Clone, Copy, Debug)]
pub struct FormatterArgs {
    pub ansi: bool,
    pub display_target: bool,
    pub display_filename: bool,
    pub display_line_number: bool,
    pub display_level: bool,
    pub display_scope: bool,
}

/// The buffered messages of each open request span, with whether any of
/// them was an error.
pub struct LogPools {
    pools: HashMap<u64, (Vec<String>, bool)>,
}

impl LogPools {
    /// The buffers by span id.
    pub closed spec fn view(&self) -> Map<u64, (Seq<String>, bool)> {
        self.pools@.map_values(|e: (Vec<String>, bool)| (e.0@, e.1))
    }

    /// No open span.
    pub fn new() -> (r: Self)
        ensures
            r.view() == Map::<u64, (Seq<String>, bool)>::empty(),
    {
        let r = LogPools { pools: HashMap::new() };
        assert(r.view() =~= Map::<u64, (Seq<String>, bool)>::empty());
        r
    }

    /// A span opened: it gets an empty buffer unless it has one.
    pub fn on_new_span(&mut self, id: u64)
        ensures
            final(self).view() == if old(self).view().contains_key(id) {
                old(self).view()
            } else {
                old(self).view().insert(id, (Seq::empty(), false))
            },
    {
        if !self.pools.contains_key(&id) {
            self.pools.insert(id, (Vec::new(), false));
            assert(self.view() =~= old(self).view().insert(id, (Seq::empty(), false)));
        }
    }

    /// An event inside span `id`: its message joins the span's buffer, and
    /// an error marks the buffer. Events outside known spans are dropped.
    pub fn on_event(&mut self, id: u64, is_error: bool, message: String)
        ensures
            final(self).view() == if old(self).view().contains_key(id) {
                old(self).view().insert(
                    id,
                    (old(self).view()[id].0.push(message), old(self).view()[id].1 || is_error),
                )
            } else {
                old(self).view()
            },
    {
        match self.pools.remove(&id) {
            Some((mut messages, flagged)) => {
                messages.push(message);
                self.pools.insert(id, (messages, flagged || is_error));
                assert(self.view() =~= old(self).view().insert(
                    id,
                    (old(self).view()[id].0.push(message), old(self).view()[id].1 || is_error),
                ));
            },
            None => {
                assert(self.view() =~= old(self).view());
            },
        }
    }

    /// Span `id` closed: its buffer leaves, with whether it goes to the error sink.
    pub fn on_close(&mut self, id: u64) -> (r: Option<(Vec<String>, bool)>)
        ensures
            match r {
                Some(e) => old(self).view().contains_key(id) && (e.0@, e.1) == old(self).view()[id],
                None => !old(self).view().contains_key(id),
            },
            final(self).view() == old(self).view().remove(id),
    {
        let r = self.pools.remove(&id);
        assert(self.view() =~= old(self).view().remove(id));
        r
    }
}

/// A message as written: followed by a newline unless it ends with one.
pub open spec fn line_of(m: Seq<char>) -> Seq<char> {
    if m.len() > 0 && m.last() == '\n' {
        m
    } else {
        m.push('\n')
    }
}

/// The messages as written, one after the other.
pub open spec fn block_of(ms: Seq<String>) -> Seq<char>
    decreases ms.len(),
{
    if ms.len() == 0 {
        Seq::empty()
    } else {
        block_of(ms.drop_last()) + line_of(ms.last()@)
    }
}

/// The bytes a span's buffer is written as: each message on its own line.
pub fn write_messages(messages: &Vec<String>) -> (r: Vec<u8>)
    ensures
        r@ == vstd::utf8::encode_utf8(block_of(messages@)),
{
    let mut text: Vec<char> = Vec::new();
    let mut i: usize = 0;
    while i < messages.len()
        invariant
            i <= messages@.len(),
            text@ == block_of(messages@.take(i as int)),
        decreases messages@.len() - i,
    {
        assert(messages@.take(i as int + 1).drop_last() =~= messages@.take(i as int));
        let mut m = chars_of(messages[i].as_str());
        if !(m.len() > 0 && m[m.len() - 1] == '\n') {
            m.push('\n');
        }
        text.append(&mut m);
        i = i + 1;
    }
    assert(messages@.take(messages@.len() as int) =~= messages@);
    let s = string_of(text.as_slice());
    s.as_str().as_bytes_vec()
}

/// The layer that keeps each request's log lines together: how lines are
/// formatted, and the open spans' buffers.
pub struct SequentialLogLayer {
    pub fmt_args: FormatterArgs,
    pub logs: LogPools,
}

impl SequentialLogLayer {
    /// A layer that shows level and scope, not target, file or line, with
    /// colours as given.
    pub fn new(ansi: bool) -> (r: Self)
        ensures
            r.fmt_args == (FormatterArgs {
                ansi,
                display_level: true,
                display_target: false,
                display_filename: false,
                display_line_number: false,
                display_scope: true,
            }),
            r.logs.view() == Map::<u64, (Seq<String>, bool)>::empty(),
    {
        SequentialLogLayer {
            fmt_args: FormatterArgs {
                ansi,
                display_level: true,
                display_target: false,
                display_filename: false,
                display_line_number: false,
                display_scope: true,
            },
            logs: LogPools::new(),
        }
    }

    /// The same layer with colours on or off.
    pub fn with_ansi(self, ansi: bool) -> (r: Self)
        ensures
            r.fmt_args == (FormatterArgs { ansi, ..self.fmt_args }),
            r.logs == self.logs,
    {
        SequentialLogLayer { fmt_args: FormatterArgs { ansi, ..self.fmt_args }, ..self }
    }

    /// The same layer showing the event target or not.
    pub fn with_target(self, display_target: bool) -> (r: Self)
        ensures
            r.fmt_args == (FormatterArgs { display_target, ..self.fmt_args }),
            r.logs == self.logs,
    {
        SequentialLogLayer { fmt_args: FormatterArgs { display_target, ..self.fmt_args }, ..self }
    }

    /// The same layer showing the source file or not.
    pub fn with_file(self, display_filename: bool) -> (r: Self)
        ensures
            r.fmt_args == (FormatterArgs { display_filename, ..self.fmt_args }),
            r.logs == self.logs,
    {
        SequentialLogLayer { fmt_args: FormatterArgs { display_filename, ..self.fmt_args }, ..self }
    }

    /// The same layer showing the span scope or not.
    pub fn with_scope(self, display_scope: bool) -> (r: Self)
        ensures
            r.fmt_args == (FormatterArgs { display_scope, ..self.fmt_args }),
            r.logs == self.logs,
    {
        SequentialLogLayer { fmt_args: FormatterArgs { display_scope, ..self.fmt_args }, ..self }
    }

    /// The same layer showing the source line or not.
    pub fn with_line_number(self, display_line_number: bool) -> (r: Self)
        ensures
            r.fmt_args == (FormatterArgs { display_line_number, ..self.fmt_args }),
            r.logs == self.logs,
    {
        SequentialLogLayer { fmt_args: FormatterArgs { display_line_number, ..self.fmt_args }, ..self }
    }
}

/// A new sequential layer with colours as given.
pub fn layer(ansi: bool) -> (r: SequentialLogLayer)
    ensures
        r.fmt_args.ansi == ansi,
        r.fmt_args.display_level && r.fmt_args.display_scope,
        !r.fmt_args.display_target && !r.fmt_args.display_filename && !r.fmt_args.display_line_number,
        r.logs.view() == Map::<u64, (Seq<String>, bool)>::empty(),
{
    SequentialLogLayer::new(ansi)
}

} // verus!
