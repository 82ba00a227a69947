use vstd::prelude::*;

verus! {

/// How much a log message matters, from least to most.
#[derive(Copy, Clone, Debug, PartialEq, Eq, PartialOrd, Ord, Structural)]
pub enum Level {
    Debug,
    Info,
    Warn,
    Error,
    Trace,
}

/// The level that a lower-case name selects.
pub open spec fn level_of_name(name: Seq<char>) -> Option<Level> {
    if name == "debug"@ {
        Some(Level::Debug)
    } else if name == "info"@ {
        Some(Level::Info)
    } else if name == "warn"@ {
        Some(Level::Warn)
    } else if name == "error"@ {
        Some(Level::Error)
    } else if name == "trace"@ {
        Some(Level::Trace)
    } else {
        None
    }
}

/// The colored tag that a log line starts with.
pub open spec fn level_tag(level: Level) -> Seq<char> {
    match level {
        Level::Debug => "\x1b[32;1mDEBUG\x1b[m"@,
        Level::Info => "\x1b[34;1m INFO\x1b[m"@,
        Level::Warn => "\x1b[33;1m WARN\x1b[m"@,
        Level::Error => "\x1b[91;1mERROR\x1b[m"@,
        Level::Trace => "\x1b[35;1mTRACE\x1b[m"@,
    }
}

/// What `str::to_lowercase` makes of a text.
pub uninterp spec fn lowercase_text(s: Seq<char>) -> Seq<char>;

/// Calls `str::to_lowercase`. The contract names the result only: which
/// characters Unicode lowercases, and into what, is left to the standard
/// library.
#[verifier::external_body]
fn to_lowercase(s: &str) -> (r: String)
    ensures
        r@ == lowercase_text(s@),
{
    s.to_lowercase()
}

/// Whether `s` is the text `name`.
fn text_is(s: &str, name: &str) -> (r: bool)
    ensures
        r == (s@ == name@),
{
    let a = s.to_owned();
    let b = name.to_owned();
    a == b
}

impl Level {
    /// The level that a name already in lower case selects: `debug`,
    /// `info`, `warn`, `error` or `trace`.
    pub fn from_lowercase_name(name: &str) -> (r: Result<Level, ()>)
        ensures
            r == match level_of_name(name@) {
                Some(l) => Ok::<Level, ()>(l),
                None => Err(()),
            },
    {
        if text_is(name, "debug") {
            Ok(Level::Debug)
        } else if text_is(name, "info") {
            Ok(Level::Info)
        } else if text_is(name, "warn") {
            Ok(Level::Warn)
        } else if text_is(name, "error") {
            Ok(Level::Error)
        } else if text_is(name, "trace") {
            Ok(Level::Trace)
        } else {
            Err(())
        }
    }

    /// The level that a name selects, whatever its case (see
    /// [`Level::from_lowercase_name`]).
    pub fn parse_name(s: &str) -> (r: Result<Level, ()>)
        ensures
            r == match level_of_name(lowercase_text(s@)) {
                Some(l) => Ok::<Level, ()>(l),
                None => Err(()),
            },
    {
        let lower = to_lowercase(s);
        Self::from_lowercase_name(lower.as_str())
    }

    /// The colored tag that a log line of this level starts with.
    pub fn log_str(self) -> (r: &'static str)
        ensures
            r@ == level_tag(self),
    {
        match self {
            Level::Debug => "\x1b[32;1mDEBUG\x1b[m",
            Level::Info => "\x1b[34;1m INFO\x1b[m",
            Level::Warn => "\x1b[33;1m WARN\x1b[m",
            Level::Error => "\x1b[91;1mERROR\x1b[m",
            Level::Trace => "\x1b[35;1mTRACE\x1b[m",
        }
    }
}

impl std::str::FromStr for Level {
    type Err = ();

    fn from_str(s: &str) -> (r: Result<Self, Self::Err>)
        ensures
            r == match level_of_name(lowercase_text(s@)) {
                Some(l) => Ok::<Level, ()>(l),
                None => Err(()),
            },
    {
        Self::parse_name(s)
    }
}

} // verus!
