use vstd::prelude::*;

verus! {

/// The ways in which parsing terminal output can fail. A variant that names
/// a control function carries the parameter bytes that it could not read.
#[derive(Debug, Clone, PartialEq, Eq)]
pub enum ParserFailures {
    /// A sub-parser received a byte after it had already finished.
    ParsedPushedToOnceFinished,
    /// An escape sequence started with a byte that no sequence starts with.
    UnhandledInnerEscape(u8),
    /// A parameter of a control sequence is not a number.
    InvalidParameter(Vec<u8>),
    /// Cursor Horizontal Absolute (`ESC [ Pn G`).
    UnhandledCHACommand(Vec<u8>),
    /// Cursor Up (`ESC [ Pn A`).
    UnhandledCUUCommand(Vec<u8>),
    /// Cursor Backward (`ESC [ Pn D`).
    UnhandledCUBCommand(Vec<u8>),
    /// Cursor Down (`ESC [ Pn B`).
    UnhandledCUDCommand(Vec<u8>),
    /// Cursor Forward (`ESC [ Pn C`).
    UnhandledCUFCommand(Vec<u8>),
    /// Cursor Position (`ESC [ Pn ; Pn H`).
    UnhandledCUPCommand(Vec<u8>),
    /// Delete Character (`ESC [ Pn P`).
    UnhandledDCHCommand(Vec<u8>),
    /// Erase in Display (`ESC [ Pn J`).
    UnhandledEDCommand(Vec<u8>),
    /// Erase in Line (`ESC [ Pn K`).
    UnhandledELCommand(Vec<u8>),
    /// Insert Line (`ESC [ Pn L`).
    UnhandledILCommand(Vec<u8>),
    /// Select Graphic Rendition (`ESC [ Pn ; ... m`).
    UnhandledSGRCommand(Vec<u8>),
    /// Insert Character (`ESC [ Pn @`).
    UnhandledICHCommand(Vec<u8>),
    /// A multi-byte terminal character is empty or not valid UTF-8.
    InvalidTChar(Vec<u8>),
}

/// The lines that report the sources of an error, nearest first, each
/// after a line break.
pub open spec fn source_lines(sources: Seq<Seq<char>>) -> Seq<char>
    decreases sources.len(),
{
    if sources.len() == 0 {
        Seq::empty()
    } else {
        source_lines(sources.drop_last()) + "\n"@ + sources.last()
    }
}

/// How an error is reported with the chain of its sources: the error's own
/// message; then, where it has sources, a line `Caused by:` and each
/// source's message on a line of its own.
pub open spec fn error_chain_text(message: Seq<char>, sources: Seq<Seq<char>>) -> Seq<char> {
    if sources.len() == 0 {
        message
    } else {
        message + "\nCaused by:"@ + source_lines(sources)
    }
}

/// Reports an error with the messages of its sources, nearest first (see
/// [`error_chain_text`]).
pub fn format_error_chain(message: &str, sources: &Vec<String>) -> (r: String)
    ensures
        r@ == error_chain_text(message@, sources@.map_values(|s: String| s@)),
{
    let ghost views = sources@.map_values(|s: String| s@);
    let mut r = String::from_str(message);
    if sources.len() == 0 {
        return r;
    }
    r.append("\nCaused by:");
    let ghost head = r@;
    let mut i: usize = 0;
    proof {
        assert(views.take(0) =~= Seq::<Seq<char>>::empty());
        assert(r@ =~= head + source_lines(views.take(0)));
    }
    while i < sources.len()
        invariant
            i <= sources@.len(),
            views == sources@.map_values(|s: String| s@),
            r@ == head + source_lines(views.take(i as int)),
        decreases sources@.len() - i,
    {
        r.append("\n");
        r.append(sources[i].as_str());
        proof {
            assert(views.take(i + 1).drop_last() =~= views.take(i as int));
            assert(r@ =~= head + source_lines(views.take(i + 1)));
        }
        i += 1;
    }
    proof {
        assert(views.take(sources@.len() as int) =~= views);
    }
    r
}

} // verus!
