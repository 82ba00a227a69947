use vstd::prelude::*;

verus! {

/// The command line options.
#[derive(Debug, Clone, PartialEq, Eq)]
pub struct Args {
    /// Where to write a recording of the session, when given.
    pub recording: Option<String>,
    /// The shell to run, when given.
    pub shell: Option<String>,
}

/// Something that reading the command line has to tell the user, in the
/// order it comes up.
#[derive(Debug, Clone, PartialEq, Eq)]
pub enum ArgsNotice {
    /// An option that needs a value came last, without one.
    MissingArgument(String),
    /// An argument that is no option.
    InvalidArgument(String),
    /// The usage text (see [`Args::help_text`]).
    Help,
}

/// The command line holds an argument that is no option, or an option
/// without its value.
#[derive(Debug, Clone, Copy, PartialEq, Eq, Structural)]
pub enum ArgsError {
    InvalidArguments,
}

/// The mathematical value of an [`ArgsNotice`].
pub ghost enum NoticeModel {
    MissingArgument(Seq<char>),
    InvalidArgument(Seq<char>),
    Help,
}

impl DeepView for ArgsNotice {
    type V = NoticeModel;

    open spec fn deep_view(&self) -> NoticeModel {
        match self {
            ArgsNotice::MissingArgument(s) => NoticeModel::MissingArgument(s@),
            ArgsNotice::InvalidArgument(s) => NoticeModel::InvalidArgument(s@),
            ArgsNotice::Help => NoticeModel::Help,
        }
    }
}

/// Where reading the command line stands: the values found so far, whether
/// anything was wrong, and what the user is to be told.
pub ghost struct ArgsScan {
    pub recording: Option<Seq<char>>,
    pub shell: Option<Seq<char>>,
    pub error: bool,
    pub notices: Seq<NoticeModel>,
}

/// The scan before any option.
pub open spec fn scan_start() -> ArgsScan {
    ArgsScan { recording: None, shell: None, error: false, notices: Seq::empty() }
}

/// An option that needs a value came without one: the value is dropped, and
/// the user is told, with the usage text.
pub open spec fn scan_missing(st: ArgsScan, flag: Seq<char>) -> ArgsScan {
    ArgsScan {
        error: true,
        notices: st.notices.push(NoticeModel::MissingArgument(flag)).push(NoticeModel::Help),
        ..st
    }
}

/// Reading the arguments from position `i` on: `--recording-path` and
/// `--shell` take the next argument as their value (a later one wins),
/// `--help` asks for the usage text, and anything else is an error.
pub open spec fn scan_from(a: Seq<Seq<char>>, i: int, st: ArgsScan) -> ArgsScan
    decreases a.len() - i,
{
    if i < 0 || i >= a.len() {
        st
    } else {
        let arg = a[i];
        if arg == "--recording-path"@ {
            if i + 1 < a.len() {
                scan_from(a, i + 2, ArgsScan { recording: Some(a[i + 1]), ..st })
            } else {
                scan_from(a, i + 1, ArgsScan { recording: None, ..scan_missing(st, arg) })
            }
        } else if arg == "--shell"@ {
            if i + 1 < a.len() {
                scan_from(a, i + 2, ArgsScan { shell: Some(a[i + 1]), ..st })
            } else {
                scan_from(a, i + 1, ArgsScan { shell: None, ..scan_missing(st, arg) })
            }
        } else if arg == "--help"@ {
            scan_from(a, i + 1, ArgsScan { notices: st.notices.push(NoticeModel::Help), ..st })
        } else {
            scan_from(
                a,
                i + 1,
                ArgsScan {
                    error: true,
                    notices: st.notices.push(NoticeModel::InvalidArgument(arg)).push(
                        NoticeModel::Help,
                    ),
                    ..st
                },
            )
        }
    }
}

/// The whole command line read: the first argument names the program and is
/// skipped.
pub open spec fn scan_args(a: Seq<Seq<char>>) -> ArgsScan {
    scan_from(a, 1, scan_start())
}

/// The usage text, for a program of the given name.
pub open spec fn help_text(program_name: Seq<char>) -> Seq<char> {
    "Usage:\n"@ + program_name
        + " [ARGS]\n\nArgs:\n--recording-path: Optional, where to output recordings to\n--shell: Optional, shell to run\n--help: Show this help message\n"@
}

/// Whether `arg` is the text `flag`.
fn is_flag(arg: &String, flag: &str) -> (r: bool)
    ensures
        r == (arg@ == flag@),
{
    let f = flag.to_owned();
    *arg == f
}

impl Args {
    /// Reads the command line (see [`scan_args`]): the options, or an error
    /// when one was wrong, and what the user is to be told either way.
    pub fn parse(args: Vec<String>) -> (r: (Result<Args, ArgsError>, Vec<ArgsNotice>))
        ensures
            ({
                let st = scan_args(args.deep_view());
                &&& r.1.deep_view() == st.notices
                &&& st.error ==> r.0 == Err::<Args, ArgsError>(ArgsError::InvalidArguments)
                &&& !st.error ==> (r.0 matches Ok(a) && a.recording.deep_view() == st.recording
                    && a.shell.deep_view() == st.shell)
            }),
    {
        let ghost a = args.deep_view();
        let mut recording: Option<String> = None;
        let mut shell: Option<String> = None;
        let mut error = false;
        let mut notices: Vec<ArgsNotice> = Vec::new();
        let mut i: usize = 1;
        proof {
            assert(notices.deep_view() =~= Seq::<NoticeModel>::empty());
        }
        while i < args.len()
            invariant
                1 <= i,
                a == args.deep_view(),
                a.len() == args@.len(),
                scan_from(
                    a,
                    i as int,
                    ArgsScan {
                        recording: recording.deep_view(),
                        shell: shell.deep_view(),
                        error,
                        notices: notices.deep_view(),
                    },
                ) == scan_args(a),
            decreases args@.len() - i,
        {
            let ghost st = ArgsScan {
                recording: recording.deep_view(),
                shell: shell.deep_view(),
                error,
                notices: notices.deep_view(),
            };
            let arg = &args[i];
            assert(arg@ == a[i as int]);
            let ghost n0 = notices.deep_view();
            if is_flag(arg, "--recording-path") {
                if i + 1 < args.len() {
                    recording = Some(args[i + 1].clone());
                    assert(recording.deep_view() == Some(a[i + 1]));
                    i = i + 2;
                } else {
                    recording = None;
                    error = true;
                    notices.push(ArgsNotice::MissingArgument(arg.clone()));
                    notices.push(ArgsNotice::Help);
                    assert(notices.deep_view() =~= n0.push(NoticeModel::MissingArgument(a[i as int])).push(
                        NoticeModel::Help,
                    ));
                    i = i + 1;
                }
            } else if is_flag(arg, "--shell") {
                if i + 1 < args.len() {
                    shell = Some(args[i + 1].clone());
                    assert(shell.deep_view() == Some(a[i + 1]));
                    i = i + 2;
                } else {
                    shell = None;
                    error = true;
                    notices.push(ArgsNotice::MissingArgument(arg.clone()));
                    notices.push(ArgsNotice::Help);
                    assert(notices.deep_view() =~= n0.push(NoticeModel::MissingArgument(a[i as int])).push(
                        NoticeModel::Help,
                    ));
                    i = i + 1;
                }
            } else if is_flag(arg, "--help") {
                notices.push(ArgsNotice::Help);
                assert(notices.deep_view() =~= n0.push(NoticeModel::Help));
                i = i + 1;
            } else {
                error = true;
                notices.push(ArgsNotice::InvalidArgument(arg.clone()));
                notices.push(ArgsNotice::Help);
                assert(notices.deep_view() =~= n0.push(NoticeModel::InvalidArgument(a[i as int])).push(
                    NoticeModel::Help,
                ));
                i = i + 1;
            }
        }
        let result = if error {
            Err(ArgsError::InvalidArguments)
        } else {
            Ok(Args { recording, shell })
        };
        (result, notices)
    }

    /// The usage text (see [`help_text`]); a program without a name is
    /// called `freminal`.
    pub fn help_text(program_name: Option<&str>) -> (r: String)
        ensures
            r@ == help_text(
                match program_name {
                    Some(n) => n@,
                    None => "freminal"@,
                },
            ),
    {
        let mut s = String::from_str("Usage:\n");
        match program_name {
            Some(n) => s.append(n),
            None => s.append("freminal"),
        }
        s.append(
            " [ARGS]\n\nArgs:\n--recording-path: Optional, where to output recordings to\n--shell: Optional, shell to run\n--help: Show this help message\n",
        );
        s
    }
}

} // verus!
