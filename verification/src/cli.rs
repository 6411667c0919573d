//! Command-line settings: what to do and how to print it.

use vstd::prelude::*;
use crate::text::{chars_of, push_char};
use crate::toplevel::opt_chars;

verus! {

/// What the tool does once it is connected.
#[derive(Clone, Copy, Debug, PartialEq, Eq, Structural)]
pub enum Mode {
    List,
    Watch,
    VerboseWatch,
    Repl,
}

/// How a listing is printed.
#[derive(Clone, Copy, Debug, PartialEq, Eq, Structural)]
pub enum OutputFormat {
    Normal,
    Json,
    Custom,
}

impl Default for Mode {
    fn default() -> (r: Mode)
        ensures
            r == Mode::List,
    {
        Mode::List
    }
}

impl Default for OutputFormat {
    fn default() -> (r: OutputFormat)
        ensures
            r == OutputFormat::Normal,
    {
        OutputFormat::Normal
    }
}

/// The command line: the flags as given, and the mode and output format
/// that they resolve to.
#[derive(Clone, Debug)]
pub struct Args {
    /// Output data in JSON format.
    pub json: bool,
    /// Run continuously and log title, identifier and app-id events.
    pub watch: bool,
    /// Like `watch`, but also log activated, fullscreen, minimized and
    /// maximized state.
    pub verbose_watch: bool,
    /// Enter interactive REPL mode.
    pub repl: bool,
    /// A custom line-based output format.
    pub custom: Option<String>,
    /// Use only the named protocol: wlr, treeland, ext, or a full protocol
    /// name.
    pub force_protocol: Option<String>,
    pub mode: Mode,
    pub output_format: OutputFormat,
    pub custom_format: Option<String>,
}

/// The characters that name fields of the custom format.
pub open spec fn is_custom_field(c: char) -> bool {
    c == 't' || c == 'a' || c == 'i' || c == 'A' || c == 'f' || c == 'm' || c == 'M'
}

/// Why a custom format was refused.
#[derive(Clone, Copy, Debug, PartialEq, Eq, Structural)]
pub enum CustomFormatError {
    /// The format names no field.
    Empty,
    /// The format holds a character that names no field.
    UnknownField(char),
}

/// The verdict on a custom format: accepted when it is not empty and every
/// character names a field; otherwise the first offending character.
pub open spec fn custom_format_verdict(fmt: Seq<char>) -> Result<(), CustomFormatError> {
    if fmt.len() == 0 {
        Err(CustomFormatError::Empty)
    } else if exists|i: int| 0 <= i < fmt.len() && !is_custom_field(fmt[i]) {
        let i = choose|i: int| 0 <= i < fmt.len() && !is_custom_field(fmt[i]) && forall|j: int| 0 <= j < i ==> is_custom_field(fmt[j]);
        Err(CustomFormatError::UnknownField(fmt[i]))
    } else {
        Ok(())
    }
}

/// Checks a custom format: it must name at least one field, and only the
/// fields `t`, `a`, `i`, `A`, `f`, `m` and `M`.
pub fn validate_custom_format(fmt: &str) -> (r: Result<(), CustomFormatError>)
    ensures
        r == custom_format_verdict(fmt@),
{
    let cs = chars_of(fmt);
    let n = cs.len();
    if n == 0 {
        return Err(CustomFormatError::Empty);
    }
    let mut i: usize = 0;
    while i < n
        invariant
            cs@ == fmt@,
            n == cs.len(),
            i <= n,
            forall|j: int| 0 <= j < i ==> is_custom_field(cs@[j]),
        decreases n - i,
    {
        let c = cs[i];
        if !(c == 't' || c == 'a' || c == 'i' || c == 'A' || c == 'f' || c == 'm' || c == 'M') {
            proof {
                let k = choose|k: int| 0 <= k < fmt@.len() && !is_custom_field(fmt@[k]) && forall|j: int| 0 <= j < k ==> is_custom_field(fmt@[j]);
                assert(k == i) by {
                    if k < i {
                        assert(is_custom_field(cs@[k]));
                    } else if k > i {
                        assert(is_custom_field(fmt@[i as int]));
                    }
                }
            }
            return Err(CustomFormatError::UnknownField(c));
        }
        i = i + 1;
    }
    Ok(())
}

proof fn lemma_first_unknown(f: Seq<char>, k: int)
    requires
        0 <= k < f.len(),
        !is_custom_field(f[k]),
    ensures
        exists|i: int| 0 <= i < f.len() && !is_custom_field(f[i]) && forall|j: int| 0 <= j < i ==> is_custom_field(f[j]),
    decreases k,
{
    if exists|j: int| 0 <= j < k && !is_custom_field(f[j]) {
        let j = choose|j: int| 0 <= j < k && !is_custom_field(f[j]);
        lemma_first_unknown(f, j);
    } else {
        assert(forall|j: int| 0 <= j < k ==> is_custom_field(f[j]));
    }
}

/// A custom format is accepted exactly when it names at least one field
/// and every character names a field; a refused one that is not empty is
/// refused for a character of it that names no field.
pub proof fn law_custom_format_accepted(f: Seq<char>)
    ensures
        custom_format_verdict(f) is Ok <==> (f.len() > 0 && forall|i: int| 0 <= i < f.len() ==> is_custom_field(f[i])),
        custom_format_verdict(f) == Err::<(), CustomFormatError>(CustomFormatError::Empty) <==> f.len() == 0,
        custom_format_verdict(f) matches Err(CustomFormatError::UnknownField(c)) ==> f.contains(c) && !is_custom_field(c),
{
    if f.len() > 0 && exists|i: int| 0 <= i < f.len() && !is_custom_field(f[i]) {
        let k = choose|i: int| 0 <= i < f.len() && !is_custom_field(f[i]);
        lemma_first_unknown(f, k);
        let i = choose|i: int| 0 <= i < f.len() && !is_custom_field(f[i]) && forall|j: int| 0 <= j < i ==> is_custom_field(f[j]);
        assert(f[i] == f[i]);
    }
}

/// The lines reported for a refused custom format, the last one saying
/// that the format is invalid.
pub open spec fn custom_format_error_lines(e: CustomFormatError) -> Seq<Seq<char>> {
    match e {
        CustomFormatError::Empty => seq![
            "ERROR: Invalid custom format: Requires at least one field."@,
            "ERROR: Invalid custom format"@,
        ],
        CustomFormatError::UnknownField(c) => seq![
            "ERROR: Invalid custom format: Unknown field name: '"@ + seq![c] + "'."@,
            "INFO:  Supported field names:"@,
            "\tt: title"@,
            "\ta: app-id"@,
            "\ti: identifier"@,
            "\tA: activated?"@,
            "\tf: fullscreen?"@,
            "\tm: minimized?"@,
            "\tM: maximized?"@,
            "ERROR: Invalid custom format"@,
        ],
    }
}

/// The characters of each string in a sequence of lines.
pub open spec fn lines_view(v: Seq<String>) -> Seq<Seq<char>> {
    v.map_values(|s: String| s@)
}

/// Appends a line holding a copy of `s`.
pub fn push_line(lines: &mut Vec<String>, s: &str)
    ensures
        lines_view(final(lines)@) == lines_view(old(lines)@).push(s@),
{
    lines.push(s.to_owned());
    assert(lines_view(lines@) =~= lines_view(old(lines)@).push(s@));
}

/// Appends a line.
pub fn push_owned_line(lines: &mut Vec<String>, s: String)
    ensures
        lines_view(final(lines)@) == lines_view(old(lines)@).push(s@),
{
    let ghost v = s@;
    lines.push(s);
    assert(lines_view(lines@) =~= lines_view(old(lines)@).push(v));
}

impl CustomFormatError {
    /// The lines to report for this error.
    pub fn message_lines(&self) -> (r: Vec<String>)
        ensures
            lines_view(r@) == custom_format_error_lines(*self),
    {
        let mut lines: Vec<String> = Vec::new();
        match self {
            CustomFormatError::Empty => {
                push_line(&mut lines, "ERROR: Invalid custom format: Requires at least one field.");
            },
            CustomFormatError::UnknownField(c) => {
                let mut first = String::new();
                first.append("ERROR: Invalid custom format: Unknown field name: '");
                push_char(&mut first, *c);
                first.append("'.");
                assert(first@ =~= "ERROR: Invalid custom format: Unknown field name: '"@ + seq![*c] + "'."@);
                push_owned_line(&mut lines, first);
                push_line(&mut lines, "INFO:  Supported field names:");
                push_line(&mut lines, "\tt: title");
                push_line(&mut lines, "\ta: app-id");
                push_line(&mut lines, "\ti: identifier");
                push_line(&mut lines, "\tA: activated?");
                push_line(&mut lines, "\tf: fullscreen?");
                push_line(&mut lines, "\tm: minimized?");
                push_line(&mut lines, "\tM: maximized?");
            },
        }
        push_line(&mut lines, "ERROR: Invalid custom format");
        proof {
            assert(lines_view(lines@) =~= custom_format_error_lines(*self));
        }
        lines
    }
}

/// The mode that the flags select: REPL over verbose watch over watch
/// over listing.
pub open spec fn mode_of(repl: bool, verbose_watch: bool, watch: bool) -> Mode {
    if repl {
        Mode::Repl
    } else if verbose_watch {
        Mode::VerboseWatch
    } else if watch {
        Mode::Watch
    } else {
        Mode::List
    }
}

/// The output format that the flags select: a custom format over JSON
/// over the normal listing.
pub open spec fn format_of(custom: Option<Seq<char>>, json: bool) -> OutputFormat {
    if custom is Some {
        OutputFormat::Custom
    } else if json {
        OutputFormat::Json
    } else {
        OutputFormat::Normal
    }
}

/// How the flags choose the mode: `--repl` wins over everything;
/// otherwise `--verbose-watch` alone gives verbose watching, with or
/// without `--watch`; otherwise `--watch` gives watching; and with none of
/// them the toplevels are listed once.
pub proof fn law_mode_flags(verbose_watch: bool, watch: bool)
    ensures
        mode_of(true, verbose_watch, watch) == Mode::Repl,
        mode_of(false, true, watch) == Mode::VerboseWatch,
        mode_of(false, false, true) == Mode::Watch,
        mode_of(false, false, false) == Mode::List,
{
}

/// How the flags choose the output format: a custom format wins over
/// `--json`, which wins over the normal listing.
pub proof fn law_format_flags(custom: Option<Seq<char>>, json: bool)
    ensures
        custom is Some ==> format_of(custom, json) == OutputFormat::Custom,
        custom is None && json ==> format_of(custom, json) == OutputFormat::Json,
        custom is None && !json ==> format_of(custom, json) == OutputFormat::Normal,
{
}

impl Args {
    /// Resolves the flags as parsed from the command line into the mode
    /// and the output format. A custom format that is refused is an error.
    pub fn parse_args(args: Args) -> (r: Result<Args, CustomFormatError>)
        ensures
            match opt_chars(args.custom) {
                Some(f) => match custom_format_verdict(f) {
                    Err(e) => r == Err::<Args, CustomFormatError>(e),
                    Ok(_) => r is Ok,
                },
                None => r is Ok,
            },
            r matches Ok(a) ==> {
                &&& a.json == args.json
                &&& a.watch == args.watch
                &&& a.verbose_watch == args.verbose_watch
                &&& a.repl == args.repl
                &&& opt_chars(a.custom) == opt_chars(args.custom)
                &&& opt_chars(a.force_protocol) == opt_chars(args.force_protocol)
                &&& a.mode == mode_of(args.repl, args.verbose_watch, args.watch)
                &&& a.output_format == format_of(opt_chars(args.custom), args.json)
                &&& opt_chars(a.custom_format) == opt_chars(args.custom)
            },
    {
        let mut args = args;
        args.mode = if args.repl {
            Mode::Repl
        } else if args.verbose_watch {
            Mode::VerboseWatch
        } else if args.watch {
            Mode::Watch
        } else {
            Mode::List
        };
        let custom = match &args.custom {
            Some(f) => Some(f.clone()),
            None => None,
        };
        match custom {
            Some(f) => {
                match validate_custom_format(f.as_str()) {
                    Err(e) => {
                        return Err(e);
                    },
                    Ok(()) => {},
                }
                args.output_format = OutputFormat::Custom;
                args.custom_format = Some(f);
            },
            None => {
                if args.json {
                    args.output_format = OutputFormat::Json;
                } else {
                    args.output_format = OutputFormat::Normal;
                }
                args.custom_format = None;
            },
        }
        Ok(args)
    }
}

} // verus!
