//! The interactive mode: reading commands and describing toplevels.

use vstd::prelude::*;
use crate::cli::{lines_view, push_line, push_owned_line};
use crate::output::joined;
use crate::protocols::{index_of, lemma_index_of, position_of_id};
use crate::text::{bool_text, decimal, parse_usize, parsed_usize, push_bool, push_decimal, split_words, str_eq, trim, trimmed, words};
use crate::toplevel::{or_null, toplevels_view, Toplevel, ToplevelView};

verus! {

/// A command typed at the prompt.
#[derive(Debug)]
pub enum ReplCommand {
    /// Nothing but whitespace.
    Empty,
    /// `list` or `ls`.
    List,
    /// `list-json` or `lj`.
    ListJson,
    /// `help` or `h`.
    Help,
    /// `exit`, `quit` or `q`.
    Exit,
    /// `info` with a number.
    InfoById(usize),
    /// `info` with anything else, taken as an app-id.
    InfoByAppId(String),
    /// `info` alone.
    InfoUsage,
    /// `count`.
    Count,
    /// `protocol`.
    Protocol,
    /// Anything else; holds the trimmed line.
    Unknown(String),
}

/// The mathematical content of a [`ReplCommand`].
pub enum CommandModel {
    Empty,
    List,
    ListJson,
    Help,
    Exit,
    InfoById(usize),
    InfoByAppId(Seq<char>),
    InfoUsage,
    Count,
    Protocol,
    Unknown(Seq<char>),
}

impl View for ReplCommand {
    type V = CommandModel;

    open spec fn view(&self) -> CommandModel {
        match self {
            ReplCommand::Empty => CommandModel::Empty,
            ReplCommand::List => CommandModel::List,
            ReplCommand::ListJson => CommandModel::ListJson,
            ReplCommand::Help => CommandModel::Help,
            ReplCommand::Exit => CommandModel::Exit,
            ReplCommand::InfoById(n) => CommandModel::InfoById(*n),
            ReplCommand::InfoByAppId(s) => CommandModel::InfoByAppId(s@),
            ReplCommand::InfoUsage => CommandModel::InfoUsage,
            ReplCommand::Count => CommandModel::Count,
            ReplCommand::Protocol => CommandModel::Protocol,
            ReplCommand::Unknown(s) => CommandModel::Unknown(s@),
        }
    }
}

/// The command that a typed line denotes. The whole trimmed line names
/// the listing, help and exit commands; otherwise its first word decides.
pub open spec fn command_of(line: Seq<char>) -> CommandModel {
    let t = trimmed(line);
    let w = words(t);
    if t.len() == 0 {
        CommandModel::Empty
    } else if t == "list"@ || t == "ls"@ {
        CommandModel::List
    } else if t == "list-json"@ || t == "lj"@ {
        CommandModel::ListJson
    } else if t == "help"@ || t == "h"@ {
        CommandModel::Help
    } else if t == "exit"@ || t == "quit"@ || t == "q"@ {
        CommandModel::Exit
    } else if w.len() > 0 && w[0] == "info"@ {
        if w.len() > 1 {
            match parsed_usize(w[1]) {
                Some(n) => CommandModel::InfoById(n),
                None => CommandModel::InfoByAppId(w[1]),
            }
        } else {
            CommandModel::InfoUsage
        }
    } else if w.len() > 0 && w[0] == "count"@ {
        CommandModel::Count
    } else if w.len() > 0 && w[0] == "protocol"@ {
        CommandModel::Protocol
    } else {
        CommandModel::Unknown(t)
    }
}

/// Which words name which command: after trimming, an empty line is no
/// command, `list` and `ls` list, `list-json` and `lj` list as JSON,
/// `help` and `h` ask for help, and `exit`, `quit` and `q` end the session;
/// no other line names any of these.
pub proof fn law_command_words(line: Seq<char>)
    ensures
        (command_of(line) is Empty) == (trimmed(line).len() == 0),
        (command_of(line) is List) == (trimmed(line) == "list"@ || trimmed(line) == "ls"@),
        (command_of(line) is ListJson) == (trimmed(line) == "list-json"@ || trimmed(line) == "lj"@),
        (command_of(line) is Help) == (trimmed(line) == "help"@ || trimmed(line) == "h"@),
        (command_of(line) is Exit) == (trimmed(line) == "exit"@ || trimmed(line) == "quit"@ || trimmed(line) == "q"@),
{
    reveal_strlit("list");
    reveal_strlit("ls");
    reveal_strlit("list-json");
    reveal_strlit("lj");
    reveal_strlit("help");
    reveal_strlit("h");
    reveal_strlit("exit");
    reveal_strlit("quit");
    reveal_strlit("q");
    assert("list"@.len() == 4 && "list"@[0] == 'l');
    assert("ls"@.len() == 2 && "ls"@[1] == 's');
    assert("list-json"@.len() == 9);
    assert("lj"@.len() == 2 && "lj"@[1] == 'j');
    assert("help"@.len() == 4 && "help"@[0] == 'h');
    assert("h"@.len() == 1 && "h"@[0] == 'h');
    assert("exit"@.len() == 4 && "exit"@[0] == 'e');
    assert("quit"@.len() == 4 && "quit"@[0] == 'q');
    assert("q"@.len() == 1 && "q"@[0] == 'q');
}

/// Whether a trimmed line is one of the words that name a command alone.
pub open spec fn is_command_word(t: Seq<char>) -> bool {
    t == "list"@ || t == "ls"@ || t == "list-json"@ || t == "lj"@ || t == "help"@ || t == "h"@
        || t == "exit"@ || t == "quit"@ || t == "q"@
}

/// Any other line is read by its first word: `count` counts, `protocol`
/// names the protocol, and `info` looks a toplevel up by the number that
/// its second word gives, or else by that word as an app-id, and without a
/// second word asks how to use it. A line that starts with none of these
/// is unknown, and is kept as typed, trimmed.
pub proof fn law_command_first_word(line: Seq<char>)
    ensures
        ({
            let t = trimmed(line);
            let w = words(t);
            let c = command_of(line);
            t.len() > 0 && !is_command_word(t) ==> {
                &&& (w.len() > 0 && w[0] == "count"@) ==> c is Count
                &&& (w.len() > 0 && w[0] == "protocol"@) ==> c is Protocol
                &&& (w.len() == 1 && w[0] == "info"@) ==> c is InfoUsage
                &&& (w.len() > 1 && w[0] == "info"@) ==> c == match parsed_usize(w[1]) {
                    Some(n) => CommandModel::InfoById(n),
                    None => CommandModel::InfoByAppId(w[1]),
                }
                &&& !(w.len() > 0 && (w[0] == "count"@ || w[0] == "protocol"@ || w[0] == "info"@))
                    ==> c == CommandModel::Unknown(t)
            }
        }),
        (command_of(line) is Count) ==> words(trimmed(line)).len() > 0 && words(trimmed(line))[0] == "count"@,
        (command_of(line) is Protocol) ==> words(trimmed(line)).len() > 0 && words(trimmed(line))[0] == "protocol"@,
{
    reveal_strlit("count");
    reveal_strlit("protocol");
    reveal_strlit("info");
    assert("count"@.len() == 5 && "count"@[0] == 'c');
    assert("protocol"@.len() == 8 && "info"@.len() == 4 && "info"@[0] == 'i');
}

/// Reads a command from a typed line.
pub fn parse_command(line: &str) -> (r: ReplCommand)
    ensures
        r@ == command_of(line@),
{
    let t = trim(line);
    let ts = t.as_str();
    if t.as_str().is_empty() {
        return ReplCommand::Empty;
    }
    if str_eq(ts, "list") || str_eq(ts, "ls") {
        return ReplCommand::List;
    }
    if str_eq(ts, "list-json") || str_eq(ts, "lj") {
        return ReplCommand::ListJson;
    }
    if str_eq(ts, "help") || str_eq(ts, "h") {
        return ReplCommand::Help;
    }
    if str_eq(ts, "exit") || str_eq(ts, "quit") || str_eq(ts, "q") {
        return ReplCommand::Exit;
    }
    let parts = split_words(ts);
    proof {
        assert(parts@.len() == words(t@).len());
        if parts@.len() > 0 {
            assert(parts@[0]@ == words(t@)[0]);
        }
        if parts@.len() > 1 {
            assert(parts@[1]@ == words(t@)[1]);
        }
    }
    if parts.len() > 0 && str_eq(parts[0].as_str(), "info") {
        if parts.len() > 1 {
            match parse_usize(parts[1].as_str()) {
                Some(n) => ReplCommand::InfoById(n),
                None => ReplCommand::InfoByAppId(parts[1].clone()),
            }
        } else {
            ReplCommand::InfoUsage
        }
    } else if parts.len() > 0 && str_eq(parts[0].as_str(), "count") {
        ReplCommand::Count
    } else if parts.len() > 0 && str_eq(parts[0].as_str(), "protocol") {
        ReplCommand::Protocol
    } else {
        ReplCommand::Unknown(t)
    }
}

/// The lines that describe a toplevel.
pub open spec fn info_lines(t: ToplevelView) -> Seq<Seq<char>> {
    seq![
        "Toplevel #"@ + decimal(t.id as nat),
        "  Title:      "@ + or_null(t.title),
        "  App ID:     "@ + or_null(t.app_id),
        "  Identifier: "@ + or_null(t.identifier),
        "  State:"@,
        "    Maximized:  "@ + bool_text(t.state.maximized),
        "    Minimized:  "@ + bool_text(t.state.minimized),
        "    Activated:  "@ + bool_text(t.state.activated),
        "    Fullscreen: "@ + bool_text(t.state.fullscreen),
    ] + (if t.outputs.len() > 0 {
        seq!["  Outputs:    "@ + joined(t.outputs, ", "@)]
    } else {
        Seq::empty()
    })
}

/// The description of the first toplevel with the given id, or the
/// message that there is none.
pub open spec fn info_for_id(ts: Seq<ToplevelView>, id: usize) -> Result<Seq<Seq<char>>, Seq<char>> {
    let i = index_of(ts, id);
    if i == -1 {
        Err("Toplevel #"@ + decimal(id as nat) + " not found"@)
    } else {
        Ok(info_lines(ts[i]))
    }
}

/// The characters of the lines or of the message.
pub open spec fn report_view(r: Result<Vec<String>, String>) -> Result<Seq<Seq<char>>, Seq<char>> {
    match r {
        Ok(v) => Ok(lines_view(v@)),
        Err(e) => Err(e@),
    }
}

fn labelled(label: &str, value: &str) -> (r: String)
    ensures
        r@ == label@ + value@,
{
    let mut s = String::new();
    s.append(label);
    s.append(value);
    s
}

fn labelled_flag(label: &str, b: bool) -> (r: String)
    ensures
        r@ == label@ + bool_text(b),
{
    let mut s = String::new();
    s.append(label);
    push_bool(&mut s, b);
    s
}

/// Appends the lines that describe a toplevel.
fn push_info_lines(lines: &mut Vec<String>, t: &Toplevel)
    ensures
        lines_view(final(lines)@) == lines_view(old(lines)@) + info_lines(t@),
{
    let mut head = String::new();
    head.append("Toplevel #");
    push_decimal(&mut head, t.id);
    push_owned_line(lines, head);
    push_owned_line(lines, labelled("  Title:      ", t.title_str()));
    push_owned_line(lines, labelled("  App ID:     ", t.app_id_str()));
    push_owned_line(lines, labelled("  Identifier: ", t.identifier_str()));
    push_line(lines, "  State:");
    push_owned_line(lines, labelled_flag("    Maximized:  ", t.state.maximized));
    push_owned_line(lines, labelled_flag("    Minimized:  ", t.state.minimized));
    push_owned_line(lines, labelled_flag("    Activated:  ", t.state.activated));
    push_owned_line(lines, labelled_flag("    Fullscreen: ", t.state.fullscreen));
    if t.outputs.len() > 0 {
        let mut o = String::new();
        o.append("  Outputs:    ");
        crate::output::push_joined(&mut o, &t.outputs, ", ");
        push_owned_line(lines, o);
    }
    assert(lines_view(lines@) =~= lines_view(old(lines)@) + info_lines(t@));
}

/// Describes the first toplevel with the given id.
pub fn show_toplevel_info(toplevels: &[Toplevel], id: usize) -> (r: Result<Vec<String>, String>)
    ensures
        report_view(r) == info_for_id(toplevels_view(toplevels@), id),
{
    match position_of_id(toplevels, id) {
        Some(i) => {
            proof {
                lemma_index_of(toplevels_view(toplevels@), id);
            }
            let mut lines: Vec<String> = Vec::new();
            push_info_lines(&mut lines, &toplevels[i]);
            assert(lines_view(lines@) =~= info_lines(toplevels_view(toplevels@)[i as int]));
            Ok(lines)
        },
        None => {
            let mut m = String::new();
            m.append("Toplevel #");
            push_decimal(&mut m, id);
            m.append(" not found");
            Err(m)
        },
    }
}

/// The descriptions of the toplevels among `ts` whose app-id is `app_id`,
/// each followed by an empty line; each is described as the first toplevel
/// of `all` with its id.
pub open spec fn app_id_lines(ts: Seq<ToplevelView>, all: Seq<ToplevelView>, app_id: Seq<char>) -> Seq<Seq<char>>
    decreases ts.len(),
{
    if ts.len() == 0 {
        Seq::empty()
    } else {
        app_id_lines(ts.drop_last(), all, app_id) + (if ts.last().app_id == Some(app_id) {
            info_lines(all[index_of(all, ts.last().id)]) + seq![Seq::<char>::empty()]
        } else {
            Seq::empty()
        })
    }
}

/// The descriptions of the toplevels with the given app-id, or the
/// message that there is none.
pub open spec fn info_for_app_id(ts: Seq<ToplevelView>, app_id: Seq<char>) -> Result<Seq<Seq<char>>, Seq<char>> {
    if exists|i: int| 0 <= i < ts.len() && ts[i].app_id == Some(app_id) {
        Ok(app_id_lines(ts, ts, app_id))
    } else {
        Err("No toplevel found with app-id '"@ + app_id + "'"@)
    }
}

fn app_id_is(t: &Toplevel, app_id: &str) -> (r: bool)
    ensures
        r == (t@.app_id == Some(app_id@)),
{
    match &t.app_id {
        Some(a) => str_eq(a.as_str(), app_id),
        None => false,
    }
}

/// Describes every toplevel with the given app-id.
pub fn show_toplevel_by_app_id(toplevels: &[Toplevel], app_id: &str) -> (r: Result<Vec<String>, String>)
    ensures
        report_view(r) == info_for_app_id(toplevels_view(toplevels@), app_id@),
{
    let ghost tv = toplevels_view(toplevels@);
    let n = toplevels.len();
    let mut lines: Vec<String> = Vec::new();
    let mut found = false;
    let mut i: usize = 0;
    while i < n
        invariant
            n == toplevels@.len(),
            tv == toplevels_view(toplevels@),
            i <= n,
            lines_view(lines@) == app_id_lines(tv.take(i as int), tv, app_id@),
            found <==> exists|j: int| 0 <= j < i && tv[j].app_id == Some(app_id@),
        decreases n - i,
    {
        assert(tv.take(i + 1).drop_last() =~= tv.take(i as int));
        let ghost before = lines_view(lines@);
        if app_id_is(&toplevels[i], app_id) {
            found = true;
            let id = toplevels[i].id;
            proof {
                lemma_index_of(tv, id);
            }
            match position_of_id(toplevels, id) {
                Some(k) => {
                    push_info_lines(&mut lines, &toplevels[k]);
                    assert(lines_view(lines@) == before + info_lines(tv[index_of(tv, id)]));
                },
                None => {
                    assert(tv[i as int].id == id);
                    assert(false);
                },
            }
            push_owned_line(&mut lines, String::new());
            assert(lines_view(lines@) =~= before + (info_lines(tv[index_of(tv, id)]) + seq![Seq::<char>::empty()]));
        } else {
            assert(lines_view(lines@) =~= before + Seq::<Seq<char>>::empty());
        }
        assert(lines_view(lines@) =~= app_id_lines(tv.take(i + 1), tv, app_id@));
        i = i + 1;
    }
    assert(tv.take(n as int) =~= tv);
    if found {
        Ok(lines)
    } else {
        let mut m = String::new();
        m.append("No toplevel found with app-id '");
        m.append(app_id);
        m.append("'");
        assert(m@ =~= "No toplevel found with app-id '"@ + app_id@ + "'"@);
        Err(m)
    }
}

} // verus!
