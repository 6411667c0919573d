//! Rendering a list of toplevels in the normal, JSON and custom formats.

use vstd::prelude::*;
use vstd::utf8::{encode_scalar, encode_utf8};
use crate::cli::OutputFormat;
use crate::json::{members_model, models, object, push_member, str_or_null, string_array, string_or_null, strs_model, JsonModel, JsonValue};
use crate::text::{bool_text, char_is_whitespace, chars_of, push_bool, push_char, unicode_white_space};
use crate::protocols::{protocol_reports_identifier, protocol_reports_state, reports_identifier, reports_state, UsedProtocol};
use crate::toplevel::{opt_chars, or_null, strings_view, toplevels_view, Toplevel, ToplevelState, ToplevelView};

verus! {

/// Whether a character forces a field to be quoted in the normal listing.
pub open spec fn forces_quotes(c: char) -> bool {
    unicode_white_space(c) || c == '"' || c == '\'' || (c as u32) >= 128
}

/// Whether a field must be quoted in the normal listing.
pub open spec fn needs_quotes_spec(s: Seq<char>) -> bool {
    exists|i: int| 0 <= i < s.len() && forces_quotes(s[i])
}

/// How one character is written inside quotes.
pub open spec fn escape_char(c: char) -> Seq<char> {
    if c == '"' {
        seq!['\\', '"']
    } else if c == '\n' {
        seq!['\\', 'n']
    } else if c == '\t' {
        seq!['\\', 't']
    } else if c == '\\' {
        seq!['\\', '\\']
    } else {
        seq![c]
    }
}

/// The characters of `s`, each written as inside quotes.
pub open spec fn escaped(s: Seq<char>) -> Seq<char>
    decreases s.len(),
{
    if s.len() == 0 {
        Seq::empty()
    } else {
        escaped(s.drop_last()) + escape_char(s.last())
    }
}

/// `s` in double quotes, with quotes, newlines, tabs and backslashes escaped.
pub open spec fn quoted(s: Seq<char>) -> Seq<char> {
    seq!['"'] + escaped(s) + seq!['"']
}

/// A field as the normal listing shows it.
pub open spec fn formatted(s: Seq<char>) -> Seq<char> {
    if needs_quotes_spec(s) {
        quoted(s)
    } else {
        s
    }
}

/// The byte length, in UTF-8, of a field as the normal listing shows it.
pub open spec fn display_len_spec(s: Seq<char>) -> usize {
    encode_utf8(formatted(s)).len() as usize
}

/// `s` with every comma preceded by a backslash.
pub open spec fn comma_escaped(s: Seq<char>) -> Seq<char>
    decreases s.len(),
{
    if s.len() == 0 {
        Seq::empty()
    } else if s.last() == ',' {
        comma_escaped(s.drop_last()) + seq!['\\', ',']
    } else {
        comma_escaped(s.drop_last()).push(s.last())
    }
}

/// `n` spaces.
pub open spec fn spaces(n: nat) -> Seq<char> {
    Seq::new(n, |i: int| ' ')
}

/// `s` padded with spaces on the right to at least `w` characters.
pub open spec fn padded(s: Seq<char>, w: nat) -> Seq<char> {
    if s.len() < w {
        s + spaces((w - s.len()) as nat)
    } else {
        s
    }
}

/// The parts with `sep` between each two neighbours.
pub open spec fn joined(parts: Seq<Seq<char>>, sep: Seq<char>) -> Seq<char>
    decreases parts.len(),
{
    if parts.len() == 0 {
        Seq::empty()
    } else if parts.len() == 1 {
        parts[0]
    } else {
        joined(parts.drop_last(), sep) + sep + parts.last()
    }
}

/// The four state columns: maximized, minimized, activated, fullscreen.
pub open spec fn state_flags(s: ToplevelState) -> Seq<char> {
    seq![
        if s.maximized { 'm' } else { '-' },
        if s.minimized { 'm' } else { '-' },
        if s.activated { 'a' } else { '-' },
        if s.fullscreen { 'f' } else { '-' },
    ]
}

/// The greatest display length of an app-id among the toplevels, 0 for none.
pub open spec fn max_app_id_len(ts: Seq<ToplevelView>) -> nat
    decreases ts.len(),
{
    if ts.len() == 0 {
        0
    } else {
        let m = max_app_id_len(ts.drop_last());
        let d = display_len_spec(or_null(ts.last().app_id)) as nat;
        if d > m {
            d
        } else {
            m
        }
    }
}

/// The least width of the app-id column: with the three spaces that
/// follow it, the column takes 20 characters.
pub open spec fn min_app_id_width() -> nat {
    17
}

/// A column width kept between 17 and 40.
pub open spec fn clamp_width(m: nat) -> nat {
    if m < min_app_id_width() {
        min_app_id_width()
    } else if m > 40 {
        40
    } else {
        m
    }
}

/// The width of the app-id column of the normal listing.
pub open spec fn app_id_width(ts: Seq<ToplevelView>) -> nat {
    clamp_width(max_app_id_len(ts))
}

/// The header line of the normal listing.
pub open spec fn normal_header(with_state: bool, w: nat, terminal: bool) -> Seq<char> {
    (if terminal { "\x1b[0;1m"@ } else { Seq::empty() })
    + (if with_state { "state:   "@ } else { Seq::empty() })
    + padded("app-id:"@, w) + "   title:"@
    + (if terminal { "\x1b[0m"@ } else { Seq::empty() })
    + seq!['\n']
}

/// The outputs column of a row: empty, or the outputs in brackets.
pub open spec fn outputs_suffix(outputs: Seq<Seq<char>>) -> Seq<char> {
    if outputs.len() == 0 {
        Seq::empty()
    } else {
        "  ["@ + joined(outputs, ", "@) + "]"@
    }
}

/// One line of the normal listing: the app-id as a field is shown, padded
/// to the column width, then the title as it is.
pub open spec fn normal_row(t: ToplevelView, w: nat, with_state: bool) -> Seq<char> {
    (if with_state { state_flags(t.state) + "     "@ } else { Seq::empty() })
    + padded(formatted(or_null(t.app_id)), w) + "   "@
    + or_null(t.title)
    + outputs_suffix(t.outputs)
    + seq!['\n']
}

/// The lines of the normal listing for each toplevel, in order.
pub open spec fn normal_rows(ts: Seq<ToplevelView>, w: nat, with_state: bool) -> Seq<char>
    decreases ts.len(),
{
    if ts.len() == 0 {
        Seq::empty()
    } else {
        normal_rows(ts.drop_last(), w, with_state) + normal_row(ts.last(), w, with_state)
    }
}

/// The whole normal listing.
pub open spec fn normal_listing(ts: Seq<ToplevelView>, p: UsedProtocol, terminal: bool) -> Seq<char> {
    let w = app_id_width(ts);
    let ss = protocol_reports_state(p);
    normal_header(ss, w, terminal) + normal_rows(ts, w, ss)
}

/// What the custom format prints for data the protocol does not report.
pub open spec fn unsupported_text() -> Seq<char> {
    "unsupported"@
}

/// The custom-format field that the format character `c` selects.
pub open spec fn custom_field(c: char, t: ToplevelView, with_identifier: bool, with_state: bool) -> Seq<char> {
    if c == 't' {
        comma_escaped(or_null(t.title))
    } else if c == 'a' {
        comma_escaped(or_null(t.app_id))
    } else if c == 'i' {
        if with_identifier { comma_escaped(or_null(t.identifier)) } else { unsupported_text() }
    } else if c == 'A' {
        if with_state { bool_text(t.state.activated) } else { unsupported_text() }
    } else if c == 'f' {
        if with_state { bool_text(t.state.fullscreen) } else { unsupported_text() }
    } else if c == 'm' {
        if with_state { bool_text(t.state.minimized) } else { unsupported_text() }
    } else if c == 'M' {
        if with_state { bool_text(t.state.maximized) } else { unsupported_text() }
    } else {
        Seq::empty()
    }
}

/// The fields that the format characters select, separated by commas.
pub open spec fn custom_fields(fmt: Seq<char>, t: ToplevelView, with_identifier: bool, with_state: bool) -> Seq<char>
    decreases fmt.len(),
{
    if fmt.len() == 0 {
        Seq::empty()
    } else if fmt.len() == 1 {
        custom_field(fmt[0], t, with_identifier, with_state)
    } else {
        custom_fields(fmt.drop_last(), t, with_identifier, with_state) + seq![',']
            + custom_field(fmt.last(), t, with_identifier, with_state)
    }
}

/// The custom-format lines, one per toplevel.
pub open spec fn custom_rows(fmt: Seq<char>, ts: Seq<ToplevelView>, with_identifier: bool, with_state: bool) -> Seq<char>
    decreases ts.len(),
{
    if ts.len() == 0 {
        Seq::empty()
    } else {
        custom_rows(fmt, ts.drop_last(), with_identifier, with_state)
            + custom_fields(fmt, ts.last(), with_identifier, with_state) + seq!['\n']
    }
}

/// The whole custom-format listing.
pub open spec fn custom_listing(fmt: Seq<char>, ts: Seq<ToplevelView>, p: UsedProtocol) -> Seq<char> {
    custom_rows(fmt, ts, protocol_reports_identifier(p), protocol_reports_state(p))
}

/// The state members of a toplevel's JSON object.
pub open spec fn json_state_members(s: ToplevelState) -> Seq<(Seq<char>, JsonModel)> {
    seq![
        ("activated"@, JsonModel::Bool(s.activated)),
        ("fullscreen"@, JsonModel::Bool(s.fullscreen)),
        ("minimized"@, JsonModel::Bool(s.minimized)),
        ("maximized"@, JsonModel::Bool(s.maximized)),
    ]
}

/// The JSON object of one toplevel: title and app-id always, the state
/// flags and the identifier where the protocol reports them, the outputs
/// where there are any.
pub open spec fn json_toplevel(t: ToplevelView, with_identifier: bool, with_state: bool) -> JsonModel {
    JsonModel::Object(
        seq![("title"@, str_or_null(t.title)), ("app-id"@, str_or_null(t.app_id))]
        + (if with_state { json_state_members(t.state) } else { Seq::empty() })
        + (if with_identifier { seq![("identifier"@, str_or_null(t.identifier))] } else { Seq::empty() })
        + (if t.outputs.len() > 0 { seq![("outputs"@, JsonModel::Array(strs_model(t.outputs)))] } else { Seq::empty() }),
    )
}

/// The JSON objects of the toplevels, in order.
pub open spec fn json_toplevels(ts: Seq<ToplevelView>, with_identifier: bool, with_state: bool) -> Seq<JsonModel> {
    ts.map_values(|t: ToplevelView| json_toplevel(t, with_identifier, with_state))
}

/// Which data the protocol reports, as the JSON document announces it.
pub open spec fn json_supported_data(with_identifier: bool, with_state: bool) -> JsonModel {
    JsonModel::Object(seq![
        ("title"@, JsonModel::Bool(true)),
        ("app-id"@, JsonModel::Bool(true)),
        ("identifier"@, JsonModel::Bool(with_identifier)),
        ("fullscreen"@, JsonModel::Bool(with_state)),
        ("activated"@, JsonModel::Bool(with_state)),
        ("minimized"@, JsonModel::Bool(with_state)),
        ("maximized"@, JsonModel::Bool(with_state)),
    ])
}

/// The JSON document of a listing: version 2 of the output format, the
/// data the protocol reports, and the toplevels.
pub open spec fn json_document(ts: Seq<ToplevelView>, p: UsedProtocol) -> JsonModel {
    let si = protocol_reports_identifier(p);
    let ss = protocol_reports_state(p);
    JsonModel::Object(seq![
        ("json-output-version"@, JsonModel::Number(2)),
        ("supported-data"@, json_supported_data(si, ss)),
        ("toplevels"@, JsonModel::Array(json_toplevels(ts, si, ss))),
    ])
}

/// A rendered listing: text to print as it is, or a JSON document to
/// print as pretty JSON.
#[derive(Debug)]
pub enum Rendered {
    Text(String),
    Json(JsonValue),
}

/// The mathematical content of a [`Rendered`] listing.
pub enum RenderedModel {
    Text(Seq<char>),
    Json(JsonModel),
}

impl View for Rendered {
    type V = RenderedModel;

    open spec fn view(&self) -> RenderedModel {
        match self {
            Rendered::Text(s) => RenderedModel::Text(s@),
            Rendered::Json(j) => RenderedModel::Json(j@),
        }
    }
}

/// The listing that a writer renders for the toplevels.
pub open spec fn rendering(w: WriterView, ts: Seq<ToplevelView>, p: UsedProtocol, terminal: bool) -> RenderedModel {
    match w.format {
        OutputFormat::Normal => RenderedModel::Text(normal_listing(ts, p, terminal)),
        OutputFormat::Json => RenderedModel::Json(json_document(ts, p)),
        OutputFormat::Custom => RenderedModel::Text(custom_listing(w.custom_format->0, ts, p)),
    }
}

/// How many times `c` occurs in `s`.
pub open spec fn count_char(s: Seq<char>, c: char) -> nat
    decreases s.len(),
{
    if s.len() == 0 {
        0
    } else {
        count_char(s.drop_last(), c) + if s.last() == c { 1nat } else { 0nat }
    }
}

/// Occurrences in a concatenation add up.
pub proof fn lemma_count_concat(a: Seq<char>, b: Seq<char>, c: char)
    ensures
        count_char(a + b, c) == count_char(a, c) + count_char(b, c),
    decreases b.len(),
{
    if b.len() > 0 {
        lemma_count_concat(a, b.drop_last(), c);
        assert((a + b).drop_last() =~= a + b.drop_last());
    } else {
        assert(a + b =~= a);
    }
}

/// A sequence none of whose characters is `c` holds no `c`.
pub proof fn lemma_count_none(s: Seq<char>, c: char)
    requires
        forall|i: int| 0 <= i < s.len() ==> s[i] != c,
    ensures
        count_char(s, c) == 0,
    decreases s.len(),
{
    if s.len() > 0 {
        lemma_count_none(s.drop_last(), c);
    }
}

proof fn lemma_escaped_no_newline(s: Seq<char>)
    ensures
        count_char(escaped(s), '\n') == 0,
    decreases s.len(),
{
    if s.len() > 0 {
        lemma_escaped_no_newline(s.drop_last());
        let e = escape_char(s.last());
        lemma_count_none(e, '\n');
        lemma_count_concat(escaped(s.drop_last()), e, '\n');
    }
}

/// A field as the normal listing shows it never holds a line break: a
/// line break forces quoting, and quoting escapes it.
pub proof fn law_formatted_single_line(s: Seq<char>)
    ensures
        count_char(formatted(s), '\n') == 0,
{
    if needs_quotes_spec(s) {
        lemma_escaped_no_newline(s);
        lemma_count_concat(seq!['"'], escaped(s), '\n');
        lemma_count_concat(seq!['"'] + escaped(s), seq!['"'], '\n');
        lemma_count_none(seq!['"'], '\n');
    } else {
        assert forall|i: int| 0 <= i < s.len() implies s[i] != '\n' by {
            if s[i] == '\n' {
                assert(forces_quotes(s[i]));
            }
        }
        lemma_count_none(s, '\n');
    }
}

proof fn lemma_spaces_no_newline(n: nat)
    ensures
        count_char(spaces(n), '\n') == 0,
{
    lemma_count_none(spaces(n), '\n');
}

proof fn lemma_padded_no_newline(s: Seq<char>, w: nat)
    requires
        count_char(s, '\n') == 0,
    ensures
        count_char(padded(s, w), '\n') == 0,
{
    if s.len() < w {
        lemma_spaces_no_newline((w - s.len()) as nat);
        lemma_count_concat(s, spaces((w - s.len()) as nat), '\n');
    }
}

proof fn lemma_joined_no_newline(parts: Seq<Seq<char>>, sep: Seq<char>)
    requires
        count_char(sep, '\n') == 0,
        forall|i: int| 0 <= i < parts.len() ==> count_char(#[trigger] parts[i], '\n') == 0,
    ensures
        count_char(joined(parts, sep), '\n') == 0,
    decreases parts.len(),
{
    if parts.len() > 1 {
        let p = parts.drop_last();
        assert forall|i: int| 0 <= i < p.len() implies count_char(#[trigger] p[i], '\n') == 0 by {
            assert(p[i] == parts[i]);
        }
        lemma_joined_no_newline(p, sep);
        lemma_count_concat(joined(p, sep), sep, '\n');
        lemma_count_concat(joined(p, sep) + sep, parts.last(), '\n');
    }
}

/// Whether no output name of any of the toplevels holds a line break.
pub open spec fn rows_single_line(ts: Seq<ToplevelView>) -> bool {
    &&& forall|i: int| 0 <= i < ts.len() ==> count_char(#[trigger] or_null(ts[i].title), '\n') == 0
    &&& forall|i: int, j: int| 0 <= i < ts.len() && 0 <= j < ts[i].outputs.len()
        ==> count_char(#[trigger] ts[i].outputs[j], '\n') == 0
}

proof fn lemma_row_one_line(t: ToplevelView, w: nat, with_state: bool)
    requires
        count_char(or_null(t.title), '\n') == 0,
        forall|j: int| 0 <= j < t.outputs.len() ==> count_char(#[trigger] t.outputs[j], '\n') == 0,
    ensures
        count_char(normal_row(t, w, with_state), '\n') == 1,
{
    reveal_strlit("     ");
    reveal_strlit("   ");
    reveal_strlit("  [");
    reveal_strlit(", ");
    reveal_strlit("]");
    let st = if with_state { state_flags(t.state) + "     "@ } else { Seq::empty() };
    lemma_count_none(st, '\n');
    let app = padded(formatted(or_null(t.app_id)), w);
    law_formatted_single_line(or_null(t.app_id));
    lemma_padded_no_newline(formatted(or_null(t.app_id)), w);
    lemma_count_none("   "@, '\n');
    let title = or_null(t.title);
    let outs = outputs_suffix(t.outputs);
    if t.outputs.len() > 0 {
        lemma_count_none(", "@, '\n');
        lemma_joined_no_newline(t.outputs, ", "@);
        lemma_count_none("  ["@, '\n');
        lemma_count_none("]"@, '\n');
        lemma_count_concat("  ["@, joined(t.outputs, ", "@), '\n');
        lemma_count_concat("  ["@ + joined(t.outputs, ", "@), "]"@, '\n');
    }
    lemma_count_concat(st, app, '\n');
    lemma_count_concat(st + app, "   "@, '\n');
    lemma_count_concat(st + app + "   "@, title, '\n');
    lemma_count_concat(st + app + "   "@ + title, outs, '\n');
    lemma_count_concat(st + app + "   "@ + title + outs, seq!['\n'], '\n');
    lemma_newline_count();
    assert(normal_row(t, w, with_state) == st + app + "   "@ + title + outs + seq!['\n']);
}

proof fn lemma_newline_count()
    ensures
        count_char(seq!['\n'], '\n') == 1,
{
    assert(seq!['\n'].drop_last() =~= Seq::<char>::empty());
    assert(count_char(Seq::<char>::empty(), '\n') == 0);
}

proof fn lemma_rows_lines(ts: Seq<ToplevelView>, w: nat, with_state: bool)
    requires
        rows_single_line(ts),
    ensures
        count_char(normal_rows(ts, w, with_state), '\n') == ts.len(),
    decreases ts.len(),
{
    if ts.len() > 0 {
        let p = ts.drop_last();
        assert forall|i: int| 0 <= i < p.len() implies count_char(#[trigger] or_null(p[i].title), '\n') == 0 by {
            assert(p[i] == ts[i]);
        }
        assert forall|i: int, j: int| 0 <= i < p.len() && 0 <= j < p[i].outputs.len()
            implies count_char(#[trigger] p[i].outputs[j], '\n') == 0 by {
            assert(p[i] == ts[i]);
        }
        lemma_rows_lines(p, w, with_state);
        let t = ts.last();
        assert(count_char(or_null(ts[ts.len() - 1].title), '\n') == 0);
        assert forall|j: int| 0 <= j < t.outputs.len() implies count_char(#[trigger] t.outputs[j], '\n') == 0 by {
            assert(ts[ts.len() - 1].outputs[j] == t.outputs[j]);
        }
        lemma_row_one_line(t, w, with_state);
        lemma_count_concat(normal_rows(p, w, with_state), normal_row(t, w, with_state), '\n');
    }
}

/// The normal listing is one header line and one line per toplevel, as
/// long as no title and no output name holds a line break.
pub proof fn law_normal_listing_lines(ts: Seq<ToplevelView>, p: UsedProtocol, terminal: bool)
    requires
        rows_single_line(ts),
    ensures
        count_char(normal_listing(ts, p, terminal), '\n') == ts.len() + 1,
{
    reveal_strlit("\x1b[0;1m");
    reveal_strlit("state:   ");
    reveal_strlit("app-id:");
    reveal_strlit("   title:");
    reveal_strlit("\x1b[0m");
    let w = app_id_width(ts);
    let ss = protocol_reports_state(p);
    let a = if terminal { "\x1b[0;1m"@ } else { Seq::empty() };
    let b = if ss { "state:   "@ } else { Seq::empty() };
    let c = padded("app-id:"@, w);
    let d = "   title:"@;
    let e = if terminal { "\x1b[0m"@ } else { Seq::empty() };
    lemma_count_none(a, '\n');
    lemma_count_none(b, '\n');
    lemma_count_none("app-id:"@, '\n');
    lemma_padded_no_newline("app-id:"@, w);
    lemma_count_none(d, '\n');
    lemma_count_none(e, '\n');
    lemma_count_concat(a, b, '\n');
    lemma_count_concat(a + b, c, '\n');
    lemma_count_concat(a + b + c, d, '\n');
    lemma_count_concat(a + b + c + d, e, '\n');
    lemma_count_concat(a + b + c + d + e, seq!['\n'], '\n');
    lemma_newline_count();
    assert(normal_header(ss, w, terminal) == a + b + c + d + e + seq!['\n']);
    lemma_rows_lines(ts, w, ss);
    lemma_count_concat(normal_header(ss, w, terminal), normal_rows(ts, w, ss), '\n');
}

/// The app-id column is never narrower than 17 characters, so that with
/// the gap after it it takes at least 20, and never wider than 40.
pub proof fn law_app_id_width_bounds(ts: Seq<ToplevelView>)
    ensures
        17 <= app_id_width(ts) <= 40,
{
}

/// The JSON document holds one object per toplevel, in order, and
/// announces exactly the data that the protocol reports.
pub proof fn law_json_one_object_per_toplevel(ts: Seq<ToplevelView>, p: UsedProtocol)
    ensures
        json_document(ts, p) == JsonModel::Object(seq![
            ("json-output-version"@, JsonModel::Number(2)),
            ("supported-data"@, json_supported_data(protocol_reports_identifier(p), protocol_reports_state(p))),
            ("toplevels"@, JsonModel::Array(json_toplevels(ts, protocol_reports_identifier(p), protocol_reports_state(p)))),
        ]),
        json_toplevels(ts, protocol_reports_identifier(p), protocol_reports_state(p)).len() == ts.len(),
        forall|k: int| 0 <= k < ts.len() ==> #[trigger] json_toplevels(ts, protocol_reports_identifier(p), protocol_reports_state(p))[k]
            == json_toplevel(ts[k], protocol_reports_identifier(p), protocol_reports_state(p)),
{
}

/// In a custom-format field every comma is preceded by a backslash.
pub proof fn law_custom_commas_escaped(s: Seq<char>)
    ensures
        forall|i: int| 0 <= i < comma_escaped(s).len() && #[trigger] comma_escaped(s)[i] == ','
            ==> i > 0 && comma_escaped(s)[i - 1] == '\\',
    decreases s.len(),
{
    if s.len() > 0 {
        let p = comma_escaped(s.drop_last());
        law_custom_commas_escaped(s.drop_last());
        let e = comma_escaped(s);
        assert forall|i: int| 0 <= i < e.len() && #[trigger] e[i] == ',' implies i > 0 && e[i - 1] == '\\' by {
            if i < p.len() {
                assert(e[i] == p[i]);
                assert(p[i] == ',');
                assert(e[i - 1] == p[i - 1]);
            }
        }
    }
}

/// `t` with each backslash that stands directly before a comma dropped:
/// every occurrence of the two characters `\,` becomes `,`. Two such
/// occurrences never overlap, so it does not matter from which end they
/// are sought.
pub open spec fn comma_unescaped(t: Seq<char>) -> Seq<char>
    decreases t.len(),
{
    if t.len() == 0 {
        Seq::empty()
    } else if t.len() >= 2 && t.last() == ',' && t[t.len() - 2] == '\\' {
        comma_unescaped(t.subrange(0, t.len() - 2)).push(',')
    } else {
        comma_unescaped(t.drop_last()).push(t.last())
    }
}

/// Undoing the escape of a custom-format field gives the field back, and
/// the escape adds exactly one character for each comma.
pub proof fn law_custom_escape_round_trip(s: Seq<char>)
    ensures
        comma_unescaped(comma_escaped(s)) == s,
        comma_escaped(s).len() == s.len() + count_char(s, ','),
    decreases s.len(),
{
    if s.len() > 0 {
        let d = s.drop_last();
        law_custom_escape_round_trip(d);
        let p = comma_escaped(d);
        let e = comma_escaped(s);
        if s.last() == ',' {
            assert(e.subrange(0, e.len() - 2) =~= p);
        } else {
            assert(e.drop_last() =~= p);
        }
        assert(d.push(s.last()) =~= s);
    }
}

/// The UTF-8 encoding of a concatenation is the concatenation of the
/// encodings.
pub proof fn lemma_utf8_concat(a: Seq<char>, b: Seq<char>)
    ensures
        encode_utf8(a + b) == encode_utf8(a) + encode_utf8(b),
    decreases a.len(),
{
    if a.len() == 0 {
        assert(a + b =~= b);
        assert(encode_utf8(a) + encode_utf8(b) =~= encode_utf8(b));
    } else {
        lemma_utf8_concat(a.drop_first(), b);
        assert((a + b).drop_first() =~= a.drop_first() + b);
        assert((a + b)[0] == a[0]);
        assert(encode_utf8(a + b) =~= encode_utf8(a) + encode_utf8(b));
    }
}

/// One character takes one to four bytes, and an ASCII character one.
proof fn lemma_utf8_char(c: char)
    ensures
        1 <= encode_utf8(seq![c]).len() <= 4,
        (c as u32) < 128 ==> encode_utf8(seq![c]).len() == 1,
{
    let one = seq![c];
    assert(one.drop_first() =~= Seq::<char>::empty());
    assert(encode_utf8(one.drop_first()).len() == 0);
    assert(encode_utf8(one) == encode_scalar(one[0] as u32) + encode_utf8(one.drop_first()));
    let e = encode_scalar(c as u32);
    assert(1 <= e.len() <= 4);
    assert((c as u32) < 128 ==> e.len() == 1);
}

/// Escaping a character never makes its encoding shorter.
proof fn lemma_escape_char_len(c: char)
    ensures
        encode_utf8(escape_char(c)).len() >= encode_utf8(seq![c]).len(),
{
    lemma_utf8_char(c);
    if c == '"' || c == '\n' || c == '\t' || c == '\\' {
        let e = escape_char(c);
        assert(e =~= seq![e[0]] + seq![e[1]]);
        lemma_utf8_concat(seq![e[0]], seq![e[1]]);
        lemma_utf8_char(e[0]);
        lemma_utf8_char(e[1]);
    }
}

/// Escaping a field never makes its encoding shorter.
proof fn lemma_escaped_len(s: Seq<char>)
    ensures
        encode_utf8(escaped(s)).len() >= encode_utf8(s).len(),
    decreases s.len(),
{
    if s.len() > 0 {
        let d = s.drop_last();
        lemma_escaped_len(d);
        lemma_escape_char_len(s.last());
        lemma_utf8_concat(escaped(d), escape_char(s.last()));
        assert(d + seq![s.last()] =~= s);
        lemma_utf8_concat(d, seq![s.last()]);
    }
}

/// A field as the normal listing shows it is never shorter, in UTF-8 bytes,
/// than the field itself; it is exactly as long when it needs no quotes,
/// and a quoted field is at least two bytes longer. `display_len` returns
/// that length, which fits in a `usize` for any string the machine holds.
pub proof fn law_display_len_bounds(s: Seq<char>)
    requires
        encode_utf8(formatted(s)).len() <= usize::MAX,
    ensures
        display_len_spec(s) == encode_utf8(formatted(s)).len(),
        display_len_spec(s) >= encode_utf8(s).len(),
        (display_len_spec(s) == encode_utf8(s).len()) <==> !needs_quotes_spec(s),
        needs_quotes_spec(s) ==> display_len_spec(s) >= encode_utf8(s).len() + 2,
{
    if needs_quotes_spec(s) {
        let q = seq!['"'];
        lemma_escaped_len(s);
        lemma_utf8_concat(q, escaped(s));
        lemma_utf8_concat(q + escaped(s), q);
        lemma_utf8_char('"');
    }
}

/// The JSON value of an optional string: the string, or null.
pub open spec fn text_or_null_json(o: Option<Seq<char>>) -> JsonModel {
    match o {
        Some(x) => JsonModel::Str(x),
        None => JsonModel::Null,
    }
}

/// In a toplevel's JSON object every member holds the datum it is named
/// after: `title` the title, `app-id` the app-id, `identifier` the
/// identifier, and each of `activated`, `fullscreen`, `minimized` and
/// `maximized` the state flag of that name. The four flags are members
/// exactly when the protocol reports state, the identifier exactly when it
/// reports identifiers; title and app-id always are.
pub proof fn law_json_members_hold_their_data(t: ToplevelView, with_identifier: bool, with_state: bool)
    ensures
        json_toplevel(t, with_identifier, with_state) is Object,
        ({
            let ms = json_toplevel(t, with_identifier, with_state)->Object_0;
            &&& forall|k: int| 0 <= k < ms.len() ==> {
                &&& (#[trigger] ms[k]).0 == "title"@ ==> ms[k].1 == text_or_null_json(t.title)
                &&& ms[k].0 == "app-id"@ ==> ms[k].1 == text_or_null_json(t.app_id)
                &&& ms[k].0 == "identifier"@ ==> ms[k].1 == text_or_null_json(t.identifier)
                &&& ms[k].0 == "activated"@ ==> ms[k].1 == JsonModel::Bool(t.state.activated)
                &&& ms[k].0 == "fullscreen"@ ==> ms[k].1 == JsonModel::Bool(t.state.fullscreen)
                &&& ms[k].0 == "minimized"@ ==> ms[k].1 == JsonModel::Bool(t.state.minimized)
                &&& ms[k].0 == "maximized"@ ==> ms[k].1 == JsonModel::Bool(t.state.maximized)
            }
            &&& ms.len() >= 2 && ms[0].0 == "title"@ && ms[1].0 == "app-id"@
            &&& (exists|k: int| 0 <= k < ms.len() && (#[trigger] ms[k]).0 == "activated"@) == with_state
            &&& (exists|k: int| 0 <= k < ms.len() && (#[trigger] ms[k]).0 == "fullscreen"@) == with_state
            &&& (exists|k: int| 0 <= k < ms.len() && (#[trigger] ms[k]).0 == "minimized"@) == with_state
            &&& (exists|k: int| 0 <= k < ms.len() && (#[trigger] ms[k]).0 == "maximized"@) == with_state
            &&& (exists|k: int| 0 <= k < ms.len() && (#[trigger] ms[k]).0 == "identifier"@) == with_identifier
        }),
{
    reveal_strlit("title");
    reveal_strlit("app-id");
    reveal_strlit("identifier");
    reveal_strlit("activated");
    reveal_strlit("fullscreen");
    reveal_strlit("minimized");
    reveal_strlit("maximized");
    reveal_strlit("outputs");
    let ms = json_toplevel(t, with_identifier, with_state)->Object_0;
    let base = seq![("title"@, str_or_null(t.title)), ("app-id"@, str_or_null(t.app_id))];
    let st = if with_state { json_state_members(t.state) } else { Seq::<(Seq<char>, JsonModel)>::empty() };
    let idm = if with_identifier { seq![("identifier"@, str_or_null(t.identifier))] } else { Seq::<(Seq<char>, JsonModel)>::empty() };
    let outs = if t.outputs.len() > 0 { seq![("outputs"@, JsonModel::Array(strs_model(t.outputs)))] } else { Seq::<(Seq<char>, JsonModel)>::empty() };
    assert(ms == base + st + idm + outs);
    let n = st.len() as int;
    let m = idm.len() as int;
    assert forall|k: int| 0 <= k < ms.len() implies
        (k < 2 ==> ms[k] == base[k])
        && (2 <= k < 2 + n ==> ms[k] == st[k - 2])
        && (2 + n <= k < 2 + n + m ==> ms[k] == idm[k - 2 - n])
        && (2 + n + m <= k ==> ms[k] == outs[k - 2 - n - m]) by {}
    assert("title"@.len() == 5 && "title"@[0] == 't');
    assert("app-id"@.len() == 6 && "app-id"@[0] == 'a');
    assert("identifier"@.len() == 10 && "identifier"@[0] == 'i');
    assert("activated"@.len() == 9 && "activated"@[0] == 'a');
    assert("fullscreen"@.len() == 10 && "fullscreen"@[0] == 'f');
    assert("minimized"@.len() == 9 && "minimized"@[1] == 'i');
    assert("maximized"@.len() == 9 && "maximized"@[1] == 'a');
    assert("outputs"@.len() == 7);
    assert("title"@ != "app-id"@ && "title"@ != "identifier"@ && "title"@ != "activated"@);
    assert("title"@ != "fullscreen"@ && "title"@ != "minimized"@ && "title"@ != "maximized"@);
    assert("app-id"@ != "identifier"@ && "app-id"@ != "activated"@ && "app-id"@ != "fullscreen"@);
    assert("app-id"@ != "minimized"@ && "app-id"@ != "maximized"@ && "identifier"@ != "activated"@);
    assert("identifier"@ != "fullscreen"@ && "identifier"@ != "minimized"@ && "identifier"@ != "maximized"@);
    assert("activated"@ != "fullscreen"@ && "activated"@ != "minimized"@ && "activated"@ != "maximized"@);
    assert("fullscreen"@ != "minimized"@ && "fullscreen"@ != "maximized"@ && "minimized"@ != "maximized"@);
    assert("outputs"@ != "title"@ && "outputs"@ != "app-id"@ && "outputs"@ != "identifier"@);
    assert("outputs"@ != "activated"@ && "outputs"@ != "fullscreen"@ && "outputs"@ != "minimized"@ && "outputs"@ != "maximized"@);
    if with_state {
        assert(ms[2].0 == "activated"@ && ms[3].0 == "fullscreen"@ && ms[4].0 == "minimized"@ && ms[5].0 == "maximized"@);
    }
    if with_identifier {
        assert(ms[2 + n].0 == "identifier"@);
    }
}

/// The text a custom-format state field shows for a flag.
pub open spec fn flag_field(reported: bool, flag: bool) -> Seq<char> {
    if !reported {
        "unsupported"@
    } else if flag {
        "true"@
    } else {
        "false"@
    }
}

/// Each character of a custom format selects the datum that the field
/// table names: `t` the title, `a` the app-id, `i` the identifier, and
/// `A`, `f`, `m`, `M` the activated, fullscreen, minimized and maximized
/// flags, shown as `true` or `false`. Data the protocol does not report
/// shows as `unsupported`; any other character selects nothing.
pub proof fn law_custom_field_letters(t: ToplevelView, with_identifier: bool, with_state: bool, c: char)
    ensures
        custom_field('t', t, with_identifier, with_state) == comma_escaped(or_null(t.title)),
        custom_field('a', t, with_identifier, with_state) == comma_escaped(or_null(t.app_id)),
        custom_field('i', t, with_identifier, with_state) == if with_identifier {
            comma_escaped(or_null(t.identifier))
        } else {
            "unsupported"@
        },
        custom_field('A', t, with_identifier, with_state) == flag_field(with_state, t.state.activated),
        custom_field('f', t, with_identifier, with_state) == flag_field(with_state, t.state.fullscreen),
        custom_field('m', t, with_identifier, with_state) == flag_field(with_state, t.state.minimized),
        custom_field('M', t, with_identifier, with_state) == flag_field(with_state, t.state.maximized),
        c != 't' && c != 'a' && c != 'i' && c != 'A' && c != 'f' && c != 'm' && c != 'M'
            ==> custom_field(c, t, with_identifier, with_state).len() == 0,
{
}

/// A custom format of one character gives, for each toplevel, one line
/// that holds just the field it selects.
pub proof fn law_custom_single_field(c: char, ts: Seq<ToplevelView>, with_identifier: bool, with_state: bool, k: int)
    requires
        0 <= k < ts.len(),
    ensures
        custom_rows(seq![c], ts, with_identifier, with_state) == custom_rows(seq![c], ts.take(k), with_identifier, with_state)
            + custom_field(c, ts[k], with_identifier, with_state) + seq!['\n']
            + custom_rows(seq![c], ts.skip(k + 1), with_identifier, with_state),
    decreases ts.len(),
{
    let f = seq![c];
    if k == ts.len() - 1 {
        assert(ts.take(k) =~= ts.drop_last());
        assert(ts.skip(k + 1) =~= Seq::<ToplevelView>::empty());
        assert(custom_fields(f, ts[k], with_identifier, with_state) == custom_field(c, ts[k], with_identifier, with_state));
    } else {
        let d = ts.drop_last();
        law_custom_single_field(c, d, with_identifier, with_state, k);
        assert(d.take(k) =~= ts.take(k));
        assert(d[k] == ts[k]);
        let rest = ts.skip(k + 1);
        assert(rest.drop_last() =~= d.skip(k + 1));
        assert(rest.last() == ts.last());
        assert(rest.len() > 0);
    }
}

/// What an [`OutputWriter`] was made with.
pub struct WriterView {
    pub format: OutputFormat,
    pub custom_format: Option<Seq<char>>,
}

/// Renders toplevel listings in one of the output formats.
pub struct OutputWriter {
    format: OutputFormat,
    custom_format: Option<String>,
}

impl View for OutputWriter {
    type V = WriterView;

    closed spec fn view(&self) -> WriterView {
        WriterView { format: self.format, custom_format: opt_chars(self.custom_format) }
    }
}

fn forces_quotes_exec(c: char) -> (r: bool)
    ensures
        r == forces_quotes(c),
{
    char_is_whitespace(c) || c == '"' || c == '\'' || (c as u32) >= 128
}

fn push_escaped_char(out: &mut String, c: char)
    ensures
        final(out)@ == old(out)@ + escape_char(c),
{
    if c == '"' {
        out.append("\\\"");
    } else if c == '\n' {
        out.append("\\n");
    } else if c == '\t' {
        out.append("\\t");
    } else if c == '\\' {
        out.append("\\\\");
    } else {
        push_char(out, c);
    }
    assert(out@ =~= old(out)@ + escape_char(c)) by {
        reveal_strlit("\\\"");
        reveal_strlit("\\n");
        reveal_strlit("\\t");
        reveal_strlit("\\\\");
    }
}

/// Appends `s`, padded with spaces on the right to at least `width` characters.
fn push_padded(out: &mut String, s: &str, width: usize)
    ensures
        final(out)@ == old(out)@ + padded(s@, width as nat),
{
    let n = chars_of(s).len();
    out.append(s);
    let mut k = n;
    while k < width
        invariant
            n == s@.len(),
            n <= k,
            k <= width || k == n,
            out@ == old(out)@ + s@ + spaces((k - n) as nat),
        decreases width - k,
    {
        push_char(out, ' ');
        assert(spaces((k - n) as nat).push(' ') =~= spaces((k + 1 - n) as nat));
        k = k + 1;
    }
    assert(out@ =~= old(out)@ + padded(s@, width as nat));
}

/// Appends the strings with `sep` between each two neighbours.
pub(crate) fn push_joined(out: &mut String, parts: &Vec<String>, sep: &str)
    ensures
        final(out)@ == old(out)@ + joined(strings_view(parts@), sep@),
{
    let n = parts.len();
    let ghost v = strings_view(parts@);
    let mut i: usize = 0;
    while i < n
        invariant
            n == parts.len(),
            v == strings_view(parts@),
            i <= n,
            out@ == old(out)@ + joined(v.take(i as int), sep@),
        decreases n - i,
    {
        assert(v.take(i + 1).drop_last() =~= v.take(i as int));
        if i > 0 {
            out.append(sep);
        }
        out.append(parts[i].as_str());
        assert(out@ =~= old(out)@ + joined(v.take(i + 1), sep@));
        i = i + 1;
    }
    assert(v.take(n as int) =~= v);
}

/// Appends `text` when `cond` holds.
fn push_if(out: &mut String, cond: bool, text: &str)
    ensures
        final(out)@ == old(out)@ + (if cond { text@ } else { Seq::empty() }),
{
    if cond {
        out.append(text);
    } else {
        assert(out@ =~= old(out)@ + Seq::<char>::empty());
    }
}

impl OutputWriter {
    pub fn new(format: &OutputFormat, custom_format: &Option<String>) -> (r: OutputWriter)
        ensures
            r@ == (WriterView { format: *format, custom_format: opt_chars(*custom_format) }),
    {
        let custom = match custom_format {
            Some(s) => Some(s.clone()),
            None => None,
        };
        OutputWriter { format: *format, custom_format: custom }
    }

    /// Whether a field must be quoted: it holds whitespace, a quote mark,
    /// an apostrophe or a character outside ASCII.
    pub fn needs_quotes(&self, s: &str) -> (r: bool)
        ensures
            r == needs_quotes_spec(s@),
    {
        let cs = chars_of(s);
        let n = cs.len();
        let mut i: usize = 0;
        while i < n
            invariant
                cs@ == s@,
                n == cs.len(),
                i <= n,
                forall|j: int| 0 <= j < i ==> !forces_quotes(cs@[j]),
            decreases n - i,
        {
            if forces_quotes_exec(cs[i]) {
                return true;
            }
            i = i + 1;
        }
        false
    }

    /// The field in double quotes, with `"`, newline, tab and backslash
    /// escaped.
    pub fn quote_string(&self, s: &str) -> (r: String)
        ensures
            r@ == quoted(s@),
    {
        let cs = chars_of(s);
        let n = cs.len();
        let mut out = String::new();
        push_char(&mut out, '"');
        let mut i: usize = 0;
        while i < n
            invariant
                cs@ == s@,
                n == cs.len(),
                i <= n,
                out@ == seq!['"'] + escaped(s@.take(i as int)),
            decreases n - i,
        {
            assert(s@.take(i + 1).drop_last() =~= s@.take(i as int));
            push_escaped_char(&mut out, cs[i]);
            assert(out@ =~= seq!['"'] + escaped(s@.take(i + 1)));
            i = i + 1;
        }
        assert(s@.take(n as int) =~= s@);
        push_char(&mut out, '"');
        assert(out@ =~= quoted(s@));
        out
    }

    /// The field as the normal listing shows it: quoted where it must be.
    pub fn format_string(&self, s: &str) -> (r: String)
        ensures
            r@ == formatted(s@),
    {
        if self.needs_quotes(s) {
            self.quote_string(s)
        } else {
            s.to_owned()
        }
    }

    /// The field with every comma escaped by a backslash, as the custom
    /// format writes it.
    pub fn escape_custom(&self, s: &str) -> (r: String)
        ensures
            r@ == comma_escaped(s@),
    {
        let cs = chars_of(s);
        let n = cs.len();
        let mut out = String::new();
        let mut i: usize = 0;
        while i < n
            invariant
                cs@ == s@,
                n == cs.len(),
                i <= n,
                out@ == comma_escaped(s@.take(i as int)),
            decreases n - i,
        {
            assert(s@.take(i + 1).drop_last() =~= s@.take(i as int));
            if cs[i] == ',' {
                push_char(&mut out, '\\');
                push_char(&mut out, ',');
            } else {
                push_char(&mut out, cs[i]);
            }
            assert(out@ =~= comma_escaped(s@.take(i + 1)));
            i = i + 1;
        }
        assert(s@.take(n as int) =~= s@);
        out
    }

    /// The length in bytes of the field as the normal listing shows it.
    pub fn display_len(&self, s: &str) -> (r: usize)
        ensures
            r == display_len_spec(s@),
    {
        if self.needs_quotes(s) {
            let q = self.quote_string(s);
            q.as_str().len()
        } else {
            s.len()
        }
    }

    /// Appends the four state columns of a toplevel.
    pub fn write_state(&self, out: &mut String, toplevel: &Toplevel)
        ensures
            final(out)@ == old(out)@ + state_flags(toplevel.state),
    {
        push_char(out, if toplevel.state.maximized { 'm' } else { '-' });
        push_char(out, if toplevel.state.minimized { 'm' } else { '-' });
        push_char(out, if toplevel.state.activated { 'a' } else { '-' });
        push_char(out, if toplevel.state.fullscreen { 'f' } else { '-' });
        assert(out@ =~= old(out)@ + state_flags(toplevel.state));
    }

    /// The width of the app-id column: the longest app-id as shown, kept
    /// between 17 and 40.
    pub fn app_id_column_width(&self, toplevels: &[Toplevel]) -> (r: usize)
        ensures
            r as nat == app_id_width(toplevels_view(toplevels@)),
    {
        let ghost tv = toplevels_view(toplevels@);
        let n = toplevels.len();
        let mut m: usize = 0;
        let mut i: usize = 0;
        while i < n
            invariant
                n == toplevels@.len(),
                tv == toplevels_view(toplevels@),
                i <= n,
                m as nat == max_app_id_len(tv.take(i as int)),
            decreases n - i,
        {
            assert(tv.take(i + 1).drop_last() =~= tv.take(i as int));
            let d = self.display_len(toplevels[i].app_id_str());
            if d > m {
                m = d;
            }
            i = i + 1;
        }
        assert(tv.take(n as int) =~= tv);
        if m < 17 {
            17
        } else if m > 40 {
            40
        } else {
            m
        }
    }

    /// Appends one line of the normal listing.
    fn write_normal_row(&self, out: &mut String, toplevel: &Toplevel, width: usize, with_state: bool)
        ensures
            final(out)@ == old(out)@ + normal_row(toplevel@, width as nat, with_state),
    {
        let ghost start = out@;
        if with_state {
            self.write_state(out, toplevel);
            out.append("     ");
        }
        let ghost after_state = out@;
        let app_id = self.format_string(toplevel.app_id_str());
        push_padded(out, app_id.as_str(), width);
        out.append("   ");
        out.append(toplevel.title_str());
        let ghost before_outputs = out@;
        if toplevel.outputs.len() > 0 {
            out.append("  [");
            push_joined(out, &toplevel.outputs, ", ");
            out.append("]");
        }
        assert(out@ =~= before_outputs + outputs_suffix(toplevel@.outputs));
        push_char(out, '\n');
        assert(after_state =~= start + (if with_state { state_flags(toplevel.state) + "     "@ } else { Seq::empty() }));
        assert(out@ =~= start + normal_row(toplevel@, width as nat, with_state));
    }

    /// The normal listing: a header, then one line per toplevel.
    pub fn write_normal(&self, toplevels: &[Toplevel], protocol: UsedProtocol, terminal: bool) -> (r: String)
        ensures
            r@ == normal_listing(toplevels_view(toplevels@), protocol, terminal),
    {
        let ghost tv = toplevels_view(toplevels@);
        let with_state = reports_state(protocol);
        let width = self.app_id_column_width(toplevels);
        let mut out = String::new();
        push_if(&mut out, terminal, "\x1b[0;1m");
        push_if(&mut out, with_state, "state:   ");
        push_padded(&mut out, "app-id:", width);
        out.append("   title:");
        push_if(&mut out, terminal, "\x1b[0m");
        push_char(&mut out, '\n');
        let ghost header = out@;
        assert(header =~= normal_header(with_state, width as nat, terminal));
        let n = toplevels.len();
        let mut i: usize = 0;
        while i < n
            invariant
                n == toplevels@.len(),
                tv == toplevels_view(toplevels@),
                i <= n,
                out@ == header + normal_rows(tv.take(i as int), width as nat, with_state),
            decreases n - i,
        {
            assert(tv.take(i + 1).drop_last() =~= tv.take(i as int));
            self.write_normal_row(&mut out, &toplevels[i], width, with_state);
            assert(out@ =~= header + normal_rows(tv.take(i + 1), width as nat, with_state));
            i = i + 1;
        }
        assert(tv.take(n as int) =~= tv);
        out
    }

    fn write_custom_field(&self, out: &mut String, c: char, toplevel: &Toplevel, with_identifier: bool, with_state: bool)
        ensures
            final(out)@ == old(out)@ + custom_field(c, toplevel@, with_identifier, with_state),
    {
        if c == 't' {
            let e = self.escape_custom(toplevel.title_str());
            out.append(e.as_str());
        } else if c == 'a' {
            let e = self.escape_custom(toplevel.app_id_str());
            out.append(e.as_str());
        } else if c == 'i' {
            if with_identifier {
                let e = self.escape_custom(toplevel.identifier_str());
                out.append(e.as_str());
            } else {
                out.append("unsupported");
            }
        } else if c == 'A' || c == 'f' || c == 'm' || c == 'M' {
            if with_state {
                let b = if c == 'A' {
                    toplevel.state.activated
                } else if c == 'f' {
                    toplevel.state.fullscreen
                } else if c == 'm' {
                    toplevel.state.minimized
                } else {
                    toplevel.state.maximized
                };
                push_bool(out, b);
            } else {
                out.append("unsupported");
            }
        } else {
            assert(out@ =~= old(out)@ + Seq::<char>::empty());
        }
    }

    /// Appends one custom-format line.
    fn write_custom_row(&self, out: &mut String, fmt: &Vec<char>, toplevel: &Toplevel, with_identifier: bool, with_state: bool)
        ensures
            final(out)@ == old(out)@ + custom_fields(fmt@, toplevel@, with_identifier, with_state) + seq!['\n'],
    {
        let n = fmt.len();
        let mut j: usize = 0;
        while j < n
            invariant
                n == fmt@.len(),
                j <= n,
                out@ == old(out)@ + custom_fields(fmt@.take(j as int), toplevel@, with_identifier, with_state),
            decreases n - j,
        {
            assert(fmt@.take(j + 1).drop_last() =~= fmt@.take(j as int));
            if j > 0 {
                push_char(out, ',');
            }
            self.write_custom_field(out, fmt[j], toplevel, with_identifier, with_state);
            assert(out@ =~= old(out)@ + custom_fields(fmt@.take(j + 1), toplevel@, with_identifier, with_state));
            j = j + 1;
        }
        assert(fmt@.take(n as int) =~= fmt@);
        push_char(out, '\n');
    }

    /// The custom listing: for each toplevel, the fields that the format
    /// characters select, separated by commas.
    pub fn write_custom(&self, toplevels: &[Toplevel], protocol: UsedProtocol) -> (r: String)
        requires
            self@.custom_format is Some,
        ensures
            r@ == custom_listing(self@.custom_format->0, toplevels_view(toplevels@), protocol),
    {
        let ghost tv = toplevels_view(toplevels@);
        let fmt = match &self.custom_format {
            Some(f) => chars_of(f.as_str()),
            None => Vec::new(),
        };
        let with_identifier = reports_identifier(protocol);
        let with_state = reports_state(protocol);
        let mut out = String::new();
        let n = toplevels.len();
        let mut i: usize = 0;
        while i < n
            invariant
                n == toplevels@.len(),
                tv == toplevels_view(toplevels@),
                fmt@ == self@.custom_format->0,
                i <= n,
                out@ == custom_rows(fmt@, tv.take(i as int), with_identifier, with_state),
            decreases n - i,
        {
            assert(tv.take(i + 1).drop_last() =~= tv.take(i as int));
            self.write_custom_row(&mut out, &fmt, &toplevels[i], with_identifier, with_state);
            i = i + 1;
        }
        assert(tv.take(n as int) =~= tv);
        out
    }

    /// The JSON object of one toplevel.
    pub fn json_toplevel_value(&self, toplevel: &Toplevel, with_identifier: bool, with_state: bool) -> (r: JsonValue)
        ensures
            r@ == json_toplevel(toplevel@, with_identifier, with_state),
    {
        let ghost t = toplevel@;
        let mut m: Vec<(String, JsonValue)> = Vec::new();
        push_member(&mut m, "title", string_or_null(&toplevel.title));
        push_member(&mut m, "app-id", string_or_null(&toplevel.app_id));
        let ghost base = members_model(m@);
        assert(base =~= seq![("title"@, str_or_null(t.title)), ("app-id"@, str_or_null(t.app_id))]);
        if with_state {
            push_member(&mut m, "activated", JsonValue::Bool(toplevel.state.activated));
            push_member(&mut m, "fullscreen", JsonValue::Bool(toplevel.state.fullscreen));
            push_member(&mut m, "minimized", JsonValue::Bool(toplevel.state.minimized));
            push_member(&mut m, "maximized", JsonValue::Bool(toplevel.state.maximized));
        }
        let ghost with_flags = members_model(m@);
        assert(with_flags =~= base + (if with_state { json_state_members(t.state) } else { Seq::empty() }));
        if with_identifier {
            push_member(&mut m, "identifier", string_or_null(&toplevel.identifier));
        }
        let ghost with_id = members_model(m@);
        assert(with_id =~= with_flags + (if with_identifier { seq![("identifier"@, str_or_null(t.identifier))] } else { Seq::empty() }));
        if toplevel.outputs.len() > 0 {
            push_member(&mut m, "outputs", string_array(&toplevel.outputs));
        }
        assert(members_model(m@) =~= with_id + (if t.outputs.len() > 0 { seq![("outputs"@, JsonModel::Array(strs_model(t.outputs)))] } else { Seq::empty() }));
        object(m)
    }

    /// The JSON document of the listing.
    pub fn write_json(&self, toplevels: &[Toplevel], protocol: UsedProtocol) -> (r: JsonValue)
        ensures
            r@ == json_document(toplevels_view(toplevels@), protocol),
    {
        let ghost tv = toplevels_view(toplevels@);
        let si = reports_identifier(protocol);
        let ss = reports_state(protocol);
        let mut supported: Vec<(String, JsonValue)> = Vec::new();
        push_member(&mut supported, "title", JsonValue::Bool(true));
        push_member(&mut supported, "app-id", JsonValue::Bool(true));
        push_member(&mut supported, "identifier", JsonValue::Bool(si));
        push_member(&mut supported, "fullscreen", JsonValue::Bool(ss));
        push_member(&mut supported, "activated", JsonValue::Bool(ss));
        push_member(&mut supported, "minimized", JsonValue::Bool(ss));
        push_member(&mut supported, "maximized", JsonValue::Bool(ss));
        assert(members_model(supported@) =~= seq![
            ("title"@, JsonModel::Bool(true)),
            ("app-id"@, JsonModel::Bool(true)),
            ("identifier"@, JsonModel::Bool(si)),
            ("fullscreen"@, JsonModel::Bool(ss)),
            ("activated"@, JsonModel::Bool(ss)),
            ("minimized"@, JsonModel::Bool(ss)),
            ("maximized"@, JsonModel::Bool(ss)),
        ]);
        let supported = object(supported);
        let mut items: Vec<JsonValue> = Vec::new();
        let n = toplevels.len();
        let mut i: usize = 0;
        while i < n
            invariant
                n == toplevels@.len(),
                tv == toplevels_view(toplevels@),
                i <= n,
                items@.len() == i,
                models(items@) == json_toplevels(tv.take(i as int), si, ss),
            decreases n - i,
        {
            let e = self.json_toplevel_value(&toplevels[i], si, ss);
            let ghost prev = items@;
            items.push(e);
            assert forall|j: int| 0 <= j < i + 1 implies models(items@)[j] == json_toplevels(tv.take(i + 1), si, ss)[j] by {
                if j < i {
                    assert(models(prev)[j] == json_toplevels(tv.take(i as int), si, ss)[j]);
                }
            }
            assert(models(items@) =~= json_toplevels(tv.take(i + 1), si, ss));
            i = i + 1;
        }
        assert(tv.take(n as int) =~= tv);
        proof {
            crate::json::lemma_array_model(items);
        }
        let items = JsonValue::Array(items);
        let mut doc: Vec<(String, JsonValue)> = Vec::new();
        push_member(&mut doc, "json-output-version", JsonValue::Number(2));
        push_member(&mut doc, "supported-data", supported);
        push_member(&mut doc, "toplevels", items);
        assert(members_model(doc@) =~~= seq![
            ("json-output-version"@, JsonModel::Number(2)),
            ("supported-data"@, json_supported_data(si, ss)),
            ("toplevels"@, JsonModel::Array(json_toplevels(tv, si, ss))),
        ]);
        object(doc)
    }

    /// Renders the toplevels in the writer's format. `terminal` tells
    /// whether the output goes to a terminal, where the normal header is
    /// printed in bold.
    pub fn write_toplevels(&self, toplevels: &[Toplevel], protocol: UsedProtocol, terminal: bool) -> (r: Rendered)
        requires
            self@.format == OutputFormat::Custom ==> self@.custom_format is Some,
        ensures
            r@ == rendering(self@, toplevels_view(toplevels@), protocol, terminal),
    {
        match self.format {
            OutputFormat::Normal => Rendered::Text(self.write_normal(toplevels, protocol, terminal)),
            OutputFormat::Json => Rendered::Json(self.write_json(toplevels, protocol)),
            OutputFormat::Custom => Rendered::Text(self.write_custom(toplevels, protocol)),
        }
    }

    /// The format the writer renders in.
    pub fn format(&self) -> (r: OutputFormat)
        ensures
            r == self@.format,
    {
        self.format
    }

    /// Whether the writer was given a custom format.
    pub fn has_custom_format(&self) -> (r: bool)
        ensures
            r == self@.custom_format is Some,
    {
        self.custom_format.is_some()
    }
}

} // verus!
