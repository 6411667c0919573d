//! Which toplevel protocol is in use, and the state kept from its events.

pub mod common;
pub mod ext_foreign_toplevel;
pub mod treeland_foreign_toplevel;
pub mod wlr_foreign_toplevel;

use vstd::prelude::*;
use crate::cli::{lines_view, push_owned_line, Args, Mode};
use crate::text::{decimal, push_decimal, str_eq};
use crate::toplevel::{opt_chars, toplevels_view, Toplevel, ToplevelView};
use self::common::{
    created_line, decode_state_values, decoded_entries, destroyed_line, line_prefix, line_start, simple_line,
    state_change_lines, state_change_log, native_big_endian, state_from_values, state_of_values, watching,
};

verus! {

/// The protocol extension through which toplevels are learned of.
#[derive(Clone, Copy, Debug, PartialEq, Eq, Structural)]
pub enum UsedProtocol {
    NoProtocol,
    WlrForeignToplevel,
    ExtForeignToplevel,
    TreelandForeignToplevel,
}

/// Whether the protocol reports window state flags.
pub open spec fn protocol_reports_state(p: UsedProtocol) -> bool {
    p == UsedProtocol::WlrForeignToplevel || p == UsedProtocol::TreelandForeignToplevel
}

/// Whether the protocol reports a stable identifier.
pub open spec fn protocol_reports_identifier(p: UsedProtocol) -> bool {
    p == UsedProtocol::ExtForeignToplevel || p == UsedProtocol::TreelandForeignToplevel
}

/// Whether the protocol reports window state flags.
pub fn reports_state(p: UsedProtocol) -> (r: bool)
    ensures
        r == protocol_reports_state(p),
{
    p == UsedProtocol::WlrForeignToplevel || p == UsedProtocol::TreelandForeignToplevel
}

/// Whether the protocol reports a stable identifier.
pub fn reports_identifier(p: UsedProtocol) -> (r: bool)
    ensures
        r == protocol_reports_identifier(p),
{
    p == UsedProtocol::ExtForeignToplevel || p == UsedProtocol::TreelandForeignToplevel
}

/// What is known while connected: the toplevels, the protocol in use and
/// the settings that steer event handling.
pub struct AppState {
    pub toplevels: Vec<Toplevel>,
    pub used_protocol: UsedProtocol,
    pub force_protocol: Option<String>,
    pub mode: Mode,
    pub next_id: usize,
    /// Whether state arrays are read most significant byte first: the
    /// machine's byte order, learnt once when the state is made and used
    /// for every state event, whatever protocol delivers it.
    pub big_endian: bool,
}

/// The mathematical content of an [`AppState`].
pub struct AppView {
    pub toplevels: Seq<ToplevelView>,
    pub used_protocol: UsedProtocol,
    pub force_protocol: Option<Seq<char>>,
    pub mode: Mode,
    pub next_id: usize,
    pub big_endian: bool,
}

impl View for AppState {
    type V = AppView;

    open spec fn view(&self) -> AppView {
        AppView {
            toplevels: toplevels_view(self.toplevels@),
            used_protocol: self.used_protocol,
            force_protocol: opt_chars(self.force_protocol),
            mode: self.mode,
            next_id: self.next_id,
            big_endian: self.big_endian,
        }
    }
}

/// The first position at or after `start` of a toplevel with the given
/// id, or -1 when there is none.
pub open spec fn index_from(ts: Seq<ToplevelView>, id: usize, start: int) -> int
    decreases ts.len() - start,
{
    if start < 0 || start >= ts.len() {
        -1
    } else if ts[start].id == id {
        start
    } else {
        index_from(ts, id, start + 1)
    }
}

/// The first position of a toplevel with the given id, or -1 when there
/// is none.
pub open spec fn index_of(ts: Seq<ToplevelView>, id: usize) -> int {
    index_from(ts, id, 0)
}

/// What [`index_from`] finds: the first matching position, or that no
/// position matches.
pub proof fn lemma_index_from(ts: Seq<ToplevelView>, id: usize, start: int)
    requires
        0 <= start,
    ensures
        index_from(ts, id, start) == -1 ==> forall|j: int| start <= j < ts.len() ==> ts[j].id != id,
        index_from(ts, id, start) != -1 ==> {
            let r = index_from(ts, id, start);
            &&& start <= r < ts.len()
            &&& ts[r].id == id
            &&& forall|j: int| start <= j < r ==> ts[j].id != id
        },
    decreases ts.len() - start,
{
    if start < ts.len() && ts[start].id != id {
        lemma_index_from(ts, id, start + 1);
    }
}

/// What [`index_of`] finds: the first matching position, or that no
/// position matches.
pub proof fn lemma_index_of(ts: Seq<ToplevelView>, id: usize)
    ensures
        index_of(ts, id) == -1 <==> forall|j: int| 0 <= j < ts.len() ==> ts[j].id != id,
        index_of(ts, id) != -1 ==> {
            let r = index_of(ts, id);
            &&& 0 <= r < ts.len()
            &&& ts[r].id == id
            &&& forall|j: int| 0 <= j < r ==> ts[j].id != id
        },
{
    lemma_index_from(ts, id, 0);
}

/// Replacing a toplevel by one with the same id keeps where ids are first
/// found.
pub proof fn lemma_index_update(ts: Seq<ToplevelView>, id: usize, i: int, t: ToplevelView)
    requires
        0 <= i < ts.len(),
        t.id == ts[i].id,
    ensures
        index_of(ts.update(i, t), id) == index_of(ts, id),
{
    lemma_index_of(ts, id);
    lemma_index_of(ts.update(i, t), id);
    let a = index_of(ts, id);
    let b = index_of(ts.update(i, t), id);
    if a != b {
        if a == -1 {
            assert(ts[b].id == id);
        } else if b == -1 {
            assert(ts.update(i, t)[a].id == id);
        } else if a < b {
            assert(ts.update(i, t)[a].id == id);
        } else {
            assert(ts[b].id == id);
        }
    }
}

/// The position of the first toplevel with the given id.
pub fn position_of_id(toplevels: &[Toplevel], id: usize) -> (r: Option<usize>)
    ensures
        match r {
            Some(i) => i as int == index_of(toplevels_view(toplevels@), id),
            None => index_of(toplevels_view(toplevels@), id) == -1,
        },
{
    let ghost tv = toplevels_view(toplevels@);
    let n = toplevels.len();
    let mut i: usize = 0;
    while i < n
        invariant
            n == toplevels@.len(),
            tv == toplevels_view(toplevels@),
            i <= n,
            index_of(tv, id) == index_from(tv, id, i as int),
        decreases n - i,
    {
        if toplevels[i].id == id {
            return Some(i);
        }
        i = i + 1;
    }
    None
}

impl AppState {
    /// The state before anything is known: no toplevels and no protocol.
    pub fn new(args: &Args) -> (r: AppState)
        ensures
            r@ == (AppView {
                toplevels: Seq::empty(),
                used_protocol: UsedProtocol::NoProtocol,
                force_protocol: opt_chars(args.force_protocol),
                mode: args.mode,
                next_id: 0,
                big_endian: r.big_endian,
            }),
    {
        let force = match &args.force_protocol {
            Some(f) => Some(f.clone()),
            None => None,
        };
        let r = AppState {
            toplevels: Vec::new(),
            used_protocol: UsedProtocol::NoProtocol,
            force_protocol: force,
            mode: args.mode,
            next_id: 0,
            big_endian: native_big_endian(),
        };
        assert(r@.toplevels =~= Seq::<ToplevelView>::empty());
        r
    }

    /// Hands out the next toplevel id; ids are handed out in increasing
    /// order.
    pub fn next_toplevel_id(&mut self) -> (id: usize)
        requires
            old(self).next_id < usize::MAX,
        ensures
            id == old(self).next_id,
            final(self)@ == (AppView { next_id: (old(self).next_id + 1) as usize, ..old(self)@ }),
    {
        let id = self.next_id;
        self.next_id = self.next_id + 1;
        id
    }

    /// Whether toplevel events are logged.
    pub fn is_watching(&self) -> (r: bool)
        ensures
            r == watching(self.mode),
    {
        self.mode == Mode::Watch || self.mode == Mode::VerboseWatch
    }

    /// Adds a toplevel at the end; in watch mode the log line that
    /// announces it is returned.
    pub fn add_toplevel(&mut self, toplevel: Toplevel) -> (log: Option<String>)
        ensures
            final(self)@ == (AppView { toplevels: old(self)@.toplevels.push(toplevel@), ..old(self)@ }),
            match log {
                Some(l) => watching(old(self).mode) && l@ == created_line(toplevel.id as nat),
                None => !watching(old(self).mode),
            },
    {
        let log = if self.is_watching() {
            Some(simple_line(toplevel.id, "created"))
        } else {
            None
        };
        let ghost t = toplevel@;
        self.toplevels.push(toplevel);
        assert(self@.toplevels =~= old(self)@.toplevels.push(t));
        log
    }

    /// The position of the first toplevel with the given id.
    pub fn find_toplevel(&self, id: usize) -> (r: Option<usize>)
        ensures
            match r {
                Some(i) => i as int == index_of(self@.toplevels, id),
                None => index_of(self@.toplevels, id) == -1,
            },
    {
        position_of_id(self.toplevels.as_slice(), id)
    }

    /// The first toplevel with the given id, to change in place.
    pub fn find_toplevel_mut(&mut self, id: usize) -> (r: Option<&mut Toplevel>)
        ensures
            match r {
                Some(t) => {
                    let i = index_of(old(self)@.toplevels, id);
                    &&& 0 <= i
                    &&& t@ == old(self)@.toplevels[i]
                    &&& final(self)@ == (AppView { toplevels: old(self)@.toplevels.update(i, final(t)@), ..old(self)@ })
                },
                None => index_of(old(self)@.toplevels, id) == -1 && final(self)@ == old(self)@,
            },
    {
        match self.find_toplevel(id) {
            Some(i) => {
                proof {
                    lemma_index_of(self@.toplevels, id);
                    crate::toplevel::lemma_views_update(self.toplevels@);
                }
                let t = &mut self.toplevels[i];
                Some(t)
            },
            None => None,
        }
    }

    /// Removes the first toplevel with the given id, if there is one; in
    /// watch mode the log line that announces it is returned.
    pub fn remove_toplevel(&mut self, id: usize) -> (log: Option<String>)
        ensures
            index_of(old(self)@.toplevels, id) == -1 ==> final(self)@ == old(self)@ && log is None,
            index_of(old(self)@.toplevels, id) != -1 ==> {
                &&& final(self)@ == (AppView {
                    toplevels: old(self)@.toplevels.remove(index_of(old(self)@.toplevels, id)),
                    ..old(self)@
                })
                &&& match log {
                    Some(l) => watching(old(self).mode) && l@ == destroyed_line(id as nat),
                    None => !watching(old(self).mode),
                }
            },
    {
        match self.find_toplevel(id) {
            Some(i) => {
                proof {
                    lemma_index_of(self@.toplevels, id);
                }
                let log = if self.is_watching() {
                    Some(simple_line(id, "destroyed"))
                } else {
                    None
                };
                let ghost before = self@.toplevels;
                self.toplevels.remove(i);
                assert(self@.toplevels =~= before.remove(i as int));
                log
            },
            None => None,
        }
    }

    /// Whether a supported protocol was found.
    pub fn has_protocol(&self) -> (r: bool)
        ensures
            r == (self.used_protocol != UsedProtocol::NoProtocol),
    {
        self.used_protocol != UsedProtocol::NoProtocol
    }

    /// Whether the protocol in use reports stable identifiers.
    pub fn supports_identifier(&self) -> (r: bool)
        ensures
            r == protocol_reports_identifier(self.used_protocol),
    {
        reports_identifier(self.used_protocol)
    }

    /// Whether the protocol in use reports window state flags.
    pub fn supports_state(&self) -> (r: bool)
        ensures
            r == protocol_reports_state(self.used_protocol),
    {
        reports_state(self.used_protocol)
    }
}

/// An event about one toplevel, as the protocols deliver them.
#[derive(Debug)]
pub enum ToplevelEvent {
    /// The title changed.
    Title(String),
    /// The app-id changed.
    AppId(String),
    /// The toplevel's identifier, as a string.
    Identifier(String),
    /// The toplevel's identifier, as a number.
    NumericIdentifier(u32),
    /// The id of the process that owns the toplevel.
    Pid(u32),
    /// The window state, as an array of native-endian 32-bit values.
    State(Vec<u8>),
    /// A batch of changes is complete.
    Done,
    /// The toplevel is gone.
    Closed,
    /// Anything this tool does not follow.
    Other,
}

/// The log line for a title: a change from the old one, or the first one.
pub open spec fn title_line(id: nat, old: Option<Seq<char>>, new: Seq<char>) -> Seq<char> {
    match old {
        Some(o) => line_prefix(id) + "change title: '"@ + o + "' -> '"@ + new + "'"@,
        None => line_prefix(id) + "set title: '"@ + new + "'"@,
    }
}

/// The log line for an app-id: a change from the old one, or the first one.
pub open spec fn app_id_line(id: nat, old: Option<Seq<char>>, new: Seq<char>) -> Seq<char> {
    match old {
        Some(o) => line_prefix(id) + "change app-id: '"@ + o + "' -> '"@ + new + "'"@,
        None => line_prefix(id) + "set app-id: '"@ + new + "'"@,
    }
}

/// The verbose-watch lines for state values that ask for attention (value
/// 4), one per such value; only the treeland protocol has them.
pub open spec fn attention_lines(id: nat, vals: Seq<u32>) -> Seq<Seq<char>>
    decreases vals.len(),
{
    if vals.len() == 0 {
        Seq::empty()
    } else {
        attention_lines(id, vals.drop_last()) + (if vals.last() == 4 {
            seq![line_prefix(id) + "attention: true"@]
        } else {
            Seq::empty()
        })
    }
}

/// The state once a toplevel with the given id is known: a fresh one is
/// added at the end if there was none.
pub open spec fn with_toplevel(s: AppView, id: usize) -> AppView {
    if index_of(s.toplevels, id) == -1 {
        AppView { toplevels: s.toplevels.push(ToplevelView::fresh(id)), ..s }
    } else {
        s
    }
}

/// The log lines for making sure a toplevel is known.
pub open spec fn with_toplevel_lines(s: AppView, id: usize) -> Seq<Seq<char>> {
    if index_of(s.toplevels, id) == -1 && watching(s.mode) {
        seq![created_line(id as nat)]
    } else {
        Seq::empty()
    }
}

/// The state with the toplevel at position `i` replaced.
pub open spec fn replace_at(s: AppView, i: int, t: ToplevelView) -> AppView {
    AppView { toplevels: s.toplevels.update(i, t), ..s }
}

/// What an event does to the toplevel at position `i`, which has the id
/// `id`, and the lines it logs. The entries of a state array are read most
/// significant byte first when `big_endian` holds.
pub open spec fn event_step(s: AppView, p: UsedProtocol, id: usize, i: int, ev: ToplevelEvent, big_endian: bool) -> (AppView, Seq<Seq<char>>) {
    let t = s.toplevels[i];
    let n = id as nat;
    match ev {
        ToplevelEvent::Title(x) => (
            replace_at(s, i, ToplevelView { title: Some(x@), ..t }),
            if watching(s.mode) { seq![title_line(n, t.title, x@)] } else { Seq::empty() },
        ),
        ToplevelEvent::AppId(x) => (
            replace_at(s, i, ToplevelView { app_id: Some(x@), ..t }),
            if watching(s.mode) { seq![app_id_line(n, t.app_id, x@)] } else { Seq::empty() },
        ),
        ToplevelEvent::Identifier(x) => (
            replace_at(s, i, ToplevelView { identifier: Some(x@), ..t }),
            if watching(s.mode) { seq![line_prefix(n) + "set identifier: "@ + x@] } else { Seq::empty() },
        ),
        ToplevelEvent::NumericIdentifier(x) => (
            replace_at(s, i, ToplevelView { identifier: Some(decimal(x as nat)), ..t }),
            if watching(s.mode) { seq![line_prefix(n) + "set identifier: "@ + decimal(x as nat)] } else { Seq::empty() },
        ),
        ToplevelEvent::Pid(x) => (
            s,
            if s.mode == Mode::VerboseWatch { seq![line_prefix(n) + "set pid: "@ + decimal(x as nat)] } else { Seq::empty() },
        ),
        ToplevelEvent::State(b) => {
            let vals = decoded_entries(b@, big_endian);
            (
                replace_at(s, i, ToplevelView { state: state_of_values(vals), ..t }),
                (if p == UsedProtocol::TreelandForeignToplevel && s.mode == Mode::VerboseWatch {
                    attention_lines(n, vals)
                } else {
                    Seq::empty()
                }) + state_change_lines(n, state_of_values(vals), s.mode),
            )
        },
        ToplevelEvent::Done => (replace_at(s, i, ToplevelView { listed: true, ..t }), Seq::empty()),
        ToplevelEvent::Closed => (
            AppView { toplevels: s.toplevels.remove(i), ..s },
            if watching(s.mode) { seq![destroyed_line(n)] } else { Seq::empty() },
        ),
        ToplevelEvent::Other => (s, Seq::empty()),
    }
}

/// The whole effect of an event about the toplevel `id`: the toplevel is
/// made known, its handle recorded when `new_handle` holds, then the event
/// applied. Returns the new state and the log lines, in order.
pub open spec fn event_outcome(s: AppView, p: UsedProtocol, id: usize, new_handle: bool, ev: ToplevelEvent, big_endian: bool) -> (AppView, Seq<Seq<char>>) {
    let s1 = with_toplevel(s, id);
    let i = index_of(s1.toplevels, id);
    let s2 = if new_handle { replace_at(s1, i, ToplevelView { handle_id: Some(id), ..s1.toplevels[i] }) } else { s1 };
    let (s3, lines) = event_step(s2, p, id, i, ev, big_endian);
    (s3, with_toplevel_lines(s, id) + lines)
}

/// Whether `i` is the position of the first toplevel with id `id`.
pub open spec fn found_at(s: AppView, id: usize, i: int) -> bool {
    &&& i == index_of(s.toplevels, id)
    &&& 0 <= i < s.toplevels.len()
}

impl AppState {
    /// Makes the toplevel `id` known and records its handle when
    /// `new_handle` holds; returns its position.
    fn prepare_toplevel(&mut self, id: usize, new_handle: bool, lines: &mut Vec<String>) -> (i: usize)
        ensures
            found_at(final(self)@, id, i as int),
            final(self)@ == ({
                let s1 = with_toplevel(old(self)@, id);
                if new_handle {
                    replace_at(s1, i as int, ToplevelView { handle_id: Some(id), ..s1.toplevels[i as int] })
                } else {
                    s1
                }
            }),
            index_of(with_toplevel(old(self)@, id).toplevels, id) == i,
            lines_view(final(lines)@) == lines_view(old(lines)@) + with_toplevel_lines(old(self)@, id),
    {
        let ghost s0 = self@;
        proof {
            lemma_index_of(s0.toplevels, id);
        }
        if self.find_toplevel(id).is_none() {
            let l = self.add_toplevel(Toplevel::new(id));
            if let Some(l) = l {
                push_owned_line(lines, l);
            }
        }
        let ghost s1 = self@;
        assert(s1 == with_toplevel(s0, id));
        assert(lines_view(lines@) =~= lines_view(old(lines)@) + with_toplevel_lines(s0, id));
        proof {
            lemma_index_of(s1.toplevels, id);
            if index_of(s0.toplevels, id) == -1 {
                assert(s1.toplevels.last().id == id);
            }
        }
        let i = match self.find_toplevel(id) {
            Some(i) => i,
            None => {
                assert(false);
                0
            },
        };
        proof {
            crate::toplevel::lemma_views_update(self.toplevels@);
        }
        if new_handle {
            self.toplevels[i].handle_id = Some(id);
            proof {
                lemma_index_update(s1.toplevels, id, i as int, self@.toplevels[i as int]);
            }
        }
        i
    }

    fn apply_title(&mut self, id: usize, i: usize, x: String, lines: &mut Vec<String>)
        requires
            found_at(old(self)@, id, i as int),
        ensures
            ({
                let (s, ls) = event_step(old(self)@, UsedProtocol::NoProtocol, id, i as int, ToplevelEvent::Title(x), false);
                final(self)@ == s && lines_view(final(lines)@) == lines_view(old(lines)@) + ls
            }),
    {
        proof {
            crate::toplevel::lemma_views_update(self.toplevels@);
        }
        if self.is_watching() {
            let mut l = line_start(id);
            match &self.toplevels[i].title {
                Some(o) => {
                    l.append("change title: '");
                    l.append(o.as_str());
                    l.append("' -> '");
                },
                None => {
                    l.append("set title: '");
                },
            }
            l.append(x.as_str());
            l.append("'");
            assert(l@ =~= title_line(id as nat, old(self)@.toplevels[i as int].title, x@));
            push_owned_line(lines, l);
        } else {
            assert(lines_view(lines@) =~= lines_view(old(lines)@) + Seq::<Seq<char>>::empty());
        }
        self.toplevels[i].set_title(x);
    }

    fn apply_app_id(&mut self, id: usize, i: usize, x: String, lines: &mut Vec<String>)
        requires
            found_at(old(self)@, id, i as int),
        ensures
            ({
                let (s, ls) = event_step(old(self)@, UsedProtocol::NoProtocol, id, i as int, ToplevelEvent::AppId(x), false);
                final(self)@ == s && lines_view(final(lines)@) == lines_view(old(lines)@) + ls
            }),
    {
        proof {
            crate::toplevel::lemma_views_update(self.toplevels@);
        }
        if self.is_watching() {
            let mut l = line_start(id);
            match &self.toplevels[i].app_id {
                Some(o) => {
                    l.append("change app-id: '");
                    l.append(o.as_str());
                    l.append("' -> '");
                },
                None => {
                    l.append("set app-id: '");
                },
            }
            l.append(x.as_str());
            l.append("'");
            assert(l@ =~= app_id_line(id as nat, old(self)@.toplevels[i as int].app_id, x@));
            push_owned_line(lines, l);
        } else {
            assert(lines_view(lines@) =~= lines_view(old(lines)@) + Seq::<Seq<char>>::empty());
        }
        self.toplevels[i].set_app_id(x);
    }

    /// Sets the identifier of the toplevel at `i` and logs it in watch mode.
    fn apply_identifier(&mut self, id: usize, i: usize, x: String, lines: &mut Vec<String>)
        requires
            found_at(old(self)@, id, i as int),
        ensures
            final(self)@ == replace_at(old(self)@, i as int, ToplevelView { identifier: Some(x@), ..old(self)@.toplevels[i as int] }),
            lines_view(final(lines)@) == lines_view(old(lines)@) + (if watching(old(self)@.mode) {
                seq![line_prefix(id as nat) + "set identifier: "@ + x@]
            } else {
                Seq::empty()
            }),
    {
        proof {
            crate::toplevel::lemma_views_update(self.toplevels@);
        }
        if self.is_watching() {
            let mut l = simple_line(id, "set identifier: ");
            l.append(x.as_str());
            push_owned_line(lines, l);
        } else {
            assert(lines_view(lines@) =~= lines_view(old(lines)@) + Seq::<Seq<char>>::empty());
        }
        self.toplevels[i].set_identifier(x);
    }

    fn apply_state(&mut self, p: UsedProtocol, id: usize, i: usize, bytes: Vec<u8>, big_endian: bool, lines: &mut Vec<String>)
        requires
            found_at(old(self)@, id, i as int),
        ensures
            ({
                let (s, ls) = event_step(old(self)@, p, id, i as int, ToplevelEvent::State(bytes), big_endian);
                final(self)@ == s && lines_view(final(lines)@) == lines_view(old(lines)@) + ls
            }),
    {
        proof {
            crate::toplevel::lemma_views_update(self.toplevels@);
        }
        let values = decode_state_values(bytes.as_slice(), big_endian);
        let new_state = state_from_values(values.as_slice());
        let ghost start = lines_view(lines@);
        if p == UsedProtocol::TreelandForeignToplevel && self.mode == Mode::VerboseWatch {
            let n = values.len();
            let mut k: usize = 0;
            while k < n
                invariant
                    n == values@.len(),
                    k <= n,
                    lines_view(lines@) == start + attention_lines(id as nat, values@.take(k as int)),
                decreases n - k,
            {
                assert(values@.take(k + 1).drop_last() =~= values@.take(k as int));
                if values[k] == 4 {
                    push_owned_line(lines, simple_line(id, "attention: true"));
                }
                assert(lines_view(lines@) =~= start + attention_lines(id as nat, values@.take(k + 1)));
                k = k + 1;
            }
            assert(values@.take(n as int) =~= values@);
        } else {
            assert(lines_view(lines@) =~= start + Seq::<Seq<char>>::empty());
        }
        let mut sl = state_change_log(id, &new_state, self.mode);
        let ghost mid = lines_view(lines@);
        let ghost sv = lines_view(sl@);
        lines.append(&mut sl);
        assert(lines_view(lines@) =~= mid + sv);
        self.toplevels[i].set_state(new_state);
    }

    /// Applies an event about the toplevel `id` delivered through protocol
    /// `p`, reading state arrays in the byte order that `big_endian` names:
    /// makes the toplevel known, records its handle when `new_handle` holds,
    /// applies the event, and returns the lines to log.
    pub fn handle_toplevel_event_in_order(
        &mut self,
        p: UsedProtocol,
        id: usize,
        new_handle: bool,
        event: ToplevelEvent,
        big_endian: bool,
    ) -> (r: Vec<String>)
        ensures
            (final(self)@, lines_view(r@)) == event_outcome(old(self)@, p, id, new_handle, event, big_endian),
    {
        let mut lines: Vec<String> = Vec::new();
        let i = self.prepare_toplevel(id, new_handle, &mut lines);
        let ghost s2 = self@;
        let ghost before = lines_view(lines@);
        proof {
            crate::toplevel::lemma_views_update(self.toplevels@);
        }
        match event {
            ToplevelEvent::Title(x) => {
                self.apply_title(id, i, x, &mut lines);
            },
            ToplevelEvent::AppId(x) => {
                self.apply_app_id(id, i, x, &mut lines);
            },
            ToplevelEvent::Identifier(x) => {
                self.apply_identifier(id, i, x, &mut lines);
            },
            ToplevelEvent::NumericIdentifier(x) => {
                let mut text = String::new();
                push_decimal(&mut text, x as usize);
                assert(text@ =~= decimal(x as nat));
                self.apply_identifier(id, i, text, &mut lines);
            },
            ToplevelEvent::Pid(x) => {
                if self.mode == Mode::VerboseWatch {
                    let mut l = simple_line(id, "set pid: ");
                    push_decimal(&mut l, x as usize);
                    push_owned_line(&mut lines, l);
                } else {
                    assert(lines_view(lines@) =~= before + Seq::<Seq<char>>::empty());
                }
            },
            ToplevelEvent::State(bytes) => {
                self.apply_state(p, id, i, bytes, big_endian, &mut lines);
            },
            ToplevelEvent::Done => {
                self.toplevels[i].mark_listed();
                assert(lines_view(lines@) =~= before + Seq::<Seq<char>>::empty());
            },
            ToplevelEvent::Closed => {
                let l = self.remove_toplevel(id);
                if let Some(l) = l {
                    push_owned_line(&mut lines, l);
                } else {
                    assert(lines_view(lines@) =~= before + Seq::<Seq<char>>::empty());
                }
            },
            ToplevelEvent::Other => {
                assert(lines_view(lines@) =~= before + Seq::<Seq<char>>::empty());
            },
        }
        lines
    }

    /// Applies an event about the toplevel `id` delivered through protocol
    /// `p`, reading state arrays in the machine's byte order that the state
    /// holds, and returns the lines to log.
    pub fn handle_toplevel_event(&mut self, p: UsedProtocol, id: usize, new_handle: bool, event: ToplevelEvent) -> (r: Vec<String>)
        ensures
            (final(self)@, lines_view(r@)) == event_outcome(old(self)@, p, id, new_handle, event, old(self)@.big_endian),
            exists|big_endian: bool| (final(self)@, lines_view(r@)) == #[trigger] event_outcome(old(self)@, p, id, new_handle, event, big_endian),
    {
        let big_endian = self.big_endian;
        self.handle_toplevel_event_in_order(p, id, new_handle, event, big_endian)
    }
}

/// Whether no two toplevels share an id.
pub open spec fn unique_ids(ts: Seq<ToplevelView>) -> bool {
    forall|i: int, j: int| 0 <= i < j < ts.len() ==> ts[i].id != ts[j].id
}

/// With unique ids, a toplevel is found exactly where it stands.
pub proof fn lemma_unique_index(ts: Seq<ToplevelView>, k: int)
    requires
        unique_ids(ts),
        0 <= k < ts.len(),
    ensures
        index_of(ts, ts[k].id) == k,
{
    lemma_index_of(ts, ts[k].id);
    let r = index_of(ts, ts[k].id);
    if r != k {
        if r < k {
            assert(ts[r].id == ts[k].id);
        }
    }
}

proof fn lemma_prepared(s: AppView, id: usize, new_handle: bool)
    requires
        unique_ids(s.toplevels),
    ensures
        ({
            let s1 = with_toplevel(s, id);
            let i = index_of(s1.toplevels, id);
            let s2 = if new_handle { replace_at(s1, i, ToplevelView { handle_id: Some(id), ..s1.toplevels[i] }) } else { s1 };
            &&& 0 <= i < s2.toplevels.len()
            &&& s2.toplevels[i].id == id
            &&& unique_ids(s2.toplevels)
            &&& s2.toplevels.len() == s1.toplevels.len()
            &&& s2.mode == s.mode
            &&& forall|k: int| 0 <= k < s2.toplevels.len() && k != i ==> s2.toplevels[k] == s1.toplevels[k]
            &&& (index_of(s.toplevels, id) == -1 ==> i == s.toplevels.len() && s1.toplevels == s.toplevels.push(ToplevelView::fresh(id)))
            &&& (index_of(s.toplevels, id) != -1 ==> i == index_of(s.toplevels, id) && s1 == s)
        }),
{
    lemma_index_of(s.toplevels, id);
    let s1 = with_toplevel(s, id);
    lemma_index_of(s1.toplevels, id);
    if index_of(s.toplevels, id) == -1 {
        assert(s1.toplevels[s.toplevels.len() as int].id == id);
        assert(unique_ids(s1.toplevels)) by {
            assert forall|a: int, b: int| 0 <= a < b < s1.toplevels.len() implies s1.toplevels[a].id != s1.toplevels[b].id by {
                if b == s.toplevels.len() {
                    assert(s.toplevels[a].id != id);
                }
            }
        }
    }
}

/// The toplevel that an event is about, where the event leaves it.
pub open spec fn after_event(s: AppView, p: UsedProtocol, id: usize, new_handle: bool, ev: ToplevelEvent, big_endian: bool) -> AppView {
    event_outcome(s, p, id, new_handle, ev, big_endian).0
}

/// Handling an event keeps toplevel ids unique; afterwards the toplevel
/// is known unless the event closed it, and a closed toplevel is
/// forgotten.
pub proof fn law_event_keeps_ids_unique(s: AppView, p: UsedProtocol, id: usize, new_handle: bool, ev: ToplevelEvent, big_endian: bool)
    requires
        unique_ids(s.toplevels),
    ensures
        unique_ids(after_event(s, p, id, new_handle, ev, big_endian).toplevels),
        (index_of(after_event(s, p, id, new_handle, ev, big_endian).toplevels, id) == -1) <==> (ev is Closed),
{
    lemma_prepared(s, id, new_handle);
    let s1 = with_toplevel(s, id);
    let i = index_of(s1.toplevels, id);
    let s2 = if new_handle { replace_at(s1, i, ToplevelView { handle_id: Some(id), ..s1.toplevels[i] }) } else { s1 };
    let s3 = after_event(s, p, id, new_handle, ev, big_endian);
    assert(s3 == event_step(s2, p, id, i, ev, big_endian).0);
    if ev is Closed {
        let r = s2.toplevels.remove(i);
        assert(s3.toplevels == r);
        assert forall|a: int, b: int| 0 <= a < b < r.len() implies r[a].id != r[b].id by {
            let a2 = if a < i { a } else { a + 1 };
            let b2 = if b < i { b } else { b + 1 };
            assert(r[a] == s2.toplevels[a2]);
            assert(r[b] == s2.toplevels[b2]);
        }
        lemma_index_of(r, id);
        if index_of(r, id) != -1 {
            let k = index_of(r, id);
            let k2 = if k < i { k } else { k + 1 };
            assert(r[k] == s2.toplevels[k2]);
        }
    } else {
        let t2 = s3.toplevels;
        assert(t2.len() == s2.toplevels.len());
        assert(t2[i].id == id);
        assert forall|k: int| 0 <= k < t2.len() implies t2[k].id == s2.toplevels[k].id by {}
        assert forall|a: int, b: int| 0 <= a < b < t2.len() implies t2[a].id != t2[b].id by {
            assert(s2.toplevels[a].id != s2.toplevels[b].id);
        }
        lemma_index_of(t2, id);
    }
}

proof fn lemma_step_shape(s2: AppView, p: UsedProtocol, id: usize, i: int, ev: ToplevelEvent, big_endian: bool)
    requires
        0 <= i < s2.toplevels.len(),
        s2.toplevels[i].id == id,
    ensures
        ({
            let t = event_step(s2, p, id, i, ev, big_endian).0.toplevels;
            &&& ev is Closed ==> t == s2.toplevels.remove(i)
            &&& !(ev is Closed) ==> {
                &&& t.len() == s2.toplevels.len()
                &&& t[i].id == id
                &&& forall|k: int| 0 <= k < t.len() && k != i ==> t[k] == s2.toplevels[k]
            }
        }),
{
}

proof fn lemma_others_kept(s: Seq<ToplevelView>, s2: Seq<ToplevelView>, t: Seq<ToplevelView>, i: int, id: usize, closed: bool, other: usize)
    requires
        unique_ids(s),
        unique_ids(t),
        other != id,
        0 <= i < s2.len(),
        s2[i].id == id,
        index_of(s, id) != -1 ==> s2.len() == s.len(),
        index_of(s, id) == -1 ==> s2.len() == s.len() + 1,
        forall|k: int| 0 <= k < s.len() && k != i ==> s2[k] == s[k],
        index_of(s, id) != -1 ==> i == index_of(s, id),
        index_of(s, id) == -1 ==> i == s.len(),
        closed ==> t == s2.remove(i),
        !closed ==> t.len() == s2.len() && t[i].id == id && forall|k: int| 0 <= k < t.len() && k != i ==> t[k] == s2[k],
    ensures
        index_of(t, other) == -1 <==> index_of(s, other) == -1,
        index_of(s, other) != -1 ==> t[index_of(t, other)] == s[index_of(s, other)],
{
    lemma_index_of(s, other);
    lemma_index_of(t, other);
    lemma_index_of(s, id);
    if index_of(s, other) != -1 {
        let a = index_of(s, other);
        assert(a != i) by {
            if index_of(s, id) != -1 {
                assert(s[i].id == id);
            }
        }
        let b = if closed && a > i { a - 1 } else { a };
        assert(t[b] == s2[a]);
        assert(t[b] == s[a]);
        lemma_unique_index(t, b);
    } else if index_of(t, other) != -1 {
        let b = index_of(t, other);
        let a = if closed && b >= i { b + 1 } else { b };
        assert(t[b] == s2[a]);
        assert(a != i);
        assert(a < s.len());
        assert(s[a].id == other);
    }
}

/// An event about one toplevel leaves every other toplevel as it was.
pub proof fn law_event_leaves_others(s: AppView, p: UsedProtocol, id: usize, new_handle: bool, ev: ToplevelEvent, big_endian: bool, other: usize)
    requires
        unique_ids(s.toplevels),
        other != id,
    ensures
        ({
            let t = after_event(s, p, id, new_handle, ev, big_endian).toplevels;
            &&& (index_of(t, other) == -1 <==> index_of(s.toplevels, other) == -1)
            &&& index_of(s.toplevels, other) != -1 ==> t[index_of(t, other)] == s.toplevels[index_of(s.toplevels, other)]
        }),
{
    lemma_prepared(s, id, new_handle);
    law_event_keeps_ids_unique(s, p, id, new_handle, ev, big_endian);
    let s1 = with_toplevel(s, id);
    let i = index_of(s1.toplevels, id);
    let s2 = if new_handle { replace_at(s1, i, ToplevelView { handle_id: Some(id), ..s1.toplevels[i] }) } else { s1 };
    let t = after_event(s, p, id, new_handle, ev, big_endian).toplevels;
    assert(t == event_step(s2, p, id, i, ev, big_endian).0.toplevels);
    lemma_step_shape(s2, p, id, i, ev, big_endian);
    assert forall|k: int| 0 <= k < s.toplevels.len() && k != i implies s2.toplevels[k] == s.toplevels[k] by {
        assert(s1.toplevels[k] == s.toplevels[k]);
    }
    lemma_others_kept(s.toplevels, s2.toplevels, t, i, id, ev is Closed, other);
}

/// What an event writes is what the toplevel then holds: a title, an
/// app-id, an identifier or a window state.
pub proof fn law_event_data_is_kept(s: AppView, p: UsedProtocol, id: usize, new_handle: bool, ev: ToplevelEvent, big_endian: bool)
    requires
        unique_ids(s.toplevels),
    ensures
        ({
            let t = after_event(s, p, id, new_handle, ev, big_endian).toplevels;
            let i = index_of(t, id);
            &&& ev matches ToplevelEvent::Title(x) ==> i >= 0 && t[i].title == Some(x@)
            &&& ev matches ToplevelEvent::AppId(x) ==> i >= 0 && t[i].app_id == Some(x@)
            &&& ev matches ToplevelEvent::Identifier(x) ==> i >= 0 && t[i].identifier == Some(x@)
            &&& ev matches ToplevelEvent::NumericIdentifier(n) ==> i >= 0 && t[i].identifier == Some(decimal(n as nat))
            &&& ev matches ToplevelEvent::State(b) ==> i >= 0 && t[i].state == state_of_values(decoded_entries(b@, big_endian))
            &&& ev is Done ==> i >= 0 && t[i].listed
        }),
{
    lemma_prepared(s, id, new_handle);
    law_event_keeps_ids_unique(s, p, id, new_handle, ev, big_endian);
    let s1 = with_toplevel(s, id);
    let i = index_of(s1.toplevels, id);
    let s2 = if new_handle { replace_at(s1, i, ToplevelView { handle_id: Some(id), ..s1.toplevels[i] }) } else { s1 };
    let t = after_event(s, p, id, new_handle, ev, big_endian).toplevels;
    assert(t == event_step(s2, p, id, i, ev, big_endian).0.toplevels);
    if !(ev is Closed) {
        assert(t[i].id == id);
        lemma_unique_index(t, i);
    }
}

/// A state event gives the toplevel the window state that its array
/// announces, read in the one byte order that the state holds, whichever
/// protocol delivered it: value 0 means maximized, 1 minimized, 2 activated
/// and 3 fullscreen. The byte order itself never changes.
pub proof fn law_state_event_in_native_order(s: AppView, p: UsedProtocol, id: usize, new_handle: bool, bytes: Vec<u8>)
    requires
        unique_ids(s.toplevels),
    ensures
        ({
            let s2 = after_event(s, p, id, new_handle, ToplevelEvent::State(bytes), s.big_endian);
            let i = index_of(s2.toplevels, id);
            let vals = decoded_entries(bytes@, s.big_endian);
            &&& 0 <= i < s2.toplevels.len()
            &&& s2.toplevels[i].state.maximized == vals.contains(0)
            &&& s2.toplevels[i].state.minimized == vals.contains(1)
            &&& s2.toplevels[i].state.activated == vals.contains(2)
            &&& s2.toplevels[i].state.fullscreen == vals.contains(3)
            &&& s2.big_endian == s.big_endian
        }),
{
    let ev = ToplevelEvent::State(bytes);
    law_event_data_is_kept(s, p, id, new_handle, ev, s.big_endian);
    law_event_keeps_ids_unique(s, p, id, new_handle, ev, s.big_endian);
    lemma_index_of(after_event(s, p, id, new_handle, ev, s.big_endian).toplevels, id);
}

/// Once a protocol is in use, no advertised global changes it.
pub proof fn law_protocol_chosen_once(s: AppView, interface: Seq<char>, version: u32)
    requires
        s.used_protocol != UsedProtocol::NoProtocol,
    ensures
        global_choice(s, interface, version) is None,
{
}

/// A forced protocol is the only one taken into use.
pub proof fn law_forced_protocol_respected(s: AppView, interface: Seq<char>, version: u32)
    ensures
        global_choice(s, interface, version) matches Some((p, _)) ==> match p {
            UsedProtocol::WlrForeignToplevel => force_allows(s.force_protocol, "wlr"@, "zwlr-foreign-toplevel-management-unstable-v1"@),
            UsedProtocol::TreelandForeignToplevel => force_allows(s.force_protocol, "treeland"@, "treeland-foreign-toplevel-manager-v1"@),
            _ => false,
        },
{
}

/// A protocol global to bind, with the version to bind it at.
#[derive(Clone, Copy, Debug, PartialEq, Eq, Structural)]
pub enum BindRequest {
    /// `zwlr_foreign_toplevel_manager_v1`.
    WlrManager(u32),
    /// `treeland_foreign_toplevel_manager_v1`.
    TreelandManager(u32),
}

/// Whether the forced protocol, if any, allows the protocol with the given
/// short and full names.
pub open spec fn force_allows(force: Option<Seq<char>>, short: Seq<char>, full: Seq<char>) -> bool {
    match force {
        None => true,
        Some(f) => f == short || f == full,
    }
}

/// The protocol chosen for an advertised global, and what to bind: none
/// once a protocol is in use; otherwise the wlr manager from version 3 or
/// the treeland manager (at most version 2), each only where the forced
/// protocol allows it. The ext toplevel list is not bound yet.
pub open spec fn global_choice(s: AppView, interface: Seq<char>, version: u32) -> Option<(UsedProtocol, BindRequest)> {
    if s.used_protocol != UsedProtocol::NoProtocol {
        None
    } else if interface == "zwlr_foreign_toplevel_manager_v1"@ && version >= 3
        && force_allows(s.force_protocol, "wlr"@, "zwlr-foreign-toplevel-management-unstable-v1"@) {
        Some((UsedProtocol::WlrForeignToplevel, BindRequest::WlrManager(3)))
    } else if interface == "treeland_foreign_toplevel_manager_v1"@
        && force_allows(s.force_protocol, "treeland"@, "treeland-foreign-toplevel-manager-v1"@) {
        Some((UsedProtocol::TreelandForeignToplevel, BindRequest::TreelandManager(if version < 2 { version } else { 2 })))
    } else {
        None
    }
}

fn force_allows_exec(force: &Option<String>, short: &str, full: &str) -> (r: bool)
    ensures
        r == force_allows(opt_chars(*force), short@, full@),
{
    match force {
        None => true,
        Some(f) => str_eq(f.as_str(), short) || str_eq(f.as_str(), full),
    }
}

impl AppState {
    /// Decides what to do with a global that the registry advertises: the
    /// first supported toplevel protocol that the forced protocol allows is
    /// taken into use and returned for binding.
    pub fn handle_global(&mut self, interface: &str, version: u32) -> (r: Option<BindRequest>)
        ensures
            match global_choice(old(self)@, interface@, version) {
                Some((p, b)) => r == Some(b) && final(self)@ == (AppView { used_protocol: p, ..old(self)@ }),
                None => r is None && final(self)@ == old(self)@,
            },
    {
        if self.used_protocol != UsedProtocol::NoProtocol {
            return None;
        }
        if str_eq(interface, "zwlr_foreign_toplevel_manager_v1") && version >= 3
            && force_allows_exec(&self.force_protocol, "wlr", "zwlr-foreign-toplevel-management-unstable-v1") {
            self.used_protocol = UsedProtocol::WlrForeignToplevel;
            Some(BindRequest::WlrManager(3))
        } else if str_eq(interface, "treeland_foreign_toplevel_manager_v1")
            && force_allows_exec(&self.force_protocol, "treeland", "treeland-foreign-toplevel-manager-v1") {
            self.used_protocol = UsedProtocol::TreelandForeignToplevel;
            Some(BindRequest::TreelandManager(if version < 2 { version } else { 2 }))
        } else {
            None
        }
    }
}

/// The name that debugging output gives a protocol.
pub open spec fn protocol_name(p: UsedProtocol) -> Seq<char> {
    match p {
        UsedProtocol::NoProtocol => "None"@,
        UsedProtocol::WlrForeignToplevel => "WlrForeignToplevel"@,
        UsedProtocol::ExtForeignToplevel => "ExtForeignToplevel"@,
        UsedProtocol::TreelandForeignToplevel => "TreelandForeignToplevel"@,
    }
}

/// The name that debugging output gives a protocol; the absence of a
/// protocol is called `None`.
pub fn protocol_debug_name(p: UsedProtocol) -> (r: &'static str)
    ensures
        r@ == protocol_name(p),
{
    match p {
        UsedProtocol::NoProtocol => "None",
        UsedProtocol::WlrForeignToplevel => "WlrForeignToplevel",
        UsedProtocol::ExtForeignToplevel => "ExtForeignToplevel",
        UsedProtocol::TreelandForeignToplevel => "TreelandForeignToplevel",
    }
}

} // verus!
