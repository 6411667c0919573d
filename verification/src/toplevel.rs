//! A toplevel window as reported by the compositor, and the actions that
//! can be asked of it.

use vstd::prelude::*;
use crate::text::{decimal, push_decimal, str_eq};

verus! {

/// The window state flags that the state-reporting protocols announce.
#[derive(Clone, Copy, Debug, PartialEq, Eq, Structural)]
pub struct ToplevelState {
    pub fullscreen: bool,
    pub activated: bool,
    pub maximized: bool,
    pub minimized: bool,
}

impl ToplevelState {
    /// The state with every flag cleared.
    pub open spec fn cleared() -> ToplevelState {
        ToplevelState { fullscreen: false, activated: false, maximized: false, minimized: false }
    }
}

impl Default for ToplevelState {
    fn default() -> (r: ToplevelState)
        ensures
            r == ToplevelState::cleared(),
    {
        ToplevelState { fullscreen: false, activated: false, maximized: false, minimized: false }
    }
}

/// Actions that can be performed on a toplevel.
#[derive(Clone, Copy, Debug, PartialEq, Eq, Structural)]
pub enum ToplevelAction {
    Maximize,
    UnMaximize,
    Minimize,
    UnMinimize,
    Activate,
    Fullscreen,
    UnFullscreen,
    Close,
}

/// A toplevel window and what is known of it.
#[derive(Clone, Debug)]
pub struct Toplevel {
    pub id: usize,
    pub title: Option<String>,
    pub app_id: Option<String>,
    pub identifier: Option<String>,
    pub state: ToplevelState,
    pub outputs: Vec<String>,
    pub listed: bool,
    pub handle_id: Option<usize>,
}

/// The mathematical content of a [`Toplevel`]: strings as character
/// sequences.
pub struct ToplevelView {
    pub id: usize,
    pub title: Option<Seq<char>>,
    pub app_id: Option<Seq<char>>,
    pub identifier: Option<Seq<char>>,
    pub state: ToplevelState,
    pub outputs: Seq<Seq<char>>,
    pub listed: bool,
    pub handle_id: Option<usize>,
}

/// The characters of an optional string.
pub open spec fn opt_chars(o: Option<String>) -> Option<Seq<char>> {
    match o {
        Some(s) => Some(s@),
        None => None,
    }
}

/// The characters of each string in a sequence.
pub open spec fn strings_view(v: Seq<String>) -> Seq<Seq<char>> {
    v.map_values(|s: String| s@)
}

/// The views of a sequence of toplevels.
pub open spec fn toplevels_view(v: Seq<Toplevel>) -> Seq<ToplevelView> {
    v.map_values(|t: Toplevel| t@)
}

impl View for Toplevel {
    type V = ToplevelView;

    open spec fn view(&self) -> ToplevelView {
        ToplevelView {
            id: self.id,
            title: opt_chars(self.title),
            app_id: opt_chars(self.app_id),
            identifier: opt_chars(self.identifier),
            state: self.state,
            outputs: strings_view(self.outputs@),
            listed: self.listed,
            handle_id: self.handle_id,
        }
    }
}

/// Replacing one toplevel replaces its view.
pub proof fn lemma_views_update(v: Seq<Toplevel>)
    ensures
        forall|i: int, t: Toplevel| 0 <= i < v.len() ==> #[trigger] toplevels_view(v.update(i, t))
            == toplevels_view(v).update(i, t@),
{
    assert forall|i: int, t: Toplevel| 0 <= i < v.len() implies #[trigger] toplevels_view(v.update(i, t))
        == toplevels_view(v).update(i, t@) by {
        assert(toplevels_view(v.update(i, t)) =~= toplevels_view(v).update(i, t@));
    }
}

/// `s` with every element equal to `x` taken out, the others kept in order.
pub open spec fn without(s: Seq<Seq<char>>, x: Seq<char>) -> Seq<Seq<char>>
    decreases s.len(),
{
    if s.len() == 0 {
        s
    } else if s.last() == x {
        without(s.drop_last(), x)
    } else {
        without(s.drop_last(), x).push(s.last())
    }
}

/// Whether no element occurs twice.
pub open spec fn no_duplicates(s: Seq<Seq<char>>) -> bool {
    forall|i: int, j: int| 0 <= i < j < s.len() ==> s[i] != s[j]
}

/// Adding an output records it; the recorded outputs stay free of
/// duplicates; adding the same output again changes nothing.
pub proof fn law_add_output(t: ToplevelView, o: Seq<char>)
    ensures
        t.outputs_after_add(o).contains(o),
        no_duplicates(t.outputs) ==> no_duplicates(t.outputs_after_add(o)),
        (ToplevelView { outputs: t.outputs_after_add(o), ..t }).outputs_after_add(o) == t.outputs_after_add(o),
{
    let a = t.outputs_after_add(o);
    if !t.outputs.contains(o) {
        assert(a[a.len() - 1] == o);
        if no_duplicates(t.outputs) {
            assert forall|i: int, j: int| 0 <= i < j < a.len() implies a[i] != a[j] by {
                if j == a.len() - 1 {
                    assert(a[i] == t.outputs[i]);
                }
            }
        }
    }
    assert(a.contains(o));
}

/// Removing an output forgets every record of it and keeps every other
/// output; removing it again changes nothing.
pub proof fn law_remove_output(s: Seq<Seq<char>>, x: Seq<char>)
    ensures
        !without(s, x).contains(x),
        forall|y: Seq<char>| y != x ==> (without(s, x).contains(y) <==> s.contains(y)),
        without(without(s, x), x) == without(s, x),
    decreases s.len(),
{
    if s.len() > 0 {
        let p = s.drop_last();
        law_remove_output(p, x);
        let w = without(p, x);
        assert forall|y: Seq<char>| y != x implies (without(s, x).contains(y) <==> s.contains(y)) by {
            assert(without(p, x).contains(y) <==> p.contains(y));
            if s.contains(y) {
                let k = choose|k: int| 0 <= k < s.len() && s[k] == y;
                if k < s.len() - 1 {
                    assert(p[k] == y);
                    assert(p.contains(y));
                    let m = choose|m: int| 0 <= m < w.len() && w[m] == y;
                    if s.last() != x {
                        assert(w.push(s.last())[m] == y);
                    }
                } else if s.last() != x {
                    assert(w.push(s.last())[w.len() as int] == y);
                }
            }
            if without(s, x).contains(y) {
                let m = choose|m: int| 0 <= m < without(s, x).len() && without(s, x)[m] == y;
                if s.last() != x && m == w.len() {
                    assert(s[s.len() - 1] == y);
                } else {
                    assert(w[m] == y);
                    assert(w.contains(y));
                    let k = choose|k: int| 0 <= k < p.len() && p[k] == y;
                    assert(s[k] == y);
                }
            }
        }
        if s.last() != x {
            assert forall|m: int| 0 <= m < w.push(s.last()).len() implies w.push(s.last())[m] != x by {
                if m < w.len() {
                    assert(w[m] != x) by {
                        if w[m] == x {
                            assert(w.contains(x));
                        }
                    }
                }
            }
            let v = w.push(s.last());
            assert(v.drop_last() =~= w);
            assert(without(v, x) == without(w, x).push(s.last()));
        }
    }
}

/// What the string accessors give for a missing value.
pub open spec fn null_text() -> Seq<char> {
    "<NULL>"@
}

/// An optional string, or the placeholder when it is missing.
pub open spec fn or_null(o: Option<Seq<char>>) -> Seq<char> {
    match o {
        Some(s) => s,
        None => null_text(),
    }
}

impl ToplevelView {
    /// A fresh toplevel with the given id.
    pub open spec fn fresh(id: usize) -> ToplevelView {
        ToplevelView {
            id,
            title: None,
            app_id: None,
            identifier: None,
            state: ToplevelState::cleared(),
            outputs: Seq::empty(),
            listed: false,
            handle_id: None,
        }
    }

    /// The outputs after adding `o`: appended unless already present.
    pub open spec fn outputs_after_add(self, o: Seq<char>) -> Seq<Seq<char>> {
        if self.outputs.contains(o) {
            self.outputs
        } else {
            self.outputs.push(o)
        }
    }
}

impl Toplevel {
    /// A toplevel that nothing is known of yet.
    pub fn new(id: usize) -> (r: Toplevel)
        ensures
            r@ == ToplevelView::fresh(id),
    {
        let r = Toplevel {
            id,
            title: None,
            app_id: None,
            identifier: None,
            state: ToplevelState::default(),
            outputs: Vec::new(),
            listed: false,
            handle_id: None,
        };
        assert(r@.outputs =~= Seq::<Seq<char>>::empty());
        r
    }

    /// Records the title.
    pub fn set_title(&mut self, title: String)
        ensures
            final(self)@ == (ToplevelView { title: Some(title@), ..old(self)@ }),
    {
        self.title = Some(title);
    }

    /// Records the app-id.
    pub fn set_app_id(&mut self, app_id: String)
        ensures
            final(self)@ == (ToplevelView { app_id: Some(app_id@), ..old(self)@ }),
    {
        self.app_id = Some(app_id);
    }

    /// Records the identifier.
    pub fn set_identifier(&mut self, identifier: String)
        ensures
            final(self)@ == (ToplevelView { identifier: Some(identifier@), ..old(self)@ }),
    {
        self.identifier = Some(identifier);
    }

    /// Records the window state.
    pub fn set_state(&mut self, state: ToplevelState)
        ensures
            final(self)@ == (ToplevelView { state, ..old(self)@ }),
    {
        self.state = state;
    }

    /// Records that the compositor finished describing the toplevel.
    pub fn mark_listed(&mut self)
        ensures
            final(self)@ == (ToplevelView { listed: true, ..old(self)@ }),
    {
        self.listed = true;
    }

    /// Records that the toplevel is shown on an output; an output already
    /// recorded is not recorded twice.
    pub fn add_output(&mut self, output: String)
        ensures
            final(self)@ == (ToplevelView { outputs: old(self)@.outputs_after_add(output@), ..old(self)@ }),
    {
        let n = self.outputs.len();
        let mut found = false;
        let mut i: usize = 0;
        while i < n
            invariant
                n == self.outputs.len(),
                i <= n,
                found <==> exists|j: int| 0 <= j < i && self.outputs@[j]@ == output@,
            decreases n - i,
        {
            if self.outputs[i] == output {
                found = true;
            }
            i = i + 1;
        }
        let ghost before = self@;
        proof {
            if found {
                let j = choose|j: int| 0 <= j < i && self.outputs@[j]@ == output@;
                assert(before.outputs[j] == output@);
            } else {
                assert forall|j: int| 0 <= j < before.outputs.len() implies before.outputs[j] != output@ by {
                    assert(self.outputs@[j]@ == before.outputs[j]);
                }
            }
        }
        if !found {
            self.outputs.push(output);
            assert(self@.outputs =~= before.outputs.push(output@));
        }
    }

    /// Forgets every record of the given output.
    pub fn remove_output(&mut self, output: &str)
        ensures
            final(self)@ == (ToplevelView { outputs: without(old(self)@.outputs, output@), ..old(self)@ }),
    {
        let ghost olds = self@.outputs;
        let n = self.outputs.len();
        let mut kept: Vec<String> = Vec::new();
        let mut i: usize = 0;
        while i < n
            invariant
                n == self.outputs.len(),
                i <= n,
                olds == strings_view(self.outputs@),
                strings_view(kept@) == without(olds.take(i as int), output@),
            decreases n - i,
        {
            assert(olds.take(i + 1).drop_last() =~= olds.take(i as int));
            if !str_eq(self.outputs[i].as_str(), output) {
                let o = self.outputs[i].clone();
                kept.push(o);
                assert(strings_view(kept@) =~= without(olds.take(i as int), output@).push(olds[i as int]));
            }
            i = i + 1;
        }
        assert(olds.take(n as int) =~= olds);
        self.outputs = kept;
    }

    /// The title, or `<NULL>` when there is none.
    pub fn title_str(&self) -> (r: &str)
        ensures
            r@ == or_null(self@.title),
    {
        match &self.title {
            Some(t) => t.as_str(),
            None => "<NULL>",
        }
    }

    /// The app-id, or `<NULL>` when there is none.
    pub fn app_id_str(&self) -> (r: &str)
        ensures
            r@ == or_null(self@.app_id),
    {
        match &self.app_id {
            Some(t) => t.as_str(),
            None => "<NULL>",
        }
    }

    /// The identifier, or `<NULL>` when there is none.
    pub fn identifier_str(&self) -> (r: &str)
        ensures
            r@ == or_null(self@.identifier),
    {
        match &self.identifier {
            Some(t) => t.as_str(),
            None => "<NULL>",
        }
    }
}

/// Stores the handle of toplevel `idx` in its slot unless a handle is
/// already there; the list of slots grows with empty slots to reach `idx`.
/// Returns whether the handle was stored now.
pub fn store_handle<T>(slots: &mut Vec<Option<T>>, idx: usize, handle: T) -> (stored: bool)
    ensures
        final(slots)@.len() == if idx < old(slots)@.len() { old(slots)@.len() as int } else { idx + 1 },
        stored == (idx >= old(slots)@.len() || old(slots)@[idx as int] is None),
        final(slots)@[idx as int] == if stored { Some(handle) } else { old(slots)@[idx as int] },
        forall|k: int| 0 <= k < old(slots)@.len() && k != idx ==> final(slots)@[k] == old(slots)@[k],
        forall|k: int| old(slots)@.len() <= k < final(slots)@.len() && k != idx ==> final(slots)@[k] is None,
{
    let ghost start = slots@;
    while slots.len() <= idx
        invariant
            start.len() <= idx ==> slots@.len() <= idx + 1,
            start.len() <= slots@.len(),
            idx < start.len() ==> slots@ == start,
            forall|k: int| 0 <= k < start.len() ==> slots@[k] == start[k],
            forall|k: int| start.len() <= k < slots@.len() ==> slots@[k] is None,
        decreases idx + 1 - slots@.len(),
    {
        slots.push(None);
    }
    if slots[idx].is_none() {
        slots.set(idx, Some(handle));
        true
    } else {
        false
    }
}

/// The protocol that a toplevel handle belongs to.
#[derive(Clone, Copy, Debug, PartialEq, Eq, Structural)]
pub enum HandleKind {
    Wlr,
    Treeland,
}

/// A request to send on a toplevel handle.
#[derive(Clone, Copy, Debug, PartialEq, Eq, Structural)]
pub enum HandleRequest {
    SetMaximized,
    UnsetMaximized,
    SetMinimized,
    UnsetMinimized,
    SetFullscreen,
    UnsetFullscreen,
    Close,
}

/// The request that carries out an action, or why it cannot be carried
/// out: there is no handle for the toplevel, or activating needs a seat,
/// which neither protocol is given.
pub open spec fn action_plan(handle: Option<HandleKind>, toplevel_id: usize, action: ToplevelAction) -> Result<HandleRequest, Seq<char>> {
    match handle {
        None => Err("No handle found for toplevel "@ + decimal(toplevel_id as nat)),
        Some(kind) => match action {
            ToplevelAction::Maximize => Ok(HandleRequest::SetMaximized),
            ToplevelAction::UnMaximize => Ok(HandleRequest::UnsetMaximized),
            ToplevelAction::Minimize => Ok(HandleRequest::SetMinimized),
            ToplevelAction::UnMinimize => Ok(HandleRequest::UnsetMinimized),
            ToplevelAction::Activate => Err(match kind {
                HandleKind::Wlr => "Activate requires a seat object (not yet implemented for wlr)"@,
                HandleKind::Treeland => "Activate requires a seat object (not yet implemented for treeland)"@,
            }),
            ToplevelAction::Fullscreen => Ok(HandleRequest::SetFullscreen),
            ToplevelAction::UnFullscreen => Ok(HandleRequest::UnsetFullscreen),
            ToplevelAction::Close => Ok(HandleRequest::Close),
        },
    }
}

/// The characters of a result's error message.
pub open spec fn plan_view(r: Result<HandleRequest, String>) -> Result<HandleRequest, Seq<char>> {
    match r {
        Ok(q) => Ok(q),
        Err(e) => Err(e@),
    }
}

/// Decides which request carries out an action on a toplevel, given the
/// kind of its handle if there is one.
pub fn plan_action(handle: Option<HandleKind>, toplevel_id: usize, action: ToplevelAction) -> (r: Result<HandleRequest, String>)
    ensures
        plan_view(r) == action_plan(handle, toplevel_id, action),
{
    match handle {
        None => {
            let mut m = String::new();
            m.append("No handle found for toplevel ");
            push_decimal(&mut m, toplevel_id);
            Err(m)
        },
        Some(kind) => match action {
            ToplevelAction::Maximize => Ok(HandleRequest::SetMaximized),
            ToplevelAction::UnMaximize => Ok(HandleRequest::UnsetMaximized),
            ToplevelAction::Minimize => Ok(HandleRequest::SetMinimized),
            ToplevelAction::UnMinimize => Ok(HandleRequest::UnsetMinimized),
            ToplevelAction::Activate => Err(match kind {
                HandleKind::Wlr => "Activate requires a seat object (not yet implemented for wlr)".to_owned(),
                HandleKind::Treeland => "Activate requires a seat object (not yet implemented for treeland)".to_owned(),
            }),
            ToplevelAction::Fullscreen => Ok(HandleRequest::SetFullscreen),
            ToplevelAction::UnFullscreen => Ok(HandleRequest::UnsetFullscreen),
            ToplevelAction::Close => Ok(HandleRequest::Close),
        },
    }
}

} // verus!
