//! What the state-reporting protocols share: reading the state array of
//! a state event, and the log lines of event handling.

use vstd::prelude::*;
use crate::cli::{lines_view, push_owned_line, Mode};
use crate::text::{bool_text, decimal, push_bool, push_decimal};
use crate::toplevel::ToplevelState;

verus! {

/// The 32-bit value of four bytes read least significant first.
pub open spec fn u32_le(b0: u8, b1: u8, b2: u8, b3: u8) -> int {
    b0 + 256 * b1 + 65536 * b2 + 16777216 * b3
}

/// Reads a 32-bit value in the machine's byte order.
///
/// Calls `u32::from_ne_bytes`, which reads the bytes in the native byte
/// order of the target. Every target is little-endian or big-endian, so the
/// value is one of the two readings; which one depends on the machine and
/// is left open. The library calls it on a fixed probe to learn that order.
#[verifier::external_body]
fn u32_from_ne_bytes(bytes: [u8; 4]) -> (r: u32)
    ensures
        r == u32_le(bytes[0], bytes[1], bytes[2], bytes[3]) || r == u32_le(bytes[3], bytes[2], bytes[1], bytes[0]),
{
    u32::from_ne_bytes(bytes)
}

/// Whether the machine stores integers most significant byte first. The
/// answer depends on the machine alone, so nothing is promised of it.
pub fn native_big_endian() -> bool {
    let probe = u32_from_ne_bytes([1, 0, 0, 0]);
    probe != 1
}

/// The value of the `k`-th 4-byte entry of `bytes`, read most significant
/// byte first when `big_endian` holds and least significant first otherwise.
pub open spec fn entry_in_order(bytes: Seq<u8>, k: int, big_endian: bool) -> u32 {
    (if big_endian {
        u32_le(bytes[4 * k + 3], bytes[4 * k + 2], bytes[4 * k + 1], bytes[4 * k])
    } else {
        u32_le(bytes[4 * k], bytes[4 * k + 1], bytes[4 * k + 2], bytes[4 * k + 3])
    }) as u32
}

/// The values of the complete 4-byte entries of a state array, all read in
/// one byte order; a trailing incomplete entry is ignored.
pub open spec fn decoded_entries(bytes: Seq<u8>, big_endian: bool) -> Seq<u32> {
    Seq::new(bytes.len() / 4, |k: int| entry_in_order(bytes, k, big_endian))
}

/// The window state that a list of state values announces: value 0 is
/// maximized, 1 minimized, 2 activated and 3 fullscreen; other values are
/// ignored.
pub open spec fn state_of_values(vals: Seq<u32>) -> ToplevelState {
    ToplevelState {
        maximized: vals.contains(0),
        minimized: vals.contains(1),
        activated: vals.contains(2),
        fullscreen: vals.contains(3),
    }
}

/// Reads the complete 4-byte entries of a state array in the given byte
/// order.
pub fn decode_state_values(state_array: &[u8], big_endian: bool) -> (r: Vec<u32>)
    ensures
        r@ == decoded_entries(state_array@, big_endian),
{
    let n = state_array.len() / 4;
    let mut vals: Vec<u32> = Vec::new();
    let mut k: usize = 0;
    while k < n
        invariant
            n == state_array@.len() / 4,
            k <= n,
            vals@.len() == k,
            forall|j: int| 0 <= j < k ==> vals@[j] == #[trigger] entry_in_order(state_array@, j, big_endian),
        decreases n - k,
    {
        assert(4 * k + 3 < state_array@.len()) by (nonlinear_arith)
            requires
                k < n,
                n == state_array@.len() / 4,
        ;
        assert(state_array@.len() == state_array.len());
        let b = 4 * k;
        let (hi0, hi1, hi2, lo) = if big_endian {
            (state_array[b], state_array[b + 1], state_array[b + 2], state_array[b + 3])
        } else {
            (state_array[b + 3], state_array[b + 2], state_array[b + 1], state_array[b])
        };
        let v: u32 = 16777216 * (hi0 as u32) + 65536 * (hi1 as u32) + 256 * (hi2 as u32) + (lo as u32);
        assert(v == entry_in_order(state_array@, k as int, big_endian));
        vals.push(v);
        k = k + 1;
    }
    assert(vals@ =~= decoded_entries(state_array@, big_endian));
    vals
}

/// The window state that a list of state values announces.
pub fn state_from_values(vals: &[u32]) -> (r: ToplevelState)
    ensures
        r == state_of_values(vals@),
{
    let mut st = ToplevelState { fullscreen: false, activated: false, maximized: false, minimized: false };
    let n = vals.len();
    let mut i: usize = 0;
    while i < n
        invariant
            n == vals@.len(),
            i <= n,
            st == state_of_values(vals@.take(i as int)),
        decreases n - i,
    {
        let v = vals[i];
        if v == 0 {
            st.maximized = true;
        } else if v == 1 {
            st.minimized = true;
        } else if v == 2 {
            st.activated = true;
        } else if v == 3 {
            st.fullscreen = true;
        }
        proof {
            let p = vals@.take(i as int);
            let q = vals@.take(i + 1);
            assert(q =~= p.push(v));
            assert forall|x: u32| q.contains(x) <==> (p.contains(x) || x == v) by {
                if q.contains(x) {
                    let j = choose|j: int| 0 <= j < q.len() && q[j] == x;
                    if j < i {
                        assert(p[j] == x);
                    }
                }
                if p.contains(x) {
                    let j = choose|j: int| 0 <= j < p.len() && p[j] == x;
                    assert(q[j] == x);
                }
                if x == v {
                    assert(q[i as int] == x);
                }
            }
        }
        i = i + 1;
    }
    assert(vals@.take(n as int) =~= vals@);
    st
}

/// Parses the state array of a state event into the window state flags.
/// Every entry is read in the machine's byte order.
pub fn parse_state_array(state_array: &[u8]) -> (r: ToplevelState)
    ensures
        exists|big_endian: bool| r == state_of_values(#[trigger] decoded_entries(state_array@, big_endian)),
{
    let big_endian = native_big_endian();
    let vals = decode_state_values(state_array, big_endian);
    state_from_values(vals.as_slice())
}

/// The window state with each flag set where it is set in either state.
pub open spec fn state_union(x: ToplevelState, y: ToplevelState) -> ToplevelState {
    ToplevelState {
        maximized: x.maximized || y.maximized,
        minimized: x.minimized || y.minimized,
        activated: x.activated || y.activated,
        fullscreen: x.fullscreen || y.fullscreen,
    }
}

/// The state values of two arrays, the first made of whole entries, put
/// one after the other are the values of each, and they announce every flag
/// that either array announces.
pub proof fn law_state_array_concat(a: Seq<u8>, b: Seq<u8>, big_endian: bool)
    requires
        a.len() % 4 == 0,
    ensures
        decoded_entries(a + b, big_endian) == decoded_entries(a, big_endian) + decoded_entries(b, big_endian),
        state_of_values(decoded_entries(a + b, big_endian)) == state_union(
            state_of_values(decoded_entries(a, big_endian)),
            state_of_values(decoded_entries(b, big_endian)),
        ),
{
    let ab = a + b;
    let x = decoded_entries(a, big_endian);
    let y = decoded_entries(b, big_endian);
    let z = decoded_entries(ab, big_endian);
    assert(ab.len() / 4 == a.len() / 4 + b.len() / 4);
    assert forall|k: int| 0 <= k < z.len() implies z[k] == (x + y)[k] by {
        if k < x.len() {
            assert(4 * k + 3 < a.len());
            assert(ab[4 * k] == a[4 * k] && ab[4 * k + 1] == a[4 * k + 1]);
            assert(ab[4 * k + 2] == a[4 * k + 2] && ab[4 * k + 3] == a[4 * k + 3]);
        } else {
            let j = k - x.len();
            assert(4 * k == a.len() + 4 * j);
            assert(4 * j + 3 < b.len());
            assert(ab[4 * k] == b[4 * j] && ab[4 * k + 1] == b[4 * j + 1]);
            assert(ab[4 * k + 2] == b[4 * j + 2] && ab[4 * k + 3] == b[4 * j + 3]);
        }
    }
    assert(z =~= x + y);
    assert forall|v: u32| #[trigger] (x + y).contains(v) <==> (x.contains(v) || y.contains(v)) by {
        if (x + y).contains(v) {
            let k = choose|k: int| 0 <= k < (x + y).len() && (x + y)[k] == v;
            if k >= x.len() {
                assert(y[k - x.len()] == v);
            }
        }
        if x.contains(v) {
            let k = choose|k: int| 0 <= k < x.len() && x[k] == v;
            assert((x + y)[k] == v);
        }
        if y.contains(v) {
            let k = choose|k: int| 0 <= k < y.len() && y[k] == v;
            assert((x + y)[x.len() + k] == v);
        }
    }
}

/// The four bytes of entry `k` of a state array.
pub open spec fn entry_bytes(bytes: Seq<u8>, k: int) -> Seq<u8> {
    bytes.subrange(4 * k, 4 * k + 4)
}

/// Whether every whole entry of `a` is also a whole entry of `b`.
pub open spec fn entries_within(a: Seq<u8>, b: Seq<u8>) -> bool {
    forall|i: int| 0 <= i < a.len() / 4 ==> exists|j: int| 0 <= j < b.len() / 4 && #[trigger] entry_bytes(a, i) == #[trigger] entry_bytes(b, j)
}

proof fn lemma_entries_within(a: Seq<u8>, b: Seq<u8>, big_endian: bool, v: u32)
    requires
        entries_within(a, b),
        decoded_entries(a, big_endian).contains(v),
    ensures
        decoded_entries(b, big_endian).contains(v),
{
    let x = decoded_entries(a, big_endian);
    let y = decoded_entries(b, big_endian);
    let i = choose|i: int| 0 <= i < x.len() && x[i] == v;
    assert(4 * i + 4 <= a.len());
    let ea = entry_bytes(a, i);
    let j = choose|j: int| 0 <= j < b.len() / 4 && ea == #[trigger] entry_bytes(b, j);
    assert(4 * j + 4 <= b.len());
    let eb = entry_bytes(b, j);
    assert(a[4 * i] == ea[0] && b[4 * j] == eb[0]);
    assert(a[4 * i + 1] == ea[1] && b[4 * j + 1] == eb[1]);
    assert(a[4 * i + 2] == ea[2] && b[4 * j + 2] == eb[2]);
    assert(a[4 * i + 3] == ea[3] && b[4 * j + 3] == eb[3]);
    assert(y[j] == v);
}

/// The order of the entries of a state array, and how often each occurs,
/// do not matter: two arrays with the same whole entries announce the same
/// window state.
pub proof fn law_state_array_entry_order(a: Seq<u8>, b: Seq<u8>, big_endian: bool)
    requires
        entries_within(a, b),
        entries_within(b, a),
    ensures
        state_of_values(decoded_entries(a, big_endian)) == state_of_values(decoded_entries(b, big_endian)),
{
    let x = decoded_entries(a, big_endian);
    let y = decoded_entries(b, big_endian);
    assert forall|v: u32| x.contains(v) <==> y.contains(v) by {
        if x.contains(v) {
            lemma_entries_within(a, b, big_endian, v);
        }
        if y.contains(v) {
            lemma_entries_within(b, a, big_endian, v);
        }
    }
}

/// Whether the mode logs toplevel events.
pub open spec fn watching(m: Mode) -> bool {
    m == Mode::Watch || m == Mode::VerboseWatch
}

/// The start of every event log line about a toplevel.
pub open spec fn line_prefix(id: nat) -> Seq<char> {
    "toplevel "@ + decimal(id) + ": "@
}

/// The log line for a toplevel that appeared.
pub open spec fn created_line(id: nat) -> Seq<char> {
    line_prefix(id) + "created"@
}

/// The log line for a toplevel that was closed.
pub open spec fn destroyed_line(id: nat) -> Seq<char> {
    line_prefix(id) + "destroyed"@
}

/// The verbose-watch log lines for a new window state.
pub open spec fn state_change_lines(id: nat, st: ToplevelState, mode: Mode) -> Seq<Seq<char>> {
    if mode == Mode::VerboseWatch {
        seq![
            line_prefix(id) + "fullscreen: "@ + bool_text(st.fullscreen),
            line_prefix(id) + "activated (focused): "@ + bool_text(st.activated),
            line_prefix(id) + "maximized: "@ + bool_text(st.maximized),
            line_prefix(id) + "minimized: "@ + bool_text(st.minimized),
        ]
    } else {
        Seq::empty()
    }
}

/// Appends the start of an event log line about a toplevel.
pub(crate) fn line_start(id: usize) -> (r: String)
    ensures
        r@ == line_prefix(id as nat),
{
    let mut s = String::new();
    s.append("toplevel ");
    push_decimal(&mut s, id);
    s.append(": ");
    assert(s@ =~= line_prefix(id as nat));
    s
}

/// A log line: the start for the toplevel, then `text`.
pub(crate) fn simple_line(id: usize, text: &str) -> (r: String)
    ensures
        r@ == line_prefix(id as nat) + text@,
{
    let mut s = line_start(id);
    s.append(text);
    s
}

/// A log line: the start for the toplevel, `label`, then a flag.
pub(crate) fn flag_line(id: usize, label: &str, b: bool) -> (r: String)
    ensures
        r@ == line_prefix(id as nat) + label@ + bool_text(b),
{
    let mut s = line_start(id);
    s.append(label);
    push_bool(&mut s, b);
    s
}

/// The verbose-watch log lines for a new window state.
pub fn state_change_log(toplevel_id: usize, new_state: &ToplevelState, mode: Mode) -> (r: Vec<String>)
    ensures
        lines_view(r@) == state_change_lines(toplevel_id as nat, *new_state, mode),
{
    let mut lines: Vec<String> = Vec::new();
    if mode == Mode::VerboseWatch {
        push_owned_line(&mut lines, flag_line(toplevel_id, "fullscreen: ", new_state.fullscreen));
        push_owned_line(&mut lines, flag_line(toplevel_id, "activated (focused): ", new_state.activated));
        push_owned_line(&mut lines, flag_line(toplevel_id, "maximized: ", new_state.maximized));
        push_owned_line(&mut lines, flag_line(toplevel_id, "minimized: ", new_state.minimized));
    }
    assert(lines_view(lines@) =~= state_change_lines(toplevel_id as nat, *new_state, mode));
    lines
}

} // verus!
