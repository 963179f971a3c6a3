//! The general laws of the scanner, proved once for every input: round-trip
//! fidelity, brace balance, string opacity, escape handling, and deep
//! nesting.

use crate::scan::is_plain_byte;
use crate::scan::is_quote_byte;
use crate::scan::is_string_body;
use crate::scan::lemma_stopped_at_close;
use crate::scan::nested_braces;
use crate::scan::run_closed;
use crate::scan::scan_run;
use crate::scan::scan_spec;
use crate::scan::scan_step;
use crate::scan::shift_run;
use crate::scan::start_state;
use crate::scan::structural_count;
use crate::scan::ScanOutcome;
use crate::scan::ScanRun;
use crate::scan::ScanState;
use crate::scan::ScanStep;
use crate::scan::BACKSLASH;
use crate::scan::CLOSE_BRACE;
use crate::scan::OPEN_BRACE;
use vstd::prelude::*;
use vstd::utf8::decode_utf8;
use vstd::utf8::decode_utf8_split;
use vstd::utf8::is_char_boundary;
use vstd::utf8::is_char_boundary_iff_not_is_continuation_byte;
use vstd::utf8::is_char_boundary_start_end_of_seq;
use vstd::utf8::is_continuation_byte;
use vstd::utf8::valid_utf8;

verus! {

/// Shifting a stop offset twice is shifting it once by the sum.
proof fn lemma_shift_shift(r: ScanRun, a: nat, b: nat)
    ensures
        shift_run(shift_run(r, b), a) == shift_run(r, a + b),
{
}

/// A run over `a + b` is the run over `a` and, where `a` is drained, the
/// run over `b` from the state `a` left behind.
proof fn lemma_run_append(a: Seq<u8>, b: Seq<u8>, st: ScanState)
    ensures
        scan_run(a + b, st) == (match scan_run(a, st) {
            ScanRun::Drained(st2) => shift_run(scan_run(b, st2), a.len()),
            other => other,
        }),
    decreases a.len(),
{
    if a.len() == 0 {
        assert(a + b =~= b);
    } else {
        assert((a + b)[0] == a[0]);
        match scan_step(st, a[0]) {
            ScanStep::Goes(st2) => {
                assert((a + b).skip(1) =~= a.skip(1) + b);
                lemma_run_append(a.skip(1), b, st2);
                match scan_run(a.skip(1), st2) {
                    ScanRun::Drained(st3) => {
                        lemma_shift_shift(scan_run(b, st3), 1, (a.len() - 1) as nat);
                    },
                    _ => {},
                }
            },
            _ => {},
        }
    }
}

/// The shape of the run behind a successful scan: the whole input was
/// drained with everything closed, or the run stopped at a foreign closing
/// brace after `n` bytes.
proof fn lemma_literal_run(s: Seq<u8>, n: nat)
    requires
        scan_spec(s) == ScanOutcome::Literal(n),
    ensures
        0 < n <= s.len(),
        n == s.len() ==> run_closed(s),
        n < s.len() ==> scan_run(s, start_state()) == ScanRun::Stopped(n),
{
    match scan_run(s, start_state()) {
        ScanRun::Drained(st) => {},
        ScanRun::Stopped(m) => {
            lemma_stopped_at_close(s, start_state(), m);
        },
        ScanRun::Refused => {},
    }
}

/// Structural braces move the depth, and nothing else does: over a drained
/// run, the depth climbs by the structural opening braces and falls by the
/// structural closing ones.
proof fn lemma_count_depth(s: Seq<u8>, st: ScanState, st2: ScanState)
    requires
        scan_run(s, st) == ScanRun::Drained(st2),
    ensures
        st.depth + structural_count(s, st, OPEN_BRACE) == st2.depth + structural_count(
            s,
            st,
            CLOSE_BRACE,
        ),
    decreases s.len(),
{
    if s.len() == 0 {
    } else {
        match scan_step(st, s[0]) {
            ScanStep::Goes(stm) => {
                assert(scan_run(s.skip(1), stm) == ScanRun::Drained(st2));
                lemma_count_depth(s.skip(1), stm, st2);
            },
            _ => {
                assert(false);
            },
        }
    }
}

/// Balance: every input accepted as one script literal holds exactly as
/// many structural opening braces as structural closing braces.  Braces
/// inside quoted strings are opaque content and counted by neither side.
pub proof fn lemma_brace_balance(s: Seq<u8>, n: nat)
    requires
        scan_spec(s) == ScanOutcome::Literal(n),
    ensures
        n <= s.len(),
        structural_count(s.take(n as int), start_state(), OPEN_BRACE) == structural_count(
            s.take(n as int),
            start_state(),
            CLOSE_BRACE,
        ),
{
    lemma_literal_run(s, n);
    if n == s.len() {
        assert(s.take(n as int) =~= s);
        match scan_run(s, start_state()) {
            ScanRun::Drained(st) => {
                lemma_count_depth(s, start_state(), st);
            },
            _ => {
                assert(false);
            },
        }
    } else {
        let a = s.take(n as int);
        let b = s.skip(n as int);
        assert(a + b =~= s);
        lemma_run_append(a, b, start_state());
        match scan_run(a, start_state()) {
            ScanRun::Drained(st2) => {
                assert(scan_run(b, st2) == ScanRun::Stopped(0));
                assert(b.len() > 0);
                assert(st2.depth == 0);
                lemma_count_depth(a, start_state(), st2);
            },
            ScanRun::Stopped(m) => {
                lemma_stopped_at_close(a, start_state(), m);
                assert(false);
            },
            ScanRun::Refused => {
                assert(false);
            },
        }
    }
}

/// Round trip: a successful scan splits the input at a character boundary,
/// and the two parts concatenate back to the input, byte for byte and
/// character for character.  Rendering the literal's verbatim text and
/// appending the remainder therefore reproduces the input exactly.
pub proof fn lemma_round_trip(s: Seq<u8>, n: nat)
    requires
        scan_spec(s) == ScanOutcome::Literal(n),
        valid_utf8(s),
    ensures
        0 < n <= s.len(),
        s.take(n as int) + s.skip(n as int) == s,
        is_char_boundary(s, n as int),
        decode_utf8(s.take(n as int)) + decode_utf8(s.skip(n as int)) == decode_utf8(s),
{
    lemma_literal_run(s, n);
    if n == s.len() {
        is_char_boundary_start_end_of_seq(s);
    } else {
        lemma_stopped_at_close(s, start_state(), n);
        is_char_boundary_iff_not_is_continuation_byte(s, n as int);
        assert(!is_continuation_byte(s[n as int]));
    }
    assert(s.take(n as int) + s.skip(n as int) =~= s);
    decode_utf8_split(s, n as int);
    assert(s.take(n as int) == s.subrange(0, n as int));
    assert(s.skip(n as int) =~= s.subrange(n as int, s.len() as int));
}

/// An escaped quote does not end a string: between two well-formed pieces
/// of a string body, a backslash-quote pair may stand, and the whole is
/// still a well-formed body of the same string.  The string closes only at
/// the first unescaped matching quote, which stands after the body.
pub proof fn lemma_escaped_quote_in_body(b1: Seq<u8>, b2: Seq<u8>, q: u8)
    requires
        is_quote_byte(q),
        is_string_body(b1, q),
        is_string_body(b2, q),
    ensures
        is_string_body(b1 + seq![BACKSLASH, q] + b2, q),
    decreases b1.len(),
{
    let w = b1 + seq![BACKSLASH, q] + b2;
    if b1.len() == 0 {
        assert(w =~= seq![BACKSLASH, q] + b2);
        assert(w[0] == BACKSLASH);
        assert(w.skip(2) =~= b2);
    } else if b1[0] == BACKSLASH {
        lemma_escaped_quote_in_body(b1.skip(2), b2, q);
        assert(w[0] == BACKSLASH);
        assert(w.skip(2) =~= b1.skip(2) + seq![BACKSLASH, q] + b2);
    } else {
        lemma_escaped_quote_in_body(b1.skip(1), b2, q);
        assert(w[0] == b1[0]);
        assert(w.skip(1) =~= b1.skip(1) + seq![BACKSLASH, q] + b2);
    }
}

/// Inside a string, a well-formed body is consumed without leaving the
/// string: the run over the body and whatever follows is the run over what
/// follows, shifted by the body's length, in the unchanged state.
proof fn lemma_string_mode_run(body: Seq<u8>, tail: Seq<u8>, st: ScanState, q: u8)
    requires
        st.in_string == Some(q),
        !st.escaped,
        !st.just_opened,
        is_string_body(body, q),
    ensures
        scan_run(body + tail, st) == shift_run(scan_run(tail, st), body.len()),
    decreases body.len(),
{
    let w = body + tail;
    if body.len() == 0 {
        assert(w =~= tail);
    } else if body[0] == BACKSLASH {
        reveal_with_fuel(scan_run, 3);
        let st1 = ScanState {
            depth: st.depth,
            just_opened: false,
            in_string: Some(q),
            escaped: true,
        };
        assert(w[0] == BACKSLASH);
        assert(scan_step(st, w[0]) == ScanStep::Goes(st1));
        assert(w.skip(1)[0] == body[1]);
        assert(scan_step(st1, body[1]) == ScanStep::Goes(st));
        assert(w.skip(1).skip(1) =~= body.skip(2) + tail);
        lemma_string_mode_run(body.skip(2), tail, st, q);
        lemma_shift_shift(scan_run(tail, st), 1, (body.len() - 1) as nat);
        lemma_shift_shift(scan_run(tail, st), 1, (body.len() - 2) as nat);
    } else {
        assert(w[0] == body[0]);
        assert(scan_step(st, w[0]) == ScanStep::Goes(st));
        assert(w.skip(1) =~= body.skip(1) + tail);
        lemma_string_mode_run(body.skip(1), tail, st, q);
        lemma_shift_shift(scan_run(tail, st), 1, (body.len() - 1) as nat);
    }
}

/// String opacity: a properly quoted string is stepped over whole.
/// Whatever stands inside it — braces, the other quote styles, escaped
/// quotes — the scan consumes opening quote, body and closing quote, keeps
/// the brace depth untouched, and goes on after the string as if it had
/// been a single plain byte.
pub proof fn lemma_string_opacity(q: u8, body: Seq<u8>, tail: Seq<u8>, st: ScanState)
    requires
        is_quote_byte(q),
        st.in_string is None,
        !st.escaped,
        is_string_body(body, q),
    ensures
        scan_run(seq![q] + body + seq![q] + tail, st) == shift_run(
            scan_run(
                tail,
                ScanState {
                    depth: st.depth,
                    just_opened: false,
                    in_string: None,
                    escaped: false,
                },
            ),
            body.len() + 2,
        ),
{
    let w = seq![q] + body + seq![q] + tail;
    let stq = ScanState { depth: st.depth, just_opened: false, in_string: Some(q), escaped: false };
    let stc = ScanState { depth: st.depth, just_opened: false, in_string: None, escaped: false };
    assert(w[0] == q);
    assert(scan_step(st, q) == ScanStep::Goes(stq));
    assert(w.skip(1) =~= body + (seq![q] + tail));
    lemma_string_mode_run(body, seq![q] + tail, stq, q);
    assert((seq![q] + tail)[0] == q);
    assert(scan_step(stq, q) == ScanStep::Goes(stc));
    assert((seq![q] + tail).skip(1) =~= tail);
    lemma_shift_shift(scan_run(tail, stc), body.len(), 1);
    lemma_shift_shift(scan_run(tail, stc), 1, body.len() + 1);
}

/// A run of plain text is a script literal: any non-empty stretch of bytes
/// free of braces and quotes scans whole.
pub proof fn lemma_plain_text(s: Seq<u8>)
    requires
        s.len() > 0,
        forall|i: int| 0 <= i < s.len() ==> is_plain_byte(#[trigger] s[i]),
    ensures
        scan_spec(s) == ScanOutcome::Literal(s.len()),
{
    lemma_plain_drained(s);
}

/// Plain bytes leave the start state where it is.
proof fn lemma_plain_drained(s: Seq<u8>)
    requires
        forall|i: int| 0 <= i < s.len() ==> is_plain_byte(#[trigger] s[i]),
    ensures
        scan_run(s, start_state()) == ScanRun::Drained(start_state()),
    decreases s.len(),
{
    if s.len() == 0 {
    } else {
        assert(is_plain_byte(s[0]));
        assert(scan_step(start_state(), s[0]) == ScanStep::Goes(start_state()));
        assert(forall|i: int| 0 <= i < s.skip(1).len() ==> is_plain_byte(#[trigger] s.skip(1)[i]));
        lemma_plain_drained(s.skip(1));
    }
}

/// A whole-input run that ends with everything closed ends in the start
/// state itself.
proof fn lemma_closed_run_resets(s: Seq<u8>)
    requires
        run_closed(s),
    ensures
        scan_run(s, start_state()) == ScanRun::Drained(start_state()),
{
    match scan_run(s, start_state()) {
        ScanRun::Drained(ste) => {
            lemma_marker_depth(s, start_state(), ste);
            assert(ste == start_state());
        },
        _ => {
            assert(false);
        },
    }
}

/// One or more literals in a row are one literal: the scan is a repetition
/// of items, so two texts it accepts whole it also accepts whole as one,
/// back to back.
pub proof fn lemma_literal_concat(s: Seq<u8>, t: Seq<u8>)
    requires
        scan_spec(s) == ScanOutcome::Literal(s.len()),
        scan_spec(t) == ScanOutcome::Literal(t.len()),
    ensures
        scan_spec(s + t) == ScanOutcome::Literal(s.len() + t.len()),
{
    lemma_literal_run(s, s.len());
    lemma_literal_run(t, t.len());
    lemma_closed_run_resets(s);
    lemma_closed_run_resets(t);
    lemma_run_append(s, t, start_state());
    assert((s + t).len() > 0);
}

/// The same state, `d` brace groups deeper.
spec fn deeper(st: ScanState, d: nat) -> ScanState {
    ScanState {
        depth: st.depth + d,
        just_opened: st.just_opened,
        in_string: st.in_string,
        escaped: st.escaped,
    }
}

/// A drained run does not care how many groups stand open around it: the
/// same bytes drain from a deeper state and end as much deeper.
proof fn lemma_run_deeper(s: Seq<u8>, st: ScanState, st2: ScanState, d: nat)
    requires
        scan_run(s, st) == ScanRun::Drained(st2),
    ensures
        scan_run(s, deeper(st, d)) == ScanRun::Drained(deeper(st2, d)),
    decreases s.len(),
{
    if s.len() == 0 {
    } else {
        match scan_step(st, s[0]) {
            ScanStep::Goes(stm) => {
                assert(scan_run(s.skip(1), stm) == ScanRun::Drained(st2));
                assert(scan_step(deeper(st, d), s[0]) == ScanStep::Goes(deeper(stm, d)));
                lemma_run_deeper(s.skip(1), stm, st2, d);
            },
            _ => {
                assert(false);
            },
        }
    }
}

/// The group-open marker matters only to an immediate closing brace; any
/// other first byte erases it, so runs from states that differ only in the
/// marker agree.
proof fn lemma_marker_irrelevant(s: Seq<u8>, st: ScanState, jo: bool)
    requires
        s.len() > 0,
        st.escaped || st.in_string is Some || s[0] != CLOSE_BRACE,
    ensures
        scan_run(
            s,
            ScanState {
                depth: st.depth,
                just_opened: jo,
                in_string: st.in_string,
                escaped: st.escaped,
            },
        ) == scan_run(s, st),
{
    let sta = ScanState {
        depth: st.depth,
        just_opened: jo,
        in_string: st.in_string,
        escaped: st.escaped,
    };
    assert(scan_step(sta, s[0]) == scan_step(st, s[0]));
}

/// A drained run keeps the marker honest: where the group-open marker is
/// set, a group stands open.
proof fn lemma_marker_depth(s: Seq<u8>, st: ScanState, st2: ScanState)
    requires
        scan_run(s, st) == ScanRun::Drained(st2),
        st.just_opened ==> st.depth >= 1,
    ensures
        st2.just_opened ==> st2.depth >= 1,
    decreases s.len(),
{
    if s.len() == 0 {
    } else {
        match scan_step(st, s[0]) {
            ScanStep::Goes(stm) => {
                assert(scan_run(s.skip(1), stm) == ScanRun::Drained(st2));
                lemma_marker_depth(s.skip(1), stm, st2);
            },
            _ => {
                assert(false);
            },
        }
    }
}

/// Deep nesting: wrap any complete script literal in as many brace pairs
/// as you like; the whole is again one complete script literal, with the
/// inner text standing in it verbatim.
pub proof fn lemma_deep_nesting(k: nat, inner: Seq<u8>)
    requires
        scan_spec(inner) == ScanOutcome::Literal(inner.len()),
    ensures
        nested_braces(k, inner).len() == inner.len() + 2 * k,
        scan_spec(nested_braces(k, inner)) == ScanOutcome::Literal(inner.len() + 2 * k),
    decreases k,
{
    if k == 0 {
    } else {
        let m = nested_braces((k - 1) as nat, inner);
        lemma_deep_nesting((k - 1) as nat, inner);
        lemma_literal_run(m, m.len());
        match scan_run(m, start_state()) {
            ScanRun::Drained(ste) => {
                if m[0] == CLOSE_BRACE {
                    assert(scan_step(start_state(), m[0]) == ScanStep::Stops);
                    assert(false);
                }
                let w = nested_braces(k, inner);
                assert(w == seq![OPEN_BRACE] + m + seq![CLOSE_BRACE]);
                let st1 = ScanState { depth: 1, just_opened: true, in_string: None, escaped: false };
                let st1f = ScanState {
                    depth: 1,
                    just_opened: false,
                    in_string: None,
                    escaped: false,
                };
                assert(w[0] == OPEN_BRACE);
                assert(scan_step(start_state(), OPEN_BRACE) == ScanStep::Goes(st1));
                assert(w.skip(1) =~= m + seq![CLOSE_BRACE]);
                assert((m + seq![CLOSE_BRACE])[0] == m[0]);
                lemma_marker_irrelevant(m + seq![CLOSE_BRACE], st1f, true);
                assert(st1f == deeper(start_state(), 1));
                lemma_run_deeper(m, start_state(), ste, 1);
                lemma_run_append(m, seq![CLOSE_BRACE], st1f);
                lemma_marker_depth(m, start_state(), ste);
                assert(!ste.just_opened);
                let sted = deeper(ste, 1);
                assert(scan_step(sted, CLOSE_BRACE) == ScanStep::Goes(start_state()));
                assert(seq![CLOSE_BRACE][0] == CLOSE_BRACE);
                assert(seq![CLOSE_BRACE].skip(1) =~= Seq::<u8>::empty());
                assert(scan_run(seq![CLOSE_BRACE], sted) == ScanRun::Drained(start_state())) by {
                    reveal_with_fuel(scan_run, 3);
                }
                assert(scan_run(w, start_state()) == ScanRun::Drained(start_state()));
                assert(w.len() == m.len() + 2);
            },
            _ => {
                assert(false);
            },
        }
    }
}

} // verus!
