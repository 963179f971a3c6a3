//! The scanner itself: a byte-level state machine, its mathematical model,
//! and the verified executable scan.

use vstd::prelude::*;

verus! {

/// The byte `{`, which opens a brace group.
pub const OPEN_BRACE: u8 = 123;

/// The byte `}`, which closes a brace group.
pub const CLOSE_BRACE: u8 = 125;

/// The byte `'`, which delimits a single-quoted string.
pub const SINGLE_QUOTE: u8 = 39;

/// The byte `"`, which delimits a double-quoted string.
pub const DOUBLE_QUOTE: u8 = 34;

/// The byte `` ` ``, which delimits a backtick-quoted string.
pub const BACKTICK: u8 = 96;

/// The byte `\`, which escapes the byte after it inside a string.
pub const BACKSLASH: u8 = 92;

/// The three quote bytes that open a string inside a script literal.
pub open spec fn is_quote_byte(b: u8) -> bool {
    b == SINGLE_QUOTE || b == DOUBLE_QUOTE || b == BACKTICK
}

/// A byte that is none of the five control bytes: outside strings the
/// scanner consumes it as plain text.
pub open spec fn is_plain_byte(b: u8) -> bool {
    b != OPEN_BRACE && b != CLOSE_BRACE && !is_quote_byte(b)
}

/// Transient scanning state: how many brace groups stand open, whether the
/// byte consumed last was the opening brace of the innermost group, whether
/// the scan stands inside a quoted string (and which quote opened it), and
/// whether the byte consumed last was an unconsumed-escape backslash inside
/// that string.
pub struct ScanState {
    pub depth: nat,
    pub just_opened: bool,
    pub in_string: Option<u8>,
    pub escaped: bool,
}

/// The state in which a scan begins: no group open, no string open.
pub open spec fn start_state() -> ScanState {
    ScanState { depth: 0, just_opened: false, in_string: None, escaped: false }
}

/// What one byte does to the scan.
pub enum ScanStep {
    /// The byte is consumed and the scan goes on in the given state.
    Goes(ScanState),
    /// The byte is a closing brace that no group of this scan opened: the
    /// scan stops before it, leaving the byte to the enclosing grammar.
    Stops,
    /// The byte is a closing brace directly after its opening brace.  The
    /// grammar requires one or more items inside every brace group, so an
    /// empty group refuses the whole scan.
    Refuses,
}

/// The transition function of the scanner, one byte at a time.
///
/// Inside a string only three bytes matter: a backslash escapes the byte
/// after it, the matching quote closes the string, and everything else is
/// opaque content.  Outside a string, braces open and close groups, quotes
/// open strings, and any other byte is plain text.
pub open spec fn scan_step(st: ScanState, b: u8) -> ScanStep {
    if st.escaped {
        ScanStep::Goes(
            ScanState {
                depth: st.depth,
                just_opened: false,
                in_string: st.in_string,
                escaped: false,
            },
        )
    } else {
        match st.in_string {
            Some(q) => if b == BACKSLASH {
                ScanStep::Goes(
                    ScanState {
                        depth: st.depth,
                        just_opened: false,
                        in_string: st.in_string,
                        escaped: true,
                    },
                )
            } else if b == q {
                ScanStep::Goes(
                    ScanState {
                        depth: st.depth,
                        just_opened: false,
                        in_string: None,
                        escaped: false,
                    },
                )
            } else {
                ScanStep::Goes(
                    ScanState {
                        depth: st.depth,
                        just_opened: false,
                        in_string: st.in_string,
                        escaped: false,
                    },
                )
            },
            None => if b == OPEN_BRACE {
                ScanStep::Goes(
                    ScanState {
                        depth: st.depth + 1,
                        just_opened: true,
                        in_string: None,
                        escaped: false,
                    },
                )
            } else if b == CLOSE_BRACE {
                if st.depth == 0 {
                    ScanStep::Stops
                } else if st.just_opened {
                    ScanStep::Refuses
                } else {
                    ScanStep::Goes(
                        ScanState {
                            depth: (st.depth - 1) as nat,
                            just_opened: false,
                            in_string: None,
                            escaped: false,
                        },
                    )
                }
            } else if is_quote_byte(b) {
                ScanStep::Goes(
                    ScanState {
                        depth: st.depth,
                        just_opened: false,
                        in_string: Some(b),
                        escaped: false,
                    },
                )
            } else {
                ScanStep::Goes(
                    ScanState { depth: st.depth, just_opened: false, in_string: None, escaped: false },
                )
            },
        }
    }
}

/// How a run of the scanner over a whole byte sequence ends.
pub enum ScanRun {
    /// Every byte was consumed; the scan ends in the given state.
    Drained(ScanState),
    /// The scan stopped before the byte at the given offset: a closing brace
    /// that no group of this scan had opened.
    Stopped(nat),
    /// The scan refused the input outright: an empty brace group.
    Refused,
}

/// Move the stop offset of a run forward by `k` bytes.
pub open spec fn shift_run(r: ScanRun, k: nat) -> ScanRun {
    match r {
        ScanRun::Stopped(n) => ScanRun::Stopped(n + k),
        _ => r,
    }
}

/// Run the scanner over all of `s`, starting in state `st`.
pub open spec fn scan_run(s: Seq<u8>, st: ScanState) -> ScanRun
    decreases s.len(),
{
    if s.len() == 0 {
        ScanRun::Drained(st)
    } else {
        match scan_step(st, s[0]) {
            ScanStep::Goes(st2) => shift_run(scan_run(s.skip(1), st2), 1),
            ScanStep::Stops => ScanRun::Stopped(0),
            ScanStep::Refuses => ScanRun::Refused,
        }
    }
}

/// What a scan of a candidate script literal yields.
pub enum ScanOutcome {
    /// The first `n` bytes of the input form one script literal; the scan
    /// consumed them and nothing more.
    Literal(nat),
    /// No script literal starts here: zero bytes were consumable, or a brace
    /// group was empty.  The position may still start some other grammar
    /// production.
    NoMatch,
    /// The input ended inside a string or inside a brace group: the text
    /// looks like a script literal but is truncated.
    Unterminated,
}

/// The specification of the whole scan: run the state machine over the
/// input; the scan succeeds when it stops before a foreign closing brace
/// after at least one byte, or consumes the whole input with every group
/// and string closed.
pub open spec fn scan_spec(s: Seq<u8>) -> ScanOutcome {
    match scan_run(s, start_state()) {
        ScanRun::Drained(st) => {
            if st.depth == 0 && st.in_string is None && !st.escaped {
                if s.len() == 0 {
                    ScanOutcome::NoMatch
                } else {
                    ScanOutcome::Literal(s.len())
                }
            } else {
                ScanOutcome::Unterminated
            }
        },
        ScanRun::Stopped(n) => {
            if n == 0 {
                ScanOutcome::NoMatch
            } else {
                ScanOutcome::Literal(n)
            }
        },
        ScanRun::Refused => ScanOutcome::NoMatch,
    }
}

/// Count, within `s` scanned from state `st`, the bytes equal to `target`
/// that the scanner consumes as structural, that is, outside every string
/// and not under an escape.  Bytes inside strings are opaque content, and a
/// byte the run stops or fails at is not consumed, so neither is counted.
pub open spec fn structural_count(s: Seq<u8>, st: ScanState, target: u8) -> nat
    decreases s.len(),
{
    if s.len() == 0 {
        0
    } else {
        let here: nat = if !st.escaped && st.in_string is None && s[0] == target {
            1
        } else {
            0
        };
        match scan_step(st, s[0]) {
            ScanStep::Goes(st2) => here + structural_count(s.skip(1), st2, target),
            _ => 0,
        }
    }
}

/// A well-formed interior of a string quoted with `q`: a sequence of units,
/// each either a backslash together with the byte it escapes, or a single
/// byte that is neither the closing quote nor a backslash.  Such an interior
/// contains no unescaped `q`, so the string it fills closes only at the
/// quote that follows it.
pub open spec fn is_string_body(b: Seq<u8>, q: u8) -> bool
    decreases b.len(),
{
    if b.len() == 0 {
        true
    } else if b[0] == BACKSLASH {
        b.len() >= 2 && is_string_body(b.skip(2), q)
    } else {
        b[0] != q && is_string_body(b.skip(1), q)
    }
}

/// `inner` wrapped in `k` pairs of braces: `{ ... { inner } ... }`.
pub open spec fn nested_braces(k: nat, inner: Seq<u8>) -> Seq<u8>
    decreases k,
{
    if k == 0 {
        inner
    } else {
        seq![OPEN_BRACE] + nested_braces((k - 1) as nat, inner) + seq![CLOSE_BRACE]
    }
}

/// The run over `s` consumed every byte and ended with every brace group
/// and every string closed: `s` is one complete script literal, provided it
/// is not empty.
pub open spec fn run_closed(s: Seq<u8>) -> bool {
    match scan_run(s, start_state()) {
        ScanRun::Drained(st) => st.depth == 0 && st.in_string is None && !st.escaped,
        _ => false,
    }
}

/// Where a run stops, a closing brace stands: a run that ends with
/// `Stopped(n)` read the byte at offset `n`, found it to be `}` outside any
/// string and outside any group of its own, and left it unconsumed.
pub proof fn lemma_stopped_at_close(s: Seq<u8>, st: ScanState, n: nat)
    requires
        scan_run(s, st) == ScanRun::Stopped(n),
    ensures
        n < s.len(),
        s[n as int] == CLOSE_BRACE,
    decreases s.len(),
{
    if s.len() == 0 {
        assert(scan_run(s, st) == ScanRun::Drained(st));
    } else {
        match scan_step(st, s[0]) {
            ScanStep::Goes(st2) => {
                assert(scan_run(s.skip(1), st2) == ScanRun::Stopped((n - 1) as nat));
                lemma_stopped_at_close(s.skip(1), st2, (n - 1) as nat);
                assert(s.skip(1)[n - 1] == s[n as int]);
            },
            ScanStep::Stops => {},
            ScanStep::Refuses => {},
        }
    }
}

/// Why a scan returned no literal.
#[derive(Clone, Copy, Debug, PartialEq, Eq, Structural)]
pub enum ScanError {
    /// No script literal starts at this position; the caller may try a
    /// different grammar production at the same place.
    NoMatch,
    /// The input ended before a string or a brace group was closed; the
    /// caller may await more input or report a syntax error.
    UnterminatedLiteral,
}

/// The ghost state that the executable scanner's plain variables stand for.
pub open spec fn state_of(depth: nat, just_opened: bool, in_string: Option<u8>, escaped: bool) -> ScanState {
    ScanState { depth, just_opened, in_string, escaped }
}

/// Scan a byte buffer for a script literal.  Returns the number of bytes
/// the literal covers, exactly as the specification `scan_spec` demands,
/// and consumes nothing on failure.
pub fn scan_bytes(s: &[u8]) -> (r: Result<usize, ScanError>)
    ensures
        match r {
            Ok(n) => scan_spec(s@) == ScanOutcome::Literal(n as nat),
            Err(ScanError::NoMatch) => scan_spec(s@) == ScanOutcome::NoMatch,
            Err(ScanError::UnterminatedLiteral) => scan_spec(s@) == ScanOutcome::Unterminated,
        },
{
    let len: usize = s.len();
    let mut i: usize = 0;
    let mut depth: usize = 0;
    let mut just_opened: bool = false;
    let mut in_string: Option<u8> = None;
    let mut escaped: bool = false;
    proof {
        assert(s@.skip(0) =~= s@);
    }
    while i < len
        invariant
            len == s@.len(),
            i <= len,
            depth <= i,
            shift_run(
                scan_run(s@.skip(i as int), state_of(depth as nat, just_opened, in_string, escaped)),
                i as nat,
            ) == scan_run(s@, start_state()),
        decreases len - i,
    {
        let ghost st = state_of(depth as nat, just_opened, in_string, escaped);
        let b = s[i];
        proof {
            assert(s@.skip(i as int)[0] == s@[i as int]);
            assert(s@.skip(i as int).skip(1) =~= s@.skip(i as int + 1));
        }
        if escaped {
            escaped = false;
            just_opened = false;
        } else if let Some(q) = in_string {
            if b == BACKSLASH {
                escaped = true;
            } else if b == q {
                in_string = None;
            }
            just_opened = false;
        } else if b == OPEN_BRACE {
            depth = depth + 1;
            just_opened = true;
        } else if b == CLOSE_BRACE {
            if depth == 0 {
                // A closing brace this scan did not open: the literal ends
                // before it, if anything was consumed at all.
                assert(scan_run(s@, start_state()) == ScanRun::Stopped(i as nat));
                if i > 0 {
                    return Ok(i);
                } else {
                    return Err(ScanError::NoMatch);
                }
            } else if just_opened {
                assert(scan_run(s@, start_state()) == ScanRun::Refused);
                return Err(ScanError::NoMatch);
            } else {
                depth = depth - 1;
                just_opened = false;
            }
        } else if b == SINGLE_QUOTE || b == DOUBLE_QUOTE || b == BACKTICK {
            in_string = Some(b);
            just_opened = false;
        } else {
            just_opened = false;
        }
        proof {
            let st2 = state_of(depth as nat, just_opened, in_string, escaped);
            assert(scan_step(st, s@[i as int]) == ScanStep::Goes(st2));
        }
        i = i + 1;
    }
    proof {
        assert(s@.skip(len as int).len() == 0);
    }
    if depth == 0 && in_string.is_none() && !escaped {
        if len > 0 {
            Ok(len)
        } else {
            Err(ScanError::NoMatch)
        }
    } else {
        Err(ScanError::UnterminatedLiteral)
    }
}

} // verus!
