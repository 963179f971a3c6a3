//! The result value of a successful scan, and the scanner's text-level
//! entry point.

use crate::scan::lemma_stopped_at_close;
use crate::scan::scan_bytes;
use crate::scan::scan_run;
use crate::scan::scan_spec;
use crate::scan::start_state;
use crate::scan::ScanError;
use crate::scan::ScanOutcome;
use crate::scan::ScanRun;
use crate::scan::CLOSE_BRACE;
use vstd::prelude::*;
use vstd::string::StringSliceAdditionalSpecFns;
use vstd::utf8::decode_utf8;
use vstd::utf8::decode_utf8_split;
use vstd::utf8::encode_utf8;
use vstd::utf8::encode_utf8_decode_utf8;
use vstd::utf8::encode_utf8_valid_utf8;
use vstd::utf8::is_char_boundary;
use vstd::utf8::is_char_boundary_iff_not_is_continuation_byte;
use vstd::utf8::is_char_boundary_start_end_of_seq;
use vstd::utf8::is_continuation_byte;
use vstd::utf8::valid_utf8;

verus! {

/// The verbatim text of one script literal: exactly the characters the scan
/// consumed, with no escape decoding and no whitespace trimming.  Two
/// literals are equal exactly when their texts are equal, character for
/// character.
#[derive(Debug, Eq, PartialOrd)]
pub struct Script(pub String);

impl PartialEq for Script {
    /// Two literals are equal exactly when their verbatim texts are equal.
    fn eq(&self, other: &Script) -> (r: bool)
        ensures
            r == (self@ == other@),
    {
        self.0 == other.0
    }
}

impl vstd::std_specs::cmp::PartialEqSpecImpl for Script {
    open spec fn obeys_eq_spec() -> bool {
        true
    }

    open spec fn eq_spec(&self, other: &Script) -> bool {
        self.0@ == other.0@
    }
}

impl Default for Script {
    /// The default literal holds empty text.
    fn default() -> (r: Script)
        ensures
            r@ == Seq::<char>::empty(),
    {
        Script(String::new())
    }
}

impl Clone for Script {
    /// Cloning keeps the verbatim text.
    fn clone(&self) -> (r: Script)
        ensures
            r@ == self@,
    {
        Script(self.0.clone())
    }
}

impl View for Script {
    type V = Seq<char>;

    open spec fn view(&self) -> Seq<char> {
        self.0@
    }
}

impl Script {
    /// The verbatim text of the literal, borrowed.
    pub fn as_str(&self) -> (r: &str)
        ensures
            r@ == self@,
    {
        self.0.as_str()
    }

    /// Render the literal back to text.  Rendering is the identity on the
    /// verbatim text: no re-escaping, no normalization.
    pub fn to_text(&self) -> (r: String)
        ensures
            r@ == self@,
    {
        self.0.clone()
    }
}

impl From<String> for Script {
    fn from(s: String) -> (r: Script)
        ensures
            r@ == s@,
    {
        Script(s)
    }
}

impl vstd::std_specs::convert::FromSpecImpl<String> for Script {
    open spec fn obeys_from_spec() -> bool {
        true
    }

    open spec fn from_spec(s: String) -> Script {
        Script(s)
    }
}

impl From<&str> for Script {
    fn from(s: &str) -> (r: Script)
        ensures
            r@ == s@,
    {
        Script(s.to_owned())
    }
}

impl vstd::std_specs::convert::FromSpecImpl<&str> for Script {
    open spec fn obeys_from_spec() -> bool {
        // A fresh `String` cannot be named at the specification level, so
        // nothing is claimed here; the conversion's contract stands as an
        // `ensures` on `from` itself.
        false
    }

    open spec fn from_spec(s: &str) -> Script {
        arbitrary()
    }
}

/// Scan the start of `input` for one script literal.
///
/// On success the returned pair holds the unconsumed remainder of `input`
/// and the literal, whose text is verbatim the consumed prefix: literal and
/// remainder concatenate back to `input` exactly.  On failure nothing is
/// consumed: `NoMatch` says no literal starts here, `UnterminatedLiteral`
/// says the input ended inside a string or a brace group.  Which of the
/// three happens, and how many bytes are consumed, is fixed by `scan_spec`
/// on the UTF-8 bytes of `input`.
pub fn script(input: &str) -> (r: Result<(&str, Script), ScanError>)
    ensures
        ({
            let sb = input.spec_bytes();
            match scan_spec(sb) {
                ScanOutcome::Literal(n) => match r {
                    Ok(out) => {
                        &&& encode_utf8(out.1@) == sb.take(n as int)
                        &&& out.0.spec_bytes() == sb.skip(n as int)
                        &&& out.1@ + out.0@ == input@
                        &&& out.1@.len() > 0
                    },
                    Err(_) => false,
                },
                ScanOutcome::NoMatch => r matches Err(ScanError::NoMatch),
                ScanOutcome::Unterminated => r matches Err(ScanError::UnterminatedLiteral),
            }
        }),
{
    let bytes: &[u8] = input.as_bytes();
    let ghost sb = input.spec_bytes();
    proof {
        encode_utf8_valid_utf8(input@);
        assert(valid_utf8(sb));
    }
    match scan_bytes(bytes) {
        Ok(n) => {
            proof {
                if n as nat == sb.len() {
                    is_char_boundary_start_end_of_seq(sb);
                } else {
                    assert(scan_run(sb, start_state()) == ScanRun::Stopped(n as nat));
                    lemma_stopped_at_close(sb, start_state(), n as nat);
                    is_char_boundary_iff_not_is_continuation_byte(sb, n as int);
                    assert(!is_continuation_byte(sb[n as int]));
                }
                assert(is_char_boundary(sb, n as int));
            }
            let pair = input.split_at(n);
            let head = pair.0;
            let rest = pair.1;
            let v = Script(head.to_owned());
            proof {
                assert(head.spec_bytes() == sb.subrange(0, n as int));
                assert(rest.spec_bytes() == sb.subrange(n as int, sb.len() as int));
                assert(encode_utf8(v@) == sb.take(n as int));
                encode_utf8_decode_utf8(head@);
                encode_utf8_decode_utf8(rest@);
                encode_utf8_decode_utf8(input@);
                decode_utf8_split(sb, n as int);
                assert(v@ + rest@ == input@);
                if v@.len() == 0 {
                    assert(encode_utf8(v@) =~= Seq::<u8>::empty());
                    assert(false);
                }
            }
            Ok((rest, v))
        },
        Err(e) => Err(e),
    }
}

} // verus!
