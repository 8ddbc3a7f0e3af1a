//! The pre-flight validation gate: cheap size and header checks, then a full
//! structural parse.
use vstd::prelude::*;

verus! {

use crate::model::MAX_INPUT_BYTES;
use crate::parse::{parse_document, parse_outcome};
use crate::text::{str_byte_len, str_chars, trim_chars, trim_spec, utf8_len};

/// The text, once trimmed, starts with the XML declaration prefix `<?xml`.
pub open spec fn has_xml_decl(s: Seq<char>) -> bool {
    trim_spec(s).len() >= 5 && trim_spec(s).take(5) == "<?xml"@
}

/// The text contains the root tag marker `<gpx` somewhere.
pub open spec fn contains_gpx_tag(s: Seq<char>) -> bool {
    exists|i: int| 0 <= i <= s.len() - 4 && #[trigger] s.subrange(i, i + 4) == "<gpx"@
}

/// A text is valid exactly when it is within the size ceiling, carries the
/// XML declaration prefix and the root tag marker, and parses structurally.
pub open spec fn valid_gpx(s: Seq<char>) -> bool {
    &&& utf8_len(s) <= MAX_INPUT_BYTES
    &&& has_xml_decl(s)
    &&& contains_gpx_tag(s)
    &&& parse_outcome(s) is Some
}

fn contains_gpx(v: &Vec<char>) -> (r: bool)
    ensures
        r == contains_gpx_tag(v@),
{
    proof {
        reveal_strlit("<gpx");
    }
    let n = v.len();
    if n < 4 {
        return false;
    }
    let mut i: usize = 0;
    while i <= n - 4
        invariant
            n == v@.len(),
            4 <= n,
            i <= n - 3,
            forall|j: int| 0 <= j < i ==> #[trigger] v@.subrange(j, j + 4) != "<gpx"@,
        decreases n - i,
    {
        if v[i] == '<' && v[i + 1] == 'g' && v[i + 2] == 'p' && v[i + 3] == 'x' {
            proof {
                assert(v@.subrange(i as int, i + 4) =~= "<gpx"@);
            }
            return true;
        }
        proof {
            assert(v@.subrange(i as int, i + 4) != "<gpx"@) by {
                if v@.subrange(i as int, i + 4) == "<gpx"@ {
                    assert(v@.subrange(i as int, i + 4)[0] == v@[i as int]);
                    assert(v@.subrange(i as int, i + 4)[1] == v@[i as int + 1]);
                    assert(v@.subrange(i as int, i + 4)[2] == v@[i as int + 2]);
                    assert(v@.subrange(i as int, i + 4)[3] == v@[i as int + 3]);
                }
            }
        }
        i = i + 1;
    }
    false
}

/// Validates a track-log text: within the byte-size ceiling, led (after
/// trimming) by the `<?xml` declaration, holding a `<gpx` root marker, and
/// accepted by a full structural parse. The cheap checks run first, so an
/// oversized or mis-headed input is rejected without a parse.
pub fn validate_gpx(gpx_string: &str) -> (r: bool)
    ensures
        r == valid_gpx(gpx_string@),
{
    if str_byte_len(gpx_string) > MAX_INPUT_BYTES {
        return false;
    }
    let v = str_chars(gpx_string);
    let t = trim_chars(&v);
    if t.len() < 5 {
        return false;
    }
    proof {
        reveal_strlit("<?xml");
    }
    if !(t[0] == '<' && t[1] == '?' && t[2] == 'x' && t[3] == 'm' && t[4] == 'l') {
        proof {
            assert(trim_spec(v@).take(5) != "<?xml"@) by {
                if trim_spec(v@).take(5) == "<?xml"@ {
                    assert(trim_spec(v@).take(5)[0] == t@[0]);
                    assert(trim_spec(v@).take(5)[1] == t@[1]);
                    assert(trim_spec(v@).take(5)[2] == t@[2]);
                    assert(trim_spec(v@).take(5)[3] == t@[3]);
                    assert(trim_spec(v@).take(5)[4] == t@[4]);
                }
            }
        }
        return false;
    }
    proof {
        assert(trim_spec(v@).take(5) =~= "<?xml"@);
    }
    if !contains_gpx(&v) {
        return false;
    }
    match parse_document(gpx_string) {
        Ok(_) => true,
        Err(_) => false,
    }
}

} // verus!
