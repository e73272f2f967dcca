//! The structured serialization wrapper: every matrix serializes to a
//! single-field object `{"matrix":"<canonical text>"}`.
//!
//! Deserialization accepts exactly that shape — one fixed field, once — so
//! a missing field, an extra or duplicate field, or any other deviation is
//! rejected before the payload is parsed.
use crate::engine::chars_to_string;
use crate::text::push_chars;
use vstd::prelude::*;

verus! {

/// The serialized form of a matrix payload.
pub open spec fn json_wrap(payload: Seq<char>) -> Seq<char> {
    seq!['{', '"', 'm', 'a', 't', 'r', 'i', 'x', '"', ':', '"'] + payload + seq!['"', '}']
}

/// Whether a text has the single-field object shape; its payload is then
/// everything between the quotes.
pub open spec fn json_shape(s: Seq<char>) -> bool {
    s.len() >= 13 && s.take(11) == seq!['{', '"', 'm', 'a', 't', 'r', 'i', 'x', '"', ':', '"']
        && s.skip(s.len() - 2) == seq!['"', '}']
}

/// The payload of a text in the single-field object shape.
pub open spec fn json_payload(s: Seq<char>) -> Seq<char> {
    s.subrange(11, s.len() - 2)
}

/// A wrapped payload has the object shape and reads back unchanged.
pub proof fn lemma_json_wrap_shape(payload: Seq<char>)
    ensures
        json_shape(json_wrap(payload)),
        json_payload(json_wrap(payload)) == payload,
{
    let w = json_wrap(payload);
    assert(w.take(11) =~= seq!['{', '"', 'm', 'a', 't', 'r', 'i', 'x', '"', ':', '"']);
    assert(w.skip(w.len() - 2) =~= seq!['"', '}']);
    assert(json_payload(w) =~= payload);
}

/// Builds the serialized object around a payload.
pub(crate) fn json_build(payload: &Vec<char>) -> (r: String)
    ensures
        r@ == json_wrap(payload@),
{
    let mut out: Vec<char> = Vec::new();
    out.push('{');
    out.push('"');
    out.push('m');
    out.push('a');
    out.push('t');
    out.push('r');
    out.push('i');
    out.push('x');
    out.push('"');
    out.push(':');
    out.push('"');
    push_chars(&mut out, payload);
    out.push('"');
    out.push('}');
    proof {
        assert(out@ =~= json_wrap(payload@));
    }
    chars_to_string(&out)
}

/// Checks the single-field object shape and hands back the payload.
pub(crate) fn json_check<'a>(s: &'a str) -> (r: Option<&'a str>)
    ensures
        r is Some <==> json_shape(s@),
        r is Some ==> r->0@ == json_payload(s@),
{
    let n: usize = s.unicode_len();
    if n < 13 {
        return None;
    }
    let expected: [char; 11] = ['{', '"', 'm', 'a', 't', 'r', 'i', 'x', '"', ':', '"'];
    let mut i: usize = 0;
    while i < 11
        invariant
            i <= 11,
            n == s@.len(),
            n >= 13,
            expected@ =~= seq!['{', '"', 'm', 'a', 't', 'r', 'i', 'x', '"', ':', '"'],
            forall|k: int| 0 <= k < i ==> s@[k] == expected@[k],
        decreases 11 - i,
    {
        if s.get_char(i) != expected[i] {
            proof {
                if json_shape(s@) {
                    assert(s@.take(11)[i as int] == expected@[i as int]);
                }
            }
            return None;
        }
        i += 1;
    }
    if s.get_char(n - 2) != '"' || s.get_char(n - 1) != '}' {
        proof {
            if json_shape(s@) {
                assert(s@.skip(s@.len() - 2)[0] == '"');
                assert(s@.skip(s@.len() - 2)[1] == '}');
            }
        }
        return None;
    }
    proof {
        assert(s@.take(11) =~= seq!['{', '"', 'm', 'a', 't', 'r', 'i', 'x', '"', ':', '"']);
        assert(s@.skip(s@.len() - 2) =~= seq!['"', '}']);
    }
    let payload = s.substring_char(11, n - 2);
    proof {
        assert(payload@ == json_payload(s@));
    }
    Some(payload)
}

} // verus!
