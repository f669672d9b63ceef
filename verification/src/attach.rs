//! Attachment payload handling: dropping a data-URL prefix and decoding the
//! base64 body. Text extraction itself is an outside collaborator; the
//! engine takes its results as plain values.

use vstd::prelude::*;

use base64::Engine;

verus! {

/// A comma occurs in the payload.
pub open spec fn contains_comma(s: Seq<u8>) -> bool {
    exists|i: int| 0 <= i < s.len() && s[i] == 44
}

/// The position of the first comma.
pub open spec fn first_comma(s: Seq<u8>) -> int {
    choose|i: int|
        0 <= i < s.len() && s[i] == 44 && (forall|j: int| 0 <= j < i ==> s[j] != 44)
}

/// The payload with everything through its first comma dropped: a data-URL
/// prefix such as one naming a media type ends in a comma, and a payload
/// without one is taken whole.
pub open spec fn strip_data_prefix(s: Seq<u8>) -> Seq<u8> {
    if contains_comma(s) {
        s.skip(first_comma(s) + 1)
    } else {
        s
    }
}

/// The position of the first comma, if one is there.
fn find_comma(data: &[u8]) -> (r: Option<usize>)
    ensures
        match r {
            Some(c) => c < data@.len() && data@[c as int] == 44 && (forall|j: int|
                0 <= j < c ==> data@[j] != 44),
            None => !contains_comma(data@),
        },
{
    let n = data.len();
    for i in 0..n
        invariant
            n == data@.len(),
            forall|j: int| 0 <= j < i ==> data@[j] != 44,
    {
        if data[i] == 44 {
            return Some(i);
        }
    }
    None
}

/// Drops a data-URL prefix, if one is there.
pub fn strip_data_url_prefix(data: &[u8]) -> (r: Vec<u8>)
    ensures
        r@ == strip_data_prefix(data@),
{
    let n = data.len();
    let comma = find_comma(data);
    let start: usize = match comma {
        Some(c) => {
            proof {
                assert(data@[c as int] == 44);
                assert(contains_comma(data@));
                let fc = first_comma(data@);
                assert(0 <= fc < data@.len() && data@[fc] == 44 && (forall|j: int|
                    0 <= j < fc ==> data@[j] != 44));
                if fc < c as int {
                    assert(data@[fc] != 44);
                }
                if (c as int) < fc {
                    assert(data@[c as int] != 44);
                }
                assert(fc == c as int);
            }
            c + 1
        },
        None => 0,
    };
    let mut out: Vec<u8> = Vec::new();
    let mut k: usize = start;
    proof {
        assert(out@ =~= data@.subrange(start as int, start as int));
    }
    while k < n
        invariant
            n == data@.len(),
            start <= k <= n,
            out@ == data@.subrange(start as int, k as int),
        decreases n - k,
    {
        out.push(data[k]);
        proof {
            assert(out@ =~= data@.subrange(start as int, k as int + 1));
        }
        k += 1;
    }
    proof {
        if contains_comma(data@) {
            assert(data@.subrange(start as int, n as int) =~= data@.skip(
                first_comma(data@) + 1,
            ));
        } else {
            assert(data@.subrange(0, n as int) =~= data@);
        }
    }
    out
}

/// The bytes a standard-alphabet base64 text decodes to, or nothing when it
/// is not well-formed; the result depends on the text alone.
pub uninterp spec fn b64_decoded(s: Seq<u8>) -> Option<Seq<u8>>;

/// Relies on base64::engine::general_purpose::STANDARD.decode: decodes a
/// standard-alphabet, padded base64 text, or fails on malformed input.
#[verifier::external_body]
fn base64_decode(b: &[u8]) -> (r: Option<Vec<u8>>)
    ensures
        match r {
            Some(v) => b64_decoded(b@) == Some(v@),
            None => b64_decoded(b@) is None,
        },
{
    base64::engine::general_purpose::STANDARD.decode(b).ok()
}

/// Decodes one attachment payload: drops a data-URL prefix, then decodes
/// the base64 body; a malformed body yields nothing, and the caller skips
/// the attachment as a whole.
pub fn decode_attachment(data: &[u8]) -> (r: Option<Vec<u8>>)
    ensures
        match r {
            Some(v) => b64_decoded(strip_data_prefix(data@)) == Some(v@),
            None => b64_decoded(strip_data_prefix(data@)) is None,
        },
{
    let stripped = strip_data_url_prefix(data);
    base64_decode(stripped.as_slice())
}

} // verus!
