//! Reading the text of DNS TXT records.

use vstd::prelude::*;
use vstd::utf8::*;

verus! {

/// Calls `std::str::from_utf8`, which by its documentation succeeds exactly on valid
/// UTF-8 and then gives the text the bytes encode.
#[verifier::external_body]
fn utf8_text(bytes: &[u8]) -> (r: Option<&str>)
    ensures
        match r {
            Some(s) => valid_utf8(bytes@) && s@ == decode_utf8(bytes@),
            None => !valid_utf8(bytes@),
        },
{
    std::str::from_utf8(bytes).ok()
}

/// The texts of the character-strings that are valid UTF-8, in order; the others are
/// left out.
pub open spec fn txt_texts(chunks: Seq<Seq<u8>>) -> Seq<Seq<char>>
    decreases chunks.len(),
{
    if chunks.len() == 0 {
        seq![]
    } else {
        let before = txt_texts(chunks.drop_last());
        if valid_utf8(chunks.last()) {
            before.push(decode_utf8(chunks.last()))
        } else {
            before
        }
    }
}

/// The records a DNS TXT lookup yields: each character-string of the answer that is
/// valid UTF-8, as text, in order.
pub fn txt_strings(chunks: &Vec<Vec<u8>>) -> (r: Vec<String>)
    ensures
        r@.map_values(|s: String| s@) == txt_texts(chunks@.map_values(|c: Vec<u8>| c@)),
{
    let ghost all = chunks@.map_values(|c: Vec<u8>| c@);
    let mut r: Vec<String> = Vec::new();
    let mut i: usize = 0;
    while i < chunks.len()
        invariant
            i <= chunks@.len(),
            all == chunks@.map_values(|c: Vec<u8>| c@),
            r@.map_values(|s: String| s@) == txt_texts(all.take(i as int)),
        decreases chunks@.len() - i,
    {
        let ghost before = r@;
        proof {
            assert(all.take(i + 1).drop_last() =~= all.take(i as int));
            assert(all.take(i + 1).last() == chunks@[i as int]@);
        }
        match utf8_text(chunks[i].as_slice()) {
            Some(text) => {
                r.push(text.to_owned());
                proof {
                    assert(r@.map_values(|s: String| s@) =~= before.map_values(|s: String| s@).push(
                        text@,
                    ));
                }
            },
            None => {},
        }
        i = i + 1;
    }
    proof {
        assert(all.take(chunks@.len() as int) =~= all);
    }
    r
}

} // verus!
