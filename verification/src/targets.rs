//! The target-set parser.
//!
//! A target list is a run of external node identifiers separated by
//! whitespace or commas; duplicates collapse silently and order is kept
//! by first appearance.  The parser validates nothing against any graph:
//! resolution happens later, against a specific graph's identifier
//! table.  Any byte that is neither an identifier byte nor a separator
//! is refused with its offset.

use vstd::prelude::*;

use crate::bytes::{first_bad, first_bad_from, lemma_view2_push, list_contains, spec_id_byte, view2};
use crate::errors::ParseError;

verus! {

/// The fold state: the token being read and the deduplicated tokens
/// seen so far.
pub ghost struct TState {
    pub cur: Seq<u8>,
    pub toks: Seq<Seq<u8>>,
}

/// Close the token being read, if any, dropping a duplicate.
pub open spec fn tflush(cur: Seq<u8>, toks: Seq<Seq<u8>>) -> Seq<Seq<u8>> {
    if cur.len() == 0 {
        toks
    } else if toks.contains(cur) {
        toks
    } else {
        toks.push(cur)
    }
}

/// What one input byte does to the fold state.
pub open spec fn tstep(st: TState, byte: u8) -> TState {
    if spec_id_byte(byte) {
        TState { cur: st.cur.push(byte), toks: st.toks }
    } else {
        TState { cur: Seq::empty(), toks: tflush(st.cur, st.toks) }
    }
}

/// The fold of `tstep` over the input bytes from position `i` on.
pub open spec fn tfold(s: Seq<u8>, i: int, st: TState) -> TState
    decreases s.len() - i,
{
    if i < 0 || i >= s.len() {
        st
    } else {
        tfold(s, i + 1, tstep(st, s[i]))
    }
}

/// What a target list denotes: its distinct identifiers in order of
/// first appearance, or the first refused byte.
pub open spec fn spec_parse_targets(s: Seq<u8>) -> Result<Seq<Seq<u8>>, ParseError> {
    match first_bad_from(s, true, 0) {
        Some(p) => Err(ParseError::BadByte(p as usize)),
        None => {
            let st = tfold(s, 0, TState { cur: Seq::empty(), toks: Seq::empty() });
            Ok(tflush(st.cur, st.toks))
        },
    }
}

/// Parse a target list into its set of external identifiers.
pub fn parse_targets(input: &Vec<u8>) -> (r: Result<Vec<Vec<u8>>, ParseError>)
    ensures
        match r {
            Ok(v) => spec_parse_targets(input@) == Ok::<Seq<Seq<u8>>, ParseError>(view2(v@)),
            Err(e) => spec_parse_targets(input@) == Err::<Seq<Seq<u8>>, ParseError>(e),
        },
{
    if let Some(p) = first_bad(input, true) {
        return Err(ParseError::BadByte(p));
    }
    let mut cur: Vec<u8> = Vec::new();
    let mut toks: Vec<Vec<u8>> = Vec::new();
    proof {
        assert(view2(Seq::<Vec<u8>>::empty()) =~= Seq::<Seq<u8>>::empty());
    }
    let ghost init = TState { cur: Seq::empty(), toks: Seq::empty() };
    let mut i: usize = 0;
    while i < input.len()
        invariant
            0 <= i <= input@.len(),
            tfold(input@, 0, init) == tfold(
                input@,
                i as int,
                TState { cur: cur@, toks: view2(toks@) },
            ),
            init == (TState { cur: Seq::<u8>::empty(), toks: Seq::<Seq<u8>>::empty() }),
        decreases input@.len() - i,
    {
        let ghost st0 = TState { cur: cur@, toks: view2(toks@) };
        let byte = input[i];
        if crate::bytes::id_byte(byte) {
            cur.push(byte);
            proof {
                assert(tstep(st0, byte) == (TState { cur: cur@, toks: view2(toks@) }));
            }
        } else {
            if cur.len() > 0 {
                let dup = list_contains(&toks, &cur);
                if !dup {
                    proof {
                        lemma_view2_push(toks@, cur);
                    }
                    toks.push(cur);
                }
                cur = Vec::new();
            }
            proof {
                assert(cur@ =~= Seq::<u8>::empty());
                assert(tstep(st0, byte) == (TState { cur: cur@, toks: view2(toks@) }));
            }
        }
        i += 1;
    }
    let ghost stf = TState { cur: cur@, toks: view2(toks@) };
    proof {
        assert(tfold(input@, 0, init) == stf);
    }
    if cur.len() > 0 {
        let dup = list_contains(&toks, &cur);
        if !dup {
            proof {
                lemma_view2_push(toks@, cur);
            }
            toks.push(cur);
        }
    }
    proof {
        assert(view2(toks@) == tflush(stf.cur, stf.toks));
    }
    Ok(toks)
}

} // verus!
