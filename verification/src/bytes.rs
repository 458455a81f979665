//! Byte-level building blocks shared by the two textual parsers: byte
//! classes, views of nested byte vectors, byte-string comparison, and
//! decimal number parsing.

use vstd::prelude::*;

verus! {

/// True when byte `b` may appear inside a node identifier or keyword:
/// ASCII letters, digits and underscore.
pub open spec fn spec_id_byte(b: u8) -> bool {
    (0x41 <= b && b <= 0x5a) || (0x61 <= b && b <= 0x7a) || (0x30 <= b && b <= 0x39) || b == 0x5f
}

/// True when byte `b` separates tokens within a line: space, tab or
/// carriage return.
pub open spec fn spec_sep_byte(b: u8) -> bool {
    b == 0x20 || b == 0x09 || b == 0x0d
}

/// True when byte `b` is an ASCII decimal digit.
pub open spec fn spec_digit(b: u8) -> bool {
    0x30 <= b && b <= 0x39
}

/// True when byte `b` may appear at all in a parser input buffer.
/// The target-list grammar additionally allows the comma as a separator;
/// the graph grammar does not.
pub open spec fn spec_valid_byte(b: u8, comma_ok: bool) -> bool {
    spec_id_byte(b) || spec_sep_byte(b) || b == 0x0a || (comma_ok && b == 0x2c)
}

/// Position of the first byte of `s`, at or after `i`, that the grammar
/// refuses; `None` when every byte from `i` on is acceptable.
pub open spec fn first_bad_from(s: Seq<u8>, comma_ok: bool, i: int) -> Option<int>
    decreases s.len() - i,
{
    if i < 0 || i >= s.len() {
        None
    } else if !spec_valid_byte(s[i], comma_ok) {
        Some(i)
    } else {
        first_bad_from(s, comma_ok, i + 1)
    }
}

/// The sequence of byte strings held by a sequence of byte vectors.
pub open spec fn view2(s: Seq<Vec<u8>>) -> Seq<Seq<u8>> {
    s.map_values(|x: Vec<u8>| x@)
}

/// The sequence of boolean rows held by a sequence of boolean vectors.
pub open spec fn rows_view(s: Seq<Vec<bool>>) -> Seq<Seq<bool>> {
    s.map_values(|x: Vec<bool>| x@)
}

pub proof fn lemma_view2_push(s: Seq<Vec<u8>>, x: Vec<u8>)
    ensures
        view2(s.push(x)) == view2(s).push(x@),
{
    assert(view2(s.push(x)) =~= view2(s).push(x@));
}

/// Executable test matching `spec_id_byte`.
pub fn id_byte(b: u8) -> (r: bool)
    ensures
        r == spec_id_byte(b),
{
    (0x41 <= b && b <= 0x5a) || (0x61 <= b && b <= 0x7a) || (0x30 <= b && b <= 0x39) || b == 0x5f
}

/// Executable test matching `spec_sep_byte`.
pub fn sep_byte(b: u8) -> (r: bool)
    ensures
        r == spec_sep_byte(b),
{
    b == 0x20 || b == 0x09 || b == 0x0d
}

/// Position of the first byte the grammar refuses, if any.
pub fn first_bad(s: &Vec<u8>, comma_ok: bool) -> (r: Option<usize>)
    ensures
        match r {
            Some(p) => first_bad_from(s@, comma_ok, 0) == Some(p as int),
            None => first_bad_from(s@, comma_ok, 0) is None,
        },
{
    let mut i: usize = 0;
    while i < s.len()
        invariant
            0 <= i <= s@.len(),
            first_bad_from(s@, comma_ok, 0) == first_bad_from(s@, comma_ok, i as int),
        decreases s@.len() - i,
    {
        let b = s[i];
        let ok = id_byte(b) || sep_byte(b) || b == 0x0a || (comma_ok && b == 0x2c);
        if !ok {
            return Some(i);
        }
        i += 1;
    }
    None
}

/// Byte-string equality.
pub fn bytes_eq(a: &Vec<u8>, b: &Vec<u8>) -> (r: bool)
    ensures
        r == (a@ == b@),
{
    if a.len() != b.len() {
        proof {
            assert(a@ != b@) by {
                if a@ == b@ {
                    assert(a@.len() == b@.len());
                }
            }
        }
        return false;
    }
    let mut i: usize = 0;
    while i < a.len()
        invariant
            a@.len() == b@.len(),
            0 <= i <= a@.len(),
            forall|j: int| 0 <= j < i ==> a@[j] == b@[j],
        decreases a@.len() - i,
    {
        if a[i] != b[i] {
            proof {
                assert(a@ != b@) by {
                    if a@ == b@ {
                        assert(a@[i as int] == b@[i as int]);
                    }
                }
            }
            return false;
        }
        i += 1;
    }
    proof {
        assert(a@ =~= b@);
    }
    true
}

/// A fresh copy of a byte string.
pub fn copy_bytes(src: &Vec<u8>) -> (r: Vec<u8>)
    ensures
        r@ == src@,
{
    let mut r: Vec<u8> = Vec::new();
    let mut i: usize = 0;
    while i < src.len()
        invariant
            0 <= i <= src@.len(),
            r@ == src@.take(i as int),
        decreases src@.len() - i,
    {
        r.push(src[i]);
        proof {
            assert(src@.take(i as int).push(src@[i as int]) =~= src@.take(i + 1));
        }
        i += 1;
    }
    proof {
        assert(src@.take(src@.len() as int) =~= src@);
    }
    r
}

/// Whether a list of byte strings holds the byte string `x`.
pub fn list_contains(l: &Vec<Vec<u8>>, x: &Vec<u8>) -> (r: bool)
    ensures
        r == view2(l@).contains(x@),
{
    let mut i: usize = 0;
    while i < l.len()
        invariant
            0 <= i <= l@.len(),
            forall|j: int| 0 <= j < i ==> view2(l@)[j] != x@,
        decreases l@.len() - i,
    {
        if bytes_eq(&l[i], x) {
            proof {
                assert(view2(l@)[i as int] == x@);
            }
            return true;
        }
        i += 1;
    }
    proof {
        assert(!view2(l@).contains(x@)) by {
            if view2(l@).contains(x@) {
                let j = choose|j: int| 0 <= j < view2(l@).len() && view2(l@)[j] == x@;
                assert(view2(l@)[j] != x@);
            }
        }
    }
    false
}

/// True when every byte of `s` is a decimal digit.
pub open spec fn all_digits(s: Seq<u8>) -> bool {
    forall|i: int| 0 <= i < s.len() ==> spec_digit(#[trigger] s[i])
}

/// Value of the digits of `s` from position `i` on, appended to the
/// accumulated value `acc`.
pub open spec fn digits_val(s: Seq<u8>, i: int, acc: int) -> int
    decreases s.len() - i,
{
    if i < 0 || i >= s.len() {
        acc
    } else {
        digits_val(s, i + 1, acc * 10 + (s[i] - 0x30))
    }
}

/// What a numeric token denotes: a non-empty, all-digit byte string whose
/// value fits the machine's word, and nothing else.
pub open spec fn spec_parse_num(s: Seq<u8>) -> Option<int> {
    if s.len() >= 1 && all_digits(s) && digits_val(s, 0, 0) <= usize::MAX {
        Some(digits_val(s, 0, 0))
    } else {
        None
    }
}

proof fn lemma_digits_val_lb(s: Seq<u8>, i: int, acc: int)
    requires
        acc >= 0,
        forall|j: int| 0 <= j < s.len() ==> spec_digit(#[trigger] s[j]),
    ensures
        digits_val(s, i, acc) >= acc,
    decreases s.len() - i,
{
    if 0 <= i < s.len() {
        lemma_digits_val_lb(s, i + 1, acc * 10 + (s[i] - 0x30));
    }
}

/// Parse a decimal numeric token.
pub fn parse_num(s: &Vec<u8>) -> (r: Option<usize>)
    ensures
        match r {
            Some(v) => spec_parse_num(s@) == Some(v as int),
            None => spec_parse_num(s@) is None,
        },
{
    if s.len() == 0 {
        return None;
    }
    let mut i: usize = 0;
    let mut acc: usize = 0;
    while i < s.len()
        invariant
            0 <= i <= s@.len(),
            s@.len() >= 1,
            all_digits(s@.take(i as int)),
            digits_val(s@, 0, 0) == digits_val(s@, i as int, acc as int),
        decreases s@.len() - i,
    {
        let b = s[i];
        if !(0x30 <= b && b <= 0x39) {
            proof {
                assert(!spec_digit(s@[i as int]));
            }
            return None;
        }
        let d = b - 0x30;
        if acc > usize::MAX / 10 {
            proof {
                if all_digits(s@) {
                    lemma_digits_val_lb(s@, i + 1, acc as int * 10 + d);
                    assert(acc as int * 10 >= (usize::MAX / 10 + 1) * 10 > usize::MAX) by (nonlinear_arith)
                        requires acc as int > usize::MAX as int / 10;
                }
            }
            return None;
        }
        let next = acc * 10;
        if d as usize > usize::MAX - next {
            proof {
                if all_digits(s@) {
                    lemma_digits_val_lb(s@, i + 1, next as int + d);
                }
            }
            return None;
        }
        acc = next + d as usize;
        proof {
            assert(all_digits(s@.take(i + 1))) by {
                assert(forall|j: int| 0 <= j < i + 1 ==> spec_digit(#[trigger] s@.take(i + 1)[j]));
            }
        }
        i += 1;
    }
    proof {
        assert(s@.take(s@.len() as int) =~= s@);
    }
    Some(acc)
}

} // verus!
