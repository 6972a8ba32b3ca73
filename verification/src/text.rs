//! Byte-level text helpers shared by the tile parsers.
//!
//! The tile archives carry UTF-8 text sections; every delimiter the formats
//! use is a single ASCII byte, so the parsers work directly on bytes.

use vstd::prelude::*;

verus! {

/// Index of the first occurrence of `b` in `s`, or -1 when absent.
pub open spec fn first_index(s: Seq<u8>, b: u8) -> int
    decreases s.len(),
{
    if s.len() == 0 {
        -1
    } else if s[0] == b {
        0
    } else {
        let j = first_index(s.drop_first(), b);
        if j < 0 {
            -1
        } else {
            j + 1
        }
    }
}

/// `first_index` names the smallest occurrence, and -1 means none at all.
pub proof fn lemma_first_index(s: Seq<u8>, b: u8)
    ensures
        first_index(s, b) == -1 ==> forall|j: int| 0 <= j < s.len() ==> s[j] != b,
        first_index(s, b) != -1 ==> 0 <= first_index(s, b) < s.len() && s[first_index(s, b)] == b
            && forall|j: int| 0 <= j < first_index(s, b) ==> s[j] != b,
    decreases s.len(),
{
    if s.len() > 0 && s[0] != b {
        lemma_first_index(s.drop_first(), b);
        let j = first_index(s.drop_first(), b);
        if j == -1 {
            assert forall|k: int| 0 <= k < s.len() implies s[k] != b by {
                if k > 0 {
                    assert(s.drop_first()[k - 1] == s[k]);
                }
            }
        } else {
            assert(s.drop_first()[j] == s[j + 1]);
            assert forall|k: int| 0 <= k < j + 1 implies s[k] != b by {
                if k > 0 {
                    assert(s.drop_first()[k - 1] == s[k]);
                }
            }
        }
    }
}

/// Finds the first occurrence of `b`, as `first_index` describes it.
#[verifier::loop_isolation(false)]
pub fn find_byte(s: &[u8], b: u8) -> (r: Option<usize>)
    ensures
        match r {
            Some(i) => first_index(s@, b) == i,
            None => first_index(s@, b) == -1,
        },
{
    proof {
        lemma_first_index(s@, b);
    }
    let mut i: usize = 0;
    while i < s.len()
        invariant
            0 <= i <= s@.len(),
            s@.len() == s.len(),
            forall|j: int| 0 <= j < i ==> s@[j] != b,
        decreases s@.len() - i,
    {
        if s[i] == b {
            proof {
                if first_index(s@, b) == -1 {
                    assert(s@[i as int] != b);
                }
                assert(first_index(s@, b) == i);
            }
            return Some(i);
        }
        i = i + 1;
    }
    proof {
        if first_index(s@, b) != -1 {
            assert(s@[first_index(s@, b)] != b);
        }
    }
    None
}

/// Whether two byte strings hold the same bytes.
#[verifier::loop_isolation(false)]
pub fn bytes_eq(a: &[u8], b: &[u8]) -> (r: bool)
    ensures
        r == (a@ == b@),
{
    if a.len() != b.len() {
        proof {
            assert(a@ != b@);
        }
        return false;
    }
    let mut i: usize = 0;
    while i < a.len()
        invariant
            0 <= i <= a@.len(),
            a@.len() == a.len(),
            b@.len() == a@.len(),
            forall|j: int| 0 <= j < i ==> a@[j] == b@[j],
        decreases a@.len() - i,
    {
        if a[i] != b[i] {
            return false;
        }
        i = i + 1;
    }
    proof {
        assert(a@ =~= b@);
    }
    true
}

/// The pieces of `s` split at every occurrence of `sep`; an empty input is
/// one empty piece, as `str::split` has it.
pub open spec fn split_on(s: Seq<u8>, sep: u8) -> Seq<Seq<u8>>
    decreases s.len(),
    via split_on_dec
{
    let i = first_index(s, sep);
    if i < 0 {
        seq![s]
    } else {
        seq![s.take(i)] + split_on(s.skip(i + 1), sep)
    }
}

#[via_fn]
proof fn split_on_dec(s: Seq<u8>, sep: u8) {
    lemma_first_index(s, sep);
}

/// Splits at every occurrence of `sep`.
#[verifier::loop_isolation(false)]
pub fn split_bytes(s: &[u8], sep: u8) -> (r: Vec<Vec<u8>>)
    ensures
        r.deep_view() == split_on(s@, sep),
    decreases s@.len(),
{
    match find_byte(s, sep) {
        None => {
            let mut r: Vec<Vec<u8>> = Vec::new();
            r.push(slice_to_vec(s));
            proof {
                assert(r.deep_view() =~~= split_on(s@, sep));
            }
            r
        },
        Some(i) => {
            let n = s.len();
            proof {
                lemma_first_index(s@, sep);
                assert(i < n);
            }
            let head = slice_to_vec(slice_subrange(s, 0, i));
            let rest = split_bytes(slice_subrange(s, i + 1, n), sep);
            let mut r: Vec<Vec<u8>> = Vec::new();
            r.push(head);
            let mut k: usize = 0;
            proof {
                assert(s@.subrange(0, i as int) =~= s@.take(i as int));
                assert(s@.subrange(i + 1, s@.len() as int) =~= s@.skip(i + 1));
            }
            while k < rest.len()
                invariant
                    0 <= k <= rest.len(),
                    r.deep_view() =~~= seq![s@.take(first_index(s@, sep))] + rest.deep_view().take(
                        k as int,
                    ),
                decreases rest.len() - k,
            {
                let ghost r0 = r.deep_view();
                let piece = clone_bytes(&rest[k]);
                r.push(piece);
                proof {
                    assert(r.deep_view() =~~= r0.push(rest.deep_view()[k as int]));
                    assert(rest.deep_view().take(k + 1) =~~= rest.deep_view().take(k as int).push(
                        rest.deep_view()[k as int],
                    ));
                    assert(r.deep_view() =~~= seq![s@.take(first_index(s@, sep))]
                        + rest.deep_view().take(k + 1));
                }
                k = k + 1;
            }
            proof {
                assert(rest.deep_view().take(rest.len() as int) =~= rest.deep_view());
                assert(r.deep_view() =~~= split_on(s@, sep));
            }
            r
        },
    }
}

/// Copies a byte slice into an owned vector.
#[verifier::loop_isolation(false)]
pub fn slice_to_vec(s: &[u8]) -> (r: Vec<u8>)
    ensures
        r@ == s@,
{
    let mut r: Vec<u8> = Vec::new();
    let mut i: usize = 0;
    while i < s.len()
        invariant
            0 <= i <= s@.len(),
            s@.len() == s.len(),
            r@ =~= s@.take(i as int),
        decreases s@.len() - i,
    {
        r.push(s[i]);
        proof {
            assert(s@.take(i + 1) =~= s@.take(i as int).push(s@[i as int]));
        }
        i = i + 1;
    }
    proof {
        assert(s@.take(i as int) =~= s@);
    }
    r
}

/// Copies an owned byte vector.
pub fn clone_bytes(s: &Vec<u8>) -> (r: Vec<u8>)
    ensures
        r@ == s@,
{
    slice_to_vec(s.as_slice())
}

/// The sub-slice `s[from..to]`.
pub fn slice_subrange(s: &[u8], from: usize, to: usize) -> (r: &[u8])
    requires
        from <= to <= s@.len(),
    ensures
        r@ == s@.subrange(from as int, to as int),
{
    vstd::slice::slice_subrange(s, from, to)
}

/// One text line per entry, as `str::lines` cuts them: pieces between `'\n'`
/// bytes, a final newline opening no further line, and one `'\r'` stripped
/// from a line's end.
pub open spec fn lines_of(s: Seq<u8>) -> Seq<Seq<u8>> {
    if s.len() == 0 {
        Seq::empty()
    } else {
        let t = if s.last() == 10 {
            s.drop_last()
        } else {
            s
        };
        split_on(t, 10).map_values(|l: Seq<u8>| strip_cr(l))
    }
}

/// Drops a single trailing carriage return.
pub open spec fn strip_cr(l: Seq<u8>) -> Seq<u8> {
    if l.len() > 0 && l.last() == 13 {
        l.drop_last()
    } else {
        l
    }
}

/// Cuts `s` into lines, as `lines_of` describes.
#[verifier::loop_isolation(false)]
pub fn split_lines(s: &[u8]) -> (r: Vec<Vec<u8>>)
    ensures
        r.deep_view() == lines_of(s@),
{
    if s.len() == 0 {
        let r: Vec<Vec<u8>> = Vec::new();
        proof {
            assert(r.deep_view() =~~= lines_of(s@));
        }
        return r;
    }
    let t: &[u8] = if s[s.len() - 1] == 10 {
        slice_subrange(s, 0, s.len() - 1)
    } else {
        slice_subrange(s, 0, s.len())
    };
    proof {
        if s@.last() == 10 {
            assert(t@ =~= s@.drop_last());
        } else {
            assert(t@ =~= s@);
        }
    }
    let pieces = split_bytes(t, 10);
    let mut r: Vec<Vec<u8>> = Vec::new();
    let mut k: usize = 0;
    while k < pieces.len()
        invariant
            0 <= k <= pieces.len(),
            r.deep_view() =~~= pieces.deep_view().take(k as int).map_values(
                |l: Seq<u8>| strip_cr(l),
            ),
        decreases pieces.len() - k,
    {
        let ghost r0 = r.deep_view();
        let piece = &pieces[k];
        let stripped: Vec<u8> = if piece.len() > 0 && piece[piece.len() - 1] == 13 {
            slice_to_vec(slice_subrange(piece.as_slice(), 0, piece.len() - 1))
        } else {
            clone_bytes(piece)
        };
        proof {
            let pv = pieces.deep_view()[k as int];
            if pv.len() > 0 && pv.last() == 13 {
                assert(stripped@ =~= pv.drop_last());
            }
            assert(stripped@ == strip_cr(pv));
        }
        let ghost stripped_v = stripped@;
        r.push(stripped);
        proof {
            assert(r.deep_view() =~~= r0.push(stripped_v));
            assert(pieces.deep_view().take(k + 1) =~~= pieces.deep_view().take(k as int).push(
                pieces.deep_view()[k as int],
            ));
            assert(r.deep_view() =~~= pieces.deep_view().take(k + 1).map_values(
                |l: Seq<u8>| strip_cr(l),
            ));
        }
        k = k + 1;
    }
    proof {
        assert(pieces.deep_view().take(pieces.len() as int) =~~= pieces.deep_view());
        assert(r.deep_view() =~~= lines_of(s@));
    }
    r
}

} // verus!
