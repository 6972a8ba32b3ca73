//! Decimal formatting and parsing on plain bytes and characters.
//!
//! Output paths embed tile coordinates in decimal, and the tile archives
//! carry decimal ids in their text sections; both directions are specified
//! against [`dec_digits`] and [`digits_val`].

use vstd::prelude::*;

verus! {

/// The character for one decimal digit value.
pub open spec fn digit_char(d: nat) -> char {
    if d == 0 {
        '0'
    } else if d == 1 {
        '1'
    } else if d == 2 {
        '2'
    } else if d == 3 {
        '3'
    } else if d == 4 {
        '4'
    } else if d == 5 {
        '5'
    } else if d == 6 {
        '6'
    } else if d == 7 {
        '7'
    } else if d == 8 {
        '8'
    } else {
        '9'
    }
}

/// The decimal digit string of a natural number, most significant digit
/// first, with no sign and no leading zeros (a lone `'0'` for zero).
pub open spec fn dec_digits(n: nat) -> Seq<char>
    decreases n,
{
    if n < 10 {
        seq![digit_char(n)]
    } else {
        dec_digits(n / 10) + seq![digit_char(n % 10)]
    }
}

/// The decimal rendering of an integer: a `'-'` before the digits when it is
/// negative.
pub open spec fn int_chars(v: int) -> Seq<char> {
    if v < 0 {
        seq!['-'] + dec_digits((-v) as nat)
    } else {
        dec_digits(v as nat)
    }
}

/// Relies on `String::push`, which vstd leaves unspecified: it appends
/// exactly the given character.
#[verifier::external_body]
pub(crate) fn push_char(s: &mut String, c: char)
    ensures
        final(s)@ == old(s)@.push(c),
{
    s.push(c);
}

fn digit_char_exec(d: u64) -> (c: char)
    requires
        d < 10,
    ensures
        c == digit_char(d as nat),
{
    if d == 0 {
        '0'
    } else if d == 1 {
        '1'
    } else if d == 2 {
        '2'
    } else if d == 3 {
        '3'
    } else if d == 4 {
        '4'
    } else if d == 5 {
        '5'
    } else if d == 6 {
        '6'
    } else if d == 7 {
        '7'
    } else if d == 8 {
        '8'
    } else {
        '9'
    }
}

/// Appends the decimal digits of `n` to `s`.
pub fn push_u64(s: &mut String, n: u64)
    ensures
        final(s)@ == old(s)@ + dec_digits(n as nat),
{
    let mut rev: Vec<char> = Vec::new();
    let mut m: u64 = n;
    proof {
        assert(dec_digits(n as nat) =~= dec_digits(m as nat) + rev@.reverse());
    }
    while m >= 10
        invariant
            dec_digits(n as nat) == dec_digits(m as nat) + rev@.reverse(),
        decreases m,
    {
        let ghost rev0 = rev@;
        let ghost m0 = m as nat;
        rev.push(digit_char_exec(m % 10));
        m = m / 10;
        proof {
            assert(rev@.reverse() =~= seq![digit_char(m0 % 10)] + rev0.reverse());
            assert(dec_digits(m0) == dec_digits(m0 / 10) + seq![digit_char(m0 % 10)]);
            assert(dec_digits(m as nat) + rev@.reverse() =~= dec_digits(m0) + rev0.reverse());
        }
    }
    push_char(s, digit_char_exec(m));
    proof {
        assert(dec_digits(m as nat) =~= seq![digit_char(m as nat)]);
        assert(s@ + rev@.reverse() =~= old(s)@ + dec_digits(n as nat));
    }
    while rev.len() > 0
        invariant
            s@ + rev@.reverse() == old(s)@ + dec_digits(n as nat),
        decreases rev.len(),
    {
        let ghost rev0 = rev@;
        let c = rev.pop().unwrap();
        push_char(s, c);
        proof {
            assert(rev0.reverse() =~= seq![rev0.last()] + rev@.reverse());
            assert(s@ + rev@.reverse() =~= old(s)@ + dec_digits(n as nat));
        }
    }
    proof {
        assert(s@ =~= s@ + rev@.reverse());
    }
}

/// Appends the decimal rendering of `v`, sign included, to `s`.
pub fn push_i32(s: &mut String, v: i32)
    ensures
        final(s)@ == old(s)@ + int_chars(v as int),
{
    if v < 0 {
        push_char(s, '-');
        let w = v as i64;
        push_u64(s, (-w) as u64);
        proof {
            assert(old(s)@.push('-') =~= old(s)@ + seq!['-']);
            assert(old(s)@ + seq!['-'] + dec_digits((-(v as int)) as nat) =~= old(s)@ + int_chars(
                v as int,
            ));
        }
    } else {
        push_u64(s, v as u64);
    }
}

/// Whether every byte of `s` is an ASCII decimal digit.
pub open spec fn all_digits(s: Seq<u8>) -> bool {
    forall|i: int| 0 <= i < s.len() ==> 48 <= #[trigger] s[i] <= 57
}

/// The value of an ASCII digit string, most significant digit first.
pub open spec fn digits_val(s: Seq<u8>) -> int
    decreases s.len(),
{
    if s.len() == 0 {
        0
    } else {
        digits_val(s.drop_last()) * 10 + (s.last() - 48)
    }
}

/// A digit string is worth at least any of its prefixes.
proof fn lemma_digits_val_prefix_le(s: Seq<u8>, i: int)
    requires
        all_digits(s),
        0 <= i <= s.len(),
    ensures
        0 <= digits_val(s.subrange(0, i)) <= digits_val(s),
        digits_val(s.subrange(0, i)) * 10 <= digits_val(s) || i == s.len(),
    decreases s.len() - i,
{
    if i == s.len() {
        assert(s.subrange(0, i) =~= s);
        lemma_digits_val_nonneg(s);
    } else {
        lemma_digits_val_prefix_le(s, i + 1);
        let p = s.subrange(0, i);
        let q = s.subrange(0, i + 1);
        assert(q.drop_last() =~= p);
        assert(digits_val(q) == digits_val(p) * 10 + (q.last() - 48));
        lemma_digits_val_nonneg(p);
    }
}

/// Digit strings never have negative value.
proof fn lemma_digits_val_nonneg(s: Seq<u8>)
    requires
        all_digits(s),
    ensures
        digits_val(s) >= 0,
    decreases s.len(),
{
    if s.len() > 0 {
        assert(all_digits(s.drop_last()));
        lemma_digits_val_nonneg(s.drop_last());
    }
}

/// What `usize::from_str` accepts: an optional leading `'+'`, then at least
/// one digit, with a value that fits the type. `None` when it would not
/// parse.
pub open spec fn parse_usize_spec(s: Seq<u8>) -> Option<int> {
    let t = if s.len() > 0 && s[0] == 43 {
        s.drop_first()
    } else {
        s
    };
    if t.len() > 0 && all_digits(t) && digits_val(t) <= usize::MAX {
        Some(digits_val(t))
    } else {
        None
    }
}

/// What `i32::from_str` accepts: an optional leading sign, then at least one
/// digit, with the signed value in range.
pub open spec fn parse_i32_spec(s: Seq<u8>) -> Option<int> {
    let neg = s.len() > 0 && s[0] == 45;
    let t = if s.len() > 0 && (s[0] == 43 || s[0] == 45) {
        s.drop_first()
    } else {
        s
    };
    if t.len() > 0 && all_digits(t) && (if neg {
        digits_val(t) <= 0x8000_0000
    } else {
        digits_val(t) <= 0x7FFF_FFFF
    }) {
        Some(
            if neg {
                -digits_val(t)
            } else {
                digits_val(t)
            },
        )
    } else {
        None
    }
}

/// Value of the digit run `s[from..]`; `None` exactly when the run is empty,
/// holds a non-digit, or exceeds `limit`.
fn parse_digits(s: &[u8], from: usize, limit: u64) -> (r: Option<u64>)
    requires
        from <= s@.len(),
    ensures
        match r {
            Some(v) => s@.len() > from && all_digits(s@.subrange(from as int, s@.len() as int))
                && digits_val(s@.subrange(from as int, s@.len() as int)) == v && v <= limit,
            None => s@.len() == from || !all_digits(s@.subrange(from as int, s@.len() as int))
                || digits_val(s@.subrange(from as int, s@.len() as int)) > limit,
        },
{
    let ghost t = s@.subrange(from as int, s@.len() as int);
    if s.len() == from {
        return None;
    }
    let mut v: u64 = 0;
    let mut i: usize = from;
    while i < s.len()
        invariant
            from <= i <= s@.len(),
            from < s@.len(),
            s@.len() == s.len(),
            t == s@.subrange(from as int, s@.len() as int),
            all_digits(s@.subrange(from as int, i as int)),
            v == digits_val(s@.subrange(from as int, i as int)),
            v <= limit,
        decreases s@.len() - i,
    {
        let c = s[i];
        if c < 48 || c > 57 {
            proof {
                assert(t[i - from] == s@[i as int]);
            }
            return None;
        }
        let d = (c - 48) as u64;
        proof {
            let p = s@.subrange(from as int, i as int);
            let q = s@.subrange(from as int, i + 1);
            assert(q.drop_last() =~= p);
            assert(q.last() == s@[i as int]);
            lemma_digits_val_nonneg(p);
        }
        let big = match v.checked_mul(10) {
            Some(x) => match x.checked_add(d) {
                Some(w) => {
                    if w > limit {
                        None
                    } else {
                        Some(w)
                    }
                },
                None => None,
            },
            None => None,
        };
        match big {
            Some(w) => {
                v = w;
            },
            None => {
                proof {
                    let q = s@.subrange(from as int, i + 1);
                    if all_digits(t) {
                        lemma_digits_val_prefix_le(t, i + 1 - from);
                        assert(t.subrange(0, i + 1 - from) =~= q);
                    }
                }
                return None;
            },
        }
        i = i + 1;
    }
    proof {
        assert(s@.subrange(from as int, i as int) =~= t);
    }
    Some(v)
}

/// Parses as `usize::from_str` does: an optional `'+'`, then decimal digits.
pub fn parse_usize(s: &[u8]) -> (r: Option<usize>)
    ensures
        match r {
            Some(v) => parse_usize_spec(s@) == Some(v as int),
            None => parse_usize_spec(s@) is None,
        },
{
    let from: usize = if s.len() > 0 && s[0] == 43 {
        1
    } else {
        0
    };
    proof {
        if from == 1 {
            assert(s@.drop_first() =~= s@.subrange(1, s@.len() as int));
        } else {
            assert(s@ =~= s@.subrange(0, s@.len() as int));
        }
    }
    match parse_digits(s, from, usize::MAX as u64) {
        Some(v) => Some(v as usize),
        None => None,
    }
}

/// Parses as `u32::from_str` does.
pub fn parse_u32(s: &[u8]) -> (r: Option<u32>)
    ensures
        match r {
            Some(v) => s@.len() > 0 && parse_usize_spec(s@) == Some(v as int),
            None => !(parse_usize_spec(s@) matches Some(v) && v <= u32::MAX),
        },
{
    let from: usize = if s.len() > 0 && s[0] == 43 {
        1
    } else {
        0
    };
    proof {
        if from == 1 {
            assert(s@.drop_first() =~= s@.subrange(1, s@.len() as int));
        } else {
            assert(s@ =~= s@.subrange(0, s@.len() as int));
        }
    }
    match parse_digits(s, from, u32::MAX as u64) {
        Some(v) => Some(v as u32),
        None => None,
    }
}

/// Parses as `i32::from_str` does: an optional sign, then decimal digits.
pub fn parse_i32(s: &[u8]) -> (r: Option<i32>)
    ensures
        match r {
            Some(v) => parse_i32_spec(s@) == Some(v as int),
            None => parse_i32_spec(s@) is None,
        },
{
    let neg = s.len() > 0 && s[0] == 45;
    let from: usize = if s.len() > 0 && (s[0] == 43 || s[0] == 45) {
        1
    } else {
        0
    };
    proof {
        if from == 1 {
            assert(s@.drop_first() =~= s@.subrange(1, s@.len() as int));
        } else {
            assert(s@ =~= s@.subrange(0, s@.len() as int));
        }
    }
    if neg {
        match parse_digits(s, from, 0x8000_0000) {
            Some(v) => Some((-(v as i64)) as i32),
            None => None,
        }
    } else {
        match parse_digits(s, from, 0x7FFF_FFFF) {
            Some(v) => Some(v as i32),
            None => None,
        }
    }
}

} // verus!
