//! Trace and span ids in the writing that tracing tools use.
//!
//! Logs and traces are joined by exact equality of the id, so one writing is
//! settled on before an id is stored:
//!
//! * hexadecimal ids are written in lower case;
//! * a trace id of 16 hexadecimal digits is padded with zeros to 32;
//! * `N/A`, which stands for no trace, becomes empty;
//! * anything else is kept as it is.

use vstd::prelude::*;

use crate::text::{trim, trimmed};

verus! {

/// Whether a character is a hexadecimal digit.
pub open spec fn is_hex(c: char) -> bool {
    '0' <= c <= '9' || 'a' <= c <= 'f' || 'A' <= c <= 'F'
}

/// A character with `A` to `Z` in lower case.
pub open spec fn lower(c: char) -> char {
    if 'A' <= c <= 'Z' {
        (c as int + 32) as char
    } else {
        c
    }
}

/// A text with `A` to `Z` in lower case.
pub open spec fn lowered(s: Seq<char>) -> Seq<char> {
    s.map_values(|c: char| lower(c))
}

/// Whether all characters are hexadecimal digits.
pub open spec fn all_hex(s: Seq<char>) -> bool {
    forall|i: int| 0 <= i < s.len() ==> is_hex(#[trigger] s[i])
}

/// Whether a text is `N/A` in any case.
pub open spec fn not_available(s: Seq<char>) -> bool {
    s.len() == 3 && lower(s[0]) == 'n' && s[1] == '/' && lower(s[2]) == 'a'
}

/// `n` zeros.
pub open spec fn zeros(n: nat) -> Seq<char> {
    Seq::new(n, |i: int| '0')
}

/// The id in the writing that is stored; `width` is its full number of digits.
pub open spec fn normal_id(raw: Seq<char>, width: int) -> Seq<char> {
    let id = trimmed(raw);
    if id.len() == 0 || not_available(id) {
        Seq::empty()
    } else if !all_hex(id) {
        id
    } else if id.len() == 16 && width == 32 {
        zeros(16) + lowered(id)
    } else {
        lowered(id)
    }
}

fn to_lower(c: char) -> (r: char)
    ensures
        r == lower(c),
{
    if 'A' <= c && c <= 'Z' {
        (c as u8 + 32) as char
    } else {
        c
    }
}

/// The trace id in the writing that is stored.
pub fn normalize_trace_id(raw: &str) -> (r: String)
    ensures
        r@ == normal_id(raw@, 32),
{
    normalize_id(raw, 32)
}

/// The span id in the writing that is stored; it is never padded.
pub fn normalize_span_id(raw: &str) -> (r: String)
    ensures
        r@ == normal_id(raw@, 16),
{
    normalize_id(raw, 16)
}

/// The id in the writing that is stored; `width` is its full number of digits.
pub fn normalize_id(raw: &str, width: usize) -> (r: String)
    ensures
        r@ == normal_id(raw@, width as int),
{
    let id = trim(raw);
    let count: usize = id.unicode_len();
    if count == 0 {
        return String::new();
    }
    if count == 3 && to_lower(id.get_char(0)) == 'n' && id.get_char(1) == '/' && to_lower(
        id.get_char(2),
    ) == 'a' {
        return String::new();
    }
    let mut out = String::new();
    if count == 16 && width == 32 {
        for i in 0..16
            invariant
                out@ == zeros(i as nat),
        {
            out.push('0');
            proof {
                assert(out@ =~= zeros((i + 1) as nat));
            }
        }
    }
    let ghost pad = out@;
    let mut chars = id.chars();
    let ghost mut k: int = 0;
    proof {
        assert(id@.skip(0) =~= id@);
        assert(out@ =~= pad + lowered(id@.take(0)));
    }
    loop
        invariant
            0 <= k <= id@.len(),
            vstd::std_specs::iter::IteratorSpec::obeys_prophetic_iter_laws(&chars),
            vstd::std_specs::iter::IteratorSpec::remaining(&chars) == id@.skip(k),
            id@.len() > 0,
            !not_available(id@),
            id@ == trimmed(raw@),
            forall|i: int| 0 <= i < k ==> is_hex(#[trigger] id@[i]),
            out@ == pad + lowered(id@.take(k)),
        ensures
            k == id@.len(),
        decreases id@.len() - k,
    {
        match chars.next() {
            None => {
                break ;
            },
            Some(c) => {
                proof {
                    assert(id@.skip(k)[0] == id@[k]);
                    assert(id@.skip(k).drop_first() =~= id@.skip(k + 1));
                    assert(id@.take(k + 1) =~= id@.take(k).push(c));
                }
                if !('0' <= c && c <= '9' || 'a' <= c && c <= 'f' || 'A' <= c && c <= 'F') {
                    return id.to_owned();
                }
                out.push(to_lower(c));
                proof {
                    assert(out@ =~= pad + lowered(id@.take(k + 1)));
                    k = k + 1;
                }
            },
        }
    }
    proof {
        assert(id@.take(k) =~= id@);
        assert(zeros(0) + lowered(id@) =~= lowered(id@));
    }
    out
}

} // verus!
