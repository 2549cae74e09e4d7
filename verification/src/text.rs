//! Text primitives: scanning, splitting, trimming, comparing and printing.
//!
//! Every function is stated over the characters of its arguments; byte offsets
//! into the UTF-8 encoding stay inside this module.

use vstd::prelude::*;
use vstd::string::*;
use vstd::utf8::*;

verus! {

/// Appends one character: `String::push` makes the text one character longer
/// and keeps what was there.
pub assume_specification[ std::string::String::push ](s: &mut std::string::String, c: char)
    ensures
        final(s)@ == old(s)@.push(c),
;

/// The bytes that a text takes in UTF-8.
pub open spec fn byte_len(s: Seq<char>) -> nat {
    encode_utf8(s).len()
}

/// A set of characters that a scan stops at.
#[derive(Clone, Copy)]
pub enum Stop {
    /// One given character.
    Char(char),
    /// White space.
    Space,
    /// Anything but white space.
    NonSpace,
    /// Anything but `A` to `Z`.
    NonUpper,
}

/// The characters with the Unicode property White_Space.
pub open spec fn is_space(c: char) -> bool {
    ||| '\u{9}' <= c <= '\u{d}'
    ||| c == '\u{20}'
    ||| c == '\u{85}'
    ||| c == '\u{a0}'
    ||| c == '\u{1680}'
    ||| '\u{2000}' <= c <= '\u{200a}'
    ||| c == '\u{2028}'
    ||| c == '\u{2029}'
    ||| c == '\u{202f}'
    ||| c == '\u{205f}'
    ||| c == '\u{3000}'
}

/// Tells whether a character is white space.
pub fn is_whitespace(c: char) -> (r: bool)
    ensures
        r == is_space(c),
{
    ('\u{9}' <= c && c <= '\u{d}') || c == '\u{20}' || c == '\u{85}' || c == '\u{a0}' || c
        == '\u{1680}' || ('\u{2000}' <= c && c <= '\u{200a}') || c == '\u{2028}' || c == '\u{2029}'
        || c == '\u{202f}' || c == '\u{205f}' || c == '\u{3000}'
}

impl Stop {
    /// Whether the scan stops at `c`.
    pub open spec fn hit(self, c: char) -> bool {
        match self {
            Stop::Char(x) => c == x,
            Stop::Space => is_space(c),
            Stop::NonSpace => !is_space(c),
            Stop::NonUpper => !('A' <= c <= 'Z'),
        }
    }

    fn test(self, c: char) -> (r: bool)
        ensures
            r == self.hit(c),
    {
        match self {
            Stop::Char(x) => c == x,
            Stop::Space => is_whitespace(c),
            Stop::NonSpace => !is_whitespace(c),
            Stop::NonUpper => !('A' <= c && c <= 'Z'),
        }
    }
}

/// The position of the first character of `s` that `stop` hits, or the length
/// of `s` where it hits none.
pub open spec fn scan(s: Seq<char>, stop: Stop) -> int
    decreases s.len(),
{
    if s.len() == 0 || stop.hit(s[0]) {
        0
    } else {
        1 + scan(s.drop_first(), stop)
    }
}

/// The position of the last character of `s` that `stop` hits, or -1 where it
/// hits none.
pub open spec fn last_scan(s: Seq<char>, stop: Stop) -> int
    decreases s.len(),
{
    if s.len() == 0 {
        -1
    } else if stop.hit(s.last()) {
        s.len() - 1
    } else {
        last_scan(s.drop_last(), stop)
    }
}

/// `scan` is the first hit.
pub proof fn lemma_scan(s: Seq<char>, stop: Stop)
    ensures
        0 <= scan(s, stop) <= s.len(),
        forall|i: int| 0 <= i < scan(s, stop) ==> !stop.hit(#[trigger] s[i]),
        scan(s, stop) < s.len() ==> stop.hit(s[scan(s, stop)]),
    decreases s.len(),
{
    if s.len() == 0 || stop.hit(s[0]) {
    } else {
        lemma_scan(s.drop_first(), stop);
        let k = scan(s.drop_first(), stop);
        assert forall|i: int| 0 <= i < scan(s, stop) implies !stop.hit(#[trigger] s[i]) by {
            if i > 0 {
                assert(s.drop_first()[i - 1] == s[i]);
            }
        }
        if k < s.drop_first().len() {
            assert(s.drop_first()[k] == s[k + 1]);
        }
    }
}

/// The first hit is unique.
pub proof fn lemma_scan_unique(s: Seq<char>, stop: Stop, k: int)
    requires
        0 <= k <= s.len(),
        forall|i: int| 0 <= i < k ==> !stop.hit(#[trigger] s[i]),
        k < s.len() ==> stop.hit(s[k]),
    ensures
        k == scan(s, stop),
{
    lemma_scan(s, stop);
    let j = scan(s, stop);
    if j < k {
        assert(!stop.hit(s[j]));
    } else if k < j {
        assert(!stop.hit(s[k]));
    }
}

/// `last_scan` is the last hit.
pub proof fn lemma_last_scan(s: Seq<char>, stop: Stop)
    ensures
        -1 <= last_scan(s, stop) < s.len(),
        forall|i: int| last_scan(s, stop) < i < s.len() ==> !stop.hit(#[trigger] s[i]),
        last_scan(s, stop) >= 0 ==> stop.hit(s[last_scan(s, stop)]),
    decreases s.len(),
{
    if s.len() > 0 && !stop.hit(s.last()) {
        lemma_last_scan(s.drop_last(), stop);
        assert forall|i: int| last_scan(s, stop) < i < s.len() implies !stop.hit(
            #[trigger] s[i],
        ) by {
            if i < s.len() - 1 {
                assert(s.drop_last()[i] == s[i]);
            }
        }
    }
}

/// The last hit is unique.
pub proof fn lemma_last_scan_unique(s: Seq<char>, stop: Stop, k: int)
    requires
        -1 <= k < s.len(),
        forall|i: int| k < i < s.len() ==> !stop.hit(#[trigger] s[i]),
        k >= 0 ==> stop.hit(s[k]),
    ensures
        k == last_scan(s, stop),
{
    lemma_last_scan(s, stop);
    let j = last_scan(s, stop);
    if j < k {
        assert(!stop.hit(s[k]));
    } else if k < j {
        assert(!stop.hit(s[j]));
    }
}

/// The encoding of two texts in a row is the two encodings in a row.
pub proof fn lemma_encode_add(a: Seq<char>, b: Seq<char>)
    ensures
        encode_utf8(a + b) == encode_utf8(a) + encode_utf8(b),
    decreases a.len(),
{
    if a.len() == 0 {
        assert(a + b =~= b);
        assert(encode_utf8(a) + encode_utf8(b) =~= encode_utf8(b));
    } else {
        lemma_encode_add(a.drop_first(), b);
        assert((a + b).drop_first() =~= a.drop_first() + b);
        assert(encode_utf8(a + b) =~= encode_utf8(a) + encode_utf8(b));
    }
}

/// The encoding tells texts apart.
pub proof fn lemma_encode_injective(a: Seq<char>, b: Seq<char>)
    requires
        encode_utf8(a) == encode_utf8(b),
    ensures
        a == b,
{
    encode_utf8_decode_utf8(a);
    encode_utf8_decode_utf8(b);
}

/// The encoding of the first `k` characters ends on a character boundary.
proof fn lemma_boundary(s: Seq<char>, k: int)
    requires
        0 <= k <= s.len(),
    ensures
        is_char_boundary(encode_utf8(s), encode_utf8(s.take(k)).len() as int),
    decreases k,
{
    encode_utf8_valid_utf8(s);
    if k == 0 {
        assert(s.take(0) =~= Seq::<char>::empty());
        assert(encode_utf8(s.take(0)).len() == 0);
    } else {
        encode_utf8_first_scalar(s);
        let bytes = encode_utf8(s);
        let t = s.drop_first();
        assert(pop_first_scalar(bytes) =~= encode_utf8(t));
        lemma_boundary(t, k - 1);
        assert(s.take(k).drop_first() =~= t.take(k - 1));
        assert(s.take(k)[0] == s[0]);
        assert(encode_utf8(s.take(k)) == encode_scalar(s[0] as u32) + encode_utf8(t.take(k - 1)));
        lemma_encode_add(s.take(k), s.skip(k));
        assert(s.take(k) + s.skip(k) =~= s);
    }
}

/// One more character makes the encoding longer by that character's encoding.
proof fn lemma_encode_step(s: Seq<char>, k: int)
    requires
        0 <= k < s.len(),
    ensures
        encode_utf8(s.take(k + 1)).len() == encode_utf8(s.take(k)).len() + encode_scalar(
            s[k] as u32,
        ).len(),
        encode_utf8(s.take(k + 1)).len() <= encode_utf8(s).len(),
{
    let one = seq![s[k]];
    assert(s.take(k + 1) =~= s.take(k) + one);
    lemma_encode_add(s.take(k), one);
    assert(one.drop_first() =~= Seq::<char>::empty());
    assert(encode_utf8(one) =~= encode_scalar(s[k] as u32)) by {
        reveal_with_fuel(encode_utf8, 2);
    }
    lemma_encode_add(s.take(k + 1), s.skip(k + 1));
    assert(s.take(k + 1) + s.skip(k + 1) =~= s);
}

/// The number of bytes in the UTF-8 encoding of `c`.
fn utf8_len(c: char) -> (n: usize)
    ensures
        n == encode_scalar(c as u32).len(),
        1 <= n <= 4,
{
    proof {
        char_is_scalar(c);
    }
    let v: u32 = c as u32;
    if v <= 0x7f {
        1
    } else if v <= 0x7ff {
        2
    } else if v <= 0xffff {
        3
    } else {
        4
    }
}

/// Cuts `s` after its first `k` characters, whose encoding takes `at` bytes.
fn cut<'a>(s: &'a str, at: usize, Ghost(k): Ghost<int>) -> (r: (&'a str, &'a str))
    requires
        0 <= k <= s@.len(),
        at == encode_utf8(s@.take(k)).len(),
    ensures
        r.0@ == s@.take(k),
        r.1@ == s@.skip(k),
{
    proof {
        lemma_boundary(s@, k);
        lemma_encode_add(s@.take(k), s@.skip(k));
        assert(s@.take(k) + s@.skip(k) =~= s@);
    }
    let r = s.split_at(at);
    proof {
        let a = encode_utf8(s@.take(k));
        let b = encode_utf8(s@.skip(k));
        assert((a + b).subrange(0, a.len() as int) =~= a);
        assert((a + b).subrange(a.len() as int, (a + b).len() as int) =~= b);
        lemma_encode_injective(r.0@, s@.take(k));
        lemma_encode_injective(r.1@, s@.skip(k));
    }
    r
}

/// Bytes below 128 at the start of an encoding are the characters that it starts
/// with.
pub proof fn lemma_ascii_prefix(s: Seq<char>, n: int)
    requires
        0 <= n <= encode_utf8(s).len(),
        forall|i: int| 0 <= i < n ==> #[trigger] encode_utf8(s)[i] < 128,
    ensures
        n <= s.len(),
        encode_utf8(s.take(n)) == encode_utf8(s).take(n),
        is_ascii_chars(s.take(n)),
    decreases n,
{
    if n == 0 {
        assert(s.take(0) =~= Seq::<char>::empty());
        assert(encode_utf8(s).take(0) =~= Seq::<u8>::empty());
    } else {
        assert(s.len() > 0);
        let c = s[0] as u32;
        let t = s.drop_first();
        let b = encode_utf8(s);
        char_is_scalar(s[0]);
        assert(b == encode_scalar(c) + encode_utf8(t));
        assert(b[0] == encode_scalar(c)[0]);
        lemma_lead_byte(c);
        assert(encode_scalar(c).len() == 1);
        assert(encode_utf8(t) =~= b.skip(1));
        assert forall|i: int| 0 <= i < n - 1 implies #[trigger] encode_utf8(t)[i] < 128 by {
            assert(encode_utf8(t)[i] == b[i + 1]);
        }
        lemma_ascii_prefix(t, n - 1);
        assert(s.take(n).drop_first() =~= t.take(n - 1));
        assert(s.take(n)[0] == s[0]);
        assert(encode_utf8(s.take(n)) =~= b.take(n));
        assert forall|i: int| 0 <= i < s.take(n).len() implies '\0' <= #[trigger] s.take(n)[i]
            <= '\u{7f}' by {
            if i > 0 {
                assert(s.take(n)[i] == t.take(n - 1)[i - 1]);
                assert('\0' <= t.take(n - 1)[i - 1] <= '\u{7f}');
            } else {
                lemma_ascii_char(s[0]);
            }
        }
    }
}

proof fn lemma_ascii_char(c: char)
    requires
        (c as u32) < 128,
    ensures
        '\0' <= c <= '\u{7f}',
{
}

/// A scalar whose encoding starts below 128 takes one byte and is below 128.
proof fn lemma_lead_byte(c: u32)
    requires
        is_scalar(c),
        encode_scalar(c)[0] < 128,
    ensures
        c < 128,
        encode_scalar(c).len() == 1,
{
    assert(0xC0u8 | ((c >> 6) & 0x1F) as u8 >= 128) by (bit_vector);
    assert(0xE0u8 | ((c >> 12) & 0x0F) as u8 >= 128) by (bit_vector);
    assert(0xF0u8 | ((c >> 18) & 0x07) as u8 >= 128) by (bit_vector);
}

/// Cuts `s` after its first `n` bytes, all of them below 128.
pub fn ascii_cut<'a>(s: &'a str, n: usize) -> (r: (&'a str, &'a str))
    requires
        n <= encode_utf8(s@).len(),
        forall|i: int| 0 <= i < n ==> #[trigger] encode_utf8(s@)[i] < 128,
    ensures
        r.0@ == s@.take(n as int),
        r.1@ == s@.skip(n as int),
        n <= s@.len(),
{
    proof {
        lemma_ascii_prefix(s@, n as int);
    }
    cut(s, n, Ghost(n as int))
}

/// Splits `s` in front of the first character that `stop` hits.
pub fn break_at<'a>(s: &'a str, stop: Stop) -> (r: (&'a str, &'a str))
    ensures
        r.0@ == s@.take(scan(s@, stop)),
        r.1@ == s@.skip(scan(s@, stop)),
{
    let total: usize = s.as_bytes().len();
    let mut chars = s.chars();
    let mut at: usize = 0;
    let ghost mut k: int = 0;
    proof {
        assert(s@.take(0) =~= Seq::<char>::empty());
        assert(s@.skip(0) =~= s@);
    }
    loop
        invariant_except_break
            vstd::std_specs::iter::IteratorSpec::remaining(&chars) == s@.skip(k),
            forall|i: int| 0 <= i < k ==> !stop.hit(#[trigger] s@[i]),
        invariant
            0 <= k <= s@.len(),
            at == encode_utf8(s@.take(k)).len(),
            total == encode_utf8(s@).len(),
        ensures
            k == scan(s@, stop),
        decreases s@.len() - k,
    {
        match chars.next() {
            None => {
                proof {
                    lemma_scan_unique(s@, stop, k);
                }
                break ;
            },
            Some(c) => {
                if stop.test(c) {
                    proof {
                        lemma_scan_unique(s@, stop, k);
                    }
                    break ;
                }
                proof {
                    lemma_encode_step(s@, k);
                    assert(s@.skip(k).drop_first() =~= s@.skip(k + 1));
                }
                at = at + utf8_len(c);
                proof {
                    k = k + 1;
                }
            },
        }
    }
    cut(s, at, Ghost(k))
}

/// What is left of `s` without its leading white space.
pub open spec fn trimmed_start(s: Seq<char>) -> Seq<char> {
    s.skip(scan(s, Stop::NonSpace))
}

/// What is left of `s` without its trailing white space.
pub open spec fn trimmed_end(s: Seq<char>) -> Seq<char> {
    s.take(last_scan(s, Stop::NonSpace) + 1)
}

/// What is left of `s` without the white space at both ends.
pub open spec fn trimmed(s: Seq<char>) -> Seq<char> {
    trimmed_end(trimmed_start(s))
}

/// What stands before and after the first `c` in `s`.
pub open spec fn first_split(s: Seq<char>, c: char) -> Option<(Seq<char>, Seq<char>)> {
    let k = scan(s, Stop::Char(c));
    if k < s.len() {
        Some((s.take(k), s.skip(k + 1)))
    } else {
        None
    }
}

/// What stands before and after the last `c` in `s`.
pub open spec fn last_split(s: Seq<char>, c: char) -> Option<(Seq<char>, Seq<char>)> {
    let k = last_scan(s, Stop::Char(c));
    if k >= 0 {
        Some((s.take(k), s.skip(k + 1)))
    } else {
        None
    }
}

/// What follows `prefix` at the start of `s`.
pub open spec fn stripped(s: Seq<char>, prefix: Seq<char>) -> Option<Seq<char>> {
    if prefix.is_prefix_of(s) {
        Some(s.skip(prefix.len() as int))
    } else {
        None
    }
}

/// The characters of an optional text.
pub open spec fn opt_view(r: Option<&str>) -> Option<Seq<char>> {
    match r {
        Some(t) => Some(t@),
        None => None,
    }
}

/// The characters of an optional owned text.
pub open spec fn opt_string_view(r: Option<String>) -> Option<Seq<char>> {
    match r {
        Some(t) => Some(t@),
        None => None,
    }
}

/// The characters of an optional pair of texts.
pub open spec fn pair_view(r: Option<(&str, &str)>) -> Option<(Seq<char>, Seq<char>)> {
    match r {
        Some(p) => Some((p.0@, p.1@)),
        None => None,
    }
}

/// Splits `s` behind the last character that `stop` hits.
pub fn break_after_last<'a>(s: &'a str, stop: Stop) -> (r: (&'a str, &'a str))
    ensures
        r.0@ == s@.take(last_scan(s@, stop) + 1),
        r.1@ == s@.skip(last_scan(s@, stop) + 1),
{
    let total: usize = s.as_bytes().len();
    let mut chars = s.chars();
    let mut at: usize = 0;
    let mut found: usize = 0;
    let ghost mut k: int = 0;
    let ghost mut last: int = -1;
    proof {
        assert(s@.take(0) =~= Seq::<char>::empty());
        assert(s@.skip(0) =~= s@);
    }
    loop
        invariant_except_break
            vstd::std_specs::iter::IteratorSpec::remaining(&chars) == s@.skip(k),
            -1 <= last < k,
            last >= 0 ==> stop.hit(s@[last]),
            forall|i: int| last < i < k ==> !stop.hit(#[trigger] s@[i]),
            at == encode_utf8(s@.take(k)).len(),
        invariant
            0 <= k <= s@.len(),
            -1 <= last < s@.len(),
            found == encode_utf8(s@.take(last + 1)).len(),
            total == encode_utf8(s@).len(),
        ensures
            last == last_scan(s@, stop),
        decreases s@.len() - k,
    {
        match chars.next() {
            None => {
                proof {
                    lemma_last_scan_unique(s@, stop, last);
                }
                break ;
            },
            Some(c) => {
                proof {
                    lemma_encode_step(s@, k);
                    assert(s@.skip(k).drop_first() =~= s@.skip(k + 1));
                }
                at = at + utf8_len(c);
                if stop.test(c) {
                    found = at;
                    proof {
                        last = k;
                    }
                }
                proof {
                    k = k + 1;
                }
            },
        }
    }
    cut(s, found, Ghost(last + 1))
}

/// Splits `s` behind its first character.
pub fn split_first<'a>(s: &'a str) -> (r: Option<(char, &'a str)>)
    ensures
        r is None <==> s@.len() == 0,
        r matches Some(p) ==> p.0 == s@[0] && p.1@ == s@.drop_first(),
{
    let mut chars = s.chars();
    match chars.next() {
        None => None,
        Some(c) => {
            let n: usize = utf8_len(c);
            proof {
                lemma_encode_step(s@, 0);
                assert(s@.take(0) =~= Seq::<char>::empty());
            }
            let r = cut(s, n, Ghost(1));
            proof {
                assert(s@.skip(1) =~= s@.drop_first());
            }
            Some((c, r.1))
        },
    }
}

/// Removes leading white space.
pub fn trim_start<'a>(s: &'a str) -> (r: &'a str)
    ensures
        r@ == trimmed_start(s@),
{
    break_at(s, Stop::NonSpace).1
}

/// Removes white space at both ends.
pub fn trim<'a>(s: &'a str) -> (r: &'a str)
    ensures
        r@ == trimmed(s@),
{
    break_after_last(trim_start(s), Stop::NonSpace).0
}

/// Splits `s` around its first `c`.
pub fn split_once<'a>(s: &'a str, c: char) -> (r: Option<(&'a str, &'a str)>)
    ensures
        pair_view(r) == first_split(s@, c),
{
    let (before, from) = break_at(s, Stop::Char(c));
    proof {
        lemma_scan(s@, Stop::Char(c));
    }
    match split_first(from) {
        None => None,
        Some((_, after)) => {
            proof {
                let k = scan(s@, Stop::Char(c));
                assert(s@.skip(k).drop_first() =~= s@.skip(k + 1));
            }
            Some((before, after))
        },
    }
}

/// Splits `s` in front of the last character that `stop` hits; where it hits
/// none, everything stands behind the split.
pub fn break_at_last<'a>(s: &'a str, stop: Stop) -> (r: Option<(&'a str, &'a str)>)
    ensures
        pair_view(r) == (if last_scan(s@, stop) < 0 {
            None
        } else {
            Some((s@.take(last_scan(s@, stop)), s@.skip(last_scan(s@, stop))))
        }),
{
    let total: usize = s.as_bytes().len();
    let mut chars = s.chars();
    let mut at: usize = 0;
    let mut found: Option<usize> = None;
    let ghost mut k: int = 0;
    let ghost mut last: int = -1;
    proof {
        assert(s@.take(0) =~= Seq::<char>::empty());
        assert(s@.skip(0) =~= s@);
    }
    loop
        invariant_except_break
            vstd::std_specs::iter::IteratorSpec::remaining(&chars) == s@.skip(k),
            -1 <= last < k,
            last >= 0 ==> stop.hit(s@[last]),
            forall|i: int| last < i < k ==> !stop.hit(#[trigger] s@[i]),
            at == encode_utf8(s@.take(k)).len(),
        invariant
            0 <= k <= s@.len(),
            -1 <= last < s@.len(),
            found is None <==> last < 0,
            found matches Some(f) ==> f == encode_utf8(s@.take(last)).len(),
            total == encode_utf8(s@).len(),
        ensures
            last == last_scan(s@, stop),
        decreases s@.len() - k,
    {
        match chars.next() {
            None => {
                proof {
                    lemma_last_scan_unique(s@, stop, last);
                }
                break ;
            },
            Some(c) => {
                if stop.test(c) {
                    found = Some(at);
                    proof {
                        last = k;
                    }
                }
                proof {
                    lemma_encode_step(s@, k);
                    assert(s@.skip(k).drop_first() =~= s@.skip(k + 1));
                }
                at = at + utf8_len(c);
                proof {
                    k = k + 1;
                }
            },
        }
    }
    match found {
        None => None,
        Some(f) => Some(cut(s, f, Ghost(last))),
    }
}

/// Splits `s` around its last `c`.
pub fn rsplit_once<'a>(s: &'a str, c: char) -> (r: Option<(&'a str, &'a str)>)
    ensures
        pair_view(r) == last_split(s@, c),
{
    proof {
        lemma_last_scan(s@, Stop::Char(c));
    }
    match break_at_last(s, Stop::Char(c)) {
        None => None,
        Some((before, from)) => match split_first(from) {
            None => None,
            Some((_, after)) => {
                proof {
                    let k = last_scan(s@, Stop::Char(c));
                    assert(s@.skip(k).drop_first() =~= s@.skip(k + 1));
                }
                Some((before, after))
            },
        },
    }
}

/// Removes `prefix` from the start of `s`.
pub fn strip_prefix<'a>(s: &'a str, prefix: &str) -> (r: Option<&'a str>)
    ensures
        opt_view(r) == stripped(s@, prefix@),
{
    let total: usize = s.as_bytes().len();
    let mut chars = s.chars();
    let mut want = prefix.chars();
    let mut at: usize = 0;
    let ghost mut k: int = 0;
    proof {
        assert(s@.take(0) =~= Seq::<char>::empty());
        assert(s@.skip(0) =~= s@);
        assert(prefix@.skip(0) =~= prefix@);
    }
    loop
        invariant_except_break
            vstd::std_specs::iter::IteratorSpec::remaining(&chars) == s@.skip(k),
            vstd::std_specs::iter::IteratorSpec::remaining(&want) == prefix@.skip(k),
            k <= prefix@.len(),
        invariant
            0 <= k <= s@.len(),
            forall|i: int| 0 <= i < k ==> s@[i] == #[trigger] prefix@[i],
            at == encode_utf8(s@.take(k)).len(),
            total == encode_utf8(s@).len(),
        ensures
            k == prefix@.len(),
        decreases s@.len() - k,
    {
        match want.next() {
            None => {
                break ;
            },
            Some(w) => {
                proof {
                    assert(w == prefix@[k]);
                    assert(prefix@.skip(k).drop_first() =~= prefix@.skip(k + 1));
                }
                match chars.next() {
                    None => {
                        return None;
                    },
                    Some(c) => {
                        proof {
                            assert(c == s@[k]);
                        }
                        if c != w {
                            proof {
                                assert(s@[k] != prefix@[k]);
                            }
                            return None;
                        }
                        proof {
                            lemma_encode_step(s@, k);
                            assert(s@.skip(k).drop_first() =~= s@.skip(k + 1));
                        }
                        at = at + utf8_len(c);
                        proof {
                            k = k + 1;
                        }
                    },
                }
            },
        }
    }
    proof {
        assert(prefix@.is_prefix_of(s@));
    }
    Some(cut(s, at, Ghost(k)).1)
}

/// Whether two texts hold the same characters.
pub fn same(a: &str, b: &str) -> (r: bool)
    ensures
        r == (a@ == b@),
{
    let mut xs = a.chars();
    let mut ys = b.chars();
    let ghost mut k: int = 0;
    proof {
        assert(a@.skip(0) =~= a@);
        assert(b@.skip(0) =~= b@);
    }
    loop
        invariant
            vstd::std_specs::iter::IteratorSpec::remaining(&xs) == a@.skip(k),
            vstd::std_specs::iter::IteratorSpec::remaining(&ys) == b@.skip(k),
            0 <= k <= a@.len(),
            k <= b@.len(),
            forall|i: int| 0 <= i < k ==> a@[i] == #[trigger] b@[i],
        decreases a@.len() - k,
    {
        match (xs.next(), ys.next()) {
            (None, None) => {
                proof {
                    assert(a@ =~= b@);
                }
                return true;
            },
            (Some(x), Some(y)) => {
                proof {
                    assert(x == a@[k] && y == b@[k]);
                    assert(a@.skip(k).drop_first() =~= a@.skip(k + 1));
                    assert(b@.skip(k).drop_first() =~= b@.skip(k + 1));
                }
                if x != y {
                    return false;
                }
                proof {
                    k = k + 1;
                }
            },
            _ => {
                return false;
            },
        }
    }
}

/// The order of texts by their code points, which is that of their encodings:
/// the first difference decides, and a text stands behind its prefixes.
pub open spec fn precedes(a: Seq<char>, b: Seq<char>) -> bool
    decreases a.len(),
{
    if b.len() == 0 {
        false
    } else if a.len() == 0 {
        true
    } else if a[0] != b[0] {
        a[0] < b[0]
    } else {
        precedes(a.drop_first(), b.drop_first())
    }
}

/// Whether `a` stands before `b`.
pub fn less(a: &str, b: &str) -> (r: bool)
    ensures
        r == precedes(a@, b@),
{
    let mut xs = a.chars();
    let mut ys = b.chars();
    let ghost mut k: int = 0;
    proof {
        assert(a@.skip(0) =~= a@);
        assert(b@.skip(0) =~= b@);
    }
    loop
        invariant
            vstd::std_specs::iter::IteratorSpec::remaining(&xs) == a@.skip(k),
            vstd::std_specs::iter::IteratorSpec::remaining(&ys) == b@.skip(k),
            0 <= k <= a@.len(),
            k <= b@.len(),
            precedes(a@, b@) == precedes(a@.skip(k), b@.skip(k)),
        decreases a@.len() - k,
    {
        match (xs.next(), ys.next()) {
            (Some(x), Some(y)) => {
                proof {
                    assert(x == a@[k] && y == b@[k]);
                    assert(a@.skip(k).drop_first() =~= a@.skip(k + 1));
                    assert(b@.skip(k).drop_first() =~= b@.skip(k + 1));
                }
                if x != y {
                    return x < y;
                }
                proof {
                    k = k + 1;
                }
            },
            (None, Some(_)) => {
                return true;
            },
            _ => {
                return false;
            },
        }
    }
}

/// No text stands before itself.
pub proof fn lemma_precedes_irreflexive(a: Seq<char>)
    ensures
        !precedes(a, a),
    decreases a.len(),
{
    if a.len() > 0 {
        lemma_precedes_irreflexive(a.drop_first());
    }
}

/// The order is transitive.
pub proof fn lemma_precedes_transitive(a: Seq<char>, b: Seq<char>, c: Seq<char>)
    requires
        precedes(a, b),
        precedes(b, c),
    ensures
        precedes(a, c),
    decreases a.len(),
{
    if a.len() > 0 && b.len() > 0 && c.len() > 0 && a[0] == b[0] && b[0] == c[0] {
        lemma_precedes_transitive(a.drop_first(), b.drop_first(), c.drop_first());
    }
}

/// Of two different texts one stands before the other.
pub proof fn lemma_precedes_total(a: Seq<char>, b: Seq<char>)
    requires
        a != b,
    ensures
        precedes(a, b) || precedes(b, a),
    decreases a.len(),
{
    if a.len() == 0 && b.len() == 0 {
        assert(a =~= b);
    } else if a.len() > 0 && b.len() > 0 && a[0] == b[0] {
        if a.drop_first() == b.drop_first() {
            assert(a =~= seq![a[0]] + a.drop_first());
            assert(b =~= seq![b[0]] + b.drop_first());
        }
        lemma_precedes_total(a.drop_first(), b.drop_first());
    }
}

/// The character of a decimal digit.
pub open spec fn digit_char(d: int) -> char {
    ('0' as int + d) as char
}

/// The last `width` decimal digits of `n`.
pub open spec fn padded(n: nat, width: nat) -> Seq<char>
    decreases width,
{
    if width == 0 {
        Seq::empty()
    } else {
        padded(n / 10, (width - 1) as nat).push(digit_char((n % 10) as int))
    }
}

/// `n` in decimal.
pub open spec fn decimal(n: nat) -> Seq<char>
    decreases n,
{
    if n < 10 {
        seq![digit_char(n as int)]
    } else {
        decimal(n / 10).push(digit_char((n % 10) as int))
    }
}

fn digit(d: u64) -> (r: char)
    requires
        d < 10,
    ensures
        r == digit_char(d as int),
{
    ('0' as u8 + d as u8) as char
}

/// Appends the last `width` decimal digits of `n`.
pub fn push_padded(out: &mut String, n: u64, width: usize)
    ensures
        final(out)@ == old(out)@ + padded(n as nat, width as nat),
    decreases width,
{
    if width == 0 {
        proof {
            assert(out@ + padded(n as nat, 0) =~= out@);
        }
    } else {
        push_padded(out, n / 10, width - 1);
        out.push(digit(n % 10));
        proof {
            assert(out@ =~= old(out)@ + padded(n as nat, width as nat));
        }
    }
}

/// Appends `n` in decimal.
pub fn push_decimal(out: &mut String, n: u64)
    ensures
        final(out)@ == old(out)@ + decimal(n as nat),
    decreases n,
{
    if n >= 10 {
        push_decimal(out, n / 10);
    }
    out.push(digit(n % 10));
    proof {
        assert(out@ =~= old(out)@ + decimal(n as nat));
    }
}

/// The characters of each of a list of texts.
pub open spec fn texts_view(list: Seq<String>) -> Seq<Seq<char>> {
    list.map_values(|t: String| t@)
}

/// Whether a text stands in a list.
pub fn has_text(list: &Vec<String>, text: &str) -> (r: bool)
    ensures
        r == texts_view(list@).contains(text@),
{
    for i in 0..list.len()
        invariant
            forall|k: int| 0 <= k < i ==> (#[trigger] list@[k])@ != text@,
    {
        if same(list[i].as_str(), text) {
            proof {
                assert(texts_view(list@)[i as int] == text@);
            }
            return true;
        }
    }
    proof {
        if texts_view(list@).contains(text@) {
            let k = texts_view(list@).index_of(text@);
            assert(list@[k]@ == text@);
        }
    }
    false
}

/// What comes before `suffix` at the end of `s`.
pub open spec fn suffix_stripped(s: Seq<char>, suffix: Seq<char>) -> Option<Seq<char>> {
    if suffix.is_suffix_of(s) {
        Some(s.take(s.len() - suffix.len()))
    } else {
        None
    }
}

/// Takes `suffix` away from the end of `s`.
pub fn strip_suffix<'a>(s: &'a str, suffix: &str) -> (r: Option<&'a str>)
    ensures
        opt_view(r) == suffix_stripped(s@, suffix@),
{
    let long: usize = s.unicode_len();
    let short: usize = suffix.unicode_len();
    if long < short {
        return None;
    }
    let (head, tail) = cut_chars(s, long - short);
    if same(tail, suffix) {
        proof {
            assert(s@.subrange(s@.len() - suffix@.len(), s@.len() as int) =~= tail@);
        }
        Some(head)
    } else {
        proof {
            assert(s@.subrange(s@.len() - suffix@.len(), s@.len() as int) =~= tail@);
        }
        None
    }
}

/// Cuts `s` after its first `k` characters.
pub fn cut_chars<'a>(s: &'a str, k: usize) -> (r: (&'a str, &'a str))
    requires
        k <= s@.len(),
    ensures
        r.0@ == s@.take(k as int),
        r.1@ == s@.skip(k as int),
{
    let mut chars = s.chars();
    let mut at: usize = 0;
    let total: usize = s.as_bytes().len();
    proof {
        assert(s@.take(0) =~= Seq::<char>::empty());
        assert(s@.skip(0) =~= s@);
    }
    for i in 0..k
        invariant
            k <= s@.len(),
            total == encode_utf8(s@).len(),
            vstd::std_specs::iter::IteratorSpec::obeys_prophetic_iter_laws(&chars),
            vstd::std_specs::iter::IteratorSpec::remaining(&chars) == s@.skip(i as int),
            at == encode_utf8(s@.take(i as int)).len(),
    {
        proof {
            assert(s@.skip(i as int)[0] == s@[i as int]);
            assert(s@.skip(i as int).drop_first() =~= s@.skip(i + 1));
            lemma_encode_step(s@, i as int);
        }
        match chars.next() {
            Some(c) => {
                at = at + utf8_len(c);
            },
            None => {},
        }
    }
    cut(s, at, Ghost(k as int))
}

/// Whether a character stands in a text.
pub fn has_char(s: &str, c: char) -> (r: bool)
    ensures
        r == s@.contains(c),
{
    proof {
        lemma_scan(s@, Stop::Char(c));
        if s@.contains(c) {
            let i = s@.index_of(c);
            assert(s@[i] == c);
        }
    }
    let (_, rest) = break_at(s, Stop::Char(c));
    if rest.is_empty() {
        false
    } else {
        proof {
            assert(s@[scan(s@, Stop::Char(c))] == c);
        }
        true
    }
}

/// What is left of `s` without any `c` at its end.
pub open spec fn trimmed_end_char(s: Seq<char>, c: char) -> Seq<char>
    decreases s.len(),
{
    if s.len() > 0 && s.last() == c {
        trimmed_end_char(s.drop_last(), c)
    } else {
        s
    }
}

/// Takes every `c` away from the end of `s`.
pub fn trim_end_char<'a>(s: &'a str, c: char) -> (r: &'a str)
    ensures
        r@ == trimmed_end_char(s@, c),
{
    let mut rest = s;
    loop
        invariant
            trimmed_end_char(rest@, c) == trimmed_end_char(s@, c),
        decreases rest@.len(),
    {
        match break_at_last(rest, Stop::Char(c)) {
            Some((head, tail)) => {
                let count: usize = tail.unicode_len();
                proof {
                    lemma_last_scan(rest@, Stop::Char(c));
                }
                if count != 1 {
                    return rest;
                }
                proof {
                    assert(head@ =~= rest@.drop_last());
                }
                rest = head;
            },
            None => {
                proof {
                    lemma_last_scan(rest@, Stop::Char(c));
                }
                return rest;
            },
        }
    }
}

/// What stands between the places of `c` in `s`.
pub open spec fn splits(s: Seq<char>, c: char) -> Seq<Seq<char>>
    decreases s.len(),
    via splits_decreases
{
    let k = scan(s, Stop::Char(c));
    if k >= s.len() {
        seq![s]
    } else {
        seq![s.take(k)] + splits(s.skip(k + 1), c)
    }
}

#[via_fn]
proof fn splits_decreases(s: Seq<char>, c: char) {
    lemma_scan(s, Stop::Char(c));
}

/// `splits` of two texts with the character between them.
pub proof fn lemma_splits(a: Seq<char>, b: Seq<char>, c: char)
    ensures
        splits(a.push(c) + b, c) == splits(a, c) + splits(b, c),
        splits(a, c).len() > 0,
    decreases a.len(),
{
    lemma_scan(a, Stop::Char(c));
    let k = scan(a, Stop::Char(c));
    let s = a.push(c) + b;
    assert forall|i: int| 0 <= i < k implies !Stop::Char(c).hit(#[trigger] s[i]) by {
        assert(s[i] == a[i]);
    }
    if k < a.len() {
        assert(s[k] == a[k]);
    } else {
        assert(s[k] == c);
    }
    lemma_scan_unique(s, Stop::Char(c), k);
    assert(s.take(k) =~= a.take(k));
    if k >= a.len() {
        assert(a.take(k) =~= a);
        assert(s.skip(k + 1) =~= b);
    } else {
        let rest = a.skip(k + 1);
        assert(s.skip(k + 1) =~= rest.push(c) + b);
        lemma_splits(rest, b, c);
        assert(seq![a.take(k)] + (splits(rest, c) + splits(b, c)) =~= (seq![a.take(k)] + splits(
            rest,
            c,
        )) + splits(b, c));
    }
}

/// Texts with another between each two of them.
pub open spec fn joined(list: Seq<Seq<char>>, sep: Seq<char>) -> Seq<char>
    decreases list.len(),
{
    if list.len() == 0 {
        Seq::empty()
    } else if list.len() == 1 {
        list[0]
    } else {
        joined(list.drop_last(), sep) + sep + list.last()
    }
}

/// Puts texts together with another between each two of them.
pub fn join(list: &Vec<String>, sep: &str) -> (r: String)
    ensures
        r@ == joined(texts_view(list@), sep@),
{
    let ghost all = texts_view(list@);
    let mut out = String::new();
    for i in 0..list.len()
        invariant
            all == texts_view(list@),
            out@ == joined(all.take(i as int), sep@),
    {
        proof {
            assert(all.take(i + 1).drop_last() =~= all.take(i as int));
        }
        if i > 0 {
            out.append(sep);
        }
        out.append(list[i].as_str());
        proof {
            if i == 0 {
                assert(out@ =~= all[0]);
            }
        }
    }
    proof {
        assert(all.take(list@.len() as int) =~= all);
    }
    out
}

/// `n` blanks.
pub open spec fn blanks(n: nat) -> Seq<char> {
    Seq::new(n, |i: int| ' ')
}

/// Appends blanks.
pub fn push_blanks(out: &mut String, n: usize)
    ensures
        final(out)@ == old(out)@ + blanks(n as nat),
{
    let ghost start = out@;
    proof {
        assert(start + blanks(0) =~= start);
    }
    for i in 0..n
        invariant
            out@ == start + blanks(i as nat),
    {
        out.push(' ');
        proof {
            assert(out@ =~= start + blanks((i + 1) as nat));
        }
    }
}

/// Whether `part` stands somewhere in `s`.
pub open spec fn holds_part(s: Seq<char>, part: Seq<char>) -> bool
    decreases s.len(),
{
    if part.is_prefix_of(s) {
        true
    } else if s.len() == 0 {
        false
    } else {
        holds_part(s.drop_first(), part)
    }
}

/// Tells whether `part` stands somewhere in `s`.
pub fn has_part(s: &str, part: &str) -> (r: bool)
    ensures
        r == holds_part(s@, part@),
{
    let mut rest = s;
    loop
        invariant
            holds_part(rest@, part@) == holds_part(s@, part@),
        decreases rest@.len(),
    {
        if strip_prefix(rest, part).is_some() {
            return true;
        }
        match split_first(rest) {
            Some((_, next)) => {
                rest = next;
            },
            None => {
                return false;
            },
        }
    }
}

} // verus!
