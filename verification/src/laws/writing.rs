//! Numbers, times and lines as they are written and read.

use vstd::prelude::*;
use vstd::utf8::*;

use crate::event::{format_timestamp, left_aligned, timestamp_text, LogEvent};
use crate::laws::rows::{counted, lemma_counted};
use crate::parser::access::parse_u16;
use crate::parser::stamp::{clf_wall, field, fraction, is_digit, lemma_number_digits, number, pow10};
use crate::parser::stamp::{month_of_abbrev, parse_clf_timestamp, parse_gin_timestamp, parse_timestamp};
use crate::text::{decimal, is_whitespace, lemma_ascii_prefix, lemma_encode_injective, padded};
use crate::time::{digits_of_year, wall_clock, year_text, Timestamp};

verus! {

/// Whether these are decimal digits.
pub open spec fn is_digits(s: Seq<char>) -> bool {
    forall|i: int| 0 <= i < s.len() ==> '0' <= #[trigger] s[i] <= '9'
}

/// A status is read from its digits, with a plus in front or not, up to what sixteen bits
/// hold; a larger number is none.
pub proof fn law_numbers_are_read(s: &str, d: Seq<char>, r: Option<u16>)
    requires
        d.len() > 0,
        is_digits(d),
        s@ == d || s@ == seq!['+'] + d,
        call_ensures(parse_u16, (s,), r),
    ensures
        counted(d) <= 65535 ==> r is Some && r->0 == counted(d),
        counted(d) > 65535 ==> r is None,
{
    assert(is_ascii_chars(d));
    is_ascii_chars_encode_utf8(d);
    lemma_number(d, encode_utf8(d));
    if s@ == seq!['+'] + d {
        assert(s@.skip(1) =~= d);
    } else {
        assert('0' <= s@[0] <= '9');
    }
}

proof fn lemma_number(d: Seq<char>, b: Seq<u8>)
    requires
        is_digits(d),
        b.len() == d.len(),
        forall|i: int| 0 <= i < d.len() ==> #[trigger] b[i] == d[i] as u8,
    ensures
        counted(d) >= 0,
        number(b) == Some(counted(d) as nat),
    decreases d.len(),
{
    if d.len() > 0 {
        lemma_number(d.drop_last(), b.drop_last());
        assert(b.last() == d.last() as u8);
        assert('0' <= d[d.len() - 1] <= '9');
    }
}

/// Nothing, a plus alone, and a text with anything but digits behind the plus is no status.
pub proof fn law_other_texts_are_no_numbers(s: &str, k: int, r: Option<u16>)
    requires
        is_ascii_chars(s@),
        call_ensures(parse_u16, (s,), r),
    ensures
        s@.len() == 0 ==> r is None,
        s@ == seq!['+'] ==> r is None,
        0 <= k < s@.len() && !('0' <= s@[k] <= '9') && !(k == 0 && s@[0] == '+') ==> r is None,
{
    let d = if s@.len() > 0 && s@[0] == '+' {
        s@.skip(1)
    } else {
        s@
    };
    assert forall|i: int| 0 <= i < d.len() implies '\0' <= #[trigger] d[i] <= '\u{7f}' by {
        if s@.len() > 0 && s@[0] == '+' {
            assert(d[i] == s@[i + 1]);
        } else {
            assert(d[i] == s@[i]);
        }
    }
    is_ascii_chars_encode_utf8(d);
    if 0 <= k < s@.len() && !('0' <= s@[k] <= '9') && !(k == 0 && s@[0] == '+') {
        let j = if s@[0] == '+' {
            k - 1
        } else {
            k
        };
        assert(d[j] == s@[k]);
        lemma_no_number(d, encode_utf8(d), j);
    }
}

proof fn lemma_no_number(d: Seq<char>, b: Seq<u8>, j: int)
    requires
        b.len() == d.len(),
        forall|i: int| 0 <= i < d.len() ==> '\0' <= #[trigger] d[i] <= '\u{7f}',
        forall|i: int| 0 <= i < d.len() ==> #[trigger] b[i] == d[i] as u8,
        0 <= j < d.len(),
        !('0' <= d[j] <= '9'),
    ensures
        number(b) is None,
    decreases d.len(),
{
    assert(b[j] == d[j] as u8);
    if j < d.len() - 1 {
        lemma_no_number(d.drop_last(), b.drop_last(), j);
    }
}

/// Two digits.
pub open spec fn two(n: int) -> Seq<char> {
    seq![('0' as int + n / 10) as char, ('0' as int + n % 10) as char]
}

/// Three digits.
pub open spec fn three(n: int) -> Seq<char> {
    seq![('0' as int + n / 100) as char] + two(n % 100)
}

/// What stands behind the year of a time that is written.
pub open spec fn behind_year(ts: Timestamp) -> Seq<char> {
    let leap = if ts.nano >= 1_000_000_000 {
        1int
    } else {
        0int
    };
    seq!['-'] + two(ts.month as int) + seq!['-'] + two(ts.day as int) + seq![' '] + two(
        ts.hour as int,
    ) + seq![':'] + two(ts.minute as int) + seq![':'] + two(ts.second + leap) + seq!['.'] + three(
        (ts.nano - leap * 1_000_000_000) / 1_000_000,
    )
}

/// A year is written in at least four digits, with a sign where it is before the first or
/// takes more than four; the rest of a time has fixed places, with milliseconds at the end,
/// and a leap second is the sixtieth.
pub proof fn law_times_are_written_out(ts: &Timestamp, r: String, quick: Option<String>)
    requires
        ts.wf(),
        call_ensures(timestamp_text, (ts,), r),
        call_ensures(format_timestamp, (ts,), quick),
    ensures
        quick matches Some(text) ==> text@ == r@,
        exists|digits: Seq<char>|
            {
                &&& is_digits(digits)
                &&& digits.len() >= 4
                &&& digits.len() > 4 ==> digits[0] != '0'
                &&& #[trigger] counted(digits) == if ts.year < 0 {
                    -ts.year
                } else {
                    ts.year as int
                }
                &&& r@ == (if ts.year < 0 {
                    seq!['-']
                } else if ts.year > 9999 {
                    seq!['+']
                } else {
                    Seq::empty()
                }) + digits + behind_year(*ts)
            },
{
    let y: nat = if ts.year < 0 {
        (-ts.year) as nat
    } else {
        ts.year as nat
    };
    let digits = digits_of_year(y);
    let sign = if ts.year < 0 {
        seq!['-']
    } else if ts.year > 9999 {
        seq!['+']
    } else {
        Seq::<char>::empty()
    };
    assert(year_text(ts.year as int) =~= sign + digits);
    lemma_year(y);
    lemma_two(ts.month as nat);
    lemma_two(ts.day as nat);
    lemma_two(ts.hour as nat);
    lemma_two(ts.minute as nat);
    lemma_two((ts.second + ts.nano / 1_000_000_000) as nat);
    let ms = (ts.nano / 1_000_000 % 1000) as nat;
    lemma_three(ms);
    let leap = if ts.nano >= 1_000_000_000 {
        1int
    } else {
        0int
    };
    assert(ts.nano / 1_000_000_000 == leap);
    assert((ts.nano - leap * 1_000_000_000) / 1_000_000 == ms);
    assert(wall_clock(*ts) =~= sign + digits + behind_year(*ts));
    assert(counted(digits) == y);
}

proof fn lemma_year(y: nat)
    requires
        y <= 262143,
    ensures
        is_digits(digits_of_year(y)),
        digits_of_year(y).len() >= 4,
        digits_of_year(y).len() > 4 ==> digits_of_year(y)[0] != '0',
        counted(digits_of_year(y)) == y,
{
    if y < 10_000 {
        reveal_with_fuel(padded, 5);
        reveal_with_fuel(counted, 5);
        let d = padded(y, 4);
        assert(d =~= seq![
            ('0' as int + y / 10 / 10 / 10 % 10) as char,
            ('0' as int + y / 10 / 10 % 10) as char,
            ('0' as int + y / 10 % 10) as char,
            ('0' as int + y % 10) as char,
        ]);
        let c = d.drop_last();
        let b = c.drop_last();
        let a = b.drop_last();
        assert(a.drop_last().len() == 0);
        assert(counted(a) == y / 10 / 10 / 10 % 10);
        assert(counted(b) == counted(a) * 10 + y / 10 / 10 % 10);
        assert(counted(c) == counted(b) * 10 + y / 10 % 10);
        assert(counted(d) == counted(c) * 10 + y % 10);
    } else {
        lemma_counted(y);
        lemma_digits_only(y);
        reveal_with_fuel(decimal, 5);
        assert(decimal(y).len() >= 5);
    }
}

proof fn lemma_digits_only(n: nat)
    ensures
        is_digits(decimal(n)),
    decreases n,
{
    if n >= 10 {
        lemma_digits_only(n / 10);
        assert forall|i: int| 0 <= i < decimal(n).len() implies '0' <= #[trigger] decimal(n)[i]
            <= '9' by {
            if i < decimal(n / 10).len() {
                assert(decimal(n)[i] == decimal(n / 10)[i]);
            }
        }
    }
}

proof fn lemma_two(n: nat)
    requires
        n < 100,
    ensures
        padded(n, 2) == two(n as int),
{
    reveal_with_fuel(padded, 3);
    assert(n / 10 % 10 == n / 10);
    assert(padded(n, 2) =~= two(n as int));
}

proof fn lemma_three(n: nat)
    requires
        n < 1000,
    ensures
        padded(n, 3) == three(n as int),
{
    reveal_with_fuel(padded, 4);
    assert(n / 10 / 10 % 10 == n / 100);
    assert(n / 10 % 10 == n % 100 / 10);
    assert(n % 10 == n % 100 % 10);
    assert(padded(n, 3) =~= three(n as int));
}

/// A line for people has the parts of an event in fixed places, and levels that are shorter
/// than five letters take up five.
pub proof fn law_text_lines_are_laid_out(event: &LogEvent, time: String, r: String)
    requires
        event.wf(),
        call_ensures(timestamp_text, (&event.timestamp,), time),
        call_ensures(LogEvent::to_text_line, (event,), r),
    ensures
        r@ == time@ + " [TID:"@ + event.trace_id@ + "] [SpanID:"@ + event.span_id@ + "] ["@
            + event.thread@ + "] "@ + (event.level@ + Seq::new(
            if event.level@.len() < 5 {
                (5 - event.level@.len()) as nat
            } else {
                0
            },
            |i: int| ' ',
        )) + " "@ + event.logger@ + " -"@ + event.message@,
{
    lemma_aligned(event.level@, 5);
}

proof fn lemma_aligned(s: Seq<char>, width: int)
    ensures
        left_aligned(s, width) == s + Seq::new(
            if s.len() < width {
                (width - s.len()) as nat
            } else {
                0
            },
            |i: int| ' ',
        ),
    decreases width - s.len(),
{
    let want = s + Seq::new(
        if s.len() < width {
            (width - s.len()) as nat
        } else {
            0
        },
        |i: int| ' ',
    );
    if s.len() < width {
        lemma_aligned(s.push(' '), width);
    }
    assert(left_aligned(s, width) =~= want);
}

/// Blanks are what Unicode takes for white space, and nothing else.
pub proof fn law_blanks_are_white_space(c: char, r: bool)
    requires
        call_ensures(is_whitespace, (c,), r),
    ensures
        ({
            let n = c as int;
            r <==> {
                ||| 9 <= n <= 13
                ||| n == 0x20 || n == 0x85 || n == 0xa0 || n == 0x1680
                ||| 0x2000 <= n <= 0x200a
                ||| n == 0x2028 || n == 0x2029 || n == 0x202f || n == 0x205f || n == 0x3000
            }
        }),
{
}

/// Whether the digits from `i` on up to `j` stand for a number.
pub open spec fn says_number(s: Seq<char>, i: int, j: int, n: int) -> bool {
    is_digits(s.subrange(i, j)) && counted(s.subrange(i, j)) == n
}

proof fn lemma_says(s: Seq<char>, b: Seq<u8>, i: int, j: int)
    requires
        0 <= i <= j <= b.len(),
        b == encode_utf8(s),
        field(b, i, j) is Some,
    ensures
        field(b, i, j)->0 < pow10((j - i) as nat),
        forall|k: int| i <= k < j ==> #[trigger] b[k] < 128,
        b.len() == s.len() && (forall|k: int| 0 <= k < b.len() ==> s[k] as u8 == #[trigger] b[k]
            && '\0' <= s[k] <= '\u{7f}') ==> says_number(s, i, j, field(b, i, j)->0 as int),
{
    let c = b.subrange(i, j);
    lemma_number_digits(c);
    lemma_below(c);
    assert forall|k: int| i <= k < j implies #[trigger] b[k] < 128 by {
        assert(is_digit(c[k - i]));
    }
    if b.len() == s.len() && (forall|k: int| 0 <= k < b.len() ==> s[k] as u8 == #[trigger] b[k]
        && '\0' <= s[k] <= '\u{7f}') {
        let d = s.subrange(i, j);
        assert forall|k: int| 0 <= k < d.len() implies '0' <= #[trigger] d[k] <= '9' by {
            assert(is_digit(c[k]));
            assert(s[i + k] as u8 == b[i + k]);
        }
        assert forall|k: int| 0 <= k < d.len() implies #[trigger] c[k] == d[k] as u8 by {
            assert(s[i + k] as u8 == b[i + k]);
        }
        lemma_number(d, c);
    }
}

/// A text whose bytes are all below 128 is those bytes.
proof fn lemma_bytes_are_chars(s: Seq<char>)
    requires
        forall|k: int| 0 <= k < encode_utf8(s).len() ==> #[trigger] encode_utf8(s)[k] < 128,
    ensures
        encode_utf8(s).len() == s.len(),
        forall|k: int|
            0 <= k < s.len() ==> s[k] as u8 == #[trigger] encode_utf8(s)[k] && '\0' <= s[k]
                <= '\u{7f}',
{
    let b = encode_utf8(s);
    let n = b.len() as int;
    lemma_ascii_prefix(s, n);
    let t = s.take(n);
    assert(b.take(n) =~= b);
    lemma_encode_injective(t, s);
    is_ascii_chars_encode_utf8(s);
    assert forall|k: int| 0 <= k < s.len() implies s[k] as u8 == #[trigger] b[k] && '\0' <= s[k]
        <= '\u{7f}' by {
        assert(t[k] == s[k]);
    }
}

/// A time is read only where each of its parts stands where it should, and as what stands
/// there; a fraction has one to nine digits and counts as what it is of a second.
pub proof fn law_times_say_what_is_read(raw: &str, ts: Timestamp)
    requires
        call_ensures(parse_timestamp, (raw,), Some(ts)),
    ensures
        ({
            let s = raw@;
            &&& s.len() == 19 || 21 <= s.len() <= 29
            &&& says_number(s, 0, 4, ts.year as int) && says_number(s, 5, 7, ts.month as int)
            &&& says_number(s, 8, 10, ts.day as int) && says_number(s, 11, 13, ts.hour as int)
            &&& says_number(s, 14, 16, ts.minute as int)
            &&& says_number(s, 17, 19, ts.second as int)
            &&& s[4] == '-' && s[7] == '-' && s[13] == ':' && s[16] == ':'
            &&& s[10] == ' ' || s[10] == 'T'
            &&& s.len() == 19 ==> ts.nano == 0
            &&& s.len() > 19 ==> {
                &&& s[19] == '.' || s[19] == ','
                &&& is_digits(s.skip(20))
            }
            &&& ts.wf() && ts.second < 60 && ts.nano < 1_000_000_000
        }),
{
    let s = raw@;
    let b = encode_utf8(s);
    reveal_with_fuel(pow10, 5);
    assert(pow10(2) == 100 && pow10(4) == 10_000);
    lemma_says(s, b, 0, 4);
    lemma_says(s, b, 5, 7);
    lemma_says(s, b, 8, 10);
    lemma_says(s, b, 11, 13);
    lemma_says(s, b, 14, 16);
    lemma_says(s, b, 17, 19);
    let f = b.skip(19);
    let n = fraction(f)->0;
    if f.len() > 0 {
        assert(f.skip(1) =~= b.subrange(20, b.len() as int));
        lemma_says(s, b, 20, b.len() as int);
        assert(b[19] == f[0]);
        lemma_fraction(f.skip(1));
    }
    assert forall|k: int| 0 <= k < b.len() implies #[trigger] b[k] < 128 by {}
    lemma_bytes_are_chars(s);
    lemma_says(s, b, 0, 4);
    lemma_says(s, b, 5, 7);
    lemma_says(s, b, 8, 10);
    lemma_says(s, b, 11, 13);
    lemma_says(s, b, 14, 16);
    lemma_says(s, b, 17, 19);
    if f.len() > 0 {
        lemma_says(s, b, 20, b.len() as int);
        assert(s.skip(20) =~= s.subrange(20, s.len() as int));
        assert(s[19] as u8 == b[19]);
    }
    assert(s[4] as u8 == b[4] && s[7] as u8 == b[7] && s[13] as u8 == b[13]);
    assert(s[16] as u8 == b[16] && s[10] as u8 == b[10]);
}

/// A fraction is less than a whole second.
proof fn lemma_fraction(d: Seq<u8>)
    requires
        1 <= d.len() <= 9,
        number(d) is Some,
    ensures
        number(d)->0 * pow10((9 - d.len()) as nat) < 1_000_000_000,
{
    lemma_below(d);
    let n = number(d)->0;
    reveal_with_fuel(pow10, 10);
    let k = d.len();
    assert(pow10(0) == 1 && pow10(1) == 10 && pow10(2) == 100 && pow10(3) == 1_000);
    assert(pow10(4) == 10_000 && pow10(5) == 100_000 && pow10(6) == 1_000_000);
    assert(pow10(7) == 10_000_000 && pow10(8) == 100_000_000 && pow10(9) == 1_000_000_000);
    if k == 1 {
        assert(n * pow10(8) == n * 100_000_000);
    } else if k == 2 {
        assert(n * pow10(7) == n * 10_000_000);
    } else if k == 3 {
        assert(n * pow10(6) == n * 1_000_000);
    } else if k == 4 {
        assert(n * pow10(5) == n * 100_000);
    } else if k == 5 {
        assert(n * pow10(4) == n * 10_000);
    } else if k == 6 {
        assert(n * pow10(3) == n * 1_000);
    } else if k == 7 {
        assert(n * pow10(2) == n * 100);
    } else if k == 8 {
        assert(n * pow10(1) == n * 10);
    } else {
        assert(n * pow10(0) == n);
    }
}

proof fn lemma_below(d: Seq<u8>)
    ensures
        number(d) matches Some(n) ==> n < pow10(d.len()),
    decreases d.len(),
{
    if d.len() > 0 {
        lemma_below(d.drop_last());
    }
}

/// A time of Gin is read only where each of its parts stands where it should.
pub proof fn law_gin_times_say_what_is_read(raw: &str, ts: Timestamp)
    requires
        call_ensures(parse_gin_timestamp, (raw,), Some(ts)),
    ensures
        ({
            let s = raw@;
            &&& s.len() == 21
            &&& says_number(s, 0, 4, ts.year as int) && says_number(s, 5, 7, ts.month as int)
            &&& says_number(s, 8, 10, ts.day as int) && says_number(s, 13, 15, ts.hour as int)
            &&& says_number(s, 16, 18, ts.minute as int)
            &&& says_number(s, 19, 21, ts.second as int)
            &&& s[4] == '/' && s[7] == '/' && s[15] == ':' && s[18] == ':'
            &&& s[10] == ' ' && s[11] == '-' && s[12] == ' '
            &&& ts.wf() && ts.second < 60 && ts.nano == 0
        }),
{
    let s = raw@;
    let b = encode_utf8(s);
    reveal_with_fuel(pow10, 5);
    assert(pow10(2) == 100 && pow10(4) == 10_000);
    lemma_says(s, b, 0, 4);
    lemma_says(s, b, 5, 7);
    lemma_says(s, b, 8, 10);
    lemma_says(s, b, 13, 15);
    lemma_says(s, b, 16, 18);
    lemma_says(s, b, 19, 21);
    assert forall|k: int| 0 <= k < b.len() implies #[trigger] b[k] < 128 by {}
    lemma_bytes_are_chars(s);
    lemma_says(s, b, 0, 4);
    lemma_says(s, b, 5, 7);
    lemma_says(s, b, 8, 10);
    lemma_says(s, b, 13, 15);
    lemma_says(s, b, 16, 18);
    lemma_says(s, b, 19, 21);
    assert(s[4] as u8 == b[4] && s[7] as u8 == b[7] && s[10] as u8 == b[10]);
    assert(s[11] as u8 == b[11] && s[12] as u8 == b[12] && s[15] as u8 == b[15]);
    assert(s[18] as u8 == b[18]);
}

/// A time of an access log is read only where each of its parts stands where it should; an
/// offset is less than a day either way, and a time without one is read as it stands.
pub proof fn law_access_times_say_what_is_read(
    raw: &str,
    ts: Timestamp,
    name: &[u8],
    month: Option<u32>,
)
    requires
        call_ensures(parse_clf_timestamp, (raw,), Some(ts)),
        name@ == encode_utf8(raw@).subrange(3, 6),
        call_ensures(month_of_abbrev, (name,), month),
    ensures
        ({
            let s = raw@;
            &&& s.len() == 20 || s.len() == 26
            &&& is_digits(s.subrange(0, 2)) && is_digits(s.subrange(7, 11))
            &&& is_digits(s.subrange(12, 14)) && is_digits(s.subrange(15, 17))
            &&& is_digits(s.subrange(18, 20))
            &&& s[2] == '/' && s[6] == '/' && s[11] == ':' && s[14] == ':' && s[17] == ':'
            &&& month is Some
            &&& s.len() == 20 ==> {
                &&& says_number(s, 0, 2, ts.day as int) && says_number(s, 7, 11, ts.year as int)
                &&& says_number(s, 12, 14, ts.hour as int)
                &&& says_number(s, 15, 17, ts.minute as int)
                &&& says_number(s, 18, 20, ts.second as int)
                &&& month == Some(ts.month) && ts.nano == 0
            }
            &&& s.len() == 26 ==> {
                &&& s[20] == ' ' && (s[21] == '+' || s[21] == '-')
                &&& is_digits(s.subrange(22, 24)) && is_digits(s.subrange(24, 26))
                &&& counted(s.subrange(22, 24)) * 60 + counted(s.subrange(24, 26)) < 1440
            }
        }),
{
    let s = raw@;
    let b = encode_utf8(s);
    reveal_with_fuel(pow10, 5);
    assert(pow10(2) == 100 && pow10(4) == 10_000);
    let w = clf_wall(b)->0;
    lemma_says(s, b, 0, 2);
    lemma_says(s, b, 7, 11);
    lemma_says(s, b, 12, 14);
    lemma_says(s, b, 15, 17);
    lemma_says(s, b, 18, 20);
    let c = b.subrange(3, 6);
    assert(c[0] == b[3] && c[1] == b[4] && c[2] == b[5]);
    let f = b.skip(20);
    if b.len() > 20 {
        assert(f[0] == b[20] && f[1] == b[21]);
        assert(f.subrange(2, 4) =~= b.subrange(22, 24));
        assert(f.subrange(4, 6) =~= b.subrange(24, 26));
        lemma_says(s, b, 22, 24);
        lemma_says(s, b, 24, 26);
    }
    assert forall|k: int| 0 <= k < b.len() implies #[trigger] b[k] < 128 by {}
    lemma_bytes_are_chars(s);
    lemma_says(s, b, 0, 2);
    lemma_says(s, b, 7, 11);
    lemma_says(s, b, 12, 14);
    lemma_says(s, b, 15, 17);
    lemma_says(s, b, 18, 20);
    if b.len() > 20 {
        lemma_says(s, b, 22, 24);
        lemma_says(s, b, 24, 26);
        assert(s[20] as u8 == b[20] && s[21] as u8 == b[21]);
    }
    assert(s[2] as u8 == b[2] && s[6] as u8 == b[6] && s[11] as u8 == b[11]);
    assert(s[14] as u8 == b[14] && s[17] as u8 == b[17]);
}

} // verus!
