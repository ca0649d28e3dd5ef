use vstd::prelude::*;

use crate::errors::TimeParserError;

verus! {

// ---------------------------------------------------------------------------
// Decimal text of integers
// ---------------------------------------------------------------------------

/// The decimal digit character for a value in `0 ..= 9`.
pub open spec fn digit_char(d: int) -> char {
    if d == 0 {
        '0'
    } else if d == 1 {
        '1'
    } else if d == 2 {
        '2'
    } else if d == 3 {
        '3'
    } else if d == 4 {
        '4'
    } else if d == 5 {
        '5'
    } else if d == 6 {
        '6'
    } else if d == 7 {
        '7'
    } else if d == 8 {
        '8'
    } else {
        '9'
    }
}

/// The decimal digit string of a non-negative integer, without sign and
/// without leading zeros.
pub open spec fn dec_digits(n: nat) -> Seq<char>
    decreases n,
{
    if n < 10 {
        seq![digit_char(n as int)]
    } else {
        dec_digits(n / 10).push(digit_char((n % 10) as int))
    }
}

/// The decimal text of a signed integer: a `-` sign for negative values,
/// then the digits of the absolute value.
pub open spec fn int_text(n: int) -> Seq<char> {
    if n < 0 {
        seq!['-'] + dec_digits((-n) as nat)
    } else {
        dec_digits(n as nat)
    }
}

pub open spec fn is_digit_char(c: char) -> bool {
    '0' <= c <= '9'
}

pub open spec fn digit_val(c: char) -> int {
    c as int - '0' as int
}

pub open spec fn all_digits(s: Seq<char>) -> bool {
    forall|i: int| 0 <= i < s.len() ==> is_digit_char(#[trigger] s[i])
}

/// The value of a non-empty string of decimal digits, most significant first.
pub open spec fn digits_val(s: Seq<char>) -> int
    decreases s.len(),
{
    if s.len() == 0 {
        0
    } else {
        digits_val(s.drop_last()) * 10 + digit_val(s.last())
    }
}

/// Whether `s` is the decimal text of some integer: an optional `-` or `+`
/// sign followed by at least one digit, and nothing else.
pub open spec fn is_int_text(s: Seq<char>) -> bool {
    if s.len() > 0 && (s[0] == '-' || s[0] == '+') {
        s.len() >= 2 && all_digits(s.skip(1))
    } else {
        s.len() >= 1 && all_digits(s)
    }
}

/// The integer value of a decimal text accepted by `is_int_text`.
pub open spec fn int_text_val(s: Seq<char>) -> int {
    if s.len() > 0 && s[0] == '-' {
        -digits_val(s.skip(1))
    } else if s.len() > 0 && s[0] == '+' {
        digits_val(s.skip(1))
    } else {
        digits_val(s)
    }
}

pub proof fn lemma_digit_char_val(d: int)
    requires
        0 <= d <= 9,
    ensures
        is_digit_char(digit_char(d)),
        digit_val(digit_char(d)) == d,
        digit_char(d) != '-',
        digit_char(d) != '+',
        digit_char(d) != '\n',
{
}

/// The digit string of a non-negative integer is non-empty, consists of
/// digits only, and evaluates back to the same integer.
pub proof fn lemma_dec_digits(n: nat)
    ensures
        dec_digits(n).len() >= 1,
        all_digits(dec_digits(n)),
        digits_val(dec_digits(n)) == n,
        n < 10 <==> dec_digits(n).len() == 1,
    decreases n,
{
    if n < 10 {
        lemma_digit_char_val(n as int);
        let s = dec_digits(n);
        assert(s =~= seq![digit_char(n as int)]);
        assert(s.last() == digit_char(n as int));
        assert(s.drop_last() =~= Seq::<char>::empty());
        assert(s.drop_last().len() == 0);
        assert(digits_val(s.drop_last()) == 0);
        assert(digits_val(s) == digit_val(digit_char(n as int)));
    } else {
        lemma_dec_digits(n / 10);
        lemma_digit_char_val((n % 10) as int);
        let prev = dec_digits(n / 10);
        let whole = prev.push(digit_char((n % 10) as int));
        assert(dec_digits(n) == whole);
        assert(whole.len() == prev.len() + 1);
        assert(whole.drop_last() =~= prev);
        assert(whole.last() == digit_char((n % 10) as int));
        assert(digits_val(whole) == digits_val(prev) * 10 + digit_val(whole.last()));
        assert(forall|i: int|
            0 <= i < whole.len() ==> is_digit_char(#[trigger] whole[i])) by {
            assert(forall|i: int| 0 <= i < prev.len() ==> is_digit_char(#[trigger] prev[i]));
        }
        vstd::arithmetic::div_mod::lemma_fundamental_div_mod(n as int, 10);
    }
}

/// The decimal text of an integer is one line: it contains no newline.
pub proof fn lemma_int_text_clean(n: int)
    ensures
        line_clean(int_text(n)),
{
    let s = int_text(n);
    if n < 0 {
        lemma_dec_digits((-n) as nat);
        assert forall|i: int| 0 <= i < s.len() implies #[trigger] s[i] != '\n' by {
            if i > 0 {
                assert(is_digit_char(dec_digits((-n) as nat)[i - 1]));
            }
        }
    } else {
        lemma_dec_digits(n as nat);
        assert forall|i: int| 0 <= i < s.len() implies #[trigger] s[i] != '\n' by {
            assert(is_digit_char(dec_digits(n as nat)[i]));
        }
    }
}

/// The decimal text of a signed integer parses back to the same integer.
pub proof fn lemma_int_text_round_trip(n: int)
    ensures
        is_int_text(int_text(n)),
        int_text_val(int_text(n)) == n,
        int_text(n).len() >= 1,
{
    if n < 0 {
        lemma_dec_digits((-n) as nat);
        let s = int_text(n);
        assert(s[0] == '-');
        assert(s.skip(1) =~= dec_digits((-n) as nat));
    } else {
        lemma_dec_digits(n as nat);
        let s = int_text(n);
        assert(s =~= dec_digits(n as nat));
        assert(is_digit_char(s[0])) by {
            assert(all_digits(dec_digits(n as nat)));
        }
        assert(s[0] != '-' && s[0] != '+');
    }
}

// ---------------------------------------------------------------------------
// Executable decimal rendering
// ---------------------------------------------------------------------------

/// The one-character string for a decimal digit value.
fn digit_to_str(d: u8) -> (r: &'static str)
    requires
        d < 10,
    ensures
        r@ =~= seq![digit_char(d as int)],
{
    proof {
        reveal_strlit("0");
        reveal_strlit("1");
        reveal_strlit("2");
        reveal_strlit("3");
        reveal_strlit("4");
        reveal_strlit("5");
        reveal_strlit("6");
        reveal_strlit("7");
        reveal_strlit("8");
        reveal_strlit("9");
    }
    match d {
        0 => "0",
        1 => "1",
        2 => "2",
        3 => "3",
        4 => "4",
        5 => "5",
        6 => "6",
        7 => "7",
        8 => "8",
        _ => "9",
    }
}

/// The decimal text of a non-negative integer.
pub fn nat_text(n: u64) -> (r: String)
    ensures
        r@ == dec_digits(n as nat),
    decreases n,
{
    if n < 10 {
        let r = String::from_str(digit_to_str(n as u8));
        proof {
            assert(r@ =~= dec_digits(n as nat));
        }
        r
    } else {
        let mut r = nat_text(n / 10);
        r.append(digit_to_str((n % 10) as u8));
        proof {
            assert(r@ =~= dec_digits(n as nat));
        }
        r
    }
}

/// The decimal text of a signed integer.
pub fn int_to_text(n: i64) -> (r: String)
    requires
        n > i64::MIN,
    ensures
        r@ == int_text(n as int),
{
    if n < 0 {
        let mut r = String::from_str("-");
        let m = -n;
        r.append(nat_text(m as u64).as_str());
        proof {
            reveal_strlit("-");
            assert(r@ =~= int_text(n as int));
        }
        r
    } else {
        let r = nat_text(n as u64);
        proof {
            assert(r@ =~= int_text(n as int));
        }
        r
    }
}

pub proof fn lemma_digits_val_nonneg(s: Seq<char>)
    requires
        all_digits(s),
    ensures
        digits_val(s) >= 0,
    decreases s.len(),
{
    if s.len() > 0 {
        let head = s.drop_last();
        assert(forall|i: int| 0 <= i < head.len() ==> head[i] == s[i]);
        lemma_digits_val_nonneg(head);
        assert(is_digit_char(s.last()));
    }
}

/// Reading more digits can only increase the value read so far.
pub proof fn lemma_digits_val_prefix(s: Seq<char>, k: int)
    requires
        all_digits(s),
        0 <= k <= s.len(),
    ensures
        digits_val(s.take(k)) <= digits_val(s),
    decreases s.len() - k,
{
    if k == s.len() {
        assert(s.take(k) =~= s);
    } else {
        let shorter = s.take(k);
        let longer = s.take(k + 1);
        assert(longer.drop_last() =~= shorter);
        assert(longer.last() == s[k]);
        assert(forall|i: int| 0 <= i < shorter.len() ==> shorter[i] == s[i]);
        lemma_digits_val_nonneg(shorter);
        assert(is_digit_char(s[k]));
        assert(digits_val(longer) == digits_val(shorter) * 10 + digit_val(s[k]));
        lemma_digits_val_prefix(s, k + 1);
    }
}

/// Parses a decimal integer with an optional sign, accepting exactly the
/// values of `lo ..= hi`.
pub fn parse_int_text(s: &str, lo: i64, hi: i64) -> (r: Result<i64, TimeParserError>)
    requires
        i64::MIN < lo <= 0 <= hi,
    ensures
        r matches Ok(v) ==> is_int_text(s@) && lo <= v <= hi && v as int == int_text_val(s@),
        r is Err ==> !(is_int_text(s@) && lo <= int_text_val(s@) <= hi),
{
    let n = s.unicode_len();
    if n == 0 {
        return Err(TimeParserError);
    }
    let c0 = s.get_char(0);
    let negative = c0 == '-';
    let start: usize = if c0 == '-' || c0 == '+' {
        1
    } else {
        0
    };
    if start == n {
        return Err(TimeParserError);
    }
    let cap: u64 = if negative {
        (-lo) as u64
    } else {
        hi as u64
    };
    let ghost digit_part = s@.skip(start as int);
    let mut m: u64 = 0;
    let mut i: usize = start;
    while i < n
        invariant
            start <= i <= n,
            0 < n == s@.len(),
            start < n,
            start == 0 || start == 1,
            start == 1 ==> s@[0] == '-' || s@[0] == '+',
            start == 0 ==> s@[0] != '-' && s@[0] != '+',
            negative <==> (start == 1 && s@[0] == '-'),
            i64::MIN < lo <= 0 <= hi,
            negative ==> cap as int == -(lo as int),
            !negative ==> cap as int == hi as int,
            start as int + digit_part.len() == n,
            digit_part =~= s@.skip(start as int),
            forall|j: int| 0 <= j < i - start ==> is_digit_char(#[trigger] digit_part[j]),
            m <= cap,
            m as int == digits_val(digit_part.take(i - start)),
        decreases n - i,
    {
        let c = s.get_char(i);
        let cu = c as u32;
        if cu < 48 || cu > 57 {
            proof {
                assert(digit_part[i - start] == c);
                assert(!is_digit_char(c));
                if start == 1 {
                    assert(!all_digits(s@.skip(1)));
                } else {
                    assert(s@[i as int] == c);
                    assert(!all_digits(s@));
                }
                assert(!is_int_text(s@));
            }
            return Err(TimeParserError);
        }
        let d = (cu - 48) as u64;
        proof {
            assert(is_digit_char(c));
            assert(d as int == digit_val(c));
            assert(digit_part.take(i + 1 - start) =~= digit_part.take(i - start).push(c));
            assert(digit_part.take(i + 1 - start).drop_last() =~= digit_part.take(i - start));
            vstd::arithmetic::div_mod::lemma_fundamental_div_mod(cap as int, 10);
        }
        if m > cap / 10 {
            proof {
                lemma_exceeds_cap(s@, digit_part, start as int, i as int + 1, cap as int, negative, lo, hi);
            }
            return Err(TimeParserError);
        }
        let t = m * 10;
        if d > cap - t {
            proof {
                lemma_exceeds_cap(s@, digit_part, start as int, i as int + 1, cap as int, negative, lo, hi);
            }
            return Err(TimeParserError);
        }
        m = t + d;
        i = i + 1;
    }
    proof {
        assert(digit_part.take(n - start) =~= digit_part);
        assert(all_digits(digit_part));
        if start == 1 {
            assert(s@.skip(1) =~= digit_part);
            assert(all_digits(s@.skip(1)));
            assert(s@.len() >= 2);
        } else {
            assert(s@.skip(0) =~= s@);
            assert(s@ =~= digit_part);
            assert(all_digits(s@));
        }
        assert(is_int_text(s@));
    }
    if negative {
        let v = -(m as i64);
        proof {
            assert(int_text_val(s@) == -digits_val(digit_part));
        }
        Ok(v)
    } else {
        let v = m as i64;
        proof {
            if start == 1 {
                assert(s@[0] == '+');
                assert(int_text_val(s@) == digits_val(digit_part));
            } else {
                assert(s@[0] != '-' && s@[0] != '+');
                assert(s@.skip(0) =~= s@);
                assert(int_text_val(s@) == digits_val(digit_part));
            }
        }
        Ok(v)
    }
}

/// When the digits read so far already exceed the bound, the whole field is
/// out of bounds or not a decimal integer at all.
proof fn lemma_exceeds_cap(
    s: Seq<char>,
    digit_part: Seq<char>,
    start: int,
    read: int,
    cap: int,
    negative: bool,
    lo: i64,
    hi: i64,
)
    requires
        0 <= start <= 1,
        start == 1 ==> s[0] == '-' || s[0] == '+',
        start == 1 ==> negative == (s[0] == '-'),
        start == 0 ==> s[0] != '-' && s[0] != '+',
        start == 0 ==> !negative,
        digit_part =~= s.skip(start),
        start < s.len(),
        start <= read <= s.len(),
        digits_val(digit_part.take(read - start)) > cap,
        negative ==> cap == -(lo as int),
        !negative ==> cap == hi as int,
        lo <= 0 <= hi,
    ensures
        !(is_int_text(s) && lo <= int_text_val(s) <= hi),
{
    if is_int_text(s) {
        assert(all_digits(digit_part));
        lemma_digits_val_prefix(digit_part, read - start);
        assert(digits_val(digit_part) > cap);
        if negative {
            assert(int_text_val(s) == -digits_val(digit_part));
            assert(int_text_val(s) < lo);
        } else {
            if start == 1 {
                assert(int_text_val(s) == digits_val(digit_part));
            } else {
                assert(s.skip(0) =~= s);
                assert(int_text_val(s) == digits_val(digit_part));
            }
            assert(int_text_val(s) > hi);
        }
    }
}

// ---------------------------------------------------------------------------
// String comparison
// ---------------------------------------------------------------------------

/// Character-by-character string equality.
pub fn str_eq(a: &str, b: &str) -> (r: bool)
    ensures
        r == (a@ == b@),
{
    let n = a.unicode_len();
    if n != b.unicode_len() {
        proof {
            assert(a@.len() != b@.len());
        }
        return false;
    }
    let mut i: usize = 0;
    while i < n
        invariant
            0 <= i <= n,
            n == a@.len(),
            n == b@.len(),
            forall|j: int| 0 <= j < i ==> a@[j] == b@[j],
        decreases n - i,
    {
        if a.get_char(i) != b.get_char(i) {
            proof {
                assert(a@[i as int] != b@[i as int]);
            }
            return false;
        }
        i = i + 1;
    }
    proof {
        assert(a@ =~= b@);
    }
    true
}

// ---------------------------------------------------------------------------
// Lines
// ---------------------------------------------------------------------------

/// Whether `s` contains no newline, so that it survives as one field of a
/// newline-separated record.
pub open spec fn line_clean(s: Seq<char>) -> bool {
    forall|i: int| 0 <= i < s.len() ==> #[trigger] s[i] != '\n'
}

/// The index of the first newline in `s`, or `s.len()` if there is none.
pub open spec fn line_break(s: Seq<char>) -> int
    decreases s.len(),
{
    if s.len() == 0 {
        0
    } else if s[0] == '\n' {
        0
    } else {
        1 + line_break(s.skip(1))
    }
}

/// The fields of `s`, split on every newline.  A string without a newline is
/// one field; each newline separates two fields.
pub open spec fn split_lines(s: Seq<char>) -> Seq<Seq<char>>
    decreases s.len(),
{
    let lb = line_break(s);
    if 0 <= lb < s.len() {
        seq![s.take(lb)] + split_lines(s.skip(lb + 1))
    } else {
        seq![s]
    }
}

/// `line_break` points at the first newline: nothing before it is a newline,
/// and it is a newline unless the string has none at all.
pub proof fn lemma_line_break(s: Seq<char>)
    ensures
        0 <= line_break(s) <= s.len(),
        line_break(s) < s.len() ==> s[line_break(s)] == '\n',
        forall|j: int| 0 <= j < line_break(s) ==> #[trigger] s[j] != '\n',
    decreases s.len(),
{
    if s.len() == 0 {
    } else if s[0] == '\n' {
    } else {
        let rest = s.skip(1);
        lemma_line_break(rest);
        assert(forall|j: int| 0 <= j < rest.len() ==> rest[j] == s[j + 1]);
        assert forall|j: int| 0 <= j < line_break(s) implies #[trigger] s[j] != '\n' by {
            if j > 0 {
                assert(rest[j - 1] != '\n');
            }
        }
    }
}

/// Conversely, an index with no newline before it, and a newline (or the end
/// of the string) at it, is `line_break`.
pub proof fn lemma_line_break_at(s: Seq<char>, k: int)
    requires
        0 <= k <= s.len(),
        forall|j: int| 0 <= j < k ==> #[trigger] s[j] != '\n',
        k < s.len() ==> s[k] == '\n',
    ensures
        line_break(s) == k,
    decreases s.len(),
{
    if s.len() == 0 {
    } else if s[0] == '\n' {
        assert(k == 0);
    } else {
        let rest = s.skip(1);
        assert(k >= 1);
        assert(forall|j: int| 0 <= j < rest.len() ==> rest[j] == s[j + 1]);
        lemma_line_break_at(rest, k - 1);
    }
}

/// The first field returned by `split_lines`, and the shape of the rest.
pub proof fn lemma_split_lines_head(s: Seq<char>)
    ensures
        0 <= line_break(s) <= s.len(),
        split_lines(s).len() >= 1,
        split_lines(s)[0] =~= s.take(line_break(s)),
        line_break(s) == s.len() ==> split_lines(s) =~= seq![s],
        line_break(s) < s.len() ==> split_lines(s) =~= seq![s.take(line_break(s))]
            + split_lines(s.skip(line_break(s) + 1)),
{
    lemma_line_break(s);
    if line_break(s) == s.len() {
        assert(s.take(line_break(s)) =~= s);
    }
}

/// Splits off the field before the first newline.  The second component is
/// the remainder after that newline, or `None` when the string has no
/// newline.
pub fn split_first_line<'a>(s: &'a str) -> (r: (&'a str, Option<&'a str>))
    ensures
        r.0@ == s@.take(line_break(s@)),
        (r.1 is None) <==> line_break(s@) == s@.len(),
        r.1 matches Some(rest) ==> rest@ == s@.skip(line_break(s@) + 1),
{
    let n = s.unicode_len();
    let mut i: usize = 0;
    while i < n && s.get_char(i) != '\n'
        invariant
            0 <= i <= n,
            n == s@.len(),
            forall|j: int| 0 <= j < i ==> #[trigger] s@[j] != '\n',
        decreases n - i,
    {
        i = i + 1;
    }
    proof {
        lemma_line_break_at(s@, i as int);
    }
    let line = s.substring_char(0, i);
    proof {
        assert(line@ =~= s@.take(line_break(s@)));
    }
    if i == n {
        (line, None)
    } else {
        let rest = s.substring_char(i + 1, n);
        proof {
            assert(rest@ =~= s@.skip(line_break(s@) + 1));
        }
        (line, Some(rest))
    }
}

// ---------------------------------------------------------------------------
// Clock display
// ---------------------------------------------------------------------------

/// Pads a digit string on the left with zeros to a width of at least two.
pub open spec fn pad2(s: Seq<char>) -> Seq<char> {
    if s.len() >= 2 {
        s
    } else {
        seq!['0'] + s
    }
}

/// The clock display `HH:MM:SS`: hours zero-padded to at least two digits
/// and growing as needed, minutes and seconds exactly two digits.
pub open spec fn clock_text(h: int, m: int, s: int) -> Seq<char> {
    pad2(dec_digits(h as nat)) + seq![':'] + pad2(dec_digits(m as nat)) + seq![':'] + pad2(
        dec_digits(s as nat),
    )
}

/// A component of the clock display, zero-padded to at least two digits.
fn pad2_text(n: u64) -> (r: String)
    ensures
        r@ == pad2(dec_digits(n as nat)),
{
    proof {
        lemma_dec_digits(n as nat);
        reveal_strlit("0");
    }
    if n < 10 {
        let mut r = String::from_str("0");
        r.append(nat_text(n).as_str());
        proof {
            assert(r@ =~= pad2(dec_digits(n as nat)));
        }
        r
    } else {
        let r = nat_text(n);
        r
    }
}

/// The clock display of an hours/minutes/seconds triple.
pub fn format_clock(h: u64, m: u64, s: u64) -> (r: String)
    requires
        m < 60,
        s < 60,
    ensures
        r@ == clock_text(h as int, m as int, s as int),
{
    let mut r = pad2_text(h);
    r.append(":");
    r.append(pad2_text(m).as_str());
    r.append(":");
    r.append(pad2_text(s).as_str());
    proof {
        reveal_strlit(":");
        assert(r@ =~= clock_text(h as int, m as int, s as int));
    }
    r
}

} // verus!
