//! Character-level building blocks of the literal forms: decimal numbers,
//! separator splitting, and the string helpers the encoders and decoders use.
use vstd::prelude::*;

verus! {

// ---------------------------------------------------------------------------
// Decimal digits
// ---------------------------------------------------------------------------

/// An ASCII decimal digit.
pub open spec fn is_digit(c: char) -> bool {
    48 <= (c as int) <= 57
}

/// Numeric value of an ASCII decimal digit.
pub open spec fn digit_value(c: char) -> int {
    (c as int) - 48
}

/// The ASCII character of a decimal digit `d < 10`.
pub open spec fn digit_char(d: int) -> char {
    (d + 48) as char
}

pub open spec fn all_digits(s: Seq<char>) -> bool {
    forall|i: int| 0 <= i < s.len() ==> is_digit(#[trigger] s[i])
}

/// The number a string of decimal digits denotes (most significant first).
pub open spec fn decimal_value(s: Seq<char>) -> int
    decreases s.len(),
{
    if s.len() == 0 {
        0
    } else {
        decimal_value(s.drop_last()) * 10 + digit_value(s.last())
    }
}

/// What `str::parse` yields for an unsigned integer type whose largest value
/// is `max`: an optional leading `+`, then at least one decimal digit, with a
/// value that fits.
pub open spec fn parse_unsigned(s: Seq<char>, max: int) -> Option<int> {
    let digits = if s.len() > 0 && s[0] == '+' {
        s.drop_first()
    } else {
        s
    };
    if digits.len() > 0 && all_digits(digits) && decimal_value(digits) <= max {
        Some(decimal_value(digits))
    } else {
        None
    }
}

/// The shortest decimal rendering of `n`.
pub open spec fn decimal(n: nat) -> Seq<char>
    decreases n,
{
    if n < 10 {
        seq![digit_char(n as int)]
    } else {
        decimal(n / 10).push(digit_char((n % 10) as int))
    }
}

/// `n` in decimal, left-padded with zeros to at least `width` characters
/// (the `{:0width}` format).
pub open spec fn zero_padded(n: nat, width: nat) -> Seq<char> {
    let digits = decimal(n);
    if digits.len() < width {
        Seq::new((width - digits.len()) as nat, |i: int| '0') + digits
    } else {
        digits
    }
}

pub proof fn lemma_decimal(n: nat)
    ensures
        decimal(n).len() >= 1,
        all_digits(decimal(n)),
        decimal_value(decimal(n)) == n,
    decreases n,
{
    lemma_digit_char((n % 10) as int);
    if n < 10 {
        assert(decimal(n).drop_last() =~= Seq::<char>::empty());
        assert(decimal_value(Seq::<char>::empty()) == 0);
        assert(decimal(n).last() == digit_char(n as int));
    } else {
        lemma_decimal(n / 10);
        assert(decimal(n).drop_last() =~= decimal(n / 10));
        assert(decimal(n).last() == digit_char((n % 10) as int));
    }
}

/// Digit characters rise strictly with their value, from `0` to `9`, and
/// the shortest decimal rendering has no leading zero.
pub proof fn lemma_digit_char_order(d: int, e: int, n: nat)
    requires
        0 <= d < e < 10,
    ensures
        (digit_char(d) as int) < (digit_char(e) as int),
        digit_char(0) == '0',
        digit_char(9) == '9',
        n > 0 ==> decimal(n)[0] != '0',
    decreases n,
{
    if n >= 10 {
        lemma_digit_char_order(d, e, n / 10);
        lemma_decimal(n / 10);
    }
}

/// What an unsigned parse accepts: the value fits under `max`; a leading
/// `+` is dropped once; an empty string, a bare sign or a `-` sign is
/// refused.
pub proof fn lemma_parse_unsigned_shape(s: Seq<char>, max: int)
    ensures
        parse_unsigned(s, max) matches Some(v) ==> 0 <= v <= max,
        s.len() == 0 ==> parse_unsigned(s, max) is None,
        s =~= seq!['+'] ==> parse_unsigned(s, max) is None,
        s.len() > 0 && s[0] == '-' ==> parse_unsigned(s, max) is None,
        s.len() > 0 && s[0] != '+' ==> parse_unsigned(seq!['+'] + s, max) == parse_unsigned(s, max),
{
    if s.len() > 0 && s[0] == '-' {
        assert(!is_digit(s[0]));
    }
    if s.len() > 0 {
        assert((seq!['+'] + s).drop_first() =~= s);
    }
    if parse_unsigned(s, max) is Some {
        let digits = if s.len() > 0 && s[0] == '+' {
            s.drop_first()
        } else {
            s
        };
        lemma_decimal_value_prefix(digits, 0);
    }
}

pub proof fn lemma_digit_char(d: int)
    requires
        0 <= d < 10,
    ensures
        is_digit(digit_char(d)),
        digit_value(digit_char(d)) == d,
{
}

proof fn lemma_zeros_value(z: Seq<char>)
    requires
        forall|i: int| 0 <= i < z.len() ==> z[i] == '0',
    ensures
        decimal_value(z) == 0,
    decreases z.len(),
{
    if z.len() > 0 {
        lemma_zeros_value(z.drop_last());
    }
}

proof fn lemma_zeros_prefix_value(z: Seq<char>, x: Seq<char>)
    requires
        forall|i: int| 0 <= i < z.len() ==> z[i] == '0',
    ensures
        decimal_value(z + x) == decimal_value(x),
    decreases x.len(),
{
    if x.len() == 0 {
        assert(z + x =~= z);
        lemma_zeros_value(z);
    } else {
        lemma_zeros_prefix_value(z, x.drop_last());
        assert((z + x).drop_last() =~= z + x.drop_last());
    }
}

pub proof fn lemma_zero_padded(n: nat, width: nat)
    ensures
        zero_padded(n, width).len() >= 1,
        zero_padded(n, width).len() >= width,
        zero_padded(n, width).len() == (if decimal(n).len() < width {
            width as int
        } else {
            decimal(n).len() as int
        }),
        all_digits(zero_padded(n, width)),
        decimal_value(zero_padded(n, width)) == n,
        parse_unsigned(zero_padded(n, width), n as int) == Some(n as int),
{
    lemma_decimal(n);
    let digits = decimal(n);
    if digits.len() < width {
        let z = Seq::new((width - digits.len()) as nat, |i: int| '0');
        lemma_zeros_prefix_value(z, digits);
        assert(all_digits(z + digits)) by {
            assert forall|i: int| 0 <= i < (z + digits).len() implies is_digit(
                #[trigger] (z + digits)[i],
            ) by {
                if i >= z.len() {
                    assert((z + digits)[i] == digits[i - z.len()]);
                }
            }
        }
    }
    let p = zero_padded(n, width);
    assert(is_digit(p[0]));
}

/// A digit string whose value fits parses to that value.
pub proof fn lemma_parse_digits(s: Seq<char>, max: int)
    requires
        s.len() >= 1,
        all_digits(s),
        decimal_value(s) <= max,
    ensures
        parse_unsigned(s, max) == Some(decimal_value(s)),
{
    assert(is_digit(s[0]));
}

/// Extending a digit string never lowers its value.
proof fn lemma_decimal_value_prefix(s: Seq<char>, k: int)
    requires
        0 <= k <= s.len(),
        all_digits(s),
    ensures
        decimal_value(s.take(k)) <= decimal_value(s),
        decimal_value(s) >= 0,
    decreases s.len(),
{
    if s.len() == 0 {
        assert(s.take(k) =~= s);
    } else if k == s.len() {
        assert(s.take(k) =~= s);
        lemma_decimal_value_prefix(s.drop_last(), 0);
        assert(is_digit(s.last()));
    } else {
        lemma_decimal_value_prefix(s.drop_last(), k);
        assert(s.drop_last().take(k) =~= s.take(k));
        assert(is_digit(s.last()));
    }
}

/// Parses an unsigned decimal number as `str::parse` does for an unsigned
/// integer type whose largest value is `max`.
pub fn parse_unsigned_chars(s: &Vec<char>, max: u32) -> (res: Option<u32>)
    requires
        max <= 0x0fff_ffff,
    ensures
        match res {
            Some(v) => parse_unsigned(s@, max as int) == Some(v as int),
            None => parse_unsigned(s@, max as int) is None,
        },
{
    let len = s.len();
    let mut start: usize = 0;
    if len > 0 && s[0] == '+' {
        start = 1;
    }
    let ghost digits = if s@.len() > 0 && s@[0] == '+' {
        s@.drop_first()
    } else {
        s@
    };
    assert(digits =~= s@.skip(start as int));
    if start >= len {
        return None;
    }
    let mut value: u32 = 0;
    let mut i: usize = start;
    while i < len
        invariant
            start <= i <= len,
            len == s@.len(),
            digits =~= s@.skip(start as int),
            digits == (if s@.len() > 0 && s@[0] == '+' {
                s@.drop_first()
            } else {
                s@
            }),
            max <= 0x0fff_ffff,
            value <= max,
            all_digits(digits.take(i - start)),
            value == decimal_value(digits.take(i - start)),
        decreases len - i,
    {
        let c = s[i];
        let k: Ghost<int> = Ghost(i - start);
        assert(digits[k@] == c);
        if !('0' <= c && c <= '9') {
            assert(!is_digit(digits[k@]));
            return None;
        }
        let d: u32 = (c as u32) - 48;
        assert(digits.take(k@ + 1).drop_last() =~= digits.take(k@));
        assert(all_digits(digits.take(k@ + 1))) by {
            assert forall|j: int| 0 <= j < k@ + 1 implies is_digit(
                #[trigger] digits.take(k@ + 1)[j],
            ) by {
                if j < k@ {
                    assert(digits.take(k@ + 1)[j] == digits.take(k@)[j]);
                }
            }
        }
        let next: u32 = value * 10 + d;
        if next > max {
            proof {
                if all_digits(digits) {
                    lemma_decimal_value_prefix(digits, k@ + 1);
                }
            }
            return None;
        }
        value = next;
        i = i + 1;
    }
    assert(digits.take(len - start) =~= digits);
    Some(value)
}

// ---------------------------------------------------------------------------
// Splitting at a separator
// ---------------------------------------------------------------------------

/// The pieces `str::split` yields for a single-character separator.
pub open spec fn split_on(s: Seq<char>, sep: char) -> Seq<Seq<char>>
    decreases s.len(),
{
    if s.len() == 0 {
        seq![Seq::<char>::empty()]
    } else {
        let parts = split_on(s.drop_last(), sep);
        if s.last() == sep {
            parts.push(Seq::<char>::empty())
        } else {
            parts.update(parts.len() - 1, parts.last().push(s.last()))
        }
    }
}

pub proof fn lemma_split_nonempty(s: Seq<char>, sep: char)
    ensures
        split_on(s, sep).len() >= 1,
    decreases s.len(),
{
    if s.len() > 0 {
        lemma_split_nonempty(s.drop_last(), sep);
    }
}

/// A string without the separator is a single piece.
pub proof fn lemma_split_no_sep(s: Seq<char>, sep: char)
    requires
        forall|i: int| 0 <= i < s.len() ==> s[i] != sep,
    ensures
        split_on(s, sep) == seq![s],
    decreases s.len(),
{
    if s.len() > 0 {
        lemma_split_no_sep(s.drop_last(), sep);
        assert(s.drop_last().push(s.last()) =~= s);
        assert(split_on(s, sep) =~= seq![s]);
    } else {
        assert(s =~= Seq::<char>::empty());
    }
}

/// Splitting `a`, separator, `b` gives the pieces of `a` followed by those of `b`.
pub proof fn lemma_split_concat(a: Seq<char>, sep: char, b: Seq<char>)
    ensures
        split_on(a + seq![sep] + b, sep) == split_on(a, sep) + split_on(b, sep),
    decreases b.len(),
{
    lemma_split_nonempty(b, sep);
    lemma_split_nonempty(a, sep);
    if b.len() == 0 {
        assert((a + seq![sep] + b).drop_last() =~= a);
        assert(split_on(a + seq![sep] + b, sep) =~= split_on(a, sep) + split_on(b, sep));
    } else {
        lemma_split_concat(a, sep, b.drop_last());
        lemma_split_nonempty(b.drop_last(), sep);
        assert((a + seq![sep] + b).drop_last() =~= a + seq![sep] + b.drop_last());
        assert(split_on(a + seq![sep] + b, sep) =~= split_on(a, sep) + split_on(b, sep));
    }
}

/// Splits `s` at every occurrence of `sep`, as `str::split` does.
pub fn split_chars(s: &Vec<char>, sep: char) -> (parts: Vec<Vec<char>>)
    ensures
        parts@.len() == split_on(s@, sep).len(),
        forall|i: int| 0 <= i < parts@.len() ==> (#[trigger] parts@[i])@ == split_on(s@, sep)[i],
{
    let mut parts: Vec<Vec<char>> = Vec::new();
    parts.push(Vec::new());
    let len = s.len();
    let mut i: usize = 0;
    assert(s@.take(0) =~= Seq::<char>::empty());
    while i < len
        invariant
            i <= len,
            len == s@.len(),
            parts@.len() == split_on(s@.take(i as int), sep).len(),
            forall|j: int| 0 <= j < parts@.len() ==> (#[trigger] parts@[j])@ == split_on(s@.take(i as int), sep)[j],
        decreases len - i,
    {
        proof {
            lemma_split_nonempty(s@.take(i as int), sep);
        }
        let c = s[i];
        assert(s@.take(i + 1).drop_last() =~= s@.take(i as int));
        assert(s@.take(i + 1).last() == c);
        if c == sep {
            parts.push(Vec::new());
        } else {
            let mut last = parts.pop().unwrap();
            last.push(c);
            parts.push(last);
        }
        i = i + 1;
        assert forall|j: int| 0 <= j < parts@.len() implies (#[trigger] parts@[j])@ == split_on(s@.take(i as int), sep)[j] by {
        }
    }
    assert(s@.take(len as int) =~= s@);
    parts
}

// ---------------------------------------------------------------------------
// Strings
// ---------------------------------------------------------------------------

/// The characters of `s`, in order.
pub fn chars_of(s: &str) -> (chars: Vec<char>)
    ensures
        chars@ == s@,
{
    let n = s.unicode_len();
    let mut chars: Vec<char> = Vec::new();
    let mut i: usize = 0;
    while i < n
        invariant
            i <= n,
            n == s@.len(),
            chars@ =~= s@.take(i as int),
        decreases n - i,
    {
        let c = s.get_char(i);
        chars.push(c);
        i = i + 1;
        assert(chars@ =~= s@.take(i as int));
    }
    assert(s@.take(n as int) =~= s@);
    chars
}

/// Appends one character (std's `String::push`).
#[verifier::external_body]
pub(crate) fn push_char(s: &mut String, c: char)
    ensures
        final(s)@ == old(s)@.push(c),
{
    s.push(c);
}

/// Appends the zero-free decimal rendering of `n`.
fn push_decimal(out: &mut String, n: u32)
    ensures
        final(out)@ == old(out)@ + decimal(n as nat),
    decreases n,
{
    if n >= 10 {
        push_decimal(out, n / 10);
    }
    let d: u32 = n % 10;
    let c = ((48 + d) as u8) as char;
    push_char(out, c);
    assert(decimal(n as nat) =~= if n < 10 {
        seq![digit_char(n as int)]
    } else {
        decimal((n / 10) as nat).push(digit_char((n % 10) as int))
    });
}

/// Number of digits in the decimal rendering of `n`.
fn decimal_len(n: u32) -> (len: u32)
    ensures
        len as int == decimal(n as nat).len(),
    decreases n,
{
    if n < 10 {
        1
    } else {
        let l = decimal_len(n / 10);
        proof {
            lemma_decimal_len_small((n / 10) as nat);
        }
        l + 1
    }
}

proof fn lemma_decimal_len_small(n: nat)
    ensures
        decimal(n).len() <= n + 1,
    decreases n,
{
    if n >= 10 {
        lemma_decimal_len_small(n / 10);
    }
}

/// Appends `n` in decimal, left-padded with zeros to at least `width`
/// characters.
pub fn push_zero_padded(out: &mut String, n: u32, width: u32)
    ensures
        final(out)@ == old(out)@ + zero_padded(n as nat, width as nat),
{
    let len = decimal_len(n);
    let ghost start = out@;
    let mut k: u32 = len;
    while k < width
        invariant
            len <= k,
            len as int == decimal(n as nat).len(),
            k <= width || k == len,
            out@ =~= start + Seq::new((k - len) as nat, |i: int| '0'),
        decreases width - k,
    {
        push_char(out, '0');
        k = k + 1;
    }
    push_decimal(out, n);
    if len < width {
        assert(k == width);
    } else {
        assert(k == len);
        assert(out@ =~= start + decimal(n as nat));
    }
}

} // verus!
