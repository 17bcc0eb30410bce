//! Character-level text handling: conversion, trimming, splitting, and
//! decimal numbers.

use vstd::prelude::*;

verus! {

/// Relies on `String::push`: the character is appended at the end.
#[verifier::external_body]
fn push_char(s: &mut String, c: char)
    ensures
        final(s)@ == old(s)@.push(c),
{
    s.push(c)
}

/// The characters of a string, in order.
pub fn chars_of(s: &str) -> (r: Vec<char>)
    ensures
        r@ == s@,
{
    let mut r: Vec<char> = Vec::new();
    for c in it: s.chars()
        invariant
            r@ == it.seq().take(it.index() as int),
            it.seq() == s@,
    {
        r.push(c);
    }
    r
}

/// A string holding the given characters, in order.
pub fn string_of(c: &[char]) -> (r: String)
    ensures
        r@ == c@,
{
    let mut r = String::new();
    let mut i: usize = 0;
    while i < c.len()
        invariant
            0 <= i <= c@.len(),
            r@ == c@.take(i as int),
        decreases c@.len() - i,
    {
        push_char(&mut r, c[i]);
        i += 1;
        assert(c@.take(i as int) =~= c@.take(i - 1).push(c@[i - 1]));
    }
    assert(c@.take(c@.len() as int) =~= c@);
    r
}


/// Unicode's White_Space property, which `str::trim` strips.
pub open spec fn is_white(c: char) -> bool {
    let u = c as u32;
    ||| 0x9 <= u <= 0xd
    ||| u == 0x20
    ||| u == 0x85
    ||| u == 0xa0
    ||| u == 0x1680
    ||| 0x2000 <= u <= 0x200a
    ||| u == 0x2028
    ||| u == 0x2029
    ||| u == 0x202f
    ||| u == 0x205f
    ||| u == 0x3000
}

/// Whether the character is white space, as `char::is_whitespace` has it.
pub fn white(c: char) -> (r: bool)
    ensures
        r == is_white(c),
{
    let u = c as u32;
    (0x9 <= u && u <= 0xd) || u == 0x20 || u == 0x85 || u == 0xa0 || u == 0x1680 || (0x2000 <= u
        && u <= 0x200a) || u == 0x2028 || u == 0x2029 || u == 0x202f || u == 0x205f || u == 0x3000
}

/// The text without its leading white space.
pub open spec fn trim_start(s: Seq<char>) -> Seq<char>
    decreases s.len(),
{
    if s.len() > 0 && is_white(s[0]) {
        trim_start(s.drop_first())
    } else {
        s
    }
}

/// The text without its trailing white space.
pub open spec fn trim_end(s: Seq<char>) -> Seq<char>
    decreases s.len(),
{
    if s.len() > 0 && is_white(s.last()) {
        trim_end(s.drop_last())
    } else {
        s
    }
}

/// The text without white space at either end.
pub open spec fn trimmed(s: Seq<char>) -> Seq<char> {
    trim_end(trim_start(s))
}

/// The characters `s[from..to]`.
pub fn slice_of(s: &[char], from: usize, to: usize) -> (r: Vec<char>)
    requires
        from <= to <= s@.len(),
    ensures
        r@ == s@.subrange(from as int, to as int),
{
    let mut r: Vec<char> = Vec::new();
    let mut i: usize = from;
    while i < to
        invariant
            from <= i <= to <= s@.len(),
            r@ == s@.subrange(from as int, i as int),
        decreases to - i,
    {
        r.push(s[i]);
        i += 1;
        assert(r@ =~= s@.subrange(from as int, i as int));
    }
    r
}

/// The characters with white space removed from both ends.
pub fn trim(s: &[char]) -> (r: Vec<char>)
    ensures
        r@ == trimmed(s@),
{
    let n = s.len();
    let mut a: usize = 0;
    assert(s@.subrange(0, n as int) =~= s@);
    while a < n && white(s[a])
        invariant
            0 <= a <= n == s@.len(),
            trim_start(s@) == trim_start(s@.subrange(a as int, n as int)),
        decreases n - a,
    {
        assert(s@.subrange(a as int, n as int).drop_first() =~= s@.subrange(a + 1, n as int));
        a += 1;
    }
    assert(trim_start(s@) == s@.subrange(a as int, n as int));
    let mut b: usize = n;
    while b > a && white(s[b - 1])
        invariant
            a <= b <= n == s@.len(),
            trimmed(s@) == trim_end(s@.subrange(a as int, b as int)),
        decreases b,
    {
        assert(s@.subrange(a as int, b as int).drop_last() =~= s@.subrange(a as int, b - 1));
        b -= 1;
    }
    slice_of(s, a, b)
}

/// The pieces of `s` between occurrences of `sep`, as `str::split` gives
/// them: one more piece than there are separators.
pub open spec fn split_on(s: Seq<char>, sep: char) -> Seq<Seq<char>>
    decreases s.len(),
{
    if s.len() == 0 {
        seq![Seq::empty()]
    } else {
        let prev = split_on(s.drop_last(), sep);
        if s.last() == sep {
            prev.push(Seq::empty())
        } else {
            prev.update(prev.len() - 1, prev.last().push(s.last()))
        }
    }
}

/// Splitting always gives at least one piece.
pub proof fn lemma_split_nonempty(s: Seq<char>, sep: char)
    ensures
        split_on(s, sep).len() >= 1,
    decreases s.len(),
{
    if s.len() > 0 {
        lemma_split_nonempty(s.drop_last(), sep);
    }
}

/// The character sequences held by a list of character vectors.
pub open spec fn texts(v: Seq<Vec<char>>) -> Seq<Seq<char>> {
    v.map_values(|x: Vec<char>| x@)
}

/// Splits the characters at each occurrence of `sep`.
pub fn split(s: &[char], sep: char) -> (r: Vec<Vec<char>>)
    ensures
        texts(r@) == split_on(s@, sep),
{
    let mut pieces: Vec<Vec<char>> = Vec::new();
    let mut cur: Vec<char> = Vec::new();
    let mut i: usize = 0;
    assert(s@.take(0) =~= Seq::<char>::empty());
    assert(texts(pieces@).push(cur@) =~= seq![Seq::<char>::empty()]);
    while i < s.len()
        invariant
            0 <= i <= s@.len(),
            split_on(s@.take(i as int), sep) == texts(pieces@).push(cur@),
        decreases s@.len() - i,
    {
        let c = s[i];
        proof {
            lemma_split_nonempty(s@.take(i as int), sep);
            assert(s@.take(i + 1).drop_last() =~= s@.take(i as int));
        }
        if c == sep {
            let done = cur;
            pieces.push(done);
            cur = Vec::new();
            assert(texts(pieces@).push(cur@) =~= split_on(s@.take(i as int), sep).push(
                Seq::empty(),
            ));
        } else {
            cur.push(c);
            assert(texts(pieces@).push(cur@) =~= {
                let prev = split_on(s@.take(i as int), sep);
                prev.update(prev.len() - 1, prev.last().push(c))
            });
        }
        i += 1;
    }
    assert(s@.take(s@.len() as int) =~= s@);
    pieces.push(cur);
    assert(texts(pieces@) =~= split_on(s@, sep));
    pieces
}


/// Why a decimal integer could not be read, as std's integer parsing reports
/// it.
#[derive(Debug, Clone, Copy, PartialEq, Eq, Structural)]
pub enum NumberError {
    /// Nothing to read.
    Empty,
    /// A character that is not a decimal digit, or a lone sign.
    InvalidDigit,
    /// The value is above the largest of the type.
    PosOverflow,
    /// The value is below the smallest of the type.
    NegOverflow,
}

/// An ASCII decimal digit.
pub open spec fn is_digit(c: char) -> bool {
    '0' <= c && c <= '9'
}

/// The value of a decimal digit character.
pub open spec fn digit_value(c: char) -> int {
    c as int - '0' as int
}

/// Reads the digits of `d` from the left onto `acc`, subtracting them when
/// `negative`, and stops at the first character that is not a digit or the
/// first step that leaves `lo..=hi`.
pub open spec fn read_digits(d: Seq<char>, acc: int, negative: bool, lo: int, hi: int) -> Result<
    int,
    NumberError,
>
    decreases d.len(),
{
    if d.len() == 0 {
        Ok(acc)
    } else if !is_digit(d[0]) {
        Err(NumberError::InvalidDigit)
    } else {
        let v = if negative {
            acc * 10 - digit_value(d[0])
        } else {
            acc * 10 + digit_value(d[0])
        };
        if v > hi {
            Err(NumberError::PosOverflow)
        } else if v < lo {
            Err(NumberError::NegOverflow)
        } else {
            read_digits(d.drop_first(), v, negative, lo, hi)
        }
    }
}

/// The value of a decimal integer in `lo..=hi` written as `s`: an optional
/// sign (`-` only where `signed`) and digits.
pub open spec fn read_integer(s: Seq<char>, signed: bool, lo: int, hi: int) -> Result<
    int,
    NumberError,
> {
    if s.len() == 0 {
        Err(NumberError::Empty)
    } else if s.len() == 1 && (s[0] == '+' || s[0] == '-') {
        Err(NumberError::InvalidDigit)
    } else if s[0] == '+' {
        read_digits(s.drop_first(), 0, false, lo, hi)
    } else if signed && s[0] == '-' {
        read_digits(s.drop_first(), 0, true, lo, hi)
    } else {
        read_digits(s, 0, false, lo, hi)
    }
}

/// What `str::parse::<u32>` gives for `s`.
pub open spec fn u32_of(s: Seq<char>) -> Result<u32, NumberError> {
    match read_integer(s, false, 0, u32::MAX as int) {
        Ok(v) => Ok(v as u32),
        Err(e) => Err(e),
    }
}

/// What `str::parse::<i32>` gives for `s`.
pub open spec fn i32_of(s: Seq<char>) -> Result<i32, NumberError> {
    match read_integer(s, true, i32::MIN as int, i32::MAX as int) {
        Ok(v) => Ok(v as i32),
        Err(e) => Err(e),
    }
}

proof fn lemma_read_digits_bounds(d: Seq<char>, acc: int, negative: bool, lo: int, hi: int)
    requires
        lo <= acc <= hi,
    ensures
        read_digits(d, acc, negative, lo, hi) matches Ok(v) ==> lo <= v <= hi,
    decreases d.len(),
{
    if d.len() > 0 && is_digit(d[0]) {
        let v = if negative {
            acc * 10 - digit_value(d[0])
        } else {
            acc * 10 + digit_value(d[0])
        };
        if lo <= v <= hi {
            lemma_read_digits_bounds(d.drop_first(), v, negative, lo, hi);
        }
    }
}

fn digits_from(s: &[char], start: usize, negative: bool, lo: i64, hi: i64) -> (r: Result<
    i64,
    NumberError,
>)
    requires
        start <= s@.len(),
        -0x1_0000_0000 <= lo <= 0 <= hi <= 0x1_0000_0000,
    ensures
        match r {
            Ok(v) => read_digits(s@.skip(start as int), 0, negative, lo as int, hi as int) == Ok::<
                int,
                NumberError,
            >(v as int),
            Err(e) => read_digits(s@.skip(start as int), 0, negative, lo as int, hi as int) == Err::<
                int,
                NumberError,
            >(e),
        },
{
    let mut acc: i64 = 0;
    let mut i: usize = start;
    while i < s.len()
        invariant
            start <= i <= s@.len(),
            -0x1_0000_0000 <= lo <= 0 <= hi <= 0x1_0000_0000,
            lo <= acc <= hi,
            read_digits(s@.skip(start as int), 0, negative, lo as int, hi as int) == read_digits(
                s@.skip(i as int),
                acc as int,
                negative,
                lo as int,
                hi as int,
            ),
        decreases s@.len() - i,
    {
        let c = s[i];
        assert(s@.skip(i as int)[0] == c);
        assert(s@.skip(i as int).drop_first() =~= s@.skip(i + 1));
        if !('0' <= c && c <= '9') {
            return Err(NumberError::InvalidDigit);
        }
        let d = (c as u32 - '0' as u32) as i64;
        let v = if negative {
            acc * 10 - d
        } else {
            acc * 10 + d
        };
        if v > hi {
            return Err(NumberError::PosOverflow);
        }
        if v < lo {
            return Err(NumberError::NegOverflow);
        }
        acc = v;
        i += 1;
    }
    assert(s@.skip(i as int).len() == 0);
    Ok(acc)
}

fn integer_of(s: &[char], signed: bool, lo: i64, hi: i64) -> (r: Result<i64, NumberError>)
    requires
        -0x1_0000_0000 <= lo <= 0 <= hi <= 0x1_0000_0000,
    ensures
        match r {
            Ok(v) => read_integer(s@, signed, lo as int, hi as int) == Ok::<int, NumberError>(
                v as int,
            ) && lo <= v <= hi,
            Err(e) => read_integer(s@, signed, lo as int, hi as int) == Err::<int, NumberError>(e),
        },
{
    if s.len() == 0 {
        return Err(NumberError::Empty);
    }
    let first = s[0];
    if s.len() == 1 && (first == '+' || first == '-') {
        return Err(NumberError::InvalidDigit);
    }
    let r = if first == '+' {
        digits_from(s, 1, false, lo, hi)
    } else if signed && first == '-' {
        digits_from(s, 1, true, lo, hi)
    } else {
        assert(s@.skip(0) =~= s@);
        digits_from(s, 0, false, lo, hi)
    };
    proof {
        assert(s@.skip(1) =~= s@.drop_first());
        if first == '+' {
            lemma_read_digits_bounds(s@.drop_first(), 0, false, lo as int, hi as int);
        } else if signed && first == '-' {
            lemma_read_digits_bounds(s@.drop_first(), 0, true, lo as int, hi as int);
        } else {
            lemma_read_digits_bounds(s@, 0, false, lo as int, hi as int);
        }
    }
    r
}

/// Reads an unsigned decimal integer, as `str::parse::<u32>` does.
pub fn parse_u32(s: &[char]) -> (r: Result<u32, NumberError>)
    ensures
        r == u32_of(s@),
{
    match integer_of(s, false, 0, 0xffff_ffff) {
        Ok(v) => Ok(v as u32),
        Err(e) => Err(e),
    }
}

/// Reads a signed decimal integer, as `str::parse::<i32>` does.
pub fn parse_i32(s: &[char]) -> (r: Result<i32, NumberError>)
    ensures
        r == i32_of(s@),
{
    match integer_of(s, true, -0x8000_0000, 0x7fff_ffff) {
        Ok(v) => Ok(v as i32),
        Err(e) => Err(e),
    }
}


/// Whether the characters are those of the string.
pub fn same_text(a: &[char], b: &str) -> (r: bool)
    ensures
        r == (a@ == b@),
{
    let n = b.unicode_len();
    if a.len() != n {
        return false;
    }
    let mut i: usize = 0;
    while i < n
        invariant
            n == a@.len() == b@.len(),
            0 <= i <= n,
            forall|j: int| 0 <= j < i ==> a@[j] == b@[j],
        decreases n - i,
    {
        if a[i] != b.get_char(i) {
            return false;
        }
        i += 1;
    }
    assert(a@ =~= b@);
    true
}


/// The character of a decimal digit.
pub open spec fn digit_char(d: nat) -> char {
    if d == 0 {
        '0'
    } else if d == 1 {
        '1'
    } else if d == 2 {
        '2'
    } else if d == 3 {
        '3'
    } else if d == 4 {
        '4'
    } else if d == 5 {
        '5'
    } else if d == 6 {
        '6'
    } else if d == 7 {
        '7'
    } else if d == 8 {
        '8'
    } else {
        '9'
    }
}

/// The decimal digits of `n`, most significant first, without leading
/// zeros.
pub open spec fn decimal(n: nat) -> Seq<char>
    decreases n,
{
    if n < 10 {
        seq![digit_char(n)]
    } else {
        decimal(n / 10).push(digit_char(n % 10))
    }
}

fn digit(d: u32) -> (c: char)
    requires
        d < 10,
    ensures
        c == digit_char(d as nat),
{
    if d == 0 {
        '0'
    } else if d == 1 {
        '1'
    } else if d == 2 {
        '2'
    } else if d == 3 {
        '3'
    } else if d == 4 {
        '4'
    } else if d == 5 {
        '5'
    } else if d == 6 {
        '6'
    } else if d == 7 {
        '7'
    } else if d == 8 {
        '8'
    } else {
        '9'
    }
}

fn push_decimal(n: u32, out: &mut Vec<char>)
    ensures
        final(out)@ == old(out)@ + decimal(n as nat),
    decreases n,
{
    if n >= 10 {
        push_decimal(n / 10, out);
    }
    out.push(digit(n % 10));
    proof {
        if n < 10 {
            assert(n % 10 == n);
        }
    }
    assert(final(out)@ =~= old(out)@ + decimal(n as nat)) by {
        if n >= 10 {
            assert(old(out)@ + decimal(n as nat) =~= (old(out)@ + decimal((n / 10) as nat)).push(
                digit_char((n % 10) as nat),
            ));
        }
    }
}

/// The decimal text of `n`.
pub fn decimal_string(n: u32) -> (r: String)
    ensures
        r@ == decimal(n as nat),
{
    let mut c: Vec<char> = Vec::new();
    push_decimal(n, &mut c);
    assert(c@ =~= decimal(n as nat));
    string_of(c.as_slice())
}

proof fn lemma_read_digits_push(d: Seq<char>, c: char, acc: int, lo: int, hi: int)
    requires
        is_digit(c),
        0 <= lo <= 0 <= hi,
    ensures
        read_digits(d.push(c), acc, false, lo, hi) == match read_digits(d, acc, false, lo, hi) {
            Ok(v) => if v * 10 + digit_value(c) > hi {
                Err(NumberError::PosOverflow)
            } else if v * 10 + digit_value(c) < lo {
                Err(NumberError::NegOverflow)
            } else {
                Ok(v * 10 + digit_value(c))
            },
            Err(e) => Err(e),
        },
    decreases d.len(),
{
    let dc = d.push(c);
    if d.len() == 0 {
        assert(dc.drop_first() =~= Seq::<char>::empty());
        reveal_with_fuel(read_digits, 2);
    } else {
        assert(dc.drop_first() =~= d.drop_first().push(c));
        if is_digit(d[0]) {
            let v = acc * 10 + digit_value(d[0]);
            if lo <= v <= hi {
                lemma_read_digits_push(d.drop_first(), c, v, lo, hi);
            }
        }
    }
}

proof fn lemma_decimal_digits(n: nat)
    ensures
        decimal(n).len() >= 1,
        forall|i: int| 0 <= i < decimal(n).len() ==> is_digit(#[trigger] decimal(n)[i]),
    decreases n,
{
    if n >= 10 {
        lemma_decimal_digits(n / 10);
    }
}

/// Reading the decimal text of `n` back gives `n`.
pub proof fn lemma_decimal_reads_back(n: u32)
    ensures
        u32_of(decimal(n as nat)) == Ok::<u32, NumberError>(n),
{
    lemma_decimal_digits(n as nat);
    lemma_read_decimal(n as nat, u32::MAX as int);
    assert(is_digit(decimal(n as nat)[0]));
}

proof fn lemma_read_decimal(n: nat, hi: int)
    requires
        n <= hi,
    ensures
        read_digits(decimal(n), 0, false, 0, hi) == Ok::<int, NumberError>(n as int),
    decreases n,
{
    if n < 10 {
        let d = decimal(n);
        assert(d.drop_first() =~= Seq::<char>::empty());
        assert(digit_value(digit_char(n)) == n);
        reveal_with_fuel(read_digits, 2);
    } else {
        lemma_read_decimal(n / 10, hi);
        assert(digit_value(digit_char(n % 10)) == n % 10);
        lemma_read_digits_push(decimal(n / 10), digit_char(n % 10), 0, 0, hi);
    }
}

} // verus!
