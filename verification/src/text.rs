//! Character classification, number formatting and number parsing shared by
//! the compiler and the simulator.
use vstd::prelude::*;

verus! {

// ---------------------------------------------------------------------------
// Unicode classification (std's tables)
// ---------------------------------------------------------------------------

/// Whether `c` has the Unicode `White_Space` property: the 25 code points
/// U+0009..=U+000D, U+0020, U+0085, U+00A0, U+1680, U+2000..=U+200A,
/// U+2028, U+2029, U+202F, U+205F and U+3000.
pub open spec fn unicode_white_space(c: char) -> bool {
    let v = c as u32;
    (0x09 <= v <= 0x0D) || v == 0x20 || v == 0x85 || v == 0xA0 || v == 0x1680 || (0x2000 <= v
        <= 0x200A) || v == 0x2028 || v == 0x2029 || v == 0x202F || v == 0x205F || v == 0x3000
}

/// Whether `c` has the Unicode `Alphabetic` property, as std's tables say.
pub uninterp spec fn unicode_alphabetic(c: char) -> bool;

/// Whether `c` is in a Unicode numeric general category (Nd, Nl, No), as
/// std's tables say.
pub uninterp spec fn unicode_numeric(c: char) -> bool;

/// Calls `char::is_whitespace`, which is true exactly for the characters
/// with the `White_Space` property (`unicode_white_space`).
#[verifier::external_body]
pub fn is_whitespace(c: char) -> (r: bool)
    ensures
        r == unicode_white_space(c),
{
    c.is_whitespace()
}

/// Calls `char::is_alphabetic`; its result is named `unicode_alphabetic`.
#[verifier::external_body]
pub fn is_alphabetic(c: char) -> (r: bool)
    ensures
        r == unicode_alphabetic(c),
{
    c.is_alphabetic()
}

/// Calls `char::is_numeric`; its result is named `unicode_numeric`.
#[verifier::external_body]
pub fn is_numeric(c: char) -> (r: bool)
    ensures
        r == unicode_numeric(c),
{
    c.is_numeric()
}

/// The Unicode properties of one character that the lexer and the input
/// reader look at.  `char::is_alphanumeric` is documented as
/// `is_alphabetic() || is_numeric()`, so it needs no entry of its own.
#[derive(Clone, Copy, Debug, PartialEq, Eq)]
pub struct CharClass {
    pub whitespace: bool,
    pub alphabetic: bool,
    pub numeric: bool,
}

pub open spec fn class_of(c: char) -> CharClass {
    CharClass {
        whitespace: unicode_white_space(c),
        alphabetic: unicode_alphabetic(c),
        numeric: unicode_numeric(c),
    }
}

/// Classifies one character.
pub fn classify(c: char) -> (r: CharClass)
    ensures
        r == class_of(c),
{
    CharClass { whitespace: is_whitespace(c), alphabetic: is_alphabetic(c), numeric: is_numeric(c) }
}

/// Classifies every character of `cs`.
pub fn classify_all(cs: &Vec<char>) -> (r: Vec<CharClass>)
    ensures
        r@.len() == cs@.len(),
        forall|i: int| 0 <= i < cs@.len() ==> #[trigger] r@[i] == class_of(cs@[i]),
{
    let mut r: Vec<CharClass> = Vec::new();
    let mut i: usize = 0;
    while i < cs.len()
        invariant
            i <= cs@.len(),
            r@.len() == i,
            forall|j: int| 0 <= j < i ==> #[trigger] r@[j] == class_of(cs@[j]),
        decreases cs@.len() - i,
    {
        r.push(classify(cs[i]));
        i = i + 1;
    }
    r
}

// ---------------------------------------------------------------------------
// Conversions between `str`/`String` and `Vec<char>`
// ---------------------------------------------------------------------------

/// The characters of `s`, in order.
pub fn chars_of(s: &str) -> (r: Vec<char>)
    ensures
        r@ == s@,
{
    let mut r: Vec<char> = Vec::new();
    for c in it: s.chars()
        invariant
            it.seq() == s@,
            r@ == it.seq().take(it.index() as int),
        ensures
            r@ == s@,
    {
        assert(it.seq().take(it.index() + 1) == it.seq().take(it.index() as int).push(c));
        r.push(c);
    }
    r
}

/// Collects characters into a `String` (std's `FromIterator<char>`).
#[verifier::external_body]
pub fn string_of(cs: &Vec<char>) -> (r: String)
    ensures
        r@ == cs@,
{
    cs.iter().collect()
}

/// Appends the characters of `s` to `out`.
pub fn push_str(out: &mut Vec<char>, s: &str)
    ensures
        final(out)@ == old(out)@ + s@,
{
    let ghost start = out@;
    for c in it: s.chars()
        invariant
            it.seq() == s@,
            out@ == start + it.seq().take(it.index() as int),
        ensures
            out@ == start + s@,
    {
        assert(it.seq().take(it.index() + 1) == it.seq().take(it.index() as int).push(c));
        out.push(c);
    }
}

/// Appends the characters of `s` to `out`.
pub fn push_chars(out: &mut Vec<char>, s: &Vec<char>)
    ensures
        final(out)@ == old(out)@ + s@,
{
    let ghost start = out@;
    let mut i: usize = 0;
    while i < s.len()
        invariant
            i <= s@.len(),
            out@ == start + s@.take(i as int),
        decreases s@.len() - i,
    {
        assert(s@.take(i + 1) == s@.take(i as int).push(s@[i as int]));
        out.push(s[i]);
        i = i + 1;
    }
    assert(s@.take(s@.len() as int) == s@);
}

/// Whether the characters `cs` spell out `s`.
pub fn chars_eq_str(cs: &Vec<char>, s: &str) -> (r: bool)
    ensures
        r == (cs@ == s@),
{
    let t = chars_of(s);
    chars_eq(cs, &t)
}

/// Whether two character sequences are equal.
pub fn chars_eq(a: &Vec<char>, b: &Vec<char>) -> (r: bool)
    ensures
        r == (a@ == b@),
{
    if a.len() != b.len() {
        return false;
    }
    let mut i: usize = 0;
    while i < a.len()
        invariant
            a@.len() == b@.len(),
            i <= a@.len(),
            forall|j: int| 0 <= j < i ==> a@[j] == b@[j],
        decreases a@.len() - i,
    {
        if a[i] != b[i] {
            return false;
        }
        i = i + 1;
    }
    assert(a@ =~= b@);
    true
}

/// Whether `s` begins with `prefix`.
pub fn starts_with(s: &Vec<char>, prefix: &Vec<char>) -> (r: bool)
    ensures
        r == (prefix@.len() <= s@.len() && s@.take(prefix@.len() as int) == prefix@),
{
    if prefix.len() > s.len() {
        return false;
    }
    let mut i: usize = 0;
    while i < prefix.len()
        invariant
            prefix@.len() <= s@.len(),
            i <= prefix@.len(),
            forall|j: int| 0 <= j < i ==> s@[j] == prefix@[j],
        decreases prefix@.len() - i,
    {
        if s[i] != prefix[i] {
            assert(s@.take(prefix@.len() as int)[i as int] != prefix@[i as int]);
            return false;
        }
        i = i + 1;
    }
    assert(s@.take(prefix@.len() as int) =~= prefix@);
    true
}

/// `needle` occurs in `s` at index `i`.
pub open spec fn occurs_at(s: Seq<char>, needle: Seq<char>, i: int) -> bool {
    0 <= i && i + needle.len() <= s.len() && s.subrange(i, i + needle.len()) == needle
}

/// `needle` occurs somewhere in `s`.
pub open spec fn contains_seq(s: Seq<char>, needle: Seq<char>) -> bool {
    exists|i: int| occurs_at(s, needle, i)
}

/// Whether `needle` occurs in `s`.
pub fn contains(s: &Vec<char>, needle: &Vec<char>) -> (r: bool)
    ensures
        r == contains_seq(s@, needle@),
{
    if needle.len() > s.len() {
        assert forall|i: int| !occurs_at(s@, needle@, i) by {}
        return false;
    }
    let last = s.len() - needle.len();
    let mut i: usize = 0;
    loop
        invariant
            needle@.len() <= s@.len(),
            last == s@.len() - needle@.len(),
            i <= last,
            forall|k: int| 0 <= k < i ==> !occurs_at(s@, needle@, k),
        decreases last - i,
    {
        let mut j: usize = 0;
        let mut ok = true;
        while j < needle.len()
            invariant
                needle@.len() <= s@.len(),
                i + needle@.len() <= s@.len(),
                j <= needle@.len(),
                ok ==> forall|k: int| 0 <= k < j ==> s@[i + k] == needle@[k],
                !ok ==> !occurs_at(s@, needle@, i as int),
            decreases needle@.len() - j,
        {
            assert(j < needle@.len());
            assert(i + j < s.len());
            if s[i + j] != needle[j] {
                assert(s@.subrange(i as int, i + needle@.len())[j as int] != needle@[j as int]);
                ok = false;
            }
            j = j + 1;
        }
        if ok {
            assert(s@.subrange(i as int, i + needle@.len()) =~= needle@);
            assert(occurs_at(s@, needle@, i as int));
            return true;
        }
        if i == last {
            assert forall|k: int| !occurs_at(s@, needle@, k) by {
                if occurs_at(s@, needle@, k) {
                    assert(0 <= k <= i);
                }
            }
            return false;
        }
        i = i + 1;
    }
}

// ---------------------------------------------------------------------------
// Number formatting
// ---------------------------------------------------------------------------

/// The ASCII digit for a value below 16 (upper-case letters above 9).
pub open spec fn hex_char(d: int) -> char {
    if d < 10 {
        (('0' as int) + d) as char
    } else {
        (('A' as int) + d - 10) as char
    }
}

/// The decimal digits of `n`, most significant first, without leading zeros
/// ("0" for zero).
pub open spec fn dec_digits(n: nat) -> Seq<char>
    decreases n,
{
    if n < 10 {
        seq![hex_char(n as int)]
    } else {
        dec_digits(n / 10).push(hex_char((n % 10) as int))
    }
}

/// The upper-case hexadecimal digits of `n`, most significant first, without
/// leading zeros ("0" for zero).
pub open spec fn hex_digits(n: nat) -> Seq<char>
    decreases n,
{
    if n < 16 {
        seq![hex_char(n as int)]
    } else {
        hex_digits(n / 16).push(hex_char((n % 16) as int))
    }
}

/// The decimal text of a signed integer, as `{}` prints it.
pub open spec fn dec_text(n: int) -> Seq<char> {
    if n < 0 {
        seq!['-'] + dec_digits((-n) as nat)
    } else {
        dec_digits(n as nat)
    }
}

/// `s` padded on the left with '0' up to `width` characters.
pub open spec fn zero_pad(s: Seq<char>, width: nat) -> Seq<char> {
    if s.len() >= width {
        s
    } else {
        Seq::new((width - s.len()) as nat, |_i: int| '0') + s
    }
}

/// The upper-case hexadecimal text of `n` padded with zeros to `width`, as
/// `{:0width$X}` prints it.
pub open spec fn hex_text(n: nat, width: nat) -> Seq<char> {
    zero_pad(hex_digits(n), width)
}

fn digit_char(d: u64) -> (c: char)
    requires
        d < 16,
    ensures
        c == hex_char(d as int),
{
    let c = if d < 10 {
        (('0' as u8) + (d as u8)) as char
    } else {
        (('A' as u8) + (d as u8) - 10) as char
    };
    assert(c == hex_char(d as int)) by {
        assert(('0' as u8) == 48);
        assert(('A' as u8) == 65);
    }
    c
}

/// Appends the decimal digits of `n`.
pub fn push_dec_digits(out: &mut Vec<char>, n: u64)
    ensures
        final(out)@ == old(out)@ + dec_digits(n as nat),
    decreases n,
{
    if n < 10 {
        out.push(digit_char(n));
        assert(dec_digits(n as nat) == seq![hex_char(n as int)]);
    } else {
        push_dec_digits(out, n / 10);
        out.push(digit_char(n % 10));
    }
}

/// Appends the decimal text of `n`, as `{}` prints it.
pub fn push_dec_i64(out: &mut Vec<char>, n: i64)
    ensures
        final(out)@ == old(out)@ + dec_text(n as int),
{
    if n < 0 {
        out.push('-');
        let m: u64 = if n == i64::MIN {
            9223372036854775808u64
        } else {
            (-n) as u64
        };
        push_dec_digits(out, m);
    } else {
        push_dec_digits(out, n as u64);
    }
}

/// Appends the upper-case hexadecimal digits of `n`.
pub fn push_hex_digits(out: &mut Vec<char>, n: u64)
    ensures
        final(out)@ == old(out)@ + hex_digits(n as nat),
    decreases n,
{
    if n < 16 {
        out.push(digit_char(n));
    } else {
        push_hex_digits(out, n / 16);
        out.push(digit_char(n % 16));
    }
}

/// Appends `n` in upper-case hexadecimal padded with zeros to `width`.
pub fn push_hex(out: &mut Vec<char>, n: u64, width: usize)
    ensures
        final(out)@ == old(out)@ + hex_text(n as nat, width as nat),
{
    let ghost start = out@;
    let mut digits: Vec<char> = Vec::new();
    push_hex_digits(&mut digits, n);
    assert(digits@ == hex_digits(n as nat));
    let mut k: usize = digits.len();
    while k < width
        invariant
            k <= width || k == digits@.len(),
            digits@.len() <= k,
            out@ == start + Seq::new((k - digits@.len()) as nat, |_i: int| '0'),
        decreases width - k,
    {
        let ghost before = out@;
        out.push('0');
        assert(Seq::new((k + 1 - digits@.len()) as nat, |_i: int| '0') =~= Seq::new(
            (k - digits@.len()) as nat,
            |_i: int| '0',
        ).push('0'));
        k = k + 1;
    }
    push_chars(out, &digits);
    if digits.len() >= width {
        assert(Seq::new((k - digits@.len()) as nat, |_i: int| '0') =~= Seq::<char>::empty());
        assert(out@ =~= start + hex_text(n as nat, width as nat));
    } else {
        assert(k == width);
        assert(out@ =~= start + hex_text(n as nat, width as nat));
    }
}


/// The lower-case hexadecimal digits of `n`, most significant first,
/// without leading zeros ("0" for zero).
pub open spec fn lower_hex_digits(n: nat) -> Seq<char>
    decreases n,
{
    if n < 16 {
        seq![lower_hex_char(n as int)]
    } else {
        lower_hex_digits(n / 16).push(lower_hex_char((n % 16) as int))
    }
}

/// The ASCII digit for a value below 16 (lower-case letters above 9).
pub open spec fn lower_hex_char(d: int) -> char {
    if d < 10 {
        (('0' as int) + d) as char
    } else {
        (('a' as int) + d - 10) as char
    }
}

/// `s` padded on the left with `c` up to `width` characters.
pub open spec fn pad_with(s: Seq<char>, width: nat, c: char) -> Seq<char> {
    if s.len() >= width {
        s
    } else {
        Seq::new((width - s.len()) as nat, |_i: int| c) + s
    }
}

/// `s` padded on the right with spaces up to `width` characters.
pub open spec fn pad_right(s: Seq<char>, width: nat) -> Seq<char> {
    if s.len() >= width {
        s
    } else {
        s + Seq::new((width - s.len()) as nat, |_i: int| ' ')
    }
}

fn lower_digit_char(d: u64) -> (c: char)
    requires
        d < 16,
    ensures
        c == lower_hex_char(d as int),
{
    let c = if d < 10 {
        (('0' as u8) + (d as u8)) as char
    } else {
        (('a' as u8) + (d as u8) - 10) as char
    };
    assert(c == lower_hex_char(d as int)) by {
        assert(('0' as u8) == 48);
        assert(('a' as u8) == 97);
    }
    c
}

/// Appends the lower-case hexadecimal digits of `n`.
pub fn push_lower_hex_digits(out: &mut Vec<char>, n: u64)
    ensures
        final(out)@ == old(out)@ + lower_hex_digits(n as nat),
    decreases n,
{
    if n < 16 {
        out.push(lower_digit_char(n));
    } else {
        push_lower_hex_digits(out, n / 16);
        out.push(lower_digit_char(n % 16));
    }
}

/// Appends `t` padded with `c` on the left up to `width` characters.
pub fn push_padded_left(out: &mut Vec<char>, t: &Vec<char>, width: usize, c: char)
    ensures
        final(out)@ == old(out)@ + pad_with(t@, width as nat, c),
{
    let ghost start = out@;
    let mut k: usize = t.len();
    while k < width
        invariant
            t@.len() <= k,
            k <= width || k == t@.len(),
            out@ == start + Seq::new((k - t@.len()) as nat, |_i: int| c),
        decreases width - k,
    {
        out.push(c);
        k = k + 1;
        assert(out@ =~= start + Seq::new((k - t@.len()) as nat, |_i: int| c));
    }
    push_chars(out, t);
    if t.len() >= width {
        assert(Seq::new((k - t@.len()) as nat, |_i: int| c) =~= Seq::<char>::empty());
    }
    assert(out@ =~= start + pad_with(t@, width as nat, c));
}

/// Appends `t` padded with spaces on the right up to `width` characters.
pub fn push_padded_right(out: &mut Vec<char>, t: &Vec<char>, width: usize)
    ensures
        final(out)@ == old(out)@ + pad_right(t@, width as nat),
{
    let ghost start = out@;
    push_chars(out, t);
    let mut k: usize = t.len();
    while k < width
        invariant
            t@.len() <= k,
            k <= width || k == t@.len(),
            out@ == start + t@ + Seq::new((k - t@.len()) as nat, |_i: int| ' '),
        decreases width - k,
    {
        out.push(' ');
        k = k + 1;
        assert(out@ =~= start + t@ + Seq::new((k - t@.len()) as nat, |_i: int| ' '));
    }
    if t.len() >= width {
        assert(Seq::new((k - t@.len()) as nat, |_i: int| ' ') =~= Seq::<char>::empty());
    }
    assert(out@ =~= start + pad_right(t@, width as nat));
}

// ---------------------------------------------------------------------------
// Number parsing
// ---------------------------------------------------------------------------

/// The value of a digit character in base `radix` (2, 10 or 16), if it is
/// one.
pub open spec fn digit_in(c: char, radix: int) -> Option<int> {
    if '0' <= c && c <= '9' && (c as int) - ('0' as int) < radix {
        Some((c as int) - ('0' as int))
    } else if radix == 16 && 'a' <= c && c <= 'f' {
        Some((c as int) - ('a' as int) + 10)
    } else if radix == 16 && 'A' <= c && c <= 'F' {
        Some((c as int) - ('A' as int) + 10)
    } else {
        None
    }
}

/// Every character of `s` is a digit in base `radix`.
pub open spec fn all_digits(s: Seq<char>, radix: int) -> bool {
    forall|i: int| 0 <= i < s.len() ==> #[trigger] digit_in(s[i], radix) is Some
}

/// The value of a string of digits in base `radix`.
pub open spec fn digits_value(s: Seq<char>, radix: int) -> int
    decreases s.len(),
{
    if s.len() == 0 {
        0
    } else {
        digits_value(s.drop_last(), radix) * radix + digit_in(s.last(), radix).unwrap()
    }
}

/// What std's `i32::from_str_radix` (and `str::parse::<i32>` for radix 10)
/// gives for a string made only of digit candidates: the value when the
/// string is a non-empty run of digits whose value fits in `i32`, otherwise
/// nothing.
pub open spec fn parse_unsigned_i32(s: Seq<char>, radix: int) -> Option<i32> {
    if s.len() > 0 && all_digits(s, radix) && digits_value(s, radix) <= i32::MAX {
        Some(digits_value(s, radix) as i32)
    } else {
        None
    }
}

pub proof fn lemma_digits_value_nonneg(s: Seq<char>, radix: int)
    requires
        all_digits(s, radix),
        radix >= 2,
    ensures
        digits_value(s, radix) >= 0,
    decreases s.len(),
{
    if s.len() > 0 {
        assert(all_digits(s.drop_last(), radix)) by {
            assert forall|i: int| 0 <= i < s.drop_last().len() implies #[trigger] digit_in(
                s.drop_last()[i],
                radix,
            ) is Some by {
                assert(s.drop_last()[i] == s[i]);
            }
        }
        lemma_digits_value_nonneg(s.drop_last(), radix);
        assert(digit_in(s[s.len() - 1], radix) is Some);
        assert(digits_value(s.drop_last(), radix) * radix >= 0) by (nonlinear_arith)
            requires
                digits_value(s.drop_last(), radix) >= 0,
                radix >= 2,
        ;
    }
}

/// A longer run of digits is worth at least as much as its prefix.
pub proof fn lemma_digits_value_prefix(s: Seq<char>, k: int, radix: int)
    requires
        all_digits(s, radix),
        radix >= 2,
        0 <= k <= s.len(),
    ensures
        digits_value(s.take(k), radix) <= digits_value(s, radix),
    decreases s.len(),
{
    if k < s.len() {
        let t = s.drop_last();
        assert(all_digits(t, radix)) by {
            assert forall|i: int| 0 <= i < t.len() implies #[trigger] digit_in(t[i], radix) is Some by {
                assert(t[i] == s[i]);
            }
        }
        lemma_digits_value_prefix(t, k, radix);
        assert(t.take(k) =~= s.take(k));
        lemma_digits_value_nonneg(t, radix);
        assert(digit_in(s[s.len() - 1], radix) is Some);
        let a = digits_value(t, radix);
        assert(a <= a * radix) by (nonlinear_arith)
            requires
                a >= 0,
                radix >= 2,
        ;
    } else {
        assert(s.take(k) =~= s);
    }
}

/// The value of `c` as a digit in base `radix`, if it is one.
pub fn digit_of(c: char, radix: u32) -> (r: Option<u32>)
    requires
        radix == 2 || radix == 10 || radix == 16,
    ensures
        match r {
            Some(d) => digit_in(c, radix as int) == Some(d as int),
            None => digit_in(c, radix as int) is None,
        },
{
    if '0' <= c && c <= '9' && (c as u32) - ('0' as u32) < radix {
        Some((c as u32) - ('0' as u32))
    } else if radix == 16 && 'a' <= c && c <= 'f' {
        Some((c as u32) - ('a' as u32) + 10)
    } else if radix == 16 && 'A' <= c && c <= 'F' {
        Some((c as u32) - ('A' as u32) + 10)
    } else {
        None
    }
}

/// Parses `s[from..to]` as an unsigned number in base `radix`, giving `None`
/// where std's `i32::from_str_radix` fails (no digits, a non-digit, or a value
/// above `i32::MAX`).
pub fn parse_i32_digits(s: &Vec<char>, from: usize, to: usize, radix: u32) -> (r: Option<i32>)
    requires
        from <= to <= s@.len(),
        radix == 2 || radix == 10 || radix == 16,
    ensures
        r == parse_unsigned_i32(s@.subrange(from as int, to as int), radix as int),
{
    let ghost t = s@.subrange(from as int, to as int);
    if from == to {
        return None;
    }
    let mut acc: u64 = 0;
    let mut i: usize = from;
    while i < to
        invariant
            from <= i <= to <= s@.len(),
            radix == 2 || radix == 10 || radix == 16,
            t == s@.subrange(from as int, to as int),
            all_digits(t.take(i - from), radix as int),
            acc == digits_value(t.take(i - from), radix as int),
            acc <= i32::MAX,
        decreases to - i,
    {
        let ghost k = i - from;
        assert(t.take(k + 1).drop_last() =~= t.take(k));
        assert(t[k] == s@[i as int]);
        match digit_of(s[i], radix) {
            None => {
                assert(!all_digits(t, radix as int)) by {
                    assert(digit_in(t[k], radix as int) is None);
                }
                return None;
            },
            Some(d) => {
                assert(all_digits(t.take(k + 1), radix as int)) by {
                    assert forall|j: int| 0 <= j < k + 1 implies #[trigger] digit_in(
                        t.take(k + 1)[j],
                        radix as int,
                    ) is Some by {
                        if j < k {
                            assert(t.take(k + 1)[j] == t.take(k)[j]);
                        }
                    }
                }
                assert(digits_value(t.take(k + 1), radix as int) == acc * radix + d);
                assert(acc * radix <= (i32::MAX as u64) * 16) by (nonlinear_arith)
                    requires
                        acc <= i32::MAX,
                        radix <= 16,
                ;
                let next = acc * (radix as u64) + (d as u64);
                if next > i32::MAX as u64 {
                    proof {
                        if all_digits(t, radix as int) {
                            lemma_digits_value_prefix(t, k + 1, radix as int);
                        }
                    }
                    return None;
                }
                acc = next;
            },
        }
        i = i + 1;
    }
    assert(t.take(to - from) =~= t);
    Some(acc as i32)
}


/// What std's `str::parse::<u32>` gives: the value when the text is an
/// optional `+` followed by a non-empty run of decimal digits whose value
/// fits in `u32`, otherwise nothing.
pub open spec fn parse_u32_text(t: Seq<char>) -> Option<u32> {
    let d = if t.len() > 0 && t[0] == '+' {
        t.subrange(1, t.len() as int)
    } else {
        t
    };
    if d.len() > 0 && all_digits(d, 10) && digits_value(d, 10) <= u32::MAX {
        Some(digits_value(d, 10) as u32)
    } else {
        None
    }
}


/// Reading back the decimal digits of `n` gives `n`.
pub proof fn lemma_dec_digits_read_back(n: nat)
    ensures
        dec_digits(n).len() > 0,
        all_digits(dec_digits(n), 10),
        digits_value(dec_digits(n), 10) == n,
        dec_digits(n)[0] != '+',
    decreases n,
{
    let d = dec_digits(n);
    if n < 10 {
        assert(d == seq![hex_char(n as int)]);
        assert(d.drop_last() =~= Seq::<char>::empty());
        assert(digit_in(d[0], 10) == Some(n as int));
        assert(d.last() == d[0]);
        assert(digits_value(d, 10) == digits_value(d.drop_last(), 10) * 10 + digit_in(d.last(), 10)->0);
        assert(digits_value(Seq::<char>::empty(), 10) == 0);
    } else {
        lemma_dec_digits_read_back(n / 10);
        let p = dec_digits(n / 10);
        assert(d == p.push(hex_char((n % 10) as int)));
        assert(d.drop_last() =~= p);
        assert(digit_in(d.last(), 10) == Some((n % 10) as int));
        assert forall|i: int| 0 <= i < d.len() implies #[trigger] digit_in(d[i], 10) is Some by {
            if i < p.len() {
                assert(d[i] == p[i]);
            }
        }
        assert(d[0] == p[0]);
        assert(digits_value(d, 10) == digits_value(p, 10) * 10 + (n % 10) as int);
    }
}

/// `parse::<u32>` reads back what `{}` prints.
pub proof fn lemma_parse_u32_read_back(n: u32)
    ensures
        parse_u32_text(dec_digits(n as nat)) == Some(n),
{
    lemma_dec_digits_read_back(n as nat);
}

/// Parses `s[from..]` as `str::parse::<u32>` does.
pub fn parse_u32(s: &Vec<char>, from: usize) -> (r: Option<u32>)
    requires
        from <= s@.len(),
    ensures
        r == parse_u32_text(s@.subrange(from as int, s@.len() as int)),
{
    let ghost t = s@.subrange(from as int, s@.len() as int);
    let start = if from < s.len() && s[from] == '+' {
        from + 1
    } else {
        from
    };
    let ghost d = s@.subrange(start as int, s@.len() as int);
    assert(d =~= (if t.len() > 0 && t[0] == '+' {
        t.subrange(1, t.len() as int)
    } else {
        t
    }));
    if start == s.len() {
        return None;
    }
    let mut acc: u64 = 0;
    let mut i: usize = start;
    while i < s.len()
        invariant
            start <= i <= s@.len(),
            d == s@.subrange(start as int, s@.len() as int),
            d.len() > 0,
            t == s@.subrange(from as int, s@.len() as int),
            d == (if t.len() > 0 && t[0] == '+' {
                t.subrange(1, t.len() as int)
            } else {
                t
            }),
            all_digits(d.take(i - start), 10),
            acc == digits_value(d.take(i - start), 10),
            acc <= u32::MAX,
        decreases s@.len() - i,
    {
        let ghost k = i - start;
        assert(d.take(k + 1).drop_last() =~= d.take(k));
        assert(d[k] == s@[i as int]);
        match digit_of(s[i], 10) {
            None => {
                assert(!all_digits(d, 10)) by {
                    assert(digit_in(d[k], 10) is None);
                }
                return None;
            },
            Some(dg) => {
                assert(all_digits(d.take(k + 1), 10)) by {
                    assert forall|j: int| 0 <= j < k + 1 implies #[trigger] digit_in(
                        d.take(k + 1)[j],
                        10,
                    ) is Some by {
                        if j < k {
                            assert(d.take(k + 1)[j] == d.take(k)[j]);
                        }
                    }
                }
                assert(digits_value(d.take(k + 1), 10) == acc * 10 + dg);
                let next = acc * 10 + (dg as u64);
                if next > u32::MAX as u64 {
                    proof {
                        if all_digits(d, 10) {
                            lemma_digits_value_prefix(d, k + 1, 10);
                        }
                    }
                    return None;
                }
                acc = next;
            },
        }
        i = i + 1;
    }
    assert(d.take(s@.len() - start) =~= d);
    Some(acc as u32)
}

// ---------------------------------------------------------------------------
// `{:?}` of strings and characters (std's escaping rules)
// ---------------------------------------------------------------------------

/// The text that std's `Debug` gives for a string: the string in double
/// quotes with std's escapes.
pub uninterp spec fn str_debug(s: Seq<char>) -> Seq<char>;

/// The text that std's `Debug` gives for a character: the character in
/// single quotes with std's escapes.
pub uninterp spec fn char_debug(c: char) -> Seq<char>;

/// Formats a string with `{:?}`; its result is named `str_debug`.
#[verifier::external_body]
pub fn debug_str(s: &str) -> (r: String)
    ensures
        r@ == str_debug(s@),
{
    format!("{:?}", s)
}

/// Formats a character with `{:?}`; its result is named `char_debug`.
#[verifier::external_body]
pub fn debug_char(c: char) -> (r: String)
    ensures
        r@ == char_debug(c),
{
    format!("{:?}", c)
}

/// Appends the `{:?}` text of a string.
pub fn push_str_debug(out: &mut Vec<char>, s: &String)
    ensures
        final(out)@ == old(out)@ + str_debug(s@),
{
    let d = debug_str(s.as_str());
    push_str(out, d.as_str());
}

/// Appends the `{:?}` text of a character.
pub fn push_char_debug(out: &mut Vec<char>, c: char)
    ensures
        final(out)@ == old(out)@ + char_debug(c),
{
    let d = debug_char(c);
    push_str(out, d.as_str());
}

} // verus!
