//! The simulator's files: the input (a list of integers and quoted
//! characters, optionally in square brackets, separated by commas or ASCII
//! whitespace) and the report of the values written to the output port.
use vstd::prelude::*;

use crate::text::{
    all_digits, chars_of, dec_digits, dec_text, digit_in, lemma_dec_digits_read_back, digits_value, hex_digits, is_whitespace,
    lemma_digits_value_prefix, push_dec_i64, push_hex, push_str, string_of, unicode_white_space,
    zero_pad,
};

verus! {

/// `t` without its leading whitespace (Unicode `White_Space`).
pub open spec fn trim_start(t: Seq<char>) -> Seq<char>
    decreases t.len(),
{
    if t.len() > 0 && unicode_white_space(t[0]) {
        trim_start(t.subrange(1, t.len() as int))
    } else {
        t
    }
}

/// `t` without its trailing whitespace (Unicode `White_Space`).
pub open spec fn trim_end(t: Seq<char>) -> Seq<char>
    decreases t.len(),
{
    if t.len() > 0 && unicode_white_space(t.last()) {
        trim_end(t.drop_last())
    } else {
        t
    }
}

/// `str::trim`.
pub open spec fn trim(t: Seq<char>) -> Seq<char> {
    trim_end(trim_start(t))
}

/// The text between a leading '[' and a trailing ']', if it has both.
pub open spec fn unbracket(t: Seq<char>) -> Seq<char> {
    if t.len() >= 2 && t[0] == '[' && t.last() == ']' {
        t.subrange(1, t.len() - 1)
    } else {
        t
    }
}

/// A separator: ASCII whitespace or a comma.
pub open spec fn is_sep(c: char) -> bool {
    c == ' ' || c == '\t' || c == '\n' || c == '\x0C' || c == '\r' || c == ','
}

/// The first position from `p` on that is not a separator.
pub open spec fn skip_seps(t: Seq<char>, p: int) -> int
    decreases t.len() - p,
{
    if 0 <= p < t.len() && is_sep(t[p]) {
        skip_seps(t, p + 1)
    } else {
        p
    }
}

/// The first position from `p` on that is not an ASCII digit.
pub open spec fn digits_end(t: Seq<char>, p: int) -> int
    decreases t.len() - p,
{
    if 0 <= p < t.len() && '0' <= t[p] && t[p] <= '9' {
        digits_end(t, p + 1)
    } else {
        p
    }
}

pub proof fn lemma_skip_seps(t: Seq<char>, p: int)
    ensures
        skip_seps(t, p) >= p,
        p <= t.len() ==> skip_seps(t, p) <= t.len(),
    decreases t.len() - p,
{
    if 0 <= p < t.len() && is_sep(t[p]) {
        lemma_skip_seps(t, p + 1);
    }
}

pub proof fn lemma_digits_end(t: Seq<char>, p: int)
    ensures
        digits_end(t, p) >= p,
        p <= t.len() ==> digits_end(t, p) <= t.len(),
    decreases t.len() - p,
{
    if 0 <= p < t.len() && '0' <= t[p] && t[p] <= '9' {
        lemma_digits_end(t, p + 1);
    }
}

/// What `str::parse::<i32>` gives for an optional '-' followed by ASCII
/// digits.
pub open spec fn number_value(s: Seq<char>) -> Option<i32> {
    if s.len() > 0 && s[0] == '-' {
        let d = s.subrange(1, s.len() as int);
        if d.len() > 0 && all_digits(d, 10) && digits_value(d, 10) <= 0x8000_0000 {
            Some((-digits_value(d, 10)) as i32)
        } else {
            None
        }
    } else if s.len() > 0 && all_digits(s, 10) && digits_value(s, 10) <= i32::MAX {
        Some(digits_value(s, 10) as i32)
    } else {
        None
    }
}

/// The values read from position `p` on: a quoted character gives its code
/// (when the quote is closed), a number its value (when it parses); a
/// character that is neither a separator, a quote, '-' nor a digit stops the
/// reader for good (nothing).
pub open spec fn values_from(t: Seq<char>, p: int) -> Option<Seq<i32>>
    decreases t.len() - p,
{
    let q = skip_seps(t, p);
    proof {
        lemma_skip_seps(t, p);
    }
    if p < 0 || q >= t.len() {
        Some(Seq::empty())
    } else if t[q] == '\'' {
        let c = if q + 1 < t.len() {
            t[q + 1]
        } else {
            '\0'
        };
        let r = if q + 1 < t.len() {
            q + 2
        } else {
            t.len() as int
        };
        let closed = r < t.len() && t[r] == '\'';
        let s = if r < t.len() {
            r + 1
        } else {
            r
        };
        match values_from(t, s) {
            Some(rest) => Some(
                if closed {
                    seq![c as i32] + rest
                } else {
                    rest
                },
            ),
            None => None,
        }
    } else {
        let m = if t[q] == '-' {
            q + 1
        } else {
            q
        };
        let e = digits_end(t, m);
        proof {
            lemma_digits_end(t, m);
        }
        if e == q {
            None
        } else {
            match values_from(t, e) {
                Some(rest) => Some(
                    match number_value(t.subrange(q, e)) {
                        Some(n) => seq![n] + rest,
                        None => rest,
                    },
                ),
                None => None,
            }
        }
    }
}

/// The values of an input file: nothing where the reader would stop for
/// good (see `values_from`).
pub open spec fn input_values(t: Seq<char>) -> Option<Seq<i32>> {
    let u = trim(t);
    if u.len() == 0 {
        Some(Seq::empty())
    } else {
        values_from(unbracket(u), 0)
    }
}


// ---------------------------------------------------------------------------
// Written values read back
// ---------------------------------------------------------------------------

proof fn lemma_skip_seps_shift(a: Seq<char>, b: Seq<char>, p: int)
    requires
        0 <= p <= b.len(),
    ensures
        skip_seps(a + b, a.len() + p) == a.len() + skip_seps(b, p),
    decreases b.len() - p,
{
    if p < b.len() {
        assert((a + b)[a.len() + p] == b[p]);
        if is_sep(b[p]) {
            lemma_skip_seps_shift(a, b, p + 1);
        }
    }
}

proof fn lemma_digits_end_shift(a: Seq<char>, b: Seq<char>, p: int)
    requires
        0 <= p <= b.len(),
    ensures
        digits_end(a + b, a.len() + p) == a.len() + digits_end(b, p),
    decreases b.len() - p,
{
    if p < b.len() {
        assert((a + b)[a.len() + p] == b[p]);
        if '0' <= b[p] && b[p] <= '9' {
            lemma_digits_end_shift(a, b, p + 1);
        }
    }
}

/// What follows a prefix is read as if the prefix were not there.
proof fn lemma_values_shift(a: Seq<char>, b: Seq<char>, p: int)
    requires
        0 <= p <= b.len(),
    ensures
        values_from(a + b, a.len() + p) == values_from(b, p),
    decreases b.len() - p,
{
    let t = a + b;
    let n = a.len() as int;
    lemma_skip_seps_shift(a, b, p);
    lemma_skip_seps(b, p);
    let q = skip_seps(b, p);
    if q < b.len() {
        assert(t[n + q] == b[q]);
        if b[q] == '\'' {
            if q + 1 < b.len() {
                assert(t[n + q + 1] == b[q + 1]);
            }
            if q + 2 < b.len() {
                assert(t[n + q + 2] == b[q + 2]);
            }
            let r = if q + 1 < b.len() { q + 2 } else { b.len() as int };
            let s = if r < b.len() { r + 1 } else { r };
            lemma_values_shift(a, b, s);
        } else {
            let m = if b[q] == '-' { q + 1 } else { q };
            lemma_digits_end_shift(a, b, m);
            lemma_digits_end(b, m);
            let e = digits_end(b, m);
            assert(t.subrange(n + q, n + e) =~= b.subrange(q, e));
            if e != q {
                lemma_values_shift(a, b, e);
            }
        }
    }
}

/// The digits end where a run of ASCII digits ends.
proof fn lemma_digits_end_run(t: Seq<char>, m: int, e: int)
    requires
        0 <= m <= e <= t.len(),
        forall|i: int| m <= i < e ==> '0' <= #[trigger] t[i] && t[i] <= '9',
        e == t.len() || !('0' <= t[e] && t[e] <= '9'),
    ensures
        digits_end(t, m) == e,
    decreases e - m,
{
    if m < e {
        lemma_digits_end_run(t, m + 1, e);
    }
}

/// A value written in decimal reads back as itself.
proof fn lemma_number_text(v: i32)
    ensures
        number_value(dec_text(v as int)) == Some(v),
        dec_text(v as int).len() > 0,
        v < 0 ==> dec_text(v as int).len() > 1,
        dec_text(v as int)[0] == '-' || ('0' <= dec_text(v as int)[0] && dec_text(v as int)[0] <= '9'),
        forall|i: int| (if v < 0 { 1int } else { 0int }) <= i < dec_text(v as int).len() ==> '0' <= #[trigger] dec_text(v as int)[i] && dec_text(v as int)[i] <= '9',
{
    let n: nat = if v < 0 { (-(v as int)) as nat } else { v as nat };
    let d = dec_digits(n);
    lemma_dec_digits_read_back(n);
    assert(digit_in(d[0], 10) is Some);
    assert forall|i: int| 0 <= i < d.len() implies '0' <= #[trigger] d[i] && d[i] <= '9' by {
        assert(digit_in(d[i], 10) is Some);
    }
    if v < 0 {
        let s = seq!['-'] + d;
        assert(s.subrange(1, s.len() as int) =~= d);
        assert forall|i: int| 1 <= i < s.len() implies '0' <= #[trigger] s[i] && s[i] <= '9' by {
            assert(s[i] == d[i - 1]);
        }
    }
}

/// An item of an input file: a number, or a character in single quotes.
pub enum InputItem {
    Number(i32),
    Quoted(char),
}

/// The value an item stands for: the number, or the character's code.
pub open spec fn item_value(x: InputItem) -> i32 {
    match x {
        InputItem::Number(n) => n,
        InputItem::Quoted(c) => c as i32,
    }
}

/// An item as written: the number in decimal, or the character between
/// single quotes.
pub open spec fn item_text(x: InputItem) -> Seq<char> {
    match x {
        InputItem::Number(n) => dec_text(n as int),
        InputItem::Quoted(c) => seq!['\'', c, '\''],
    }
}

/// Whether every character of `s` is a separator.
pub open spec fn all_seps(s: Seq<char>) -> bool {
    forall|i: int| 0 <= i < s.len() ==> is_sep(#[trigger] s[i])
}

/// The items written in order, each followed by its separator text.
pub open spec fn items_text(xs: Seq<InputItem>, seps: Seq<Seq<char>>) -> Seq<char>
    decreases xs.len(),
{
    if xs.len() == 0 || seps.len() == 0 {
        Seq::empty()
    } else {
        item_text(xs[0]) + seps[0] + items_text(xs.drop_first(), seps.drop_first())
    }
}

/// One separator text per item, made of separators only, and not empty
/// between two items.
pub open spec fn well_separated(xs: Seq<InputItem>, seps: Seq<Seq<char>>) -> bool {
    &&& seps.len() == xs.len()
    &&& forall|i: int| 0 <= i < seps.len() ==> all_seps(#[trigger] seps[i])
    &&& forall|i: int| 0 <= i < seps.len() - 1 ==> (#[trigger] seps[i]).len() > 0
}

/// Separators at `p..p + n` are skipped as if the reader started after them.
proof fn lemma_values_skip(t: Seq<char>, p: int, n: int)
    requires
        0 <= p,
        0 <= n,
        p + n <= t.len(),
        forall|i: int| p <= i < p + n ==> is_sep(#[trigger] t[i]),
    ensures
        values_from(t, p) == values_from(t, p + n),
    decreases n,
{
    if n > 0 {
        lemma_values_skip(t, p + 1, n - 1);
        assert(skip_seps(t, p) == skip_seps(t, p + 1));
        assert(values_from(t, p) == values_from(t, p + 1));
    }
}

/// The written items read back as their values, in order.
proof fn lemma_items_read_back(xs: Seq<InputItem>, seps: Seq<Seq<char>>)
    requires
        well_separated(xs, seps),
    ensures
        values_from(items_text(xs, seps), 0) == Some(xs.map_values(|x: InputItem| item_value(x))),
    decreases xs.len(),
{
    let t = items_text(xs, seps);
    if xs.len() == 0 {
        lemma_skip_seps(t, 0);
        assert(xs.map_values(|x: InputItem| item_value(x)) =~= Seq::<i32>::empty());
    } else {
        let x = xs[0];
        let sep = seps[0];
        let it = item_text(x);
        let w = it + sep;
        let r = items_text(xs.drop_first(), seps.drop_first());
        let k = it.len() as int;
        assert(well_separated(xs.drop_first(), seps.drop_first())) by {
            assert forall|i: int| 0 <= i < seps.drop_first().len() implies all_seps(
                #[trigger] seps.drop_first()[i],
            ) by {
                assert(seps.drop_first()[i] == seps[i + 1]);
            }
            assert forall|i: int| 0 <= i < seps.drop_first().len() - 1 implies (
            #[trigger] seps.drop_first()[i]).len() > 0 by {
                assert(seps.drop_first()[i] == seps[i + 1]);
            }
        }
        lemma_items_read_back(xs.drop_first(), seps.drop_first());
        assert(t == w + r);
        assert(all_seps(sep));
        assert forall|i: int| k <= i < k + sep.len() implies is_sep(#[trigger] t[i]) by {
            assert(t[i] == sep[i - k]);
        }
        lemma_values_skip(t, k, sep.len() as int);
        lemma_values_shift(w, r, 0);
        if sep.len() == 0 {
            assert(xs.len() == 1);
            assert(r =~= Seq::<char>::empty());
        }
        match x {
            InputItem::Number(v) => {
                lemma_number_text(v);
                assert(t[0] == it[0]);
                assert(skip_seps(t, 0) == 0);
                let m = if v < 0 { 1int } else { 0int };
                assert forall|i: int| m <= i < k implies '0' <= #[trigger] t[i] && t[i] <= '9' by {
                    assert(t[i] == it[i]);
                }
                if k < t.len() {
                    assert(t[k] == sep[0]);
                }
                lemma_digits_end_run(t, m, k);
                assert(t.subrange(0, k) =~= it);
            },
            InputItem::Quoted(c) => {
                assert(t[0] == '\'' && t[1] == c && t[2] == '\'');
                assert(skip_seps(t, 0) == 0);
            },
        }
        assert(seq![item_value(x)] + r_values(xs) =~= xs.map_values(|x: InputItem| item_value(x)));
    }
}

/// The values of the items after the first.
spec fn r_values(xs: Seq<InputItem>) -> Seq<i32> {
    xs.drop_first().map_values(|x: InputItem| item_value(x))
}

/// An input file written as its items, each but the last followed by
/// commas or ASCII whitespace, with or without square brackets around,
/// reads back as the items' values in order.
pub proof fn lemma_input_reads_back(xs: Seq<InputItem>, seps: Seq<Seq<char>>, bracketed: bool)
    requires
        well_separated(xs, seps),
        xs.len() > 0 ==> seps.last().len() == 0,
    ensures
        input_values(
            if bracketed {
                seq!['['] + items_text(xs, seps) + seq![']']
            } else {
                items_text(xs, seps)
            },
        ) == Some(xs.map_values(|x: InputItem| item_value(x))),
{
    let u = items_text(xs, seps);
    let t = if bracketed { seq!['['] + u + seq![']'] } else { u };
    lemma_items_read_back(xs, seps);
    if xs.len() > 0 {
        lemma_items_text_ends(xs, seps);
    }
    if bracketed {
        assert(t[0] == '[');
        assert(t.last() == ']');
        assert(trim_start(t) == t);
        assert(trim_end(t) == t);
        assert(t.subrange(1, t.len() - 1) =~= u);
    } else if xs.len() > 0 {
        assert(trim_start(t) == t);
        assert(trim_end(t) == t);
    } else {
        assert(trim(t).len() == 0);
    }
}

/// A nonempty text of items whose last separator is empty starts with
/// its first item's first character and ends with its last item's last.
proof fn lemma_items_text_ends(xs: Seq<InputItem>, seps: Seq<Seq<char>>)
    requires
        well_separated(xs, seps),
        xs.len() > 0,
        seps.last().len() == 0,
    ensures
        items_text(xs, seps).len() > 0,
        items_text(xs, seps)[0] == '-' || items_text(xs, seps)[0] == '\'' || ('0' <= items_text(xs, seps)[0]
            && items_text(xs, seps)[0] <= '9'),
        items_text(xs, seps).last() == '\'' || ('0' <= items_text(xs, seps).last()
            && items_text(xs, seps).last() <= '9'),
    decreases xs.len(),
{
    let x = xs[0];
    let it = item_text(x);
    let w = it + seps[0];
    let r = items_text(xs.drop_first(), seps.drop_first());
    assert(items_text(xs, seps) == w + r);
    if let InputItem::Number(v) = x {
        lemma_number_text(v);
    }
    assert((w + r)[0] == it[0]);
    if xs.len() > 1 {
        assert(well_separated(xs.drop_first(), seps.drop_first())) by {
            assert forall|i: int| 0 <= i < seps.drop_first().len() implies all_seps(
                #[trigger] seps.drop_first()[i],
            ) by {
                assert(seps.drop_first()[i] == seps[i + 1]);
            }
            assert forall|i: int| 0 <= i < seps.drop_first().len() - 1 implies (
            #[trigger] seps.drop_first()[i]).len() > 0 by {
                assert(seps.drop_first()[i] == seps[i + 1]);
            }
        }
        assert(seps.drop_first().last() == seps.last());
        lemma_items_text_ends(xs.drop_first(), seps.drop_first());
        assert((w + r).last() == r.last());
    } else {
        assert(seps[0].len() == 0);
        assert(r =~= Seq::<char>::empty());
        assert(w + r =~= it);
    }
}

/// The value of the ASCII digits `u[from..to]`, when it is at most 2^31.
fn small_digits_value(u: &Vec<char>, from: usize, to: usize) -> (r: Option<u64>)
    requires
        from <= to <= u@.len(),
        forall|k: int| from <= k < to ==> '0' <= #[trigger] u@[k] && u@[k] <= '9',
    ensures
        all_digits(u@.subrange(from as int, to as int), 10),
        match r {
            Some(v) => v == digits_value(u@.subrange(from as int, to as int), 10) && v <= 0x8000_0000,
            None => digits_value(u@.subrange(from as int, to as int), 10) > 0x8000_0000,
        },
{
    let ghost d = u@.subrange(from as int, to as int);
    assert(all_digits(d, 10)) by {
        assert forall|j: int| 0 <= j < d.len() implies #[trigger] digit_in(d[j], 10) is Some by {
            assert(d[j] == u@[from + j]);
        }
    }
    let mut acc: u64 = 0;
    let mut i: usize = from;
    while i < to
        invariant
            from <= i <= to <= u@.len(),
            d == u@.subrange(from as int, to as int),
            all_digits(d, 10),
            forall|k: int| from <= k < to ==> '0' <= #[trigger] u@[k] && u@[k] <= '9',
            acc == digits_value(d.take(i - from), 10),
            acc <= 0x8000_0000,
        decreases to - i,
    {
        let ghost k = i - from;
        assert(d.take(k + 1).drop_last() =~= d.take(k));
        assert(d[k] == u@[i as int]);
        let dg = (u[i] as u32 - '0' as u32) as u64;
        assert(digit_in(d[k], 10) == Some(dg as int));
        assert(digits_value(d.take(k + 1), 10) == acc * 10 + dg);
        let next = acc * 10 + dg;
        if next > 0x8000_0000 {
            proof {
                lemma_digits_value_prefix(d, k + 1, 10);
            }
            return None;
        }
        acc = next;
        i = i + 1;
    }
    assert(d.take(to - from) =~= d);
    Some(acc)
}

fn is_sep_char(c: char) -> (r: bool)
    ensures
        r == is_sep(c),
{
    c == ' ' || c == '\t' || c == '\n' || c == '\x0C' || c == '\r' || c == ','
}

/// The value of `u[q..e]`: an optional '-' and ASCII digits (see
/// `number_value`).
fn number_at(u: &Vec<char>, q: usize, m: usize, e: usize) -> (r: Option<i32>)
    requires
        q <= m <= e <= u@.len(),
        m == (if q < u@.len() && u@[q as int] == '-' {
            q + 1
        } else {
            q as int
        }),
        forall|k: int| m <= k < e ==> '0' <= #[trigger] u@[k] && u@[k] <= '9',
    ensures
        r == number_value(u@.subrange(q as int, e as int)),
{
    let ghost s = u@.subrange(q as int, e as int);
    if m == e {
        proof {
            if s.len() > 0 && s[0] == '-' {
                assert(s.subrange(1, s.len() as int).len() == 0);
            } else {
                assert(s.len() == 0);
            }
        }
        return None;
    }
    let v = small_digits_value(u, m, e);
    if m > q {
        assert(s.subrange(1, s.len() as int) =~= u@.subrange(m as int, e as int));
        match v {
            Some(x) => Some((-(x as i64)) as i32),
            None => None,
        }
    } else {
        assert(s =~= u@.subrange(m as int, e as int));
        assert(s[0] != '-');
        match v {
            Some(x) => {
                if x > i32::MAX as u64 {
                    None
                } else {
                    Some(x as i32)
                }
            },
            None => None,
        }
    }
}

/// Reads the values of an input file (see `input_values`); nothing where
/// the reader would stop for good.
pub fn parse_input(input: &str) -> (r: Option<Vec<i32>>)
    ensures
        match input_values(input@) {
            Some(v) => r matches Some(x) && x@ == v,
            None => r is None,
        },
{
    let t = chars_of(input);
    let mut a: usize = 0;
    assert(t@.subrange(0, t@.len() as int) =~= t@);
    while a < t.len() && is_whitespace(t[a])
        invariant
            a <= t@.len(),
            trim_start(t@) == trim_start(t@.subrange(a as int, t@.len() as int)),
        decreases t@.len() - a,
    {
        assert(t@.subrange(a as int, t@.len() as int).subrange(1, t@.len() - a) =~= t@.subrange(
            a + 1,
            t@.len() as int,
        ));
        a = a + 1;
    }
    let mut b: usize = t.len();
    while b > a && is_whitespace(t[b - 1])
        invariant
            a <= b <= t@.len(),
            trim(t@) == trim_end(t@.subrange(a as int, b as int)),
        decreases b,
    {
        assert(t@.subrange(a as int, b as int).drop_last() =~= t@.subrange(a as int, b - 1));
        b = b - 1;
    }
    let ghost w = t@.subrange(a as int, b as int);
    assert(trim(t@) == w) by {
        if w.len() > 0 {
            assert(w.last() == t@[b - 1]);
        }
        if a < t@.len() {
            assert(t@.subrange(a as int, t@.len() as int)[0] == t@[a as int]);
        }
    }
    if a == b {
        return Some(Vec::new());
    }
    let (lo, hi) = if b - a >= 2 && t[a] == '[' && t[b - 1] == ']' {
        (a + 1, b - 1)
    } else {
        (a, b)
    };
    let mut u: Vec<char> = Vec::new();
    let mut k: usize = lo;
    while k < hi
        invariant
            lo <= k <= hi <= t@.len(),
            u@ == t@.subrange(lo as int, k as int),
        decreases hi - k,
    {
        u.push(t[k]);
        k = k + 1;
        assert(u@ =~= t@.subrange(lo as int, k as int));
    }
    assert(u@ == unbracket(w)) by {
        assert(w[0] == t@[a as int]);
        assert(w.last() == t@[b - 1]);
        if b - a >= 2 && t@[a as int] == '[' && t@[b - 1] == ']' {
            assert(u@ =~= w.subrange(1, w.len() - 1));
        } else {
            assert(u@ =~= w);
        }
    }
    let mut out: Vec<i32> = Vec::new();
    let mut p: usize = 0;
    assert(out@ + Seq::<i32>::empty() =~= out@);
    assert(input_values(input@) == values_from(u@, 0));
    while p < u.len()
        invariant
            p <= u@.len(),
            input_values(input@) == values_from(u@, 0),
            values_from(u@, 0) == match values_from(u@, p as int) {
                Some(rest) => Some(out@ + rest),
                None => None,
            },
        decreases u@.len() - p,
    {
        let mut q = p;
        while q < u.len() && is_sep_char(u[q])
            invariant
                p <= q <= u@.len(),
                skip_seps(u@, p as int) == skip_seps(u@, q as int),
            decreases u@.len() - q,
        {
            q = q + 1;
        }
        if q >= u.len() {
            assert(values_from(u@, p as int) == Some(Seq::<i32>::empty()));
            assert(out@ + Seq::<i32>::empty() =~= out@);
            assert(values_from(u@, q as int) == Some(Seq::<i32>::empty()));
            p = q;
        } else if u[q] == '\'' {
            let c = if q + 1 < u.len() {
                u[q + 1]
            } else {
                '\0'
            };
            let r = if q + 1 < u.len() {
                q + 2
            } else {
                u.len()
            };
            let closed = r < u.len() && u[r] == '\'';
            let s = if r < u.len() {
                r + 1
            } else {
                r
            };
            let ghost before = out@;
            if closed {
                out.push(c as i32);
            }
            assert forall|rest: Seq<i32>| #![auto] before + (if closed {
                seq![c as i32] + rest
            } else {
                rest
            }) =~= out@ + rest by {}
            p = s;
        } else {
            let m = if u[q] == '-' {
                q + 1
            } else {
                q
            };
            let mut e = m;
            while e < u.len() && '0' <= u[e] && u[e] <= '9'
                invariant
                    m <= e <= u@.len(),
                    digits_end(u@, m as int) == digits_end(u@, e as int),
                    forall|k: int| m <= k < e ==> '0' <= #[trigger] u@[k] && u@[k] <= '9',
                decreases u@.len() - e,
            {
                e = e + 1;
            }
            if e == q {
                assert(values_from(u@, p as int) is None);
                return None;
            }
            let v = number_at(&u, q, m, e);
            let ghost before = out@;
            match v {
                Some(n) => {
                    out.push(n);
                },
                None => {},
            }
            assert forall|rest: Seq<i32>| #![auto] before + (match v {
                Some(n) => seq![n] + rest,
                None => rest,
            }) =~= out@ + rest by {}
            p = e;
        }
    }
    assert(values_from(u@, p as int) == Some(Seq::<i32>::empty()));
    assert(out@ + Seq::<i32>::empty() =~= out@);
    Some(out)
}


/// A Unicode scalar value: at most 0x10FFFF and not a surrogate.
pub open spec fn valid_char(v: u32) -> bool {
    v <= 0x10FFFF && !(0xD800 <= v <= 0xDFFF)
}

/// `char::from_u32`: the character with code `v`, if `v` is a Unicode
/// scalar value (its documentation: `None` above 0x10FFFF and for the
/// surrogates 0xD800..=0xDFFF).
#[verifier::external_body]
fn char_from_u32(v: u32) -> (r: Option<char>)
    ensures
        r == (if valid_char(v) {
            Some(v as char)
        } else {
            None::<char>
        }),
{
    char::from_u32(v)
}

/// How the report shows the character of an output value: printable ASCII
/// and space as themselves, other whitespace as one marker, other
/// characters by their code point, and 0 or a non-character as invalid.
pub open spec fn repr_text(val: i32) -> Seq<char> {
    let u = val as u32;
    let ch = if valid_char(u) {
        u as char
    } else {
        '\0'
    };
    if ('!' <= ch && ch <= '~') || ch == ' ' {
        seq![ch]
    } else if unicode_white_space(ch) {
        "<space/\\n/\\t>"@
    } else if ch != '\0' {
        "<U+"@ + zero_pad(hex_digits(u as nat), 4) + ">"@
    } else {
        "<invalid>"@
    }
}

/// How an output value is shown as a character: a printable ASCII
/// character or the space as itself; the ASCII control characters tab,
/// newline, vertical tab, form feed and carriage return as
/// `<space/\n/\t>`, as every other white-space character past ASCII; the
/// other control characters and characters past ASCII by their code,
/// `<U+XXXX>`; zero, negative values, values
/// past 0x10FFFF and surrogate codes as `<invalid>`.
pub proof fn lemma_value_repr(v: i32)
    ensures
        32 <= v <= 126 ==> repr_text(v).len() == 1 && repr_text(v)[0] as int == v,
        9 <= v <= 13 ==> repr_text(v) == "<space/\\n/\\t>"@,
        (1 <= v <= 8 || 14 <= v <= 31 || (127 <= v <= 0x10FFFF && !(0xD800 <= v <= 0xDFFF)
            && !unicode_white_space((v as u32) as char))) ==> repr_text(v) == "<U+"@ + zero_pad(
            hex_digits(v as nat),
            4,
        ) + ">"@,
        (127 <= v <= 0x10FFFF && !(0xD800 <= v <= 0xDFFF) && unicode_white_space((v as u32) as char))
            ==> repr_text(v)
            == "<space/\\n/\\t>"@,
        (v <= 0 || v > 0x10FFFF || 0xD800 <= v <= 0xDFFF) ==> repr_text(v) == "<invalid>"@,
{
    let u = v as u32;
    assert(v < 0 ==> (v as u32) >= 0x80000000u32) by (bit_vector);
    assert(v >= 0 ==> (v as u32) as int == v as int) by (bit_vector);
    if v == 0 {
        assert(valid_char(u));
        assert((u as char) == '\0');
    }
    if 0 < v && v <= 0x10FFFF && !(0xD800 <= v <= 0xDFFF) {
        assert(valid_char(u));
        assert((u as char) as int == v);
    }
}

/// The three report lines of an output value: decimal, hexadecimal, and the
/// character.
pub open spec fn value_report(val: i32) -> Seq<char> {
    dec_text(val as int) + "\n0x"@ + zero_pad(hex_digits((val as u32) as nat), 8) + "\n"@ + repr_text(
        val,
    )
}

/// The report of the output values, one block of lines per value.
pub open spec fn output_report(vals: Seq<i32>) -> Seq<char>
    decreases vals.len(),
{
    if vals.len() == 0 {
        Seq::empty()
    } else if vals.len() == 1 {
        value_report(vals[0])
    } else {
        output_report(vals.drop_last()) + "\n"@ + value_report(vals.last())
    }
}

fn push_value_report(out: &mut Vec<char>, val: i32)
    ensures
        final(out)@ == old(out)@ + value_report(val),
{
    let ghost start = out@;
    push_dec_i64(out, val as i64);
    push_str(out, "\n0x");
    push_hex(out, (val as u32) as u64, 8);
    push_str(out, "\n");
    let u = val as u32;
    let ch = match char_from_u32(u) {
        Some(c) => c,
        None => '\0',
    };
    if ('!' <= ch && ch <= '~') || ch == ' ' {
        out.push(ch);
    } else if is_whitespace(ch) {
        push_str(out, "<space/\\n/\\t>");
    } else if ch != '\0' {
        push_str(out, "<U+");
        push_hex(out, u as u64, 4);
        push_str(out, ">");
    } else {
        push_str(out, "<invalid>");
    }
    assert(out@ =~= start + value_report(val));
}

/// The report of the values written to the output port (see
/// `output_report`).
pub fn output_text(output: &[i32]) -> (r: String)
    ensures
        r@ == output_report(output@),
{
    let mut out: Vec<char> = Vec::new();
    let mut i: usize = 0;
    while i < output.len()
        invariant
            i <= output@.len(),
            out@ == output_report(output@.take(i as int)),
        decreases output@.len() - i,
    {
        assert(output@.take(i + 1).drop_last() =~= output@.take(i as int));
        if i > 0 {
            push_str(&mut out, "\n");
        }
        push_value_report(&mut out, output[i]);
        if i == 0 {
            assert(out@ =~= output_report(output@.take(1)));
        } else {
            assert(out@ =~= output_report(output@.take(i + 1)));
        }
        i = i + 1;
    }
    assert(output@.take(i as int) =~= output@);
    string_of(&out)
}

} // verus!
