//! Decimal text: rendering unsigned and signed integers, the `mm:ss.mmm`
//! rendering of a millisecond timestamp, and parsing of unsigned decimals.

use vstd::prelude::*;
use vstd::string::*;

verus! {

/// The character of a decimal digit.
pub open spec fn digit_char(d: nat) -> char
    recommends
        d < 10,
{
    (d + 48) as char
}

/// The decimal rendering of `n`, most significant digit first, without leading zeros.
pub open spec fn decimal(n: nat) -> Seq<char>
    decreases n,
{
    if n < 10 {
        seq![digit_char(n)]
    } else {
        decimal(n / 10).push(digit_char(n % 10))
    }
}

/// `s` left-padded with zeros to at least `width` characters.
pub open spec fn zero_pad(s: Seq<char>, width: nat) -> Seq<char> {
    if s.len() >= width {
        s
    } else {
        Seq::new((width - s.len()) as nat, |i: int| '0') + s
    }
}

/// The decimal rendering of a signed integer, with a leading `-` when it is negative.
pub open spec fn signed_decimal(n: int) -> Seq<char> {
    if n < 0 {
        seq!['-'] + decimal((-n) as nat)
    } else {
        decimal(n as nat)
    }
}

/// `ms` milliseconds as minutes, seconds and milliseconds: `mm:ss.mmm`, where the
/// minutes take more than two digits when there are more than 99 of them.
pub open spec fn time_text(ms: u32) -> Seq<char> {
    let seconds = ms / 1000;
    zero_pad(decimal((seconds / 60) as nat), 2) + seq![':'] + zero_pad(
        decimal((seconds % 60) as nat),
        2,
    ) + seq!['.'] + zero_pad(decimal((ms % 1000) as nat), 3)
}

pub open spec fn is_digit(c: char) -> bool {
    '0' <= c && c <= '9'
}

pub open spec fn all_digits(s: Seq<char>) -> bool {
    forall|i: int| 0 <= i < s.len() ==> is_digit(#[trigger] s[i])
}

/// The value of a string of decimal digits.
pub open spec fn digits_value(s: Seq<char>) -> nat
    decreases s.len(),
{
    if s.len() == 0 {
        0
    } else {
        digits_value(s.drop_last()) * 10 + ((s.last() as int - 48) as nat)
    }
}

/// What parsing a decimal `u32` accepts: an optional `+`, then one or more ASCII
/// digits whose value fits in a `u32`.
pub open spec fn parse_u32_spec(s: Seq<char>) -> Option<u32> {
    let d = if s.len() > 0 && s[0] == '+' {
        s.drop_first()
    } else {
        s
    };
    if d.len() > 0 && all_digits(d) && digits_value(d) <= u32::MAX {
        Some(digits_value(d) as u32)
    } else {
        None
    }
}

/// What parsing a decimal `i32` accepts: an optional `+` or `-`, then one or more
/// ASCII digits whose signed value fits in an `i32`.
pub open spec fn parse_i32_spec(s: Seq<char>) -> Option<i32> {
    if s.len() > 0 && s[0] == '-' {
        let d = s.drop_first();
        if d.len() > 0 && all_digits(d) && digits_value(d) <= 0x8000_0000 {
            Some((-digits_value(d)) as i32)
        } else {
            None
        }
    } else {
        let d = if s.len() > 0 && s[0] == '+' {
            s.drop_first()
        } else {
            s
        };
        if d.len() > 0 && all_digits(d) && digits_value(d) <= i32::MAX {
            Some(digits_value(d) as i32)
        } else {
            None
        }
    }
}

/// Appends `c` to `s`.
#[verifier::external_body]
pub(crate) fn push_char(s: &mut String, c: char)
    ensures
        final(s)@ == old(s)@.push(c),
{
    s.push(c);
}

proof fn lemma_decimal_len(n: nat)
    ensures
        decimal(n).len() >= 1,
        n < 10 <==> decimal(n).len() == 1,
        n < 100 <==> decimal(n).len() <= 2,
        n < 1000 <==> decimal(n).len() <= 3,
    decreases n,
{
    if n >= 10 {
        lemma_decimal_len(n / 10);
    }
}

fn digit_of(d: u64) -> (c: char)
    requires
        d < 10,
    ensures
        c == digit_char(d as nat),
{
    let b: u8 = 48u8 + (d as u8);
    b as char
}

/// Appends the decimal rendering of `n` to `s`.
fn push_decimal(s: &mut String, n: u64)
    ensures
        final(s)@ == old(s)@ + decimal(n as nat),
    decreases n,
{
    if n >= 10 {
        push_decimal(s, n / 10);
    }
    push_char(s, digit_of(n % 10));
    assert(n < 10 ==> decimal(n as nat) =~= seq![digit_char(n as nat)]);
}

spec fn pow10(k: nat) -> nat
    decreases k,
{
    if k == 0 {
        1
    } else {
        10 * pow10((k - 1) as nat)
    }
}

proof fn lemma_decimal_bound(n: nat, k: nat)
    requires
        k >= 1,
        n < pow10(k),
    ensures
        decimal(n).len() <= k,
    decreases k,
{
    if n >= 10 {
        assert(k >= 2) by {
            if k == 1 {
                assert(pow10(1) == 10 * pow10(0));
            }
        }
        assert(n / 10 < pow10((k - 1) as nat)) by (nonlinear_arith)
            requires
                n < pow10(k),
                pow10(k) == 10 * pow10((k - 1) as nat),
        ;
        lemma_decimal_bound(n / 10, (k - 1) as nat);
    }
}

/// The number of digits of `n` in decimal.
fn decimal_width(n: u32) -> (w: usize)
    ensures
        w == decimal(n as nat).len(),
        1 <= w <= 10,
{
    proof {
        reveal_with_fuel(pow10, 11);
        lemma_decimal_bound(n as nat, 10);
        lemma_decimal_len(n as nat);
    }
    let mut w: usize = 1;
    let mut m: u32 = n;
    while m >= 10
        invariant
            1 <= w <= 10,
            decimal(n as nat).len() == decimal(m as nat).len() + w - 1,
            decimal(n as nat).len() <= 10,
        decreases m,
    {
        proof {
            lemma_decimal_len(m as nat);
            lemma_decimal_len((m / 10) as nat);
        }
        m = m / 10;
        w = w + 1;
    }
    proof {
        lemma_decimal_len(m as nat);
    }
    w
}

/// Appends the decimal rendering of `n` to `s`, left-padded with zeros to `width`.
fn push_padded(s: &mut String, n: u32, width: usize)
    ensures
        final(s)@ == old(s)@ + zero_pad(decimal(n as nat), width as nat),
{
    let w = decimal_width(n);
    let ghost start = s@;
    if w < width {
        let pad = width - w;
        let mut i: usize = 0;
        while i < pad
            invariant
                i <= pad,
                s@ == start + Seq::new(i as nat, |k: int| '0'),
            decreases pad - i,
        {
            push_char(s, '0');
            i = i + 1;
            assert(s@ =~= start + Seq::new(i as nat, |k: int| '0'));
        }
    }
    push_decimal(s, n as u64);
    assert(s@ =~= start + zero_pad(decimal(n as nat), width as nat));
}

/// The decimal rendering of `n`.
pub fn u32_text(n: u32) -> (res: String)
    ensures
        res@ == decimal(n as nat),
{
    let mut s = String::new();
    push_decimal(&mut s, n as u64);
    assert(s@ =~= decimal(n as nat));
    s
}

/// The decimal rendering of `n`, with a leading `-` when it is negative.
pub fn i32_text(n: i32) -> (res: String)
    ensures
        res@ == signed_decimal(n as int),
{
    let mut s = String::new();
    if n < 0 {
        push_char(&mut s, '-');
        let m: u64 = (0i64 - (n as i64)) as u64;
        push_decimal(&mut s, m);
    } else {
        push_decimal(&mut s, n as u64);
    }
    assert(s@ =~= signed_decimal(n as int));
    s
}

/// Renders a timestamp in milliseconds as `mm:ss.mmm`.
pub fn format_time(ms: u32) -> (res: String)
    ensures
        res@ == time_text(ms),
{
    let seconds = ms / 1000;
    let minutes = seconds / 60;
    let remaining_seconds = seconds % 60;
    let remaining_ms = ms % 1000;
    let mut s = String::new();
    push_padded(&mut s, minutes as u32, 2);
    push_char(&mut s, ':');
    push_padded(&mut s, remaining_seconds as u32, 2);
    push_char(&mut s, '.');
    push_padded(&mut s, remaining_ms as u32, 3);
    assert(s@ =~= time_text(ms));
    s
}

proof fn lemma_digits_value_grows(s: Seq<char>, i: int)
    requires
        all_digits(s),
        0 <= i <= s.len(),
    ensures
        digits_value(s.take(i)) <= digits_value(s),
    decreases s.len(),
{
    if i < s.len() {
        assert(s.drop_last().take(i) =~= s.take(i));
        lemma_digits_value_grows(s.drop_last(), i);
    } else {
        assert(s.take(i) =~= s);
    }
}

/// Parses a decimal `u32`: an optional `+` and one or more ASCII digits, with no
/// other character; `None` when the text is not of that form or the value does
/// not fit in a `u32`.
pub fn parse_u32(text: &str) -> (res: Option<u32>)
    ensures
        res == parse_u32_spec(text@),
{
    let n = text.unicode_len();
    let mut start: usize = 0;
    if n > 0 && text.get_char(0) == '+' {
        start = 1;
    }
    let ghost s = text@;
    let ghost d = if s.len() > 0 && s[0] == '+' {
        s.drop_first()
    } else {
        s
    };
    assert(d =~= s.subrange(start as int, s.len() as int));
    if start >= n {
        return None;
    }
    let mut value: u64 = 0;
    let mut i: usize = start;
    while i < n
        invariant
            n == s.len(),
            s == text@,
            start <= i <= n,
            d == s.subrange(start as int, s.len() as int),
            d == (if s.len() > 0 && s[0] == '+' {
                s.drop_first()
            } else {
                s
            }),
            all_digits(d.take(i - start)),
            value == digits_value(d.take(i - start)),
            value <= u32::MAX,
        decreases n - i,
    {
        let c = text.get_char(i);
        if !('0' <= c && c <= '9') {
            assert(d[i - start] == c);
            assert(!is_digit(d[i - start]));
            assert(!all_digits(d));
            return None;
        }
        let dv: u64 = (c as u32 - 48) as u64;
        let ghost prev = d.take(i - start);
        assert(d.take(i + 1 - start).drop_last() =~= prev);
        assert(d.take(i + 1 - start).last() == c);
        value = value * 10 + dv;
        i = i + 1;
        assert(all_digits(d.take(i - start)));
        assert(value == digits_value(d.take(i - start)));
        if value > 0xFFFF_FFFFu64 {
            proof {
                if all_digits(d) {
                    lemma_digits_value_grows(d, i - start);
                    assert(digits_value(d) > u32::MAX);
                }
            }
            return None;
        }
    }
    assert(d.take(n - start) =~= d);
    Some(value as u32)
}

/// `t` comes before `u` in the order of strings: at the first position where
/// they differ the character of `t` is smaller, or `t` is a proper prefix of `u`.
pub open spec fn lex_less(t: Seq<char>, u: Seq<char>) -> bool
    decreases t.len(),
{
    if t.len() == 0 {
        u.len() > 0
    } else if u.len() == 0 {
        false
    } else if t[0] != u[0] {
        t[0] < u[0]
    } else {
        lex_less(t.drop_first(), u.drop_first())
    }
}

/// The milliseconds that a `mm:ss.mmm` text stands for: its minutes (all that
/// precedes the last seven characters), its two digits of seconds and its last
/// three digits.
pub open spec fn time_value(t: Seq<char>) -> int {
    let n = t.len() as int;
    (digits_value(t.take(n - 7)) * 60000 + digits_value(t.subrange(n - 6, n - 4)) * 1000
        + digits_value(t.subrange(n - 3, n))) as int
}

proof fn lemma_decimal_value(n: nat)
    ensures
        all_digits(decimal(n)),
        digits_value(decimal(n)) == n,
    decreases n,
{
    if n < 10 {
        assert(decimal(n).drop_last() =~= Seq::<char>::empty());
        assert(digit_char(n) as int == n + 48);
        assert(digits_value(decimal(n)) == digits_value(decimal(n).drop_last()) * 10 + ((decimal(n).last() as int - 48) as nat));
        assert(digits_value(Seq::<char>::empty()) == 0);
    }
    if n >= 10 {
        lemma_decimal_value(n / 10);
        let d = decimal(n);
        assert(d.drop_last() =~= decimal(n / 10));
        assert(d.last() == digit_char(n % 10));
        assert(digit_char(n % 10) as int == n % 10 + 48);
        assert(digits_value(d) == digits_value(d.drop_last()) * 10 + ((d.last() as int - 48) as nat));
        assert(n == (n / 10) * 10 + n % 10);
        assert forall|i: int| 0 <= i < d.len() implies is_digit(#[trigger] d[i]) by {
            if i < d.len() - 1 {
                assert(d[i] == decimal(n / 10)[i]);
            }
        }
    }
}

proof fn lemma_zeros_value(k: nat)
    ensures
        all_digits(Seq::new(k, |i: int| '0')),
        digits_value(Seq::new(k, |i: int| '0')) == 0,
    decreases k,
{
    if k > 0 {
        lemma_zeros_value((k - 1) as nat);
        assert(Seq::new(k, |i: int| '0').drop_last() =~= Seq::new((k - 1) as nat, |i: int| '0'));
    }
}

proof fn lemma_prefix_zeros_value(z: Seq<char>, s: Seq<char>)
    requires
        all_digits(z),
        digits_value(z) == 0,
        all_digits(s),
    ensures
        all_digits(z + s),
        digits_value(z + s) == digits_value(s),
    decreases s.len(),
{
    if s.len() == 0 {
        assert(z + s =~= z);
    } else {
        lemma_prefix_zeros_value(z, s.drop_last());
        assert((z + s).drop_last() =~= z + s.drop_last());
        assert((z + s).last() == s.last());
        assert forall|i: int| 0 <= i < (z + s).len() implies is_digit(#[trigger] (z + s)[i]) by {
            if i < z.len() {
                assert((z + s)[i] == z[i]);
            } else {
                assert((z + s)[i] == s[i - z.len()]);
            }
        }
    }
}

/// A padded decimal is all digits, of the value of the number.
proof fn lemma_padded_value(n: nat, width: nat)
    ensures
        all_digits(zero_pad(decimal(n), width)),
        digits_value(zero_pad(decimal(n), width)) == n,
        zero_pad(decimal(n), width).len() >= width,
        decimal(n).len() <= width ==> zero_pad(decimal(n), width).len() == width,
{
    lemma_decimal_value(n);
    let d = decimal(n);
    if d.len() < width {
        let k = (width - d.len()) as nat;
        lemma_zeros_value(k);
        lemma_prefix_zeros_value(Seq::new(k, |i: int| '0'), d);
    }
}

proof fn lemma_time_parts(ms: u32)
    ensures
        ({
            let seconds = ms / 1000;
            let m = zero_pad(decimal((seconds / 60) as nat), 2);
            let sec = zero_pad(decimal((seconds % 60) as nat), 2);
            let r = zero_pad(decimal((ms % 1000) as nat), 3);
            &&& time_text(ms) == m + seq![':'] + sec + seq!['.'] + r
            &&& m.len() >= 2 && sec.len() == 2 && r.len() == 3
            &&& all_digits(m) && all_digits(sec) && all_digits(r)
            &&& digits_value(m) == seconds / 60
            &&& digits_value(sec) == seconds % 60
            &&& digits_value(r) == ms % 1000
            &&& ms == (seconds / 60) * 60000 + (seconds % 60) * 1000 + ms % 1000
            &&& (ms < 6_000_000 ==> m.len() == 2)
        }),
{
    let seconds = ms / 1000;
    lemma_decimal_len((seconds / 60) as nat);
    lemma_decimal_len((seconds % 60) as nat);
    lemma_decimal_len((ms % 1000) as nat);
    lemma_padded_value((seconds / 60) as nat, 2);
    lemma_padded_value((seconds % 60) as nat, 2);
    lemma_padded_value((ms % 1000) as nat, 3);
}

/// A rendered timestamp reads back as the milliseconds it renders: `time_value`
/// of `time_text(ms)` is `ms`, the minutes take at least two digits, and the
/// text has `:` and `.` at their places and digits everywhere else.
pub proof fn time_text_reads_back(ms: u32)
    ensures
        time_text(ms).len() >= 9,
        time_value(time_text(ms)) == ms,
        time_text(ms)[time_text(ms).len() - 7] == ':',
        time_text(ms)[time_text(ms).len() - 4] == '.',
        all_digits(time_text(ms).take(time_text(ms).len() - 7)),
        all_digits(time_text(ms).subrange(time_text(ms).len() - 6, time_text(ms).len() - 4)),
        all_digits(time_text(ms).subrange(time_text(ms).len() - 3, time_text(ms).len() as int)),
{
    lemma_time_parts(ms);
    let seconds = ms / 1000;
    let m = zero_pad(decimal((seconds / 60) as nat), 2);
    let sec = zero_pad(decimal((seconds % 60) as nat), 2);
    let r = zero_pad(decimal((ms % 1000) as nat), 3);
    let t = time_text(ms);
    let n = t.len() as int;
    assert(t.take(n - 7) =~= m);
    assert(t.subrange(n - 6, n - 4) =~= sec);
    assert(t.subrange(n - 3, n) =~= r);
    assert(t[n - 7] == ':');
    assert(t[n - 4] == '.');
}

/// Distinct timestamps render as distinct texts.
pub proof fn time_text_injective(a: u32, b: u32)
    ensures
        time_text(a) == time_text(b) ==> a == b,
{
    time_text_reads_back(a);
    time_text_reads_back(b);
}

proof fn lemma_lex_concat(x1: Seq<char>, x2: Seq<char>, y1: Seq<char>, y2: Seq<char>)
    requires
        x1.len() == y1.len(),
    ensures
        lex_less(x1 + x2, y1 + y2) == (lex_less(x1, y1) || (x1 == y1 && lex_less(x2, y2))),
    decreases x1.len(),
{
    if x1.len() == 0 {
        assert(x1 + x2 =~= x2);
        assert(y1 + y2 =~= y2);
        assert(x1 =~= y1);
    } else {
        assert((x1 + x2)[0] == x1[0]);
        assert((y1 + y2)[0] == y1[0]);
        assert((x1 + x2).drop_first() =~= x1.drop_first() + x2);
        assert((y1 + y2).drop_first() =~= y1.drop_first() + y2);
        lemma_lex_concat(x1.drop_first(), x2, y1.drop_first(), y2);
        assert(x1 =~= seq![x1[0]] + x1.drop_first());
        assert(y1 =~= seq![y1[0]] + y1.drop_first());
        if x1 == y1 {
            assert(x1.drop_first() =~= y1.drop_first());
        }
    }
}

proof fn lemma_lex_total(x: Seq<char>, y: Seq<char>)
    requires
        x.len() == y.len(),
        x != y,
    ensures
        lex_less(x, y) || lex_less(y, x),
    decreases x.len(),
{
    if x.len() == 0 {
        assert(x =~= y);
    } else if x[0] == y[0] {
        assert(x =~= seq![x[0]] + x.drop_first());
        assert(y =~= seq![y[0]] + y.drop_first());
        lemma_lex_total(x.drop_first(), y.drop_first());
    }
}

/// Among digit strings of one length, the order of strings is that of their values.
proof fn lemma_lex_digits(x: Seq<char>, y: Seq<char>)
    requires
        x.len() == y.len(),
        all_digits(x),
        all_digits(y),
    ensures
        lex_less(x, y) == (digits_value(x) < digits_value(y)),
        x == y <==> digits_value(x) == digits_value(y),
    decreases x.len(),
{
    if x.len() == 0 {
        assert(x =~= y);
    } else {
        let xi = x.drop_last();
        let yi = y.drop_last();
        assert(all_digits(xi)) by {
            assert forall|i: int| 0 <= i < xi.len() implies is_digit(#[trigger] xi[i]) by {
                assert(xi[i] == x[i]);
            }
        }
        assert(all_digits(yi)) by {
            assert forall|i: int| 0 <= i < yi.len() implies is_digit(#[trigger] yi[i]) by {
                assert(yi[i] == y[i]);
            }
        }
        lemma_lex_digits(xi, yi);
        lemma_lex_digits(yi, xi);
        assert(x =~= xi + seq![x.last()]);
        assert(y =~= yi + seq![y.last()]);
        lemma_lex_concat(xi, seq![x.last()], yi, seq![y.last()]);
        assert(is_digit(x[x.len() - 1]));
        assert(is_digit(y[y.len() - 1]));
        let a = x.last() as int - 48;
        let b = y.last() as int - 48;
        assert(lex_less(seq![x.last()], seq![y.last()]) == (a < b)) by {
            assert(seq![x.last()].drop_first() =~= Seq::<char>::empty());
            assert(seq![y.last()].drop_first() =~= Seq::<char>::empty());
            assert(!lex_less(Seq::<char>::empty(), Seq::<char>::empty()));
        }
        if xi != yi {
            lemma_lex_total(xi, yi);
        }
        if x == y {
            assert(xi =~= yi);
        }
        if xi == yi && a == b {
            assert(x.last() == y.last());
            assert(x =~= y);
        }
    }
}

/// Timestamps under a hundred minutes render as nine characters, in the same
/// order as the timestamps.
pub proof fn time_text_ordered(a: u32, b: u32)
    requires
        a < 6_000_000,
        b < 6_000_000,
    ensures
        time_text(a).len() == 9,
        time_text(b).len() == 9,
        lex_less(time_text(a), time_text(b)) <==> a < b,
{
    lemma_time_parts(a);
    lemma_time_parts(b);
    let sa = a / 1000;
    let sb = b / 1000;
    let ma = zero_pad(decimal((sa / 60) as nat), 2);
    let mb = zero_pad(decimal((sb / 60) as nat), 2);
    let ca = zero_pad(decimal((sa % 60) as nat), 2);
    let cb = zero_pad(decimal((sb % 60) as nat), 2);
    let ra = zero_pad(decimal((a % 1000) as nat), 3);
    let rb = zero_pad(decimal((b % 1000) as nat), 3);
    let colon = seq![':'];
    let dot = seq!['.'];
    lemma_lex_digits(ma, mb);
    lemma_lex_digits(ca, cb);
    lemma_lex_digits(ra, rb);
    // peel the text from the right
    lemma_lex_concat(ma + colon + ca + dot, ra, mb + colon + cb + dot, rb);
    lemma_lex_concat(ma + colon + ca, dot, mb + colon + cb, dot);
    lemma_lex_concat(ma + colon, ca, mb + colon, cb);
    lemma_lex_concat(ma, colon, mb, colon);
    assert(!lex_less(dot, dot)) by {
        assert(dot.drop_first() =~= Seq::<char>::empty());
        assert(!lex_less(Seq::<char>::empty(), Seq::<char>::empty()));
    }
    assert(!lex_less(colon, colon)) by {
        assert(colon.drop_first() =~= Seq::<char>::empty());
        assert(!lex_less(Seq::<char>::empty(), Seq::<char>::empty()));
    }
    assert((ma + colon + ca + dot == mb + colon + cb + dot) <==> (ma == mb && ca == cb)) by {
        if ma + colon + ca + dot == mb + colon + cb + dot {
            assert(ma =~= (ma + colon + ca + dot).subrange(0, 2));
            assert(mb =~= (mb + colon + cb + dot).subrange(0, 2));
            assert(ca =~= (ma + colon + ca + dot).subrange(3, 5));
            assert(cb =~= (mb + colon + cb + dot).subrange(3, 5));
        }
    }
    assert((ma + colon + ca == mb + colon + cb) <==> (ma == mb && ca == cb)) by {
        if ma + colon + ca == mb + colon + cb {
            assert(ma =~= (ma + colon + ca).subrange(0, 2));
            assert(mb =~= (mb + colon + cb).subrange(0, 2));
            assert(ca =~= (ma + colon + ca).subrange(3, 5));
            assert(cb =~= (mb + colon + cb).subrange(3, 5));
        }
    }
    assert((ma + colon == mb + colon) <==> ma == mb) by {
        if ma + colon == mb + colon {
            assert(ma =~= (ma + colon).subrange(0, 2));
            assert(mb =~= (mb + colon).subrange(0, 2));
        }
    }
}

/// The decimal rendering of a `u32` parses back to it.
pub proof fn decimal_parses_back(n: u32)
    ensures
        parse_u32_spec(decimal(n as nat)) == Some(n),
{
    lemma_decimal_value(n as nat);
    lemma_decimal_len(n as nat);
    let d = decimal(n as nat);
    assert(is_digit(d[0]));
}

} // verus!
