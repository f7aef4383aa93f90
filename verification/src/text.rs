//! Text as sequences of characters: blank names, decimal fields, and the
//! order in which strings are compared.

use vstd::prelude::*;
use vstd::string::*;

verus! {

/// The characters with the Unicode property `White_Space`, by code point.
pub open spec fn is_white_space(c: char) -> bool {
    let p = c as u32;
    ||| 0x09 <= p <= 0x0D
    ||| p == 0x20
    ||| p == 0x85
    ||| p == 0xA0
    ||| p == 0x1680
    ||| 0x2000 <= p <= 0x200A
    ||| p == 0x2028
    ||| p == 0x2029
    ||| p == 0x202F
    ||| p == 0x205F
    ||| p == 0x3000
}

/// A text is blank when it is empty or made of white space alone.
pub open spec fn is_blank(s: Seq<char>) -> bool {
    forall|i: int| 0 <= i < s.len() ==> is_white_space(#[trigger] s[i])
}

/// Whether `c` is white space.
pub fn white_space(c: char) -> (b: bool)
    ensures
        b == is_white_space(c),
{
    let p: u32 = c as u32;
    (0x09 <= p && p <= 0x0D) || p == 0x20 || p == 0x85 || p == 0xA0 || p == 0x1680 || (0x2000 <= p
        && p <= 0x200A) || p == 0x2028 || p == 0x2029 || p == 0x202F || p == 0x205F || p == 0x3000
}

/// Whether `s` is blank: whether trimming it would leave nothing.
pub fn blank(s: &str) -> (b: bool)
    ensures
        b == is_blank(s@),
{
    let n: usize = s.unicode_len();
    let mut i: usize = 0;
    while i < n
        invariant
            n == s@.len(),
            i <= n,
            forall|k: int| 0 <= k < i ==> is_white_space(#[trigger] s@[k]),
        decreases n - i,
    {
        if !white_space(s.get_char(i)) {
            return false;
        }
        i += 1;
    }
    true
}

/// The character that writes the digit `d`.
pub open spec fn digit_char(d: int) -> char {
    if d == 0 {
        '0'
    } else if d == 1 {
        '1'
    } else if d == 2 {
        '2'
    } else if d == 3 {
        '3'
    } else if d == 4 {
        '4'
    } else if d == 5 {
        '5'
    } else if d == 6 {
        '6'
    } else if d == 7 {
        '7'
    } else if d == 8 {
        '8'
    } else {
        '9'
    }
}

/// `n` in decimal, without leading zeros.
pub open spec fn decimal(n: nat) -> Seq<char>
    decreases n,
{
    if n < 10 {
        seq![digit_char(n as int)]
    } else {
        decimal(n / 10).push(digit_char((n % 10) as int))
    }
}

/// `n` in decimal, with zeros in front until it has `width` characters;
/// a number that needs more is written in full.
pub open spec fn zero_padded(n: nat, width: nat) -> Seq<char> {
    let digits = decimal(n);
    if digits.len() >= width {
        digits
    } else {
        Seq::new((width - digits.len()) as nat, |i: int| '0') + digits
    }
}

fn digit_text(d: u64) -> (s: &'static str)
    requires
        d < 10,
    ensures
        s@ == seq![digit_char(d as int)],
{
    proof {
        reveal_strlit("0");
        reveal_strlit("1");
        reveal_strlit("2");
        reveal_strlit("3");
        reveal_strlit("4");
        reveal_strlit("5");
        reveal_strlit("6");
        reveal_strlit("7");
        reveal_strlit("8");
        reveal_strlit("9");
    }
    let s = if d == 0 {
        "0"
    } else if d == 1 {
        "1"
    } else if d == 2 {
        "2"
    } else if d == 3 {
        "3"
    } else if d == 4 {
        "4"
    } else if d == 5 {
        "5"
    } else if d == 6 {
        "6"
    } else if d == 7 {
        "7"
    } else if d == 8 {
        "8"
    } else {
        "9"
    };
    assert(s@ =~= seq![digit_char(d as int)]);
    s
}

/// Appends `n` in decimal.
pub fn push_decimal(out: &mut String, n: u64)
    ensures
        final(out)@ == old(out)@ + decimal(n as nat),
    decreases n,
{
    if n >= 10 {
        push_decimal(out, n / 10);
    }
    out.append(digit_text(n % 10));
    assert(out@ =~= old(out)@ + decimal(n as nat));
}

/// The number of digits of `n`.
pub fn decimal_width(n: u64) -> (w: usize)
    ensures
        w == decimal(n as nat).len(),
        1 <= w <= 20,
{
    let mut w: usize = 1;
    let mut rest: u64 = n;
    assert(pow10(0) == 1);
    assert(rest * pow10(0) == n) by (nonlinear_arith)
        requires
            rest == n,
            pow10(0) == 1,
    ;
    while rest >= 10
        invariant
            1 <= w,
            w + decimal(rest as nat).len() == decimal(n as nat).len() + 1,
            rest * pow10((w - 1) as nat) <= n,
            w <= 20,
        decreases rest,
    {
        proof {
            lemma_pow10_step(w as nat);
            assert((rest / 10) * 10 <= rest);
            assert((rest / 10) * pow10(w as nat) <= rest * pow10((w - 1) as nat)) by (nonlinear_arith)
                requires
                    (rest / 10) * 10 <= rest,
                    pow10(w as nat) == 10 * pow10((w - 1) as nat),
                    pow10((w - 1) as nat) >= 1,
            ;
            if w == 20 {
                lemma_pow10_20();
                assert(false) by (nonlinear_arith)
                    requires
                        (rest / 10) * pow10(20) <= n,
                        rest / 10 >= 1,
                        pow10(20) > n,
                ;
            }
        }
        rest = rest / 10;
        w += 1;
    }
    w
}

/// Ten to the power `e`.
pub open spec fn pow10(e: nat) -> nat
    decreases e,
{
    if e == 0 {
        1
    } else {
        10 * pow10((e - 1) as nat)
    }
}

proof fn lemma_pow10_step(e: nat)
    requires
        e >= 1,
    ensures
        pow10(e) == 10 * pow10((e - 1) as nat),
        pow10((e - 1) as nat) >= 1,
    decreases e,
{
    if e > 1 {
        lemma_pow10_step((e - 1) as nat);
    }
}

proof fn lemma_pow10_20()
    ensures
        pow10(20) > u64::MAX,
{
    reveal_with_fuel(pow10, 21);
}

/// Appends `n` in decimal, zero-padded to `width` characters.
pub fn push_zero_padded(out: &mut String, n: u64, width: usize)
    ensures
        final(out)@ == old(out)@ + zero_padded(n as nat, width as nat),
{
    let digits: usize = decimal_width(n);
    let mut k: usize = digits;
    while k < width
        invariant
            digits <= k,
            digits == decimal(n as nat).len(),
            digits >= width ==> k == digits,
            digits < width ==> k <= width,
            out@ == old(out)@ + Seq::new((k - digits) as nat, |i: int| '0'),
        decreases width - k,
    {
        proof {
            reveal_strlit("0");
        }
        out.append("0");
        k += 1;
        assert(out@ =~= old(out)@ + Seq::new((k - digits) as nat, |i: int| '0'));
    }
    push_decimal(out, n);
    assert(out@ =~= old(out)@ + zero_padded(n as nat, width as nat));
}

/// The order of strings: at the first place where two texts differ, the one
/// with the smaller character comes first; a text comes before every longer
/// text that it begins.
pub open spec fn lex_lt(a: Seq<char>, b: Seq<char>) -> bool
    decreases a.len(),
{
    if b.len() == 0 {
        false
    } else if a.len() == 0 {
        true
    } else if a[0] != b[0] {
        (a[0] as int) < (b[0] as int)
    } else {
        lex_lt(a.drop_first(), b.drop_first())
    }
}

/// Whether `a` comes before `b` in the order of strings.
pub fn comes_before(a: &str, b: &str) -> (r: bool)
    ensures
        r == lex_lt(a@, b@),
{
    let n: usize = a.unicode_len();
    let m: usize = b.unicode_len();
    let mut i: usize = 0;
    assert(a@.skip(0) =~= a@ && b@.skip(0) =~= b@);
    while i < n && i < m
        invariant
            n == a@.len(),
            m == b@.len(),
            i <= n,
            i <= m,
            lex_lt(a@, b@) == lex_lt(a@.skip(i as int), b@.skip(i as int)),
        decreases n - i,
    {
        let x = a.get_char(i);
        let y = b.get_char(i);
        proof {
            assert(a@.skip(i as int).drop_first() =~= a@.skip(i + 1));
            assert(b@.skip(i as int).drop_first() =~= b@.skip(i + 1));
        }
        if x != y {
            return (x as u32) < (y as u32);
        }
        i += 1;
    }
    i < m
}

/// No text comes before itself.
pub proof fn lemma_lex_irreflexive(a: Seq<char>)
    ensures
        !lex_lt(a, a),
    decreases a.len(),
{
    if a.len() > 0 {
        lemma_lex_irreflexive(a.drop_first());
    }
}

/// What comes before a text that comes before a third comes before the third.
pub proof fn lemma_lex_transitive(a: Seq<char>, b: Seq<char>, c: Seq<char>)
    requires
        lex_lt(a, b),
        lex_lt(b, c),
    ensures
        lex_lt(a, c),
    decreases a.len(),
{
    if a.len() > 0 && a[0] == b[0] && b[0] == c[0] {
        lemma_lex_transitive(a.drop_first(), b.drop_first(), c.drop_first());
    }
}

/// Of two different texts one comes before the other.
pub proof fn lemma_lex_total(a: Seq<char>, b: Seq<char>)
    requires
        a != b,
    ensures
        lex_lt(a, b) || lex_lt(b, a),
    decreases a.len(),
{
    if a.len() > 0 && b.len() > 0 && a[0] == b[0] {
        if a.drop_first() == b.drop_first() {
            assert(a =~= seq![a[0]] + a.drop_first());
            assert(b =~= seq![b[0]] + b.drop_first());
        } else {
            lemma_lex_total(a.drop_first(), b.drop_first());
        }
    } else if a.len() == 0 && b.len() == 0 {
        assert(a =~= b);
    }
}

/// Of two texts at most one comes before the other.
pub proof fn lemma_lex_asymmetric(a: Seq<char>, b: Seq<char>)
    requires
        lex_lt(a, b),
    ensures
        !lex_lt(b, a),
{
    if lex_lt(b, a) {
        lemma_lex_transitive(a, b, a);
        lemma_lex_irreflexive(a);
    }
}

/// Texts that begin with parts of one length are ordered by those parts, and
/// by what follows where the parts agree.
pub proof fn lemma_lex_concat(x: Seq<char>, s: Seq<char>, y: Seq<char>, t: Seq<char>)
    requires
        x.len() == y.len(),
    ensures
        lex_lt(x + s, y + t) == (lex_lt(x, y) || (x == y && lex_lt(s, t))),
    decreases x.len(),
{
    if x.len() == 0 {
        assert(x + s =~= s);
        assert(y + t =~= t);
        assert(x =~= y);
    } else {
        assert((x + s).drop_first() =~= x.drop_first() + s);
        assert((y + t).drop_first() =~= y.drop_first() + t);
        lemma_lex_concat(x.drop_first(), s, y.drop_first(), t);
        if x[0] == y[0] {
            if x.drop_first() == y.drop_first() {
                assert(x =~= seq![x[0]] + x.drop_first());
                assert(y =~= seq![y[0]] + y.drop_first());
            }
        }
    }
}

/// A decimal digit.
pub open spec fn is_digit(c: char) -> bool {
    0x30 <= c as u32 <= 0x39
}

/// A field one character wider takes one more digit at its end.
pub proof fn lemma_zero_padded_step(n: nat, width: nat)
    requires
        width >= 2,
    ensures
        zero_padded(n, width) == zero_padded(n / 10, (width - 1) as nat).push(
            digit_char((n % 10) as int),
        ),
{
    let tail = digit_char((n % 10) as int);
    let front = zero_padded(n / 10, (width - 1) as nat);
    if n >= 10 {
        assert(decimal(n) == decimal(n / 10).push(tail));
        assert(zero_padded(n, width) =~= front.push(tail));
    } else {
        assert(decimal(n) =~= seq![tail]);
        assert(decimal(0) =~= seq!['0']);
        assert(zero_padded(n, width) =~= front.push(tail));
    }
}

/// A number that fits a field fills it with digits, and fields of one width
/// are ordered as their numbers are.
pub proof fn lemma_zero_padded_order(a: nat, b: nat, width: nat)
    requires
        width >= 1,
        a < pow10(width),
        b < pow10(width),
    ensures
        zero_padded(a, width).len() == width,
        forall|i: int| 0 <= i < width ==> is_digit(#[trigger] zero_padded(a, width)[i]),
        lex_lt(zero_padded(a, width), zero_padded(b, width)) <==> a < b,
        zero_padded(a, width) == zero_padded(b, width) <==> a == b,
    decreases width,
{
    let x = zero_padded(a, width);
    let y = zero_padded(b, width);
    if width == 1 {
        assert(pow10(1) == 10) by {
            reveal_with_fuel(pow10, 2);
        }
        assert(x =~= seq![digit_char(a as int)]);
        assert(y =~= seq![digit_char(b as int)]);
        assert(x[0] == digit_char(a as int));
        assert(y[0] == digit_char(b as int));
        assert(lex_lt(x, y) <==> a < b) by {
            reveal_with_fuel(lex_lt, 2);
        }
    } else {
        let w = (width - 1) as nat;
        lemma_pow10_step(width);
        lemma_zero_padded_step(a, width);
        lemma_zero_padded_step(b, width);
        lemma_zero_padded_order(a / 10, b / 10, w);
        lemma_zero_padded_order(b / 10, a / 10, w);
        let xf = zero_padded(a / 10, w);
        let yf = zero_padded(b / 10, w);
        let xt = seq![digit_char((a % 10) as int)];
        let yt = seq![digit_char((b % 10) as int)];
        assert(x =~= xf + xt);
        assert(y =~= yf + yt);
        lemma_lex_concat(xf, xt, yf, yt);
        assert(lex_lt(xt, yt) <==> a % 10 < b % 10) by {
            reveal_with_fuel(lex_lt, 2);
        }
        assert(xt == yt <==> a % 10 == b % 10) by {
            assert(xt[0] == digit_char((a % 10) as int));
            assert(yt[0] == digit_char((b % 10) as int));
        }
        assert(x == y <==> (xf == yf && xt == yt)) by {
            if x == y {
                assert(xf =~= x.drop_last());
                assert(yf =~= y.drop_last());
                assert(xt[0] == x.last());
                assert(yt[0] == y.last());
                assert(xt =~= yt);
            }
        }
        assert forall|i: int| 0 <= i < width implies is_digit(#[trigger] x[i]) by {
            if i < w {
                assert(x[i] == xf[i]);
            } else {
                assert(x[i] == xt[0]);
            }
        }
    }
}

/// Texts made of a field of one width, a separator and a rest are ordered by
/// the fields, and by the rests where the fields agree.
pub proof fn lemma_lex_field(
    f1: Seq<char>,
    r1: Seq<char>,
    f2: Seq<char>,
    r2: Seq<char>,
    sep: Seq<char>,
)
    requires
        f1.len() == f2.len(),
    ensures
        lex_lt(f1 + (sep + r1), f2 + (sep + r2)) == (lex_lt(f1, f2) || (f1 == f2 && lex_lt(r1, r2))),
{
    lemma_lex_concat(f1, sep + r1, f2, sep + r2);
    lemma_lex_concat(sep, r1, sep, r2);
    lemma_lex_irreflexive(sep);
}

} // verus!

