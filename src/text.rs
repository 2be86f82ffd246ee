//! Small verified helpers on strings and bytes shared by the other modules.

use vstd::prelude::*;
use vstd::string::{StrSliceExecFns, StringSliceAdditionalSpecFns};

verus! {

/// Decoding the UTF-8 encoding of two character sequences tells them apart:
/// equal bytes mean equal text.
pub proof fn lemma_bytes_determine_text(a: Seq<char>, b: Seq<char>)
    requires
        vstd::utf8::encode_utf8(a) == vstd::utf8::encode_utf8(b),
    ensures
        a == b,
{
    vstd::utf8::encode_utf8_decode_utf8(a);
    vstd::utf8::encode_utf8_decode_utf8(b);
}

/// Plain (early-exit) comparison of two strings by their bytes.
pub fn text_eq(a: &str, b: &str) -> (r: bool)
    ensures
        r == (a@ == b@),
{
    let x = a.as_bytes();
    let y = b.as_bytes();
    if x.len() != y.len() {
        return false;
    }
    let mut i: usize = 0;
    while i < x.len()
        invariant
            x@ == a.spec_bytes(),
            y@ == b.spec_bytes(),
            x@.len() == y@.len(),
            i <= x@.len(),
            forall|j: int| 0 <= j < i ==> x@[j] == y@[j],
        decreases x@.len() - i,
    {
        if x[i] != y[i] {
            return false;
        }
        i = i + 1;
    }
    assert(x@ =~= y@);
    proof {
        lemma_bytes_determine_text(a@, b@);
    }
    true
}

/// The character of a decimal digit.
pub open spec fn digit_char(d: nat) -> char {
    if d == 0 { '0' } else if d == 1 { '1' } else if d == 2 { '2' } else if d == 3 { '3' }
    else if d == 4 { '4' } else if d == 5 { '5' } else if d == 6 { '6' } else if d == 7 { '7' }
    else if d == 8 { '8' } else { '9' }
}

/// The decimal spelling of `n`, without leading zeros.
pub open spec fn decimal(n: nat) -> Seq<char>
    decreases n,
{
    if n < 10 {
        seq![digit_char(n)]
    } else {
        decimal(n / 10) + seq![digit_char(n % 10)]
    }
}

/// A one-character string holding the digit `d`.
pub fn digit_str(d: u64) -> (r: &'static str)
    requires
        d < 10,
    ensures
        r@ == seq![digit_char(d as nat)],
{
    proof {
        reveal_strlit("0");
        reveal_strlit("1");
        reveal_strlit("2");
        reveal_strlit("3");
        reveal_strlit("4");
        reveal_strlit("5");
        reveal_strlit("6");
        reveal_strlit("7");
        reveal_strlit("8");
        reveal_strlit("9");
    }
    let r = if d == 0 { "0" } else if d == 1 { "1" } else if d == 2 { "2" } else if d == 3 { "3" }
    else if d == 4 { "4" } else if d == 5 { "5" } else if d == 6 { "6" } else if d == 7 { "7" }
    else if d == 8 { "8" } else { "9" };
    assert(r@ =~= seq![digit_char(d as nat)]);
    r
}

/// Writes `n` in decimal.
pub fn to_decimal(n: u64) -> (r: String)
    ensures
        r@ == decimal(n as nat),
    decreases n,
{
    if n < 10 {
        String::from_str(digit_str(n))
    } else {
        let mut s = to_decimal(n / 10);
        s.append(digit_str(n % 10));
        s
    }
}

/// Whether `c` is a decimal digit.
pub open spec fn is_digit(c: char) -> bool {
    '0' <= c && c <= '9'
}

/// The number that a string of decimal digits spells.
pub open spec fn digits_value(s: Seq<char>) -> nat
    decreases s.len(),
{
    if s.len() == 0 {
        0
    } else {
        digits_value(s.drop_last()) * 10 + ((s.last() as u32) - 48) as nat
    }
}

proof fn lemma_digit_char(d: nat)
    requires
        d < 10,
    ensures
        is_digit(digit_char(d)),
        (digit_char(d) as u32) - 48 == d,
{
}

/// The decimal spelling of `n` is one to three digits for `n < 1000`, and
/// spells `n`.
pub proof fn lemma_decimal_shape(n: nat)
    ensures
        decimal(n).len() >= 1,
        forall|i: int| 0 <= i < decimal(n).len() ==> is_digit(#[trigger] decimal(n)[i]),
        digits_value(decimal(n)) == n,
        n < 10 ==> decimal(n).len() == 1,
        n < 100 ==> decimal(n).len() <= 2,
        n < 1000 ==> decimal(n).len() <= 3,
    decreases n,
{
    if n < 10 {
        lemma_digit_char(n);
        assert(decimal(n).drop_last() =~= Seq::<char>::empty());
        assert(decimal(n).last() == digit_char(n));
        assert(digits_value(decimal(n)) == digits_value(Seq::<char>::empty()) * 10 + ((digit_char(n) as u32) - 48) as nat);
    } else {
        lemma_decimal_shape(n / 10);
        lemma_digit_char(n % 10);
        let d = decimal(n);
        assert(d.drop_last() =~= decimal(n / 10));
        assert(d.last() == digit_char(n % 10));
        assert(digits_value(d) == digits_value(decimal(n / 10)) * 10 + ((digit_char(n % 10) as u32) - 48) as nat);
        assert((n / 10) * 10 + n % 10 == n) by (nonlinear_arith);
        assert forall|i: int| 0 <= i < d.len() implies is_digit(#[trigger] d[i]) by {
            if i < decimal(n / 10).len() {
                assert(d[i] == decimal(n / 10)[i]);
            }
        }
    }
}

/// `(v, e)` is what reading at most three digits of `t` from `pos` gives:
/// the digits end at `e`, and `v` is their value.
pub open spec fn read_ok(t: Seq<char>, n: nat, pos: nat, v: nat, e: nat) -> bool {
    &&& n == t.len()
    &&& pos <= e <= n
    &&& e <= pos + 3
    &&& forall|i: int| pos <= i < e ==> is_digit(#[trigger] t[i])
    &&& v == digits_value(t.subrange(pos as int, e as int))
    &&& (e < n && e < pos + 3 ==> !is_digit(t[e as int]))
}

/// Reads at most three decimal digits of `t` from `pos`: their value and
/// the position after them.
pub fn read_digits(t: &str, n: usize, pos: usize) -> (r: (u32, usize))
    requires
        n == t@.len(),
        pos <= n,
    ensures
        read_ok(t@, n as nat, pos as nat, r.0 as nat, r.1 as nat),
        r.0 < 1000,
{
    let mut i: usize = pos;
    let mut v: u32 = 0;
    let mut stopped = false;
    assert(t@.subrange(pos as int, pos as int) =~= Seq::<char>::empty());
    while !stopped && i < n && i - pos < 3
        invariant
            n == t@.len(),
            pos <= i <= n,
            i <= pos + 3,
            forall|j: int| pos <= j < i ==> is_digit(#[trigger] t@[j]),
            v == digits_value(t@.subrange(pos as int, i as int)),
            i - pos <= 0 ==> v == 0,
            i - pos <= 1 ==> v < 10,
            i - pos <= 2 ==> v < 100,
            v < 1000,
            stopped ==> i < n && !is_digit(t@[i as int]),
        decreases n - i + (if stopped { 0int } else { 1int }),
    {
        let c = t.get_char(i);
        if '0' <= c && c <= '9' {
            let ghost before = t@.subrange(pos as int, i as int);
            v = v * 10 + (c as u32 - 48);
            i = i + 1;
            assert(t@.subrange(pos as int, i as int).drop_last() =~= before);
        } else {
            stopped = true;
        }
    }
    (v, i)
}

/// The dotted-decimal spelling of an IPv4 address, without leading zeros.
pub open spec fn quad_text(o: [u8; 4]) -> Seq<char> {
    decimal(o[0] as nat) + seq!['.'] + decimal(o[1] as nat) + seq!['.'] + decimal(o[2] as nat) + seq!['.']
        + decimal(o[3] as nat)
}

proof fn lemma_read_segment(t: Seq<char>, n: nat, pos: nat, e: nat, v: nat, d: nat)
    requires
        d < 1000,
        pos + decimal(d).len() <= n,
        t.subrange(pos as int, (pos + decimal(d).len()) as int) == decimal(d),
        pos + decimal(d).len() == n || t[(pos + decimal(d).len()) as int] == '.',
        read_ok(t, n, pos, v, e),
    ensures
        e == pos + decimal(d).len(),
        v == d,
{
    lemma_decimal_shape(d);
    let l = decimal(d).len();
    if e < pos + l {
        assert(t[e as int] == decimal(d)[(e - pos) as int]);
    }
    if e > pos + l {
        assert(is_digit(t[(pos + l) as int]));
    }
    assert(t.subrange(pos as int, e as int) == decimal(d));
}

/// Writes an IPv4 address in dotted decimal.
pub fn quad_string(o: [u8; 4]) -> (r: String)
    ensures
        r@ == quad_text(o),
{
    let mut s = to_decimal(o[0] as u64);
    s.append(".");
    s.append(to_decimal(o[1] as u64).as_str());
    s.append(".");
    s.append(to_decimal(o[2] as u64).as_str());
    s.append(".");
    s.append(to_decimal(o[3] as u64).as_str());
    proof {
        reveal_strlit(".");
        assert(s@ =~= quad_text(o));
    }
    s
}

proof fn lemma_quad_reads(
    t: Seq<char>,
    n: nat,
    o: [u8; 4],
    v0: nat, e0: nat,
    p1: nat, v1: nat, e1: nat,
    p2: nat, v2: nat, e2: nat,
    p3: nat, v3: nat, e3: nat,
)
    requires
        t == quad_text(o),
        read_ok(t, n, 0, v0, e0),
        p1 == if e0 < n && t[e0 as int] == '.' { e0 + 1 } else { n },
        read_ok(t, n, p1, v1, e1),
        p2 == if e1 < n && t[e1 as int] == '.' { e1 + 1 } else { n },
        read_ok(t, n, p2, v2, e2),
        p3 == if e2 < n && t[e2 as int] == '.' { e2 + 1 } else { n },
        read_ok(t, n, p3, v3, e3),
    ensures
        e0 < n && t[e0 as int] == '.',
        e1 < n && t[e1 as int] == '.',
        e2 < n && t[e2 as int] == '.',
        e3 == n,
        v0 == o[0] && v1 == o[1] && v2 == o[2] && v3 == o[3],
{
    let (d0, d1, d2, d3) = (decimal(o[0] as nat), decimal(o[1] as nat), decimal(o[2] as nat), decimal(o[3] as nat));
    lemma_decimal_shape(o[0] as nat);
    lemma_decimal_shape(o[1] as nat);
    lemma_decimal_shape(o[2] as nat);
    lemma_decimal_shape(o[3] as nat);
    let q0 = d0.len();
    let q1 = q0 + 1 + d1.len();
    let q2 = q1 + 1 + d2.len();
    assert(t.len() == q2 + 1 + d3.len());
    assert(t.subrange(0, q0 as int) =~= d0);
    assert(t[q0 as int] == '.');
    lemma_read_segment(t, n, 0, e0, v0, o[0] as nat);
    assert(t.subrange((q0 + 1) as int, q1 as int) =~= d1);
    assert(t[q1 as int] == '.');
    lemma_read_segment(t, n, p1, e1, v1, o[1] as nat);
    assert(t.subrange((q1 + 1) as int, q2 as int) =~= d2);
    assert(t[q2 as int] == '.');
    lemma_read_segment(t, n, p2, e2, v2, o[2] as nat);
    assert(t.subrange((q2 + 1) as int, t.len() as int) =~= d3);
    lemma_read_segment(t, n, p3, e3, v3, o[3] as nat);
}

/// Reads `text` as an IPv4 address in dotted decimal: four numbers up to
/// 255 without leading zeros, separated by dots, and nothing else.
pub fn parse_ipv4(text: &str) -> (r: Option<[u8; 4]>)
    ensures
        r matches Some(o) ==> text@ == quad_text(o),
        forall|o: [u8; 4]| text@ == quad_text(o) ==> r == Some(o),
{
    let n = text.unicode_len();
    let (v0, e0) = read_digits(text, n, 0);
    let dot0 = e0 < n && text.get_char(e0) == '.';
    let p1: usize = if dot0 { e0 + 1 } else { n };
    let (v1, e1) = read_digits(text, n, p1);
    let dot1 = e1 < n && text.get_char(e1) == '.';
    let p2: usize = if dot1 { e1 + 1 } else { n };
    let (v2, e2) = read_digits(text, n, p2);
    let dot2 = e2 < n && text.get_char(e2) == '.';
    let p3: usize = if dot2 { e2 + 1 } else { n };
    let (v3, e3) = read_digits(text, n, p3);
    let ok = dot0 && dot1 && dot2 && e3 == n && v0 <= 255 && v1 <= 255 && v2 <= 255 && v3 <= 255;
    proof {
        assert forall|o: [u8; 4]| text@ == quad_text(o) implies ok && v0 == o[0] && v1 == o[1] && v2 == o[2]
            && v3 == o[3] by {
            lemma_quad_reads(text@, n as nat, o, v0 as nat, e0 as nat, p1 as nat, v1 as nat, e1 as nat,
                p2 as nat, v2 as nat, e2 as nat, p3 as nat, v3 as nat, e3 as nat);
        }
    }
    if !ok {
        return None;
    }
    let o: [u8; 4] = [v0 as u8, v1 as u8, v2 as u8, v3 as u8];
    let printed = quad_string(o);
    proof {
        assert forall|q: [u8; 4]| text@ == quad_text(q) implies o == q by {
            assert(o[0] == q[0] && o[1] == q[1] && o[2] == q[2] && o[3] == q[3]);
            assert(o =~= q);
        }
    }
    if text_eq(text, printed.as_str()) {
        Some(o)
    } else {
        None
    }
}

/// Whether `a` sorts before `b`, comparing character codes from position
/// `i` on (the order of `str`, since UTF-8 keeps code point order).
pub open spec fn lt_from(a: Seq<char>, b: Seq<char>, i: nat) -> bool
    decreases a.len() - i,
{
    if i >= b.len() {
        false
    } else if i >= a.len() {
        true
    } else if a[i as int] != b[i as int] {
        (a[i as int] as u32) < (b[i as int] as u32)
    } else {
        lt_from(a, b, i + 1)
    }
}

/// Whether text `a` sorts before text `b`.
pub open spec fn text_lt(a: Seq<char>, b: Seq<char>) -> bool {
    lt_from(a, b, 0)
}

pub proof fn lemma_lt_irreflexive(a: Seq<char>, i: nat)
    ensures
        !lt_from(a, a, i),
    decreases a.len() - i,
{
    if i < a.len() {
        lemma_lt_irreflexive(a, i + 1);
    }
}

pub proof fn lemma_lt_asymmetric(a: Seq<char>, b: Seq<char>, i: nat)
    ensures
        lt_from(a, b, i) ==> !lt_from(b, a, i),
    decreases a.len() - i,
{
    if i < a.len() && i < b.len() && a[i as int] == b[i as int] {
        lemma_lt_asymmetric(a, b, i + 1);
    }
}

pub proof fn lemma_lt_transitive(a: Seq<char>, b: Seq<char>, c: Seq<char>, i: nat)
    requires
        lt_from(a, b, i),
        lt_from(b, c, i),
    ensures
        lt_from(a, c, i),
    decreases a.len() - i,
{
    if i < a.len() && i < b.len() && i < c.len() && a[i as int] == b[i as int] && b[i as int] == c[i as int] {
        lemma_lt_transitive(a, b, c, i + 1);
    }
}

pub proof fn lemma_lt_total(a: Seq<char>, b: Seq<char>, i: nat)
    requires
        a != b,
        i <= a.len(),
        i <= b.len(),
        forall|j: int| 0 <= j < i ==> a[j] == b[j],
    ensures
        lt_from(a, b, i) || lt_from(b, a, i),
    decreases a.len() - i,
{
    if i == a.len() && i == b.len() {
        assert(a =~= b);
    } else if i < a.len() && i < b.len() && a[i as int] == b[i as int] {
        lemma_lt_total(a, b, i + 1);
    } else if i < a.len() && i < b.len() {
        let (x, y) = (a[i as int], b[i as int]);
        vstd::utf8::char_u32_cast(x, x as u32);
        vstd::utf8::char_u32_cast(y, y as u32);
        assert(x as u32 != y as u32);
    }
}

/// Compares two texts in the order of `str`.
pub fn text_less(a: &str, b: &str) -> (r: bool)
    ensures
        r == text_lt(a@, b@),
{
    let n = a.unicode_len();
    let m = b.unicode_len();
    let mut i: usize = 0;
    while i < n && i < m && a.get_char(i) == b.get_char(i)
        invariant
            n == a@.len(),
            m == b@.len(),
            i <= n,
            i <= m,
            lt_from(a@, b@, 0) == lt_from(a@, b@, i as nat),
        decreases n - i,
    {
        i = i + 1;
    }
    if i >= m {
        false
    } else if i >= n {
        true
    } else {
        (a.get_char(i) as u32) < (b.get_char(i) as u32)
    }
}

/// The lines of `lines` joined with a newline between each two.
pub open spec fn join_lines(lines: Seq<Seq<char>>) -> Seq<char>
    decreases lines.len(),
{
    if lines.len() == 0 {
        Seq::empty()
    } else if lines.len() == 1 {
        lines[0]
    } else {
        join_lines(lines.drop_last()) + "\n"@ + lines.last()
    }
}

/// Joins the views of `lines` with newlines.
pub fn join_with_newlines(lines: &Vec<String>) -> (r: String)
    ensures
        r@ == join_lines(lines@.map_values(|l: String| l@)),
{
    let ghost views = lines@.map_values(|l: String| l@);
    let mut s = String::new();
    let mut i: usize = 0;
    while i < lines.len()
        invariant
            i <= lines@.len(),
            views == lines@.map_values(|l: String| l@),
            s@ == join_lines(views.subrange(0, i as int)),
        decreases lines@.len() - i,
    {
        if i > 0 {
            s.append("\n");
        }
        s.append(lines[i].as_str());
        i = i + 1;
        proof {
            let sub = views.subrange(0, i as int);
            assert(sub.drop_last() =~= views.subrange(0, i - 1));
            if i == 1 {
                assert(join_lines(views.subrange(0, 0)) =~= Seq::<char>::empty());
            }
        }
    }
    assert(views.subrange(0, i as int) =~= views);
    s
}

} // verus!
