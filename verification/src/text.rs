//! Decimal text of numbers, and the text of a box.
use vstd::prelude::*;
use crate::geometry::{Point, cur_box};
use vstd::string::{StringExecFns, StrSliceExecFns};

verus! {

/// The decimal digit `d`.
pub open spec fn digit_char(d: nat) -> char {
    if d == 0 { '0' } else if d == 1 { '1' } else if d == 2 { '2' } else if d == 3 { '3' } else if d == 4 {
        '4'
    } else if d == 5 { '5' } else if d == 6 { '6' } else if d == 7 { '7' } else if d == 8 { '8' } else { '9' }
}

/// The decimal digits of `n`, without leading zeros.
pub open spec fn dec_nat(n: nat) -> Seq<char>
    decreases n,
{
    if n < 10 {
        seq![digit_char(n)]
    } else {
        dec_nat(n / 10) + seq![digit_char(n % 10)]
    }
}

/// The number a string of decimal digits stands for, most significant first.
pub open spec fn dec_value(s: Seq<char>) -> int
    decreases s.len(),
{
    if s.len() == 0 { 0 } else { 10 * dec_value(s.drop_last()) + (s.last() as int - '0' as int) }
}

proof fn lemma_digit_char_value(d: nat)
    requires
        d < 10,
    ensures
        digit_char(d) as int - '0' as int == d,
        '0' <= digit_char(d) <= '9',
{
    assert('0' as int == 48);
    assert('1' as int == 49);
    assert('2' as int == 50);
    assert('3' as int == 51);
    assert('4' as int == 52);
    assert('5' as int == 53);
    assert('6' as int == 54);
    assert('7' as int == 55);
    assert('8' as int == 56);
    assert('9' as int == 57);
}

/// The decimal text of `n` reads back as `n`: it is made of the digits `0`
/// to `9`, starts with `0` only for zero, and its digits taken in base 10 are `n`.
pub proof fn lemma_dec_nat_reads_back(n: nat)
    ensures
        dec_value(dec_nat(n)) == n,
        dec_nat(n).len() >= 1,
        forall|i: int| 0 <= i < dec_nat(n).len() ==> '0' <= #[trigger] dec_nat(n)[i] <= '9',
        n > 0 ==> dec_nat(n)[0] != '0',
    decreases n,
{
    lemma_digit_char_value(n % 10);
    if n < 10 {
        let s = dec_nat(n);
        assert(s.drop_last() =~= Seq::<char>::empty());
        assert(dec_value(s.drop_last()) == 0);
        assert(s.last() == digit_char(n % 10));
    } else {
        lemma_dec_nat_reads_back(n / 10);
        let s = dec_nat(n);
        assert(s.drop_last() =~= dec_nat(n / 10));
        assert(s[0] == dec_nat(n / 10)[0]);
        assert(s.last() == digit_char(n % 10));
        assert(n == 10 * (n / 10) + n % 10);
    }
}

/// The decimal text of `v`, with a minus sign when negative.
pub open spec fn dec_int(v: int) -> Seq<char> {
    if v < 0 { seq!['-'] + dec_nat((-v) as nat) } else { dec_nat(v as nat) }
}

fn push_digit(d: u64, s: &mut String)
    requires
        d < 10,
    ensures
        final(s)@ == old(s)@ + seq![digit_char(d as nat)],
{
    proof {
        reveal_strlit("0");
        reveal_strlit("1");
        reveal_strlit("2");
        reveal_strlit("3");
        reveal_strlit("4");
        reveal_strlit("5");
        reveal_strlit("6");
        reveal_strlit("7");
        reveal_strlit("8");
        reveal_strlit("9");
    }
    if d == 0 {
        s.append("0");
    } else if d == 1 {
        s.append("1");
    } else if d == 2 {
        s.append("2");
    } else if d == 3 {
        s.append("3");
    } else if d == 4 {
        s.append("4");
    } else if d == 5 {
        s.append("5");
    } else if d == 6 {
        s.append("6");
    } else if d == 7 {
        s.append("7");
    } else if d == 8 {
        s.append("8");
    } else {
        s.append("9");
    }
}

/// Appends the decimal digits of `n`.
pub fn push_dec(n: u64, s: &mut String)
    ensures
        final(s)@ == old(s)@ + dec_nat(n as nat),
    decreases n,
{
    if n >= 10 {
        push_dec(n / 10, s);
    }
    push_digit(n % 10, s);
    assert(n >= 10 ==> dec_nat(n as nat) == dec_nat((n / 10) as nat) + seq![digit_char((n % 10) as nat)]);
}

/// Appends the decimal text of `v`.
pub fn push_i32(v: i32, s: &mut String)
    ensures
        final(s)@ == old(s)@ + dec_int(v as int),
{
    if v < 0 {
        proof { reveal_strlit("-"); }
        s.append("-");
        let m = (0i64 - v as i64) as u64;
        push_dec(m, s);
    } else {
        push_dec(v as u64, s);
    }
}

/// The decimal text of `n`, right-aligned in `width` characters.
pub open spec fn padded(n: nat, width: nat) -> Seq<char> {
    Seq::new((if dec_nat(n).len() < width { width - dec_nat(n).len() } else { 0 }) as nat, |i: int| ' ')
        + dec_nat(n)
}

/// Appends the decimal text of `n`, right-aligned in `width` characters.
pub fn push_padded(n: u64, width: usize, s: &mut String)
    ensures
        final(s)@ == old(s)@ + padded(n as nat, width as nat),
{
    let mut t = String::new();
    push_dec(n, &mut t);
    let l = t.as_str().unicode_len();
    let ghost s0 = s@;
    let spaces: usize = if l < width { width - l } else { 0 };
    let mut i: usize = 0;
    while i < spaces
        invariant
            i <= spaces,
            s@ == s0 + Seq::new(i as nat, |k: int| ' '),
        decreases spaces - i,
    {
        proof { reveal_strlit(" "); }
        s.append(" ");
        assert(s0 + Seq::new((i + 1) as nat, |k: int| ' ') =~= s0 + Seq::new(i as nat, |k: int| ' ') + seq![' ']);
        i = i + 1;
    }
    s.append(t.as_str());
    assert(s@ =~= s0 + padded(n as nat, width as nat));
}

/// The text of a point, as `Point { x: 1, y: -2 }`.
pub open spec fn point_text(p: Point) -> Seq<char> {
    "Point { x: "@ + dec_int(p.x as int) + ", y: "@ + dec_int(p.y as int) + " }"@
}

/// The text of a box, as `cur_box { ptl: Point { .. }, pbr: Point { .. }, hs: Point { .. } }`.
pub open spec fn box_text(b: cur_box) -> Seq<char> {
    "cur_box { ptl: "@ + point_text(b.ptl) + ", pbr: "@ + point_text(b.pbr) + ", hs: "@ + point_text(b.hs)
        + " }"@
}

/// Appends the text of a point.
pub fn push_point(p: Point, s: &mut String)
    ensures
        final(s)@ == old(s)@ + point_text(p),
{
    let ghost s0 = s@;
    s.append("Point { x: ");
    push_i32(p.x, s);
    s.append(", y: ");
    push_i32(p.y, s);
    s.append(" }");
    assert(s@ =~= s0 + point_text(p));
}

/// The text of a box.
pub fn box_string(b: &cur_box) -> (s: String)
    ensures
        s@ == box_text(*b),
{
    let mut s = String::from_str("cur_box { ptl: ");
    push_point(b.ptl, &mut s);
    s.append(", pbr: ");
    push_point(b.pbr, &mut s);
    s.append(", hs: ");
    push_point(b.hs, &mut s);
    s.append(" }");
    assert(s@ =~= box_text(*b));
    s
}

} // verus!
