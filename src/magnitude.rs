use vstd::prelude::*;
use crate::number::{is_special, unsigned_part, is_float_literal, is_exponent};
use crate::scan::{Stop, is_digit, scan_end, lemma_scan_end, chomp, copy_range, char_at};

verus! {

/// The digits of a mantissa, in order, without its decimal point.
pub open spec fn digits_of(m: Seq<char>) -> Seq<char>
    decreases m.len(),
{
    if m.len() == 0 {
        m
    } else if is_digit(m.last()) {
        digits_of(m.drop_last()).push(m.last())
    } else {
        digits_of(m.drop_last())
    }
}

/// The digits at the end of `m` after its last non-digit.
pub open spec fn trailing_digits(m: Seq<char>) -> int
    decreases m.len(),
{
    if m.len() == 0 || !is_digit(m.last()) {
        0
    } else {
        trailing_digits(m.drop_last()) + 1
    }
}

/// `m` has a decimal point.
pub open spec fn has_point(m: Seq<char>) -> bool {
    exists|i: int| 0 <= i < m.len() && m[i] == '.'
}

/// How many digits of a mantissa stand after its decimal point.
pub open spec fn fraction_digits(m: Seq<char>) -> int {
    if has_point(m) {
        trailing_digits(m)
    } else {
        0
    }
}

/// `d` without its leading zeros.
pub open spec fn strip_zeros(d: Seq<char>) -> Seq<char>
    decreases d.len(),
{
    if d.len() > 0 && d[0] == '0' {
        strip_zeros(d.drop_first())
    } else {
        d
    }
}

pub open spec fn digit_value(c: char) -> int {
    (c as u32) as int - 48
}

/// The integer that the digits `d` spell.
pub open spec fn dec_value(d: Seq<char>) -> int
    decreases d.len(),
{
    if d.len() == 0 {
        0
    } else {
        dec_value(d.drop_last()) * 10 + digit_value(d.last())
    }
}

/// The value of an exponent: an optional sign, then digits.
pub open spec fn exponent_value(e: Seq<char>) -> int {
    if e.len() > 0 && e[0] == '-' {
        -dec_value(unsigned_part(e))
    } else {
        dec_value(unsigned_part(e))
    }
}

/// The part of a decimal before its exponent mark.
pub open spec fn mantissa_of(r: Seq<char>) -> Seq<char> {
    r.take(scan_end(r, 0, Stop::ExpMark))
}

/// The exponent of a decimal, or nothing where it has none.
pub open spec fn exponent_of(r: Seq<char>) -> Seq<char> {
    let k = scan_end(r, 0, Stop::ExpMark);
    if k < r.len() {
        r.skip(k + 1)
    } else {
        Seq::empty()
    }
}

/// The significant digits `D` of a decimal: its value is `0.D` times ten to
/// the power `scale`.
pub open spec fn significand(r: Seq<char>) -> Seq<char> {
    strip_zeros(digits_of(mantissa_of(r)))
}

pub open spec fn scale(r: Seq<char>) -> int {
    significand(r).len() + exponent_value(exponent_of(r)) - fraction_digits(mantissa_of(r))
}

/// The digits of 5 to the power 1075. As a fraction `0.C` they are
/// 2 to the power -1075 times 10 to the power 323, so that 2 to the power -1075,
/// half the least positive 64-bit float, is `0.C` times 10 to the power -323.
pub open spec fn half_least_digits() -> Seq<char> {
    "24703282292062327208828439643411068618252990130716238221279284125033775363510437593264991818081799618989828234772285886546332835517796989819938739800539093906315035659515570226392290858392449105184435931802849936536152500319370457678249219365623669863658480757001585769269903706311928279558551332927834338409351978015531246597263579574622766465272827220056374006485499977096599470454020828166226237857393450736339007967761930577506740176324673600968951340535537458516661134223766678604162159680461914467291840300530057530849048765391711386591646239524912623653881879636239373280423891018672348497668235089863388587925628302755995657524455507255189313690836254779186948667994968324049705821028513185451396213837722826145437693412532098591327667236328125"@
}

pub open spec fn padded(a: Seq<char>, i: int) -> char {
    if 0 <= i < a.len() {
        a[i]
    } else {
        '0'
    }
}

/// `0.a <= 0.b`, comparing digits from position `i` on.
pub open spec fn fraction_le_from(a: Seq<char>, b: Seq<char>, i: int) -> bool
    decreases a.len() + b.len() - i,
{
    if i >= a.len() && i >= b.len() {
        true
    } else if padded(a, i) < padded(b, i) {
        true
    } else if padded(a, i) > padded(b, i) {
        false
    } else {
        fraction_le_from(a, b, i + 1)
    }
}

/// The literal reads as a 64-bit zero of either sign: a decimal whose magnitude
/// is at most 2 to the power -1075, which rounds to zero. Where the significand
/// is `0.D` with a nonzero first digit, the magnitude is below that bound when
/// the scale is below -323, above it when the scale is above -323, and otherwise
/// at most the bound exactly when `0.D <= 0.C`.
pub open spec fn denotes_zero(s: Seq<char>) -> bool {
    let r = unsigned_part(s);
    &&& !is_special(r)
    &&& {
        ||| significand(r).len() == 0
        ||| scale(r) < -323
        ||| scale(r) == -323 && fraction_le_from(significand(r), half_least_digits(), 0)
    }
}

fn half_least_exec() -> (r: Vec<char>)
    ensures
        r@ == half_least_digits(),
{
    crate::scan::chars_of("24703282292062327208828439643411068618252990130716238221279284125033775363510437593264991818081799618989828234772285886546332835517796989819938739800539093906315035659515570226392290858392449105184435931802849936536152500319370457678249219365623669863658480757001585769269903706311928279558551332927834338409351978015531246597263579574622766465272827220056374006485499977096599470454020828166226237857393450736339007967761930577506740176324673600968951340535537458516661134223766678604162159680461914467291840300530057530849048765391711386591646239524912623653881879636239373280423891018672348497668235089863388587925628302755995657524455507255189313690836254779186948667994968324049705821028513185451396213837722826145437693412532098591327667236328125")
}

/// The digits of `m`, and how many stand after a point.
fn mantissa_digits(m: &Vec<char>) -> (r: (Vec<char>, usize))
    ensures
        r.0@ == digits_of(m@),
        r.1 as int == fraction_digits(m@),
{
    let mut ds: Vec<char> = Vec::new();
    let mut point = false;
    let mut trail: usize = 0;
    let mut i: usize = 0;
    while i < m.len()
        invariant
            i <= m.len(),
            ds@ == digits_of(m@.take(i as int)),
            trail as int == trailing_digits(m@.take(i as int)),
            trail <= i,
            point == has_point(m@.take(i as int)),
        decreases m.len() - i,
    {
        let c = char_at(m, i);
        let ghost t = m@.take(i + 1);
        assert(t.drop_last() == m@.take(i as int));
        assert(t.last() == c);
        proof {
            if point {
                let k = choose|k: int| 0 <= k < i && m@.take(i as int)[k] == '.';
                assert(t[k] == '.');
            }
            if c == '.' {
                assert(t[i as int] == '.');
            }
            if !point && c != '.' {
                assert forall|k: int| 0 <= k < t.len() implies t[k] != '.' by {
                    if k < i {
                        assert(t[k] == m@.take(i as int)[k]);
                    }
                }
            }
        }
        if '0' <= c && c <= '9' {
            ds.push(c);
            trail = trail + 1;
        } else {
            trail = 0;
        }
        if c == '.' {
            point = true;
        }
        i += 1;
    }
    assert(m@.take(m.len() as int) == m@);
    if point { (ds, trail) } else { (ds, 0) }
}

fn strip_zeros_exec(d: &Vec<char>) -> (r: Vec<char>)
    ensures
        r@ == strip_zeros(d@),
{
    let mut z: usize = 0;
    assert(d@.skip(0) == d@);
    while z < d.len() && char_at(d, z) == '0'
        invariant
            z <= d.len(),
            strip_zeros(d@.skip(z as int)) == strip_zeros(d@),
        decreases d.len() - z,
    {
        assert(d@.skip(z as int).drop_first() == d@.skip(z + 1));
        z += 1;
    }
    let r = copy_range(d, z, d.len());
    assert(r@ == d@.skip(z as int));
    r
}

/// The value of the digits `d`, or `cap + 1` where it is larger than `cap`.
fn capped_value(d: &Vec<char>, cap: i128) -> (r: i128)
    requires
        forall|i: int| 0 <= i < d.len() ==> is_digit(#[trigger] d@[i]),
        0 <= cap < 0x1000_0000_0000_0000_0000_0000,
    ensures
        r == if dec_value(d@) <= cap { dec_value(d@) } else { cap + 1 },
        0 <= r <= cap + 1,
        0 <= dec_value(d@),
{
    let mut v: i128 = 0;
    let mut i: usize = 0;
    assert(dec_value(d@.take(0)) == 0);
    while i < d.len()
        invariant
            i <= d.len(),
            forall|j: int| 0 <= j < d.len() ==> is_digit(#[trigger] d@[j]),
            0 <= cap < 0x1000_0000_0000_0000_0000_0000,
            0 <= dec_value(d@.take(i as int)),
            v == if dec_value(d@.take(i as int)) <= cap { dec_value(d@.take(i as int)) } else { cap + 1 },
        decreases d.len() - i,
    {
        let c = char_at(d, i);
        let g = (c as u32 - 48) as i128;
        let ghost t = d@.take(i + 1);
        assert(t.drop_last() == d@.take(i as int));
        assert(t.last() == c);
        assert(is_digit(d@[i as int]));
        let ghost x = dec_value(d@.take(i as int));
        assert(dec_value(t) == x * 10 + g);
        assert(0 <= g <= 9);
        if v > cap {
            assert(x * 10 + g > cap) by (nonlinear_arith)
                requires x > cap, cap >= 0, g >= 0;
        } else {
            let w = v * 10 + g;
            if w > cap {
                v = cap + 1;
            } else {
                v = w;
            }
        }
        i += 1;
    }
    assert(d@.take(d.len() as int) == d@);
    v
}

proof fn lemma_digits_len(m: Seq<char>)
    ensures
        digits_of(m).len() <= m.len(),
    decreases m.len(),
{
    if m.len() > 0 {
        lemma_digits_len(m.drop_last());
    }
}

proof fn lemma_strip_len(d: Seq<char>)
    ensures
        strip_zeros(d).len() <= d.len(),
    decreases d.len(),
{
    if d.len() > 0 && d[0] == '0' {
        lemma_strip_len(d.drop_first());
    }
}

proof fn lemma_trailing_le(m: Seq<char>)
    ensures
        0 <= trailing_digits(m) <= m.len(),
    decreases m.len(),
{
    if m.len() > 0 {
        lemma_trailing_le(m.drop_last());
    }
}

/// Whether `0.a <= 0.b`.
fn fraction_le(a: &Vec<char>, b: &Vec<char>) -> (r: bool)
    ensures
        r == fraction_le_from(a@, b@, 0),
{
    let mut i: usize = 0;
    while i < a.len() || i < b.len()
        invariant
            fraction_le_from(a@, b@, i as int) == fraction_le_from(a@, b@, 0),
        decreases a.len() + b.len() - i,
    {
        let x = if i < a.len() { char_at(a, i) } else { '0' };
        let y = if i < b.len() { char_at(b, i) } else { '0' };
        if x < y {
            return true;
        } else if x > y {
            return false;
        }
        i += 1;
    }
    true
}

/// Whether a floating-point literal that is not infinity or not-a-number
/// reads as zero.
pub(crate) fn literal_is_zero(s: &Vec<char>) -> (r: bool)
    requires
        is_float_literal(s@),
    ensures
        r == denotes_zero(s@),
{
    let lo: usize = if s.len() > 0 && (char_at(s, 0) == '+' || char_at(s, 0) == '-') { 1 } else { 0 };
    let r = copy_range(s, lo, s.len());
    assert(r@ == unsigned_part(s@));
    assert(r@.skip(0) == r@);
    if crate::number::is_special_exec(&r, 0) {
        return false;
    }
    let k = chomp(&r, 0, Stop::ExpMark);
    proof { lemma_scan_end(r@, 0, Stop::ExpMark); }
    let m = copy_range(&r, 0, k);
    assert(m@ == mantissa_of(r@));
    let (ds, frac) = mantissa_digits(&m);
    let sig = strip_zeros_exec(&ds);
    if sig.len() == 0 {
        return true;
    }
    let e = if k < r.len() { copy_range(&r, k + 1, r.len()) } else { Vec::new() };
    assert(e@ == exponent_of(r@));
    let neg = e.len() > 0 && char_at(&e, 0) == '-';
    let elo: usize = if e.len() > 0 && (char_at(&e, 0) == '+' || char_at(&e, 0) == '-') { 1 } else { 0 };
    let u = copy_range(&e, elo, e.len());
    assert(u@ == unsigned_part(e@));
    proof {
        if k < r.len() {
            assert(is_exponent(r@.skip(k + 1)));
        }
        assert forall|i: int| 0 <= i < u.len() implies is_digit(#[trigger] u@[i]) by {}
    }
    let cap: i128 = r.len() as i128 + 400;
    let x = capped_value(&u, cap);
    proof {
        lemma_digits_len(m@);
        lemma_strip_len(ds@);
        lemma_trailing_le(m@);
    }
    let t: i128 = sig.len() as i128 + (if neg { -x } else { x }) - frac as i128;
    proof {
        let sc = scale(r@);
        assert(sig@ == significand(r@));
        assert(sc == sig.len() + exponent_value(e@) - frac);
        if dec_value(u@) > cap {
            if neg {
                assert(t < -323);
                assert(sc < -323);
            } else {
                assert(t > -323);
                assert(sc > -323);
            }
        } else {
            assert(t == sc);
        }
    }
    if t < -323 {
        true
    } else if t > -323 {
        false
    } else {
        let c = half_least_exec();
        fraction_le(&sig, &c)
    }
}

} // verus!
