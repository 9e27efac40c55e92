use vstd::prelude::*;
use crate::magnitude::{denotes_zero, literal_is_zero};
use crate::scan::{Stop, is_digit, scan_end, lemma_scan_end, chomp, copy_range, string_of};

verus! {

pub open spec fn is_sign(c: char) -> bool {
    c == '+' || c == '-'
}

/// A literal without its leading sign, if it has one.
pub open spec fn unsigned_part(s: Seq<char>) -> Seq<char> {
    if s.len() > 0 && is_sign(s[0]) {
        s.drop_first()
    } else {
        s
    }
}

pub open spec fn upper_of(c: char) -> char {
    match c {
        'a' => 'A',
        'f' => 'F',
        'i' => 'I',
        'n' => 'N',
        't' => 'T',
        'y' => 'Y',
        _ => c,
    }
}

/// `s` spells the lower-case `word`, letter by letter in either case.
pub open spec fn spells(s: Seq<char>, word: Seq<char>) -> bool {
    s.len() == word.len() && forall|i: int|
        0 <= i < s.len() ==> s[i] == word[i] || s[i] == upper_of(word[i])
}

/// Infinity or not-a-number, in any case.
pub open spec fn is_special(r: Seq<char>) -> bool {
    spells(r, seq!['i', 'n', 'f']) || spells(r, seq!['i', 'n', 'f', 'i', 'n', 'i', 't', 'y'])
        || spells(r, seq!['n', 'a', 'n'])
}

pub open spec fn dots(s: Seq<char>) -> nat
    decreases s.len(),
{
    if s.len() == 0 {
        0
    } else {
        dots(s.drop_last()) + if s.last() == '.' { 1nat } else { 0nat }
    }
}

/// Digits with at most one decimal point, and at least one digit.
pub open spec fn is_mantissa(s: Seq<char>) -> bool {
    &&& forall|i: int| 0 <= i < s.len() ==> is_digit(#[trigger] s[i]) || s[i] == '.'
    &&& dots(s) <= 1
    &&& exists|i: int| 0 <= i < s.len() && is_digit(#[trigger] s[i])
}

/// An optional sign followed by one or more digits.
pub open spec fn is_exponent(s: Seq<char>) -> bool {
    let d = unsigned_part(s);
    d.len() > 0 && forall|i: int| 0 <= i < d.len() ==> is_digit(#[trigger] d[i])
}

/// A mantissa, followed by an exponent after the first `e` or `E` if there is one.
pub open spec fn is_decimal(r: Seq<char>) -> bool {
    let k = scan_end(r, 0, Stop::ExpMark);
    if k == r.len() {
        is_mantissa(r)
    } else {
        is_mantissa(r.take(k)) && is_exponent(r.skip(k + 1))
    }
}

/// The text of a decimal floating-point literal as `str::parse` reads one:
/// an optional sign, then a decimal number or infinity or not-a-number.
pub open spec fn is_float_literal(s: Seq<char>) -> bool {
    is_special(unsigned_part(s)) || is_decimal(unsigned_part(s))
}

/// A number, kept exactly as the decimal literal that denotes it. Two numbers
/// are equal (`==`) when their literals are the same text: `1.0` and `1` are
/// different values here, though they denote the same quantity.
#[derive(Debug, PartialEq)]
pub struct Number {
    text: String,
}

impl Number {
    /// Every number's text is a floating-point literal.
    #[verifier::type_invariant]
    spec fn inv(&self) -> bool {
        is_float_literal(self.text@)
    }
}

impl View for Number {
    type V = Seq<char>;

    closed spec fn view(&self) -> Seq<char> {
        self.text@
    }
}

fn upper_of_exec(c: char) -> (r: char)
    ensures
        r == upper_of(c),
{
    match c {
        'a' => 'A',
        'f' => 'F',
        'i' => 'I',
        'n' => 'N',
        't' => 'T',
        'y' => 'Y',
        _ => c,
    }
}

fn spells_exec(s: &Vec<char>, lo: usize, word: &Vec<char>) -> (r: bool)
    requires
        lo <= s.len(),
    ensures
        r == spells(s@.skip(lo as int), word@),
{
    if s.len() - lo != word.len() {
        return false;
    }
    let mut i: usize = 0;
    while i < word.len()
        invariant
            s.len() - lo == word.len(),
            i <= word.len(),
            forall|j: int| 0 <= j < i ==> s@[lo + j] == word@[j] || s@[lo + j] == upper_of(word@[j]),
        decreases word.len() - i,
    {
        let c = s[lo + i];
        if c != word[i] && c != upper_of_exec(word[i]) {
            assert(s@.skip(lo as int)[i as int] == c);
            return false;
        }
        i += 1;
    }
    true
}

pub(crate) fn is_special_exec(s: &Vec<char>, lo: usize) -> (r: bool)
    requires
        lo <= s.len(),
    ensures
        r == is_special(s@.skip(lo as int)),
{
    let inf = vec!['i', 'n', 'f'];
    let infinity = vec!['i', 'n', 'f', 'i', 'n', 'i', 't', 'y'];
    let nan = vec!['n', 'a', 'n'];
    assert(inf@ == seq!['i', 'n', 'f']);
    assert(infinity@ == seq!['i', 'n', 'f', 'i', 'n', 'i', 't', 'y']);
    assert(nan@ == seq!['n', 'a', 'n']);
    spells_exec(s, lo, &inf) || spells_exec(s, lo, &infinity) || spells_exec(s, lo, &nan)
}

fn is_mantissa_exec(s: &Vec<char>) -> (r: bool)
    ensures
        r == is_mantissa(s@),
{
    let mut n_dots: usize = 0;
    let mut seen_digit = false;
    let mut i: usize = 0;
    while i < s.len()
        invariant
            i <= s.len(),
            forall|j: int| 0 <= j < i ==> is_digit(#[trigger] s@[j]) || s@[j] == '.',
            n_dots == dots(s@.take(i as int)),
            n_dots <= 1,
            seen_digit == exists|j: int| 0 <= j < i && is_digit(#[trigger] s@[j]),
        decreases s.len() - i,
    {
        let c = s[i];
        assert(s@.take(i + 1).drop_last() == s@.take(i as int));
        if c == '.' {
            if n_dots == 1 {
                proof { lemma_dots_prefix(s@, i as int + 1); }
                return false;
            }
            n_dots = 1;
        } else if '0' <= c && c <= '9' {
            seen_digit = true;
        } else {
            return false;
        }
        i += 1;
    }
    assert(s@.take(s.len() as int) == s@);
    seen_digit
}

proof fn lemma_dots_prefix(s: Seq<char>, n: int)
    requires
        0 <= n <= s.len(),
    ensures
        dots(s.take(n)) <= dots(s),
    decreases s.len() - n,
{
    if n < s.len() {
        lemma_dots_prefix(s, n + 1);
        assert(s.take(n + 1).drop_last() == s.take(n));
    } else {
        assert(s.take(n) == s);
    }
}

fn is_exponent_exec(s: &Vec<char>) -> (r: bool)
    ensures
        r == is_exponent(s@),
{
    let lo: usize = if s.len() > 0 && (s[0] == '+' || s[0] == '-') { 1 } else { 0 };
    assert(unsigned_part(s@) == s@.skip(lo as int));
    if lo == s.len() {
        return false;
    }
    let mut i: usize = lo;
    while i < s.len()
        invariant
            lo <= i <= s.len(),
            unsigned_part(s@) == s@.skip(lo as int),
            forall|j: int| lo <= j < i ==> is_digit(#[trigger] s@[j]),
        decreases s.len() - i,
    {
        if !('0' <= s[i] && s[i] <= '9') {
            assert(s@.skip(lo as int)[i - lo] == s@[i as int]);
            assert(!is_digit(s@.skip(lo as int)[i - lo]));
            return false;
        }
        i += 1;
    }
    assert forall|j: int| 0 <= j < s@.skip(lo as int).len() implies is_digit(
        #[trigger] s@.skip(lo as int)[j],
    ) by {
        assert(s@.skip(lo as int)[j] == s@[lo + j]);
    }
    true
}

/// Whether `s` from `lo` on is a decimal.
fn is_decimal_exec(s: &Vec<char>, lo: usize) -> (r: bool)
    requires
        lo <= s.len(),
    ensures
        r == is_decimal(s@.skip(lo as int)),
{
    let r = copy_range(s, lo, s.len());
    assert(r@ == s@.skip(lo as int));
    let k = chomp(&r, 0, Stop::ExpMark);
    proof { lemma_scan_end(r@, 0, Stop::ExpMark); }
    if k == r.len() {
        is_mantissa_exec(&r)
    } else {
        let m = copy_range(&r, 0, k);
        let e = copy_range(&r, k + 1, r.len());
        assert(m@ == r@.take(k as int));
        assert(e@ == r@.skip(k + 1));
        is_mantissa_exec(&m) && is_exponent_exec(&e)
    }
}

fn is_float_literal_exec(s: &Vec<char>) -> (r: bool)
    ensures
        r == is_float_literal(s@),
{
    let lo: usize = if s.len() > 0 && (s[0] == '+' || s[0] == '-') { 1 } else { 0 };
    assert(unsigned_part(s@) == s@.skip(lo as int));
    is_special_exec(s, lo) || is_decimal_exec(s, lo)
}

impl Number {
    /// The number that `text` denotes, where it is a floating-point literal.
    pub fn from_literal(text: &Vec<char>) -> (r: Option<Number>)
        ensures
            r is Some <==> is_float_literal(text@),
            r matches Some(n) ==> n@ == text@,
    {
        if is_float_literal_exec(text) {
            Some(Number { text: string_of(text) })
        } else {
            None
        }
    }

    /// The literal that denotes this number.
    pub fn text(&self) -> (r: &String)
        ensures
            r@ == self@,
            is_float_literal(r@),
    {
        proof { use_type_invariant(self); }
        &self.text
    }

    pub fn copy(&self) -> (r: Number)
        ensures
            r@ == self@,
    {
        proof { use_type_invariant(self); }
        Number { text: self.text.clone() }
    }

    /// Whether the number reads as a 64-bit zero (either sign).
    pub fn is_zero(&self) -> (r: bool)
        ensures
            r == denotes_zero(self@),
    {
        proof { use_type_invariant(self); }
        let s = crate::scan::chars_of(self.text.as_str());
        literal_is_zero(&s)
    }
}

} // verus!
