use vstd::prelude::*;
use crate::number::{is_float_literal, is_special, is_decimal, is_mantissa, is_exponent, unsigned_part, is_sign, spells, upper_of};
use crate::reader::{parse_from, without_underscores};
use crate::scan::{Stop, scan_end, lemma_scan_end, lemma_scan_end_at, is_digit};
use crate::token::{Tok, render, render_number, all_bare_chars};

verus! {

/// A literal that reads back as itself once written out: a string without a
/// double quote, a function name without a closing bracket, a number (the
/// text of every `Number` is a floating-point literal, as `Number::text`
/// states), or a boolean.
pub open spec fn round_trips(t: Tok) -> bool {
    match t {
        Tok::Str(s) => !s.contains('"'),
        Tok::Func(s) => !s.contains(']'),
        Tok::Number(n) => is_float_literal(n),
        Tok::Bool(_) => true,
        _ => false,
    }
}

proof fn lemma_no_underscore_filter(s: Seq<char>)
    requires
        !s.contains('_'),
    ensures
        without_underscores(s) == s,
    decreases s.len(),
{
    if s.len() > 0 {
        assert(!s.drop_last().contains('_')) by {
            if s.drop_last().contains('_') {
                let k = choose|k: int| 0 <= k < s.drop_last().len() && s.drop_last()[k] == '_';
                assert(s[k] == '_');
            }
        }
        lemma_no_underscore_filter(s.drop_last());
        assert(s.drop_last().push(s.last()) == s);
        s.drop_last().lemma_filter_push(s.last(), |c: char| c != '_');
        assert(s.last() == s[s.len() - 1]);
    }
}

proof fn lemma_spelled_letters(r: Seq<char>, w: Seq<char>)
    requires
        spells(r, w),
        forall|k: int| 0 <= k < w.len() ==> #[trigger] w[k] != ')' && w[k] != '_' && w[k] != 'e'
            && w[k] != 'E' && ('a' <= w[k] && w[k] <= 'z'),
    ensures
        forall|k: int| 0 <= k < r.len() ==> #[trigger] r[k] != ')' && r[k] != '_',
{
    assert forall|k: int| 0 <= k < r.len() implies #[trigger] r[k] != ')' && r[k] != '_' by {
        assert(w[k] != ')' && ('a' <= w[k] && w[k] <= 'z'));
    }
}

/// No character of a floating-point literal is a closing parenthesis or an
/// underscore.
proof fn lemma_literal_chars(n: Seq<char>)
    requires
        is_float_literal(n),
    ensures
        !n.contains(')'),
        !n.contains('_'),
        n.len() > 0,
{
    let r = unsigned_part(n);
    let off: int = if n.len() > 0 && is_sign(n[0]) { 1 } else { 0 };
    assert(r == n.skip(off));
    assert forall|i: int| 0 <= i < r.len() implies #[trigger] r[i] != ')' && r[i] != '_' by {
        if is_special(r) {
            if spells(r, seq!['i', 'n', 'f']) {
                lemma_spelled_letters(r, seq!['i', 'n', 'f']);
            } else if spells(r, seq!['i', 'n', 'f', 'i', 'n', 'i', 't', 'y']) {
                lemma_spelled_letters(r, seq!['i', 'n', 'f', 'i', 'n', 'i', 't', 'y']);
            } else {
                lemma_spelled_letters(r, seq!['n', 'a', 'n']);
            }
        } else {
            let k = scan_end(r, 0, Stop::ExpMark);
            lemma_scan_end(r, 0, Stop::ExpMark);
            if k == r.len() {
                assert(is_digit(r[i]) || r[i] == '.');
            } else if i < k {
                assert(r.take(k)[i] == r[i]);
                assert(is_digit(r.take(k)[i]) || r.take(k)[i] == '.');
            } else if i > k {
                let e = r.skip(k + 1);
                assert(e[i - k - 1] == r[i]);
                let d = unsigned_part(e);
                if e.len() > 0 && is_sign(e[0]) {
                    if i - k - 1 > 0 {
                        assert(d[i - k - 2] == e[i - k - 1]);
                        assert(is_digit(d[i - k - 2]));
                    }
                } else {
                    assert(is_digit(d[i - k - 1]));
                }
            }
        }
    }
    assert(r.len() > 0) by {
        if r.len() == 0 {
            assert(!spells(r, seq!['i', 'n', 'f']));
            assert(!spells(r, seq!['i', 'n', 'f', 'i', 'n', 'i', 't', 'y']));
            assert(!spells(r, seq!['n', 'a', 'n']));
            assert(scan_end(r, 0, Stop::ExpMark) == 0);
        }
    }
    assert(!n.contains(')')) by {
        if n.contains(')') {
            let i = choose|i: int| 0 <= i < n.len() && n[i] == ')';
            if i >= off {
                assert(r[i - off] == n[i]);
            }
        }
    }
    assert(!n.contains('_')) by {
        if n.contains('_') {
            let i = choose|i: int| 0 <= i < n.len() && n[i] == '_';
            if i >= off {
                assert(r[i - off] == n[i]);
            }
        }
    }
}

/// A literal written out as source text reads back as that literal alone, the
/// whole text consumed, whatever operators are registered.
pub proof fn lemma_render_then_parse(known: Set<char>, t: Tok)
    requires
        round_trips(t),
    ensures
        parse_from(known, render(t), 0, Seq::empty()) == Ok::<(int, Seq<Tok>), (int, crate::error::ErrKind)>(
            (render(t).len() as int, seq![t]),
        ),
{
    let r = render(t);
    let e: Seq<Tok> = Seq::empty();
    match t {
        Tok::Str(s) => {
            assert forall|j: int| 1 <= j < 1 + s.len() implies !crate::scan::stops(Stop::Quote, #[trigger] r[j]) by {
                assert(r[j] == s[j - 1]);
                if s[j - 1] == '"' {
                    assert(s.contains('"'));
                }
            }
            assert(r.len() == s.len() + 2);
            assert(r[1 + s.len() as int] == '"');
            lemma_scan_end_at(r, 1, 1 + s.len() as int, Stop::Quote);
            assert(r.subrange(1, 1 + s.len() as int) == s);
            assert(e.push(t) == seq![t]);
            assert(r[0] == '"');
            assert(parse_from(known, r, 0, e) == parse_from(known, r, 2 + s.len() as int, e.push(Tok::Str(s))));
            assert(t == Tok::Str(s));
            assert(parse_from(known, r, 2 + s.len() as int, e.push(Tok::Str(s))) == Ok::<(int, Seq<Tok>), (int, crate::error::ErrKind)>((r.len() as int, seq![t])));
        },
        Tok::Func(s) => {
            assert forall|j: int| 1 <= j < 1 + s.len() implies !crate::scan::stops(Stop::Bracket, #[trigger] r[j]) by {
                assert(r[j] == s[j - 1]);
                if s[j - 1] == ']' {
                    assert(s.contains(']'));
                }
            }
            assert(r.len() == s.len() + 2);
            assert(r[1 + s.len() as int] == ']');
            lemma_scan_end_at(r, 1, 1 + s.len() as int, Stop::Bracket);
            assert(r.subrange(1, 1 + s.len() as int) == s);
            assert(e.push(t) == seq![t]);
            assert(parse_from(known, r, 0, e) == parse_from(known, r, 2 + s.len() as int, e.push(Tok::Func(s))));
        },
        Tok::Number(n) => {
            lemma_literal_chars(n);
            lemma_no_underscore_filter(n);
            if all_bare_chars(n) {
                assert(r == n);
                assert forall|j: int| 1 <= j < n.len() implies !crate::scan::stops(Stop::NonNumeric, #[trigger] r[j]) by {}
                lemma_scan_end_at(r, 1, n.len() as int, Stop::NonNumeric);
                assert(r.subrange(0, n.len() as int) == n);
                assert(crate::reader::starts_number(r[0]));
                assert(parse_from(known, r, 0, e) == crate::reader::number_step(known, r, n, n.len() as int, e));
                assert(parse_from(known, r, 0, e) == parse_from(known, r, n.len() as int, e.push(Tok::Number(n))));
            } else {
                assert forall|j: int| 1 <= j < 1 + n.len() implies !crate::scan::stops(Stop::Paren, #[trigger] r[j]) by {
                    assert(r[j] == n[j - 1]);
                }
                lemma_scan_end_at(r, 1, 1 + n.len() as int, Stop::Paren);
                assert(r.subrange(1, 1 + n.len() as int) == n);
                assert(r[0] == '(');
                assert(r.len() == n.len() + 2);
                assert(r[1 + n.len() as int] == ')');
                assert(parse_from(known, r, 0, e) == crate::reader::number_step(known, r, n, 2 + n.len() as int, e));
                assert(parse_from(known, r, 0, e) == parse_from(known, r, 2 + n.len() as int, e.push(Tok::Number(n))));
            }
            assert(e.push(t) == seq![t]);
        },
        Tok::Bool(b) => {
            assert(e.push(t) == seq![t]);
            assert(parse_from(known, r, 0, e) == parse_from(known, r, 1, e.push(Tok::Bool(b))));
        },
        _ => {},
    }
}

} // verus!
