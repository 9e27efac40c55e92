use vstd::prelude::*;
use crate::engine::{Pesc, PescFunc};
use crate::error::{ErrKind, PescError, PescErrorType};
use crate::number::{Number, is_float_literal};
use crate::scan::{char_at, Stop, is_digit, scan_end, lemma_scan_end, chomp, copy_range, chars_of, string_of};
use crate::token::{PescToken, Tok, models};

verus! {

/// `s` without its underscores.
pub open spec fn without_underscores(s: Seq<char>) -> Seq<char> {
    s.filter(|c: char| c != '_')
}

pub open spec fn starts_number(c: char) -> bool {
    is_digit(c) || c == '.' || c == '_'
}

/// The number token for the literal `raw`, or the error for it; `next` is where
/// reading goes on, or where it stops on the error.
pub open spec fn number_step(
    known: Set<char>,
    s: Seq<char>,
    raw: Seq<char>,
    next: int,
    acc: Seq<Tok>,
) -> Result<(int, Seq<Tok>), (int, ErrKind)>
    decreases (if next < s.len() { s.len() - next } else { 0 }), 3int,
{
    if is_float_literal(without_underscores(raw)) {
        parse_from(known, s, next, acc.push(Tok::Number(without_underscores(raw))))
    } else {
        Err((next, ErrKind::InvalidNumberLit(raw)))
    }
}

/// Reads `s` from position `i` on, after the tokens `acc`, with `known` the
/// characters registered as operators. The result is the position where reading
/// stopped (at an unmatched `}`, or past the end) and all tokens read, or the
/// position and kind of the first error.
pub open spec fn parse_from(known: Set<char>, s: Seq<char>, i: int, acc: Seq<Tok>) -> Result<
    (int, Seq<Tok>),
    (int, ErrKind),
>
    decreases (if i < s.len() { s.len() - i } else { 0 }), 2int,
    via parse_from_decreases
{
    if i < 0 || i >= s.len() {
        Ok((i, acc))
    } else {
        let c = s[i];
        if starts_number(c) {
            let j = scan_end(s, i + 1, Stop::NonNumeric);
            number_step(known, s, s.subrange(i, j), j, acc)
        } else if c == '(' {
            let j = scan_end(s, i + 1, Stop::Paren);
            number_step(known, s, s.subrange(i + 1, j), j + 1, acc)
        } else if c == '"' {
            let j = scan_end(s, i + 1, Stop::Quote);
            parse_from(known, s, j + 1, acc.push(Tok::Str(s.subrange(i + 1, j))))
        } else if c == '[' {
            let j = scan_end(s, i + 1, Stop::Bracket);
            parse_from(known, s, j + 1, acc.push(Tok::Func(s.subrange(i + 1, j))))
        } else if c == '{' {
            match parse_from(known, s, i + 1, Seq::empty()) {
                // The inner reading always ends past `i`; the test makes that
                // visible to the termination check, which cannot use a lemma
                // about this function.
                Ok((e, inner)) => if e > i {
                    parse_from(known, s, e + 1, acc.push(Tok::Macro(inner)))
                } else {
                    Ok((e, acc))
                },
                Err(x) => Err(x),
            }
        } else if c == '}' {
            Ok((i, acc))
        } else if c == '\n' || c == '\t' || c == ' ' {
            parse_from(known, s, i + 1, acc)
        } else if c == '\\' {
            parse_from(known, s, scan_end(s, i + 1, Stop::CommentEnd) + 1, acc)
        } else if c == 'T' {
            parse_from(known, s, i + 1, acc.push(Tok::Bool(true)))
        } else if c == 'F' {
            parse_from(known, s, i + 1, acc.push(Tok::Bool(false)))
        } else {
            symbol_step(known, s, c, i + 1, acc)
        }
    }
}

pub open spec fn is_op(known: Set<char>, c: char) -> bool {
    known.contains(c)
}

/// A character that stands for itself, read just before `next`: an operator where it is
/// registered as one, else an error.
pub open spec fn symbol_step(
    known: Set<char>,
    s: Seq<char>,
    c: char,
    next: int,
    acc: Seq<Tok>,
) -> Result<(int, Seq<Tok>), (int, ErrKind)>
    decreases (if next < s.len() { s.len() - next } else { 0 }), 3int,
{
    if is_op(known, c) {
        parse_from(known, s, next, acc.push(Tok::Symbol(c)))
    } else {
        Err((next - 1, ErrKind::UnknownFunction(seq!['\'', c, '\''])))
    }
}

#[via_fn]
proof fn parse_from_decreases(known: Set<char>, s: Seq<char>, i: int, acc: Seq<Tok>) {
    if 0 <= i < s.len() {
        lemma_scan_end(s, i + 1, Stop::NonNumeric);
        lemma_scan_end(s, i + 1, Stop::Paren);
        lemma_scan_end(s, i + 1, Stop::Quote);
        lemma_scan_end(s, i + 1, Stop::Bracket);
        lemma_scan_end(s, i + 1, Stop::CommentEnd);
    }
}


fn strip_underscores(raw: &Vec<char>) -> (r: Vec<char>)
    ensures
        r@ == without_underscores(raw@),
{
    let mut out: Vec<char> = Vec::new();
    let mut i: usize = 0;
    while i < raw.len()
        invariant
            i <= raw.len(),
            out@ == without_underscores(raw@.take(i as int)),
        decreases raw.len() - i,
    {
        proof {
            assert(raw@.take(i + 1) == raw@.take(i as int).push(raw@[i as int]));
            raw@.take(i as int).lemma_filter_push(raw@[i as int], |c: char| c != '_');
        }
        if raw[i] != '_' {
            out.push(raw[i]);
        }
        i += 1;
    }
    assert(raw@.take(raw.len() as int) == raw@);
    out
}

/// The number that the literal `raw` denotes once its underscores are dropped.
fn read_number(raw: &Vec<char>) -> (r: Option<Number>)
    ensures
        r is Some <==> is_float_literal(without_underscores(raw@)),
        r matches Some(n) ==> n@ == without_underscores(raw@),
{
    let cleaned = strip_underscores(raw);
    Number::from_literal(&cleaned)
}

pub proof fn lemma_models_push(v: Seq<PescToken>, t: PescToken)
    ensures
        models(v.push(t)) == models(v).push(t.model()),
{
    assert(models(v.push(t)) =~= models(v).push(t.model()));
}

pub proof fn lemma_macro_model(m: Vec<PescToken>)
    ensures
        PescToken::Macro(m).model() == Tok::Macro(models(m@)),
{
    assert(PescToken::Macro(m).model()->Macro_0 =~= models(m@));
}

proof fn lemma_symbol_step(known: Set<char>, s: Seq<char>, c: char, next: int, acc: Seq<Tok>)
    requires
        is_op(known, c),
    ensures
        symbol_step(known, s, c, next, acc) == parse_from(known, s, next, acc.push(Tok::Symbol(c))),
{
}

proof fn lemma_symbol_model(c: char)
    ensures
        PescToken::Symbol(c).model() == Tok::Symbol(c),
{
}

proof fn lemma_symbol_branch(known: Set<char>, s: Seq<char>, i: int, acc: Seq<Tok>)
    requires
        0 <= i < s.len(),
        !starts_number(s[i]),
        s[i] != '(' && s[i] != '"' && s[i] != '[' && s[i] != '{' && s[i] != '}',
        s[i] != '\n' && s[i] != '\t' && s[i] != ' ' && s[i] != '\\' && s[i] != 'T' && s[i] != 'F',
        is_op(known, s[i]),
    ensures
        parse_from(known, s, i, acc) == parse_from(known, s, i + 1, acc.push(Tok::Symbol(s[i]))),
{
    assert(parse_from(known, s, i, acc) == symbol_step(known, s, s[i], i + 1, acc));
    lemma_symbol_step(known, s, s[i], i + 1, acc);
}

fn push_symbol(toks: &mut Vec<PescToken>, c: char)
    ensures
        models(final(toks)@) == models(old(toks)@).push(Tok::Symbol(c)),
{
    let t = PescToken::Symbol(c);
    proof {
        lemma_symbol_model(c);
        lemma_models_push(toks@, t);
    }
    toks.push(t);
}

/// One step of reading from `i` went as the reader's definition says: on
/// success to `j`, with the tokens `after`; on failure with `e`.
pub open spec fn stepped(
    known: Set<char>,
    s: Seq<char>,
    i: int,
    before: Seq<Tok>,
    r: Result<usize, PescError>,
    after: Seq<Tok>,
) -> bool {
    match r {
        Ok(j) => i < j <= s.len() + 1 && parse_from(known, s, i, before) == parse_from(
            known,
            s,
            j as int,
            after,
        ),
        Err(e) => e.pos is Some && e.token is None && e.pos->Some_0 <= s.len() + 1
            && parse_from(known, s, i, before) == Err::<(int, Seq<Tok>), (int, ErrKind)>(
            (e.pos->Some_0 as int, e.kind.model()),
        ),
    }
}

impl<F: PescFunc> Pesc<F> {
    /// Reads `input` into tokens, with the operators registered now. Returns
    /// where reading stopped and the tokens, or the first error and its offset.
    pub fn parse(&self, input: &str) -> (r: Result<(usize, Vec<PescToken>), PescError>)
        requires
            input@.len() < usize::MAX / 2,
        ensures
            match parse_from(self.known_ops(), input@, 0, Seq::empty()) {
                Ok((p, ts)) => (r matches Ok((q, v)) && q == p && models(v@) == ts),
                Err((p, k)) => (r matches Err(e) && e.pos == Some(p as usize) && e.token is None
                    && e.kind.model() == k),
            },
    {
        let chs = chars_of(input);
        self.parse_at(&chs, 0)
    }

    /// Reads a number literal, bare or in parentheses, at `i`.
    fn read_number_at(&self, chs: &Vec<char>, i: usize, toks: &mut Vec<PescToken>) -> (r: Result<usize, PescError>)
        requires
            i < chs.len() < usize::MAX / 2,
            starts_number(chs@[i as int]) || chs@[i as int] == '(',
        ensures
            stepped(self.known_ops(), chs@, i as int, models(old(toks)@), r, models(final(toks)@)),
    {
        let ghost known = self.known_ops();
        let ghost s = chs@;
        let ghost acc = models(toks@);
        let bare = char_at(chs, i) != '(';
        let j = if bare { chomp(chs, i + 1, Stop::NonNumeric) } else { chomp(chs, i + 1, Stop::Paren) };
        proof {
            lemma_scan_end(s, i + 1, Stop::NonNumeric);
            lemma_scan_end(s, i + 1, Stop::Paren);
        }
        let raw = if bare { copy_range(chs, i, j) } else { copy_range(chs, i + 1, j) };
        let next = if bare { j } else { j + 1 };
        assert(parse_from(known, s, i as int, acc) == number_step(known, s, raw@, next as int, acc));
        match read_number(&raw) {
            Some(n) => {
                let t = PescToken::Number(n);
                proof { lemma_models_push(toks@, t); }
                toks.push(t);
                Ok(next)
            },
            None => Err(PescError::new(Some(next), None, PescErrorType::InvalidNumberLit(string_of(&raw)))),
        }
    }

    /// Reads a string or a function reference at `i`.
    fn read_delimited(&self, chs: &Vec<char>, i: usize, toks: &mut Vec<PescToken>) -> (r: Result<usize, PescError>)
        requires
            i < chs.len() < usize::MAX / 2,
            chs@[i as int] == '"' || chs@[i as int] == '[',
        ensures
            stepped(self.known_ops(), chs@, i as int, models(old(toks)@), r, models(final(toks)@)),
    {
        let ghost known = self.known_ops();
        let ghost s = chs@;
        let quote = char_at(chs, i) == '"';
        let j = if quote { chomp(chs, i + 1, Stop::Quote) } else { chomp(chs, i + 1, Stop::Bracket) };
        proof {
            lemma_scan_end(s, i + 1, Stop::Quote);
            lemma_scan_end(s, i + 1, Stop::Bracket);
        }
        let text = string_of(&copy_range(chs, i + 1, j));
        let t = if quote { PescToken::Str(text) } else { PescToken::Func(text) };
        proof { lemma_models_push(toks@, t); }
        toks.push(t);
        Ok(j + 1)
    }

    /// Reads a character that is a token, or no token, by itself at `i`.
    fn read_single(&self, chs: &Vec<char>, i: usize, toks: &mut Vec<PescToken>) -> (r: Result<usize, PescError>)
        requires
            i < chs.len() < usize::MAX / 2,
            !starts_number(chs@[i as int]),
            chs@[i as int] != '(' && chs@[i as int] != '"' && chs@[i as int] != '[',
            chs@[i as int] != '{' && chs@[i as int] != '}',
        ensures
            stepped(self.known_ops(), chs@, i as int, models(old(toks)@), r, models(final(toks)@)),
    {
        let ghost known = self.known_ops();
        let ghost s = chs@;
        let ghost acc = models(toks@);
        let ch = char_at(chs, i);
        if ch == '\n' || ch == '\t' || ch == ' ' {
            assert(parse_from(known, s, i as int, acc) == parse_from(known, s, i + 1, acc));
            Ok(i + 1)
        } else if ch == '\\' {
            let j = chomp(chs, i + 1, Stop::CommentEnd);
            proof { lemma_scan_end(s, i + 1, Stop::CommentEnd); }
            assert(parse_from(known, s, i as int, acc) == parse_from(known, s, j + 1, acc));
            Ok(j + 1)
        } else if ch == 'T' || ch == 'F' {
            let t = PescToken::Bool(ch == 'T');
            proof { lemma_models_push(toks@, t); }
            toks.push(t);
            Ok(i + 1)
        } else {
            if self.has_op(ch) {
                push_symbol(toks, ch);
                proof { lemma_symbol_branch(known, s, i as int, acc); }
                Ok(i + 1)
            } else {
                assert(parse_from(known, s, i as int, acc) == symbol_step(known, s, ch, i + 1, acc));
                let quoted = vec!['\'', ch, '\''];
                assert(quoted@ == seq!['\'', ch, '\'']);
                Err(PescError::new(Some(i), None, PescErrorType::UnknownFunction(string_of(&quoted))))
            }
        }
    }

    fn parse_at(&self, chs: &Vec<char>, start: usize) -> (r: Result<(usize, Vec<PescToken>), PescError>)
        requires
            start <= chs.len(),
            chs.len() < usize::MAX / 2,
        ensures
            match parse_from(self.known_ops(), chs@, start as int, Seq::empty()) {
                Ok((p, ts)) => (r matches Ok((q, v)) && q == p && models(v@) == ts),
                Err((p, k)) => (r matches Err(e) && e.pos == Some(p as usize) && e.token is None
                    && e.kind.model() == k),
            },
            r matches Ok((q, v)) ==> start < q + 1 && q <= 2 * chs.len() + 1 - start,
        decreases chs.len() - start,
    {
        let ghost known = self.known_ops();
        let ghost s = chs@;
        let ghost len = chs.len() as int;
        let mut toks: Vec<PescToken> = Vec::new();
        let mut i: usize = start;
        assert(models(toks@) =~= Seq::<Tok>::empty());
        while i < chs.len()
            invariant
                known == self.known_ops(),
                s == chs@,
                len == chs.len(),
                start <= chs.len() < usize::MAX / 2,
                start <= i <= 2 * len + 1 - start,
                parse_from(known, s, i as int, models(toks@)) == parse_from(
                    known,
                    s,
                    start as int,
                    Seq::empty(),
                ),
            decreases (if i < chs.len() { chs.len() - i } else { 0 }),
        {
            let ghost acc = models(toks@);
            let c = char_at(chs, i);
            let step = if ('0' <= c && c <= '9') || c == '.' || c == '_' || c == '(' {
                self.read_number_at(chs, i, &mut toks)
            } else if c == '"' || c == '[' {
                self.read_delimited(chs, i, &mut toks)
            } else if c == '{' {
                match self.parse_at(chs, i + 1) {
                    Ok((e, inner)) => {
                        proof { lemma_macro_model(inner); }
                        assert(parse_from(known, s, i as int, acc) == parse_from(
                            known,
                            s,
                            e + 1,
                            acc.push(Tok::Macro(models(inner@))),
                        ));
                        let t = PescToken::Macro(inner);
                        proof { lemma_models_push(toks@, t); }
                        toks.push(t);
                        Ok(e + 1)
                    },
                    Err(x) => Err(x),
                }
            } else if c == '}' {
                return Ok((i, toks));
            } else {
                self.read_single(chs, i, &mut toks)
            };
            match step {
                Ok(j) => {
                    i = j;
                },
                Err(x) => {
                    return Err(x);
                },
            }
        }
        Ok((i, toks))
    }
}

} // verus!
