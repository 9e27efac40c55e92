use vstd::prelude::*;
use crate::number::Number;
use crate::scan::{chars_of, string_of};

verus! {

/// The mathematical value of a token.
pub enum Tok {
    Str(Seq<char>),
    Number(Seq<char>),
    Func(Seq<char>),
    Macro(Seq<Tok>),
    Symbol(char),
    Bool(bool),
}

/// A value of the language: a literal, a block of code, or an operator.
#[derive(Debug, PartialEq)]
pub enum PescToken {
    Str(String),
    Number(Number),
    Func(String),
    Macro(Vec<PescToken>),
    Symbol(char),
    Bool(bool),
}

impl PescToken {
    pub open spec fn model(self) -> Tok
        decreases self,
    {
        match self {
            PescToken::Str(s) => Tok::Str(s@),
            PescToken::Number(n) => Tok::Number(n@),
            PescToken::Func(s) => Tok::Func(s@),
            PescToken::Macro(m) => Tok::Macro(
                Seq::new(
                    m.len() as nat,
                    |i: int|
                        if 0 <= i < m.len() {
                            m[i].model()
                        } else {
                            Tok::Bool(false)
                        },
                ),
            ),
            PescToken::Symbol(c) => Tok::Symbol(c),
            PescToken::Bool(b) => Tok::Bool(b),
        }
    }
}

/// The models of a sequence of tokens.
pub open spec fn models(ts: Seq<PescToken>) -> Seq<Tok> {
    Seq::new(ts.len(), |i: int| ts[i].model())
}

pub open spec fn all_bare_chars(t: Seq<char>) -> bool {
    forall|i: int| 0 <= i < t.len() ==> ('0' <= #[trigger] t[i] && t[i] <= '9') || t[i] == '.'
}

/// A number's literal as source text: bare where it is made of digits and points,
/// else in parentheses.
pub open spec fn render_number(t: Seq<char>) -> Seq<char> {
    if all_bare_chars(t) {
        t
    } else {
        seq!['('] + t + seq![')']
    }
}

/// The tokens of a block written one by one, each after the first preceded by a space.
pub open spec fn render_items(m: Seq<Tok>) -> Seq<Seq<char>>
    decreases m,
{
    Seq::new(
        m.len(),
        |i: int|
            if 0 <= i < m.len() {
                if i == 0 {
                    render(m[i])
                } else {
                    seq![' '] + render(m[i])
                }
            } else {
                Seq::empty()
            },
    )
}

/// A token written as source text that reads back as the same token.
pub open spec fn render(t: Tok) -> Seq<char>
    decreases t,
{
    match t {
        Tok::Str(s) => seq!['"'] + s + seq!['"'],
        Tok::Number(n) => render_number(n),
        Tok::Func(s) => seq!['['] + s + seq![']'],
        Tok::Macro(m) => seq!['{'] + render_items(m).flatten() + seq!['}'],
        Tok::Symbol(c) => seq![c],
        Tok::Bool(b) => if b {
            seq!['T']
        } else {
            seq!['F']
        },
    }
}


/// Appends the characters of `s` to `out`.
fn push_str(out: &mut Vec<char>, s: &str)
    ensures
        final(out)@ == old(out)@ + s@,
{
    let mut cs = chars_of(s);
    out.append(&mut cs);
}

impl Clone for PescToken {
    fn clone(&self) -> (r: Self)
        ensures
            r.model() == self.model(),
        decreases self,
    {
        match self {
            PescToken::Str(s) => PescToken::Str(s.clone()),
            PescToken::Number(n) => PescToken::Number(n.copy()),
            PescToken::Func(s) => PescToken::Func(s.clone()),
            PescToken::Macro(m) => {
                let mut out: Vec<PescToken> = Vec::new();
                let mut i: usize = 0;
                while i < m.len()
                    invariant
                        *self == PescToken::Macro(*m),
                        i <= m.len(),
                        out.len() == i,
                        forall|j: int| 0 <= j < i ==> (#[trigger] out@[j]).model() == m@[j].model(),
                    decreases m.len() - i,
                {
                    proof {
                        vstd::std_specs::vec::axiom_vec_index_decreases(*m, i as int);
                        assert(decreases_to!(*self => (*self)->Macro_0));
                        assert(decreases_to!(*m => m[i as int]));
                    }
                    let c = m[i].clone();
                    out.push(c);
                    i += 1;
                }
                let r = PescToken::Macro(out);
                assert(r.model() == self.model()) by {
                    if let Tok::Macro(a) = r.model() {
                        if let Tok::Macro(b) = self.model() {
                            assert(a =~= b);
                        }
                    }
                }
                r
            },
            PescToken::Symbol(c) => PescToken::Symbol(*c),
            PescToken::Bool(b) => PescToken::Bool(*b),
        }
    }
}

fn all_bare_chars_exec(t: &Vec<char>) -> (r: bool)
    ensures
        r == all_bare_chars(t@),
{
    let mut i: usize = 0;
    while i < t.len()
        invariant
            i <= t.len(),
            forall|j: int| 0 <= j < i ==> ('0' <= #[trigger] t@[j] && t@[j] <= '9') || t@[j] == '.',
        decreases t.len() - i,
    {
        if !(('0' <= t[i] && t[i] <= '9') || t[i] == '.') {
            return false;
        }
        i += 1;
    }
    true
}

impl PescToken {
    /// Appends this token, written as source text, to `out`.
    pub fn render_into(&self, out: &mut Vec<char>)
        ensures
            final(out)@ == old(out)@ + render(self.model()),
        decreases self,
    {
        let ghost o = out@;
        match self {
            PescToken::Str(s) => {
                out.push('"');
                push_str(out, s.as_str());
                out.push('"');
                assert(out@ =~= o + render(self.model()));
            },
            PescToken::Number(n) => {
                let t = chars_of(n.text().as_str());
                if all_bare_chars_exec(&t) {
                    push_str(out, n.text().as_str());
                } else {
                    out.push('(');
                    push_str(out, n.text().as_str());
                    out.push(')');
                    assert(out@ =~= o + render(self.model()));
                }
            },
            PescToken::Func(s) => {
                out.push('[');
                push_str(out, s.as_str());
                out.push(']');
                assert(out@ =~= o + render(self.model()));
            },
            PescToken::Macro(m) => {
                let ghost mm = self.model()->Macro_0;
                let ghost items = render_items(mm);
                assert(mm.len() == m.len());
                assert forall|j: int| 0 <= j < m.len() implies #[trigger] items[j] == if j == 0 {
                    render(m@[j].model())
                } else {
                    seq![' '] + render(m@[j].model())
                } by {
                    assert(mm[j] == m@[j].model());
                }
                let ghost start = out@.push('{');
                out.push('{');
                let mut i: usize = 0;
                while i < m.len()
                    invariant
                        *self == PescToken::Macro(*m),
                        i <= m.len(),
                        items.len() == m.len(),
                        forall|j: int| 0 <= j < m.len() ==> #[trigger] items[j] == if j == 0 {
                            render(m@[j].model())
                        } else {
                            seq![' '] + render(m@[j].model())
                        },
                        out@ == start + items.take(i as int).flatten(),
                    decreases m.len() - i,
                {
                    proof {
                        assert(items.take(i + 1) == items.take(i as int).push(items[i as int]));
                        items.take(i as int).lemma_flatten_push(items[i as int]);
                    }
                    if i > 0 {
                        out.push(' ');
                    }
                    proof {
                        vstd::std_specs::vec::axiom_vec_index_decreases(*m, i as int);
                        assert(decreases_to!(*self => (*self)->Macro_0));
                        assert(decreases_to!(*m => m[i as int]));
                    }
                    m[i].render_into(out);
                    i += 1;
                }
                assert(items.take(m.len() as int) == items);
                out.push('}');
                assert(out@ =~= o + render(self.model()));
            },
            PescToken::Symbol(c) => {
                out.push(*c);
            },
            PescToken::Bool(b) => {
                if *b {
                    out.push('T');
                } else {
                    out.push('F');
                }
            },
        }
    }

    /// This token written as source text.
    pub fn to_text(&self) -> (r: String)
        ensures
            r@ == render(self.model()),
    {
        let mut out: Vec<char> = Vec::new();
        self.render_into(&mut out);
        assert(out@ =~= render(self.model()));
        string_of(&out)
    }
}

} // verus!
