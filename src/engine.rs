use vstd::prelude::*;
use std::rc::Rc;
use crate::error::{ErrKind, PescError, PescErrorType};
use crate::magnitude::denotes_zero;
use crate::number::Number;
use crate::token::{PescToken, Tok, models, render};

verus! {

broadcast use vstd::string::to_string_from_display_ensures_for_str;

/// A function that can be registered with an interpreter and run on it.
pub trait PescFunc: Sized {
    fn call(&self, p: &mut Pesc<Self>) -> Result<(), PescErrorType>;
}

/// The interpreter: the operand stack, whose top is its last element, the named
/// functions, and the single-character operators that stand for function names.
pub struct Pesc<F: PescFunc> {
    pub stack: Vec<PescToken>,
    pub funcs: Vec<(String, Rc<F>)>,
    pub ops: Vec<(char, String)>,
}

/// The value of the first entry with key `k`.
pub open spec fn lookup<K, V>(s: Seq<(K, V)>, k: K) -> Option<V>
    decreases s.len(),
{
    if s.len() == 0 {
        None
    } else if s[0].0 == k {
        Some(s[0].1)
    } else {
        lookup(s.drop_first(), k)
    }
}

pub proof fn lemma_lookup_update<K, V>(s: Seq<(K, V)>, i: int, e: (K, V), k: K)
    requires
        0 <= i < s.len(),
        s[i].0 == e.0,
        forall|j: int| 0 <= j < i ==> (#[trigger] s[j]).0 != e.0,
    ensures
        lookup(s.update(i, e), k) == if k == e.0 { Some(e.1) } else { lookup(s, k) },
    decreases i,
{
    if i > 0 {
        assert(s.update(i, e).drop_first() == s.drop_first().update(i - 1, e));
        assert forall|j: int| 0 <= j < i - 1 implies (#[trigger] s.drop_first()[j]).0 != e.0 by {
            assert(s.drop_first()[j] == s[j + 1]);
        }
        lemma_lookup_update(s.drop_first(), i - 1, e, k);
        assert(s[0].0 != e.0);
    } else {
        assert(s.update(i, e).drop_first() == s.drop_first());
    }
}

pub proof fn lemma_lookup_push<K, V>(s: Seq<(K, V)>, e: (K, V), k: K)
    requires
        lookup(s, e.0) is None,
    ensures
        lookup(s.push(e), k) == if k == e.0 { Some(e.1) } else { lookup(s, k) },
    decreases s.len(),
{
    if s.len() > 0 {
        assert(s.push(e).drop_first() == s.drop_first().push(e));
        lemma_lookup_push(s.drop_first(), e, k);
    } else {
        assert(s.push(e).drop_first() == s);
    }
}

/// No two entries share a key.
pub open spec fn unique_keys<K, V>(s: Seq<(K, V)>) -> bool {
    forall|i: int, j: int| 0 <= i < j < s.len() ==> (#[trigger] s[i]).0 != (#[trigger] s[j]).0
}

pub proof fn lemma_lookup_none<K, V>(s: Seq<(K, V)>, k: K)
    requires
        lookup(s, k) is None,
    ensures
        forall|j: int| 0 <= j < s.len() ==> (#[trigger] s[j]).0 != k,
    decreases s.len(),
{
    if s.len() > 0 {
        lemma_lookup_none(s.drop_first(), k);
        assert forall|j: int| 0 <= j < s.len() implies (#[trigger] s[j]).0 != k by {
            if j > 0 {
                assert(s[j] == s.drop_first()[j - 1]);
            }
        }
    }
}

/// Entries before position `i` whose keys differ from `k` do not change what `k`
/// finds.
pub proof fn lemma_lookup_index<K, V>(s: Seq<(K, V)>, k: K, i: int)
    requires
        0 <= i <= s.len(),
        forall|j: int| 0 <= j < i ==> (#[trigger] s[j]).0 != k,
    ensures
        lookup(s, k) == lookup(s.skip(i), k),
    decreases i,
{
    if i > 0 {
        assert forall|j: int| 0 <= j < i - 1 implies (#[trigger] s.drop_first()[j]).0 != k by {
            assert(s.drop_first()[j] == s[j + 1]);
        }
        lemma_lookup_index(s.drop_first(), k, i - 1);
        assert(s.drop_first().skip(i - 1) == s.skip(i));
    } else {
        assert(s.skip(0) == s);
    }
}

/// The position in `stack` of the value at depth `n` from the top, the top being
/// at depth 0.
pub open spec fn depth_index(len: int, n: int) -> int {
    len - 1 - n
}

impl<F: PescFunc> Pesc<F> {
    pub open spec fn stack_model(&self) -> Seq<Tok> {
        models(self.stack@)
    }

    /// The operator table, with names as character sequences.
    pub open spec fn op_table(&self) -> Seq<(char, Seq<char>)> {
        self.ops@.map_values(|e: (char, String)| (e.0, e.1@))
    }

    /// The function table, with names as character sequences.
    pub open spec fn func_table(&self) -> Seq<(Seq<char>, Rc<F>)> {
        self.funcs@.map_values(|e: (String, Rc<F>)| (e.0@, e.1))
    }

    /// Each name and each operator has at most one entry.
    pub open spec fn wf(&self) -> bool {
        unique_keys(self.op_table()) && unique_keys(self.func_table())
    }

    /// The function name that operator `c` stands for.
    pub open spec fn op_target(&self, c: char) -> Option<Seq<char>> {
        lookup(self.op_table(), c)
    }

    /// The function registered under `name`.
    pub open spec fn func_of(&self, name: Seq<char>) -> Option<Rc<F>> {
        lookup(self.func_table(), name)
    }

    /// The characters that are registered as operators.
    pub open spec fn known_ops(&self) -> Set<char> {
        Set::new(|c: char| self.op_target(c) is Some)
    }

    pub fn new() -> (r: Self)
        ensures
            r.stack@.len() == 0,
            r.funcs@.len() == 0,
            r.ops@.len() == 0,
            r.wf(),
    {
        Pesc { stack: Vec::new(), funcs: Vec::new(), ops: Vec::new() }
    }

    fn find_op(&self, c: char) -> (r: Option<usize>)
        ensures
            r is None <==> self.op_target(c) is None,
            r matches Some(k) ==> k < self.ops.len() && self.ops@[k as int].0 == c
                && self.op_target(c) == Some(self.ops@[k as int].1@)
                && forall|j: int| 0 <= j < k ==> (#[trigger] self.ops@[j]).0 != c,
    {
        let ghost t = self.op_table();
        let mut i: usize = 0;
        while i < self.ops.len()
            invariant
                t == self.op_table(),
                t.len() == self.ops.len(),
                i <= self.ops.len(),
                forall|j: int| 0 <= j < i ==> (#[trigger] self.ops@[j]).0 != c,
            decreases self.ops.len() - i,
        {
            if self.ops[i].0 == c {
                proof {
                    assert forall|j: int| 0 <= j < i implies (#[trigger] t[j]).0 != c by {
                        assert(t[j].0 == self.ops@[j].0);
                    }
                    lemma_lookup_index(t, c, i as int);
                    assert(t.skip(i as int)[0] == t[i as int]);
                }
                return Some(i);
            }
            i += 1;
        }
        proof {
            assert forall|j: int| 0 <= j < i implies (#[trigger] t[j]).0 != c by {
                assert(t[j].0 == self.ops@[j].0);
            }
            lemma_lookup_index(t, c, i as int);
        }
        None
    }

    fn find_func(&self, name: &String) -> (r: Option<usize>)
        ensures
            r is None <==> self.func_of(name@) is None,
            r matches Some(k) ==> k < self.funcs.len() && self.funcs@[k as int].0@ == name@
                && self.func_of(name@) == Some(self.funcs@[k as int].1)
                && forall|j: int| 0 <= j < k ==> (#[trigger] self.funcs@[j]).0@ != name@,
    {
        let ghost t = self.func_table();
        let mut i: usize = 0;
        while i < self.funcs.len()
            invariant
                t == self.func_table(),
                t.len() == self.funcs.len(),
                i <= self.funcs.len(),
                forall|j: int| 0 <= j < i ==> (#[trigger] self.funcs@[j]).0@ != name@,
            decreases self.funcs.len() - i,
        {
            if self.funcs[i].0 == *name {
                proof {
                    assert forall|j: int| 0 <= j < i implies (#[trigger] t[j]).0 != name@ by {
                        assert(t[j].0 == self.funcs@[j].0@);
                    }
                    lemma_lookup_index(t, name@, i as int);
                    assert(t.skip(i as int)[0] == t[i as int]);
                }
                return Some(i);
            }
            i += 1;
        }
        proof {
            assert forall|j: int| 0 <= j < i implies (#[trigger] t[j]).0 != name@ by {
                assert(t[j].0 == self.funcs@[j].0@);
            }
            lemma_lookup_index(t, name@, i as int);
        }
        None
    }

    /// Whether `c` is registered as an operator.
    pub fn has_op(&self, c: char) -> (r: bool)
        ensures
            r == self.known_ops().contains(c),
    {
        self.find_op(c).is_some()
    }

    /// Registers `func` under `fnname`, and `op` as an operator for it if given;
    /// an earlier entry of the same name or operator is replaced.
    pub fn load(&mut self, op: Option<char>, fnname: &str, func: Rc<F>)
        ensures
            final(self).stack@ == old(self).stack@,
            final(self).func_of(fnname@) == Some(func),
            forall|n: Seq<char>| n != fnname@ ==> #[trigger] final(self).func_of(n) == old(self).func_of(n),
            op matches Some(o) ==> final(self).op_target(o) == Some(fnname@),
            forall|c: char| op != Some(c) ==> #[trigger] final(self).op_target(c) == old(self).op_target(c),
            old(self).wf() ==> final(self).wf(),
    {
        if let Some(o) = op {
            let ghost t0 = self.op_table();
            let name = fnname.to_string();
            match self.find_op(o) {
                Some(k) => {
                    self.ops.set(k, (o, name));
                    proof {
                        assert(self.op_table() == t0.update(k as int, (o, fnname@)));
                        if unique_keys(t0) {
                            let t = self.op_table();
                            assert forall|i: int, j: int| 0 <= i < j < t.len() implies t[i].0 != t[j].0 by {
                                assert(t[i].0 == t0[i].0 && t[j].0 == t0[j].0);
                                if j < t0.len() {
                                    assert(t0[i].0 != t0[j].0);
                                }
                            }
                        }
                        assert forall|j: int| 0 <= j < k implies (#[trigger] t0[j]).0 != o by {
                            assert(t0[j].0 == old(self).ops@[j].0);
                        }
                        assert forall|c: char| #[trigger] self.op_target(c) == if c == o {
                            Some(fnname@)
                        } else {
                            lookup(t0, c)
                        } by {
                            lemma_lookup_update(t0, k as int, (o, fnname@), c);
                        }
                    }
                },
                None => {
                    self.ops.push((o, name));
                    proof {
                        assert(self.op_table() == t0.push((o, fnname@)));
                        lemma_lookup_none(t0, o);
                        if unique_keys(t0) {
                            let t = self.op_table();
                            assert forall|i: int, j: int| 0 <= i < j < t.len() implies t[i].0 != t[j].0 by {
                                assert(t[i] == t0[i]);
                                if j < t0.len() {
                                    assert(t0[i].0 != t0[j].0);
                                }
                            }
                        }
                        assert forall|c: char| #[trigger] self.op_target(c) == if c == o {
                            Some(fnname@)
                        } else {
                            lookup(t0, c)
                        } by {
                            lemma_lookup_push(t0, (o, fnname@), c);
                        }
                    }
                },
            }
        }
        assert(op matches Some(o) ==> self.op_target(o) == Some(fnname@));
        assert(forall|c: char| op != Some(c) ==> #[trigger] self.op_target(c) == old(self).op_target(c));
        let ghost mid = *self;
        let ghost t1 = self.func_table();
        let name = fnname.to_string();
        match self.find_func(&name) {
            Some(k) => {
                self.funcs.set(k, (name, func));
                proof {
                    assert(self.func_table() == t1.update(k as int, (fnname@, func)));
                    if unique_keys(t1) {
                        let t = self.func_table();
                        assert forall|i: int, j: int| 0 <= i < j < t.len() implies t[i].0 != t[j].0 by {
                            assert(t[i].0 == t1[i].0 && t[j].0 == t1[j].0);
                            if j < t1.len() {
                                assert(t1[i].0 != t1[j].0);
                            }
                        }
                    }
                    assert forall|j: int| 0 <= j < k implies (#[trigger] t1[j]).0 != fnname@ by {
                        assert(t1[j].0 == mid.funcs@[j].0@);
                    }
                    assert forall|n: Seq<char>| #[trigger] self.func_of(n) == if n == fnname@ {
                        Some(func)
                    } else {
                        lookup(t1, n)
                    } by {
                        lemma_lookup_update(t1, k as int, (fnname@, func), n);
                    }
                }
            },
            None => {
                self.funcs.push((name, func));
                proof {
                    assert(self.func_table() == t1.push((fnname@, func)));
                    lemma_lookup_none(t1, fnname@);
                    if unique_keys(t1) {
                        let t = self.func_table();
                        assert forall|i: int, j: int| 0 <= i < j < t.len() implies t[i].0 != t[j].0 by {
                            assert(t[i] == t1[i]);
                            if j < t1.len() {
                                assert(t1[i].0 != t1[j].0);
                            }
                        }
                    }
                    assert forall|n: Seq<char>| #[trigger] self.func_of(n) == if n == fnname@ {
                        Some(func)
                    } else {
                        lookup(t1, n)
                    } by {
                        lemma_lookup_push(t1, (fnname@, func), n);
                    }
                }
            },
        }
        assert(self.op_table() == mid.op_table());
        assert forall|c: char| #[trigger] self.op_target(c) == mid.op_target(c) by {}
        assert(old(self).wf() ==> mid.wf());
    }

    /// The value at depth `i`, where the top is at depth 0.
    pub fn nth_ref(&self, i: usize) -> (r: Result<&PescToken, PescErrorType>)
        ensures
            i < self.stack.len() <==> r is Ok,
            r matches Ok(v) ==> *v == self.stack@[depth_index(self.stack.len() as int, i as int)],
            r matches Err(e) ==> e == PescErrorType::OutOfBounds(i, self.stack.len()),
    {
        let len = self.stack.len();
        if i < len {
            Ok(&self.stack[len - 1 - i])
        } else {
            Err(PescErrorType::OutOfBounds(i, len))
        }
    }

    /// Replaces the value at depth `i`, where the top is at depth 0.
    pub fn set(&mut self, i: usize, v: PescToken) -> (r: Result<(), PescErrorType>)
        ensures
            i < old(self).stack.len() <==> r is Ok,
            r is Ok ==> final(self).stack@ == old(self).stack@.update(
                depth_index(old(self).stack.len() as int, i as int),
                v,
            ),
            r matches Err(e) ==> e == PescErrorType::OutOfBounds(i, old(self).stack.len())
                && final(self).stack@ == old(self).stack@,
            final(self).funcs@ == old(self).funcs@,
            final(self).ops@ == old(self).ops@,
    {
        let len = self.stack.len();
        if len <= i {
            Err(PescErrorType::OutOfBounds(i, len))
        } else {
            self.stack.set(len - 1 - i, v);
            Ok(())
        }
    }

    pub fn push(&mut self, v: PescToken)
        ensures
            final(self).stack@ == old(self).stack@.push(v),
            final(self).funcs@ == old(self).funcs@,
            final(self).ops@ == old(self).ops@,
    {
        self.stack.push(v)
    }

    /// Removes and returns the top value.
    pub fn pop(&mut self) -> (r: Result<PescToken, PescErrorType>)
        ensures
            old(self).stack.len() > 0 <==> r is Ok,
            r matches Ok(v) ==> v == old(self).stack@.last() && final(self).stack@
                == old(self).stack@.drop_last(),
            r matches Err(e) ==> e == PescErrorType::NotEnoughArguments && final(self).stack@
                == old(self).stack@,
            final(self).funcs@ == old(self).funcs@,
            final(self).ops@ == old(self).ops@,
    {
        match self.stack.pop() {
            Some(value) => Ok(value),
            None => Err(PescErrorType::NotEnoughArguments),
        }
    }

    /// Removes the top value and returns it where it is a number; the value is
    /// removed either way.
    pub fn pop_number(&mut self) -> (r: Result<Number, PescErrorType>)
        ensures
            final(self).stack@ == if old(self).stack.len() > 0 {
                old(self).stack@.drop_last()
            } else {
                old(self).stack@
            },
            old(self).stack.len() == 0 ==> (r matches Err(e) && e == PescErrorType::NotEnoughArguments),
            old(self).stack.len() > 0 ==> match old(self).stack@.last().model() {
                Tok::Number(n) => (r matches Ok(x) && x@ == n),
                t => (r matches Err(e) && e.model() == ErrKind::InvalidArgumentType("number"@, render(t))),
            },
            final(self).funcs@ == old(self).funcs@,
            final(self).ops@ == old(self).ops@,
    {
        let v = self.pop()?;
        if let PescToken::Number(n) = v {
            Ok(n)
        } else {
            Err(PescErrorType::InvalidArgumentType("number".to_string(), v.to_text()))
        }
    }

    /// Removes the top value and returns it where it is a string; the value is
    /// removed either way.
    pub fn pop_string(&mut self) -> (r: Result<String, PescErrorType>)
        ensures
            final(self).stack@ == if old(self).stack.len() > 0 {
                old(self).stack@.drop_last()
            } else {
                old(self).stack@
            },
            old(self).stack.len() == 0 ==> (r matches Err(e) && e == PescErrorType::NotEnoughArguments),
            old(self).stack.len() > 0 ==> match old(self).stack@.last().model() {
                Tok::Str(s) => (r matches Ok(x) && x@ == s),
                t => (r matches Err(e) && e.model() == ErrKind::InvalidArgumentType("string"@, render(t))),
            },
            final(self).funcs@ == old(self).funcs@,
            final(self).ops@ == old(self).ops@,
    {
        let v = self.pop()?;
        if let PescToken::Str(n) = v {
            Ok(n)
        } else {
            Err(PescErrorType::InvalidArgumentType("string".to_string(), v.to_text()))
        }
    }

    /// Removes the top value and returns its tokens where it is a block; the
    /// value is removed either way.
    pub fn pop_macro(&mut self) -> (r: Result<Vec<PescToken>, PescErrorType>)
        ensures
            final(self).stack@ == if old(self).stack.len() > 0 {
                old(self).stack@.drop_last()
            } else {
                old(self).stack@
            },
            old(self).stack.len() == 0 ==> (r matches Err(e) && e == PescErrorType::NotEnoughArguments),
            old(self).stack.len() > 0 ==> match old(self).stack@.last().model() {
                Tok::Macro(m) => (r matches Ok(x) && models(x@) == m),
                t => (r matches Err(e) && e.model() == ErrKind::InvalidArgumentType("macro"@, render(t))),
            },
            final(self).funcs@ == old(self).funcs@,
            final(self).ops@ == old(self).ops@,
    {
        let v = self.pop()?;
        if let PescToken::Macro(m) = v {
            assert(models(m@) =~= v.model()->Macro_0);
            Ok(m)
        } else {
            Err(PescErrorType::InvalidArgumentType("macro".to_string(), v.to_text()))
        }
    }

    /// Removes the top value and returns its truth value: a string is true
    /// unless empty, a number unless zero, a boolean is itself; the value is
    /// removed either way.
    pub fn pop_boolean(&mut self) -> (r: Result<bool, PescErrorType>)
        ensures
            final(self).stack@ == if old(self).stack.len() > 0 {
                old(self).stack@.drop_last()
            } else {
                old(self).stack@
            },
            old(self).stack.len() == 0 ==> (r matches Err(e) && e == PescErrorType::NotEnoughArguments),
            old(self).stack.len() > 0 ==> match old(self).stack@.last().model() {
                Tok::Str(s) => r == Ok::<bool, PescErrorType>(s.len() != 0),
                Tok::Number(n) => r == Ok::<bool, PescErrorType>(!denotes_zero(n)),
                Tok::Bool(b) => r == Ok::<bool, PescErrorType>(b),
                t => (r matches Err(e) && e.model() == ErrKind::InvalidBoolean(t)),
            },
            final(self).funcs@ == old(self).funcs@,
            final(self).ops@ == old(self).ops@,
    {
        let v = self.pop()?;
        match v {
            PescToken::Str(s) => Ok(s.as_str().unicode_len() != 0),
            PescToken::Number(n) => Ok(!n.is_zero()),
            PescToken::Bool(b) => Ok(b),
            _ => Err(PescErrorType::InvalidBoolean(v)),
        }
    }

    /// Settles a function call from what the function returned: a success
    /// keeps the stack the function left; a failure puts `backup`, the stack
    /// from before the call, back in place, and returns the stack the function
    /// left together with its error.
    pub fn finish_call(&mut self, outcome: Result<(), PescErrorType>, backup: Vec<PescToken>) -> (r: Result<
        (),
        (Vec<PescToken>, PescErrorType),
    >)
        ensures
            outcome is Ok ==> r is Ok && final(self).stack@ == old(self).stack@,
            outcome is Err ==> r is Err && r->Err_0.1 == outcome->Err_0 && r->Err_0.0@ == old(
                self,
            ).stack@ && final(self).stack@ == backup@,
            final(self).funcs@ == old(self).funcs@,
            final(self).ops@ == old(self).ops@,
    {
        match outcome {
            Ok(()) => Ok(()),
            Err(e) => {
                let mut bad = backup;
                std::mem::swap(&mut self.stack, &mut bad);
                Err((bad, e))
            },
        }
    }

    /// Runs the function registered under `name`; where it fails, the stack is
    /// put back as it was before the call, and the stack it left is returned.
    fn call_named(&mut self, name: &String) -> (r: Result<(), (Vec<PescToken>, PescErrorType)>)
        ensures
            old(self).func_of(name@) is None ==> *final(self) == *old(self) && (r matches Err(
                (b, e),
            ) && models(b@) == old(self).stack_model() && e.model() == ErrKind::UnknownFunction(
                name@,
            )),
            r is Err ==> final(self).stack_model() == old(self).stack_model(),
    {
        match self.find_func(name) {
            None => Err((self.stack.clone(), PescErrorType::UnknownFunction(name.clone()))),
            Some(k) => {
                let f = Rc::clone(&self.funcs[k].1);
                let backup = self.stack.clone();
                proof {
                    assert(models(backup@) =~= old(self).stack_model());
                }
                let outcome = f.call(self);
                self.finish_call(outcome, backup)
            },
        }
    }

    /// Runs the function that operator `c` stands for.
    fn call_op(&mut self, c: char) -> (r: Result<(), (Vec<PescToken>, PescErrorType)>)
        ensures
            old(self).op_target(c) is None ==> *final(self) == *old(self) && (r matches Err((b, e))
                && models(b@) == old(self).stack_model() && e.model() == ErrKind::UnknownFunction(
                seq!['\'', c, '\''],
            )),
            old(self).op_target(c) is Some && old(self).func_of(old(self).op_target(c)->Some_0) is None
                ==> *final(self) == *old(self) && (r matches Err((b, e)) && models(b@)
                == old(self).stack_model() && e.model() == ErrKind::UnknownFunction(
                old(self).op_target(c)->Some_0,
            )),
            r is Err ==> final(self).stack_model() == old(self).stack_model(),
    {
        match self.find_op(c) {
            None => {
                let quoted = crate::scan::string_of(&vec!['\'', c, '\'']);
                Err((self.stack.clone(), PescErrorType::UnknownFunction(quoted)))
            },
            Some(k) => {
                let name = self.ops[k].1.clone();
                self.call_named(&name)
            },
        }
    }

    /// Runs `code`: each operator is resolved and its function called, every other
    /// token is pushed as it is. The first failure ends the run; the operator that
    /// failed is named in the error, and what earlier tokens did stays.
    pub fn eval(&mut self, code: &[PescToken]) -> (r: Result<(), (Vec<PescToken>, PescError)>)
        ensures
            ({
                let k = first_symbol(models(code@), 0);
                &&& k == code@.len() ==> r is Ok && final(self).stack_model() == old(self).stack_model()
                    + models(code@) && final(self).funcs@ == old(self).funcs@ && final(self).ops@
                    == old(self).ops@
                &&& k < code@.len() && !old(self).resolves(code@[k].model()->Symbol_0) ==> {
                    &&& final(self).funcs@ == old(self).funcs@
                    &&& final(self).ops@ == old(self).ops@
                    &&& final(self).stack_model() == old(self).stack_model() + models(code@).take(k)
                    &&& r matches Err((b, e))
                    &&& models(b@) == final(self).stack_model()
                    &&& e.pos is None
                    &&& e.token is Some
                    &&& e.token->Some_0.model() == code@[k].model()
                    &&& e.kind.model() == old(self).unresolved_error(code@[k].model()->Symbol_0)
                }
            }),
            r is Err ==> r->Err_0.1.pos is None && r->Err_0.1.token is Some
                && r->Err_0.1.token->Some_0.model() is Symbol && exists|j: int|
                0 <= j < code@.len() && r->Err_0.1.token->Some_0.model() == #[trigger] code@[j].model(),
    {
        let ghost ms = models(code@);
        proof {
            lemma_first_symbol(ms, 0);
        }
        let ghost all_lit = true;
        let mut i: usize = 0;
        while i < code.len()
            invariant
                ms == models(code@),
                ms.len() == code.len(),
                0 <= first_symbol(ms, 0) <= ms.len(),
                first_symbol(ms, 0) < ms.len() ==> ms[first_symbol(ms, 0)] is Symbol,
                i <= code.len(),
                all_lit ==> first_symbol(ms, 0) == first_symbol(ms, i as int) && self.stack_model()
                    == old(self).stack_model() + ms.take(i as int) && self.funcs@ == old(self).funcs@
                    && self.ops@ == old(self).ops@,
                !all_lit ==> first_symbol(ms, 0) < code.len() && ms[first_symbol(ms, 0)] is Symbol
                    && old(self).resolves(ms[first_symbol(ms, 0)]->Symbol_0),
            decreases code.len() - i,
        {
            let t = &code[i];
            match t {
                PescToken::Symbol(o) => {
                    proof {
                        assert(ms[i as int] == code@[i as int].model());
                        if all_lit {
                            assert(first_symbol(ms, i as int) == i);
                        }
                    }
                    match self.call_op(*o) {
                        Ok(()) => (),
                        Err(failure) => {
                            let r = op_failure(t, failure);
                            assert(r->Err_0.1.token->Some_0.model() == code@[i as int].model());
                            return r;
                        },
                    }
                    proof {
                        all_lit = false;
                    }
                },
                _ => {
                    let c = t.clone();
                    let ghost prev = self.stack@;
                    self.stack.push(c);
                    assert(models(self.stack@) =~= models(prev).push(c.model()));
                    proof {
                        assert(ms[i as int] == code@[i as int].model());
                        if all_lit {
                            assert(first_symbol(ms, i as int) == first_symbol(ms, i + 1));
                            assert(ms.take(i + 1) == ms.take(i as int).push(ms[i as int]));
                            assert(models(self.stack@) =~= models(old(self).stack@) + ms.take(i + 1));
                        }
                    }
                },
            }
            i += 1;
        }
        proof {
            assert(ms.take(code.len() as int) == ms);
        }
        Ok(())
    }

    /// Running `ms` reaches an operator that does not resolve before any
    /// function is called.
    pub open spec fn stops_unresolved(&self, ms: Seq<Tok>) -> bool {
        let k = first_symbol(ms, 0);
        0 <= k < ms.len() && ms[k] is Symbol && !self.resolves(ms[k]->Symbol_0)
    }

    /// Whether operator `c` stands for a registered function.
    pub open spec fn resolves(&self, c: char) -> bool {
        self.op_target(c) matches Some(n) && self.func_of(n) is Some
    }

    /// The error that running an operator that does not resolve gives.
    pub open spec fn unresolved_error(&self, c: char) -> ErrKind {
        match self.op_target(c) {
            Some(n) => ErrKind::UnknownFunction(n),
            None => ErrKind::UnknownFunction(seq!['\'', c, '\'']),
        }
    }

    /// Runs a callable value: the function a reference names, or the code of a
    /// block. A function that fails leaves the stack as it was before the call.
    fn exec(&mut self, tok: PescToken) -> (r: Result<(), (Vec<PescToken>, PescErrorType)>)
        ensures
            tok matches PescToken::Func(name) ==> (old(self).func_of(name@) is None ==> *final(self)
                == *old(self) && (r matches Err((b, e)) && e.model() == ErrKind::UnknownFunction(
                name@,
            ))),
            tok is Func && r is Err ==> final(self).stack_model() == old(self).stack_model(),
            tok is Macro && first_symbol(models(tok->Macro_0@), 0) == tok->Macro_0@.len() ==> r is Ok
                && final(self).stack_model() == old(self).stack_model() + models(tok->Macro_0@),
            tok is Macro && old(self).stops_unresolved(models(tok->Macro_0@)) ==> {
                let ms = models(tok->Macro_0@);
                let k = first_symbol(ms, 0);
                &&& r is Err
                &&& r->Err_0.1.model() == old(self).unresolved_error(ms[k]->Symbol_0)
                &&& models(r->Err_0.0@) == final(self).stack_model()
                &&& final(self).stack_model() == old(self).stack_model() + ms.take(k)
                &&& final(self).funcs@ == old(self).funcs@
                &&& final(self).ops@ == old(self).ops@
            },
            !(tok is Func) && !(tok is Macro) ==> *final(self) == *old(self) && (r matches Err((b, e))
                && models(b@) == old(self).stack_model() && e.model() == ErrKind::InvalidArgumentType(
                "macro/function"@,
                render(tok.model()),
            )),
    {
        match tok {
            PescToken::Func(func) => self.call_named(&func),
            PescToken::Macro(mac) => {
                let r = self.eval(mac.as_slice());
                block_outcome(r)
            },
            _ => Err(
                (
                    self.stack.clone(),
                    PescErrorType::InvalidArgumentType("macro/function".to_string(), tok.to_text()),
                ),
            ),
        }
    }

    /// Runs a callable value, as `exec` does, and returns the error alone.
    pub fn try_exec(&mut self, tok: PescToken) -> (r: Result<(), PescErrorType>)
        ensures
            tok matches PescToken::Func(name) ==> (old(self).func_of(name@) is None ==> *final(self)
                == *old(self) && (r matches Err(e) && e.model() == ErrKind::UnknownFunction(name@))),
            tok is Func && r is Err ==> final(self).stack_model() == old(self).stack_model(),
            tok is Macro && first_symbol(models(tok->Macro_0@), 0) == tok->Macro_0@.len() ==> r is Ok
                && final(self).stack_model() == old(self).stack_model() + models(tok->Macro_0@),
            tok is Macro && old(self).stops_unresolved(models(tok->Macro_0@)) ==> {
                let ms = models(tok->Macro_0@);
                let k = first_symbol(ms, 0);
                &&& r is Err
                &&& r->Err_0.model() == old(self).unresolved_error(ms[k]->Symbol_0)
                &&& final(self).stack_model() == old(self).stack_model() + ms.take(k)
                &&& final(self).funcs@ == old(self).funcs@
                &&& final(self).ops@ == old(self).ops@
            },
            !(tok is Func) && !(tok is Macro) ==> *final(self) == *old(self) && (r matches Err(e)
                && e.model() == ErrKind::InvalidArgumentType(
                "macro/function"@,
                render(tok.model()),
            )),
    {
        match self.exec(tok) {
            Ok(()) => Ok(()),
            Err((_, e)) => Err(e),
        }
    }
}

pub proof fn lemma_first_symbol(ts: Seq<Tok>, i: int)
    requires
        0 <= i <= ts.len(),
    ensures
        i <= first_symbol(ts, i) <= ts.len(),
        first_symbol(ts, i) < ts.len() ==> ts[first_symbol(ts, i)] is Symbol,
    decreases ts.len() - i,
{
    if i < ts.len() && !(ts[i] is Symbol) {
        lemma_first_symbol(ts, i + 1);
    }
}

/// The result of running an operator token `t` whose call failed: the failure's
/// stack and error kind, with `t` named as the token that failed.
pub fn op_failure(t: &PescToken, failure: (Vec<PescToken>, PescErrorType)) -> (r: Result<
    (),
    (Vec<PescToken>, PescError),
>)
    ensures
        r is Err,
        r->Err_0.0@ == failure.0@,
        r->Err_0.1.kind == failure.1,
        r->Err_0.1.pos is None,
        r->Err_0.1.token is Some && r->Err_0.1.token->Some_0.model() == t.model(),
{
    Err((failure.0, PescError::new(None, Some(t.clone()), failure.1)))
}

/// The result of running a block, from the result of evaluating its tokens:
/// the same snapshot and the bare error kind, with no token added.
pub fn block_outcome(r: Result<(), (Vec<PescToken>, PescError)>) -> (out: Result<
    (),
    (Vec<PescToken>, PescErrorType),
>)
    ensures
        r is Ok <==> out is Ok,
        r is Err ==> out->Err_0.0@ == r->Err_0.0@ && out->Err_0.1 == r->Err_0.1.kind,
{
    match r {
        Ok(()) => Ok(()),
        Err((b, e)) => Err((b, e.kind)),
    }
}

/// The position of the first operator in `ts` at or after `i`, or the length of
/// `ts` when there is none.
pub open spec fn first_symbol(ts: Seq<Tok>, i: int) -> int
    decreases ts.len() - i,
{
    if i >= ts.len() {
        ts.len() as int
    } else if ts[i] is Symbol {
        i
    } else {
        first_symbol(ts, i + 1)
    }
}

} // verus!
