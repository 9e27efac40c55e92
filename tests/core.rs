use std::rc::Rc;

use pesc::engine::{block_outcome, op_failure};
use pesc::{Number, OutputMode, Pesc, PescError, PescErrorType, PescFunc, PescToken};

/// A function for the tests: a plain function pointer over the interpreter.
struct Builtin(fn(&mut Pesc<Builtin>) -> Result<(), PescErrorType>);

impl PescFunc for Builtin {
    fn call(&self, p: &mut Pesc<Self>) -> Result<(), PescErrorType> {
        (self.0)(p)
    }
}

fn num(text: &str) -> Number {
    Number::from_literal(&text.chars().collect()).expect("a valid literal")
}

fn n(text: &str) -> PescToken {
    PescToken::Number(num(text))
}

fn value_of(x: &Number) -> f64 {
    x.text().parse::<f64>().unwrap()
}

fn add(p: &mut Pesc<Builtin>) -> Result<(), PescErrorType> {
    let a = p.pop_number()?;
    let b = p.pop_number()?;
    let sum = value_of(&a) + value_of(&b);
    p.push(n(&format!("{}", sum)));
    Ok(())
}

fn push_then_fail(p: &mut Pesc<Builtin>) -> Result<(), PescErrorType> {
    p.pop()?;
    p.push(n("99"));
    p.push(PescToken::Str(String::from("junk")));
    Err(PescErrorType::NotEnoughArguments)
}

fn does_nothing(_p: &mut Pesc<Builtin>) -> Result<(), PescErrorType> {
    Ok(())
}

fn engine() -> Pesc<Builtin> {
    let mut p = Pesc::new();
    p.load(Some('+'), "add", Rc::new(Builtin(add)));
    p.load(Some('!'), "fail", Rc::new(Builtin(push_then_fail)));
    p
}

fn texts(ts: &[PescToken]) -> Vec<String> {
    ts.iter().map(|t| t.to_text()).collect()
}

#[test]
fn nested_blocks_parse() {
    let p = engine();
    let (pos, toks) = p.parse("{1 2{3}4}").unwrap();
    assert_eq!(pos, 9);
    assert_eq!(
        toks,
        vec![PescToken::Macro(vec![n("1"), n("2"), PescToken::Macro(vec![n("3")]), n("4")])]
    );
    let (_, inner) = p.parse("1 2{3}4").unwrap();
    assert_eq!(inner, vec![n("1"), n("2"), PescToken::Macro(vec![n("3")]), n("4")]);
}

#[test]
fn nested_blocks_evaluate_without_running() {
    let mut p = engine();
    let (_, toks) = p.parse("1 2{3}4").unwrap();
    p.eval(&toks).unwrap();
    assert_eq!(p.stack, vec![n("1"), n("2"), PescToken::Macro(vec![n("3")]), n("4")]);
}

#[test]
fn numbers_normalize_underscores() {
    let p = engine();
    let (_, a) = p.parse("1_000.5").unwrap();
    let (_, b) = p.parse("1000.5").unwrap();
    assert_eq!(a, b);
    assert_eq!(a, vec![n("1000.5")]);
    assert_eq!(a[0].to_text(), "1000.5");
}

#[test]
fn literals_round_trip() {
    let p = engine();
    let values = vec![
        PescToken::Str(String::from("a b \\ [x] {y}")),
        n("12.5"),
        n("-3"),
        n("1e-7"),
        PescToken::Func(String::from("some name")),
        PescToken::Bool(true),
        PescToken::Bool(false),
    ];
    for v in values {
        let text = v.to_text();
        let (pos, toks) = p.parse(&text).unwrap();
        assert_eq!(pos, text.chars().count());
        assert_eq!(toks, vec![v]);
    }
}

#[test]
fn strings_keep_characters() {
    let p = engine();
    let (_, toks) = p.parse("\"  héllo\\ \"").unwrap();
    assert_eq!(toks, vec![PescToken::Str(String::from("  héllo\\ "))]);
    assert_eq!(toks[0].to_text(), "\"  héllo\\ \"");
}

#[test]
fn alias_resolved_at_evaluation() {
    let mut p = Pesc::new();
    p.load(Some('+'), "noop", Rc::new(Builtin(does_nothing)));
    let (_, toks) = p.parse("1 2+").unwrap();
    p.load(Some('+'), "add", Rc::new(Builtin(add)));
    p.eval(&toks).unwrap();
    assert_eq!(p.stack, vec![n("3")]);
}

#[test]
fn alias_to_missing_function_fails_when_used() {
    let mut p = Pesc::new();
    p.load(Some('+'), "add", Rc::new(Builtin(add)));
    p.load(Some('-'), "sub", Rc::new(Builtin(add)));
    p.funcs.retain(|f| f.0 != "sub");
    let (_, toks) = p.parse("1 -").unwrap();
    let (b, e) = p.eval(&toks).unwrap_err();
    assert_eq!(e.kind, PescErrorType::UnknownFunction(String::from("sub")));
    assert_eq!(e.token, Some(PescToken::Symbol('-')));
    assert_eq!(e.pos, None);
    assert_eq!(b, vec![n("1")]);
    assert_eq!(p.stack, vec![n("1")]);
}

#[test]
fn unregistered_symbol_token_fails_in_eval() {
    let mut p = engine();
    let (b, e) = p.eval(&[n("5"), PescToken::Symbol('?')]).unwrap_err();
    assert_eq!(e.kind, PescErrorType::UnknownFunction(String::from("'?'")));
    assert_eq!(b, vec![n("5")]);
}

#[test]
fn out_of_bounds_peek_and_set() {
    let mut p = engine();
    assert_eq!(p.nth_ref(0), Err(PescErrorType::OutOfBounds(0, 0)));
    p.push(n("1"));
    p.push(n("2"));
    assert_eq!(p.nth_ref(0), Ok(&n("2")));
    assert_eq!(p.nth_ref(1), Ok(&n("1")));
    assert_eq!(p.nth_ref(2), Err(PescErrorType::OutOfBounds(2, 2)));
    assert_eq!(p.set(2, n("7")), Err(PescErrorType::OutOfBounds(2, 2)));
    assert_eq!(p.set(9, n("7")), Err(PescErrorType::OutOfBounds(9, 2)));
    assert_eq!(p.stack, vec![n("1"), n("2")]);
    assert_eq!(p.set(1, n("7")), Ok(()));
    assert_eq!(p.stack, vec![n("7"), n("2")]);
}

#[test]
fn boolean_coercion_table() {
    let mut p = engine();
    let cases = vec![
        (PescToken::Str(String::new()), Ok(false)),
        (PescToken::Str(String::from("x")), Ok(true)),
        (n("0.0"), Ok(false)),
        (n("-0.0"), Ok(false)),
        (n("0e5"), Ok(false)),
        (n("1.5"), Ok(true)),
        (n("0.001"), Ok(true)),
        (n("inf"), Ok(true)),
        (n("NaN"), Ok(true)),
        (n("1e-400"), Ok(false)),
        (PescToken::Bool(true), Ok(true)),
        (PescToken::Bool(false), Ok(false)),
    ];
    for (v, want) in cases {
        p.push(v);
        assert_eq!(p.pop_boolean(), want);
        assert!(p.stack.is_empty());
    }
    for v in vec![
        PescToken::Func(String::from("f")),
        PescToken::Macro(vec![]),
        PescToken::Symbol('+'),
    ] {
        p.push(v.clone());
        assert_eq!(p.pop_boolean(), Err(PescErrorType::InvalidBoolean(v)));
        assert!(p.stack.is_empty());
    }
    assert_eq!(p.pop_boolean(), Err(PescErrorType::NotEnoughArguments));
}

#[test]
fn end_to_end_add() {
    let mut p = engine();
    let (_, toks) = p.parse("1 2[add]").unwrap();
    p.eval(&toks).unwrap();
    assert_eq!(p.stack, vec![n("1"), n("2"), PescToken::Func(String::from("add"))]);
    let f = p.pop().unwrap();
    p.try_exec(f).unwrap();
    assert_eq!(p.stack, vec![n("3")]);
    assert_eq!(value_of(&num(p.stack[0].to_text().as_str())), 3.0);
}

#[test]
fn end_to_end_operator() {
    let mut p = engine();
    let (_, toks) = p.parse("1 2+").unwrap();
    p.eval(&toks).unwrap();
    assert_eq!(p.stack, vec![n("3")]);
}

#[test]
fn failed_call_rolls_back() {
    let mut p = engine();
    let (_, toks) = p.parse("1 2 !").unwrap();
    let (b, e) = p.eval(&toks).unwrap_err();
    assert_eq!(e.kind, PescErrorType::NotEnoughArguments);
    assert_eq!(e.token, Some(PescToken::Symbol('!')));
    assert_eq!(b, vec![n("1"), n("99"), PescToken::Str(String::from("junk"))]);
    assert_eq!(p.stack, vec![n("1"), n("2")]);
    let before = p.stack.clone();
    let r = p.try_exec(PescToken::Func(String::from("fail")));
    assert_eq!(r, Err(PescErrorType::NotEnoughArguments));
    assert_eq!(p.stack, before);
}

#[test]
fn block_runs_through_try_exec() {
    let mut p = engine();
    let (_, toks) = p.parse("{1 2+ 4}").unwrap();
    p.eval(&toks).unwrap();
    let block = p.pop().unwrap();
    p.try_exec(block).unwrap();
    assert_eq!(p.stack, vec![n("3"), n("4")]);
}

#[test]
fn try_exec_rejects_plain_values() {
    let mut p = engine();
    p.push(n("1"));
    assert_eq!(
        p.try_exec(n("5")),
        Err(PescErrorType::InvalidArgumentType(String::from("macro/function"), String::from("5")))
    );
    assert_eq!(
        p.try_exec(PescToken::Func(String::from("nope"))),
        Err(PescErrorType::UnknownFunction(String::from("nope")))
    );
    assert_eq!(p.stack, vec![n("1")]);
}

#[test]
fn unknown_character_is_a_parse_error() {
    let p = engine();
    let e = p.parse("1 ?").unwrap_err();
    assert_eq!(e.pos, Some(2));
    assert_eq!(e.token, None);
    assert_eq!(e.kind, PescErrorType::UnknownFunction(String::from("'?'")));
}

#[test]
fn invalid_number_literals() {
    let p = engine();
    let e = p.parse("1.2.3").unwrap_err();
    assert_eq!(e.kind, PescErrorType::InvalidNumberLit(String::from("1.2.3")));
    assert_eq!(e.pos, Some(5));
    let e = p.parse("(abc) 1").unwrap_err();
    assert_eq!(e.kind, PescErrorType::InvalidNumberLit(String::from("abc")));
    assert_eq!(e.pos, Some(5));
    let e = p.parse("_").unwrap_err();
    assert_eq!(e.kind, PescErrorType::InvalidNumberLit(String::from("_")));
    let e = p.parse(".").unwrap_err();
    assert_eq!(e.kind, PescErrorType::InvalidNumberLit(String::from(".")));
}

#[test]
fn parenthesized_numbers() {
    let p = engine();
    let (_, toks) = p.parse("(-2.5) (1_0e+2) (+inf) .5 7.").unwrap();
    assert_eq!(toks, vec![n("-2.5"), n("10e+2"), n("+inf"), n(".5"), n("7.")]);
    assert_eq!(texts(&toks), vec!["(-2.5)", "(10e+2)", "(+inf)", ".5", "7."]);
}

#[test]
fn comments_and_whitespace() {
    let p = engine();
    let (_, toks) = p.parse("1 \\ a comment \\ 2\t\\ to the end\n3").unwrap();
    assert_eq!(toks, vec![n("1"), n("2"), n("3")]);
}

#[test]
fn stray_closing_brace_stops_reading() {
    let p = engine();
    let (pos, toks) = p.parse("1 } 2").unwrap();
    assert_eq!(pos, 2);
    assert_eq!(toks, vec![n("1")]);
}

#[test]
fn unterminated_string_and_empty_input() {
    let p = engine();
    let (pos, toks) = p.parse("\"abc").unwrap();
    assert_eq!(pos, 5);
    assert_eq!(toks, vec![PescToken::Str(String::from("abc"))]);
    let (pos, toks) = p.parse("").unwrap();
    assert_eq!(pos, 0);
    assert!(toks.is_empty());
}

#[test]
fn booleans_and_function_refs() {
    let p = engine();
    let (_, toks) = p.parse("T F[my fn]").unwrap();
    assert_eq!(
        toks,
        vec![PescToken::Bool(true), PescToken::Bool(false), PescToken::Func(String::from("my fn"))]
    );
}

#[test]
fn typed_pops() {
    let mut p = engine();
    p.push(PescToken::Str(String::from("x")));
    assert_eq!(
        p.pop_number(),
        Err(PescErrorType::InvalidArgumentType(String::from("number"), String::from("\"x\"")))
    );
    assert!(p.stack.is_empty());
    p.push(n("4"));
    assert_eq!(
        p.pop_string(),
        Err(PescErrorType::InvalidArgumentType(String::from("string"), String::from("4")))
    );
    p.push(PescToken::Bool(true));
    assert_eq!(
        p.pop_macro(),
        Err(PescErrorType::InvalidArgumentType(String::from("macro"), String::from("T")))
    );
    p.push(PescToken::Macro(vec![n("1"), PescToken::Symbol('+')]));
    assert_eq!(p.pop_macro(), Ok(vec![n("1"), PescToken::Symbol('+')]));
    p.push(PescToken::Str(String::from("s")));
    assert_eq!(p.pop_string(), Ok(String::from("s")));
    p.push(n("2"));
    assert_eq!(p.pop_number(), Ok(num("2")));
    assert_eq!(p.pop_number(), Err(PescErrorType::NotEnoughArguments));
    assert_eq!(p.pop(), Err(PescErrorType::NotEnoughArguments));
}

#[test]
fn block_rendering() {
    let t = PescToken::Macro(vec![
        n("1"),
        PescToken::Str(String::from("a")),
        PescToken::Macro(vec![]),
        PescToken::Symbol('+'),
    ]);
    assert_eq!(t.to_text(), "{1 \"a\" {} +}");
}

#[test]
fn load_replaces_entries() {
    let mut p = engine();
    p.load(Some('+'), "other", Rc::new(Builtin(does_nothing)));
    p.load(None, "add", Rc::new(Builtin(does_nothing)));
    assert_eq!(p.ops.iter().filter(|o| o.0 == '+').count(), 1);
    assert_eq!(p.funcs.iter().filter(|f| f.0 == "add").count(), 1);
    assert!(p.has_op('+'));
    assert!(!p.has_op('?'));
}

#[test]
fn number_literal_checks() {
    for good in ["1", "1.", ".5", "-1e10", "+2E-3", "inf", "INFINITY", "nan", "0.0"] {
        assert!(Number::from_literal(&good.chars().collect()).is_some(), "{}", good);
    }
    for bad in ["", ".", "1.2.3", "e5", "1e", "1e+", "--1", "in", "0x10", "1_0"] {
        assert!(Number::from_literal(&bad.chars().collect()).is_none(), "{}", bad);
    }
    assert!(num("0.000e7").is_zero());
    assert!(num("-0").is_zero());
    assert!(num("1e-400").is_zero());
    assert!(num("-1e-400").is_zero());
    assert!(num("2.4703282292062327e-324").is_zero());
    assert!(!num("2.4703282292062328e-324").is_zero());
    assert!(!num("5e-324").is_zero());
    assert!(num("0.000000000000000000001e-303").is_zero());
    assert!(!num("1e-323").is_zero());
    assert!(!num("1e99999999999999999999999").is_zero());
    assert!(num("1e-99999999999999999999999").is_zero());
    for lit in ["1e-400", "2.4703282292062327e-324", "2.4703282292062328e-324", "5e-324", "1e-323"] {
        assert_eq!(num(lit).is_zero(), lit.parse::<f64>().unwrap() == 0.0, "{}", lit);
    }
    assert!(!num("nan").is_zero());
}

#[test]
fn output_mode_auto() {
    assert_eq!(OutputMode::auto(true), OutputMode::Human);
    assert_eq!(OutputMode::auto(false), OutputMode::Simple);
}

fn push_one(p: &mut Pesc<Builtin>) -> Result<(), PescErrorType> {
    p.push(n("1"));
    Ok(())
}

fn replace_self(p: &mut Pesc<Builtin>) -> Result<(), PescErrorType> {
    p.load(None, "me", Rc::new(Builtin(push_one)));
    p.push(n("7"));
    Ok(())
}

#[test]
fn function_replacing_itself_finishes() {
    let mut p = engine();
    p.load(None, "me", Rc::new(Builtin(replace_self)));
    assert_eq!(p.try_exec(PescToken::Func(String::from("me"))), Ok(()));
    assert_eq!(p.stack, vec![n("7")]);
    assert_eq!(p.try_exec(PescToken::Func(String::from("me"))), Ok(()));
    assert_eq!(p.stack, vec![n("7"), n("1")]);
}

#[test]
fn finish_call_settles_outcomes() {
    let mut p = engine();
    p.push(n("1"));
    p.push(n("2"));
    assert_eq!(p.finish_call(Ok(()), vec![n("9")]), Ok(()));
    assert_eq!(p.stack, vec![n("1"), n("2")]);
    let r = p.finish_call(Err(PescErrorType::NotEnoughArguments), vec![n("1")]);
    assert_eq!(r, Err((vec![n("1"), n("2")], PescErrorType::NotEnoughArguments)));
    assert_eq!(p.stack, vec![n("1")]);
}

#[test]
fn failure_wrappers() {
    let r = op_failure(&PescToken::Symbol('+'), (vec![n("3")], PescErrorType::NotEnoughArguments));
    let (b, e) = r.unwrap_err();
    assert_eq!(b, vec![n("3")]);
    assert_eq!(e.pos, None);
    assert_eq!(e.token, Some(PescToken::Symbol('+')));
    assert_eq!(e.kind, PescErrorType::NotEnoughArguments);
    let err = PescError::new(None, Some(PescToken::Symbol('+')), PescErrorType::OutOfBounds(1, 0));
    assert_eq!(
        block_outcome(Err((vec![n("4")], err))),
        Err((vec![n("4")], PescErrorType::OutOfBounds(1, 0)))
    );
    assert_eq!(block_outcome(Ok(())), Ok(()));
}

#[test]
fn failing_block_passes_error_through() {
    let mut p = engine();
    p.push(n("5"));
    let block = PescToken::Macro(vec![n("1"), PescToken::Symbol('!'), n("8")]);
    assert_eq!(p.try_exec(block), Err(PescErrorType::NotEnoughArguments));
    assert_eq!(p.stack, vec![n("5"), n("1")]);
}

#[test]
fn numbers_compare_by_text() {
    assert_ne!(num("1.0"), num("1"));
    assert_eq!(num("1.0"), num("1.0"));
}
