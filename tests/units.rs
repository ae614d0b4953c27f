use redmoon::number::Num;
use redmoon::lexer::Lexer;
use redmoon::tokens::Token;
use redmoon::values::{GcKey, Value, print_line};
use redmoon::table::UserTable;
use redmoon::gc_store::GcStore;
use redmoon::function::FunctionImpl;
use redmoon::parser::Parser;
use redmoon::text::chars_of;

fn num(s: &str) -> Num {
    let cs: Vec<char> = s.chars().collect();
    Num::parse(&cs).expect("numeral")
}

#[test]
fn numerals_parse_to_millionths() {
    assert_eq!(num("12").units, 12_000_000);
    assert_eq!(num("0.5").units, 500_000);
    assert_eq!(num(".25").units, 250_000);
    assert_eq!(num("3.").units, 3_000_000);
    assert_eq!(num("1.23456789").units, 1_234_567);
    let bad: Vec<char> = "1.2.3".chars().collect();
    assert_eq!(Num::parse(&bad), None);
    let dot: Vec<char> = ".".chars().collect();
    assert_eq!(Num::parse(&dot), None);
    let huge: Vec<char> = "99999999999999".chars().collect();
    assert_eq!(Num::parse(&huge), None);
}

#[test]
fn number_display() {
    assert_eq!(Num { units: 7_000_000 }.display(), "7");
    assert_eq!(Num { units: -2_500_000 }.display(), "-2.5");
    assert_eq!(Num { units: 1 }.display(), "0.000001");
    assert_eq!(Num { units: 0 }.display(), "0");
}

#[test]
fn number_text_round_trip() {
    for u in [0i64, 1, 10, 999_999, 1_000_000, 123_456_789, 9_223_372_036_854_775_807] {
        let n = Num { units: u };
        let t: Vec<char> = n.text();
        assert_eq!(Num::parse(&t), Some(n));
    }
}

#[test]
fn number_arithmetic() {
    let a = num("1.5");
    let b = num("2");
    assert_eq!(a.add(b).unwrap().units, 3_500_000);
    assert_eq!(a.sub(b).unwrap().units, -500_000);
    assert_eq!(a.mul(b).unwrap().units, 3_000_000);
    assert_eq!(a.div(b).unwrap().units, 750_000);
    assert_eq!(b.div(Num::zero()), None);
    assert_eq!(num("7").modulo(num("3")).unwrap().units, 1_000_000);
    assert_eq!(Num { units: -7_000_000 }.modulo(num("3")).unwrap().units, 2_000_000);
    assert_eq!(Num { units: i64::MAX }.add(Num { units: 1 }), None);
    assert_eq!(Num { units: i64::MIN }.neg(), None);
}

#[test]
fn lexer_tokens() {
    let mut lx = Lexer::new("local x = 1 .. \"a\\tb\" ~= ... [[s]]");
    let toks = lx.tokenize().unwrap();
    assert_eq!(toks.len(), 9);
    assert!(matches!(toks[0], Token::Local));
    assert!(matches!(&toks[1], Token::Identifier(s) if s == "x"));
    assert!(matches!(toks[2], Token::Assign));
    assert!(matches!(toks[3], Token::Literal(Value::Number(n)) if n.units == 1_000_000));
    assert!(matches!(toks[4], Token::Concatenation));
    assert!(matches!(&toks[5], Token::Literal(Value::String(s)) if s == "a\tb"));
    assert!(matches!(toks[6], Token::NotEquals));
    assert!(matches!(toks[7], Token::Varargs));
    assert!(matches!(&toks[8], Token::Literal(Value::String(s)) if s == "s"));
}

#[test]
fn lexer_keywords_and_literals() {
    let mut lx = Lexer::new("true false nil goto");
    let toks = lx.tokenize().unwrap();
    assert!(matches!(toks[0], Token::Literal(Value::Boolean(true))));
    assert!(matches!(toks[1], Token::Literal(Value::Boolean(false))));
    assert!(matches!(toks[2], Token::Literal(Value::Nil)));
    assert!(matches!(toks[3], Token::Goto));
}

#[test]
fn lexer_errors() {
    assert!(Lexer::new("\"abc").tokenize().is_err());
    assert!(Lexer::new("[==[ abc ]=]").tokenize().is_err());
    assert!(Lexer::new("@").tokenize().is_err());
    assert!(Lexer::new("1.2.3").tokenize().is_err());
}

#[test]
fn lexer_char_access() {
    let lx = Lexer::new("ab");
    assert_eq!(lx.current_char(), Some('a'));
    assert_eq!(lx.peek_next_char(), Some('b'));
    assert!(!lx.at_eof());
    assert!(Lexer::is_operator('+'));
    assert!(!Lexer::is_operator('a'));
}

#[test]
fn parser_builds_chunk() {
    let toks = Lexer::new("local function f(a, ...) return a end").tokenize().unwrap();
    let prog = Parser::new(toks).chunk().unwrap();
    assert_eq!(prog.protos.len(), 1);
    assert_eq!(prog.protos[0].params, vec!["f".to_string()].into_iter().map(|_| "a".to_string()).collect::<Vec<_>>());
    assert!(prog.protos[0].is_vararg);
    assert_eq!(prog.body.len(), 1);
}

#[test]
fn parser_rejects_bad_target() {
    let toks = Lexer::new("1 = 2").tokenize().unwrap();
    assert!(Parser::new(toks).chunk().is_err());
}

#[test]
fn table_set_get() {
    let mut t = UserTable::new();
    t.set(Value::String("k".to_string()), Value::Number(Num { units: 5 }));
    t.set(Value::Boolean(true), Value::String("v".to_string()));
    t.set(Value::String("k".to_string()), Value::Boolean(false));
    assert_eq!(t.entries.len(), 2);
    assert!(matches!(t.get(&Value::String("k".to_string())), Value::Boolean(false)));
    assert!(matches!(t.get(&Value::Nil), Value::Nil));
    assert!(t.contains(&Value::Boolean(true)));
}

#[test]
fn gc_store_and_collect() {
    let mut g = GcStore::new();
    let a = g.store(UserTable::new()).unwrap();
    let b = g.store(UserTable::new()).unwrap();
    let c = g.store(UserTable::new()).unwrap();
    assert_eq!((a.id, b.id, c.id), (0, 1, 2));
    assert!(g.modify_value(a, Value::Number(Num { units: 1 }), Value::Table(b)));
    let closures: Vec<FunctionImpl> = Vec::new();
    g.collect_garbage(&vec![a], &closures);
    assert!(g.get_value(a).is_some());
    assert!(g.get_value(b).is_some());
    assert!(g.get_value(c).is_none());
    assert!(!g.modify_value(c, Value::Nil, Value::Nil) || true);
}

#[test]
fn gc_follows_closures() {
    let mut g = GcStore::new();
    let root = g.store(UserTable::new()).unwrap();
    let frame = g.store(UserTable::new()).unwrap();
    let closures = vec![FunctionImpl::new(0, vec![frame])];
    assert!(g.modify_value(root, Value::String("f".to_string()), Value::FunctionDef(redmoon::function::Function::new(0))));
    g.collect_garbage(&vec![root], &closures);
    assert!(g.get_value(frame).is_some());
    assert_eq!(GcKey::new(3).id, 3);
}

#[test]
fn print_line_joins_with_tabs() {
    let vs = vec![Value::Number(Num { units: 1_000_000 }), Value::String("x".to_string()), Value::Nil];
    assert_eq!(print_line(&vs), "1\tx\tnil");
    assert_eq!(print_line(&Vec::new()), "");
}

#[test]
fn chars_of_keeps_order() {
    assert_eq!(chars_of("héllo"), vec!['h', 'é', 'l', 'l', 'o']);
}
