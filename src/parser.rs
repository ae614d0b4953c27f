//! Tokens to a syntax tree, by recursive descent.
//!
//! Precedence, from lowest to highest: `or`, `and`, comparison, `..` (right
//! associative), `+ -`, `* / %`, unary `- not #`, then accessor chains.
use vstd::prelude::*;
use crate::ast::{BinOp, Expr, Program, Proto, Stmt, UnOp};
use crate::number::Num;
use crate::tokens::Token;
use crate::values::Value;

verus! {

fn msg(s: &str) -> (r: String)
    ensures
        r@ == s@,
{
    String::from_str(s)
}

/// The tokens after position `cur` are `j` pairs of `.` and a name.
pub open spec fn name_pairs(tokens: Seq<Token>, cur: int, j: int) -> bool {
    forall|i: int| 0 <= i < j ==> (#[trigger] tokens[cur + 1 + 2 * i]) is Period && tokens[cur + 2 + 2 * i] is Identifier
}

/// The field chain `name.f1.f2...` of `j` fields that starts at `cur`,
/// nested to the left.
pub open spec fn dotted(tokens: Seq<Token>, cur: int, j: nat) -> Expr
    decreases j,
{
    if j == 0 {
        Expr::Var(tokens[cur]->Identifier_0)
    } else {
        Expr::Accessor(
            Box::new(dotted(tokens, cur, (j - 1) as nat)),
            Box::new(Expr::Literal(Value::String(tokens[cur + 2 * j]->Identifier_0))),
        )
    }
}

/// The tokens from `cur` to the end are one literal, or a name followed by
/// `.name` pairs: the expression they parse to.
pub open spec fn tail_of(tokens: Seq<Token>, cur: int) -> Option<Expr> {
    let rest = tokens.len() - cur;
    if 0 <= cur && rest == 1 && tokens[cur] is Literal {
        Some(Expr::Literal(tokens[cur]->Literal_0))
    } else if 0 <= cur && rest >= 1 && rest % 2 == 1 && tokens[cur] is Identifier && name_pairs(tokens, cur, (rest - 1) / 2) {
        Some(dotted(tokens, cur, ((rest - 1) / 2) as nat))
    } else {
        None
    }
}

/// Whether no expression can start with `t`.
pub open spec fn cannot_start(t: Token) -> bool {
    !(t is Literal || t is Identifier || t is LeftParens || t is LeftCurlyBrace || t is Function || t is Varargs
        || t is Minus || t is Not || t is Pound)
}

/// Whether `t` begins a statement other than an assignment or a call.
pub open spec fn statement_keyword(t: Token) -> bool {
    t is Semicolon || t is Do || t is Local || t is If || t is While || t is Repeat || t is Return || t is Break
        || t is For || t is Function || t is Goto
}

pub struct Parser {
    pub tokens: Vec<Token>,
    pub current: usize,
    pub protos: Vec<Proto>,
}

/// Nesting depth the parser accepts.
pub const MAX_DEPTH: u64 = 100000;

impl Parser {
    pub open spec fn wf(&self) -> bool {
        self.current <= self.tokens@.len()
    }

    /// `self` is a later state of `prev`: same tokens, not moved back, and
    /// the definitions found so far kept.
    pub open spec fn follows(&self, prev: &Parser) -> bool {
        &&& self.wf()
        &&& self.tokens@ == prev.tokens@
        &&& self.current >= prev.current
        &&& self.protos@.len() >= prev.protos@.len()
    }

    /// The next token is a literal, and the last one.
    pub open spec fn lone_literal(&self) -> bool {
        self.current + 1 == self.tokens@.len() && self.tokens@[self.current as int] is Literal
    }

    /// The rest of the input is one literal, or a name followed by `.name`
    /// pairs: the expression it parses to.
    pub open spec fn simple_tail(&self) -> Option<Expr> {
        tail_of(self.tokens@, self.current as int)
    }

    /// The next token cannot start an expression.
    pub open spec fn bad_start(&self) -> bool {
        self.current < self.tokens@.len() && cannot_start(self.tokens@[self.current as int])
    }

    /// The literal expression of the current token.
    pub open spec fn current_literal(&self) -> Expr {
        Expr::Literal(self.tokens@[self.current as int]->Literal_0)
    }

    pub fn new(tokens: Vec<Token>) -> (r: Parser)
        ensures
            r.wf(),
            r.tokens@ == tokens@,
            r.current == 0,
            r.protos@.len() == 0,
    {
        Parser { tokens, current: 0, protos: Vec::new() }
    }

    fn at_end(&self) -> (r: bool)
        ensures
            r == (self.current >= self.tokens@.len()),
    {
        self.current >= self.tokens.len()
    }

    /// Whether the current token is the symbol `t`.
    fn peek_is(&self, t: &Token) -> (r: bool)
        requires
            self.wf(),
        ensures
            r ==> self.current < self.tokens@.len(),
            r == (self.current < self.tokens@.len() && self.tokens@[self.current as int].same_symbol(t)),
    {
        self.current < self.tokens.len() && self.tokens[self.current].is(t)
    }

    /// Consumes the symbol `t` if it is next.
    fn check(&mut self, t: Token) -> (r: bool)
        requires
            old(self).wf(),
        ensures
            final(self).follows(old(self)),
            final(self).protos@ == old(self).protos@,
            final(self).current == old(self).current + if r { 1int } else { 0int },
            r == (old(self).current < old(self).tokens@.len() && old(self).tokens@[old(self).current as int].same_symbol(&t)),
    {
        if self.current < self.tokens.len() && self.tokens[self.current].is(&t) {
            self.current = self.current + 1;
            true
        } else {
            false
        }
    }

    fn expect(&mut self, t: Token, m: &str) -> (r: Result<(), String>)
        requires
            old(self).wf(),
        ensures
            final(self).follows(old(self)),
            final(self).protos@ == old(self).protos@,
            r is Ok ==> final(self).current == old(self).current + 1,
    {
        if self.check(t) {
            Ok(())
        } else {
            Err(msg(m))
        }
    }

    /// Consumes a name if one is next.
    fn name(&mut self) -> (r: Option<String>)
        requires
            old(self).wf(),
        ensures
            final(self).follows(old(self)),
            final(self).protos@ == old(self).protos@,
            final(self).current == old(self).current + if r is Some { 1int } else { 0int },
            r is Some <==> (old(self).current < old(self).tokens@.len()
                && old(self).tokens@[old(self).current as int] is Identifier),
            r is Some ==> r->0 == old(self).tokens@[old(self).current as int]->Identifier_0,
    {
        if self.current < self.tokens.len() {
            if let Token::Identifier(s) = &self.tokens[self.current] {
                let n = s.clone();
                self.current = self.current + 1;
                return Some(n);
            }
        }
        None
    }

    fn primary(&mut self, fuel: u64) -> (r: Result<Expr, String>)
        requires
            old(self).wf(),
        ensures
            fuel > 0 && old(self).bad_start() ==> r is Err,
            fuel > 0 && old(self).current < old(self).tokens@.len() && old(self).tokens@[old(self).current as int] is Identifier
                ==> r == Ok::<Expr, String>(Expr::Var(old(self).tokens@[old(self).current as int]->Identifier_0))
                && final(self).current == old(self).current + 1,
            fuel > 0 && old(self).lone_literal() ==> r == Ok::<Expr, String>(old(self).current_literal())
                && final(self).current == final(self).tokens@.len(),
            final(self).follows(old(self)),
            r is Ok ==> final(self).current > old(self).current,
        decreases fuel,
    {
        if fuel == 0 {
            return Err(msg("expression nested too deeply"));
        }
        if self.current >= self.tokens.len() {
            return Err(msg("unexpected end of input"));
        }
        if let Token::Literal(v) = &self.tokens[self.current] {
            let v = v.copy();
            self.current = self.current + 1;
            return Ok(Expr::Literal(v));
        }
        if let Some(n) = self.name() {
            return Ok(Expr::Var(n));
        }
        if self.check(Token::LeftParens) {
            let list = self.expr_list(fuel - 1)?;
            self.expect(Token::RightParens, "missing ')'")?;
            let inner = if list.len() == 1 {
                let mut list = list;
                list.pop().unwrap()
            } else {
                Expr::Exprlist(list)
            };
            return Ok(Expr::Grouping(Box::new(inner)));
        }
        if self.check(Token::LeftCurlyBrace) {
            return self.field_list(fuel - 1);
        }
        if self.check(Token::Function) {
            let idx = self.function_body(None, fuel - 1)?;
            return Ok(Expr::Function(idx));
        }
        if self.check(Token::Varargs) {
            return Ok(Expr::Varargs);
        }
        Err(msg("unexpected token"))
    }

    /// Parameters and body of a function; the `function` keyword and name
    /// are behind.  Gives the index of the new definition.
    fn function_body(&mut self, name: Option<String>, fuel: u64) -> (r: Result<usize, String>)
        requires
            old(self).wf(),
        ensures
            final(self).follows(old(self)),
            r is Ok ==> final(self).current > old(self).current,
            r matches Ok(i) ==> i < final(self).protos@.len(),
        decreases fuel,
    {
        if fuel == 0 {
            return Err(msg("expression nested too deeply"));
        }
        self.expect(Token::LeftParens, "expected '(' to start the parameters")?;
        let mut params: Vec<String> = Vec::new();
        let mut is_vararg = false;
        if !self.check(Token::RightParens) {
            loop
                invariant
                    fuel > 0,
                    self.follows(old(self)),
                    self.current > old(self).current,
                decreases self.tokens@.len() - self.current,
            {
                if self.check(Token::Varargs) {
                    is_vararg = true;
                    break;
                }
                match self.name() {
                    Some(n) => params.push(n),
                    None => return Err(msg("expected a parameter name")),
                }
                if !self.check(Token::Comma) {
                    break;
                }
            }
            self.expect(Token::RightParens, "expected ')' after the parameters")?;
        }
        let body = self.block(fuel - 1)?;
        self.expect(Token::End, "expected 'end' to close the function")?;
        let idx = self.protos.len();
        self.protos.push(Proto { params, is_vararg, body, name });
        Ok(idx)
    }

    /// Table constructor; the `{` is behind.
    fn field_list(&mut self, fuel: u64) -> (r: Result<Expr, String>)
        requires
            old(self).wf(),
        ensures
            final(self).follows(old(self)),
            r is Ok ==> final(self).current > old(self).current,
        decreases fuel,
    {
        if fuel == 0 {
            return Err(msg("expression nested too deeply"));
        }
        let mut fields: Vec<(Expr, Expr)> = Vec::new();
        let mut position: i64 = 1;
        loop
            invariant
                fuel > 0,
                self.follows(old(self)),
            decreases self.tokens@.len() - self.current,
        {
            if self.check(Token::RightCurlyBrace) {
                return Ok(Expr::FieldList(fields));
            }
            let start = self.current;
            if self.check(Token::LeftSquareBracket) {
                let k = self.expression(fuel - 1)?;
                self.expect(Token::RightSquareBracket, "expected ']' after a field key")?;
                self.expect(Token::Assign, "expected '=' after a field key")?;
                let v = self.expression(fuel - 1)?;
                fields.push((k, v));
            } else {
                let is_named = self.tokens.len() > 0 && self.current < self.tokens.len() - 1
                    && self.tokens[self.current + 1].is(&Token::Assign)
                    && matches!(self.tokens[self.current], Token::Identifier(_));
                if is_named {
                    let n = self.name().unwrap();
                    self.expect(Token::Assign, "expected '='")?;
                    let v = self.expression(fuel - 1)?;
                    fields.push((Expr::Literal(Value::String(n)), v));
                } else {
                    let v = self.expression(fuel - 1)?;
                    let key = match Num::from_int(position) {
                        Some(n) => n,
                        None => return Err(msg("too many fields")),
                    };
                    if position == i64::MAX {
                        return Err(msg("too many fields"));
                    }
                    position = position + 1;
                    fields.push((Expr::Literal(Value::Number(key)), v));
                }
            }
            if !self.check(Token::Comma) && !self.check(Token::Semicolon) {
                self.expect(Token::RightCurlyBrace, "expected '}' to close the table")?;
                return Ok(Expr::FieldList(fields));
            }
            assert(self.current > start);
        }
    }

    /// A primary expression followed by any number of field accesses,
    /// indexings and calls.
    fn accessor(&mut self, fuel: u64) -> (r: Result<Expr, String>)
        requires
            old(self).wf(),
        ensures
            fuel > 1 && old(self).bad_start() ==> r is Err,
            fuel > 1 && old(self).simple_tail() is Some ==> r == Ok::<Expr, String>(old(self).simple_tail().unwrap())
                && final(self).current == final(self).tokens@.len(),
            final(self).follows(old(self)),
            r is Ok ==> final(self).current > old(self).current,
        decreases fuel,
    {
        if fuel == 0 {
            return Err(msg("expression nested too deeply"));
        }
        let mut left = self.primary(fuel - 1)?;
        let ghost chain = fuel > 1 && old(self).simple_tail() is Some && !old(self).lone_literal();
        let ghost total: int = (old(self).tokens@.len() - old(self).current - 1) / 2;
        let ghost mut jj: int = 0;
        loop
            invariant
                fuel > 0,
                self.follows(old(self)),
                self.current > old(self).current,
                fuel > 1 && old(self).lone_literal() ==> self.current == self.tokens@.len() && left == old(self).current_literal(),
                chain == (fuel > 1 && old(self).simple_tail() is Some && !old(self).lone_literal()),
                total == (old(self).tokens@.len() - old(self).current - 1) / 2,
                chain ==> 0 <= jj <= total && self.current == old(self).current + 1 + 2 * jj && left == dotted(old(self).tokens@, old(self).current as int, jj as nat),
                chain ==> old(self).tokens@.len() == old(self).current + 1 + 2 * total,
                chain ==> name_pairs(old(self).tokens@, old(self).current as int, total),
                !(fuel > 1 && old(self).bad_start()),
                decreases self.tokens@.len() - self.current,
        {
            proof {
                if chain && jj < total {
                    assert(old(self).tokens@[old(self).current + 1 + 2 * jj] is Period);
                    assert(old(self).tokens@[old(self).current + 2 + 2 * jj] is Identifier);
                }
            }
            if self.check(Token::Period) {
                match self.name() {
                    Some(n) => {
                        left = Expr::Accessor(Box::new(left), Box::new(Expr::Literal(Value::String(n))));
                        proof {
                            if chain {
                                jj = jj + 1;
                                assert(left == dotted(old(self).tokens@, old(self).current as int, jj as nat));
                            }
                        }
                    },
                    None => return Err(msg("expected a name after '.'")),
                }
            } else if self.check(Token::LeftSquareBracket) {
                let k = self.expression(fuel - 1)?;
                self.expect(Token::RightSquareBracket, "expected ']'")?;
                left = Expr::Accessor(Box::new(left), Box::new(k));
            } else if self.check(Token::LeftParens) {
                if self.check(Token::RightParens) {
                    left = Expr::FunctionCall(Box::new(left), Vec::new());
                } else {
                    let args = self.expr_list(fuel - 1)?;
                    self.expect(Token::RightParens, "expected ')' to close the arguments")?;
                    left = Expr::FunctionCall(Box::new(left), args);
                }
            } else if self.check(Token::LeftCurlyBrace) {
                let t = self.field_list(fuel - 1)?;
                let mut args: Vec<Expr> = Vec::new();
                args.push(t);
                left = Expr::FunctionCall(Box::new(left), args);
            } else if self.current < self.tokens.len() && matches!(self.tokens[self.current], Token::Literal(Value::String(_))) {
                let arg = self.primary(fuel - 1)?;
                let mut args: Vec<Expr> = Vec::new();
                args.push(arg);
                left = Expr::FunctionCall(Box::new(left), args);
            } else {
                return Ok(left);
            }
        }
    }

    fn unary(&mut self, fuel: u64) -> (r: Result<Expr, String>)
        requires
            old(self).wf(),
        ensures
            fuel > 2 && old(self).bad_start() ==> r is Err,
            fuel > 2 && old(self).simple_tail() is Some ==> r == Ok::<Expr, String>(old(self).simple_tail().unwrap())
                && final(self).current == final(self).tokens@.len(),
            final(self).follows(old(self)),
            r is Ok ==> final(self).current > old(self).current,
        decreases fuel,
    {
        if fuel == 0 {
            return Err(msg("expression nested too deeply"));
        }
        let op = if self.check(Token::Minus) {
            UnOp::Neg
        } else if self.check(Token::Not) {
            UnOp::Not
        } else if self.check(Token::Pound) {
            UnOp::Len
        } else {
            return self.accessor(fuel - 1);
        };
        let e = self.unary(fuel - 1)?;
        Ok(Expr::Unary(Box::new(e), op))
    }

    fn factor(&mut self, fuel: u64) -> (r: Result<Expr, String>)
        requires
            old(self).wf(),
        ensures
            fuel > 3 && old(self).bad_start() ==> r is Err,
            fuel > 3 && old(self).simple_tail() is Some ==> r == Ok::<Expr, String>(old(self).simple_tail().unwrap())
                && final(self).current == final(self).tokens@.len(),
            final(self).follows(old(self)),
            r is Ok ==> final(self).current > old(self).current,
        decreases fuel,
    {
        if fuel == 0 {
            return Err(msg("expression nested too deeply"));
        }
        let mut e = self.unary(fuel - 1)?;
        loop
            invariant
                fuel > 0,
                self.follows(old(self)),
                self.current > old(self).current,
            fuel > 3 && old(self).simple_tail() is Some ==> self.current == self.tokens@.len() && e == old(self).simple_tail().unwrap(),
                    !(fuel > 3 && old(self).bad_start()),
                decreases self.tokens@.len() - self.current,
        {
            let op = if self.check(Token::Star) {
                BinOp::Mul
            } else if self.check(Token::ForwardSlash) {
                BinOp::Div
            } else if self.check(Token::Percent) {
                BinOp::Mod
            } else {
                return Ok(e);
            };
            let r = self.unary(fuel - 1)?;
            e = Expr::Binary(Box::new(e), op, Box::new(r));
        }
    }

    fn term(&mut self, fuel: u64) -> (r: Result<Expr, String>)
        requires
            old(self).wf(),
        ensures
            fuel > 4 && old(self).bad_start() ==> r is Err,
            fuel > 4 && old(self).simple_tail() is Some ==> r == Ok::<Expr, String>(old(self).simple_tail().unwrap())
                && final(self).current == final(self).tokens@.len(),
            final(self).follows(old(self)),
            r is Ok ==> final(self).current > old(self).current,
        decreases fuel,
    {
        if fuel == 0 {
            return Err(msg("expression nested too deeply"));
        }
        let mut e = self.factor(fuel - 1)?;
        loop
            invariant
                fuel > 0,
                self.follows(old(self)),
                self.current > old(self).current,
            fuel > 4 && old(self).simple_tail() is Some ==> self.current == self.tokens@.len() && e == old(self).simple_tail().unwrap(),
                    !(fuel > 4 && old(self).bad_start()),
                decreases self.tokens@.len() - self.current,
        {
            let op = if self.check(Token::Plus) {
                BinOp::Add
            } else if self.check(Token::Minus) {
                BinOp::Sub
            } else {
                return Ok(e);
            };
            let r = self.factor(fuel - 1)?;
            e = Expr::Binary(Box::new(e), op, Box::new(r));
        }
    }

    /// `..`, which groups to the right.
    fn concat(&mut self, fuel: u64) -> (r: Result<Expr, String>)
        requires
            old(self).wf(),
        ensures
            fuel > 5 && old(self).bad_start() ==> r is Err,
            fuel > 5 && old(self).simple_tail() is Some ==> r == Ok::<Expr, String>(old(self).simple_tail().unwrap())
                && final(self).current == final(self).tokens@.len(),
            final(self).follows(old(self)),
            r is Ok ==> final(self).current > old(self).current,
        decreases fuel,
    {
        if fuel == 0 {
            return Err(msg("expression nested too deeply"));
        }
        let e = self.term(fuel - 1)?;
        if self.check(Token::Concatenation) {
            let r = self.concat(fuel - 1)?;
            return Ok(Expr::Binary(Box::new(e), BinOp::Concat, Box::new(r)));
        }
        Ok(e)
    }

    fn comparison(&mut self, fuel: u64) -> (r: Result<Expr, String>)
        requires
            old(self).wf(),
        ensures
            fuel > 6 && old(self).bad_start() ==> r is Err,
            fuel > 6 && old(self).simple_tail() is Some ==> r == Ok::<Expr, String>(old(self).simple_tail().unwrap())
                && final(self).current == final(self).tokens@.len(),
            final(self).follows(old(self)),
            r is Ok ==> final(self).current > old(self).current,
        decreases fuel,
    {
        if fuel == 0 {
            return Err(msg("expression nested too deeply"));
        }
        let mut e = self.concat(fuel - 1)?;
        loop
            invariant
                fuel > 0,
                self.follows(old(self)),
                self.current > old(self).current,
            fuel > 6 && old(self).simple_tail() is Some ==> self.current == self.tokens@.len() && e == old(self).simple_tail().unwrap(),
                    !(fuel > 6 && old(self).bad_start()),
                decreases self.tokens@.len() - self.current,
        {
            let op = if self.check(Token::LessThan) {
                BinOp::Lt
            } else if self.check(Token::LessThanOrEqual) {
                BinOp::Le
            } else if self.check(Token::GreaterThan) {
                BinOp::Gt
            } else if self.check(Token::GreaterThanOrEqual) {
                BinOp::Ge
            } else if self.check(Token::Equals) {
                BinOp::Eq
            } else if self.check(Token::NotEquals) {
                BinOp::Ne
            } else {
                return Ok(e);
            };
            let r = self.concat(fuel - 1)?;
            e = Expr::Binary(Box::new(e), op, Box::new(r));
        }
    }

    fn and(&mut self, fuel: u64) -> (r: Result<Expr, String>)
        requires
            old(self).wf(),
        ensures
            fuel > 7 && old(self).bad_start() ==> r is Err,
            fuel > 7 && old(self).simple_tail() is Some ==> r == Ok::<Expr, String>(old(self).simple_tail().unwrap())
                && final(self).current == final(self).tokens@.len(),
            final(self).follows(old(self)),
            r is Ok ==> final(self).current > old(self).current,
        decreases fuel,
    {
        if fuel == 0 {
            return Err(msg("expression nested too deeply"));
        }
        let mut e = self.comparison(fuel - 1)?;
        while self.check(Token::And)
            invariant
                fuel > 0,
                self.follows(old(self)),
                self.current > old(self).current,
            fuel > 7 && old(self).simple_tail() is Some ==> self.current == self.tokens@.len() && e == old(self).simple_tail().unwrap(),
                decreases self.tokens@.len() - self.current,
        {
            let r = self.comparison(fuel - 1)?;
            e = Expr::Binary(Box::new(e), BinOp::And, Box::new(r));
        }
        Ok(e)
    }

    fn or(&mut self, fuel: u64) -> (r: Result<Expr, String>)
        requires
            old(self).wf(),
        ensures
            fuel > 8 && old(self).bad_start() ==> r is Err,
            fuel > 8 && old(self).simple_tail() is Some ==> r == Ok::<Expr, String>(old(self).simple_tail().unwrap())
                && final(self).current == final(self).tokens@.len(),
            final(self).follows(old(self)),
            r is Ok ==> final(self).current > old(self).current,
        decreases fuel,
    {
        if fuel == 0 {
            return Err(msg("expression nested too deeply"));
        }
        let mut e = self.and(fuel - 1)?;
        while self.check(Token::Or)
            invariant
                fuel > 0,
                self.follows(old(self)),
                self.current > old(self).current,
            fuel > 8 && old(self).simple_tail() is Some ==> self.current == self.tokens@.len() && e == old(self).simple_tail().unwrap(),
                decreases self.tokens@.len() - self.current,
        {
            let r = self.and(fuel - 1)?;
            e = Expr::Binary(Box::new(e), BinOp::Or, Box::new(r));
        }
        Ok(e)
    }

    pub fn expression(&mut self, fuel: u64) -> (r: Result<Expr, String>)
        requires
            old(self).wf(),
        ensures
            fuel > 9 && old(self).bad_start() ==> r is Err,
            fuel > 9 && old(self).simple_tail() is Some ==> r == Ok::<Expr, String>(old(self).simple_tail().unwrap())
                && final(self).current == final(self).tokens@.len(),
            final(self).follows(old(self)),
            r is Ok ==> final(self).current > old(self).current,
        decreases fuel,
    {
        if fuel == 0 {
            return Err(msg("expression nested too deeply"));
        }
        self.or(fuel - 1)
    }

    /// One or more expressions separated by commas.
    fn expr_list(&mut self, fuel: u64) -> (r: Result<Vec<Expr>, String>)
        requires
            old(self).wf(),
        ensures
            fuel > 10 && old(self).bad_start() ==> r is Err,
            final(self).follows(old(self)),
            r is Ok ==> final(self).current > old(self).current,
            r matches Ok(l) ==> l@.len() >= 1,
        decreases fuel,
    {
        if fuel == 0 {
            return Err(msg("expression nested too deeply"));
        }
        let mut list: Vec<Expr> = Vec::new();
        let first = self.expression(fuel - 1)?;
        list.push(first);
        while self.check(Token::Comma)
            invariant
                fuel > 0,
                self.follows(old(self)),
                self.current > old(self).current,
                list@.len() >= 1,
            decreases self.tokens@.len() - self.current,
        {
            let e = self.expression(fuel - 1)?;
            list.push(e);
        }
        Ok(list)
    }

    /// Whether the next token ends a block.
    fn at_block_end(&self) -> (r: bool)
        requires
            self.wf(),
        ensures
            self.current >= self.tokens@.len() ==> r,
            self.current < self.tokens@.len() ==> (r <==> ({
                let t = self.tokens@[self.current as int];
                t is End || t is Else || t is Elseif || t is Until
            })),
    {
        self.at_end() || self.peek_is(&Token::End) || self.peek_is(&Token::Else)
            || self.peek_is(&Token::Elseif) || self.peek_is(&Token::Until)
    }

    /// Statements up to the end of input or a closing keyword, which is
    /// left in place.
    pub fn block(&mut self, fuel: u64) -> (r: Result<Vec<Stmt>, String>)
        requires
            old(self).wf(),
        ensures
            fuel > 0 && old(self).current == old(self).tokens@.len() ==> r is Ok && r->Ok_0@.len() == 0,
            fuel > 0 && old(self).current < old(self).tokens@.len() && ({
                let t = old(self).tokens@[old(self).current as int];
                t is End || t is Else || t is Elseif || t is Until
            }) ==> r is Ok && final(self).current == old(self).current,
            fuel > 13 && old(self).bad_start() && ({
                let t = old(self).tokens@[old(self).current as int];
                !statement_keyword(t) && !(t is End || t is Else || t is Elseif || t is Until)
            }) ==> r is Err,
            fuel > 1 && old(self).current < old(self).tokens@.len() && old(self).tokens@[old(self).current as int] is Goto
                ==> r is Err,
            final(self).follows(old(self)),
        decreases fuel,
    {
        if fuel == 0 {
            return Err(msg("block nested too deeply"));
        }
        let mut stmts: Vec<Stmt> = Vec::new();
        while !self.at_block_end()
            invariant
                fuel > 0,
                self.follows(old(self)),
                self.current == old(self).current ==> stmts@.len() == 0,
                fuel > 1 && old(self).current < old(self).tokens@.len() && old(self).tokens@[old(self).current as int] is Goto
                    ==> self.current == old(self).current,
                fuel > 13 && old(self).bad_start() && !statement_keyword(old(self).tokens@[old(self).current as int])
                    ==> self.current == old(self).current,
                old(self).current < old(self).tokens@.len() && ({
                    let t = old(self).tokens@[old(self).current as int];
                    t is End || t is Else || t is Elseif || t is Until
                }) ==> self.current == old(self).current,
            decreases self.tokens@.len() - self.current,
        {
            let s = self.statement(fuel - 1)?;
            stmts.push(s);
        }
        Ok(stmts)
    }

    /// `if` statement; the `if` or `elseif` is behind.
    fn if_statement(&mut self, fuel: u64) -> (r: Result<Stmt, String>)
        requires
            old(self).wf(),
        ensures
            final(self).follows(old(self)),
            r is Ok ==> final(self).current > old(self).current,
        decreases fuel,
    {
        if fuel == 0 {
            return Err(msg("statement nested too deeply"));
        }
        let cond = self.expression(fuel - 1)?;
        self.expect(Token::Then, "expected 'then'")?;
        let body = self.block(fuel - 1)?;
        if self.check(Token::Elseif) {
            let rest = self.if_statement(fuel - 1)?;
            let mut else_body: Vec<Stmt> = Vec::new();
            else_body.push(rest);
            Ok(Stmt::IfStmt(cond, body, else_body))
        } else if self.check(Token::Else) {
            let else_body = self.block(fuel - 1)?;
            self.expect(Token::End, "expected 'end' to close 'if'")?;
            Ok(Stmt::IfStmt(cond, body, else_body))
        } else {
            self.expect(Token::End, "expected 'end' to close 'if'")?;
            Ok(Stmt::IfStmt(cond, body, Vec::new()))
        }
    }

    /// Numeric `for`; the `for` is behind.
    fn numeric_for_loop(&mut self, fuel: u64) -> (r: Result<Stmt, String>)
        requires
            old(self).wf(),
        ensures
            final(self).follows(old(self)),
            r is Ok ==> final(self).current > old(self).current,
        decreases fuel,
    {
        if fuel == 0 {
            return Err(msg("statement nested too deeply"));
        }
        let var = match self.name() {
            Some(n) => n,
            None => return Err(msg("expected a name after 'for'")),
        };
        self.expect(Token::Assign, "expected '=' in 'for' (only numeric 'for' is supported)")?;
        let start = self.expression(fuel - 1)?;
        self.expect(Token::Comma, "expected ',' in 'for'")?;
        let limit = self.expression(fuel - 1)?;
        let step = if self.check(Token::Comma) {
            self.expression(fuel - 1)?
        } else {
            Expr::Literal(Value::Number(Num::one()))
        };
        self.expect(Token::Do, "expected 'do' in 'for'")?;
        let body = self.block(fuel - 1)?;
        self.expect(Token::End, "expected 'end' to close 'for'")?;
        Ok(Stmt::NumericForLoop(var, start, limit, step, body))
    }

    /// `local` names or `local function`; the `local` is behind.
    fn local_assignment(&mut self, fuel: u64) -> (r: Result<Stmt, String>)
        requires
            old(self).wf(),
        ensures
            final(self).follows(old(self)),
            r is Ok ==> final(self).current > old(self).current,
        decreases fuel,
    {
        if fuel == 0 {
            return Err(msg("statement nested too deeply"));
        }
        if self.check(Token::Function) {
            let n = match self.name() {
                Some(n) => n,
                None => return Err(msg("expected a function name")),
            };
            let idx = self.function_body(Some(n.clone()), fuel - 1)?;
            let mut names: Vec<String> = Vec::new();
            names.push(n);
            let mut vals: Vec<Expr> = Vec::new();
            vals.push(Expr::Function(idx));
            return Ok(Stmt::LocalAssignment(names, vals));
        }
        let mut names: Vec<String> = Vec::new();
        loop
            invariant
                fuel > 0,
                self.follows(old(self)),
                self.current >= old(self).current + names@.len(),
            decreases self.tokens@.len() - self.current,
        {
            match self.name() {
                Some(n) => names.push(n),
                None => return Err(msg("expected a name after 'local'")),
            }
            if !self.check(Token::Comma) {
                break;
            }
        }
        let vals = if self.check(Token::Assign) {
            self.expr_list(fuel - 1)?
        } else {
            Vec::new()
        };
        if names.len() == 0 {
            return Err(msg("expected a name after 'local'"));
        }
        Ok(Stmt::LocalAssignment(names, vals))
    }

    /// `function a.b.c (...) ... end`; the `function` is behind.
    fn function_statement(&mut self, fuel: u64) -> (r: Result<Stmt, String>)
        requires
            old(self).wf(),
        ensures
            fuel > 0 && !(old(self).current < old(self).tokens@.len() && old(self).tokens@[old(self).current as int] is Identifier)
                ==> r is Err,
            final(self).follows(old(self)),
            r is Ok ==> final(self).current > old(self).current,
        decreases fuel,
    {
        if fuel == 0 {
            return Err(msg("statement nested too deeply"));
        }
        let first = match self.name() {
            Some(n) => n,
            None => return Err(msg("a function statement needs a name")),
        };
        let mut full = first.clone();
        let mut target = Expr::Var(first);
        while self.check(Token::Period)
            invariant
                fuel > 0,
                self.follows(old(self)),
                self.current > old(self).current,
            decreases self.tokens@.len() - self.current,
        {
            match self.name() {
                Some(n) => {
                    full.append(".");
                    full.append(n.as_str());
                    target = Expr::Accessor(Box::new(target), Box::new(Expr::Literal(Value::String(n))));
                },
                None => return Err(msg("expected a name after '.'")),
            }
        }
        let idx = self.function_body(Some(full), fuel - 1)?;
        let mut targets: Vec<Expr> = Vec::new();
        targets.push(target);
        let mut vals: Vec<Expr> = Vec::new();
        vals.push(Expr::Function(idx));
        Ok(Stmt::Assignment(targets, vals))
    }

    /// An assignment or an expression statement.
    fn assignment(&mut self, fuel: u64) -> (r: Result<Stmt, String>)
        requires
            old(self).wf(),
        ensures
            fuel > 11 && old(self).bad_start() ==> r is Err,
            final(self).follows(old(self)),
            r is Ok ==> final(self).current > old(self).current,
        decreases fuel,
    {
        if fuel == 0 {
            return Err(msg("statement nested too deeply"));
        }
        let mut list = self.expr_list(fuel - 1)?;
        if self.check(Token::Assign) {
            let mut i: usize = 0;
            while i < list.len()
                invariant
                    i <= list@.len(),
                    self.follows(old(self)),
                    self.current > old(self).current,
                decreases list@.len() - i,
            {
                match &list[i] {
                    Expr::Var(_) => {},
                    Expr::Accessor(_, _) => {},
                    _ => return Err(msg("cannot assign to this expression")),
                }
                i = i + 1;
            }
            let vals = self.expr_list(fuel - 1)?;
            return Ok(Stmt::Assignment(list, vals));
        }
        if list.len() == 1 {
            let e = list.pop().unwrap();
            Ok(Stmt::ExprStmt(e))
        } else {
            Ok(Stmt::ExprStmt(Expr::Exprlist(list)))
        }
    }

    pub fn statement(&mut self, fuel: u64) -> (r: Result<Stmt, String>)
        requires
            old(self).wf(),
        ensures
            fuel > 0 && old(self).current < old(self).tokens@.len() && old(self).tokens@[old(self).current as int] is Semicolon
                ==> r matches Ok(Stmt::Empty),
            fuel > 0 && old(self).current < old(self).tokens@.len() && old(self).tokens@[old(self).current as int] is Break
                ==> r matches Ok(Stmt::Break),
            fuel > 0 && old(self).current < old(self).tokens@.len() && old(self).tokens@[old(self).current as int] is Goto
                ==> r is Err,
            fuel > 12 && old(self).bad_start() && !statement_keyword(old(self).tokens@[old(self).current as int]) ==> r is Err,
            fuel > 1 && old(self).current < old(self).tokens@.len() && old(self).tokens@[old(self).current as int] is Function
                && !(old(self).current + 1 < old(self).tokens@.len()
                && old(self).tokens@[old(self).current + 1] is Identifier) ==> r is Err,
            final(self).follows(old(self)),
            r is Ok ==> final(self).current > old(self).current,
        decreases fuel,
    {
        if fuel == 0 {
            return Err(msg("statement nested too deeply"));
        }
        if self.check(Token::Semicolon) {
            Ok(Stmt::Empty)
        } else if self.check(Token::Do) {
            let body = self.block(fuel - 1)?;
            self.expect(Token::End, "expected 'end' to close 'do'")?;
            Ok(Stmt::DoBlock(body))
        } else if self.check(Token::Local) {
            self.local_assignment(fuel - 1)
        } else if self.check(Token::If) {
            self.if_statement(fuel - 1)
        } else if self.check(Token::While) {
            let cond = self.expression(fuel - 1)?;
            self.expect(Token::Do, "expected 'do' in 'while'")?;
            let body = self.block(fuel - 1)?;
            self.expect(Token::End, "expected 'end' to close 'while'")?;
            Ok(Stmt::WhileLoop(cond, body))
        } else if self.check(Token::Repeat) {
            let body = self.block(fuel - 1)?;
            self.expect(Token::Until, "expected 'until' to close 'repeat'")?;
            let cond = self.expression(fuel - 1)?;
            Ok(Stmt::RepeatUntilLoop(body, cond))
        } else if self.check(Token::Return) {
            let vals = if self.at_block_end() || self.peek_is(&Token::Semicolon) {
                Vec::new()
            } else {
                self.expr_list(fuel - 1)?
            };
            Ok(Stmt::Return(vals))
        } else if self.check(Token::Break) {
            Ok(Stmt::Break)
        } else if self.check(Token::For) {
            self.numeric_for_loop(fuel - 1)
        } else if self.check(Token::Function) {
            self.function_statement(fuel - 1)
        } else if self.check(Token::Goto) {
            Err(msg("'goto' is not supported"))
        } else {
            self.assignment(fuel - 1)
        }
    }

    /// Parses all the tokens as one chunk.
    pub fn chunk(&mut self) -> (r: Result<Program, String>)
        requires
            old(self).wf(),
        ensures
            final(self).tokens@ == old(self).tokens@,
            r is Ok ==> final(self).current == final(self).tokens@.len(),
            old(self).current == old(self).tokens@.len() ==> r is Ok && r->Ok_0.body@.len() == 0,
            old(self).current < old(self).tokens@.len() && old(self).tokens@[old(self).current as int] is Goto ==> r is Err,
            old(self).bad_start() && !statement_keyword(old(self).tokens@[old(self).current as int]) ==> r is Err,
    {
        let body = self.block(MAX_DEPTH)?;
        if !self.at_end() {
            return Err(msg("unexpected token at the top level"));
        }
        let mut protos: Vec<Proto> = Vec::new();
        std::mem::swap(&mut protos, &mut self.protos);
        Ok(Program { protos, body })
    }
}

} // verus!
