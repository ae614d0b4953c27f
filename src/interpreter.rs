//! The evaluator: walks a parsed program against a heap of tables, a global
//! environment and a stack of scope frames.
//!
//! Every evaluation function takes a step budget, `fuel`, that bounds its
//! depth of recursion and the number of loop rounds it runs; running out is
//! reported as an error.
//!
//! What each function does is stated by a family of predicates over the
//! state before and after and the result: `expr_post` (expressions),
//! `binop_post`, `index_post`, `multi_post` and `list_post` (multiple
//! values), `stmt_post`, `block_post`, `scoped_post`, `while_loop` and
//! `repeat_loop` (statements), `assignment_post` and `local_post`,
//! `call_post` and `value_call_post` (calls), and `native_outcome`
//! (builtins).  Each describes a construct through the predicates of its
//! parts, naming the intermediate states and results with `witnessed`.
//!
//! `collectgarbage` starts from the globals, the scope stack and the extra
//! arguments of active calls.  A table held only by an expression that is
//! still being evaluated (an earlier field of a table constructor, say) is
//! not among them; reading such a table after a collection freed it is
//! reported as an error.
use vstd::prelude::*;
use crate::ast::{BinOp, Expr, Program, Stmt, UnOp};
use crate::function::{Function, FunctionImpl};
use crate::gc_store::GcStore;
use crate::number::{Num, SCALE};
use crate::table::{UserTable, find_in, text_lookup};
use crate::values::{GcKey, NativeFunction, Value, print_line, truthy, value_eq};

verus! {

fn msg(s: &str) -> (r: String)
    ensures
        r@ == s@,
{
    String::from_str(s)
}

/// The name of the type of a value, as error messages give it.
pub open spec fn kind_text(v: Value) -> Seq<char> {
    match v {
        Value::Nil => "nil"@,
        Value::Boolean(_) => "boolean"@,
        Value::Number(_) => "number"@,
        Value::String(_) => "string"@,
        Value::FunctionDef(_) => "function"@,
        Value::NativeFunctionDef(_) => "function"@,
        Value::Table(_) => "table"@,
    }
}

/// An error message: `s` followed by the type of `v`.
fn kind_error(s: &str, v: &Value) -> (r: String)
    ensures
        r@ == s@ + kind_text(*v) + " value"@,
{
    let mut m = String::from_str(s);
    m.append(kind_name(v));
    m.append(" value");
    m
}

fn kind_name(v: &Value) -> (r: &'static str)
    ensures
        r@ == kind_text(*v),
{
    match v {
        Value::Nil => "nil",
        Value::Boolean(_) => "boolean",
        Value::Number(_) => "number",
        Value::String(_) => "string",
        Value::FunctionDef(_) => "function",
        Value::NativeFunctionDef(_) => "function",
        Value::Table(_) => "table",
    }
}

/// How a statement finished.
pub enum Flow {
    Normal,
    Return(Vec<Value>),
    Break,
}

/// The first value of a list, or `nil`.
pub open spec fn first_or_nil(vs: Seq<Value>) -> Value {
    if vs.len() > 0 {
        vs[0]
    } else {
        Value::Nil
    }
}

fn first_value(vs: Vec<Value>) -> (r: Value)
    ensures
        r == first_or_nil(vs@),
{
    let mut vs = vs;
    if vs.len() > 0 {
        vs.swap_remove(0)
    } else {
        Value::Nil
    }
}

/// The result of a function body: what it returned, nothing if it fell
/// through, and an error for a `break` that found no loop.
pub fn finish_call(flow: Flow) -> (r: Result<Vec<Value>, String>)
    ensures
        match flow {
            Flow::Normal => r matches Ok(vs) && vs@.len() == 0,
            Flow::Return(vs) => r == Ok::<Vec<Value>, String>(vs),
            Flow::Break => r is Err,
        },
{
    match flow {
        Flow::Normal => Ok(Vec::new()),
        Flow::Return(vs) => Ok(vs),
        Flow::Break => Err(msg("break outside loop")),
    }
}

pub struct Interpreter {
    pub globals: GcKey,
    pub stack: Vec<GcKey>,
    pub gc: GcStore,
    pub closures: Vec<FunctionImpl>,
    /// For each active call of a function that takes `...`, the table of
    /// its extra arguments, at keys 1, 2, ...
    pub varargs: Vec<Option<GcKey>>,
    /// Lines written by `print`, not yet taken by the host.
    pub output: Vec<String>,
}

fn key(s: &str) -> (r: Value)
    ensures
        r matches Value::String(t) && t@ == s@,
{
    Value::String(String::from_str(s))
}

/// What the builtin `n` does with `args`: `print` adds one line, the
/// arguments' display forms joined by tabs; `assert` passes its arguments
/// on when the first is true and fails with the second argument's display
/// form, or "Assertion failed!"; `setmetatable` and `getmetatable` set and
/// read the metatable; `collectgarbage` frees exactly what is unreachable.
pub open spec fn native_outcome(
    old: Interpreter,
    new: Interpreter,
    n: NativeFunction,
    args: Seq<Value>,
    r: Result<Vec<Value>, String>,
) -> bool {
    let t = if args.len() > 0 && args[0] is Table { args[0]->Table_0.id } else { 0u64 };
    &&& n is CollectGarbage ==> forall|h: u64| #[trigger] new.gc.live(h) == old.gc.reachable(old.closures@, old.roots(), h)
    &&& n is CollectGarbage ==> r is Ok && r->Ok_0@ == seq![Value::Nil]
    &&& n is Print ==> new.output@.len() == old.output@.len() + 1 && new.output@.last()@ == crate::values::joined_text(args)
        && new.output@.drop_last() == old.output@ && r is Ok && r->Ok_0@ == seq![Value::Nil]
    &&& !(n is Print) ==> new.output@ == old.output@
    &&& n is Assert ==> (args.len() > 0 && truthy(args[0]) <==> r is Ok)
    &&& n is Assert && r is Ok ==> r->Ok_0@ == args
    &&& n is Assert && r is Err ==> r->Err_0@ == (if args.len() > 1 {
        crate::values::display_text(args[1])
    } else {
        "Assertion failed!"@
    })
    &&& n is GetMetatable ==> r is Ok && r->Ok_0@.len() == 1 && r->Ok_0@[0] == (if args.len() > 0 && args[0] is Table
        && old.gc.live(t) && old.gc.table(t).meta is Some {
        Value::Table(old.gc.table(t).meta.unwrap())
    } else {
        Value::Nil
    })
    &&& n is GetMetatable ==> new == old
    &&& n is SetMetatable ==> new.gc.slots@.len() == old.gc.slots@.len()
        && (forall|h: int| 0 <= h < old.gc.slots@.len() && h != t ==> #[trigger] new.gc.slots@[h] == old.gc.slots@[h])
        && (forall|h: u64| #[trigger] new.gc.live(h) == old.gc.live(h))
        && new.stack@ == old.stack@ && new.globals == old.globals
    &&& n is SetMetatable ==> (r is Ok <==> args.len() >= 2 && args[0] is Table && args[1] is Table && old.gc.live(t))
    &&& n is SetMetatable && r is Ok ==> r->Ok_0@.len() == 1 && r->Ok_0@[0] == args[0] && new.gc.live(t)
        && new.gc.table(t).meta == Some(args[1]->Table_0) && new.gc.table(t).entries@ == old.gc.table(t).entries@
}

/// The argument at `i`, or `nil` past the end.
pub open spec fn arg_or_nil(args: Seq<Value>, i: int) -> Value {
    if 0 <= i < args.len() {
        args[i]
    } else {
        Value::Nil
    }
}

/// Calling the user function `f` (with fewer than a billion arguments)
/// whose body is empty, or starts with a `return` of literals: the new call frame binds each parameter to its
/// argument or `nil`, and the call gives nothing, or those literals.
pub open spec fn call_outcome(
    old: Interpreter,
    new: Interpreter,
    prog: Program,
    f: Function,
    args: Seq<Value>,
    r: Result<Vec<Value>, String>,
) -> bool {
    f.id < old.closures@.len() && old.closures@[f.id as int].proto < prog.protos@.len() && old.has_room(2)
        && args.len() < 1_000_000_000 ==> {
        let proto = prog.protos@[old.closures@[f.id as int].proto as int];
        let body = proto.body@;
        let frame = old.gc.slots@.len() as u64;
        (body.len() == 0 || (body[0] is Return && all_literals(body[0]->Return_0@))) ==> {
            &&& r is Ok
            &&& body.len() == 0 ==> r->Ok_0@.len() == 0
            &&& body.len() > 0 ==> r->Ok_0@ == literal_seq(body[0]->Return_0@)
            &&& new.output@ == old.output@
            &&& new.gc.live(frame)
            &&& forall|i: int| 0 <= i < proto.params@.len() && last_name(proto.params@, i, proto.params@.len() as int)
                ==> #[trigger] new.gc.table(frame).get_spec(Value::String(proto.params@[i])) == arg_or_nil(args, i)
        }
    }
}

/// The handler for `event` in the metatable of `v`: the metatable's entry
/// at the string `event`, when `v` is a live table with a live metatable
/// and that entry is not `nil`.
pub open spec fn meta_handler(gc: GcStore, v: Value, event: Seq<char>) -> Option<Value> {
    if v is Table && gc.live(v->Table_0.id) && gc.table(v->Table_0.id).meta is Some
        && gc.live(gc.table(v->Table_0.id).meta.unwrap().id) {
        let x = text_lookup(gc.table(gc.table(v->Table_0.id).meta.unwrap().id).entries@, event);
        if x is Nil {
            None
        } else {
            Some(x)
        }
    } else {
        None
    }
}

/// The metamethod event of an arithmetic or concatenation operator.
pub open spec fn arith_event(op: BinOp) -> Seq<char> {
    match op {
        BinOp::Add => "__add"@,
        BinOp::Sub => "__sub"@,
        BinOp::Mul => "__mul"@,
        BinOp::Div => "__div"@,
        BinOp::Mod => "__mod"@,
        _ => "__concat"@,
    }
}

/// Whether `v` joins a concatenation as text.
pub open spec fn is_text(v: Value) -> bool {
    v is String || v is Number
}

/// A binary operator other than `..`, `and` and `or` on two numbers:
/// comparisons give booleans, arithmetic its exact result; `None` when
/// that fails (out of range, division by zero).
pub open spec fn number_op(op: BinOp, x: Num, y: Num) -> Option<Value> {
    match op {
        BinOp::Lt => Some(Value::Boolean(x.units < y.units)),
        BinOp::Le => Some(Value::Boolean(x.units <= y.units)),
        BinOp::Gt => Some(Value::Boolean(y.units < x.units)),
        BinOp::Ge => Some(Value::Boolean(y.units <= x.units)),
        BinOp::Eq => Some(Value::Boolean(x.units == y.units)),
        BinOp::Ne => Some(Value::Boolean(x.units != y.units)),
        _ => match num_binop(op, x, y) {
            Some(n) => Some(Value::Number(n)),
            None => None,
        },
    }
}

/// A call `f(args)` whose callee reads without effects and whose
/// arguments are literals: the callee's value and the argument values.
pub open spec fn simple_call(st: Interpreter, e: Expr) -> Option<(Value, Seq<Value>)> {
    if e is FunctionCall && st.simple_value(*e->FunctionCall_0) is Some && all_literals(e->FunctionCall_1@) {
        Some((st.simple_value(*e->FunctionCall_0).unwrap(), literal_seq(e->FunctionCall_1@)))
    } else {
        None
    }
}

/// Marks the intermediate results that a run passes through; the
/// semantic predicates below name them by it.
pub open spec fn witnessed<A, B>(a: A, b: B) -> bool {
    true
}

/// `mid` is `old` with a fresh, empty frame pushed: the new table is the
/// next slot of the heap.
pub open spec fn fresh_frame(old: Interpreter, mid: Interpreter) -> bool {
    let k = old.gc.slots@.len();
    &&& mid.wf()
    &&& mid.gc.slots@.len() == k + 1
    &&& forall|h: int| 0 <= h < k ==> #[trigger] mid.gc.slots@[h] == old.gc.slots@[h]
    &&& mid.gc.live(k as u64)
    &&& mid.gc.table(k as u64).entries@.len() == 0
    &&& mid.gc.table(k as u64).meta is None
    &&& mid.stack@ == old.stack@.push(GcKey { id: k as u64 })
    &&& mid.globals == old.globals
    &&& mid.closures == old.closures
    &&& mid.varargs == old.varargs
    &&& mid.output == old.output
}

/// `new` is `mid` with its top frame dropped.
pub open spec fn popped(mid: Interpreter, new: Interpreter) -> bool {
    &&& new.stack@ == mid.stack@.drop_last()
    &&& new.gc == mid.gc
    &&& new.globals == mid.globals
    &&& new.closures == mid.closures
    &&& new.varargs == mid.varargs
    &&& new.output == mid.output
}

/// Evaluating `e` from `old` with budget `fuel` can end in `new` with result
/// `r`: names and literals read without effects, and `and` / `or` evaluate
/// their left operand, then the right one only when the left one does not
/// decide.
pub open spec fn expr_post(prog: Program, old: Interpreter, e: Expr, fuel: nat, new: Interpreter, r: Result<Value, String>) -> bool
    decreases fuel, 5int,
{
    &&& new.keeps(&old)
    &&& fuel == 0 ==> r is Err
    &&& fuel > 0 && old.simple_value(e) is Some ==> r == Ok::<Value, String>(old.simple_value(e).unwrap()) && new == old
    &&& fuel > 0 && e is Binary && (e->Binary_1 == BinOp::And || e->Binary_1 == BinOp::Or) ==> exists|
        mid: Interpreter,
        rl: Result<Value, String>,
    |
        #[trigger] witnessed(mid, rl) && expr_post(prog, old, *e->Binary_0, (fuel - 1) as nat, mid, rl) && short_post(
            prog,
            mid,
            e->Binary_1 == BinOp::And,
            rl,
            *e->Binary_2,
            (fuel - 1) as nat,
            new,
            r,
        )
    &&& fuel > 0 && e is Accessor ==> field_read_post(prog, old, *e->Accessor_0, *e->Accessor_1, (fuel - 1) as nat, new, r)
    &&& fuel > 0 && (e is FunctionCall || e is Grouping || e is Exprlist) ==> exists|rm: Result<Vec<Value>, String>|
        #[trigger] witnessed(new, rm) && multi_post(
            prog,
            old,
            if e is Grouping { *e->Grouping_0 } else { e },
            (fuel - 1) as nat,
            new,
            rm,
        ) && (rm is Err ==> r is Err) && (rm is Ok ==> r == Ok::<Value, String>(first_or_nil(rm->Ok_0@)))
    &&& fuel > 0 && e is Binary && e->Binary_1 != BinOp::And && e->Binary_1 != BinOp::Or ==> exists|
        m1: Interpreter,
        ra: Result<Value, String>,
    |
        #[trigger] witnessed(m1, ra) && expr_post(prog, old, *e->Binary_0, (fuel - 1) as nat, m1, ra) && {
            &&& ra is Err ==> r is Err && new == m1
            &&& ra is Ok ==> exists|m2: Interpreter, rb: Result<Value, String>|
                #[trigger] witnessed(m2, rb) && expr_post(prog, m1, *e->Binary_2, (fuel - 1) as nat, m2, rb) && {
                    &&& rb is Err ==> r is Err && new == m2
                    &&& rb is Ok ==> binop_post(prog, m2, e->Binary_1, ra->Ok_0, rb->Ok_0, (fuel - 1) as nat, new, r)
                }
        }
}

/// `and` (when `is_and`) or `or`, after its left operand gave `rl` and left
/// the state `old`; the right operand runs with budget `fuel - 1`.
pub open spec fn short_post(
    prog: Program,
    old: Interpreter,
    is_and: bool,
    rl: Result<Value, String>,
    right: Expr,
    fuel: nat,
    new: Interpreter,
    r: Result<Value, String>,
) -> bool
    decreases fuel, 4int,
{
    &&& rl is Err ==> r is Err && new == old
    &&& rl is Ok && is_and != truthy(rl->Ok_0) ==> r == rl && new == old
    &&& rl is Ok && is_and == truthy(rl->Ok_0) ==> if fuel >= 1 {
        expr_post(prog, old, right, (fuel - 1) as nat, new, r)
    } else {
        r is Err
    }
}

/// A binary operator other than `and` / `or` on the values `a` and `b`,
/// with budget `fuel`: on two numbers the exact result (`number_op`); `==`
/// and `~=` on values that are not both tables compare them; otherwise
/// arithmetic and `..` dispatch to the metamethod of `a`, else of `b`, and
/// give its first result, failing when there is none.
pub open spec fn binop_post(
    prog: Program,
    old: Interpreter,
    op: BinOp,
    a: Value,
    b: Value,
    fuel: nat,
    new: Interpreter,
    r: Result<Value, String>,
) -> bool
    decreases fuel, 5int,
{
    let arith = op == BinOp::Add || op == BinOp::Sub || op == BinOp::Mul || op == BinOp::Div || op == BinOp::Mod
        || op == BinOp::Concat;
    let h = if meta_handler(old.gc, a, arith_event(op)) is Some {
        meta_handler(old.gc, a, arith_event(op))
    } else {
        meta_handler(old.gc, b, arith_event(op))
    };
    &&& new.keeps(&old)
    &&& fuel == 0 ==> r is Err
    &&& fuel > 1 && a is Number && b is Number && op != BinOp::Concat ==> match number_op(op, a->Number_0, b->Number_0) {
        Some(v) => r == Ok::<Value, String>(v),
        None => r is Err,
    }
    &&& fuel > 1 && !(a is Table && b is Table) && op == BinOp::Eq ==> r == Ok::<Value, String>(Value::Boolean(value_eq(a, b)))
    &&& fuel > 1 && !(a is Table && b is Table) && op == BinOp::Ne ==> r == Ok::<Value, String>(Value::Boolean(!value_eq(a, b)))
    &&& fuel > 1 && arith && op == BinOp::Concat && is_text(a) && is_text(b) ==> r is Ok && r->Ok_0 is String
        && r->Ok_0->String_0@ == crate::values::display_text(a) + crate::values::display_text(b)
    &&& fuel > 1 && arith && !(a is Number && b is Number && op != BinOp::Concat) && !(op == BinOp::Concat && is_text(a)
        && is_text(b)) ==> (h is None ==> r is Err) && (h is Some ==> handler_result(prog, old, h.unwrap(), seq![a, b],
        (fuel - 2) as nat, new, r))
}

/// The run of the statements of `stmts` from position `i`, each with budget
/// `sf`: they run in order until one does not finish normally, and that
/// flow (or error) is the block's; a block that runs to its end finishes
/// normally.
pub open spec fn block_post(
    prog: Program,
    old: Interpreter,
    stmts: Seq<Stmt>,
    i: int,
    sf: nat,
    new: Interpreter,
    r: Result<Flow, String>,
) -> bool
    decreases sf + 1, stmts.len() - i,
{
    if i < 0 || i >= stmts.len() {
        r is Ok && r->Ok_0 is Normal && new == old
    } else {
        exists|mid: Interpreter, f: Result<Flow, String>|
            #[trigger] witnessed(mid, f) && stmt_post(prog, old, stmts[i], sf, mid, f) && {
                &&& f is Err ==> r is Err && new == mid
                &&& f is Ok && f->Ok_0 is Normal ==> block_post(prog, mid, stmts, i + 1, sf, new, r)
                &&& f is Ok && !(f->Ok_0 is Normal) ==> r == f && new == mid
            }
    }
}

/// A block run in a fresh frame with budget `fuel`: the frame is pushed,
/// the block runs, the frame is dropped.
pub open spec fn scoped_post(
    prog: Program,
    old: Interpreter,
    stmts: Seq<Stmt>,
    fuel: nat,
    new: Interpreter,
    r: Result<Flow, String>,
) -> bool
    decreases fuel, 8int,
{
    &&& new.keeps(&old)
    &&& fuel < 2 ==> r is Err
    &&& fuel >= 2 && old.has_room(1) ==> exists|mid: Interpreter, mid2: Interpreter|
        #[trigger] witnessed(mid, mid2) && fresh_frame(old, mid) && block_post(prog, mid, stmts, 0, (fuel - 2) as nat, mid2, r)
            && popped(mid2, new)
}

/// The rounds of `while c do body end`, at most `k` of them, each
/// evaluating `c` and the body with budget `g`: a false condition ends the
/// loop normally, a `break` in the body ends it normally, a `return` is
/// passed out, and an error ends it.
pub open spec fn while_loop(
    prog: Program,
    old: Interpreter,
    c: Expr,
    body: Seq<Stmt>,
    g: nat,
    k: nat,
    new: Interpreter,
    r: Result<Flow, String>,
) -> bool
    decreases g + 1, k,
{
    if k == 0 {
        r is Err && new == old
    } else {
        exists|mid: Interpreter, rc: Result<Value, String>|
            #[trigger] witnessed(mid, rc) && expr_post(prog, old, c, g, mid, rc) && {
                &&& rc is Err ==> r is Err && new == mid
                &&& rc is Ok && !truthy(rc->Ok_0) ==> r is Ok && r->Ok_0 is Normal && new == mid
                &&& rc is Ok && truthy(rc->Ok_0) ==> exists|mid2: Interpreter, rb: Result<Flow, String>|
                    #[trigger] witnessed(mid2, rb) && scoped_post(prog, mid, body, g, mid2, rb) && {
                        &&& rb is Err ==> r is Err && new == mid2
                        &&& rb is Ok && rb->Ok_0 is Break ==> r is Ok && r->Ok_0 is Normal && new == mid2
                        &&& rb is Ok && rb->Ok_0 is Return ==> r == rb && new == mid2
                        &&& rb is Ok && rb->Ok_0 is Normal ==> while_loop(prog, mid2, c, body, g, (k - 1) as nat, new, r)
                    }
            }
    }
}

/// The rounds of `repeat body until c`, at most `k`, in the loop's frame:
/// the body runs as a block with budget `ef`, then the condition with
/// budget `ef`; a true condition or a `break` ends the loop normally, a
/// `return` is passed out, and an error ends it.
pub open spec fn repeat_loop(
    prog: Program,
    old: Interpreter,
    body: Seq<Stmt>,
    c: Expr,
    ef: nat,
    k: nat,
    new: Interpreter,
    r: Result<Flow, String>,
) -> bool
    decreases ef + 1, k,
{
    if k == 0 {
        r is Err && new == old
    } else {
        exists|m: Interpreter, rb: Result<Flow, String>|
            #[trigger] witnessed(m, rb) && (if ef == 0 {
                rb is Err && m == old
            } else {
                block_post(prog, old, body, 0, (ef - 1) as nat, m, rb)
            }) && {
                &&& rb is Err ==> r is Err && new == m
                &&& rb is Ok && rb->Ok_0 is Break ==> r is Ok && r->Ok_0 is Normal && new == m
                &&& rb is Ok && rb->Ok_0 is Return ==> r == rb && new == m
                &&& rb is Ok && rb->Ok_0 is Normal ==> exists|m2: Interpreter, rc: Result<Value, String>|
                    #[trigger] witnessed(m2, rc) && expr_post(prog, m, c, ef, m2, rc) && {
                        &&& rc is Err ==> r is Err && new == m2
                        &&& rc is Ok && truthy(rc->Ok_0) ==> r is Ok && r->Ok_0 is Normal && new == m2
                        &&& rc is Ok && !truthy(rc->Ok_0) ==> repeat_loop(prog, m2, body, c, ef, (k - 1) as nat, new, r)
                    }
            }
    }
}

/// `repeat body until c` with budget `fuel`: a fresh frame is pushed once,
/// the rounds run in it, and the frame is dropped.
pub open spec fn repeat_post(
    prog: Program,
    old: Interpreter,
    body: Seq<Stmt>,
    c: Expr,
    fuel: nat,
    new: Interpreter,
    r: Result<Flow, String>,
) -> bool
    decreases fuel + 1, 0int,
{
    &&& fuel < 2 ==> r is Err
    &&& fuel >= 2 && old.has_room(1) ==> exists|mid: Interpreter, mid2: Interpreter|
        #[trigger] witnessed(mid, mid2) && fresh_frame(old, mid) && repeat_loop(prog, mid, body, c, (fuel - 2) as nat,
            (fuel - 1) as nat, mid2, r) && popped(mid2, new)
}

/// One statement with budget `fuel`: `;` and `break`; `do` runs its block
/// in a fresh frame; `if` evaluates its condition, then runs the chosen
/// block in a fresh frame; `while` runs its rounds; a chunk runs its block
/// in a fresh frame, and a `break` that ends it is an error.
pub open spec fn stmt_post(prog: Program, old: Interpreter, s: Stmt, fuel: nat, new: Interpreter, r: Result<Flow, String>) -> bool
    decreases fuel, 7int,
{
    &&& new.keeps(&old)
    &&& fuel == 0 ==> r is Err
    &&& fuel > 0 && s is Empty ==> r is Ok && r->Ok_0 is Normal && new == old
    &&& fuel > 0 && s is Break ==> r is Ok && r->Ok_0 is Break && new == old
    &&& fuel > 0 && s is DoBlock ==> scoped_post(prog, old, s->DoBlock_0@, (fuel - 1) as nat, new, r)
    &&& fuel > 0 && s is IfStmt ==> exists|mid: Interpreter, rc: Result<Value, String>|
        #[trigger] witnessed(mid, rc) && expr_post(prog, old, s->IfStmt_0, (fuel - 1) as nat, mid, rc) && {
            &&& rc is Err ==> r is Err && new == mid
            &&& rc is Ok ==> scoped_post(
                prog,
                mid,
                if truthy(rc->Ok_0) { s->IfStmt_1@ } else { s->IfStmt_2@ },
                (fuel - 1) as nat,
                new,
                r,
            )
        }
    &&& fuel > 1 && s is WhileLoop ==> while_loop(prog, old, s->WhileLoop_0, s->WhileLoop_1@, (fuel - 2) as nat,
        (fuel - 1) as nat, new, r)
    &&& fuel > 0 && s is RepeatUntilLoop ==> repeat_post(prog, old, s->RepeatUntilLoop_0@, s->RepeatUntilLoop_1,
        (fuel - 1) as nat, new, r)
    &&& fuel > 0 && s is Assignment ==> assignment_post(prog, old, s->Assignment_0@, s->Assignment_1@, (fuel - 1) as nat,
        new, r)
    &&& fuel > 0 && s is LocalAssignment ==> local_post(prog, old, s->LocalAssignment_0@, s->LocalAssignment_1@,
        (fuel - 1) as nat, new, r)
    &&& fuel > 0 && s is NumericForLoop ==> for_bounds_post(prog, old, s->NumericForLoop_1, s->NumericForLoop_2,
        s->NumericForLoop_3, (fuel - 1) as nat, new, r)
    &&& fuel > 1 && s is Return ==> exists|rl: Result<Vec<Value>, String>|
        #[trigger] witnessed(new, rl) && list_post(prog, old, s->Return_0@, 0, (fuel - 2) as nat, Seq::empty(), new, rl)
            && (rl is Err ==> r is Err) && (rl is Ok ==> r is Ok && r->Ok_0 is Return && r->Ok_0->Return_0@ == rl->Ok_0@)
    &&& fuel > 0 && s is ExprStmt ==> exists|rm: Result<Vec<Value>, String>|
        #[trigger] witnessed(new, rm) && multi_post(prog, old, s->ExprStmt_0, (fuel - 1) as nat, new, rm)
            && (rm is Err ==> r is Err) && (rm is Ok ==> r is Ok && r->Ok_0 is Normal)
    &&& fuel > 0 && s is Chunk ==> exists|rb: Result<Flow, String>|
        #[trigger] witnessed(new, rb) && scoped_post(prog, old, s->Chunk_0@, (fuel - 1) as nat, new, rb) && {
            &&& rb is Err ==> r is Err
            &&& rb is Ok && rb->Ok_0 is Break ==> r is Err
            &&& rb is Ok && !(rb->Ok_0 is Break) ==> r == rb
        }
}

/// Calling the user function `f` with `args` and budget `fuel`: the
/// frames it captured go on the stack, then a fresh frame that binds each
/// parameter to its argument or `nil`; its body runs as a block; the call
/// gives the values of a `return`, nothing when the body ends normally, and
/// fails when the body fails or breaks; the stack is put back.
pub open spec fn call_post(
    prog: Program,
    old: Interpreter,
    f: Function,
    args: Seq<Value>,
    fuel: nat,
    new: Interpreter,
    r: Result<Vec<Value>, String>,
) -> bool 
    decreases fuel, 2int,
{
    let valid = f.id < old.closures@.len() && old.closures@[f.id as int].proto < prog.protos@.len();
    &&& fuel == 0 || !valid ==> r is Err
    &&& fuel > 1 && valid && old.has_room(2) && args.len() < 1_000_000_000 ==> {
        let proto = prog.protos@[old.closures@[f.id as int].proto as int];
        let frame = GcKey { id: old.gc.slots@.len() as u64 };
        exists|mid: Interpreter, mid2: Interpreter, rb: Result<Flow, String>|
            #[trigger] witnessed(mid, (mid2, rb)) && {
                &&& mid.stack@ == old.stack@ + old.closures@[f.id as int].closure@ + seq![frame]
                &&& mid.gc.live(frame.id)
                &&& forall|i: int| 0 <= i < proto.params@.len() && last_name(proto.params@, i, proto.params@.len() as int)
                    ==> #[trigger] mid.gc.table(frame.id).get_spec(Value::String(proto.params@[i])) == arg_or_nil(args, i)
                &&& block_post(prog, mid, proto.body@, 0, (fuel - 2) as nat, mid2, rb)
                &&& rb is Err ==> r is Err
                &&& rb is Ok && rb->Ok_0 is Break ==> r is Err
                &&& rb is Ok && rb->Ok_0 is Return ==> r is Ok && r->Ok_0@ == rb->Ok_0->Return_0@
                &&& rb is Ok && rb->Ok_0 is Normal ==> r is Ok && r->Ok_0@.len() == 0
                &&& new.gc == mid2.gc
                &&& new.output == mid2.output
                &&& new.stack@ == old.stack@
            }
    }
}

/// Calling the value `f` with `args` and budget `fuel`: a builtin does
/// what `native_outcome` says, a user function what `call_post` says, and
/// any other value cannot be called.
pub open spec fn value_call_post(
    prog: Program,
    old: Interpreter,
    f: Value,
    args: Seq<Value>,
    fuel: nat,
    new: Interpreter,
    r: Result<Vec<Value>, String>,
) -> bool 
    decreases fuel, 3int,
{
    &&& new.keeps(&old)
    &&& fuel == 0 ==> r is Err
    &&& fuel > 0 && f is NativeFunctionDef ==> native_outcome(old, new, f->NativeFunctionDef_0, args, r)
    &&& fuel > 0 && f is FunctionDef ==> call_post(prog, old, f->FunctionDef_0, args, (fuel - 1) as nat, new, r)
    &&& fuel > 0 && !(f is NativeFunctionDef) && !(f is FunctionDef) ==> r is Err && new == old
}

/// The result of calling the handler `h` with `args` and budget `fuel`:
/// the call's first value, or its failure.
pub open spec fn handler_result(
    prog: Program,
    old: Interpreter,
    h: Value,
    args: Seq<Value>,
    fuel: nat,
    new: Interpreter,
    r: Result<Value, String>,
) -> bool 
    decreases fuel, 4int,
{
    exists|rv: Result<Vec<Value>, String>|
        #[trigger] witnessed(new, rv) && value_call_post(prog, old, h, args, fuel, new, rv) && {
            &&& rv is Err ==> r is Err
            &&& rv is Ok ==> r == Ok::<Value, String>(first_or_nil(rv->Ok_0@))
        }
}

/// Reading `t[k]` with budget `fuel`: a table's own entry when it is not
/// `nil`; otherwise the `__index` handler decides: none gives `nil`, a
/// table is read in turn, and anything else is called with `t` and `k`.
/// Reading from a value that is not a table fails.
pub open spec fn index_post(prog: Program, old: Interpreter, t: Value, k: Value, fuel: nat, new: Interpreter, r: Result<Value, String>) -> bool
    decreases fuel, 5int,
{
    let h = t->Table_0.id;
    let hv = meta_handler(old.gc, t, "__index"@);
    &&& new.keeps(&old)
    &&& fuel == 0 ==> r is Err
    &&& fuel > 0 && !(t is Table) ==> r is Err && new == old
    &&& fuel > 0 && t is Table && old.gc.live(h) && !(old.gc.table(h).get_spec(k) is Nil)
        ==> r == Ok::<Value, String>(old.gc.table(h).get_spec(k)) && new == old
    &&& fuel > 0 && t is Table && old.gc.live(h) && old.gc.table(h).get_spec(k) is Nil ==> {
        &&& hv is None ==> r == Ok::<Value, String>(Value::Nil) && new == old
        &&& hv is Some && hv.unwrap() is Table ==> index_post(prog, old, hv.unwrap(), k, (fuel - 1) as nat, new, r)
        &&& hv is Some && !(hv.unwrap() is Table) ==> handler_result(prog, old, hv.unwrap(), seq![t, k], (fuel - 1) as nat,
            new, r)
    }
}

/// Reading the field `t[k]` (table and key given as expressions) with
/// budget `fuel`: the table expression, then the key expression, are
/// evaluated, and the read follows `index_post`.
pub open spec fn field_read_post(
    prog: Program,
    old: Interpreter,
    t: Expr,
    k: Expr,
    fuel: nat,
    new: Interpreter,
    r: Result<Value, String>,
) -> bool 
    decreases fuel + 1, 0int,
{
    exists|m1: Interpreter, rt: Result<Value, String>|
        #[trigger] witnessed(m1, rt) && expr_post(prog, old, t, fuel, m1, rt) && {
            &&& rt is Err ==> r is Err && new == m1
            &&& rt is Ok ==> exists|m2: Interpreter, rk: Result<Value, String>|
                #[trigger] witnessed(m2, rk) && expr_post(prog, m1, k, fuel, m2, rk) && {
                    &&& rk is Err ==> r is Err && new == m2
                    &&& rk is Ok ==> index_post(prog, m2, rt->Ok_0, rk->Ok_0, fuel, new, r)
                }
        }
}

/// All the values of `e` with budget `fuel`: a call evaluates its callee,
/// then its arguments as a list, then calls; a list gives its values; `...`
/// gives the extra arguments; any other expression gives its one value.
pub open spec fn multi_post(prog: Program, old: Interpreter, e: Expr, fuel: nat, new: Interpreter, r: Result<Vec<Value>, String>) -> bool
    decreases fuel, 5int,
{
    &&& new.keeps(&old)
    &&& fuel == 0 ==> r is Err
    &&& fuel > 0 && e is FunctionCall ==> exists|m1: Interpreter, rf: Result<Value, String>|
        #[trigger] witnessed(m1, rf) && expr_post(prog, old, *e->FunctionCall_0, (fuel - 1) as nat, m1, rf) && {
            &&& rf is Err ==> r is Err && new == m1
            &&& rf is Ok && fuel >= 2 ==> exists|m2: Interpreter, ra: Result<Vec<Value>, String>|
                #[trigger] witnessed(m2, ra) && list_post(prog, m1, e->FunctionCall_1@, 0, (fuel - 2) as nat, Seq::empty(), m2, ra) && {
                    &&& ra is Err ==> r is Err && new == m2
                    &&& ra is Ok ==> value_call_post(prog, m2, rf->Ok_0, ra->Ok_0@, (fuel - 1) as nat, new, r)
                }
        }
    &&& fuel > 1 && e is Exprlist ==> list_post(prog, old, e->Exprlist_0@, 0, (fuel - 2) as nat, Seq::empty(), new, r)
    &&& fuel > 0 && !(e is FunctionCall) && !(e is Varargs) && !(e is Exprlist) ==> exists|rv: Result<Value, String>|
        #[trigger] witnessed(new, rv) && expr_post(prog, old, e, (fuel - 1) as nat, new, rv) && {
            &&& rv is Err ==> r is Err
            &&& rv is Ok ==> r is Ok && r->Ok_0@ == seq![rv->Ok_0]
        }
}

/// The values of the list `es` from position `i`, each element with budget
/// `ef`, after `acc`: every element but the last gives its value, the last
/// gives all of its values; the first failure ends the list.
pub open spec fn list_post(
    prog: Program,
    old: Interpreter,
    es: Seq<Expr>,
    i: int,
    ef: nat,
    acc: Seq<Value>,
    new: Interpreter,
    r: Result<Vec<Value>, String>,
) -> bool
    decreases ef + 1, es.len() - i,
{
    if i < 0 || i >= es.len() {
        r is Ok && r->Ok_0@ == acc && new == old
    } else if i == es.len() - 1 {
        exists|m: Interpreter, rm: Result<Vec<Value>, String>|
            #[trigger] witnessed(m, rm) && multi_post(prog, old, es[i], ef, m, rm) && {
                &&& rm is Err ==> r is Err && new == m
                &&& rm is Ok ==> r is Ok && r->Ok_0@ == acc + rm->Ok_0@ && new == m
            }
    } else {
        exists|m: Interpreter, rv: Result<Value, String>|
            #[trigger] witnessed(m, rv) && expr_post(prog, old, es[i], ef, m, rv) && {
                &&& rv is Err ==> r is Err && new == m
                &&& rv is Ok ==> list_post(prog, m, es, i + 1, ef, acc.push(rv->Ok_0), new, r)
            }
    }
}

/// `new` is `old` after the raw write `t[k] = v` on the live table `h`:
/// the key holds `v`, the other keys and the metatable are as before, and
/// no other table, nor the stack, changes.
pub open spec fn raw_write(old: Interpreter, new: Interpreter, h: u64, k: Value, v: Value) -> bool {
    &&& new.gc.live(h)
    &&& new.gc.table(h).get_spec(k) == v
    &&& forall|o: Value| !value_eq(o, k) ==> #[trigger] new.gc.table(h).get_spec(o) == old.gc.table(h).get_spec(o)
    &&& new.gc.table(h).meta == old.gc.table(h).meta
    &&& new.gc.slots@.len() == old.gc.slots@.len()
    &&& forall|i: int| 0 <= i < old.gc.slots@.len() && i != h ==> #[trigger] new.gc.slots@[i] == old.gc.slots@[i]
    &&& new.stack == old.stack
    &&& new.globals == old.globals
}

/// Writing `t[k] = v` with budget `fuel`: it fails, changing nothing, on a
/// value that is not a table or at a `nil` key; on a live table whose entry
/// is not `nil`, or that has no `__newindex` handler, it writes the entry.
pub open spec fn set_post(
    old: Interpreter,
    t: Value,
    k: Value,
    v: Value,
    fuel: nat,
    new: Interpreter,
    r: Result<(), String>,
) -> bool {
    let h = t->Table_0.id;
    &&& fuel == 0 ==> r is Err
    &&& fuel > 0 && (!(t is Table) || k is Nil) ==> r is Err && new == old
    &&& fuel > 0 && t is Table && !(k is Nil) && old.gc.live(h) && (!(old.gc.table(h).get_spec(k) is Nil)
        || meta_handler(old.gc, t, "__newindex"@) is None) ==> r is Ok && raw_write(old, new, h, k, v)
}

/// Assigning `v` to the target `target` with budget `fuel`: a name is
/// rebound where it is bound (else set as a global); a field target
/// evaluates its table, then its key, then writes as `set_post` says; any
/// other target fails.
pub open spec fn assign_post(
    prog: Program,
    old: Interpreter,
    target: Expr,
    v: Value,
    fuel: nat,
    new: Interpreter,
    r: Result<(), String>,
) -> bool 
    decreases fuel, 6int,
{
    &&& new.keeps(&old)
    &&& fuel == 0 ==> r is Err
    &&& fuel > 0 && target is Var ==> r is Ok && frame_write(
        old,
        new,
        old.binding_frame(Value::String(target->Var_0)),
        Value::String(target->Var_0),
        v,
    )
    &&& fuel > 0 && target is Accessor ==> exists|m1: Interpreter, rt: Result<Value, String>|
        #[trigger] witnessed(m1, rt) && expr_post(prog, old, *target->Accessor_0, (fuel - 1) as nat, m1, rt) && {
            &&& rt is Err ==> r is Err && new == m1
            &&& rt is Ok ==> exists|m2: Interpreter, rk: Result<Value, String>|
                #[trigger] witnessed(m2, rk) && expr_post(prog, m1, *target->Accessor_1, (fuel - 1) as nat, m2, rk) && {
                    &&& rk is Err ==> r is Err && new == m2
                    &&& rk is Ok ==> set_post(m2, rt->Ok_0, rk->Ok_0, v, (fuel - 1) as nat, new, r)
                }
        }
    &&& fuel > 0 && !(target is Var) && !(target is Accessor) ==> r is Err
}

/// The targets of an assignment from position `i` on, each with budget
/// `af`, receiving `vs`: target `i` gets value `i`, or `nil` past the end;
/// extra values are dropped; the first failure ends the assignment.
pub open spec fn targets_post(
    prog: Program,
    old: Interpreter,
    targets: Seq<Expr>,
    i: int,
    vs: Seq<Value>,
    af: nat,
    new: Interpreter,
    r: Result<Flow, String>,
) -> bool
    decreases af + 1, targets.len() - i,
{
    if i < 0 || i >= targets.len() {
        r is Ok && r->Ok_0 is Normal && new == old
    } else {
        exists|m: Interpreter, ra: Result<(), String>|
            #[trigger] witnessed(m, ra) && assign_post(prog, old, targets[i], arg_or_nil(vs, i), af, m, ra) && {
                &&& ra is Err ==> r is Err && new == m
                &&& ra is Ok ==> targets_post(prog, m, targets, i + 1, vs, af, new, r)
            }
    }
}

/// `targets = vals` with budget `fuel`: the values are evaluated as a
/// list first, then the targets receive them in order.
pub open spec fn assignment_post(
    prog: Program,
    old: Interpreter,
    targets: Seq<Expr>,
    vals: Seq<Expr>,
    fuel: nat,
    new: Interpreter,
    r: Result<Flow, String>,
) -> bool 
    decreases fuel + 1, 0int,
{
    &&& fuel == 0 ==> r is Err
    &&& fuel > 1 ==> exists|m: Interpreter, rl: Result<Vec<Value>, String>|
        #[trigger] witnessed(m, rl) && list_post(prog, old, vals, 0, (fuel - 2) as nat, Seq::empty(), m, rl) && {
            &&& rl is Err ==> r is Err && new == m
            &&& rl is Ok ==> targets_post(prog, m, targets, 0, rl->Ok_0@, (fuel - 1) as nat, new, r)
        }
}

/// `local names = vals` with budget `fuel`: the values are evaluated as a
/// list, then each name is bound in the current frame (the top of the stack,
/// else the globals) to its value or `nil`, the last of equal names
/// winning; no other table changes.
pub open spec fn local_post(
    prog: Program,
    old: Interpreter,
    names: Seq<String>,
    vals: Seq<Expr>,
    fuel: nat,
    new: Interpreter,
    r: Result<Flow, String>,
) -> bool 
    decreases fuel + 1, 0int,
{
    &&& fuel == 0 ==> r is Err
    &&& fuel > 1 ==> exists|m: Interpreter, rl: Result<Vec<Value>, String>|
        #[trigger] witnessed(m, rl) && list_post(prog, old, vals, 0, (fuel - 2) as nat, Seq::empty(), m, rl) && {
            let f = if m.stack@.len() > 0 { m.stack@.last() } else { m.globals };
            &&& rl is Err ==> r is Err && new == m
            &&& rl is Ok ==> {
                &&& r is Ok && r->Ok_0 is Normal
                &&& new.stack@ == m.stack@
                &&& new.gc.slots@.len() == m.gc.slots@.len()
                &&& forall|h: int| 0 <= h < m.gc.slots@.len() && h != f.id ==> #[trigger] new.gc.slots@[h] == m.gc.slots@[h]
                &&& m.gc.live(f.id) ==> forall|i: int| 0 <= i < names.len() && last_name(names, i, names.len() as int)
                    ==> #[trigger] new.gc.table(f.id).get_spec(Value::String(names[i])) == arg_or_nil(rl->Ok_0@, i)
            }
        }
}

/// A numeric `for` with budget `fuel` evaluates its start, limit and step
/// in order; if they are not all numbers, or the step is zero, it fails
/// there, before running its body.
pub open spec fn for_bounds_post(
    prog: Program,
    old: Interpreter,
    a: Expr,
    b: Expr,
    st: Expr,
    fuel: nat,
    new: Interpreter,
    r: Result<Flow, String>,
) -> bool 
    decreases fuel, 6int,
{
    &&& fuel == 0 ==> r is Err
    &&& fuel > 0 ==> exists|m1: Interpreter, ra: Result<Value, String>|
        #[trigger] witnessed(m1, ra) && expr_post(prog, old, a, (fuel - 1) as nat, m1, ra) && {
            &&& ra is Err ==> r is Err && new == m1
            &&& ra is Ok ==> exists|m2: Interpreter, rb: Result<Value, String>|
                #[trigger] witnessed(m2, rb) && expr_post(prog, m1, b, (fuel - 1) as nat, m2, rb) && {
                    &&& rb is Err ==> r is Err && new == m2
                    &&& rb is Ok ==> exists|m3: Interpreter, rs: Result<Value, String>|
                        #[trigger] witnessed(m3, rs) && expr_post(prog, m2, st, (fuel - 1) as nat, m3, rs) && {
                            &&& rs is Err ==> r is Err && new == m3
                            &&& rs is Ok && (!(ra->Ok_0 is Number) || !(rb->Ok_0 is Number) || !(rs->Ok_0 is Number)
                                || rs->Ok_0->Number_0.units == 0) ==> r is Err && new == m3
                        }
                }
        }
}

/// Whether every expression of `es` is a literal.
pub open spec fn all_literals(es: Seq<Expr>) -> bool {
    forall|i: int| 0 <= i < es.len() ==> #[trigger] es[i] is Literal
}

/// The values of a list of literals.
pub open spec fn literal_seq(es: Seq<Expr>) -> Seq<Value> {
    es.map_values(|e: Expr| e->Literal_0)
}

/// The tables of extra arguments in the call records `v`, in order.
pub open spec fn vararg_roots(v: Seq<Option<GcKey>>) -> Seq<GcKey>
    decreases v.len(),
{
    if v.len() == 0 {
        Seq::empty()
    } else {
        match v.last() {
            Some(k) => vararg_roots(v.drop_last()).push(k),
            None => vararg_roots(v.drop_last()),
        }
    }
}

/// Searching `stack` below position `i`, downward: the position of the
/// first live frame with an entry for `name`.
pub open spec fn binding_index(gc: GcStore, stack: Seq<GcKey>, name: Value, i: int) -> Option<int>
    decreases i,
{
    if i <= 0 {
        None
    } else if gc.live(stack[i - 1].id) && find_in(gc.table(stack[i - 1].id).entries@, name) is Some {
        Some(i - 1)
    } else {
        binding_index(gc, stack, name, i - 1)
    }
}

/// `new` is `old` after writing `v` at key `name` of the table `f`: no
/// other table changes, no table is freed or added, and the other keys of
/// `f` read as before.
pub open spec fn frame_write(old: Interpreter, new: Interpreter, f: GcKey, name: Value, v: Value) -> bool {
    &&& new.gc.slots@.len() == old.gc.slots@.len()
    &&& forall|h: u64| #[trigger] new.gc.live(h) == old.gc.live(h)
    &&& forall|h: int| 0 <= h < old.gc.slots@.len() && h != f.id ==> #[trigger] new.gc.slots@[h] == old.gc.slots@[h]
    &&& old.gc.live(f.id) ==> new.gc.table(f.id).get_spec(name) == v
    &&& old.gc.live(f.id) ==> forall|o: Value| !value_eq(o, name) ==> #[trigger] new.gc.table(f.id).get_spec(o)
        == old.gc.table(f.id).get_spec(o)
}

/// No later name of `names` has the text of the one at `i`.
pub open spec fn last_name(names: Seq<String>, i: int, upto: int) -> bool {
    forall|j: int| i < j < upto ==> #[trigger] names[j]@ != names[i]@
}

/// The value that the `i`th of `n` targets receives from literal values.
pub open spec fn nth_or_nil(vals: Seq<Expr>, i: int) -> Value {
    if 0 <= i < vals.len() {
        vals[i]->Literal_0
    } else {
        Value::Nil
    }
}

/// Assigning to the field target `t` fails in state `st`: its table and
/// key read without effects, and the key is `nil` or the table is not one.
pub open spec fn accessor_fails(st: Interpreter, t: Expr) -> bool {
    &&& t is Accessor
    &&& st.simple_value(*t->Accessor_0) is Some
    &&& st.simple_value(*t->Accessor_1) is Some
    &&& (st.simple_value(*t->Accessor_1).unwrap() is Nil || !(st.simple_value(*t->Accessor_0).unwrap() is Table))
}

/// The field target `t` names a field of a live table without a
/// metatable, at a key that is not `nil`, both read without effects:
/// gives that table and key.
pub open spec fn plain_field(st: Interpreter, t: Expr) -> Option<(u64, Value)> {
    if t is Accessor && st.simple_value(*t->Accessor_0) is Some && st.simple_value(*t->Accessor_1) is Some {
        let tv = st.simple_value(*t->Accessor_0).unwrap();
        let kv = st.simple_value(*t->Accessor_1).unwrap();
        if tv is Table && st.gc.live(tv->Table_0.id) && st.gc.table(tv->Table_0.id).meta is None && !(kv is Nil) {
            Some((tv->Table_0.id, kv))
        } else {
            None
        }
    } else {
        None
    }
}

/// An assignment with one target and literal values: a name gets the first
/// value (or `nil`) in the frame that binds it, else in the globals; a field
/// of a value that is not a table, or at a `nil` key, fails and changes
/// nothing.
pub open spec fn assignment_outcome(
    old: Interpreter,
    new: Interpreter,
    targets: Seq<Expr>,
    vals: Seq<Expr>,
    r: Result<Flow, String>,
) -> bool {
    all_literals(vals) && targets.len() == 1 ==> {
        let v = nth_or_nil(vals, 0);
        let t = targets[0];
        &&& t is Var ==> r is Ok && r->Ok_0 is Normal && frame_write(
            old,
            new,
            old.binding_frame(Value::String(t->Var_0)),
            Value::String(t->Var_0),
            v,
        )
        &&& accessor_fails(old, t) ==> r is Err && new == old
        &&& plain_field(old, t) is Some ==> r is Ok && new.gc.live(plain_field(old, t).unwrap().0)
            && new.gc.table(plain_field(old, t).unwrap().0).get_spec(plain_field(old, t).unwrap().1) == v
            && new.gc.table(plain_field(old, t).unwrap().0).meta is None
    }
}

/// A `local` declaration with literal values binds each name in the current
/// frame (the last of equal names wins), with `nil` for missing values, and
/// changes no other table.
pub open spec fn local_outcome(
    old: Interpreter,
    new: Interpreter,
    names: Seq<String>,
    vals: Seq<Expr>,
    r: Result<Flow, String>,
) -> bool {
    all_literals(vals) ==> {
        let f = if old.stack@.len() > 0 { old.stack@.last() } else { old.globals };
        &&& r is Ok && r->Ok_0 is Normal
        &&& new.gc.slots@.len() == old.gc.slots@.len()
        &&& forall|h: int| 0 <= h < old.gc.slots@.len() && h != f.id ==> #[trigger] new.gc.slots@[h] == old.gc.slots@[h]
        &&& old.gc.live(f.id) ==> forall|i: int| 0 <= i < names.len() && last_name(names, i, names.len() as int)
            ==> #[trigger] new.gc.table(f.id).get_spec(Value::String(names[i])) == nth_or_nil(vals, i)
    }
}

/// A `while` with a literal condition: a false one runs nothing; a true one
/// whose body starts with `break` ends normally, and one whose body starts
/// with `return` of literals passes those values out.
pub open spec fn while_outcome(old: Interpreter, new: Interpreter, c: Expr, body: Seq<Stmt>, r: Result<Flow, String>) -> bool {
    c is Literal ==> {
        &&& !truthy(c->Literal_0) ==> r is Ok && r->Ok_0 is Normal && new == old
        &&& truthy(c->Literal_0) && old.has_room(1) && body.len() > 0 && body[0] is Break
            ==> r is Ok && r->Ok_0 is Normal && new.output@ == old.output@
        &&& truthy(c->Literal_0) && old.has_room(1) && body.len() > 0 && body[0] is Return
            && all_literals(body[0]->Return_0@) ==> r is Ok && r->Ok_0 is Return
            && r->Ok_0->Return_0@ == literal_seq(body[0]->Return_0@) && new.output@ == old.output@
    }
}

/// Literal bounds of a numeric `for` that are not all numbers, or a zero
/// literal step.
pub open spec fn for_outcome_fails(a: Expr, b: Expr, st: Expr) -> bool {
    a is Literal && b is Literal && st is Literal && (!(a->Literal_0 is Number) || !(b->Literal_0 is Number)
        || !(st->Literal_0 is Number) || st->Literal_0->Number_0.units == 0)
}

/// A numeric `for` whose literal bounds fail (see `for_outcome_fails`)
/// fails before running its body, and changes nothing.
pub open spec fn for_outcome(old: Interpreter, new: Interpreter, a: Expr, b: Expr, st: Expr, r: Result<Flow, String>) -> bool {
    for_outcome_fails(a, b, st) ==> r is Err && new == old
}

impl Interpreter {
    /// The value of an expression that reads without effects: a literal or
    /// a name.
    pub open spec fn simple_value(&self, e: Expr) -> Option<Value> {
        match e {
            Expr::Literal(v) => Some(v),
            Expr::Var(n) => Some(self.var_value(Value::String(n))),
            _ => None,
        }
    }

    /// The frame that holds the binding of `name`: the topmost frame of the
    /// scope stack with an entry for it, else the globals.
    pub open spec fn binding_frame(&self, name: Value) -> GcKey {
        match binding_index(self.gc, self.stack@, name, self.stack@.len() as int) {
            Some(i) => self.stack@[i],
            None => self.globals,
        }
    }

    /// What the name `name` reads as.
    pub open spec fn var_value(&self, name: Value) -> Value {
        let f = self.binding_frame(name);
        if self.gc.live(f.id) {
            self.gc.table(f.id).get_spec(name)
        } else {
            Value::Nil
        }
    }

    pub open spec fn wf(&self) -> bool {
        self.gc.wf()
    }

    /// `self` is a later state of `prev` in which the scope stack, the
    /// globals and the call records are as they were, and closure records
    /// were only added.
    pub open spec fn keeps(&self, prev: &Interpreter) -> bool {
        &&& self.wf()
        &&& self.stack@ == prev.stack@
        &&& self.globals == prev.globals
        &&& self.varargs@ == prev.varargs@
        &&& self.closures@.len() >= prev.closures@.len()
        &&& forall|i: int| 0 <= i < prev.closures@.len() ==> #[trigger] self.closures@[i] == prev.closures@[i]
        &&& prev.output@.len() <= self.output@.len()
        &&& forall|i: int| 0 <= i < prev.output@.len() ==> #[trigger] self.output@[i] == prev.output@[i]
    }

    /// The heap can take `n` more tables.
    pub open spec fn has_room(&self, n: int) -> bool {
        self.gc.slots@.len() + n < usize::MAX && self.gc.slots@.len() + n < u64::MAX
    }

    /// A fresh interpreter: an empty stack, and globals that hold the
    /// builtins `print`, `assert`, `setmetatable`, `getmetatable` and
    /// `collectgarbage`.
    pub fn new() -> (r: Interpreter)
        ensures
            r.wf(),
            r.stack@.len() == 0,
            r.closures@.len() == 0,
            r.varargs@.len() == 0,
            r.output@.len() == 0,
            r.gc.live(r.globals.id),
            r.globals.id == 0,
            r.gc.slots@.len() == 1,
            r.gc.table(r.globals.id).entries@.len() == 5,
            r.gc.table(r.globals.id).meta is None,
            forall|s: String| s@ == "print"@ ==> #[trigger] r.var_value(Value::String(s))
                == Value::NativeFunctionDef(NativeFunction::Print),
            forall|s: String| s@ == "assert"@ ==> #[trigger] r.var_value(Value::String(s))
                == Value::NativeFunctionDef(NativeFunction::Assert),
            forall|s: String| s@ == "setmetatable"@ ==> #[trigger] r.var_value(Value::String(s))
                == Value::NativeFunctionDef(NativeFunction::SetMetatable),
            forall|s: String| s@ == "getmetatable"@ ==> #[trigger] r.var_value(Value::String(s))
                == Value::NativeFunctionDef(NativeFunction::GetMetatable),
            forall|s: String| s@ == "collectgarbage"@ ==> #[trigger] r.var_value(Value::String(s))
                == Value::NativeFunctionDef(NativeFunction::CollectGarbage),
    {
        let mut g = UserTable::new();
        let k1 = key("print");
        let k2 = key("assert");
        let k3 = key("setmetatable");
        let k4 = key("getmetatable");
        let k5 = key("collectgarbage");
        proof {
            reveal_strlit("print");
            reveal_strlit("assert");
            reveal_strlit("setmetatable");
            reveal_strlit("getmetatable");
            reveal_strlit("collectgarbage");
        }
        let ghost (g1, g2, g3, g4, g5) = (k1, k2, k3, k4, k5);
        proof {
            assert(g1->String_0@[0] == 'p' && g1->String_0@.len() == 5);
            assert(g2->String_0@[0] == 'a' && g2->String_0@.len() == 6);
            assert(g3->String_0@[0] == 's');
            assert(g4->String_0@[0] == 'g');
            assert(g5->String_0@[0] == 'c');
            assert(g1->String_0@ != g2->String_0@);
            assert(g1->String_0@ != g3->String_0@);
            assert(g1->String_0@ != g4->String_0@);
            assert(g1->String_0@ != g5->String_0@);
            assert(g2->String_0@ != g3->String_0@);
            assert(g2->String_0@ != g4->String_0@);
            assert(g2->String_0@ != g5->String_0@);
            assert(g3->String_0@ != g4->String_0@);
            assert(g3->String_0@ != g5->String_0@);
            assert(g4->String_0@ != g5->String_0@);
        }
        g.set(k1, Value::NativeFunctionDef(NativeFunction::Print));
        proof {
            reveal_with_fuel(find_in, 6);
            assert(g.entries@.len() == 1);
        }
        g.set(k2, Value::NativeFunctionDef(NativeFunction::Assert));
        proof {
            reveal_with_fuel(find_in, 6);
            assert(g.entries@.len() == 2);
        }
        assert(g.get_spec(g1) == Value::NativeFunctionDef(NativeFunction::Print));
        g.set(k3, Value::NativeFunctionDef(NativeFunction::SetMetatable));
        proof {
            reveal_with_fuel(find_in, 6);
            assert(g.entries@.len() == 3);
        }
        assert(g.get_spec(g1) == Value::NativeFunctionDef(NativeFunction::Print));
        assert(g.get_spec(g2) == Value::NativeFunctionDef(NativeFunction::Assert));
        g.set(k4, Value::NativeFunctionDef(NativeFunction::GetMetatable));
        proof {
            reveal_with_fuel(find_in, 6);
            assert(g.entries@.len() == 4);
        }
        assert(g.get_spec(g1) == Value::NativeFunctionDef(NativeFunction::Print));
        assert(g.get_spec(g2) == Value::NativeFunctionDef(NativeFunction::Assert));
        assert(g.get_spec(g3) == Value::NativeFunctionDef(NativeFunction::SetMetatable));
        g.set(k5, Value::NativeFunctionDef(NativeFunction::CollectGarbage));
        proof {
            reveal_with_fuel(find_in, 6);
            assert(g.entries@.len() == 5);
        }
        assert(g.get_spec(g1) == Value::NativeFunctionDef(NativeFunction::Print));
        assert(g.get_spec(g2) == Value::NativeFunctionDef(NativeFunction::Assert));
        assert(g.get_spec(g3) == Value::NativeFunctionDef(NativeFunction::SetMetatable));
        assert(g.get_spec(g4) == Value::NativeFunctionDef(NativeFunction::GetMetatable));
        let ghost gt = g;
        let mut gc = GcStore::new();
        let globals = match gc.store(g) {
            Some(k) => k,
            None => GcKey::new(0),
        };
        let r = Interpreter {
            globals,
            stack: Vec::new(),
            gc,
            closures: Vec::new(),
            varargs: Vec::new(),
            output: Vec::new(),
        };
        proof {
            assert(r.gc.table(r.globals.id) == gt);
            assert forall|s: String| s@ == "print"@ implies #[trigger] r.var_value(Value::String(s))
                == Value::NativeFunctionDef(NativeFunction::Print) by {
                crate::table::lemma_lookup_respects_eq(gt.entries@, Value::String(s), g1);
            }
            assert forall|s: String| s@ == "assert"@ implies #[trigger] r.var_value(Value::String(s))
                == Value::NativeFunctionDef(NativeFunction::Assert) by {
                crate::table::lemma_lookup_respects_eq(gt.entries@, Value::String(s), g2);
            }
            assert forall|s: String| s@ == "setmetatable"@ implies #[trigger] r.var_value(Value::String(s))
                == Value::NativeFunctionDef(NativeFunction::SetMetatable) by {
                crate::table::lemma_lookup_respects_eq(gt.entries@, Value::String(s), g3);
            }
            assert forall|s: String| s@ == "getmetatable"@ implies #[trigger] r.var_value(Value::String(s))
                == Value::NativeFunctionDef(NativeFunction::GetMetatable) by {
                crate::table::lemma_lookup_respects_eq(gt.entries@, Value::String(s), g4);
            }
            assert forall|s: String| s@ == "collectgarbage"@ implies #[trigger] r.var_value(Value::String(s))
                == Value::NativeFunctionDef(NativeFunction::CollectGarbage) by {
                crate::table::lemma_lookup_respects_eq(gt.entries@, Value::String(s), g5);
            }
        }
        r
    }

    /// The scope stack, bottom first.
    pub fn get_stack(&self) -> (r: &Vec<GcKey>)
        ensures
            r@ == self.stack@,
    {
        &self.stack
    }

    /// Takes the lines that `print` wrote.
    pub fn take_output(&mut self) -> (r: Vec<String>)
        ensures
            r@ == old(self).output@,
            final(self).output@.len() == 0,
            final(self).gc == old(self).gc,
            final(self).stack@ == old(self).stack@,
    {
        let mut out: Vec<String> = Vec::new();
        std::mem::swap(&mut out, &mut self.output);
        out
    }

    /// Allocates a table; an error when no handle is left.
    fn new_table(&mut self, t: UserTable) -> (r: Result<GcKey, String>)
        requires
            old(self).wf(),
            t.wf(),
        ensures
            final(self).keeps(old(self)),
            final(self).closures@ == old(self).closures@,
            final(self).output@ == old(self).output@,
            old(self).has_room(1) ==> r is Ok,
            r is Ok ==> final(self).gc.slots@ == old(self).gc.slots@.push(Some(t))
                && r->Ok_0.id == old(self).gc.slots@.len(),
            final(self).output == old(self).output,
            final(self).closures == old(self).closures,
            final(self).varargs == old(self).varargs,
            final(self).globals == old(self).globals,
            final(self).stack == old(self).stack,
    {
        match self.gc.store(t) {
            Some(k) => Ok(k),
            None => Err(msg("out of table handles")),
        }
    }

    /// Pushes a fresh, empty scope frame.
    fn push_env(&mut self) -> (r: Result<(), String>)
        requires
            old(self).wf(),
        ensures
            final(self).wf(),
            final(self).globals == old(self).globals,
            final(self).varargs@ == old(self).varargs@,
            final(self).closures@ == old(self).closures@,
            final(self).output@ == old(self).output@,
            r is Ok ==> final(self).stack@.len() == old(self).stack@.len() + 1
                && final(self).stack@.drop_last() == old(self).stack@,
            r is Err ==> final(self).stack@ == old(self).stack@,
            old(self).has_room(1) ==> r is Ok && final(self).gc.slots@.len() == old(self).gc.slots@.len() + 1,
            r is Ok ==> fresh_frame(*old(self), *final(self)),
    {
        let k = self.new_table(UserTable::new())?;
        self.stack.push(k);
        assert(self.stack@.drop_last() == old(self).stack@);
        Ok(())
    }

    /// Drops the top scope frame.
    fn pop_env(&mut self)
        requires
            old(self).stack@.len() > 0,
        ensures
            final(self).stack@ == old(self).stack@.drop_last(),
            final(self).gc == old(self).gc,
            final(self).globals == old(self).globals,
            final(self).varargs@ == old(self).varargs@,
            final(self).closures@ == old(self).closures@,
            final(self).output@ == old(self).output@,
            popped(*old(self), *final(self)),
    {
        self.stack.pop();
    }

    /// The frame that `local` binds in: the top of the stack, or the
    /// globals when the stack is empty.
    fn current_env(&self) -> (r: GcKey)
        ensures
            r == (if self.stack@.len() > 0 { self.stack@.last() } else { self.globals }),
    {
        if self.stack.len() > 0 {
            self.stack[self.stack.len() - 1]
        } else {
            self.globals
        }
    }

    /// The frame that holds a binding for `name`: the topmost frame of the
    /// stack that has one, else the globals.
    fn frame_of(&self, name: &Value) -> (r: GcKey)
        ensures
            r == self.binding_frame(*name),
    {
        let mut i = self.stack.len();
        while i > 0
            invariant
                i <= self.stack@.len(),
                binding_index(self.gc, self.stack@, *name, self.stack@.len() as int)
                    == binding_index(self.gc, self.stack@, *name, i as int),
            decreases i,
        {
            let f = self.stack[i - 1];
            if let Some(t) = self.gc.get_value(f) {
                if t.contains(name) {
                    return f;
                }
            }
            i = i - 1;
        }
        self.globals
    }

    /// Looks a name up through the scope stack, then the globals.
    fn find_var(&self, name: &String) -> (r: Value)
        ensures
            r == self.var_value(Value::String(*name)),
    {
        let k = Value::String(name.clone());
        let f = self.frame_of(&k);
        match self.gc.get_value(f) {
            Some(t) => t.get(&k),
            None => Value::Nil,
        }
    }

    /// `name = v`: rebinds the topmost binding of `name`, or sets a global.
    fn set_var(&mut self, name: &String, v: Value)
        requires
            old(self).wf(),
        ensures
            final(self).keeps(old(self)),
            final(self).output@ == old(self).output@,
            frame_write(*old(self), *final(self), old(self).binding_frame(Value::String(*name)), Value::String(*name), v),
    {
        let k = Value::String(name.clone());
        let f = self.frame_of(&k);
        self.gc.modify_value(f, k, v);
    }

    /// `local name = v`: binds in the current frame.
    fn set_local(&mut self, name: &String, v: Value)
        requires
            old(self).wf(),
        ensures
            final(self).keeps(old(self)),
            final(self).output@ == old(self).output@,
            frame_write(
                *old(self),
                *final(self),
                if old(self).stack@.len() > 0 { old(self).stack@.last() } else { old(self).globals },
                Value::String(*name),
                v,
            ),
    {
        let f = self.current_env();
        self.gc.modify_value(f, Value::String(name.clone()), v);
    }

    /// The metamethod `event` of `v`, if `v` is a table with a metatable
    /// that defines it.
    fn metamethod(&self, v: &Value, event: &str) -> (r: Option<Value>)
        ensures
            r == meta_handler(self.gc, *v, event@),
    {
        if let Value::Table(k) = v {
            if let Some(t) = self.gc.get_value(*k) {
                if let Some(m) = t.meta {
                    if let Some(mt) = self.gc.get_value(m) {
                        let ek = key(event);
                        proof {
                            crate::table::lemma_text_lookup(mt.entries@, ek);
                        }
                        let h = mt.get(&ek);
                        if !h.is_nil() {
                            return Some(h);
                        }
                    }
                }
            }
        }
        None
    }

    /// A new closure record for the literal `proto`, capturing the current
    /// scope stack.  Its identity is new: no function value made before it
    /// has it.
    fn make_closure(&mut self, proto: usize) -> (r: Function)
        requires
            old(self).wf(),
        ensures
            final(self).keeps(old(self)),
            final(self).output@ == old(self).output@,
            r.id == old(self).closures@.len(),
            final(self).closures@.len() == old(self).closures@.len() + 1,
            final(self).closures@.last().closure@ == old(self).stack@,
            final(self).closures@.last().proto == proto,
    {
        let mut frames: Vec<GcKey> = Vec::new();
        let mut i: usize = 0;
        while i < self.stack.len()
            invariant
                i <= self.stack@.len(),
                frames@ == self.stack@.take(i as int),
            decreases self.stack@.len() - i,
        {
            frames.push(self.stack[i]);
            i = i + 1;
        }
        assert(self.stack@.take(self.stack@.len() as int) == self.stack@);
        let id = self.closures.len();
        self.closures.push(FunctionImpl::new(proto, frames));
        Function::new(id)
    }

    /// The handles that the collector starts from: the globals, the scope
    /// stack, and the tables of extra arguments of the active calls.
    pub open spec fn roots(&self) -> Seq<GcKey> {
        seq![self.globals] + self.stack@ + vararg_roots(self.varargs@)
    }

    fn root_vec(&self) -> (r: Vec<GcKey>)
        ensures
            r@ == self.roots(),
    {
        let mut r: Vec<GcKey> = Vec::new();
        r.push(self.globals);
        let mut i: usize = 0;
        while i < self.stack.len()
            invariant
                i <= self.stack@.len(),
                r@ == seq![self.globals] + self.stack@.take(i as int),
            decreases self.stack@.len() - i,
        {
            r.push(self.stack[i]);
            proof {
                assert(self.stack@.take(i + 1) == self.stack@.take(i as int).push(self.stack@[i as int]));
            }
            i = i + 1;
        }
        assert(self.stack@.take(self.stack@.len() as int) == self.stack@);
        let mut j: usize = 0;
        while j < self.varargs.len()
            invariant
                j <= self.varargs@.len(),
                r@ == seq![self.globals] + self.stack@ + vararg_roots(self.varargs@.take(j as int)),
            decreases self.varargs@.len() - j,
        {
            proof {
                assert(self.varargs@.take(j + 1).drop_last() == self.varargs@.take(j as int));
            }
            if let Some(h) = self.varargs[j] {
                r.push(h);
            }
            j = j + 1;
        }
        assert(self.varargs@.take(self.varargs@.len() as int) == self.varargs@);
        r
    }

    /// Runs a host function.
    fn call_native(&mut self, n: NativeFunction, args: Vec<Value>) -> (r: Result<Vec<Value>, String>)
        requires
            old(self).wf(),
        ensures
            final(self).keeps(old(self)),
            native_outcome(*old(self), *final(self), n, args@, r),
    {
        match n {
            NativeFunction::Print => {
                let line = print_line(&args);
                self.output.push(line);
                assert(self.output@.drop_last() == old(self).output@);
                let mut out: Vec<Value> = Vec::new();
                out.push(Value::Nil);
                Ok(out)
            },
            NativeFunction::Assert => {
                if args.len() > 0 && args[0].is_truthy() {
                    Ok(args)
                } else if args.len() > 1 {
                    Err(args[1].display())
                } else {
                    Err(msg("Assertion failed!"))
                }
            },
            NativeFunction::SetMetatable => {
                if args.len() < 2 {
                    return Err(msg("setmetatable needs a table and a metatable"));
                }
                match (&args[0], &args[1]) {
                    (Value::Table(t), Value::Table(m)) => {
                        if self.gc.set_meta(*t, Some(*m)) {
                            let mut out: Vec<Value> = Vec::new();
                            out.push(Value::Table(*t));
                            Ok(out)
                        } else {
                            Err(msg("setmetatable on a collected table"))
                        }
                    },
                    _ => Err(msg("setmetatable needs a table and a metatable")),
                }
            },
            NativeFunction::GetMetatable => {
                let mut out: Vec<Value> = Vec::new();
                if args.len() > 0 {
                    if let Value::Table(t) = &args[0] {
                        if let Some(tb) = self.gc.get_value(*t) {
                            if let Some(m) = tb.meta {
                                out.push(Value::Table(m));
                                return Ok(out);
                            }
                        }
                    }
                }
                out.push(Value::Nil);
                Ok(out)
            },
            NativeFunction::CollectGarbage => {
                let roots = self.root_vec();
                self.gc.collect_garbage(&roots, &self.closures);
                let mut out: Vec<Value> = Vec::new();
                out.push(Value::Nil);
                Ok(out)
            },
        }
    }

    /// Calls a function value.
    pub fn call_value(&mut self, prog: &Program, f: Value, args: Vec<Value>, fuel: u64) -> (r: Result<Vec<Value>, String>)
        requires
            old(self).wf(),
        ensures
            final(self).keeps(old(self)),
            value_call_post(*prog, *old(self), f, args@, fuel as nat, *final(self), r),
            fuel > 0 && f is NativeFunctionDef ==> native_outcome(*old(self), *final(self), f->NativeFunctionDef_0, args@, r),
            fuel > 7 && f is FunctionDef ==> call_outcome(*old(self), *final(self), *prog, f->FunctionDef_0, args@, r),
            fuel > 0 && f is FunctionDef ==> call_post(*prog, *old(self), f->FunctionDef_0, args@, (fuel - 1) as nat, *final(self), r),
            fuel > 0 && !(f is NativeFunctionDef) && !(f is FunctionDef) ==> r is Err && *final(self) == *old(self),
        decreases fuel,
    {
        if fuel == 0 {
            return Err(msg("evaluation step limit reached"));
        }
        match f {
            Value::FunctionDef(fd) => self.call_function(prog, fd, args, fuel - 1),
            Value::NativeFunctionDef(n) => self.call_native(n, args),
            _ => Err(kind_error("attempt to call a ", &f)),
        }
    }

    /// Calls a user function: its captured frames go on the stack, then a
    /// fresh frame with the parameters bound; the body runs; the stack is
    /// put back as it was, whatever happened.
    fn call_function(&mut self, prog: &Program, f: Function, args: Vec<Value>, fuel: u64) -> (r: Result<Vec<Value>, String>)
        requires
            old(self).wf(),
        ensures
            final(self).keeps(old(self)),
            fuel > 6 ==> call_outcome(*old(self), *final(self), *prog, f, args@, r),
            call_post(*prog, *old(self), f, args@, fuel as nat, *final(self), r),
        decreases fuel,
    {
        if fuel == 0 {
            return Err(msg("evaluation step limit reached"));
        }
        if f.id >= self.closures.len() {
            return Err(msg("call of an unknown function"));
        }
        let proto_idx = self.closures[f.id].proto;
        if proto_idx >= prog.protos.len() {
            return Err(msg("call of an unknown function"));
        }
        let proto = &prog.protos[proto_idx];
        let mut frame = UserTable::new();
        let mut i: usize = 0;
        while i < proto.params.len()
            invariant
                frame.wf(),
                i <= proto.params@.len(),
                forall|q: int| 0 <= q < i && last_name(proto.params@, q, i as int)
                    ==> #[trigger] frame.get_spec(Value::String(proto.params@[q])) == arg_or_nil(args@, q),
            decreases proto.params@.len() - i,
        {
            let v = if i < args.len() {
                args[i].copy()
            } else {
                Value::Nil
            };
            let ghost before = frame;
            frame.set(Value::String(proto.params[i].clone()), v);
            proof {
                assert forall|q: int| 0 <= q < i + 1 && last_name(proto.params@, q, i + 1)
                    implies #[trigger] frame.get_spec(Value::String(proto.params@[q])) == arg_or_nil(args@, q) by {
                    if q < i {
                        assert(proto.params@[i as int]@ != proto.params@[q]@);
                        assert(last_name(proto.params@, q, i as int));
                        assert(!value_eq(Value::String(proto.params@[q]), Value::String(proto.params@[i as int])));
                        assert(before.get_spec(Value::String(proto.params@[q])) == arg_or_nil(args@, q));
                    }
                }
            }
            i = i + 1;
        }
        let ghost frame_model = frame;
        let ghost s_before = *self;
        let fk = self.new_table(frame)?;
        let ghost s_mid = *self;
        let extra = if proto.is_vararg {
            let mut rest = UserTable::new();
            let mut j = proto.params.len();
            let mut k: i64 = 1;
            while j < args.len()
                invariant
                    j <= args@.len() || j == proto.params@.len(),
                    j >= proto.params@.len(),
                    k as int == j - proto.params@.len() + 1,
                    rest.wf(),
                    self.keeps(old(self)),
                    *self == s_mid,
                    args@.len() < 1_000_000_000 ==> k < 1_000_000_001,
                decreases args@.len() - j,
            {
                let key = match Num::from_int(k) {
                    Some(x) => x,
                    None => return Err(msg("too many arguments")),
                };
                rest.set(Value::Number(key), args[j].copy());
                if k == i64::MAX {
                    return Err(msg("too many arguments"));
                }
                k = k + 1;
                j = j + 1;
            }
            Some(self.new_table(rest)?)
        } else {
            None
        };
        let ghost s0 = *self;
        let base = self.stack.len();
        let vbase = self.varargs.len();
        let n = self.closures[f.id].closure.len();
        let mut j: usize = 0;
        while j < n
            invariant
                j <= n,
                f.id < self.closures@.len(),
                n == self.closures@[f.id as int].closure@.len(),
                self.wf(),
                self.gc == s0.gc,
                self.closures@ == s0.closures@,
                self.globals == s0.globals,
                self.varargs@ == s0.varargs@,
                self.output@ == s0.output@,
                base == s0.stack@.len(),
                self.stack@.len() == base + j,
                self.stack@.take(base as int) == s0.stack@,
                self.stack@ == s0.stack@ + self.closures@[f.id as int].closure@.take(j as int),
            decreases n - j,
        {
            let fr = self.closures[f.id].closure[j];
            self.stack.push(fr);
            assert(self.stack@.take(base as int) == s0.stack@);
            assert(self.closures@[f.id as int].closure@.take(j + 1) == self.closures@[f.id as int].closure@.take(j as int).push(fr));
            j = j + 1;
        }
        assert(self.closures@[f.id as int].closure@.take(n as int) == self.closures@[f.id as int].closure@);
        self.stack.push(fk);
        assert(self.stack@.take(base as int) == s0.stack@);
        self.varargs.push(extra);
        assert(self.varargs@.take(vbase as int) == s0.varargs@);
        let ghost s1 = *self;
        let res = self.eval_block(prog, &proto.body, fuel - 1);
        let ghost mid2 = *self;
        let ghost rbg = res;
        proof {
            assert(witnessed(s1, (mid2, rbg)));
            assert(s0.gc.slots@.len() >= s_before.gc.slots@.len() + 1);
            assert(s0.gc.slots@[s_before.gc.slots@.len() as int] == Some(frame_model));
            assert(fk.id == old(self).gc.slots@.len());
        }
        assert(self.stack@.take(base as int) == s0.stack@);
        self.stack.truncate(base);
        self.varargs.truncate(vbase);
        let out = match res {
            Ok(flow) => finish_call(flow),
            Err(e) => Err(e),
        };
        proof {
            let proto_s = prog.protos@[old(self).closures@[f.id as int].proto as int];
            let frame = GcKey { id: old(self).gc.slots@.len() as u64 };
            assert(s0.stack@ == old(self).stack@);
            assert(s1.stack@ == old(self).stack@ + old(self).closures@[f.id as int].closure@ + seq![frame]);
            assert(s1.gc == s0.gc);
            assert(self.gc == mid2.gc);
            assert(self.output == mid2.output);
            assert(self.stack@ == old(self).stack@);
            if fuel > 1 && old(self).has_room(2) && args@.len() < 1_000_000_000 {
                assert(s1.gc.live(frame.id));
                assert(block_post(*prog, s1, proto_s.body@, 0, (fuel - 2) as nat, mid2, rbg));
            }
        }
        out
    }

    /// `t[k]`: the raw entry if it is not `nil`, else what the `__index`
    /// metamethod gives, if any.
    pub fn index(&mut self, prog: &Program, t: Value, k: Value, fuel: u64) -> (r: Result<Value, String>)
        requires
            old(self).wf(),
        ensures
            final(self).keeps(old(self)),
            fuel > 0 && t is Table ==> ({
                let h = t->Table_0.id;
                old(self).gc.live(h) && (old(self).gc.table(h).meta is None
                    || !(old(self).gc.table(h).get_spec(k) is Nil))
                    ==> r == Ok::<Value, String>(old(self).gc.table(h).get_spec(k))
            }),
            fuel > 0 && !(t is Table) ==> r is Err && *final(self) == *old(self),
            index_post(*prog, *old(self), t, k, fuel as nat, *final(self), r),
            fuel > 0 && t is Table && old(self).gc.live(t->Table_0.id) && old(self).gc.table(t->Table_0.id).get_spec(k) is Nil
                && meta_handler(old(self).gc, t, "__index"@) is None ==> r == Ok::<Value, String>(Value::Nil),
            fuel > 1 && t is Table && old(self).gc.live(t->Table_0.id) && old(self).gc.table(t->Table_0.id).get_spec(k) is Nil
                ==> ({
                let hv = meta_handler(old(self).gc, t, "__index"@);
                let h2 = hv.unwrap()->Table_0.id;
                hv is Some && hv.unwrap() is Table && old(self).gc.live(h2) && (old(self).gc.table(h2).meta is None
                    || !(old(self).gc.table(h2).get_spec(k) is Nil))
                    ==> r == Ok::<Value, String>(old(self).gc.table(h2).get_spec(k))
            }),
        decreases fuel,
    {
        if fuel == 0 {
            return Err(msg("evaluation step limit reached"));
        }
        let h = match &t {
            Value::Table(h) => *h,
            _ => return Err(kind_error("attempt to index a ", &t)),
        };
        let raw = match self.gc.get_value(h) {
            Some(tb) => tb.get(&k),
            None => return Err(msg("access to a collected table")),
        };
        if !raw.is_nil() {
            return Ok(raw);
        }
        match self.metamethod(&t, "__index") {
            None => Ok(raw),
            Some(hv) => {
                if let Value::Table(_) = hv {
                    self.index(prog, hv, k, fuel - 1)
                } else {
                    let mut args: Vec<Value> = Vec::new();
                    let ghost (tg, kg) = (t, k);
                    args.push(t);
                    args.push(k);
                    assert(args@ == seq![tg, kg]);
                    let rv = self.call_value(prog, hv, args, fuel - 1);
                    proof {
                        assert(witnessed(*self, rv));
                    }
                    let out = match rv {
                        Ok(vs) => Ok(first_value(vs)),
                        Err(m) => Err(m),
                    };
                    proof {
                        assert(handler_result(*prog, *old(self), hv, seq![tg, kg], (fuel - 1) as nat, *self, out));
                    }
                    out
                }
            },
        }
    }

    /// `t[k] = v`: a raw write, unless the entry is `nil` and the
    /// metatable has `__newindex`.
    pub fn set_index(&mut self, prog: &Program, t: Value, k: Value, v: Value, fuel: u64) -> (r: Result<(), String>)
        requires
            old(self).wf(),
        ensures
            final(self).keeps(old(self)),
            fuel > 0 && (!(t is Table) || k is Nil) ==> r is Err && *final(self) == *old(self),
            set_post(*old(self), t, k, v, fuel as nat, *final(self), r),
            fuel > 0 && t is Table ==> ({
                let h = t->Table_0.id;
                old(self).gc.live(h) && old(self).gc.table(h).meta is None && !(k is Nil)
                    ==> r is Ok && final(self).gc.table(h).get_spec(k) == v && final(self).gc.live(h)
                    && final(self).gc.table(h).meta is None
                    && forall|o: Value| !value_eq(o, k) ==> #[trigger] final(self).gc.table(h).get_spec(o)
                        == old(self).gc.table(h).get_spec(o)
            }),
        decreases fuel,
    {
        if fuel == 0 {
            return Err(msg("evaluation step limit reached"));
        }
        let h = match &t {
            Value::Table(h) => *h,
            _ => return Err(kind_error("attempt to index a ", &t)),
        };
        if k.is_nil() {
            return Err(msg("table index is nil"));
        }
        let raw = match self.gc.get_value(h) {
            Some(tb) => tb.get(&k),
            None => return Err(msg("access to a collected table")),
        };
        if raw.is_nil() {
            if let Some(hv) = self.metamethod(&t, "__newindex") {
                if let Value::Table(_) = hv {
                    return self.set_index(prog, hv, k, v, fuel - 1);
                } else {
                    let mut args: Vec<Value> = Vec::new();
                    args.push(t);
                    args.push(k);
                    args.push(v);
                    let _ = self.call_value(prog, hv, args, fuel - 1)?;
                    return Ok(());
                }
            }
        }
        self.gc.modify_value(h, k, v);
        Ok(())
    }

    /// Arithmetic and concatenation: on numbers (and, for `..`, strings) the
    /// primitive; otherwise the metamethod of the left operand, then of the
    /// right one.
    fn arith(&mut self, prog: &Program, op: BinOp, a: Value, b: Value, fuel: u64) -> (r: Result<Value, String>)
        requires
            old(self).wf(),
        ensures
            final(self).keeps(old(self)),
            fuel > 0 && !(a is Number && b is Number) && !(op == BinOp::Concat && is_text(a) && is_text(b))
                && meta_handler(old(self).gc, a, arith_event(op)) is None && meta_handler(old(self).gc, b, arith_event(op)) is None
                ==> r is Err && *final(self) == *old(self),
            fuel > 0 && !(a is Number && b is Number && op != BinOp::Concat) && !(op == BinOp::Concat && is_text(a) && is_text(b))
                ==> ({
                let h = if meta_handler(old(self).gc, a, arith_event(op)) is Some {
                    meta_handler(old(self).gc, a, arith_event(op))
                } else {
                    meta_handler(old(self).gc, b, arith_event(op))
                };
                h is Some ==> handler_result(*prog, *old(self), h.unwrap(), seq![a, b], (fuel - 1) as nat, *final(self), r)
            }),
            fuel > 0 && op == BinOp::Concat && is_text(a) && is_text(b) ==> r is Ok && r->Ok_0 is String
                && r->Ok_0->String_0@ == crate::values::display_text(a) + crate::values::display_text(b),
            fuel > 0 && a is Number && b is Number && op != BinOp::Concat ==> match num_binop(op, a->Number_0, b->Number_0) {
                Some(n) => r == Ok::<Value, String>(Value::Number(n)),
                None => r is Err,
            },
        decreases fuel,
    {
        if fuel == 0 {
            return Err(msg("evaluation step limit reached"));
        }
        if let (Value::Number(x), Value::Number(y)) = (&a, &b) {
            if op != BinOp::Concat {
                return match num_binop_exec(op, *x, *y) {
                    Some(n) => Ok(Value::Number(n)),
                    None => if (op == BinOp::Div || op == BinOp::Mod) && y.units == 0 {
                        Err(msg("division by zero"))
                    } else {
                        Err(msg("number out of range"))
                    },
                };
            }
        }
        if op == BinOp::Concat {
            let a_text = matches!(a, Value::String(_)) || matches!(a, Value::Number(_));
            let b_text = matches!(b, Value::String(_)) || matches!(b, Value::Number(_));
            if a_text && b_text {
                let mut s = a.display();
                let t = b.display();
                s.append(t.as_str());
                return Ok(Value::String(s));
            }
        }
        let event = match op {
            BinOp::Add => "__add",
            BinOp::Sub => "__sub",
            BinOp::Mul => "__mul",
            BinOp::Div => "__div",
            BinOp::Mod => "__mod",
            _ => "__concat",
        };
        let h = match self.metamethod(&a, event) {
            Some(h) => Some(h),
            None => self.metamethod(&b, event),
        };
        match h {
            Some(h) => {
                let mut args: Vec<Value> = Vec::new();
                let ghost (ag, bg) = (a, b);
                args.push(a);
                args.push(b);
                assert(args@ == seq![ag, bg]);
                let rv = self.call_value(prog, h, args, fuel - 1);
                proof {
                    assert(witnessed(*self, rv));
                }
                match rv {
                    Ok(vs) => Ok(first_value(vs)),
                    Err(m) => Err(m),
                }
            },
            None => {
                let culprit = if matches!(a, Value::Number(_)) || (op == BinOp::Concat && matches!(a, Value::String(_))) {
                    &b
                } else {
                    &a
                };
                if op == BinOp::Concat {
                    Err(kind_error("attempt to concatenate a ", culprit))
                } else {
                    Err(kind_error("attempt to perform arithmetic on a ", culprit))
                }
            },
        }
    }

    /// `a == b`: equal values, or for two tables a shared `__eq`.
    fn equals(&mut self, prog: &Program, a: Value, b: Value, fuel: u64) -> (r: Result<bool, String>)
        requires
            old(self).wf(),
        ensures
            final(self).keeps(old(self)),
            fuel > 0 && !(a is Table && b is Table) ==> r == Ok::<bool, String>(value_eq(a, b)),
            fuel > 0 && value_eq(a, b) ==> r == Ok::<bool, String>(true),
            fuel > 0 && a is Table && b is Table && !value_eq(a, b) && !(meta_handler(old(self).gc, a, "__eq"@) is Some
                && meta_handler(old(self).gc, b, "__eq"@) is Some && value_eq(meta_handler(old(self).gc, a, "__eq"@).unwrap(),
                meta_handler(old(self).gc, b, "__eq"@).unwrap())) ==> r == Ok::<bool, String>(false) && *final(self) == *old(self),
        decreases fuel,
    {
        if fuel == 0 {
            return Err(msg("evaluation step limit reached"));
        }
        if a.equals(&b) {
            return Ok(true);
        }
        if let (Value::Table(_), Value::Table(_)) = (&a, &b) {
            let ha = self.metamethod(&a, "__eq");
            let hb = self.metamethod(&b, "__eq");
            if let (Some(x), Some(y)) = (ha, hb) {
                if x.equals(&y) {
                    let mut args: Vec<Value> = Vec::new();
                    args.push(a);
                    args.push(b);
                    let vs = self.call_value(prog, x, args, fuel - 1)?;
                    return Ok(first_value(vs).is_truthy());
                }
            }
        }
        Ok(false)
    }

    /// `a < b`, or `a <= b` when `or_equal`: numbers compare directly;
    /// otherwise `__lt` (`__le`, falling back to `not (b < a)`).
    fn less(&mut self, prog: &Program, a: Value, b: Value, or_equal: bool, fuel: u64) -> (r: Result<bool, String>)
        requires
            old(self).wf(),
        ensures
            final(self).keeps(old(self)),
            fuel > 0 && a is Number && b is Number ==> r == Ok::<bool, String>(if or_equal {
                a->Number_0.units <= b->Number_0.units
            } else {
                a->Number_0.units < b->Number_0.units
            }),
        decreases fuel,
    {
        if fuel == 0 {
            return Err(msg("evaluation step limit reached"));
        }
        if let (Value::Number(x), Value::Number(y)) = (&a, &b) {
            return Ok(if or_equal { x.le(*y) } else { x.lt(*y) });
        }
        let event = if or_equal { "__le" } else { "__lt" };
        let h = match self.metamethod(&a, event) {
            Some(h) => Some(h),
            None => self.metamethod(&b, event),
        };
        if let Some(h) = h {
            let mut args: Vec<Value> = Vec::new();
            args.push(a);
            args.push(b);
            let vs = self.call_value(prog, h, args, fuel - 1)?;
            return Ok(first_value(vs).is_truthy());
        }
        if or_equal {
            let h = match self.metamethod(&a, "__lt") {
                Some(h) => Some(h),
                None => self.metamethod(&b, "__lt"),
            };
            if let Some(h) = h {
                let mut args: Vec<Value> = Vec::new();
                args.push(b);
                args.push(a);
                let vs = self.call_value(prog, h, args, fuel - 1)?;
                return Ok(!first_value(vs).is_truthy());
            }
        }
        Err(kind_error("attempt to compare a ", if matches!(a, Value::Number(_)) { &b } else { &a }))
    }

    /// A binary operator on two evaluated operands.
    fn binop(&mut self, prog: &Program, op: BinOp, a: Value, b: Value, fuel: u64) -> (r: Result<Value, String>)
        requires
            old(self).wf(),
        ensures
            final(self).keeps(old(self)),
            fuel > 1 && a is Number && b is Number && op != BinOp::Concat ==> match number_op(op, a->Number_0, b->Number_0) {
                Some(v) => r == Ok::<Value, String>(v),
                None => r is Err,
            },
            fuel > 1 && !(a is Table && b is Table) && op == BinOp::Eq ==> r == Ok::<Value, String>(Value::Boolean(value_eq(a, b))),
            fuel > 1 && !(a is Table && b is Table) && op == BinOp::Ne ==> r == Ok::<Value, String>(Value::Boolean(!value_eq(a, b))),
            binop_post(*prog, *old(self), op, a, b, fuel as nat, *final(self), r),
        decreases fuel,
    {
        if fuel == 0 {
            return Err(msg("evaluation step limit reached"));
        }
        match op {
            BinOp::Eq => Ok(Value::Boolean(self.equals(prog, a, b, fuel - 1)?)),
            BinOp::Ne => Ok(Value::Boolean(!self.equals(prog, a, b, fuel - 1)?)),
            BinOp::Lt => Ok(Value::Boolean(self.less(prog, a, b, false, fuel - 1)?)),
            BinOp::Le => Ok(Value::Boolean(self.less(prog, a, b, true, fuel - 1)?)),
            BinOp::Gt => Ok(Value::Boolean(self.less(prog, b, a, false, fuel - 1)?)),
            BinOp::Ge => Ok(Value::Boolean(self.less(prog, b, a, true, fuel - 1)?)),
            _ => self.arith(prog, op, a, b, fuel - 1),
        }
    }

    /// The right operand of `and` (when `is_and`) or `or`, given the value
    /// of the left one.  When the left value decides, it is the result and
    /// nothing is evaluated: the state is left exactly as it was.
    pub fn short_circuit(&mut self, prog: &Program, is_and: bool, left: Value, right: &Expr, fuel: u64) -> (r: Result<Value, String>)
        requires
            old(self).wf(),
        ensures
            final(self).keeps(old(self)),
            (is_and != truthy(left)) ==> r == Ok::<Value, String>(left) && *final(self) == *old(self),
            (is_and == truthy(left)) && fuel > 1 && *right is Literal ==> r == Ok::<Value, String>(right->Literal_0)
                && *final(self) == *old(self),
            short_post(*prog, *old(self), is_and, Ok::<Value, String>(left), *right, fuel as nat, *final(self), r),
        decreases fuel,
    {
        if is_and != left.is_truthy() {
            return Ok(left);
        }
        if fuel == 0 {
            return Err(msg("evaluation step limit reached"));
        }
        self.eval_expr(prog, right, fuel - 1)
    }

    /// The length operator: bytes of a string, or a border of a table (the
    /// `n` before the first `nil` among `t[1]`, `t[2]`, ...).
    fn length(&mut self, prog: &Program, v: Value, fuel: u64) -> (r: Result<Value, String>)
        requires
            old(self).wf(),
        ensures
            final(self).keeps(old(self)),
            v is String && crate::text::utf8_len(v->String_0@) * SCALE <= i64::MAX ==> r == Ok::<Value, String>(
                Value::Number(Num { units: (crate::text::utf8_len(v->String_0@) * SCALE) as i64 })),
            v is Table && old(self).gc.live(v->Table_0.id) && old(self).gc.table(v->Table_0.id).entries@.len()
                < 1_000_000_000_000 ==> r is Ok,
            v is Table && old(self).gc.live(v->Table_0.id) && r is Ok ==> r->Ok_0 is Number && ({
                let t = old(self).gc.table(v->Table_0.id);
                let n = r->Ok_0->Number_0.units / SCALE;
                &&& r->Ok_0->Number_0.units % SCALE == 0
                &&& 0 <= n <= t.entries@.len()
                &&& forall|i: int| 1 <= i <= n ==> !(#[trigger] t.get_spec(Value::Number(Num { units: (i * SCALE) as i64 })) is Nil)
                &&& n < t.entries@.len() ==> t.get_spec(Value::Number(Num { units: ((n + 1) * SCALE) as i64 })) is Nil
            }),
            !(v is String) && !(v is Table) ==> r is Err,
        decreases fuel,
    {
        match &v {
            Value::String(s) => {
                let n = crate::text::byte_len(s);
                if n > 1_000_000_000_000_000 {
                    return Err(msg("number out of range"));
                }
                assert((n as i64) as int == n as int);
                assert(crate::number::fits((n as i64) * SCALE) == ((n as int) * 1_000_000 <= i64::MAX));
                match Num::from_int(n as i64) {
                    Some(x) => Ok(Value::Number(x)),
                    None => Err(msg("number out of range")),
                }
            },
            Value::Table(h) => {
                let t = match self.gc.get_value(*h) {
                    Some(t) => t,
                    None => return Err(msg("access to a collected table")),
                };
                let bound = t.entries.len();
                let mut n: usize = 0;
                let mut done = false;
                while n < bound && !done
                    invariant
                        n <= bound,
                        self.keeps(old(self)),
                        bound == t.entries@.len(),
                        *t == old(self).gc.table(h.id),
                        v == Value::Table(*h),
                        forall|i: int| 1 <= i <= n ==> !(#[trigger] t.get_spec(Value::Number(Num { units: (i * SCALE) as i64 })) is Nil),
                        n * SCALE <= i64::MAX,
                        done && n < bound ==> t.get_spec(Value::Number(Num { units: ((n + 1) * SCALE) as i64 })) is Nil,
                    decreases bound - n + if done { 0int } else { 1int },
                {
                    assert(bound < 1_000_000_000_000 ==> crate::number::fits(((n + 1) as i64) * SCALE));
                    let next = match Num::from_int((n + 1) as i64) {
                        Some(x) => x,
                        None => return Err(msg("number out of range")),
                    };
                    if t.get(&Value::Number(next)).is_nil() {
                        done = true;
                    } else {
                        n = n + 1;
                    }
                }
                assert(bound < 1_000_000_000_000 ==> crate::number::fits((n as i64) * SCALE));
                match Num::from_int(n as i64) {
                    Some(x) => Ok(Value::Number(x)),
                    None => Err(msg("number out of range")),
                }
            },
            _ => Err(kind_error("attempt to get length of a ", &v)),
        }
    }

    fn unary(&mut self, prog: &Program, op: UnOp, v: Value, fuel: u64) -> (r: Result<Value, String>)
        requires
            old(self).wf(),
        ensures
            final(self).keeps(old(self)),
            fuel > 0 && op == UnOp::Not ==> r == Ok::<Value, String>(Value::Boolean(!truthy(v))),
        decreases fuel,
    {
        if fuel == 0 {
            return Err(msg("evaluation step limit reached"));
        }
        match op {
            UnOp::Not => Ok(Value::Boolean(!v.is_truthy())),
            UnOp::Len => self.length(prog, v, fuel - 1),
            UnOp::Neg => {
                if let Value::Number(x) = &v {
                    return match x.neg() {
                        Some(n) => Ok(Value::Number(n)),
                        None => Err(msg("number out of range")),
                    };
                }
                match self.metamethod(&v, "__unm") {
                    Some(h) => {
                        let mut args: Vec<Value> = Vec::new();
                        args.push(v.copy());
                        args.push(v);
                        let vs = self.call_value(prog, h, args, fuel - 1)?;
                        Ok(first_value(vs))
                    },
                    None => Err(kind_error("attempt to perform arithmetic on a ", &v)),
                }
            },
        }
    }

    /// The extra arguments of the innermost call, if it takes `...`.
    fn current_varargs(&self) -> (r: Result<Vec<Value>, String>)
        ensures
            self.varargs@.len() == 0 || self.varargs@.last() is None ==> r is Err,
    {
        if self.varargs.len() == 0 {
            return Err(msg("cannot use '...' outside a vararg function"));
        }
        match self.varargs[self.varargs.len() - 1] {
            Some(h) => {
                let t = match self.gc.get_value(h) {
                    Some(t) => t,
                    None => return Err(msg("access to a collected table")),
                };
                let count = t.entries.len();
                let mut out: Vec<Value> = Vec::new();
                let mut i: usize = 0;
                while i < count
                    invariant
                        i <= count,
                    decreases count - i,
                {
                    if i >= i64::MAX as usize {
                        return Err(msg("too many arguments"));
                    }
                    let key = match Num::from_int((i + 1) as i64) {
                        Some(x) => x,
                        None => return Err(msg("too many arguments")),
                    };
                    out.push(t.get(&Value::Number(key)));
                    i = i + 1;
                }
                Ok(out)
            },
            None => Err(msg("cannot use '...' outside a vararg function")),
        }
    }

    /// All the values of an expression: every result of a call, every
    /// extra argument for `...`, one value otherwise.
    pub fn eval_multi(&mut self, prog: &Program, e: &Expr, fuel: u64) -> (r: Result<Vec<Value>, String>)
        requires
            old(self).wf(),
        ensures
            final(self).keeps(old(self)),
            fuel > 1 && *e is Literal ==> r is Ok && r->Ok_0@ == seq![e->Literal_0] && *final(self) == *old(self),
            fuel > 3 && simple_call(*old(self), *e) is Some && simple_call(*old(self), *e).unwrap().0 is NativeFunctionDef
                ==> native_outcome(*old(self), *final(self), simple_call(*old(self), *e).unwrap().0->NativeFunctionDef_0,
                simple_call(*old(self), *e).unwrap().1, r),
            fuel > 8 && simple_call(*old(self), *e) is Some && simple_call(*old(self), *e).unwrap().0 is FunctionDef
                ==> call_outcome(*old(self), *final(self), *prog, simple_call(*old(self), *e).unwrap().0->FunctionDef_0,
                simple_call(*old(self), *e).unwrap().1, r),
            fuel > 0 && *e is Varargs && (old(self).varargs@.len() == 0 || old(self).varargs@.last() is None) ==> r is Err,
            multi_post(*prog, *old(self), *e, fuel as nat, *final(self), r),
        decreases fuel,
    {
        if fuel == 0 {
            return Err(msg("evaluation step limit reached"));
        }
        match e {
            Expr::FunctionCall(f, args) => {
                let rf = self.eval_expr(prog, &**f, fuel - 1);
                let ghost m1 = *self;
                let ghost rfg = rf;
                proof {
                    assert(witnessed(m1, rfg));
                }
                let fv = match rf {
                    Ok(v) => v,
                    Err(m) => return Err(m),
                };
                let ra = self.eval_list(prog, args, fuel - 1);
                let ghost m2 = *self;
                let ghost rag = ra;
                proof {
                    assert(witnessed(m2, rag));
                }
                let argv = match ra {
                    Ok(v) => v,
                    Err(m) => return Err(m),
                };
                self.call_value(prog, fv, argv, fuel - 1)
            },
            Expr::Varargs => self.current_varargs(),
            Expr::Exprlist(es) => self.eval_list(prog, es, fuel - 1),
            _ => {
                let rv = self.eval_expr(prog, e, fuel - 1);
                proof {
                    assert(witnessed(*self, rv));
                }
                let v = match rv {
                    Ok(v) => v,
                    Err(m) => return Err(m),
                };
                let mut out: Vec<Value> = Vec::new();
                out.push(v);
                Ok(out)
            },
        }
    }

    /// The values of a list of expressions, left to right: each gives its
    /// first value, but the last gives all of its values.
    pub fn eval_list(&mut self, prog: &Program, es: &Vec<Expr>, fuel: u64) -> (r: Result<Vec<Value>, String>)
        requires
            old(self).wf(),
        ensures
            final(self).keeps(old(self)),
            fuel == 0 ==> r is Err,
            fuel > 0 ==> list_post(*prog, *old(self), es@, 0, (fuel - 1) as nat, Seq::empty(), *final(self), r),
            fuel > 0 && es@.len() == 0 ==> r is Ok && r->Ok_0@.len() == 0 && *final(self) == *old(self),
            fuel > 2 && all_literals(es@) ==> r is Ok && r->Ok_0@ == literal_seq(es@) && *final(self) == *old(self),
        decreases fuel,
    {
        if fuel == 0 {
            return Err(msg("evaluation step limit reached"));
        }
        let mut out: Vec<Value> = Vec::new();
        let mut i: usize = 0;
        while i < es.len()
            invariant
                fuel > 0,
                i <= es@.len(),
                self.keeps(old(self)),
                fuel > 2 && all_literals(es@) ==> out@ == literal_seq(es@.take(i as int)) && *self == *old(self),
                i == 0 ==> out@.len() == 0 && *self == *old(self),
                forall|n: Interpreter, q: Result<Vec<Value>, String>|
                    #[trigger] list_post(*prog, *self, es@, i as int, (fuel - 1) as nat, out@, n, q)
                    ==> list_post(*prog, *old(self), es@, 0, (fuel - 1) as nat, Seq::empty(), n, q),
            decreases es@.len() - i,
        {
            let ghost cur = *self;
            let ghost acc = out@;
            if i + 1 == es.len() {
                let rm = self.eval_multi(prog, &es[i], fuel - 1);
                proof {
                    assert(witnessed(*self, rm));
                    if fuel > 2 && all_literals(es@) {
                        assert(es@[i as int] is Literal);
                    }
                }
                let mut vs = match rm {
                    Ok(v) => v,
                    Err(m) => {
                        proof {
                            assert(list_post(*prog, cur, es@, i as int, (fuel - 1) as nat, acc, *self, Err::<Vec<Value>, String>(m)));
                        }
                        return Err(m);
                    },
                };
                let ghost vsg = vs@;
                out.append(&mut vs);
                proof {
                    assert(list_post(*prog, cur, es@, i as int, (fuel - 1) as nat, acc, *self, Ok::<Vec<Value>, String>(out)));
                    assert(out@ == acc + vsg);
                    assert(list_post(*prog, *self, es@, i + 1, (fuel - 1) as nat, out@, *self, Ok::<Vec<Value>, String>(out)));
                    assert forall|n: Interpreter, q: Result<Vec<Value>, String>|
                        #[trigger] list_post(*prog, *self, es@, i + 1, (fuel - 1) as nat, out@, n, q)
                        implies list_post(*prog, *old(self), es@, 0, (fuel - 1) as nat, Seq::empty(), n, q) by {
                        assert(n == *self && q is Ok && q->Ok_0@ == out@);
                        assert(list_post(*prog, cur, es@, i as int, (fuel - 1) as nat, acc, n, q));
                    }
                }
            } else {
                let rv = self.eval_expr(prog, &es[i], fuel - 1);
                let ghost mid = *self;
                let ghost rvg = rv;
                proof {
                    assert(witnessed(mid, rvg));
                    if fuel > 2 && all_literals(es@) {
                        assert(es@[i as int] is Literal);
                    }
                }
                let v = match rv {
                    Ok(v) => v,
                    Err(m) => {
                        proof {
                            assert(list_post(*prog, cur, es@, i as int, (fuel - 1) as nat, acc, *self, Err::<Vec<Value>, String>(m)));
                        }
                        return Err(m);
                    },
                };
                out.push(v);
                proof {
                    assert forall|n: Interpreter, q: Result<Vec<Value>, String>|
                        #[trigger] list_post(*prog, *self, es@, i + 1, (fuel - 1) as nat, out@, n, q)
                        implies list_post(*prog, *old(self), es@, 0, (fuel - 1) as nat, Seq::empty(), n, q) by {
                        assert(witnessed(mid, rvg));
                        assert(list_post(*prog, cur, es@, i as int, (fuel - 1) as nat, acc, n, q));
                    }
                }
            }
            proof {
                if fuel > 2 && all_literals(es@) {
                    assert(literal_seq(es@.take(i + 1)) =~= literal_seq(es@.take(i as int)).push(es@[i as int]->Literal_0));
                }
            }
            i = i + 1;
        }
        proof {
            assert(es@.take(es@.len() as int) == es@);
            assert(list_post(*prog, *self, es@, i as int, (fuel - 1) as nat, out@, *self, Ok::<Vec<Value>, String>(out)));
        }
        Ok(out)
    }

    /// The value of an expression; a list gives its first value, or `nil`.
    pub fn eval_expr(&mut self, prog: &Program, e: &Expr, fuel: u64) -> (r: Result<Value, String>)
        requires
            old(self).wf(),
        ensures
            final(self).keeps(old(self)),
            fuel > 0 && old(self).simple_value(*e) is Some ==> r == Ok::<Value, String>(old(self).simple_value(*e).unwrap())
                && *final(self) == *old(self),
            expr_post(*prog, *old(self), *e, fuel as nat, *final(self), r),
            fuel > 0 && e is Accessor ==> field_read_post(*prog, *old(self), *e->Accessor_0, *e->Accessor_1, (fuel - 1) as nat,
                *final(self), r),
            fuel > 2 && e is Binary && (e->Binary_1 == BinOp::And || e->Binary_1 == BinOp::Or)
                && *e->Binary_0 is Literal && *e->Binary_2 is Literal ==> r == Ok::<Value, String>(
                if (e->Binary_1 == BinOp::And) != truthy((*e->Binary_0)->Literal_0) {
                    (*e->Binary_0)->Literal_0
                } else {
                    (*e->Binary_2)->Literal_0
                }),
            fuel > 0 && e is Varargs && (old(self).varargs@.len() == 0 || old(self).varargs@.last() is None) ==> r is Err,
            fuel > 3 && e is Binary ==> ({
                let (op, l, rt) = (e->Binary_1, old(self).simple_value(*e->Binary_0), old(self).simple_value(*e->Binary_2));
                op != BinOp::And && op != BinOp::Or && op != BinOp::Concat && l is Some && rt is Some
                    && l.unwrap() is Number && rt.unwrap() is Number ==> match number_op(
                    op,
                    l.unwrap()->Number_0,
                    rt.unwrap()->Number_0,
                ) {
                    Some(v) => r == Ok::<Value, String>(v),
                    None => r is Err,
                }
            }),
            fuel > 2 && plain_field(*old(self), *e) is Some ==> r == Ok::<Value, String>(
                old(self).gc.table(plain_field(*old(self), *e).unwrap().0).get_spec(plain_field(*old(self), *e).unwrap().1)),
            fuel > 0 && e is Function ==> (r is Ok && r->Ok_0 is FunctionDef
                && r->Ok_0->FunctionDef_0.id == old(self).closures@.len()
                && final(self).closures@.len() == old(self).closures@.len() + 1),
        decreases fuel,
    {
        if fuel == 0 {
            return Err(msg("evaluation step limit reached"));
        }
        match e {
            Expr::Binary(a, op, b) => {
                let rl = self.eval_expr(prog, &**a, fuel - 1);
                let ghost mid = *self;
                let ghost rlg = rl;
                proof {
                    assert(witnessed(mid, rlg));
                    assert(*e->Binary_0 == **a);
                    assert(*e->Binary_2 == **b);
                    assert(e->Binary_1 == *op);
                }
                let va = match rl {
                    Ok(v) => v,
                    Err(m) => {
                        proof {
                            assert(short_post(*prog, mid, e->Binary_1 == BinOp::And, rlg, *e->Binary_2, (fuel - 1) as nat,
                                *self, Err::<Value, String>(m)));
                        }
                        return Err(m);
                    },
                };
                if *op == BinOp::And || *op == BinOp::Or {
                    let r = self.short_circuit(prog, *op == BinOp::And, va, &**b, fuel - 1);
                    proof {
                        assert(witnessed(mid, rlg));
                        assert(short_post(*prog, mid, *op == BinOp::And, rlg, **b, (fuel - 1) as nat, *self, r));
                        assert(expr_post(*prog, *old(self), **a, (fuel - 1) as nat, mid, rlg));
                    }
                    return r;
                }
                if *op == BinOp::And {
                    self.short_circuit(prog, true, va, &**b, fuel - 1)
                } else if *op == BinOp::Or {
                    self.short_circuit(prog, false, va, &**b, fuel - 1)
                } else {
                    let rb = self.eval_expr(prog, &**b, fuel - 1);
                    let ghost m2 = *self;
                    let ghost rbg = rb;
                    proof {
                        assert(witnessed(m2, rbg));
                    }
                    let vb = match rb {
                        Ok(x) => x,
                        Err(m) => return Err(m),
                    };
                    let out = self.binop(prog, *op, va, vb, fuel - 1);
                    proof {
                        assert(witnessed(mid, rlg));
                    }
                    out
                }
            },
            Expr::Unary(a, op) => {
                let v = self.eval_expr(prog, &**a, fuel - 1)?;
                self.unary(prog, *op, v, fuel - 1)
            },
            Expr::Literal(v) => Ok(v.copy()),
            Expr::Grouping(inner) => {
                let rm = self.eval_multi(prog, &**inner, fuel - 1);
                proof {
                    assert(witnessed(*self, rm));
                    assert(*e->Grouping_0 == **inner);
                }
                let vs = match rm {
                    Ok(v) => v,
                    Err(m) => return Err(m),
                };
                Ok(first_value(vs))
            },
            Expr::Var(n) => Ok(self.find_var(n)),
            Expr::Exprlist(_) | Expr::FunctionCall(_, _) => {
                let rm = self.eval_multi(prog, e, fuel - 1);
                proof {
                    assert(witnessed(*self, rm));
                }
                let vs = match rm {
                    Ok(v) => v,
                    Err(m) => return Err(m),
                };
                Ok(first_value(vs))
            },
            Expr::Varargs => {
                let vs = self.current_varargs()?;
                Ok(first_value(vs))
            },
            Expr::Accessor(t, k) => {
                let rt = self.eval_expr(prog, &**t, fuel - 1);
                let ghost m1 = *self;
                let ghost rtg = rt;
                proof {
                    assert(witnessed(m1, rtg));
                }
                let tv = match rt {
                    Ok(v) => v,
                    Err(m) => {
                        proof {
                            assert(field_read_post(*prog, *old(self), **t, **k, (fuel - 1) as nat, *self, Err::<Value, String>(m)));
                        }
                        return Err(m);
                    },
                };
                let rk = self.eval_expr(prog, &**k, fuel - 1);
                let ghost m2 = *self;
                let ghost rkg = rk;
                proof {
                    assert(witnessed(m2, rkg));
                }
                let kv = match rk {
                    Ok(v) => v,
                    Err(m) => {
                        proof {
                            assert(witnessed(m1, rtg));
                            assert(field_read_post(*prog, *old(self), **t, **k, (fuel - 1) as nat, *self, Err::<Value, String>(m)));
                        }
                        return Err(m);
                    },
                };
                let out = self.index(prog, tv, kv, fuel - 1);
                proof {
                    assert(witnessed(m1, rtg));
                    assert(witnessed(m2, rkg));
                    assert(field_read_post(*prog, *old(self), **t, **k, (fuel - 1) as nat, *self, out));
                }
                out
            },
            Expr::FieldList(fields) => {
                let mut t = UserTable::new();
                let mut i: usize = 0;
                while i < fields.len()
                    invariant
                        fuel > 0,
                        e is FieldList,
                        i <= fields@.len(),
                        t.wf(),
                        self.keeps(old(self)),
                    decreases fields@.len() - i,
                {
                    let kv = self.eval_expr(prog, &fields[i].0, fuel - 1)?;
                    let vv = self.eval_expr(prog, &fields[i].1, fuel - 1)?;
                    if kv.is_nil() {
                        return Err(msg("table index is nil"));
                    }
                    t.set(kv, vv);
                    i = i + 1;
                }
                let k = self.new_table(t)?;
                Ok(Value::Table(k))
            },
            Expr::Function(idx) => {
                let f = self.make_closure(*idx);
                Ok(Value::FunctionDef(f))
            },
        }
    }

    /// Assigns `v` to a name or to a table field.
    fn assign(&mut self, prog: &Program, target: &Expr, v: Value, fuel: u64) -> (r: Result<(), String>)
        requires
            old(self).wf(),
        ensures
            final(self).keeps(old(self)),
            assign_post(*prog, *old(self), *target, v, fuel as nat, *final(self), r),
            fuel > 0 && *target is Var ==> r is Ok && frame_write(
                *old(self),
                *final(self),
                old(self).binding_frame(Value::String(target->Var_0)),
                Value::String(target->Var_0),
                v,
            ),
            fuel > 2 && accessor_fails(*old(self), *target) ==> r is Err && *final(self) == *old(self),
            fuel > 2 && plain_field(*old(self), *target) is Some ==> r is Ok
                && final(self).gc.live(plain_field(*old(self), *target).unwrap().0)
                && final(self).gc.table(plain_field(*old(self), *target).unwrap().0).get_spec(
                plain_field(*old(self), *target).unwrap().1) == v
                && final(self).gc.table(plain_field(*old(self), *target).unwrap().0).meta is None,
        decreases fuel,
    {
        if fuel == 0 {
            return Err(msg("evaluation step limit reached"));
        }
        match target {
            Expr::Var(n) => {
                self.set_var(n, v);
                Ok(())
            },
            Expr::Accessor(t, k) => {
                let rt = self.eval_expr(prog, &**t, fuel - 1);
                let ghost m1 = *self;
                let ghost rtg = rt;
                proof {
                    assert(witnessed(m1, rtg));
                }
                let tv = match rt {
                    Ok(x) => x,
                    Err(m) => return Err(m),
                };
                let rk = self.eval_expr(prog, &**k, fuel - 1);
                let ghost m2 = *self;
                let ghost rkg = rk;
                proof {
                    assert(witnessed(m2, rkg));
                }
                let kv = match rk {
                    Ok(x) => x,
                    Err(m) => return Err(m),
                };
                self.set_index(prog, tv, kv, v, fuel - 1)
            },
            _ => Err(msg("cannot assign to this expression")),
        }
    }

    /// Runs statements in the current frame, stopping at the first that
    /// returns or breaks.
    pub fn eval_block(&mut self, prog: &Program, stmts: &Vec<Stmt>, fuel: u64) -> (r: Result<Flow, String>)
        requires
            old(self).wf(),
        ensures
            final(self).keeps(old(self)),
            fuel == 0 ==> r is Err && *final(self) == *old(self),
            fuel > 0 ==> block_post(*prog, *old(self), stmts@, 0, (fuel - 1) as nat, *final(self), r),
            fuel > 0 && stmts@.len() == 0 ==> r is Ok && r->Ok_0 is Normal && *final(self) == *old(self),
            fuel > 1 && stmts@.len() > 0 && stmts@[0] is Break ==> r is Ok && r->Ok_0 is Break && *final(self) == *old(self),
            fuel > 4 && stmts@.len() > 0 && stmts@[0] is Return && all_literals(stmts@[0]->Return_0@) ==> r is Ok
                && r->Ok_0 is Return && r->Ok_0->Return_0@ == literal_seq(stmts@[0]->Return_0@) && *final(self) == *old(self),
        decreases fuel,
    {
        if fuel == 0 {
            return Err(msg("evaluation step limit reached"));
        }
        let mut i: usize = 0;
        while i < stmts.len()
            invariant
                fuel > 0,
                i <= stmts@.len(),
                self.keeps(old(self)),
                i == 0 ==> *self == *old(self),
                fuel > 1 && i > 0 ==> !(stmts@[0] is Break),
                fuel > 4 && i > 0 ==> !(stmts@[0] is Return && all_literals(stmts@[0]->Return_0@)),
                forall|n: Interpreter, q: Result<Flow, String>|
                    #[trigger] block_post(*prog, *self, stmts@, i as int, (fuel - 1) as nat, n, q)
                    ==> block_post(*prog, *old(self), stmts@, 0, (fuel - 1) as nat, n, q),
            decreases stmts@.len() - i,
        {
            let ghost cur = *self;
            let fr = self.eval_stmt(prog, &stmts[i], fuel - 1);
            let ghost mid = *self;
            let ghost frg = fr;
            proof {
                assert(witnessed(mid, frg));
            }
            let f = match fr {
                Ok(f) => f,
                Err(m) => {
                    proof {
                        assert(block_post(*prog, cur, stmts@, i as int, (fuel - 1) as nat, *self, Err::<Flow, String>(m)));
                    }
                    return Err(m);
                },
            };
            match f {
                Flow::Normal => {},
                _ => {
                    proof {
                        assert(block_post(*prog, cur, stmts@, i as int, (fuel - 1) as nat, *self, frg));
                    }
                    return Ok(f);
                },
            }
            proof {
                assert forall|n: Interpreter, q: Result<Flow, String>|
                    #[trigger] block_post(*prog, mid, stmts@, i + 1, (fuel - 1) as nat, n, q)
                    implies block_post(*prog, *old(self), stmts@, 0, (fuel - 1) as nat, n, q) by {
                    assert(witnessed(mid, frg));
                    assert(block_post(*prog, cur, stmts@, i as int, (fuel - 1) as nat, n, q));
                }
            }
            i = i + 1;
        }
        proof {
            assert(block_post(*prog, *self, stmts@, i as int, (fuel - 1) as nat, *self, Ok::<Flow, String>(Flow::Normal)));
        }
        Ok(Flow::Normal)
    }

    /// Runs a block in a fresh frame, which is dropped on every way out.
    pub fn eval_scoped(&mut self, prog: &Program, stmts: &Vec<Stmt>, fuel: u64) -> (r: Result<Flow, String>)
        requires
            old(self).wf(),
        ensures
            final(self).keeps(old(self)),
            scoped_post(*prog, *old(self), stmts@, fuel as nat, *final(self), r),
            fuel > 1 && stmts@.len() == 0 && old(self).has_room(1) ==> r is Ok && r->Ok_0 is Normal
                && final(self).output@ == old(self).output@,
            fuel > 2 && stmts@.len() > 0 && stmts@[0] is Break ==> r is Err || (r is Ok && r->Ok_0 is Break),
            fuel > 2 && stmts@.len() > 0 && stmts@[0] is Break && old(self).has_room(1) ==> r is Ok && r->Ok_0 is Break
                && final(self).output@ == old(self).output@,
            fuel > 5 && stmts@.len() > 0 && stmts@[0] is Return && all_literals(stmts@[0]->Return_0@) && old(self).has_room(1)
                ==> r is Ok && r->Ok_0 is Return && r->Ok_0->Return_0@ == literal_seq(stmts@[0]->Return_0@)
                && final(self).output@ == old(self).output@,
        decreases fuel,
    {
        if fuel == 0 {
            return Err(msg("evaluation step limit reached"));
        }
        self.push_env()?;
        let ghost mid = *self;
        let r = self.eval_block(prog, stmts, fuel - 1);
        let ghost mid2 = *self;
        self.pop_env();
        proof {
            assert(witnessed(mid, mid2));
        }
        r
    }

    /// Runs one statement.
    pub fn eval_stmt(&mut self, prog: &Program, s: &Stmt, fuel: u64) -> (r: Result<Flow, String>)
        requires
            old(self).wf(),
        ensures
            final(self).keeps(old(self)),
            s is Chunk ==> !(r is Ok && r->Ok_0 is Break),
            stmt_post(*prog, *old(self), *s, fuel as nat, *final(self), r),
            fuel > 3 && s is Chunk && s->Chunk_0@.len() > 0 && s->Chunk_0@[0] is Break ==> r is Err,
            fuel > 4 && s is ExprStmt && simple_call(*old(self), s->ExprStmt_0) is Some
                && simple_call(*old(self), s->ExprStmt_0).unwrap().0 is NativeFunctionDef ==> exists|rr: Result<Vec<Value>, String>|
                native_outcome(*old(self), *final(self), simple_call(*old(self), s->ExprStmt_0).unwrap().0->NativeFunctionDef_0,
                simple_call(*old(self), s->ExprStmt_0).unwrap().1, rr) && (rr is Ok <==> r is Ok) && (r is Ok ==> r->Ok_0 is Normal),
            fuel > 0 && (s is Empty || s is Break) ==> r is Ok && (r->Ok_0 is Break <==> s is Break)
                && (r->Ok_0 is Normal <==> s is Empty) && *final(self) == *old(self),
            fuel > 3 && s is Return && all_literals(s->Return_0@) ==> r is Ok && r->Ok_0 is Return
                && r->Ok_0->Return_0@ == literal_seq(s->Return_0@) && *final(self) == *old(self),
            fuel > 0 && s is LocalAssignment ==> local_post(*prog, *old(self), s->LocalAssignment_0@, s->LocalAssignment_1@,
                (fuel - 1) as nat, *final(self), r),
            fuel > 0 && s is NumericForLoop ==> for_bounds_post(*prog, *old(self), s->NumericForLoop_1, s->NumericForLoop_2,
                s->NumericForLoop_3, (fuel - 1) as nat, *final(self), r),
            fuel > 1 && s is Return ==> exists|rl: Result<Vec<Value>, String>|
                #[trigger] witnessed(*final(self), rl) && list_post(*prog, *old(self), s->Return_0@, 0, (fuel - 2) as nat,
                Seq::empty(), *final(self), rl) && (rl is Err ==> r is Err) && (rl is Ok ==> r is Ok && r->Ok_0 is Return
                && r->Ok_0->Return_0@ == rl->Ok_0@),
            fuel > 0 && s is ExprStmt ==> exists|rm: Result<Vec<Value>, String>|
                #[trigger] witnessed(*final(self), rm) && multi_post(*prog, *old(self), s->ExprStmt_0, (fuel - 1) as nat,
                *final(self), rm) && (rm is Err ==> r is Err) && (rm is Ok ==> r is Ok && r->Ok_0 is Normal),
            fuel > 0 && s is Assignment ==> assignment_post(*prog, *old(self), s->Assignment_0@, s->Assignment_1@,
                (fuel - 1) as nat, *final(self), r),
            fuel > 4 && s is Assignment ==> assignment_outcome(*old(self), *final(self), s->Assignment_0@, s->Assignment_1@, r),
            fuel > 4 && s is LocalAssignment ==> local_outcome(*old(self), *final(self), s->LocalAssignment_0@,
                s->LocalAssignment_1@, r),
            fuel > 7 && s is WhileLoop ==> while_outcome(*old(self), *final(self), s->WhileLoop_0, s->WhileLoop_1@, r),
            fuel > 2 && s is NumericForLoop ==> for_outcome(*old(self), *final(self), s->NumericForLoop_1,
                s->NumericForLoop_2, s->NumericForLoop_3, r),
        decreases fuel,
    {
        if fuel == 0 {
            return Err(msg("evaluation step limit reached"));
        }
        match s {
            Stmt::Empty => Ok(Flow::Normal),
            Stmt::Break => Ok(Flow::Break),
            Stmt::ExprStmt(e) => {
                let res = self.eval_multi(prog, e, fuel - 1);
                proof {
                    assert(witnessed(*self, res));
                }
                match res {
                    Ok(_) => Ok(Flow::Normal),
                    Err(m) => Err(m),
                }
            },
            Stmt::Return(es) => {
                let rl = self.eval_list(prog, es, fuel - 1);
                proof {
                    assert(witnessed(*self, rl));
                }
                match rl {
                    Ok(vs) => Ok(Flow::Return(vs)),
                    Err(m) => Err(m),
                }
            },
            Stmt::Assignment(targets, vals) => self.eval_assignment(prog, targets, vals, fuel - 1),
            Stmt::LocalAssignment(names, vals) => self.eval_local(prog, names, vals, fuel - 1),
            Stmt::DoBlock(b) => self.eval_scoped(prog, b, fuel - 1),
            Stmt::IfStmt(c, then_b, else_b) => {
                let rc = self.eval_expr(prog, c, fuel - 1);
                let ghost mid = *self;
                let ghost rcg = rc;
                proof {
                    assert(witnessed(mid, rcg));
                }
                let cv = match rc {
                    Ok(v) => v,
                    Err(m) => return Err(m),
                };
                if cv.is_truthy() {
                    self.eval_scoped(prog, then_b, fuel - 1)
                } else {
                    self.eval_scoped(prog, else_b, fuel - 1)
                }
            },
            Stmt::WhileLoop(c, body) => self.eval_while(prog, c, body, fuel - 1),
            Stmt::RepeatUntilLoop(body, c) => self.eval_repeat(prog, body, c, fuel - 1),
            Stmt::NumericForLoop(var, a, b, st, body) => self.eval_for(prog, var, a, b, st, body, fuel - 1),
            Stmt::Chunk(b) => {
                let rb = self.eval_scoped(prog, b, fuel - 1);
                proof {
                    assert(witnessed(*self, rb));
                }
                let f = match rb {
                    Ok(f) => f,
                    Err(m) => return Err(m),
                };
                match f {
                    Flow::Break => Err(msg("break outside loop")),
                    _ => Ok(f),
                }
            },
        }
    }

    /// `targets = vals`: the values are evaluated first, then each target
    /// in order receives its value, or `nil`; extra values are dropped.
    fn eval_assignment(&mut self, prog: &Program, targets: &Vec<Expr>, vals: &Vec<Expr>, fuel: u64) -> (r: Result<Flow, String>)
        requires
            old(self).wf(),
        ensures
            final(self).keeps(old(self)),
            fuel > 3 ==> assignment_outcome(*old(self), *final(self), targets@, vals@, r),
            assignment_post(*prog, *old(self), targets@, vals@, fuel as nat, *final(self), r),
        decreases fuel,
    {
        if fuel == 0 {
            return Err(msg("evaluation step limit reached"));
        }
        let rl = self.eval_list(prog, vals, fuel - 1);
        let ghost s1 = *self;
        let ghost rlg = rl;
        proof {
            assert(witnessed(s1, rlg));
        }
        let vs = match rl {
            Ok(x) => x,
            Err(m) => return Err(m),
        };
        let mut i: usize = 0;
        while i < targets.len()
            invariant
                fuel > 0,
                i <= targets@.len(),
                self.keeps(old(self)),
                fuel > 3 && all_literals(vals@) ==> vs@ == literal_seq(vals@) && s1 == *old(self),
                i == 0 ==> *self == s1,
                fuel > 3 && all_literals(vals@) && targets@.len() == 1 && i == 1 && targets@[0] is Var ==> frame_write(
                    s1,
                    *self,
                    s1.binding_frame(Value::String(targets@[0]->Var_0)),
                    Value::String(targets@[0]->Var_0),
                    nth_or_nil(vals@, 0),
                ),
                fuel > 3 && all_literals(vals@) && targets@.len() == 1 && i == 1 ==> !accessor_fails(s1, targets@[0]),
                fuel > 3 && all_literals(vals@) && targets@.len() == 1 && i == 1 && plain_field(s1, targets@[0]) is Some
                    ==> self.gc.live(plain_field(s1, targets@[0]).unwrap().0) && self.gc.table(
                    plain_field(s1, targets@[0]).unwrap().0).get_spec(plain_field(s1, targets@[0]).unwrap().1)
                    == nth_or_nil(vals@, 0) && self.gc.table(plain_field(s1, targets@[0]).unwrap().0).meta is None,
                rlg is Ok && rlg->Ok_0@ == vs@,
                fuel > 1 ==> list_post(*prog, *old(self), vals@, 0, (fuel - 2) as nat, Seq::empty(), s1, rlg),
                forall|n: Interpreter, q: Result<Flow, String>|
                    #[trigger] targets_post(*prog, *self, targets@, i as int, vs@, (fuel - 1) as nat, n, q)
                    ==> targets_post(*prog, s1, targets@, 0, vs@, (fuel - 1) as nat, n, q),
            decreases targets@.len() - i,
        {
            let ghost cur = *self;
            let v = if i < vs.len() {
                vs[i].copy()
            } else {
                Value::Nil
            };
            assert(v == arg_or_nil(vs@, i as int));
            let ra = self.assign(prog, &targets[i], v, fuel - 1);
            let ghost mid = *self;
            let ghost rag = ra;
            proof {
                assert(witnessed(mid, rag));
            }
            match ra {
                Ok(()) => {},
                Err(m) => {
                    proof {
                        assert(targets_post(*prog, cur, targets@, i as int, vs@, (fuel - 1) as nat, *self, Err::<Flow, String>(m)));
                        assert(witnessed(s1, rlg));
                    }
                    return Err(m);
                },
            }
            proof {
                assert forall|n: Interpreter, q: Result<Flow, String>|
                    #[trigger] targets_post(*prog, mid, targets@, i + 1, vs@, (fuel - 1) as nat, n, q)
                    implies targets_post(*prog, s1, targets@, 0, vs@, (fuel - 1) as nat, n, q) by {
                    assert(witnessed(mid, rag));
                    assert(targets_post(*prog, cur, targets@, i as int, vs@, (fuel - 1) as nat, n, q));
                }
            }
            i = i + 1;
        }
        proof {
            assert(targets_post(*prog, *self, targets@, i as int, vs@, (fuel - 1) as nat, *self, Ok::<Flow, String>(Flow::Normal)));
            assert(witnessed(s1, rlg));
        }
        Ok(Flow::Normal)
    }

    /// `local names = vals`: each name is bound in the current frame to its
    /// value, or `nil`.
    fn eval_local(&mut self, prog: &Program, names: &Vec<String>, vals: &Vec<Expr>, fuel: u64) -> (r: Result<Flow, String>)
        requires
            old(self).wf(),
        ensures
            final(self).keeps(old(self)),
            fuel > 3 ==> local_outcome(*old(self), *final(self), names@, vals@, r),
            local_post(*prog, *old(self), names@, vals@, fuel as nat, *final(self), r),
        decreases fuel,
    {
        if fuel == 0 {
            return Err(msg("evaluation step limit reached"));
        }
        let rl = self.eval_list(prog, vals, fuel - 1);
        let ghost s1 = *self;
        let ghost rlg = rl;
        proof {
            assert(witnessed(s1, rlg));
        }
        let vs = match rl {
            Ok(x) => x,
            Err(m) => return Err(m),
        };
        let ghost f = if s1.stack@.len() > 0 { s1.stack@.last() } else { s1.globals };
        let mut i: usize = 0;
        while i < names.len()
            invariant
                i <= names@.len(),
                self.keeps(old(self)),
                self.stack@ == s1.stack@,
                self.globals == s1.globals,
                f == (if s1.stack@.len() > 0 { s1.stack@.last() } else { s1.globals }),
                fuel > 3 && all_literals(vals@) ==> vs@ == literal_seq(vals@) && s1 == *old(self),
                self.gc.slots@.len() == s1.gc.slots@.len(),
                forall|h: u64| #[trigger] self.gc.live(h) == s1.gc.live(h),
                forall|h: int| 0 <= h < s1.gc.slots@.len() && h != f.id ==> #[trigger] self.gc.slots@[h] == s1.gc.slots@[h],
                fuel > 3 && all_literals(vals@) && s1.gc.live(f.id) ==> forall|q: int| 0 <= q < i && last_name(names@, q, i as int)
                    ==> #[trigger] self.gc.table(f.id).get_spec(Value::String(names@[q])) == nth_or_nil(vals@, q),
                rlg is Ok && rlg->Ok_0@ == vs@,
                fuel > 1 ==> list_post(*prog, *old(self), vals@, 0, (fuel - 2) as nat, Seq::empty(), s1, rlg),
                s1.gc.live(f.id) ==> forall|q: int| 0 <= q < i && last_name(names@, q, i as int)
                    ==> #[trigger] self.gc.table(f.id).get_spec(Value::String(names@[q])) == arg_or_nil(vs@, q),
            decreases names@.len() - i,
        {
            let v = if i < vs.len() {
                vs[i].copy()
            } else {
                Value::Nil
            };
            let ghost before = *self;
            self.set_local(&names[i], v);
            proof {
                assert(f == (if before.stack@.len() > 0 { before.stack@.last() } else { before.globals }));
                assert forall|h: int| 0 <= h < s1.gc.slots@.len() && h != f.id implies #[trigger] self.gc.slots@[h]
                    == s1.gc.slots@[h] by {
                    assert(before.gc.slots@[h] == s1.gc.slots@[h]);
                }
                if s1.gc.live(f.id) {
                    assert(before.gc.live(f.id));
                    assert forall|q: int| 0 <= q < i + 1 && last_name(names@, q, i + 1) implies
                        #[trigger] self.gc.table(f.id).get_spec(Value::String(names@[q])) == arg_or_nil(vs@, q) by {
                        if q < i {
                            assert(names@[i as int]@ != names@[q]@);
                            assert(last_name(names@, q, i as int));
                            assert(!value_eq(Value::String(names@[q]), Value::String(names@[i as int])));
                            assert(before.gc.table(f.id).get_spec(Value::String(names@[q])) == arg_or_nil(vs@, q));
                        }
                    }
                }
                if fuel > 3 && all_literals(vals@) && s1.gc.live(f.id) {
                    assert(before.gc.live(f.id));
                    assert(vs@ == literal_seq(vals@));
                    assert(vs@.len() == vals@.len());
                    if i < vs.len() {
                        assert(literal_seq(vals@)[i as int] == vals@[i as int]->Literal_0);
                    }
                    assert forall|q: int| 0 <= q < i + 1 && last_name(names@, q, i + 1) implies
                        #[trigger] self.gc.table(f.id).get_spec(Value::String(names@[q])) == nth_or_nil(vals@, q) by {
                        if q < i {
                            assert(names@[i as int]@ != names@[q]@);
                            assert(last_name(names@, q, i as int));
                            assert(!value_eq(Value::String(names@[q]), Value::String(names@[i as int])));
                            assert(before.gc.table(f.id).get_spec(Value::String(names@[q])) == nth_or_nil(vals@, q));
                        }
                    }
                }
            }
            i = i + 1;
        }
        Ok(Flow::Normal)
    }

    /// `while c do body end`: the body runs in a fresh frame while `c` is
    /// true; a `break` ends the loop normally and a `return` is passed out.
    fn eval_while(&mut self, prog: &Program, c: &Expr, body: &Vec<Stmt>, fuel: u64) -> (r: Result<Flow, String>)
        requires
            old(self).wf(),
        ensures
            final(self).keeps(old(self)),
            fuel > 6 ==> while_outcome(*old(self), *final(self), *c, body@, r),
            fuel > 0 ==> while_loop(*prog, *old(self), *c, body@, (fuel - 1) as nat, fuel as nat, *final(self), r),
        decreases fuel,
    {
        if fuel == 0 {
            return Err(msg("evaluation step limit reached"));
        }
        let mut rounds: u64 = 0;
        while rounds < fuel
            invariant
                fuel > 0,
                self.keeps(old(self)),
                rounds == 0 ==> *self == *old(self),
                fuel > 6 && *c is Literal && truthy(c->Literal_0) && old(self).has_room(1) && body@.len() > 0
                    && (body@[0] is Break || (body@[0] is Return && all_literals(body@[0]->Return_0@))) ==> rounds == 0,
                fuel > 6 && *c is Literal && !truthy(c->Literal_0) ==> rounds == 0,
                rounds <= fuel,
                forall|n: Interpreter, q: Result<Flow, String>|
                    #[trigger] while_loop(*prog, *self, *c, body@, (fuel - 1) as nat, (fuel - rounds) as nat, n, q)
                    ==> while_loop(*prog, *old(self), *c, body@, (fuel - 1) as nat, fuel as nat, n, q),
            decreases fuel - rounds,
        {
            let ghost cur = *self;
            let ghost k = (fuel - rounds) as nat;
            rounds = rounds + 1;
            let rc = self.eval_expr(prog, c, fuel - 1);
            let ghost mid = *self;
            let ghost rcg = rc;
            proof {
                assert(witnessed(mid, rcg));
            }
            let cv = match rc {
                Ok(v) => v,
                Err(m) => {
                    proof {
                        assert(while_loop(*prog, cur, *c, body@, (fuel - 1) as nat, k, *self, Err::<Flow, String>(m)));
                    }
                    return Err(m);
                },
            };
            if !cv.is_truthy() {
                proof {
                    assert(while_loop(*prog, cur, *c, body@, (fuel - 1) as nat, k, *self, Ok::<Flow, String>(Flow::Normal)));
                }
                return Ok(Flow::Normal);
            }
            let rb = self.eval_scoped(prog, body, fuel - 1);
            let ghost mid2 = *self;
            let ghost rbg = rb;
            proof {
                assert(witnessed(mid2, rbg));
            }
            match rb {
                Err(m) => {
                    proof {
                        assert(while_loop(*prog, cur, *c, body@, (fuel - 1) as nat, k, *self, Err::<Flow, String>(m)));
                    }
                    return Err(m);
                },
                Ok(Flow::Normal) => {
                    proof {
                        assert forall|n: Interpreter, q: Result<Flow, String>|
                            #[trigger] while_loop(*prog, mid2, *c, body@, (fuel - 1) as nat, (fuel - rounds) as nat, n, q)
                            implies while_loop(*prog, *old(self), *c, body@, (fuel - 1) as nat, fuel as nat, n, q) by {
                            assert(witnessed(mid, rcg));
                            assert(witnessed(mid2, rbg));
                            assert(while_loop(*prog, cur, *c, body@, (fuel - 1) as nat, k, n, q));
                        }
                    }
                },
                Ok(Flow::Break) => {
                    proof {
                        assert(while_loop(*prog, cur, *c, body@, (fuel - 1) as nat, k, *self, Ok::<Flow, String>(Flow::Normal)));
                    }
                    return Ok(Flow::Normal);
                },
                Ok(Flow::Return(vs)) => {
                    proof {
                        assert(while_loop(*prog, cur, *c, body@, (fuel - 1) as nat, k, *self, rbg));
                    }
                    return Ok(Flow::Return(vs));
                },
            }
        }
        let m = msg("evaluation step limit reached");
        proof {
            assert(while_loop(*prog, *self, *c, body@, (fuel - 1) as nat, (fuel - rounds) as nat, *self, Err::<Flow, String>(m)));
        }
        Err(m)
    }

    /// Numeric `for`: start, limit and step are evaluated once and must be
    /// numbers, the step not zero; the body runs with the control variable
    /// bound in a fresh frame while it has not passed the limit.
    fn eval_for(
        &mut self,
        prog: &Program,
        var: &String,
        a: &Expr,
        b: &Expr,
        st: &Expr,
        body: &Vec<Stmt>,
        fuel: u64,
    ) -> (r: Result<Flow, String>)
        requires
            old(self).wf(),
        ensures
            final(self).keeps(old(self)),
            fuel > 1 ==> for_outcome(*old(self), *final(self), *a, *b, *st, r),
            for_bounds_post(*prog, *old(self), *a, *b, *st, fuel as nat, *final(self), r),
        decreases fuel,
    {
        if fuel == 0 {
            return Err(msg("evaluation step limit reached"));
        }
        let ra = self.eval_expr(prog, a, fuel - 1);
        let ghost m1 = *self;
        let ghost rag = ra;
        proof {
            assert(witnessed(m1, rag));
        }
        let av = match ra {
            Ok(x) => x,
            Err(m) => return Err(m),
        };
        let rb = self.eval_expr(prog, b, fuel - 1);
        let ghost m2 = *self;
        let ghost rbg = rb;
        proof {
            assert(witnessed(m2, rbg));
        }
        let bv = match rb {
            Ok(x) => x,
            Err(m) => return Err(m),
        };
        let rs = self.eval_expr(prog, st, fuel - 1);
        let ghost m3 = *self;
        let ghost rsg = rs;
        proof {
            assert(witnessed(m3, rsg));
        }
        let sv = match rs {
            Ok(x) => x,
            Err(m) => return Err(m),
        };
        let (start, limit, step) = match (av, bv, sv) {
            (Value::Number(x), Value::Number(y), Value::Number(z)) => (x, y, z),
            _ => return Err(msg("'for' initial value, limit and step must be numbers")),
        };
        if step.units == 0 {
            return Err(msg("'for' step is zero"));
        }
        proof {
            assert forall|n: Interpreter, q: Result<Flow, String>|
                #[trigger] for_bounds_post(*prog, *old(self), *a, *b, *st, fuel as nat, n, q) by {
                assert(witnessed(m1, rag));
                assert(witnessed(m2, rbg));
                assert(witnessed(m3, rsg));
            }
        }
        let mut i = start;
        let mut rounds: u64 = 0;
        while rounds < fuel
            invariant
                fuel > 0,
                self.keeps(old(self)),
                forall|n: Interpreter, q: Result<Flow, String>|
                    #[trigger] for_bounds_post(*prog, *old(self), *a, *b, *st, fuel as nat, n, q),
                fuel > 1 ==> !for_outcome_fails(*a, *b, *st),
            decreases fuel - rounds,
        {
            rounds = rounds + 1;
            if !((step.units > 0 && i.le(limit)) || (step.units < 0 && limit.le(i))) {
                return Ok(Flow::Normal);
            }
            match self.for_round(prog, var, i, body, fuel - 1)? {
                Flow::Normal => {},
                Flow::Break => return Ok(Flow::Normal),
                Flow::Return(vs) => return Ok(Flow::Return(vs)),
            }
            i = match i.add(step) {
                Some(n) => n,
                None => return Ok(Flow::Normal),
            };
        }
        Err(msg("evaluation step limit reached"))
    }

    /// `repeat body until c`: the body runs in one frame that lasts for
    /// the whole loop, and the condition is evaluated in it after each
    /// round, so it sees the body's locals.
    fn eval_repeat(&mut self, prog: &Program, body: &Vec<Stmt>, c: &Expr, fuel: u64) -> (r: Result<Flow, String>)
        requires
            old(self).wf(),
        ensures
            final(self).keeps(old(self)),
            repeat_post(*prog, *old(self), body@, *c, fuel as nat, *final(self), r),
        decreases fuel,
    {
        if fuel == 0 {
            return Err(msg("evaluation step limit reached"));
        }
        if fuel < 2 {
            return Err(msg("evaluation step limit reached"));
        }
        self.push_env()?;
        let ghost mid = *self;
        let r = self.repeat_rounds(prog, body, c, fuel - 1);
        let ghost mid2 = *self;
        self.pop_env();
        proof {
            assert(witnessed(mid, mid2));
        }
        r
    }

    /// The rounds of a `repeat` loop, in its frame: the body runs, then the
    /// condition; a true condition or a `break` ends the loop normally, and a
    /// `return` is passed out.
    fn repeat_rounds(&mut self, prog: &Program, body: &Vec<Stmt>, c: &Expr, fuel: u64) -> (r: Result<Flow, String>)
        requires
            old(self).wf(),
            fuel > 0,
        ensures
            final(self).keeps(old(self)),
            repeat_loop(*prog, *old(self), body@, *c, (fuel - 1) as nat, fuel as nat, *final(self), r),
        decreases fuel,
    {
        let mut rounds: u64 = 0;
        while rounds < fuel
            invariant
                fuel > 0,
                rounds <= fuel,
                self.keeps(old(self)),
                forall|n: Interpreter, q: Result<Flow, String>|
                    #[trigger] repeat_loop(*prog, *self, body@, *c, (fuel - 1) as nat, (fuel - rounds) as nat, n, q)
                    ==> repeat_loop(*prog, *old(self), body@, *c, (fuel - 1) as nat, fuel as nat, n, q),
            decreases fuel - rounds,
        {
            let ghost cur = *self;
            let ghost k = (fuel - rounds) as nat;
            rounds = rounds + 1;
            let rb = self.eval_block(prog, body, fuel - 1);
            let ghost m = *self;
            let ghost rbg = rb;
            proof {
                assert(witnessed(m, rbg));
                if fuel - 1 > 0 {
                    assert(block_post(*prog, cur, body@, 0, (fuel - 1 - 1) as nat, m, rbg));
                }
            }
            match rb {
                Err(e) => {
                    proof {
                        assert(repeat_loop(*prog, cur, body@, *c, (fuel - 1) as nat, k, *self, Err::<Flow, String>(e)));
                    }
                    return Err(e);
                },
                Ok(Flow::Break) => {
                    proof {
                        assert(repeat_loop(*prog, cur, body@, *c, (fuel - 1) as nat, k, *self, Ok::<Flow, String>(Flow::Normal)));
                    }
                    return Ok(Flow::Normal);
                },
                Ok(Flow::Return(vs)) => {
                    proof {
                        assert(repeat_loop(*prog, cur, body@, *c, (fuel - 1) as nat, k, *self, rbg));
                    }
                    return Ok(Flow::Return(vs));
                },
                Ok(Flow::Normal) => {},
            }
            let rc = self.eval_expr(prog, c, fuel - 1);
            let ghost m2 = *self;
            let ghost rcg = rc;
            proof {
                assert(witnessed(m2, rcg));
            }
            match rc {
                Err(e) => {
                    proof {
                        assert(repeat_loop(*prog, cur, body@, *c, (fuel - 1) as nat, k, *self, Err::<Flow, String>(e)));
                    }
                    return Err(e);
                },
                Ok(cv) => {
                    if cv.is_truthy() {
                        proof {
                            assert(repeat_loop(*prog, cur, body@, *c, (fuel - 1) as nat, k, *self, Ok::<Flow, String>(Flow::Normal)));
                        }
                        return Ok(Flow::Normal);
                    }
                },
            }
            proof {
                assert forall|n: Interpreter, q: Result<Flow, String>|
                    #[trigger] repeat_loop(*prog, m2, body@, *c, (fuel - 1) as nat, (fuel - rounds) as nat, n, q)
                    implies repeat_loop(*prog, *old(self), body@, *c, (fuel - 1) as nat, fuel as nat, n, q) by {
                    assert(witnessed(m, rbg));
                    assert(witnessed(m2, rcg));
                    assert(repeat_loop(*prog, cur, body@, *c, (fuel - 1) as nat, k, n, q));
                }
            }
        }
        let e = msg("evaluation step limit reached");
        proof {
            assert(repeat_loop(*prog, *self, body@, *c, (fuel - 1) as nat, (fuel - rounds) as nat, *self, Err::<Flow, String>(e)));
        }
        Err(e)
    }

    /// One round of a numeric `for`, with the control variable bound to `i`
    /// in a fresh frame.
    fn for_round(&mut self, prog: &Program, var: &String, i: Num, body: &Vec<Stmt>, fuel: u64) -> (r: Result<Flow, String>)
        requires
            old(self).wf(),
        ensures
            final(self).keeps(old(self)),
        decreases fuel,
    {
        if fuel == 0 {
            return Err(msg("evaluation step limit reached"));
        }
        self.push_env()?;
        self.set_local(var, Value::Number(i));
        let r = self.eval_block(prog, body, fuel - 1);
        self.pop_env();
        r
    }

    /// Runs a parsed program as a chunk: its block runs in a fresh frame; a
    /// `break` that reaches the top is an error.
    pub fn exec_program(&mut self, prog: &Program, fuel: u64) -> (r: Result<(), String>)
        requires
            old(self).wf(),
        ensures
            final(self).keeps(old(self)),
            fuel > 2 && prog.body@.len() == 0 && old(self).has_room(1) ==> r is Ok && final(self).output@ == old(self).output@,
            fuel > 3 && prog.body@.len() > 0 && prog.body@[0] is Break ==> r is Err,
            fuel == 0 ==> r is Err,
            fuel > 0 ==> exists|rb: Result<Flow, String>|
                #[trigger] witnessed(*final(self), rb) && scoped_post(*prog, *old(self), prog.body@, (fuel - 1) as nat,
                *final(self), rb) && (rb is Err ==> r is Err) && (rb is Ok && rb->Ok_0 is Break ==> r is Err)
                && (rb is Ok && !(rb->Ok_0 is Break) ==> r is Ok),
    {
        if fuel == 0 {
            return Err(msg("evaluation step limit reached"));
        }
        let rb = self.eval_scoped(prog, &prog.body, fuel - 1);
        proof {
            assert(witnessed(*self, rb));
        }
        let f = match rb {
            Ok(f) => f,
            Err(m) => return Err(m),
        };
        match f {
            Flow::Break => Err(msg("break outside loop")),
            _ => Ok(()),
        }
    }
}

/// Writing a field and then reading it gives the value written: when an
/// assignment `t[k] = v` of a single literal ran from `old` to `new` on a
/// table without a metatable, and `t` and `k` still read as before, the
/// field expression now names the same table and key, and that key holds
/// `v` (so `eval_expr` on the field gives `v`).
pub proof fn lemma_field_write_then_read(
    old: Interpreter,
    new: Interpreter,
    target: Expr,
    val: Value,
    r: Result<Flow, String>,
)
    requires
        assignment_outcome(old, new, seq![target], seq![Expr::Literal(val)], r),
        plain_field(old, target) is Some,
        new.simple_value(*target->Accessor_0) == old.simple_value(*target->Accessor_0),
        new.simple_value(*target->Accessor_1) == old.simple_value(*target->Accessor_1),
    ensures
        plain_field(new, target) == plain_field(old, target),
        new.gc.table(plain_field(new, target).unwrap().0).get_spec(plain_field(new, target).unwrap().1) == val,
{
    assert(all_literals(seq![Expr::Literal(val)]));
    assert(seq![target][0] == target);
}

/// Function values are never reused.  Evaluating a function literal in
/// state `a` gives `f` and leaves `a2`; evaluating one (the same literal or
/// another) in any later state `b` gives `g`.  Then `f` and `g` differ.
pub proof fn lemma_function_literals_distinct(
    a: Interpreter,
    a2: Interpreter,
    f: Function,
    b: Interpreter,
    g: Function,
)
    requires
        f.id == a.closures@.len(),
        a2.closures@.len() == a.closures@.len() + 1,
        b.closures@.len() >= a2.closures@.len(),
        g.id == b.closures@.len(),
    ensures
        f != g,
{
}

/// The primitive result of an arithmetic operator on two numbers.
pub open spec fn num_binop(op: BinOp, x: Num, y: Num) -> Option<Num> {
    let (a, b) = (x.units as int, y.units as int);
    let u = match op {
        BinOp::Add => Some(a + b),
        BinOp::Sub => Some(a - b),
        BinOp::Mul => Some(crate::number::mul_units(a, b)),
        BinOp::Div => if b != 0 { Some(crate::number::div_units(a, b)) } else { None },
        BinOp::Mod => if b != 0 { Some(crate::number::floor_mod(a, b)) } else { None },
        _ => None,
    };
    match u {
        Some(v) => if crate::number::fits(v) { Some(Num { units: v as i64 }) } else { None },
        None => None,
    }
}

fn num_binop_exec(op: BinOp, x: Num, y: Num) -> (r: Option<Num>)
    ensures
        r == num_binop(op, x, y),
{
    match op {
        BinOp::Add => x.add(y),
        BinOp::Sub => x.sub(y),
        BinOp::Mul => x.mul(y),
        BinOp::Div => x.div(y),
        BinOp::Mod => {
            x.modulo(y)
        },
        _ => None,
    }
}

} // verus!
