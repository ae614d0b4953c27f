//! The runtime values of the language.
use vstd::prelude::*;
use crate::number::{Num, num_text};
use crate::text::string_of;
use crate::function::Function;

verus! {

/// Identity of a table in the heap.  `new` only wraps an id; a handle of a
/// table comes from `GcStore::store`, which hands out a fresh one.
#[derive(Clone, Copy, Debug, PartialEq, Eq, Structural)]
pub struct GcKey {
    pub id: u64,
}

impl GcKey {
    pub fn new(id: u64) -> (r: GcKey)
        ensures
            r.id == id,
    {
        GcKey { id }
    }
}

/// The host functions installed as globals.
#[derive(Clone, Copy, Debug, PartialEq, Eq, Structural)]
pub enum NativeFunction {
    Print,
    Assert,
    SetMetatable,
    GetMetatable,
    CollectGarbage,
}

#[derive(Debug)]
pub enum Value {
    Nil,
    Boolean(bool),
    Number(Num),
    String(String),
    FunctionDef(Function),
    NativeFunctionDef(NativeFunction),
    Table(GcKey),
}

/// Equality of values: by contents for nil, booleans, numbers and strings,
/// by identity for functions and tables.
pub open spec fn value_eq(a: Value, b: Value) -> bool {
    match (a, b) {
        (Value::String(x), Value::String(y)) => x@ == y@,
        (Value::String(_), _) => false,
        (_, Value::String(_)) => false,
        _ => a == b,
    }
}

/// Everything but `false` and `nil` counts as true.
pub open spec fn truthy(v: Value) -> bool {
    match v {
        Value::Nil => false,
        Value::Boolean(b) => b,
        _ => true,
    }
}

/// The display form of a value.
pub open spec fn display_text(v: Value) -> Seq<char> {
    match v {
        Value::Nil => seq!['n', 'i', 'l'],
        Value::Boolean(b) => if b {
            seq!['t', 'r', 'u', 'e']
        } else {
            seq!['f', 'a', 'l', 's', 'e']
        },
        Value::Number(n) => num_text(n),
        Value::String(s) => s@,
        Value::FunctionDef(_) => seq!['<', 'f', 'u', 'n', 'c', 't', 'i', 'o', 'n', '>'],
        Value::NativeFunctionDef(_) => seq![
            '<', 'n', 'a', 't', 'i', 'v', 'e', ' ', 'f', 'u', 'n', 'c', 't', 'i', 'o', 'n', '>'
        ],
        Value::Table(_) => seq!['<', 't', 'a', 'b', 'l', 'e', '>'],
    }
}

fn text(s: &str) -> (r: String)
    ensures
        r@ == s@,
{
    String::from_str(s)
}

impl Value {
    /// A copy of the value.
    pub fn copy(&self) -> (r: Value)
        ensures
            r == *self,
    {
        match self {
            Value::Nil => Value::Nil,
            Value::Boolean(b) => Value::Boolean(*b),
            Value::Number(n) => Value::Number(*n),
            Value::String(s) => Value::String(s.clone()),
            Value::FunctionDef(f) => Value::FunctionDef(*f),
            Value::NativeFunctionDef(f) => Value::NativeFunctionDef(*f),
            Value::Table(k) => Value::Table(*k),
        }
    }

    pub fn equals(&self, o: &Value) -> (r: bool)
        ensures
            r == value_eq(*self, *o),
    {
        match (self, o) {
            (Value::Nil, Value::Nil) => true,
            (Value::Boolean(a), Value::Boolean(b)) => *a == *b,
            (Value::Number(a), Value::Number(b)) => a.units == b.units,
            (Value::String(a), Value::String(b)) => *a == *b,
            (Value::FunctionDef(a), Value::FunctionDef(b)) => a.id == b.id,
            (Value::NativeFunctionDef(a), Value::NativeFunctionDef(b)) => *a == *b,
            (Value::Table(a), Value::Table(b)) => a.id == b.id,
            _ => false,
        }
    }

    pub fn is_truthy(&self) -> (r: bool)
        ensures
            r == truthy(*self),
    {
        match self {
            Value::Nil => false,
            Value::Boolean(b) => *b,
            _ => true,
        }
    }

    pub fn is_nil(&self) -> (r: bool)
        ensures
            r == (*self is Nil),
    {
        match self {
            Value::Nil => true,
            _ => false,
        }
    }

    /// The display form, as used by `print`.
    pub fn display(&self) -> (r: String)
        ensures
            r@ == display_text(*self),
    {
        match self {
            Value::Nil => {
                let r = text("nil");
                proof {
                    reveal_strlit("nil");
                }
                r
            },
            Value::Boolean(b) => {
                if *b {
                    let r = text("true");
                    proof {
                        reveal_strlit("true");
                    }
                    r
                } else {
                    let r = text("false");
                    proof {
                        reveal_strlit("false");
                    }
                    r
                }
            },
            Value::Number(n) => n.display(),
            Value::String(s) => s.clone(),
            Value::FunctionDef(_) => {
                let r = text("<function>");
                proof {
                    reveal_strlit("<function>");
                }
                r
            },
            Value::NativeFunctionDef(_) => {
                let r = text("<native function>");
                proof {
                    reveal_strlit("<native function>");
                }
                r
            },
            Value::Table(_) => {
                let r = text("<table>");
                proof {
                    reveal_strlit("<table>");
                }
                r
            },
        }
    }
}

/// Every value has a display form, and only a string can display as
/// empty text.
pub proof fn lemma_display_defined(v: Value)
    ensures
        !(v is String) ==> display_text(v).len() > 0,
{
    if let Value::Number(n) = v {
        crate::number::lemma_num_text_nonempty(n);
    }
}

/// The display forms of `vs`, separated by tabs.
pub open spec fn joined_text(vs: Seq<Value>) -> Seq<char>
    decreases vs.len(),
{
    if vs.len() == 0 {
        Seq::empty()
    } else if vs.len() == 1 {
        display_text(vs[0])
    } else {
        joined_text(vs.drop_last()) + seq!['\t'] + display_text(vs.last())
    }
}

/// One line of `print` output for the arguments `vs`.
pub fn print_line(vs: &Vec<Value>) -> (r: String)
    ensures
        r@ == joined_text(vs@),
{
    let mut out = String::new();
    let mut i: usize = 0;
    while i < vs.len()
        invariant
            i <= vs.len(),
            out@ == joined_text(vs@.take(i as int)),
        decreases vs.len() - i,
    {
        proof {
            assert(vs@.take(i + 1).drop_last() == vs@.take(i as int));
        }
        if i > 0 {
            let tab = string_of(&['\t']);
            out.append(tab.as_str());
        }
        let d = vs[i].display();
        out.append(d.as_str());
        i = i + 1;
    }
    proof {
        assert(vs@.take(vs.len() as int) == vs@);
    }
    out
}

} // verus!
