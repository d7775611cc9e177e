//! The mini expression language used by `test=` guards, `#{}`/`${}`
//! placeholders, `<bind value=>` and `<foreach collection=>`.
//!
//! Evaluation is pure over the supplied environment. A variable that the
//! environment does not hold evaluates to null; comparisons are
//! null-tolerant (null equals only null, any ordering against null is
//! false); `+` concatenates as soon as either operand is a string.
use vstd::prelude::*;

use crate::text::dec_str;
use crate::text::i64_dec;
use crate::text::str_eq;
use crate::value::Env;
use crate::value::Val;
use crate::value::Value;
use crate::value::lookup_model;
use crate::value::pairs_view;

verus! {

/// Why an expression failed to evaluate.
#[derive(Debug, Clone, Copy, PartialEq, Eq, Structural)]
pub enum ExpressionError {
    DivideByZero,
    Overflow,
    TypeMismatch,
}

/// One step of a variable path: a field name or a sequence index.
#[derive(Debug)]
pub enum PathSeg {
    Name(String),
    Idx(usize),
}

/// A binary operator of the expression language.
#[derive(Debug, Clone, Copy, PartialEq, Eq, Structural)]
pub enum BinOp {
    Add,
    Sub,
    Mul,
    Div,
    Mod,
    Eq,
    Ne,
    Lt,
    Le,
    Gt,
    Ge,
    And,
    Or,
}

/// A parsed expression. A parenthesised subexpression keeps its own
/// node, so a parse can be unparsed back to exactly its source tokens.
#[derive(Debug)]
pub enum Expr {
    Lit(Value),
    Var(String, Vec<PathSeg>),
    Not(Box<Expr>),
    Neg(Box<Expr>),
    Paren(Box<Expr>),
    Bin(BinOp, Box<Expr>, Box<Expr>),
}

/// Truthiness of a model value: false, null, zero, and empty strings and
/// sequences are falsy.
pub open spec fn truthy_val(v: Val) -> bool {
    match v {
        Val::Null => false,
        Val::Bool(b) => b,
        Val::Int(i) => i != 0,
        Val::Dec(s) => crate::value::dec_nonzero(s),
        Val::Str(s) => s.len() != 0,
        Val::Arr(s) => s.len() != 0,
        Val::Obj(_) => true,
    }
}

/// The text a scalar value contributes to `${}` splices and to string
/// concatenation; null contributes nothing.
pub open spec fn val_text(v: Val) -> Seq<char> {
    match v {
        Val::Null => Seq::empty(),
        Val::Bool(b) => if b {
            "true"@
        } else {
            "false"@
        },
        Val::Int(i) => dec_str(i),
        Val::Dec(s) => s,
        Val::Str(s) => s,
        Val::Arr(_) => Seq::empty(),
        Val::Obj(_) => Seq::empty(),
    }
}

/// Whether a value has text for splices and concatenation.
pub open spec fn has_text(v: Val) -> bool {
    !(v matches Val::Arr(_)) && !(v matches Val::Obj(_))
}

/// Descends a dotted/indexed path; any step that does not resolve
/// yields null.
pub open spec fn path_get(v: Val, path: Seq<PathSeg>) -> Val
    decreases path.len(),
{
    if path.len() == 0 {
        v
    } else {
        let step = match (path[0], v) {
            (PathSeg::Name(n), Val::Obj(entries)) => match lookup_model(entries, n@) {
                Some(w) => w,
                None => Val::Null,
            },
            (PathSeg::Idx(i), Val::Arr(items)) => if i < items.len() {
                items[i as int]
            } else {
                Val::Null
            },
            _ => Val::Null,
        };
        path_get(step, path.drop_first())
    }
}

/// A variable reference: the base name looked up in the environment
/// (missing names yield null), then the path applied.
pub open spec fn var_get(env: Seq<(Seq<char>, Val)>, name: Seq<char>, path: Seq<PathSeg>) -> Val {
    match lookup_model(env, name) {
        Some(v) => path_get(v, path),
        None => path_get(Val::Null, path),
    }
}

/// Truncating division as machine division performs it.
pub open spec fn div_trunc(x: int, d: int) -> int {
    if x == 0 {
        0
    } else if x > 0 && d > 0 {
        x / d
    } else if x < 0 && d < 0 {
        ((x * -1) / (d * -1))
    } else if x < 0 {
        ((x * -1) / d) * -1
    } else {
        (x / (d * -1)) * -1
    }
}

/// Truncating remainder as machine remainder performs it.
pub open spec fn rem_trunc(x: int, d: int) -> int {
    if x == 0 {
        0
    } else if x > 0 && d > 0 {
        x % d
    } else if x < 0 && d < 0 {
        ((x * -1) % (d * -1)) * -1
    } else if x < 0 {
        ((x * -1) % d) * -1
    } else {
        x % (d * -1)
    }
}

pub open spec fn fits_i64(x: int) -> bool {
    i64::MIN <= x <= i64::MAX
}

/// Shallow equality of scalar values: null equals only null; values of
/// different scalar shapes are unequal.
pub open spec fn scalar_eq(a: Val, b: Val) -> bool {
    match (a, b) {
        (Val::Null, Val::Null) => true,
        (Val::Bool(x), Val::Bool(y)) => x == y,
        (Val::Int(x), Val::Int(y)) => x == y,
        (Val::Dec(x), Val::Dec(y)) => x == y,
        (Val::Str(x), Val::Str(y)) => x == y,
        _ => false,
    }
}

/// What one binary operator yields on two already-evaluated operands.
/// `And`/`Or` are handled before operand evaluation (short circuit), so
/// they do not appear here.
pub open spec fn bin_model(op: BinOp, a: Val, b: Val) -> Result<Val, ExpressionError> {
    match op {
        BinOp::Add => if (a matches Val::Str(_)) || (b matches Val::Str(_)) {
            if has_text(a) && has_text(b) {
                Ok(Val::Str(val_text(a) + val_text(b)))
            } else {
                Err(ExpressionError::TypeMismatch)
            }
        } else if (a matches Val::Int(x)) && (b matches Val::Int(y)) {
            if fits_i64(a->Int_0 + b->Int_0) {
                Ok(Val::Int(a->Int_0 + b->Int_0))
            } else {
                Err(ExpressionError::Overflow)
            }
        } else {
            Err(ExpressionError::TypeMismatch)
        },
        BinOp::Sub => if (a matches Val::Int(x)) && (b matches Val::Int(y)) {
            if fits_i64(a->Int_0 - b->Int_0) {
                Ok(Val::Int(a->Int_0 - b->Int_0))
            } else {
                Err(ExpressionError::Overflow)
            }
        } else {
            Err(ExpressionError::TypeMismatch)
        },
        BinOp::Mul => if (a matches Val::Int(x)) && (b matches Val::Int(y)) {
            if fits_i64(a->Int_0 * b->Int_0) {
                Ok(Val::Int(a->Int_0 * b->Int_0))
            } else {
                Err(ExpressionError::Overflow)
            }
        } else {
            Err(ExpressionError::TypeMismatch)
        },
        BinOp::Div => if (a matches Val::Int(x)) && (b matches Val::Int(y)) {
            if b->Int_0 == 0 {
                Err(ExpressionError::DivideByZero)
            } else if fits_i64(div_trunc(a->Int_0, b->Int_0)) {
                Ok(Val::Int(div_trunc(a->Int_0, b->Int_0)))
            } else {
                Err(ExpressionError::Overflow)
            }
        } else {
            Err(ExpressionError::TypeMismatch)
        },
        BinOp::Mod => if (a matches Val::Int(x)) && (b matches Val::Int(y)) {
            if b->Int_0 == 0 {
                Err(ExpressionError::DivideByZero)
            } else if a->Int_0 == i64::MIN && b->Int_0 == -1 {
                Err(ExpressionError::Overflow)
            } else {
                Ok(Val::Int(rem_trunc(a->Int_0, b->Int_0)))
            }
        } else {
            Err(ExpressionError::TypeMismatch)
        },
        BinOp::Eq => if (a matches Val::Arr(_)) || (a matches Val::Obj(_)) || (b matches Val::Arr(
            _,
        )) || (b matches Val::Obj(_)) {
            Err(ExpressionError::TypeMismatch)
        } else {
            Ok(Val::Bool(scalar_eq(a, b)))
        },
        BinOp::Ne => if (a matches Val::Arr(_)) || (a matches Val::Obj(_)) || (b matches Val::Arr(
            _,
        )) || (b matches Val::Obj(_)) {
            Err(ExpressionError::TypeMismatch)
        } else {
            Ok(Val::Bool(!scalar_eq(a, b)))
        },
        BinOp::Lt => if (a matches Val::Null) || (b matches Val::Null) {
            Ok(Val::Bool(false))
        } else if (a matches Val::Int(x)) && (b matches Val::Int(y)) {
            Ok(Val::Bool(a->Int_0 < b->Int_0))
        } else {
            Err(ExpressionError::TypeMismatch)
        },
        BinOp::Le => if (a matches Val::Null) || (b matches Val::Null) {
            Ok(Val::Bool(false))
        } else if (a matches Val::Int(x)) && (b matches Val::Int(y)) {
            Ok(Val::Bool(a->Int_0 <= b->Int_0))
        } else {
            Err(ExpressionError::TypeMismatch)
        },
        BinOp::Gt => if (a matches Val::Null) || (b matches Val::Null) {
            Ok(Val::Bool(false))
        } else if (a matches Val::Int(x)) && (b matches Val::Int(y)) {
            Ok(Val::Bool(a->Int_0 > b->Int_0))
        } else {
            Err(ExpressionError::TypeMismatch)
        },
        BinOp::Ge => if (a matches Val::Null) || (b matches Val::Null) {
            Ok(Val::Bool(false))
        } else if (a matches Val::Int(x)) && (b matches Val::Int(y)) {
            Ok(Val::Bool(a->Int_0 >= b->Int_0))
        } else {
            Err(ExpressionError::TypeMismatch)
        },
        _ => Err(ExpressionError::TypeMismatch),
    }
}

/// The meaning of an expression against an environment: a value, or the
/// first error evaluation runs into (operands left to right, `&&`/`||`
/// short-circuiting on the left operand's truthiness).
pub open spec fn eval_model(e: Expr, env: Seq<(Seq<char>, Val)>) -> Result<
    Val,
    ExpressionError,
>
    decreases e,
{
    match e {
        Expr::Lit(v) => Ok(v@),
        Expr::Var(name, path) => Ok(var_get(env, name@, path@)),
        Expr::Not(inner) => match eval_model(*inner, env) {
            Ok(v) => Ok(Val::Bool(!truthy_val(v))),
            Err(er) => Err(er),
        },
        Expr::Paren(inner) => eval_model(*inner, env),
        Expr::Neg(inner) => match eval_model(*inner, env) {
            Ok(Val::Int(i)) => if fits_i64(-i) {
                Ok(Val::Int(-i))
            } else {
                Err(ExpressionError::Overflow)
            },
            Ok(_) => Err(ExpressionError::TypeMismatch),
            Err(er) => Err(er),
        },
        Expr::Bin(BinOp::And, a, b) => match eval_model(*a, env) {
            Ok(va) => if !truthy_val(va) {
                Ok(Val::Bool(false))
            } else {
                match eval_model(*b, env) {
                    Ok(vb) => Ok(Val::Bool(truthy_val(vb))),
                    Err(er) => Err(er),
                }
            },
            Err(er) => Err(er),
        },
        Expr::Bin(BinOp::Or, a, b) => match eval_model(*a, env) {
            Ok(va) => if truthy_val(va) {
                Ok(Val::Bool(true))
            } else {
                match eval_model(*b, env) {
                    Ok(vb) => Ok(Val::Bool(truthy_val(vb))),
                    Err(er) => Err(er),
                }
            },
            Err(er) => Err(er),
        },
        Expr::Bin(op, a, b) => match eval_model(*a, env) {
            Ok(va) => match eval_model(*b, env) {
                Ok(vb) => bin_model(op, va, vb),
                Err(er) => Err(er),
            },
            Err(er) => Err(er),
        },
    }
}

/// How an executable evaluation outcome matches the model's.
pub open spec fn matches_eval(
    r: Result<Value, ExpressionError>,
    m: Result<Val, ExpressionError>,
) -> bool {
    match (r, m) {
        (Ok(v), Ok(w)) => v@ == w,
        (Err(a), Err(b)) => a == b,
        _ => false,
    }
}

/// The text a scalar value contributes, executable form.
pub fn text_of(v: &Value) -> (r: Option<String>)
    ensures
        match r {
            Some(s) => has_text(v@) && s@ == val_text(v@),
            None => !has_text(v@),
        },
{
    match v {
        Value::Null => Some(String::new()),
        Value::Bool(b) => if *b {
            Some("true".to_owned())
        } else {
            Some("false".to_owned())
        },
        Value::Int(i) => Some(i64_dec(*i)),
        Value::Dec(s) => Some(s.clone()),
        Value::Str(s) => Some(s.clone()),
        Value::Arr(_) => None,
        Value::Obj(_) => None,
    }
}

/// Looks a field name up in an object's entries; the most recently
/// added entry wins.
#[verifier::loop_isolation(false)]
fn obj_lookup(entries: &Vec<(String, Value)>, name: &str) -> (r: Option<Value>)
    ensures
        match (r, lookup_model(pairs_view(entries@), name@)) {
            (Some(v), Some(m)) => v@ == m,
            (None, None) => true,
            _ => false,
        },
{
    let ghost m = pairs_view(entries@);
    let mut i: usize = entries.len();
    proof {
        assert(m.take(entries@.len() as int) =~= m);
    }
    loop
        invariant
            i <= entries@.len(),
            lookup_model(m.take(i as int), name@) == lookup_model(m, name@),
        decreases i,
    {
        if i == 0 {
            proof {
                assert(m.take(0) =~= Seq::<(Seq<char>, Val)>::empty());
            }
            return None;
        }
        i = i - 1;
        proof {
            assert(m.take(i as int + 1).drop_last() =~= m.take(i as int));
            assert(m.take(i as int + 1).last() == m[i as int]);
        }
        if str_eq(entries[i].0.as_str(), name) {
            return Some(entries[i].1.clone());
        }
    }
}

/// Descends a path from a value, executable form.
#[verifier::loop_isolation(false)]
fn get_path(v: &Value, path: &Vec<PathSeg>, from: usize) -> (r: Value)
    requires
        from <= path@.len(),
    ensures
        r@ == path_get(v@, path@.skip(from as int)),
    decreases path@.len() - from,
{
    if from == path.len() {
        proof {
            assert(path@.skip(from as int) =~= Seq::<PathSeg>::empty());
        }
        return v.clone();
    }
    proof {
        assert(path@.skip(from as int)[0] == path@[from as int]);
        assert(path@.skip(from as int).drop_first() =~= path@.skip(from as int + 1));
    }
    let step: Value = match (&path[from], v) {
        (PathSeg::Name(n), Value::Obj(entries)) => {
            proof {
                assert(v@->Obj_0 =~= pairs_view(entries@));
            }
            match obj_lookup(entries, n.as_str()) {
                Some(w) => w,
                None => Value::Null,
            }
        },
        (PathSeg::Idx(i), Value::Arr(items)) => {
            if *i < items.len() {
                items[*i].clone()
            } else {
                Value::Null
            }
        },
        _ => Value::Null,
    };
    get_path(&step, path, from + 1)
}

/// Evaluates an expression against an environment; the result is exactly
/// what the model assigns.
pub fn eval(e: &Expr, env: &Env) -> (r: Result<Value, ExpressionError>)
    ensures
        matches_eval(r, eval_model(*e, env@)),
    decreases e,
{
    match e {
        Expr::Lit(v) => Ok(v.clone()),
        Expr::Var(name, path) => {
            let base = match env.get(name.as_str()) {
                Some(v) => v,
                None => Value::Null,
            };
            proof {
                assert(path@.skip(0) =~= path@);
            }
            Ok(get_path(&base, path, 0))
        },
        Expr::Not(inner) => match eval(inner, env) {
            Ok(v) => Ok(Value::Bool(!v.truthy())),
            Err(er) => Err(er),
        },
        Expr::Paren(inner) => eval(inner, env),
        Expr::Neg(inner) => match eval(inner, env) {
            Ok(Value::Int(i)) => if i == i64::MIN {
                Err(ExpressionError::Overflow)
            } else {
                Ok(Value::Int(-i))
            },
            Ok(_) => Err(ExpressionError::TypeMismatch),
            Err(er) => Err(er),
        },
        Expr::Bin(BinOp::And, a, b) => match eval(a, env) {
            Ok(va) => if !va.truthy() {
                Ok(Value::Bool(false))
            } else {
                match eval(b, env) {
                    Ok(vb) => Ok(Value::Bool(vb.truthy())),
                    Err(er) => Err(er),
                }
            },
            Err(er) => Err(er),
        },
        Expr::Bin(BinOp::Or, a, b) => match eval(a, env) {
            Ok(va) => if va.truthy() {
                Ok(Value::Bool(true))
            } else {
                match eval(b, env) {
                    Ok(vb) => Ok(Value::Bool(vb.truthy())),
                    Err(er) => Err(er),
                }
            },
            Err(er) => Err(er),
        },
        Expr::Bin(op, a, b) => match eval(a, env) {
            Ok(va) => match eval(b, env) {
                Ok(vb) => bin_exec(*op, &va, &vb),
                Err(er) => Err(er),
            },
            Err(er) => Err(er),
        },
    }
}

/// One binary operator on evaluated operands, executable form.
fn bin_exec(op: BinOp, a: &Value, b: &Value) -> (r: Result<Value, ExpressionError>)
    requires
        op != BinOp::And,
        op != BinOp::Or,
    ensures
        matches_eval(r, bin_model(op, a@, b@)),
{
    match op {
        BinOp::Add => {
            let a_is_str = matches!(a, Value::Str(_));
            let b_is_str = matches!(b, Value::Str(_));
            if a_is_str || b_is_str {
                match (text_of(a), text_of(b)) {
                    (Some(x), Some(y)) => Ok(Value::Str(x.concat(y.as_str()))),
                    _ => Err(ExpressionError::TypeMismatch),
                }
            } else {
                match (a, b) {
                    (Value::Int(x), Value::Int(y)) => match x.checked_add(*y) {
                        Some(z) => Ok(Value::Int(z)),
                        None => Err(ExpressionError::Overflow),
                    },
                    _ => Err(ExpressionError::TypeMismatch),
                }
            }
        },
        BinOp::Sub => match (a, b) {
            (Value::Int(x), Value::Int(y)) => match x.checked_sub(*y) {
                Some(z) => Ok(Value::Int(z)),
                None => Err(ExpressionError::Overflow),
            },
            _ => Err(ExpressionError::TypeMismatch),
        },
        BinOp::Mul => match (a, b) {
            (Value::Int(x), Value::Int(y)) => match x.checked_mul(*y) {
                Some(z) => Ok(Value::Int(z)),
                None => Err(ExpressionError::Overflow),
            },
            _ => Err(ExpressionError::TypeMismatch),
        },
        BinOp::Div => match (a, b) {
            (Value::Int(x), Value::Int(y)) => {
                if *y == 0 {
                    Err(ExpressionError::DivideByZero)
                } else {
                    match x.checked_div(*y) {
                        Some(z) => Ok(Value::Int(z)),
                        None => Err(ExpressionError::Overflow),
                    }
                }
            },
            _ => Err(ExpressionError::TypeMismatch),
        },
        BinOp::Mod => match (a, b) {
            (Value::Int(x), Value::Int(y)) => {
                if *y == 0 {
                    Err(ExpressionError::DivideByZero)
                } else {
                    match x.checked_rem(*y) {
                        Some(z) => Ok(Value::Int(z)),
                        None => Err(ExpressionError::Overflow),
                    }
                }
            },
            _ => Err(ExpressionError::TypeMismatch),
        },
        BinOp::Eq | BinOp::Ne => {
            let arr_or_obj = matches!(a, Value::Arr(_) | Value::Obj(_)) || matches!(
                b,
                Value::Arr(_) | Value::Obj(_),
            );
            if arr_or_obj {
                Err(ExpressionError::TypeMismatch)
            } else {
                let same = scalar_eq_exec(a, b);
                if matches!(op, BinOp::Eq) {
                    Ok(Value::Bool(same))
                } else {
                    Ok(Value::Bool(!same))
                }
            }
        },
        BinOp::Lt | BinOp::Le | BinOp::Gt | BinOp::Ge => {
            if matches!(a, Value::Null) || matches!(b, Value::Null) {
                Ok(Value::Bool(false))
            } else {
                match (a, b) {
                    (Value::Int(x), Value::Int(y)) => {
                        let c = match op {
                            BinOp::Lt => *x < *y,
                            BinOp::Le => *x <= *y,
                            BinOp::Gt => *x > *y,
                            _ => *x >= *y,
                        };
                        Ok(Value::Bool(c))
                    },
                    _ => Err(ExpressionError::TypeMismatch),
                }
            }
        },
        _ => Err(ExpressionError::TypeMismatch),
    }
}

/// Shallow scalar equality, executable form.
fn scalar_eq_exec(a: &Value, b: &Value) -> (r: bool)
    requires
        !(a@ matches Val::Arr(_)),
        !(a@ matches Val::Obj(_)),
        !(b@ matches Val::Arr(_)),
        !(b@ matches Val::Obj(_)),
    ensures
        r == scalar_eq(a@, b@),
{
    match (a, b) {
        (Value::Null, Value::Null) => true,
        (Value::Bool(x), Value::Bool(y)) => *x == *y,
        (Value::Int(x), Value::Int(y)) => *x == *y,
        (Value::Dec(x), Value::Dec(y)) => str_eq(x.as_str(), y.as_str()),
        (Value::Str(x), Value::Str(y)) => str_eq(x.as_str(), y.as_str()),
        _ => false,
    }
}

} // verus!
