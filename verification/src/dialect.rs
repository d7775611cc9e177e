//! The parameter binder: rewrites the renderer's neutral `?` placeholders
//! into the driver dialect's form, left to right, and refuses values the
//! driver's parameter space cannot carry.
use vstd::prelude::*;

use crate::text::dec_str_nat;

use crate::value::Val;
use crate::value::Value;
use crate::render::vals_view;

verus! {

/// The driver dialects and their placeholder syntax.
#[derive(Debug, Clone, Copy, PartialEq, Eq, Structural)]
pub enum DriverType {
    MySQL,
    Postgres,
    SQLite,
    MSSQL,
}

/// Why binding failed.
#[derive(Debug, Clone, Copy, PartialEq, Eq, Structural)]
pub enum BindError {
    UnsupportedValue,
}

/// The dialect's text for the `k`-th placeholder (1-based).
pub open spec fn placeholder(d: DriverType, k: int) -> Seq<char> {
    match d {
        DriverType::MySQL => seq!['?'],
        DriverType::SQLite => seq!['?'],
        DriverType::Postgres => seq!['$'] + dec_str_nat(k),
        DriverType::MSSQL => seq!['@', 'p'] + dec_str_nat(k),
    }
}

/// Rewrites neutral `?` placeholders to dialect form, numbering from `k`.
pub open spec fn rewrite(s: Seq<char>, d: DriverType, k: int) -> Seq<char>
    decreases s.len(),
{
    if s.len() == 0 {
        Seq::empty()
    } else if s[0] == '?' {
        placeholder(d, k) + rewrite(s.drop_first(), d, k + 1)
    } else {
        seq![s[0]] + rewrite(s.drop_first(), d, k)
    }
}

/// How many neutral placeholders a fragment holds.
pub open spec fn count_ph(s: Seq<char>) -> int
    decreases s.len(),
{
    if s.len() == 0 {
        0int
    } else {
        (if s[0] == '?' {
            1int
        } else {
            0int
        }) + count_ph(s.drop_first())
    }
}

/// A value the driver's parameter space can carry.
pub open spec fn is_scalar(v: Val) -> bool {
    !(v matches Val::Arr(_)) && !(v matches Val::Obj(_))
}

/// A query ready for dispatch: dialect-form SQL and its arguments.
#[derive(Debug)]
pub struct BoundQuery {
    pub sql: String,
    pub args: Vec<Value>,
}

/// The dialect text of one placeholder, executable form.
fn ph_exec(d: &DriverType, k: u128) -> (r: Vec<char>)
    requires
        k >= 1,
    ensures
        r@ == placeholder(*d, k as int),
{
    match d {
        DriverType::MySQL => {
            let mut v: Vec<char> = Vec::new();
            v.push('?');
            proof {
                assert(v@ =~= seq!['?']);
            }
            v
        },
        DriverType::SQLite => {
            let mut v: Vec<char> = Vec::new();
            v.push('?');
            proof {
                assert(v@ =~= seq!['?']);
            }
            v
        },
        DriverType::Postgres => {
            let mut v: Vec<char> = Vec::new();
            v.push('$');
            let digits = crate::text::chars_of(crate::text::u128_dec(k).as_str());
            crate::render::push_all(&mut v, &digits);
            proof {
                assert(v@ =~= seq!['$'] + dec_str_nat(k as int));
            }
            v
        },
        DriverType::MSSQL => {
            let mut v: Vec<char> = Vec::new();
            v.push('@');
            v.push('p');
            let digits = crate::text::chars_of(crate::text::u128_dec(k).as_str());
            crate::render::push_all(&mut v, &digits);
            proof {
                assert(v@ =~= seq!['@', 'p'] + dec_str_nat(k as int));
            }
            v
        },
    }
}

/// Rewrites the neutral placeholders of a whole fragment to dialect
/// form, left to right, numbering from 1.
#[verifier::loop_isolation(false)]
pub fn to_dialect(sql: &str, d: &DriverType) -> (r: String)
    ensures
        r@ == rewrite(sql@, *d, 1),
{
    let cs = crate::text::chars_of(sql);
    let n = cs.len();
    let mut out: Vec<char> = Vec::new();
    let mut i: usize = 0;
    let mut k: u128 = 1;
    proof {
        assert(cs@.skip(0) =~= cs@);
    }
    while i < n
        invariant
            i <= n,
            1 <= k <= i + 1,
            rewrite(cs@, *d, 1) == out@ + rewrite(cs@.skip(i as int), *d, k as int),
        decreases n - i,
    {
        proof {
            assert(cs@.skip(i as int)[0] == cs@[i as int]);
            assert(cs@.skip(i as int).drop_first() =~= cs@.skip(i as int + 1));
        }
        if cs[i] == '?' {
            let ph = ph_exec(d, k);
            push_all_local(&mut out, &ph);
            k = k + 1;
        } else {
            out.push(cs[i]);
            proof {
                assert(out@ =~= (out@.drop_last() + seq![cs@[i as int]]));
            }
        }
        i = i + 1;
    }
    proof {
        assert(cs@.skip(n as int) =~= Seq::<char>::empty());
        assert(out@ + Seq::<char>::empty() =~= out@);
    }
    crate::text::string_of(&out)
}

/// Appends all characters of `src`.
fn push_all_local(dst: &mut Vec<char>, src: &Vec<char>)
    ensures
        final(dst)@ == old(dst)@ + src@,
{
    crate::render::push_all(dst, src);
}

/// Binds an argument list for dispatch under a dialect: checks every
/// value is scalar and rewrites the placeholders. This mirrors building
/// a driver query and binding each value into it.
#[verifier::loop_isolation(false)]
pub fn bind_arg(driver_type: &DriverType, sql: &str, arg: &Vec<Value>) -> (r: Result<
    BoundQuery,
    BindError,
>)
    ensures
        match r {
            Ok(q) => (forall|i: int| 0 <= i < arg@.len() ==> is_scalar(arg@[i]@)) && q.sql@
                == rewrite(sql@, *driver_type, 1) && vals_view(q.args@) == vals_view(arg@),
            Err(e) => e == BindError::UnsupportedValue && !(forall|i: int|
                0 <= i < arg@.len() ==> is_scalar(arg@[i]@)),
        },
{
    let mut args: Vec<Value> = Vec::new();
    let mut i: usize = 0;
    while i < arg.len()
        invariant
            i <= arg@.len(),
            args@.len() == i,
            forall|j: int| 0 <= j < i ==> args@[j]@ == arg@[j]@,
            forall|j: int| 0 <= j < i ==> is_scalar(arg@[j]@),
        decreases arg@.len() - i,
    {
        match &arg[i] {
            Value::Arr(_) => {
                return Err(BindError::UnsupportedValue);
            },
            Value::Obj(_) => {
                return Err(BindError::UnsupportedValue);
            },
            _ => {},
        }
        args.push(arg[i].clone());
        i = i + 1;
    }
    let sql2 = to_dialect(sql, driver_type);
    proof {
        assert(vals_view(args@) =~= vals_view(arg@));
    }
    Ok(BoundQuery { sql: sql2, args })
}

} // verus!
