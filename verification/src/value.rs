//! Dynamically typed parameter values and the parameter environment.
use vstd::prelude::*;

verus! {

broadcast use vstd::std_specs::vec::axiom_vec_index_decreases, vstd::std_specs::vec::axiom_vec_decreases_to_view, vstd::seq::axiom_seq_index_decreases;

/// The mathematical model of a parameter value.
pub enum Val {
    Null,
    Bool(bool),
    Int(int),
    Dec(Seq<char>),
    Str(Seq<char>),
    Arr(Seq<Val>),
    Obj(Seq<(Seq<char>, Val)>),
}

/// A dynamically typed value: the shapes a parameter environment can hold.
#[derive(Debug)]
pub enum Value {
    Null,
    Bool(bool),
    Int(i64),
    Dec(String),
    Str(String),
    Arr(Vec<Value>),
    Obj(Vec<(String, Value)>),
}

/// The model of one exec-level value.
pub open spec fn val_view(v: Value) -> Val
    decreases v,
    via val_view_decreases
{
    match v {
        Value::Null => Val::Null,
        Value::Bool(b) => Val::Bool(b),
        Value::Int(i) => Val::Int(i as int),
        Value::Dec(s) => Val::Dec(s@),
        Value::Str(s) => Val::Str(s@),
        Value::Arr(items) => Val::Arr(
            Seq::new(
                items@.len(),
                |i: int|
                    if 0 <= i < items@.len() {
                        val_view(items@[i])
                    } else {
                        Val::Null
                    },
            ),
        ),
        Value::Obj(items) => Val::Obj(
            Seq::new(
                items@.len(),
                |i: int|
                    if 0 <= i < items@.len() {
                        (items@[i].0@, val_view(items@[i].1))
                    } else {
                        (Seq::empty(), Val::Null)
                    },
            ),
        ),
    }
}

#[via_fn]
proof fn val_view_decreases(v: Value) {
    match v {
        Value::Arr(items) => {
            assert forall|i: int| 0 <= i < items@.len() implies decreases_to!(v => items@[i]) by {
                assert(decreases_to!(items => items@));
                assert(decreases_to!(items@ => items@[i]));
            }
        },
        Value::Obj(items) => {
            assert forall|i: int|
                0 <= i < items@.len() implies decreases_to!(v => items@[i].1) by {
                assert(decreases_to!(items => items@));
                assert(decreases_to!(items@ => items@[i]));
            }
        },
        _ => {},
    }
}

impl View for Value {
    type V = Val;

    open spec fn view(&self) -> Val {
        val_view(*self)
    }
}

impl Clone for Value {
    /// A deep copy whose model equals the original's.
    #[verifier::loop_isolation(false)]
    fn clone(&self) -> (res: Self)
        ensures
            res@ == self@,
        decreases self,
    {
        match self {
            Value::Null => Value::Null,
            Value::Bool(b) => Value::Bool(*b),
            Value::Int(i) => Value::Int(*i),
            Value::Dec(s) => Value::Dec(s.clone()),
            Value::Str(s) => Value::Str(s.clone()),
            Value::Arr(v) => {
                let mut out: Vec<Value> = Vec::new();
                let mut i: usize = 0;
                while i < v.len()
                    invariant
                        i <= v@.len(),
                        out@.len() == i,
                        forall|j: int| 0 <= j < i ==> out@[j]@ == v@[j]@,
                    decreases v@.len() - i,
                {
                    proof {
                        assert(*self == Value::Arr(*v));
                        assert(decreases_to!(Value::Arr(*v) => *v));
                        assert(decreases_to!(*v => v@));
                        assert(decreases_to!(v@ => v@[i as int]));
                    }
                    out.push(v[i].clone());
                    i = i + 1;
                }
                let r = Value::Arr(out);
                assert(r@ matches Val::Arr(s) && s =~= self@->Arr_0);
                r
            },
            Value::Obj(v) => {
                let mut out: Vec<(String, Value)> = Vec::new();
                let mut i: usize = 0;
                while i < v.len()
                    invariant
                        i <= v@.len(),
                        out@.len() == i,
                        forall|j: int|
                            0 <= j < i ==> out@[j].0@ == v@[j].0@ && out@[j].1@ == v@[j].1@,
                    decreases v@.len() - i,
                {
                    proof {
                        assert(*self == Value::Obj(*v));
                        assert(decreases_to!(Value::Obj(*v) => *v));
                        assert(decreases_to!(*v => v@));
                        assert(decreases_to!(v@ => v@[i as int]));
                    }
                    out.push((v[i].0.clone(), v[i].1.clone()));
                    i = i + 1;
                }
                let r = Value::Obj(out);
                assert(r@ matches Val::Obj(s) && s =~= self@->Obj_0);
                r
            },
        }
    }
}

impl Value {
    /// Truthiness: false, null, zero, and empty strings/sequences are
    /// falsy. A decimal is zero when its text holds no nonzero digit.
    pub open spec fn spec_truthy(self) -> bool {
        match self@ {
            Val::Null => false,
            Val::Bool(b) => b,
            Val::Int(i) => i != 0,
            Val::Dec(s) => dec_nonzero(s),
            Val::Str(s) => s.len() != 0,
            Val::Arr(v) => v.len() != 0,
            Val::Obj(_) => true,
        }
    }

    /// Decides truthiness of a value.
    pub fn truthy(&self) -> (r: bool)
        ensures
            r == self.spec_truthy(),
    {
        match self {
            Value::Null => false,
            Value::Bool(b) => *b,
            Value::Int(i) => *i != 0,
            Value::Dec(s) => dec_nonzero_exec(s.as_str()),
            Value::Str(s) => s.as_str().unicode_len() != 0,
            Value::Arr(v) => v.len() != 0,
            Value::Obj(_) => true,
        }
    }
}

/// Whether a decimal literal's text names a nonzero number: some digit
/// other than zero occurs.
pub open spec fn dec_nonzero(s: Seq<char>) -> bool {
    exists|i: int| 0 <= i < s.len() && 49 <= (#[trigger] s[i]) as u32 <= 57
}

/// Decides whether a decimal's text holds a nonzero digit.
#[verifier::loop_isolation(false)]
pub fn dec_nonzero_exec(s: &str) -> (r: bool)
    ensures
        r == dec_nonzero(s@),
{
    let n = s.unicode_len();
    let mut i: usize = 0;
    while i < n
        invariant
            i <= s@.len(),
            forall|j: int| 0 <= j < i ==> !(49 <= (#[trigger] s@[j]) as u32 <= 57),
        decreases n - i,
    {
        let u = s.get_char(i) as u32;
        if 49 <= u && u <= 57 {
            return true;
        }
        i = i + 1;
    }
    false
}

/// What a lookup of one name in an ordered entry list yields: the value of
/// the last (most recently added) entry carrying that name.
pub open spec fn lookup_model(entries: Seq<(Seq<char>, Val)>, name: Seq<char>) -> Option<Val>
    decreases entries.len(),
{
    if entries.len() == 0 {
        None
    } else if entries.last().0 == name {
        Some(entries.last().1)
    } else {
        lookup_model(entries.drop_last(), name)
    }
}

/// The model of an ordered list of name/value pairs.
pub open spec fn pairs_view(s: Seq<(String, Value)>) -> Seq<(Seq<char>, Val)> {
    Seq::new(s.len(), |i: int| (s[i].0@, s[i].1@))
}

/// A request-scoped parameter environment: an ordered mapping where entries
/// added later shadow earlier entries of the same name.
#[derive(Debug)]
pub struct Env {
    pub entries: Vec<(String, Value)>,
}

impl View for Env {
    type V = Seq<(Seq<char>, Val)>;

    open spec fn view(&self) -> Seq<(Seq<char>, Val)> {
        pairs_view(self.entries@)
    }
}

impl Clone for Env {
    /// A deep copy whose model equals the original's.
    fn clone(&self) -> (res: Self)
        ensures
            res@ == self@,
    {
        let mut out: Vec<(String, Value)> = Vec::new();
        let mut i: usize = 0;
        while i < self.entries.len()
            invariant
                i <= self.entries@.len(),
                out@.len() == i,
                forall|j: int|
                    0 <= j < i ==> out@[j].0@ == self.entries@[j].0@ && out@[j].1@
                        == self.entries@[j].1@,
            decreases self.entries@.len() - i,
        {
            out.push((self.entries[i].0.clone(), self.entries[i].1.clone()));
            i = i + 1;
        }
        let r = Env { entries: out };
        assert(r@ =~= self@);
        r
    }
}

impl Env {
    pub open spec fn spec_get(self, name: Seq<char>) -> Option<Val> {
        lookup_model(self@, name)
    }

    /// An empty environment: every lookup yields `None`.
    pub fn new() -> (r: Env)
        ensures
            r@ =~= Seq::<(Seq<char>, Val)>::empty(),
    {
        Env { entries: Vec::new() }
    }

    /// Adds a binding, shadowing any earlier entry of the same name.
    pub fn bind(&mut self, name: String, v: Value)
        ensures
            final(self)@ =~= old(self)@.push((name@, v@)),
    {
        self.entries.push((name, v));
    }

    /// Looks a plain name up; the most recently bound entry wins.
    #[verifier::loop_isolation(false)]
    pub fn get(&self, name: &str) -> (r: Option<Value>)
        ensures
            match (r, self.spec_get(name@)) {
                (Some(v), Some(m)) => v@ == m,
                (None, None) => true,
                _ => false,
            },
    {
        let mut i: usize = self.entries.len();
        proof {
            assert(self@.take(self.entries@.len() as int) =~= self@);
        }
        loop
            invariant
                i <= self.entries@.len(),
                lookup_model(self@.take(i as int), name@) == lookup_model(self@, name@),
            decreases i,
        {
            if i == 0 {
                assert(self@.take(0) =~= Seq::<(Seq<char>, Val)>::empty());
                return None;
            }
            i = i - 1;
            proof {
                assert(self@.take(i as int + 1).drop_last() =~= self@.take(i as int));
                assert(self@.take(i as int + 1).last() == self@[i as int]);
            }
            if crate::text::str_eq(self.entries[i].0.as_str(), name) {
                return Some(self.entries[i].1.clone());
            }
        }
    }
}

} // verus!
