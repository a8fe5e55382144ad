//! The JSON value model: an executable tree type `Value` and its mathematical
//! counterpart `JVal` used in contracts.

use vstd::prelude::*;

verus! {

broadcast use vstd::std_specs::vec::axiom_vec_index_decreases;

/// Mathematical model of a JSON value: the view of a [`Value`] tree. Strings
/// (and number tokens) are sequences of characters, arrays are sequences of
/// models, objects are sequences of key/model pairs in insertion order.
#[verifier::ext_equal]
pub enum JVal {
    Null,
    Bool(bool),
    Num(Seq<char>),
    Str(Seq<char>),
    Arr(Seq<JVal>),
    Obj(Seq<(Seq<char>, JVal)>),
}

/// A JSON value tree. Numbers are held exactly, as their decimal token (for
/// example `-12.5e3`), so nothing is lost between decoding and encoding.
/// Object entries keep insertion order; the decoder keeps keys unique by
/// letting the last occurrence of a duplicate key win.
#[derive(Debug, PartialEq, Eq)]
pub enum Value {
    Null,
    Bool(bool),
    Num(String),
    Str(String),
    Arr(Vec<Value>),
    Obj(Vec<(String, Value)>),
}

impl Value {
    /// The mathematical model of this value.
    pub open spec fn model(self) -> JVal
        decreases self,
    {
        match self {
            Value::Null => JVal::Null,
            Value::Bool(b) => JVal::Bool(b),
            Value::Num(t) => JVal::Num(t@),
            Value::Str(t) => JVal::Str(t@),
            Value::Arr(es) => JVal::Arr(arr_model(es)),
            Value::Obj(ms) => JVal::Obj(obj_model(ms)),
        }
    }
}

/// The models of the elements of an array, in order.
pub open spec fn arr_model(es: Vec<Value>) -> Seq<JVal>
    decreases es,
{
    Seq::new(
        es@.len(),
        |k: int|
            if 0 <= k < es@.len() {
                es[k].model()
            } else {
                JVal::Null
            },
    )
}

/// The models of the members of an object, in insertion order.
pub open spec fn obj_model(ms: Vec<(String, Value)>) -> Seq<(Seq<char>, JVal)>
    decreases ms,
{
    Seq::new(
        ms@.len(),
        |k: int|
            if 0 <= k < ms@.len() {
                (ms[k].0@, ms[k].1.model())
            } else {
                (Seq::empty(), JVal::Null)
            },
    )
}

impl View for Value {
    type V = JVal;

    open spec fn view(&self) -> JVal {
        (*self).model()
    }
}

impl JVal {
    /// A well-formed model: every number token obeys the JSON number grammar
    /// and every object has pairwise distinct keys. The decoder only produces
    /// well-formed models, and round-tripping is stated for them.
    pub open spec fn wf(self) -> bool
        decreases self,
    {
        match self {
            JVal::Null => true,
            JVal::Bool(_) => true,
            JVal::Num(t) => crate::decode::is_number_token(t),
            JVal::Str(_) => true,
            JVal::Arr(es) => forall|k: int| 0 <= k < es.len() ==> (#[trigger] es[k]).wf(),
            JVal::Obj(ms) => {
                &&& forall|k: int| 0 <= k < ms.len() ==> (#[trigger] ms[k]).1.wf()
                &&& forall|k1: int, k2: int|
                    0 <= k1 < k2 < ms.len() ==> ms[k1].0 != ms[k2].0
            },
        }
    }

    /// Whether the value nests no deeper than `d` levels of arrays and
    /// objects. Decoding with depth budget `d` can only yield such values.
    pub open spec fn fits(self, d: int) -> bool
        decreases self,
    {
        match self {
            JVal::Arr(es) => d >= 1 && forall|k: int|
                0 <= k < es.len() ==> (#[trigger] es[k]).fits(d - 1),
            JVal::Obj(ms) => d >= 1 && forall|k: int|
                0 <= k < ms.len() ==> (#[trigger] ms[k]).1.fits(d - 1),
            _ => true,
        }
    }
}

/// Returned by the typed accessors on [`Value`] when the value does not hold
/// the variant the caller asked for.
#[derive(Clone, Copy, Debug, PartialEq, Eq, Structural)]
pub struct TypeMismatch;

impl Value {
    /// The boolean payload, or `TypeMismatch` for any other variant.
    pub fn as_bool(&self) -> (r: Result<bool, TypeMismatch>)
        ensures
            match self@ {
                JVal::Bool(b) => r == Ok::<bool, TypeMismatch>(b),
                _ => r == Err::<bool, TypeMismatch>(TypeMismatch),
            },
    {
        match self {
            Value::Bool(b) => Ok(*b),
            _ => Err(TypeMismatch),
        }
    }

    /// Whether the value is `null`.
    pub fn is_null(&self) -> (r: bool)
        ensures
            r == (self@ == JVal::Null),
    {
        match self {
            Value::Null => true,
            _ => false,
        }
    }

    /// The string payload, or `TypeMismatch` for any other variant.
    pub fn as_str(&self) -> (r: Result<&String, TypeMismatch>)
        ensures
            match self@ {
                JVal::Str(cs) => r matches Ok(t) && t@ == cs,
                _ => r matches Err(_),
            },
    {
        match self {
            Value::Str(t) => Ok(t),
            _ => Err(TypeMismatch),
        }
    }

    /// The number's decimal token, or `TypeMismatch` for any other variant.
    pub fn as_number(&self) -> (r: Result<&String, TypeMismatch>)
        ensures
            match self@ {
                JVal::Num(t) => r matches Ok(n) && n@ == t,
                _ => r matches Err(_),
            },
    {
        match self {
            Value::Num(t) => Ok(t),
            _ => Err(TypeMismatch),
        }
    }

    /// The elements of an array, or `TypeMismatch` for any other variant.
    pub fn as_array(&self) -> (r: Result<&Vec<Value>, TypeMismatch>)
        ensures
            match self@ {
                JVal::Arr(vs) => r matches Ok(es) && arr_model(*es) == vs,
                _ => r matches Err(_),
            },
    {
        match self {
            Value::Arr(es) => Ok(es),
            _ => Err(TypeMismatch),
        }
    }

    /// The members of an object, or `TypeMismatch` for any other variant.
    pub fn as_object(&self) -> (r: Result<&Vec<(String, Value)>, TypeMismatch>)
        ensures
            match self@ {
                JVal::Obj(vs) => r matches Ok(ms) && obj_model(*ms) == vs,
                _ => r matches Err(_),
            },
    {
        match self {
            Value::Obj(ms) => Ok(ms),
            _ => Err(TypeMismatch),
        }
    }
}


impl Value {
    /// A structurally equal copy of this value.
    #[verifier::loop_isolation(false)]
    pub fn deep_clone(&self) -> (r: Value)
        ensures
            r@ == self@,
        decreases self,
    {
        match self {
            Value::Null => Value::Null,
            Value::Bool(b) => Value::Bool(*b),
            Value::Num(t) => Value::Num(t.clone()),
            Value::Str(t) => Value::Str(t.clone()),
            Value::Arr(es) => {
                let mut out: Vec<Value> = Vec::new();
                let n = es.len();
                let mut w: usize = 0;
                while w < n
                    invariant
                        w <= n,
                        n == es@.len(),
                        out@.len() == w,
                        forall|q: int| 0 <= q < w ==> out@[q]@ == es@[q]@,
                    decreases n - w,
                {
                    proof {
                        vstd::std_specs::vec::axiom_vec_index_decreases(*es, w as int);
                        assert(decreases_to!(*self => *es));
                    }
                    out.push(es[w].deep_clone());
                    w = w + 1;
                }
                let r = Value::Arr(out);
                proof {
                    assert(arr_model(out) =~= arr_model(*es));
                }
                r
            },
            Value::Obj(ms) => {
                let mut out: Vec<(String, Value)> = Vec::new();
                let n = ms.len();
                let mut w: usize = 0;
                while w < n
                    invariant
                        w <= n,
                        n == ms@.len(),
                        out@.len() == w,
                        forall|q: int|
                            0 <= q < w ==> out@[q].0@ == ms@[q].0@ && out@[q].1@ == ms@[q].1@,
                    decreases n - w,
                {
                    proof {
                        vstd::std_specs::vec::axiom_vec_index_decreases(*ms, w as int);
                        assert(decreases_to!(*self => *ms));
                        assert(decreases_to!((*ms)[w as int] => (*ms)[w as int].1));
                    }
                    let entry = &ms[w];
                    out.push((entry.0.clone(), entry.1.deep_clone()));
                    w = w + 1;
                }
                let r = Value::Obj(out);
                proof {
                    assert(obj_model(out) =~= obj_model(*ms));
                }
                r
            },
        }
    }
}

} // verus!

