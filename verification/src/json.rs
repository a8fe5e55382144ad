//! A JSON document: one value tree held behind the classic
//! `new` / `decode` / `encode` interface.

use vstd::prelude::*;
use crate::decode::decode_text;
use crate::decode::spec_decode;
use crate::decode::MAX_DEPTH;
use crate::encode::enc;
use crate::encode::encode_text;
use crate::errors::ParseError;
use crate::value::obj_model;
use crate::value::JVal;
use crate::value::Value;

verus! {

/// A JSON document. It starts out as an empty object and is replaced by
/// whatever `decode` parses; `encode` renders it back to text.
pub struct Json {
    /// The document's value tree.
    pub root: Value,
}

impl View for Json {
    type V = JVal;

    open spec fn view(&self) -> JVal {
        self.root@
    }
}

impl Json {
    /// An empty document: an object with no members.
    pub fn new() -> (r: Json)
        ensures
            r@ == JVal::Obj(Seq::<(Seq<char>, JVal)>::empty()),
    {
        let r = Json { root: Value::Obj(Vec::new()) };
        proof {
            assert(r.root@->Obj_0 =~= Seq::<(Seq<char>, JVal)>::empty());
        }
        r
    }

    /// Wraps an already built value tree.
    pub fn from_value(v: Value) -> (r: Json)
        ensures
            r@ == v@,
    {
        Json { root: v }
    }

    /// The document's value tree.
    pub fn value(&self) -> (r: &Value)
        ensures
            r@ == self@,
    {
        &self.root
    }

    /// Replaces the document by the value tree that `text` holds. On failure
    /// the error says what went wrong and at which character offset, and the
    /// document is left as it was.
    pub fn decode(&mut self, text: &str) -> (res: Result<(), ParseError>)
        ensures
            match res {
                Ok(_) => spec_decode(text@, MAX_DEPTH as int) matches Ok(jv) && final(self)@
                    == jv,
                Err(e) => spec_decode(text@, MAX_DEPTH as int) == Err::<JVal, ParseError>(e)
                    && final(self)@ == old(self)@,
            },
    {
        match decode_text(text) {
            Ok(v) => {
                self.root = v;
                Ok(())
            },
            Err(e) => Err(e),
        }
    }

    /// The document as text: compact for `indent` 0, pretty-printed with
    /// `indent` spaces per nesting level otherwise.
    pub fn encode(&self, indent: usize) -> (r: String)
        ensures
            r@ == enc(self@, indent as nat, Seq::<char>::empty()),
    {
        encode_text(&self.root, indent)
    }

    /// The keys of the document's top-level object, in insertion order, or
    /// nothing when the document is not an object.
    #[verifier::loop_isolation(false)]
    pub fn get_keys(&self) -> (r: Vec<String>)
        ensures
            match self@ {
                JVal::Obj(ms) => r@.len() == ms.len() && forall|q: int|
                    0 <= q < ms.len() ==> r@[q]@ == ms[q].0,
                _ => r@.len() == 0,
            },
    {
        match &self.root {
            Value::Obj(ms) => {
                let mut r: Vec<String> = Vec::new();
                let n = ms.len();
                let mut w: usize = 0;
                while w < n
                    invariant
                        w <= n,
                        n == ms@.len(),
                        r@.len() == w,
                        forall|q: int| 0 <= q < w ==> r@[q]@ == obj_model(*ms)[q].0,
                    decreases n - w,
                {
                    r.push(ms[w].0.clone());
                    w = w + 1;
                }
                r
            },
            _ => Vec::new(),
        }
    }

    /// The values of the document's top-level object, in insertion order, or
    /// nothing when the document is not an object.
    #[verifier::loop_isolation(false)]
    pub fn get_values(&self) -> (r: Vec<Value>)
        ensures
            match self@ {
                JVal::Obj(ms) => r@.len() == ms.len() && forall|q: int|
                    0 <= q < ms.len() ==> r@[q]@ == ms[q].1,
                _ => r@.len() == 0,
            },
    {
        match &self.root {
            Value::Obj(ms) => {
                let mut r: Vec<Value> = Vec::new();
                let n = ms.len();
                let mut w: usize = 0;
                while w < n
                    invariant
                        w <= n,
                        n == ms@.len(),
                        r@.len() == w,
                        forall|q: int| 0 <= q < w ==> r@[q]@ == obj_model(*ms)[q].1,
                    decreases n - w,
                {
                    let entry = &ms[w];
                    r.push(entry.1.deep_clone());
                    w = w + 1;
                }
                r
            },
            _ => Vec::new(),
        }
    }
}

} // verus!
