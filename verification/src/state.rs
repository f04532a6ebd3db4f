//! Server-wide shared state: a string-keyed store of tagged values,
//! read back only at the type that was stored.

use vstd::prelude::*;
use crate::connection::session::Value;
use crate::dict::Dict;

verus! {

/// Global key/value state shared by handlers across requests.
pub struct Context {
    globals: Dict<Value>,
}

impl View for Context {
    type V = Map<Seq<char>, Value>;

    closed spec fn view(&self) -> Map<Seq<char>, Value> {
        self.globals@
    }
}

impl Context {
    /// An empty context.
    pub fn new() -> (c: Context)
        ensures
            c@ == Map::<Seq<char>, Value>::empty(),
    {
        Context { globals: Dict::new() }
    }

    /// Stores `value` under `key`, overwriting any prior value there.
    pub fn add(&mut self, key: String, value: Value)
        ensures
            final(self)@ == old(self)@.insert(key@, value),
    {
        self.globals.insert(key, value);
    }

    /// The value under `key`, when the key is present.
    pub fn get(&self, key: &str) -> (r: Option<&Value>)
        ensures
            match r {
                Some(v) => self@.contains_key(key@) && *v == self@[key@],
                None => !self@.contains_key(key@),
            },
    {
        self.globals.get(key)
    }
}

} // verus!
