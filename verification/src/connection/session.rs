//! Per-client sessions: tagged values with checked downcasts, a key/value
//! session, and the store that issues session identifiers.

use vstd::prelude::*;
use crate::dict::Dict;

verus! {

/// A value a handler may keep in a session: a tagged variant with checked
/// downcasts, so that reading a key at the wrong type yields nothing
/// rather than a misread value.
#[derive(Debug, Clone, PartialEq, Eq)]
pub enum Value {
    Int(i64),
    Str(String),
    Bool(bool),
}

/// The integer behind a value, when it holds one.
pub open spec fn spec_as_int(v: Value) -> Option<i64> {
    match v {
        Value::Int(n) => Some(n),
        _ => None,
    }
}

/// The string behind a value, when it holds one.
pub open spec fn spec_as_str(v: Value) -> Option<String> {
    match v {
        Value::Str(s) => Some(s),
        _ => None,
    }
}

/// The boolean behind a value, when it holds one.
pub open spec fn spec_as_bool(v: Value) -> Option<bool> {
    match v {
        Value::Bool(b) => Some(b),
        _ => None,
    }
}

impl Value {
    /// Checked downcast to an integer.
    pub fn as_int(&self) -> (r: Option<i64>)
        ensures
            r == spec_as_int(*self),
    {
        match self {
            Value::Int(n) => Some(*n),
            _ => None,
        }
    }

    /// Checked downcast to a string.
    pub fn as_str(&self) -> (r: Option<&String>)
        ensures
            match r {
                Some(s) => spec_as_str(*self) == Some(*s),
                None => spec_as_str(*self) is None,
            },
    {
        match self {
            Value::Str(s) => Some(s),
            _ => None,
        }
    }

    /// Checked downcast to a boolean.
    pub fn as_bool(&self) -> (r: Option<bool>)
        ensures
            r == spec_as_bool(*self),
    {
        match self {
            Value::Bool(b) => Some(*b),
            _ => None,
        }
    }
}

/// A single client's key/value state, mutated by handlers and kept by the
/// store across requests under the same identifier.
pub struct Session {
    data: Dict<Value>,
}

impl View for Session {
    type V = Map<Seq<char>, Value>;

    closed spec fn view(&self) -> Map<Seq<char>, Value> {
        self.data@
    }
}

impl Session {
    /// An empty session.
    pub fn new() -> (s: Session)
        ensures
            s@ == Map::<Seq<char>, Value>::empty(),
    {
        Session { data: Dict::new() }
    }

    /// Stores `value` under `key`, overwriting any prior value there,
    /// whatever variant it held.
    pub fn add(&mut self, key: String, value: Value)
        ensures
            final(self)@ == old(self)@.insert(key@, value),
    {
        self.data.insert(key, value);
    }

    /// The value under `key`, when the key is present.
    pub fn get(&self, key: &str) -> (r: Option<&Value>)
        ensures
            match r {
                Some(v) => self@.contains_key(key@) && *v == self@[key@],
                None => !self@.contains_key(key@),
            },
    {
        self.data.get(key)
    }
}

/// The session store: sessions live at the identifier they were issued,
/// identifiers are consecutive integers starting at zero, and none is
/// ever reused.
pub struct Sessions {
    sessions: Vec<Session>,
}

impl View for Sessions {
    type V = Seq<Session>;

    closed spec fn view(&self) -> Seq<Session> {
        self.sessions@
    }
}

/// The identifier the dispatcher resolves a request to: a requested
/// identifier that names an issued session is kept; a missing or unknown
/// one is replaced by the next fresh identifier.
pub open spec fn spec_resolve_sid(count: nat, requested: Option<usize>) -> nat {
    match requested {
        Some(id) => if id < count {
            id as nat
        } else {
            count
        },
        None => count,
    }
}

impl Sessions {
    /// An empty store; the first identifier issued will be zero.
    pub fn new() -> (s: Sessions)
        ensures
            s@ == Seq::<Session>::empty(),
    {
        Sessions { sessions: Vec::new() }
    }

    /// Whether `id` has been issued.
    pub fn contains(&self, id: &usize) -> (r: bool)
        ensures
            r == (*id < self@.len()),
    {
        *id < self.sessions.len()
    }

    /// Issues the next identifier, with an empty session under it. The
    /// result is strictly greater than every identifier issued before.
    pub fn add(&mut self) -> (id: usize)
        ensures
            id == old(self)@.len(),
            final(self)@.len() == old(self)@.len() + 1,
            forall|j: int| 0 <= j < old(self)@.len() ==> final(self)@[j] == old(self)@[j],
            final(self)@[id as int]@ == Map::<Seq<char>, Value>::empty(),
    {
        let id = self.sessions.len();
        self.sessions.push(Session::new());
        id
    }

    /// The session issued under `id`; callers check `contains` first.
    pub fn get(&mut self, key: usize) -> (session: &mut Session)
        requires
            key < old(self)@.len(),
        ensures
            *session == old(self)@[key as int],
            final(self)@ == old(self)@.update(key as int, *final(session)),
    {
        &mut self.sessions[key]
    }

    /// Resolves a request's claimed identifier as the dispatcher does:
    /// reuse it when it names an issued session, else issue a fresh one.
    pub fn resolve(&mut self, requested: Option<usize>) -> (id: usize)
        ensures
            id as nat == spec_resolve_sid(old(self)@.len(), requested),
            id < final(self)@.len(),
            (id as nat) < old(self)@.len() ==> final(self)@ == old(self)@,
            id as nat == old(self)@.len() ==> final(self)@.len() == old(self)@.len() + 1
                && (forall|j: int| 0 <= j < old(self)@.len() ==> final(self)@[j] == old(self)@[j])
                && final(self)@[id as int]@ == Map::<Seq<char>, Value>::empty(),
    {
        match requested {
            Some(id) => {
                if self.contains(&id) {
                    id
                } else {
                    self.add()
                }
            },
            None => self.add(),
        }
    }
}

/// Session continuity: resolving a request that names an issued
/// identifier keeps that identifier, while a missing or unknown one
/// resolves to the next fresh identifier, distinct from every identifier
/// issued before.
pub proof fn lemma_session_continuity(count: nat, requested: Option<usize>)
    ensures
        (match requested {
            Some(id) => id < count ==> spec_resolve_sid(count, requested) == id,
            None => true,
        }),
        (match requested {
            Some(id) => id >= count,
            None => true,
        }) ==> spec_resolve_sid(count, requested) == count,
{
}

/// A freshly resolved identifier is distinct from every identifier issued
/// before it: all of those lie below the store's count.
pub proof fn lemma_fresh_sid_distinct(count: nat, requested: Option<usize>, prev: nat)
    requires
        prev < count,
        match requested {
            Some(id) => id >= count,
            None => true,
        },
    ensures
        spec_resolve_sid(count, requested) != prev,
{
}

/// Session type safety: a key stored as an integer reads back as that
/// integer, and as no other variant.
pub proof fn lemma_session_type_safety(s: Session, key: Seq<char>, n: i64)
    requires
        s@.contains_key(key),
        s@[key] == Value::Int(n),
    ensures
        spec_as_int(s@[key]) == Some(n),
        spec_as_str(s@[key]) is None,
        spec_as_bool(s@[key]) is None,
{
}

} // verus!
