//! The session-variable vocabulary and the identity that authentication
//! produces.
//!
//! A session variable is a normalized (lower-case) name bound to a JSON
//! value that this crate carries opaquely.  An [`Identity`] is the output
//! contract of authentication: either a specific caller with a default
//! role and the roles it may assume, or a role-emulation grant.

use vstd::prelude::*;
use crate::json::JsonValue;
use crate::names::{is_lower_name, is_name_input, normalize_name, normalized_of};
use crate::table::{
    distinct_keys, entries_contain, entries_map, index_of_key, lemma_entries_map_dom,
    lemma_entries_map_distinct, lemma_spec_insert, spec_insert,
};
use crate::headers::str_eq;

verus! {

/// A named privilege level; compared by value.
#[derive(Debug, PartialEq)]
pub struct Role {
    name: String,
}

impl View for Role {
    type V = Seq<char>;

    closed spec fn view(&self) -> Seq<char> {
        self.name@
    }
}

impl Role {
    pub fn new(name: &str) -> (r: Role)
        ensures
            r@ == name@,
    {
        Role { name: name.to_owned() }
    }

    pub fn as_str(&self) -> (r: &str)
        ensures
            r@ == self@,
    {
        self.name.as_str()
    }

    pub fn clone(&self) -> (r: Role)
        ensures
            r@ == self@,
    {
        Role { name: self.name.clone() }
    }
}

/// The reserved session variable that carries the caller's role.
pub open spec fn session_variable_role_name() -> Seq<char> {
    "x-hasura-role"@
}

pub fn session_variable_role() -> (r: &'static str)
    ensures
        r@ == session_variable_role_name(),
{
    "x-hasura-role"
}

/// A session-variable identifier: a normalized (lower-case) name.
#[derive(Debug, PartialEq)]
pub struct SessionVariableName {
    name: String,
}

impl View for SessionVariableName {
    type V = Seq<char>;

    closed spec fn view(&self) -> Seq<char> {
        self.name@
    }
}

impl SessionVariableName {
    pub open spec fn wf(&self) -> bool {
        is_lower_name(self@)
    }

    /// Parses an identifier, normalizing upper-case ASCII letters to
    /// lower case; fails on an empty string or a character outside
    /// letters, digits, `-`, `_` and `.`.
    pub fn parse(s: &str) -> (r: Option<SessionVariableName>)
        ensures
            r is Some <==> is_name_input(s@),
            r matches Some(n) ==> n@ == normalized_of(s@) && n.wf(),
    {
        match normalize_name(s) {
            Some(name) => Some(SessionVariableName { name }),
            None => None,
        }
    }

    pub fn as_str(&self) -> (r: &str)
        ensures
            r@ == self@,
    {
        self.name.as_str()
    }
}

/// A session-variable value: a JSON value the authenticator carries but
/// does not interpret.
#[derive(Debug, PartialEq)]
pub enum SessionVariableValue {
    Parsed(JsonValue),
}

impl SessionVariableValue {
    /// The string content, when the value is a JSON string.
    pub fn as_str(&self) -> (r: Option<&String>)
        ensures
            r is Some <==> *self matches SessionVariableValue::Parsed(JsonValue::Str(_)),
            r matches Some(v) ==> *self matches SessionVariableValue::Parsed(JsonValue::Str(s))
                && s == *v,
    {
        match self {
            SessionVariableValue::Parsed(v) => v.as_str(),
        }
    }
}

/// The session variables of an authenticated caller: an insertion-ordered
/// map from normalized names to values, later insertions replacing
/// earlier ones.
#[derive(Debug, PartialEq)]
pub struct SessionVariables {
    entries: Vec<(SessionVariableName, SessionVariableValue)>,
}

impl View for SessionVariables {
    type V = Seq<(Seq<char>, SessionVariableValue)>;

    closed spec fn view(&self) -> Seq<(Seq<char>, SessionVariableValue)> {
        self.entries@.map_values(|p: (SessionVariableName, SessionVariableValue)| (p.0@, p.1))
    }
}

impl SessionVariables {
    pub open spec fn wf(&self) -> bool {
        &&& distinct_keys(self@)
        &&& forall|i: int| 0 <= i < self@.len() ==> is_lower_name((#[trigger] self@[i]).0)
    }

    /// The map this variable set denotes.
    pub open spec fn as_map(&self) -> Map<Seq<char>, SessionVariableValue> {
        entries_map(self@)
    }

    pub fn new() -> (r: SessionVariables)
        ensures
            r@ =~= Seq::<(Seq<char>, SessionVariableValue)>::empty(),
            r.wf(),
    {
        SessionVariables { entries: Vec::new() }
    }

    pub fn len(&self) -> (r: usize)
        ensures
            r == self@.len(),
    {
        self.entries.len()
    }

    /// Binds a variable, replacing the value of an existing name.
    #[verifier::loop_isolation(false)]
    pub fn insert(&mut self, name: SessionVariableName, value: SessionVariableValue)
        requires
            old(self).wf(),
            name.wf(),
        ensures
            final(self).wf(),
            final(self)@ == spec_insert(old(self)@, name@, value),
            final(self).as_map() == old(self).as_map().insert(name@, value),
    {
        proof {
            lemma_spec_insert(old(self)@, name@, value);
        }
        let ghost prior = self@;
        let n = self.entries.len();
        let mut i: usize = 0;
        while i < n
            invariant
                0 <= i <= n,
                n == self@.len(),
                *self == *old(self),
                forall|j: int| 0 <= j < i ==> (#[trigger] self@[j]).0 != name@,
            decreases n - i,
        {
            if str_eq(self.entries[i].0.as_str(), name.as_str()) {
                proof {
                    let k = index_of_key(old(self)@, name@);
                    assert((old(self)@[i as int]).0 == name@);
                    assert(entries_contain(old(self)@, name@));
                    assert(0 <= k < old(self)@.len() && (old(self)@[k]).0 == name@);
                    if k < i as int {
                        assert((old(self)@[k]).0 != (old(self)@[i as int]).0);
                    } else if k > i as int {
                        assert((old(self)@[i as int]).0 != (old(self)@[k]).0);
                    }
                    assert(k == i as int);
                }
                self.entries.set(i, (name, value));
                proof {
                    let t = prior.update(i as int, (name@, value));
                    assert forall|j: int| 0 <= j < self@.len() implies self@[j] == t[j] by {
                        if j != i as int {
                            assert(self.entries@[j] == old(self).entries@[j]);
                        }
                    }
                    assert(self@ =~= t);
                }
                return;
            }
            i += 1;
        }
        proof {
            assert(!entries_contain(old(self)@, name@));
        }
        self.entries.push((name, value));
        proof {
            assert(self@ =~= prior.push((name@, value)));
        }
    }

    /// Looks a variable up by its normalized name.
    #[verifier::loop_isolation(false)]
    pub fn get(&self, name: &str) -> (r: Option<&SessionVariableValue>)
        ensures
            r is Some <==> entries_contain(self@, name@),
            self.wf() ==> match r {
                Some(v) => self.as_map().dom().contains(name@) && self.as_map()[name@] == *v,
                None => !self.as_map().dom().contains(name@),
            },
    {
        proof {
            lemma_entries_map_dom(self@);
            if self.wf() {
                lemma_entries_map_distinct(self@);
            }
        }
        let n = self.entries.len();
        let mut i: usize = 0;
        while i < n
            invariant
                0 <= i <= n,
                n == self@.len(),
                forall|j: int| 0 <= j < i ==> (#[trigger] self@[j]).0 != name@,
            decreases n - i,
        {
            if str_eq(self.entries[i].0.as_str(), name) {
                proof {
                    assert((self@[i as int]).0 == name@);
                    if self.wf() {
                        assert(self.as_map()[name@] == (self@[i as int]).1);
                    }
                }
                return Some(&self.entries[i].1);
            }
            i += 1;
        }
        proof {
            assert(!entries_contain(self@, name@));
        }
        None
    }
}

/// Which session variables a caller may assert itself, beyond what the
/// hook returned.  Always the empty list in the base protocol.
#[derive(Debug, PartialEq)]
pub enum SessionVariableList {
    All,
    List(Vec<SessionVariableName>),
}

/// What one role is allowed after authentication.
#[derive(Debug, PartialEq)]
pub struct RoleAuthorization {
    pub role: Role,
    pub session_variables: SessionVariables,
    pub allowed_session_variables_from_request: SessionVariableList,
}

/// The authenticated caller.
#[derive(Debug, PartialEq)]
pub enum Identity {
    /// A specific caller: its default role, and every role it may assume
    /// with that role's authorization.
    Specific { default_role: Role, allowed_roles: Vec<(Role, RoleAuthorization)> },
    /// Downstream authorization may widen session-variable trust for the
    /// given role.
    RoleEmulationEnabled(Role),
}

impl Identity {
    /// A specific identity always lists its default role among the
    /// allowed ones.
    pub open spec fn wf(&self) -> bool {
        match *self {
            Identity::Specific { default_role, allowed_roles } => exists|i: int|
                0 <= i < allowed_roles@.len() && (#[trigger] allowed_roles@[i]).0@
                    == default_role@,
            Identity::RoleEmulationEnabled(_) => true,
        }
    }
}

} // verus!
