//! Header sets.
//!
//! [`HeaderMap`] models the set of headers on a request: an
//! insertion-ordered sequence of (name, value) entries with distinct,
//! normalized (lower-case) names, where inserting an existing name
//! replaces its value.  The fixed exclusion set of content-negotiation
//! and transport headers that the GET forwarding policy drops is also
//! defined here.

use vstd::prelude::*;
use crate::names::is_lower_name;
use crate::table::{
    distinct_keys, entries_contain, entries_map, index_of_key, lemma_entries_map_dom,
    lemma_entries_map_distinct, lemma_spec_insert, spec_insert,
};

verus! {

/// Character-for-character equality of two strings.
pub fn str_eq(a: &str, b: &str) -> (r: bool)
    ensures
        r == (a@ == b@),
{
    let n = a.unicode_len();
    let m = b.unicode_len();
    if n != m {
        return false;
    }
    let mut i: usize = 0;
    while i < n
        invariant
            0 <= i <= n,
            n == a@.len(),
            n == b@.len(),
            forall|j: int| 0 <= j < i ==> a@[j] == b@[j],
        decreases n - i,
    {
        if a.get_char(i) != b.get_char(i) {
            return false;
        }
        i += 1;
    }
    proof {
        assert(a@ =~= b@);
    }
    true
}

/// Whether some entry of `list` equals `name`.
pub fn string_list_contains(list: &Vec<String>, name: &str) -> (r: bool)
    ensures
        r == (exists|i: int| 0 <= i < list@.len() && (#[trigger] list@[i])@ == name@),
{
    let n = list.len();
    let mut i: usize = 0;
    while i < n
        invariant
            0 <= i <= n,
            n == list@.len(),
            forall|j: int| 0 <= j < i ==> (#[trigger] list@[j])@ != name@,
        decreases n - i,
    {
        if str_eq(list[i].as_str(), name) {
            return true;
        }
        i += 1;
    }
    false
}

/// The fixed exclusion set: content-negotiation and transport headers
/// that a client sends for the original request and that carry no
/// authentication signal, compared by their lower-cased names.
pub open spec fn is_ignored_header(s: Seq<char>) -> bool {
    ||| s == "accept"@
    ||| s == "accept-datetime"@
    ||| s == "accept-encoding"@
    ||| s == "accept-language"@
    ||| s == "cache-control"@
    ||| s == "connection"@
    ||| s == "content-length"@
    ||| s == "content-md5"@
    ||| s == "content-type"@
    ||| s == "dnt"@
    ||| s == "host"@
    ||| s == "origin"@
    ||| s == "referer"@
    ||| s == "user-agent"@
}

/// Decides whether a client header is dropped when headers are forwarded
/// on the wire under the common exclusion set (the v1 GET policy, and any
/// v3 wildcard wire-forwarding policy).
///
/// The header name is expected in its normalized (lower-case) form, as
/// [`HeaderMap`] stores it.
pub fn ignore_header(header: &str) -> (r: bool)
    ensures
        r == is_ignored_header(header@),
{
    str_eq(header, "accept") || str_eq(header, "accept-datetime") || str_eq(
        header,
        "accept-encoding",
    ) || str_eq(header, "accept-language") || str_eq(header, "cache-control") || str_eq(
        header,
        "connection",
    ) || str_eq(header, "content-length") || str_eq(header, "content-md5") || str_eq(
        header,
        "content-type",
    ) || str_eq(header, "dnt") || str_eq(header, "host") || str_eq(header, "origin") || str_eq(
        header,
        "referer",
    ) || str_eq(header, "user-agent")
}

/// The entries whose names a policy selects, in their original order.
pub open spec fn filtered_entries(
    s: Seq<(Seq<char>, Seq<char>)>,
    pred: spec_fn(Seq<char>) -> bool,
) -> Seq<(Seq<char>, Seq<char>)>
    decreases s.len(),
{
    if s.len() == 0 {
        s
    } else {
        let rest = filtered_entries(s.drop_last(), pred);
        if pred(s.last().0) {
            rest.push(s.last())
        } else {
            rest
        }
    }
}

/// A name occurs among the selected entries exactly when it occurs in
/// the input and the policy selects it; and every selected entry is an
/// entry of the input.
pub proof fn lemma_filtered_entries_semantics(
    s: Seq<(Seq<char>, Seq<char>)>,
    pred: spec_fn(Seq<char>) -> bool,
)
    ensures
        forall|k: Seq<char>|
            entries_contain(filtered_entries(s, pred), k) <==> entries_contain(s, k) && pred(k),
        forall|i: int|
            0 <= i < filtered_entries(s, pred).len() ==> exists|j: int|
                0 <= j < s.len() && s[j] == #[trigger] filtered_entries(s, pred)[i],
    decreases s.len(),
{
    if s.len() == 0 {
    } else {
        let rest = filtered_entries(s.drop_last(), pred);
        let out = filtered_entries(s, pred);
        lemma_filtered_entries_semantics(s.drop_last(), pred);
        assert forall|k: Seq<char>|
            entries_contain(out, k) <==> entries_contain(s, k) && pred(k) by {
            crate::table::lemma_entries_contain_push(s.drop_last(), s.last(), k);
            assert(s.drop_last().push(s.last()) =~= s);
            if pred(s.last().0) {
                crate::table::lemma_entries_contain_push(rest, s.last(), k);
            }
        }
        assert forall|i: int|
            0 <= i < out.len() implies exists|j: int|
            0 <= j < s.len() && s[j] == #[trigger] out[i] by {
            if pred(s.last().0) && i == out.len() - 1 {
                assert(s[s.len() - 1] == out[i]);
            } else {
                assert(out[i] == rest[i]);
                let j = choose|j: int| 0 <= j < s.drop_last().len() && s.drop_last()[j] == rest[i];
                assert(s[j] == out[i]);
            }
        }
    }
}

/// A set of headers: insertion-ordered entries with distinct lower-case names.
#[derive(Debug, PartialEq)]
pub struct HeaderMap {
    entries: Vec<(String, String)>,
}

impl View for HeaderMap {
    type V = Seq<(Seq<char>, Seq<char>)>;

    closed spec fn view(&self) -> Seq<(Seq<char>, Seq<char>)> {
        self.entries@.map_values(|p: (String, String)| (p.0@, p.1@))
    }
}

impl HeaderMap {
    /// Well-formed: names distinct and normalized.
    pub open spec fn wf(&self) -> bool {
        &&& distinct_keys(self@)
        &&& forall|i: int| 0 <= i < self@.len() ==> is_lower_name((#[trigger] self@[i]).0)
    }

    /// The map this header set denotes.
    pub open spec fn as_map(&self) -> Map<Seq<char>, Seq<char>> {
        entries_map(self@)
    }

    pub fn new() -> (r: HeaderMap)
        ensures
            r@ =~= Seq::<(Seq<char>, Seq<char>)>::empty(),
            r.wf(),
    {
        HeaderMap { entries: Vec::new() }
    }

    pub fn len(&self) -> (r: usize)
        ensures
            r == self@.len(),
    {
        self.entries.len()
    }

    /// The entry at a position, in insertion order.
    pub fn entry(&self, i: usize) -> (r: &(String, String))
        requires
            i < self@.len(),
        ensures
            r.0@ == self@[i as int].0,
            r.1@ == self@[i as int].1,
    {
        &self.entries[i]
    }

    /// Inserts a header, replacing the value of an existing name.
    #[verifier::loop_isolation(false)]
    pub fn insert(&mut self, name: String, value: String)
        requires
            old(self).wf(),
            is_lower_name(name@),
        ensures
            final(self).wf(),
            final(self)@ == spec_insert(old(self)@, name@, value@),
            final(self).as_map() == old(self).as_map().insert(name@, value@),
    {
        proof {
            lemma_spec_insert(old(self)@, name@, value@);
        }
        let ghost prior = self@;
        let n = self.entries.len();
        let mut i: usize = 0;
        while i < n
            invariant
                0 <= i <= n,
                n == self@.len(),
                *self == *old(self),
                forall|j: int| 0 <= j < i ==> (#[trigger] self@[j]).0 != name@,
            decreases n - i,
        {
            if str_eq(self.entries[i].0.as_str(), name.as_str()) {
                proof {
                    let k = index_of_key(old(self)@, name@);
                    assert((old(self)@[i as int]).0 == name@);
                    assert(entries_contain(old(self)@, name@));
                    assert(0 <= k < old(self)@.len() && (old(self)@[k]).0 == name@);
                    if k < i as int {
                        assert((old(self)@[k]).0 != (old(self)@[i as int]).0);
                    } else if k > i as int {
                        assert((old(self)@[i as int]).0 != (old(self)@[k]).0);
                    }
                    assert(k == i as int);
                }
                self.entries.set(i, (name, value));
                proof {
                    let t = prior.update(i as int, (name@, value@));
                    assert forall|j: int| 0 <= j < self@.len() implies self@[j] == t[j] by {
                        if j != i as int {
                            assert(self.entries@[j] == old(self).entries@[j]);
                        }
                    }
                    assert(self@ =~= t);
                }
                return;
            }
            i += 1;
        }
        proof {
            assert(!entries_contain(old(self)@, name@));
        }
        self.entries.push((name, value));
        proof {
            assert(self@ =~= prior.push((name@, value@)));
        }
    }

    /// Looks a header up by its (normalized) name.
    #[verifier::loop_isolation(false)]
    pub fn get(&self, name: &str) -> (r: Option<&String>)
        ensures
            r is Some <==> entries_contain(self@, name@),
            self.wf() ==> match r {
                Some(v) => self.as_map().dom().contains(name@) && self.as_map()[name@] == v@,
                None => !self.as_map().dom().contains(name@),
            },
    {
        proof {
            lemma_entries_map_dom(self@);
            if self.wf() {
                lemma_entries_map_distinct(self@);
            }
        }
        let n = self.entries.len();
        let mut i: usize = 0;
        while i < n
            invariant
                0 <= i <= n,
                n == self@.len(),
                forall|j: int| 0 <= j < i ==> (#[trigger] self@[j]).0 != name@,
        decreases n - i,
        {
            if str_eq(self.entries[i].0.as_str(), name) {
                proof {
                    assert((self@[i as int]).0 == name@);
                    if self.wf() {
                        assert(self.as_map()[name@] == (self@[i as int]).1);
                    }
                }
                return Some(&self.entries[i].1);
            }
            i += 1;
        }
        proof {
            assert(!entries_contain(self@, name@));
        }
        None
    }

    /// A copy of this header set, entry for entry.
    #[verifier::loop_isolation(false)]
    pub fn duplicate(&self) -> (r: HeaderMap)
        requires
            self.wf(),
        ensures
            r.wf(),
            r@ == self@,
    {
        let mut out = HeaderMap::new();
        let n = self.len();
        let mut i: usize = 0;
        while i < n
            invariant
                0 <= i <= n,
                out.wf(),
                out@ =~= self@.subrange(0, i as int),
            decreases n - i,
        {
            let entry = self.entry(i);
            proof {
                if entries_contain(out@, self@[i as int].0) {
                    let j = choose|j: int|
                        0 <= j < out@.len() && (#[trigger] out@[j]).0 == self@[i as int].0;
                    assert((self@[j]).0 == (self@[i as int]).0);
                    assert(false);
                }
            }
            out.insert(entry.0.clone(), entry.1.clone());
            proof {
                assert(out@ =~= self@.subrange(0, i as int + 1));
            }
            i += 1;
        }
        proof {
            assert(self@.subrange(0, n as int) =~= self@);
            assert(out@ =~= self@);
        }
        out
    }

    /// Whether a header of this (normalized) name is present.
    pub fn contains_name(&self, name: &str) -> (r: bool)
        ensures
            r == entries_contain(self@, name@),
    {
        self.get(name).is_some()
    }
}

} // verus!
