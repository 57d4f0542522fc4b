//! The two custom SPARQL functions of the `tarql:` namespace: `expandPrefix` and
//! `expandPrefixedName`, which look names up in the query's prefix declarations.
use vstd::prelude::*;
use vstd::hash_map::StringHashMap;

use crate::text::{chars_of, string_from_chars};

verus! {

/// The prefix under which the custom functions are reached in every query.
pub const TARQL_PREFIX: &'static str = "tarql";

/// The namespace bound to the `tarql:` prefix in every query.
pub const TARQL_NAMESPACE: &'static str = "https://semanticarts.com/tarql/";

/// The IRI under which `tarql:expandPrefix` is registered.
pub const EXPAND_PREFIX_IRI: &'static str = "https://semanticarts.com/tarql/expandPrefix";

/// The IRI under which `tarql:expandPrefixedName` is registered.
pub const EXPAND_PREFIXED_NAME_IRI: &'static str =
    "https://semanticarts.com/tarql/expandPrefixedName";

/// What the custom functions read of an RDF term and give back: a named node with its
/// IRI, a literal with its lexical value, or any other term.
pub enum TermValue {
    NamedNode(String),
    Literal(String),
    Other,
}

/// The index of the first `c` in `s`, if any.
pub open spec fn first_char_index(s: Seq<char>, c: char) -> Option<int>
    decreases s.len(),
{
    if s.len() == 0 {
        None
    } else if s[0] == c {
        Some(0)
    } else {
        match first_char_index(s.drop_first(), c) {
            Some(i) => Some(i + 1),
            None => None,
        }
    }
}

proof fn lemma_first_char_index(s: Seq<char>, c: char)
    ensures
        match first_char_index(s, c) {
            Some(i) => 0 <= i < s.len() && s[i] == c && forall|j: int| 0 <= j < i ==> s[j] != c,
            None => forall|j: int| 0 <= j < s.len() ==> s[j] != c,
        },
    decreases s.len(),
{
    if s.len() > 0 && s[0] != c {
        lemma_first_char_index(s.drop_first(), c);
        assert forall|j: int| 0 < j < s.len() implies s[j] == s.drop_first()[j - 1] by {}
    }
}

/// Where `c` first stands in `s`.
fn find_char(s: &Vec<char>, c: char) -> (r: Option<usize>)
    ensures
        match r {
            Some(i) => first_char_index(s@, c) == Some(i as int),
            None => first_char_index(s@, c) is None,
        },
{
    proof {
        lemma_first_char_index(s@, c);
    }
    let n = s.len();
    for i in 0..n
        invariant
            n == s@.len(),
            forall|j: int| 0 <= j < i ==> s@[j] != c,
            match first_char_index(s@, c) {
                Some(i) => 0 <= i < s@.len() && s@[i] == c && forall|j: int|
                    0 <= j < i ==> s@[j] != c,
                None => forall|j: int| 0 <= j < s@.len() ==> s@[j] != c,
            },
    {
        if s[i] == c {
            proof {
                if let Some(k) = first_char_index(s@, c) {
                    if k < i {
                    } else if k > i {
                    }
                }
            }
            return Some(i);
        }
    }
    proof {
        if let Some(k) = first_char_index(s@, c) {
            assert(s@[k] == c);
        }
    }
    None
}

/// `tarql:expandPrefix` on a literal: the IRI declared for the prefix named by the
/// literal's value, as a literal, or nothing for an undeclared prefix.
pub fn expand_prefix(prefixes: &StringHashMap<String>, prefix: &TermValue) -> (r: Option<TermValue>)
    requires
        prefix is Literal,
    ensures
        prefixes@.contains_key(prefix->Literal_0@) ==> (r matches Some(TermValue::Literal(iri))
            && iri@ == prefixes@[prefix->Literal_0@]@),
        !prefixes@.contains_key(prefix->Literal_0@) ==> r is None,
{
    let prefix_name = match prefix {
        TermValue::Literal(value) => value,
        _ => {
            return None;
        },
    };
    match prefixes.get(prefix_name.as_str()) {
        Some(iri) => Some(TermValue::Literal(iri.clone())),
        None => None,
    }
}

/// `tarql:expandPrefix` on its arguments: the expansion of the first argument when it is
/// a literal; nothing for no argument or another term (SPARQL's unbound value).
pub fn call_expand_prefix(prefixes: &StringHashMap<String>, args: &Vec<TermValue>) -> (r: Option<TermValue>)
    ensures
        args@.len() == 0 || !(args@[0] is Literal) ==> r is None,
        args@.len() > 0 && args@[0] is Literal ==> {
            let name = args@[0]->Literal_0@;
            &&& prefixes@.contains_key(name) ==> (r matches Some(TermValue::Literal(iri)) && iri@
                == prefixes@[name]@)
            &&& !prefixes@.contains_key(name) ==> r is None
        },
{
    if args.len() == 0 {
        return None;
    }
    match &args[0] {
        TermValue::Literal(_) => expand_prefix(prefixes, &args[0]),
        _ => None,
    }
}

/// `tarql:expandPrefixedName` on its arguments: the expansion of the first argument when
/// it is a literal; nothing for no argument or another term (SPARQL's unbound value).
pub fn call_expand_prefixed_name(prefixes: &StringHashMap<String>, args: &Vec<TermValue>) -> (r: Option<
    TermValue,
>)
    ensures
        args@.len() == 0 || !(args@[0] is Literal) ==> r is None,
        args@.len() > 0 && args@[0] is Literal ==> match expanded_name(
            prefixes@.map_values(|v: String| v@),
            args@[0]->Literal_0@,
        ) {
            Some(iri) => r matches Some(TermValue::NamedNode(n)) && n@ == iri,
            None => r is None,
        },
{
    if args.len() == 0 {
        return None;
    }
    match &args[0] {
        TermValue::Literal(_) => expand_prefixed_name(prefixes, &args[0]),
        _ => None,
    }
}

/// `tarql:expandPrefixedName` on a literal `prefix:local`: the named node whose IRI is the
/// one declared for `prefix` followed by `local`. The name is split at its first colon;
/// nothing comes back when there is no colon or the prefix is undeclared.
pub open spec fn expanded_name(prefixes: Map<Seq<char>, Seq<char>>, qname: Seq<char>) -> Option<
    Seq<char>,
> {
    match first_char_index(qname, ':') {
        Some(i) => if prefixes.contains_key(qname.take(i)) {
            Some(prefixes[qname.take(i)] + qname.skip(i + 1))
        } else {
            None
        },
        None => None,
    }
}

/// `tarql:expandPrefixedName` on a literal (see `expanded_name`).
pub fn expand_prefixed_name(prefixes: &StringHashMap<String>, qname: &TermValue) -> (r: Option<TermValue>)
    requires
        qname is Literal,
    ensures
        match expanded_name(prefixes@.map_values(|v: String| v@), qname->Literal_0@) {
            Some(iri) => r matches Some(TermValue::NamedNode(n)) && n@ == iri,
            None => r is None,
        },
{
    let qname_str = match qname {
        TermValue::Literal(value) => value,
        _ => {
            return None;
        },
    };
    let chars = chars_of(qname_str.as_str());
    let ghost pv = prefixes@.map_values(|v: String| v@);
    let offset = match find_char(&chars, ':') {
        Some(i) => i,
        None => {
            return None;
        },
    };
    proof {
        lemma_first_char_index(chars@, ':');
    }
    let mut head: Vec<char> = Vec::new();
    for k in 0..offset
        invariant
            offset < chars@.len(),
            head@ == chars@.take(k as int),
    {
        head.push(chars[k]);
        assert(head@ =~= chars@.take(k + 1));
    }
    let mut rest: Vec<char> = Vec::new();
    let n = chars.len();
    for k in offset + 1..n
        invariant
            offset < n == chars@.len(),
            rest@ == chars@.subrange(offset + 1, k as int),
    {
        rest.push(chars[k]);
        assert(rest@ =~= chars@.subrange(offset + 1, k + 1));
    }
    assert(rest@ =~= chars@.skip(offset + 1));
    let prefix_name = string_from_chars(&head);
    match prefixes.get(prefix_name.as_str()) {
        Some(pref_iri) => {
            let local = string_from_chars(&rest);
            let iri = pref_iri.clone().concat(local.as_str());
            assert(pv[head@] == pref_iri@);
            Some(TermValue::NamedNode(iri))
        },
        None => None,
    }
}

/// Expanding `prefix:local`, where `prefix` holds no colon, gives the IRI declared for
/// `prefix` followed by `local`, and nothing when `prefix` is undeclared; that is, what
/// `expand_prefix` gives for `prefix`, followed by `local`.
pub proof fn lemma_expanded_name_parts(
    prefixes: Map<Seq<char>, Seq<char>>,
    prefix: Seq<char>,
    local: Seq<char>,
)
    requires
        !prefix.contains(':'),
    ensures
        expanded_name(prefixes, prefix + seq![':'] + local) == if prefixes.contains_key(prefix) {
            Some(prefixes[prefix] + local)
        } else {
            None::<Seq<char>>
        },
{
    let q = prefix + seq![':'] + local;
    let i = prefix.len() as int;
    assert(q[i] == ':');
    assert forall|j: int| 0 <= j < i implies q[j] != ':' by {
        assert(q[j] == prefix[j]);
        if q[j] == ':' {
            assert(prefix.contains(':'));
        }
    }
    lemma_first_char_index(q, ':');
    match first_char_index(q, ':') {
        Some(k) => {
            if k < i {
                assert(q[k] != ':');
            } else if k > i {
                assert(q[i] != ':');
            }
        },
        None => {
            assert(q[i] != ':');
        },
    }
    assert(q.take(i) =~= prefix);
    assert(q.skip(i + 1) =~= local);
}

} // verus!
