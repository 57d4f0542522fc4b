//! What the converter reads from the text of a SPARQL query: its prefix declarations
//! and the names of the variables it mentions. Both are found with the `regex` crate.
use vstd::prelude::*;
use vstd::hash_map::StringHashMap;
use vstd::hash_set::StringHashSet;

verus! {

/// A prefix declaration: `PREFIX` in any letter case at a word boundary, whitespace, the
/// prefix name (group 1), a colon, optional whitespace and the IRI between angle brackets
/// (group 2).
pub const PREFIX_PATTERN: &'static str = r"\b[pP][rR][eE][fF][iI][xX]\s+(\S*?):\s*<(.+?)>";

/// A variable: a question mark, then a name (group 1) of ASCII letters, digits and
/// underscores that does not start with a digit, then one character outside that set.
pub const VARIABLE_PATTERN: &'static str = r"\?([A-Za-z_][A-Za-z_0-9]*?)[^A-Za-z_0-9]";

/// Whether `regex::Regex::new` accepts the pattern: it refuses a pattern that is invalid or
/// that compiles to more than its default size limit.
pub uninterp spec fn regex_compiles(pattern: Seq<char>) -> bool;

/// What `regex::Regex::captures_iter` yields for the compiled pattern on the text: one
/// entry per successive non-overlapping match, holding every capture group (group 0 is
/// the whole match) as the matched text, or nothing for a group that did not take part.
pub uninterp spec fn regex_captures(pattern: Seq<char>, text: Seq<char>) -> Seq<
    Seq<Option<Seq<char>>>,
>;

/// Compiles `pattern` with `regex::Regex::new` and collects the capture groups of every
/// match that `captures_iter` finds in `text`. The result is nothing exactly when the
/// pattern does not compile, and otherwise the named `regex_captures` of both arguments.
#[verifier::external_body]
fn regex_find_all(pattern: &str, text: &str) -> (r: Option<Vec<Vec<Option<String>>>>)
    ensures
        r is Some <==> regex_compiles(pattern@),
        r matches Some(caps) ==> caps.deep_view() == regex_captures(pattern@, text@),
{
    let re = regex::Regex::new(pattern).ok()?;
    Some(
        re.captures_iter(text).map(
            |c| c.iter().map(|m| m.map(|m| m.as_str().to_string())).collect(),
        ).collect(),
    )
}

/// The prefix map that the matches give: the name in group 1 mapped to the IRI in
/// group 2, a later declaration of a name replacing an earlier one. An entry that lacks
/// either group adds nothing.
pub open spec fn prefix_map(caps: Seq<Seq<Option<Seq<char>>>>) -> Map<Seq<char>, Seq<char>>
    decreases caps.len(),
{
    if caps.len() == 0 {
        Map::empty()
    } else {
        let m = prefix_map(caps.drop_last());
        let c = caps.last();
        if c.len() > 2 && c[1] is Some && c[2] is Some {
            m.insert(c[1]->0, c[2]->0)
        } else {
            m
        }
    }
}

/// Whether the match declares `name`: it has both groups, and group 1 is `name`.
pub open spec fn declares(c: Seq<Option<Seq<char>>>, name: Seq<char>) -> bool {
    c.len() > 2 && c[1] == Some(name) && c[2] is Some
}

/// The names in group 1 of the matches. An entry that lacks the group adds nothing.
pub open spec fn variable_set(caps: Seq<Seq<Option<Seq<char>>>>) -> Set<Seq<char>>
    decreases caps.len(),
{
    if caps.len() == 0 {
        Set::empty()
    } else {
        let s = variable_set(caps.drop_last());
        let c = caps.last();
        if c.len() > 1 && c[1] is Some {
            s.insert(c[1]->0)
        } else {
            s
        }
    }
}

/// The view of a map of strings, with each value taken by its characters.
pub open spec fn string_map_view(m: Map<Seq<char>, String>) -> Map<Seq<char>, Seq<char>> {
    m.map_values(|v: String| v@)
}

/// Builds the prefix map from the capture groups of prefix declarations.
pub fn prefixes_from_captures(caps: &Vec<Vec<Option<String>>>) -> (r: StringHashMap<String>)
    ensures
        string_map_view(r@) == prefix_map(caps.deep_view()),
{
    let mut m: StringHashMap<String> = StringHashMap::new();
    let n = caps.len();
    assert(caps.deep_view().take(0) =~= Seq::<Seq<Option<Seq<char>>>>::empty());
    assert(string_map_view(m@) =~= Map::<Seq<char>, Seq<char>>::empty());
    for k in 0..n
        invariant
            n == caps@.len(),
            string_map_view(m@) == prefix_map(caps.deep_view().take(k as int)),
    {
        let ghost cv = caps.deep_view();
        assert(cv.take(k + 1).drop_last() =~= cv.take(k as int));
        assert(cv.take(k + 1).last() == cv[k as int]);
        let c = &caps[k];
        assert(cv[k as int] == c.deep_view());
        if c.len() > 2 {
            match (&c[1], &c[2]) {
                (Some(name), Some(iri)) => {
                    let ghost before = m@;
                    m.insert(name.clone(), iri.clone());
                    assert(string_map_view(m@) =~= string_map_view(before).insert(name@, iri@));
                },
                _ => {},
            }
        }
    }
    assert(caps.deep_view().take(n as int) =~= caps.deep_view());
    m
}

/// Builds the set of variable names from the capture groups of variable matches.
pub fn variables_from_captures(caps: &Vec<Vec<Option<String>>>) -> (r: StringHashSet)
    ensures
        r@ == variable_set(caps.deep_view()),
{
    let mut s = StringHashSet::new();
    let n = caps.len();
    assert(caps.deep_view().take(0) =~= Seq::<Seq<Option<Seq<char>>>>::empty());
    for k in 0..n
        invariant
            n == caps@.len(),
            s@ == variable_set(caps.deep_view().take(k as int)),
    {
        let ghost cv = caps.deep_view();
        assert(cv.take(k + 1).drop_last() =~= cv.take(k as int));
        assert(cv.take(k + 1).last() == cv[k as int]);
        let c = &caps[k];
        assert(cv[k as int] == c.deep_view());
        if c.len() > 1 {
            match &c[1] {
                Some(name) => {
                    s.insert(name.clone());
                },
                None => {},
            }
        }
    }
    assert(caps.deep_view().take(n as int) =~= caps.deep_view());
    s
}

/// The prefix declarations of a query: prefix name to IRI. Nothing comes back only when
/// the regex crate refuses the prefix pattern.
pub fn extract_prefixes(query_text: &str) -> (r: Option<StringHashMap<String>>)
    ensures
        r is Some <==> regex_compiles(PREFIX_PATTERN@),
        r matches Some(m) ==> string_map_view(m@) == prefix_map(
            regex_captures(PREFIX_PATTERN@, query_text@),
        ),
{
    match regex_find_all(PREFIX_PATTERN, query_text) {
        Some(caps) => Some(prefixes_from_captures(&caps)),
        None => None,
    }
}

/// The prefix declarations that the matches give, in order, each as its name (group 1)
/// and IRI (group 2). An entry that lacks either group adds nothing.
pub open spec fn prefix_list(caps: Seq<Seq<Option<Seq<char>>>>) -> Seq<(Seq<char>, Seq<char>)>
    decreases caps.len(),
{
    if caps.len() == 0 {
        Seq::<(Seq<char>, Seq<char>)>::empty()
    } else {
        let l = prefix_list(caps.drop_last());
        let c = caps.last();
        if c.len() > 2 && c[1] is Some && c[2] is Some {
            l.push((c[1]->0, c[2]->0))
        } else {
            l
        }
    }
}

/// A match of the prefix pattern that has both groups: a declaration.
pub open spec fn is_declaration(c: Seq<Option<Seq<char>>>) -> bool {
    c.len() > 2 && c[1] is Some && c[2] is Some
}

/// The declarations of two runs of matches, listed together, are those of the first run
/// followed by those of the second.
pub proof fn lemma_prefix_list_of_joined_matches(
    first: Seq<Seq<Option<Seq<char>>>>,
    second: Seq<Seq<Option<Seq<char>>>>,
)
    ensures
        prefix_list(first + second) == prefix_list(first) + prefix_list(second),
    decreases second.len(),
{
    if second.len() == 0 {
        assert(first + second =~= first);
        assert(prefix_list(first) + prefix_list(second) =~= prefix_list(first));
    } else {
        lemma_prefix_list_of_joined_matches(first, second.drop_last());
        assert((first + second).drop_last() =~= first + second.drop_last());
        assert((first + second).last() == second.last());
        let c = second.last();
        if is_declaration(c) {
            assert(prefix_list(first) + prefix_list(second) =~= (prefix_list(first) + prefix_list(
                second.drop_last(),
            )).push((c[1]->0, c[2]->0)));
        }
    }
}

/// One match lists one declaration when it has both groups, whatever the name (the empty
/// name of the default prefix included), and nothing otherwise.
pub proof fn lemma_prefix_list_of_one_match(c: Seq<Option<Seq<char>>>)
    ensures
        is_declaration(c) ==> prefix_list(seq![c]) == seq![(c[1]->0, c[2]->0)],
        !is_declaration(c) ==> prefix_list(seq![c]).len() == 0,
{
    reveal_with_fuel(prefix_list, 2);
    assert(seq![c].drop_last() =~= Seq::<Seq<Option<Seq<char>>>>::empty());
    assert(seq![c].last() == c);
    if is_declaration(c) {
        assert(Seq::<(Seq<char>, Seq<char>)>::empty().push((c[1]->0, c[2]->0)) =~= seq![
            (c[1]->0, c[2]->0),
        ]);
    }
}

/// Every declaration that the pattern matches is listed, and everything listed is a
/// matched declaration.
pub proof fn lemma_prefix_list_members(caps: Seq<Seq<Option<Seq<char>>>>)
    ensures
        forall|k: int|
            0 <= k < caps.len() && is_declaration(#[trigger] caps[k]) ==> prefix_list(caps).contains(
                (caps[k][1]->0, caps[k][2]->0),
            ),
        forall|d: (Seq<char>, Seq<char>)|
            #[trigger] prefix_list(caps).contains(d) ==> exists|k: int|
                0 <= k < caps.len() && is_declaration(#[trigger] caps[k]) && d == (
                    caps[k][1]->0,
                    caps[k][2]->0,
                ),
    decreases caps.len(),
{
    if caps.len() > 0 {
        let front = caps.drop_last();
        lemma_prefix_list_members(front);
        let l = prefix_list(front);
        let c = caps.last();
        assert forall|k: int|
            0 <= k < caps.len() && is_declaration(#[trigger] caps[k]) implies prefix_list(
            caps,
        ).contains((caps[k][1]->0, caps[k][2]->0)) by {
            if k < front.len() {
                assert(front[k] == caps[k]);
                let j = choose|j: int| 0 <= j < l.len() && l[j] == (front[k][1]->0, front[k][2]->0);
                if is_declaration(c) {
                    assert(l.push((c[1]->0, c[2]->0))[j] == l[j]);
                }
            } else {
                assert(caps[k] == c);
                assert(l.push((c[1]->0, c[2]->0))[l.len() as int] == (c[1]->0, c[2]->0));
            }
        }
        assert forall|d: (Seq<char>, Seq<char>)| #[trigger] prefix_list(caps).contains(d) implies exists|k: int|
            0 <= k < caps.len() && is_declaration(#[trigger] caps[k]) && d == (
                caps[k][1]->0,
                caps[k][2]->0,
            ) by {
            let all = prefix_list(caps);
            let j = choose|j: int| 0 <= j < all.len() && all[j] == d;
            if j < l.len() {
                if is_declaration(c) {
                    assert(all[j] == l[j]);
                }
                assert(l.contains(d));
                let k = choose|k: int|
                    0 <= k < front.len() && is_declaration(#[trigger] front[k]) && d == (
                        front[k][1]->0,
                        front[k][2]->0,
                    );
                assert(caps[k] == front[k]);
            } else {
                assert(caps[caps.len() - 1] == c);
            }
        }
    }
}

/// Lists the prefix declarations from their capture groups, in order.
pub fn prefix_list_from_captures(caps: &Vec<Vec<Option<String>>>) -> (r: Vec<(String, String)>)
    ensures
        r.deep_view() == prefix_list(caps.deep_view()),
{
    let mut l: Vec<(String, String)> = Vec::new();
    let n = caps.len();
    for k in 0..n
        invariant
            n == caps@.len(),
            l.deep_view() == prefix_list(caps.deep_view().take(k as int)),
    {
        let ghost cv = caps.deep_view();
        assert(cv.take(k + 1).drop_last() =~= cv.take(k as int));
        assert(cv.take(k + 1).last() == cv[k as int]);
        let c = &caps[k];
        assert(cv[k as int] == c.deep_view());
        if c.len() > 2 {
            match (&c[1], &c[2]) {
                (Some(name), Some(iri)) => {
                    let ghost before = l.deep_view();
                    l.push((name.clone(), iri.clone()));
                    assert(l.deep_view() =~= before.push((name@, iri@)));
                },
                _ => {},
            }
        }
    }
    assert(caps.deep_view().take(n as int) =~= caps.deep_view());
    l
}

/// The prefix declarations of a query, in the order they are written. Nothing comes back
/// only when the regex crate refuses the prefix pattern.
pub fn extract_prefix_list(query_text: &str) -> (r: Option<Vec<(String, String)>>)
    ensures
        r is Some <==> regex_compiles(PREFIX_PATTERN@),
        r matches Some(l) ==> l.deep_view() == prefix_list(regex_captures(PREFIX_PATTERN@, query_text@)),
{
    match regex_find_all(PREFIX_PATTERN, query_text) {
        Some(caps) => Some(prefix_list_from_captures(&caps)),
        None => None,
    }
}

/// The names of the variables that a query mentions. Nothing comes back only when the
/// regex crate refuses the variable pattern.
pub fn extract_variables(query_text: &str) -> (r: Option<StringHashSet>)
    ensures
        r is Some <==> regex_compiles(VARIABLE_PATTERN@),
        r matches Some(s) ==> s@ == variable_set(regex_captures(VARIABLE_PATTERN@, query_text@)),
{
    match regex_find_all(VARIABLE_PATTERN, query_text) {
        Some(caps) => Some(variables_from_captures(&caps)),
        None => None,
    }
}

/// A name is among the variables exactly when some match captured it in group 1.
pub proof fn lemma_variable_set_members(caps: Seq<Seq<Option<Seq<char>>>>, x: Seq<char>)
    ensures
        variable_set(caps).contains(x) <==> exists|k: int|
            0 <= k < caps.len() && (#[trigger] caps[k]).len() > 1 && caps[k][1] == Some(x),
    decreases caps.len(),
{
    if caps.len() > 0 {
        let front = caps.drop_last();
        lemma_variable_set_members(front, x);
        if exists|k: int| 0 <= k < front.len() && (#[trigger] front[k]).len() > 1 && front[k][1] == Some(x) {
            let k = choose|k: int| 0 <= k < front.len() && (#[trigger] front[k]).len() > 1 && front[k][1] == Some(x);
            assert(caps[k] == front[k]);
        }
        if exists|k: int| 0 <= k < caps.len() && (#[trigger] caps[k]).len() > 1 && caps[k][1] == Some(x) {
            let k = choose|k: int| 0 <= k < caps.len() && (#[trigger] caps[k]).len() > 1 && caps[k][1] == Some(x);
            if k < front.len() {
                assert(front[k] == caps[k]);
            }
        }
    }
}

/// The prefix map holds exactly the names that some match declares.
pub proof fn lemma_prefix_map_names(caps: Seq<Seq<Option<Seq<char>>>>, name: Seq<char>)
    ensures
        prefix_map(caps).contains_key(name) <==> exists|k: int|
            0 <= k < caps.len() && declares(#[trigger] caps[k], name),
    decreases caps.len(),
{
    if caps.len() > 0 {
        let front = caps.drop_last();
        lemma_prefix_map_names(front, name);
        if exists|k: int| 0 <= k < caps.len() && declares(#[trigger] caps[k], name) {
            let k = choose|k: int| 0 <= k < caps.len() && declares(#[trigger] caps[k], name);
            if k < front.len() {
                assert(declares(front[k], name));
            }
        }
        if exists|k: int| 0 <= k < front.len() && declares(#[trigger] front[k], name) {
            let k = choose|k: int| 0 <= k < front.len() && declares(#[trigger] front[k], name);
            assert(declares(caps[k], name));
        }
    }
}

/// A name maps to the IRI of the last match that declares it: a later declaration of a
/// prefix replaces an earlier one.
pub proof fn lemma_prefix_map_last_declaration(
    caps: Seq<Seq<Option<Seq<char>>>>,
    name: Seq<char>,
    k: int,
)
    requires
        0 <= k < caps.len(),
        declares(caps[k], name),
        forall|j: int| k < j < caps.len() ==> !declares(#[trigger] caps[j], name),
    ensures
        prefix_map(caps).contains_key(name),
        prefix_map(caps)[name] == caps[k][2]->0,
    decreases caps.len(),
{
    let front = caps.drop_last();
    if k < front.len() {
        assert(!declares(caps[caps.len() - 1], name));
        assert forall|j: int| k < j < front.len() implies !declares(#[trigger] front[j], name) by {
            assert(front[j] == caps[j]);
        }
        assert(front[k] == caps[k]);
        lemma_prefix_map_last_declaration(front, name, k);
    }
}

} // verus!
