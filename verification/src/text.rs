//! Character-level text helpers: Unicode whitespace trimming, quote removal,
//! upper-casing and the cleaning of CSV column headers.
use vstd::prelude::*;

verus! {

/// The Unicode `White_Space` property, which `char::is_whitespace` and `str::trim` use.
pub open spec fn is_white_space(c: char) -> bool {
    ||| ('\u{9}' <= c && c <= '\u{D}')
    ||| c == ' '
    ||| c == '\u{85}'
    ||| c == '\u{A0}'
    ||| c == '\u{1680}'
    ||| ('\u{2000}' <= c && c <= '\u{200A}')
    ||| c == '\u{2028}'
    ||| c == '\u{2029}'
    ||| c == '\u{202F}'
    ||| c == '\u{205F}'
    ||| c == '\u{3000}'
}

/// `s` without its leading whitespace.
pub open spec fn trim_start(s: Seq<char>) -> Seq<char>
    decreases s.len(),
{
    if s.len() > 0 && is_white_space(s[0]) {
        trim_start(s.drop_first())
    } else {
        s
    }
}

/// `s` without its trailing whitespace.
pub open spec fn trim_end(s: Seq<char>) -> Seq<char>
    decreases s.len(),
{
    if s.len() > 0 && is_white_space(s.last()) {
        trim_end(s.drop_last())
    } else {
        s
    }
}

/// `s` without leading and trailing whitespace, as `str::trim` gives it.
pub open spec fn trim(s: Seq<char>) -> Seq<char> {
    trim_end(trim_start(s))
}

/// Executable test of the `White_Space` property.
pub fn white_space(c: char) -> (r: bool)
    ensures
        r == is_white_space(c),
{
    ('\u{9}' <= c && c <= '\u{D}')
        || c == ' '
        || c == '\u{85}'
        || c == '\u{A0}'
        || c == '\u{1680}'
        || ('\u{2000}' <= c && c <= '\u{200A}')
        || c == '\u{2028}'
        || c == '\u{2029}'
        || c == '\u{202F}'
        || c == '\u{205F}'
        || c == '\u{3000}'
}

/// The characters of `s`, in order.
pub fn chars_of(s: &str) -> (v: Vec<char>)
    ensures
        v@ == s@,
{
    let mut v: Vec<char> = Vec::new();
    for c in it: s.chars()
        invariant
            v@ == it.seq().take(it.index() as int),
    {
        v.push(c);
    }
    v
}

/// Dropping a whitespace prefix does not change what `trim_start` gives.
proof fn lemma_trim_start_prefix(s: Seq<char>, i: int)
    requires
        0 <= i <= s.len(),
        forall|k: int| 0 <= k < i ==> is_white_space(#[trigger] s[k]),
    ensures
        trim_start(s) == trim_start(s.subrange(i, s.len() as int)),
    decreases i,
{
    if i > 0 {
        assert(s.drop_first().subrange(i - 1, s.drop_first().len() as int) =~= s.subrange(
            i,
            s.len() as int,
        ));
        lemma_trim_start_prefix(s.drop_first(), i - 1);
    } else {
        assert(s.subrange(0, s.len() as int) =~= s);
    }
}

/// Dropping a whitespace suffix does not change what `trim_end` gives.
proof fn lemma_trim_end_suffix(s: Seq<char>, j: int)
    requires
        0 <= j <= s.len(),
        forall|k: int| j <= k < s.len() ==> is_white_space(#[trigger] s[k]),
    ensures
        trim_end(s) == trim_end(s.subrange(0, j)),
    decreases s.len() - j,
{
    if j < s.len() {
        assert(s.drop_last().subrange(0, j) =~= s.subrange(0, j));
        lemma_trim_end_suffix(s.drop_last(), j);
    } else {
        assert(s.subrange(0, j) =~= s);
    }
}

/// The characters of `s` without leading and trailing whitespace.
pub fn trim_chars(s: &Vec<char>) -> (r: Vec<char>)
    ensures
        r@ == trim(s@),
{
    let n = s.len();
    let mut i: usize = 0;
    while i < n && white_space(s[i])
        invariant
            i <= n == s@.len(),
            forall|k: int| 0 <= k < i ==> is_white_space(#[trigger] s@[k]),
        decreases n - i,
    {
        i = i + 1;
    }
    let mut j: usize = n;
    while j > i && white_space(s[j - 1])
        invariant
            i <= j <= n == s@.len(),
            forall|k: int| j <= k < n ==> is_white_space(#[trigger] s@[k]),
        decreases j,
    {
        j = j - 1;
    }
    let mut r: Vec<char> = Vec::new();
    let mut k: usize = i;
    while k < j
        invariant
            i <= k <= j <= n == s@.len(),
            r@ == s@.subrange(i as int, k as int),
        decreases j - k,
    {
        r.push(s[k]);
        k = k + 1;
        assert(r@ =~= s@.subrange(i as int, k as int));
    }
    proof {
        let rest = s@.subrange(i as int, n as int);
        lemma_trim_start_prefix(s@, i as int);
        assert(trim_start(rest) == rest);
        assert forall|m: int| j - i <= m < rest.len() implies is_white_space(#[trigger] rest[m]) by {
            assert(rest[m] == s@[i + m]);
        }
        lemma_trim_end_suffix(rest, j - i);
        assert(rest.subrange(0, j - i) =~= s@.subrange(i as int, j as int));
        assert(trim_end(r@) == r@);
    }
    r
}

/// `s` with every double quote removed.
pub open spec fn without_quotes(s: Seq<char>) -> Seq<char> {
    s.filter(|c: char| c != '"')
}

/// The characters of `s` other than double quotes, in order.
pub fn remove_quotes(s: &Vec<char>) -> (r: Vec<char>)
    ensures
        r@ == without_quotes(s@),
{
    let mut r: Vec<char> = Vec::new();
    let n = s.len();
    for k in 0..n
        invariant
            n == s@.len(),
            r@ == without_quotes(s@.take(k as int)),
    {
        proof {
            reveal_with_fuel(Seq::<_>::filter, 1);
        }
        assert(s@.take(k + 1).drop_last() =~= s@.take(k as int));
        if s[k] != '"' {
            r.push(s[k]);
        }
    }
    assert(s@.take(n as int) =~= s@);
    r
}

/// What `str::to_uppercase` gives for a string: the full Unicode upper-case mapping,
/// which may change the number of characters.
pub uninterp spec fn unicode_uppercase(s: Seq<char>) -> Seq<char>;

/// Calls `str::to_uppercase`; the result is named `unicode_uppercase` of the argument.
#[verifier::external_body]
fn to_uppercase(s: &str) -> (r: String)
    ensures
        r@ == unicode_uppercase(s@),
{
    s.to_uppercase()
}

/// Collects characters into a `String` (`FromIterator<&char>` for `String`),
/// which holds exactly those characters in order.
#[verifier::external_body]
pub(crate) fn string_from_chars(chars: &Vec<char>) -> (r: String)
    ensures
        r@ == chars@,
{
    chars.iter().collect()
}

/// A CSV header cell turned into a column name: trimmed, upper-cased when
/// `normalize` holds, and stripped of double quotes.
pub open spec fn cleaned_column(field: Seq<char>, normalize: bool) -> Seq<char> {
    if normalize {
        without_quotes(unicode_uppercase(trim(field)))
    } else {
        without_quotes(trim(field))
    }
}

/// Cleans a header cell into a column name (see `cleaned_column`).
pub fn clean_column(field: &str, normalize: &bool) -> (r: String)
    ensures
        r@ == cleaned_column(field@, *normalize),
{
    let chars = chars_of(field);
    let trimmed = trim_chars(&chars);
    if *normalize {
        let t = string_from_chars(&trimmed);
        let upper = to_uppercase(t.as_str());
        let upper_chars = chars_of(upper.as_str());
        string_from_chars(&remove_quotes(&upper_chars))
    } else {
        string_from_chars(&remove_quotes(&trimmed))
    }
}

/// A cleaned column name holds no double quote.
pub proof fn lemma_cleaned_column_has_no_quote(field: Seq<char>, normalize: bool)
    ensures
        !cleaned_column(field, normalize).contains('"'),
{
    let pred = |c: char| c != '"';
    let s = if normalize { unicode_uppercase(trim(field)) } else { trim(field) };
    broadcast use vstd::seq_lib::group_filter_ensures;

    if cleaned_column(field, normalize).contains('"') {
        let i = choose|i: int| 0 <= i < s.filter(pred).len() && s.filter(pred)[i] == '"';
        assert(pred(s.filter(pred)[i]));
    }
}

} // verus!
