//! The `{{ name }}` placeholders of a template.
use vstd::prelude::*;

use crate::filter::{regex_compiles, string_texts};
use crate::text::chars_of;

verus! {

/// For each match of `pattern` in `text`, from left to right, the text of its
/// first group (empty when the group took no part in the match).
pub uninterp spec fn group1_captures(pattern: Seq<char>, text: Seq<char>) -> Seq<Seq<char>>;

/// Relies on `regex::Regex::new` and `regex::Regex::captures_iter`: the first
/// group of every match, from left to right; none when the pattern does not
/// compile.
#[verifier::external_body]
fn captures_group1(pattern: &str, text: &str) -> (r: Option<Vec<String>>)
    ensures
        r.is_some() == regex_compiles(pattern@),
        r matches Some(v) ==> string_texts(v@) == group1_captures(pattern@, text@),
{
    match regex::Regex::new(pattern) {
        Ok(re) => Some(
            re.captures_iter(text).map(|c| c.get(1).map_or(String::new(), |m| m.as_str().to_string())).collect(),
        ),
        Err(_) => None,
    }
}

/// The expression of a `{{ name }}` placeholder; its first group is the name.
pub open spec fn placeholder_pattern() -> Seq<char> {
    "\\{\\{\\s*([a-zA-Z_][a-zA-Z_0-9]*)\\s*\\}\\}"@
}

/// The names of the placeholders of a template, from left to right; none when
/// the placeholder expression does not compile.
pub open spec fn placeholder_names(t: Seq<char>) -> Seq<Seq<char>> {
    if regex_compiles(placeholder_pattern()) {
        group1_captures(placeholder_pattern(), t)
    } else {
        Seq::empty()
    }
}

/// The names of the placeholders of a template, from left to right.
fn placeholders(template: &str) -> (r: Vec<String>)
    ensures
        string_texts(r@) == placeholder_names(template@),
{
    match captures_group1("\\{\\{\\s*([a-zA-Z_][a-zA-Z_0-9]*)\\s*\\}\\}", template) {
        Some(names) => names,
        None => {
            let none: Vec<String> = Vec::new();
            assert(string_texts(none@) =~= Seq::empty());
            none
        },
    }
}

/// Whether two texts are equal.
fn same_text(a: &str, b: &str) -> (r: bool)
    ensures
        r == (a@ == b@),
{
    let x = chars_of(a);
    let y = chars_of(b);
    if x.len() != y.len() {
        return false;
    }
    let mut i: usize = 0;
    while i < x.len()
        invariant
            i <= x@.len(),
            x@.len() == y@.len(),
            x@ == a@,
            y@ == b@,
            forall|k: int| 0 <= k < i ==> x@[k] == y@[k],
        decreases x.len() - i,
    {
        if x[i] != y[i] {
            return false;
        }
        i += 1;
    }
    assert(x@ =~= y@);
    true
}

/// Whether some name of `names` is one of `variables`.
pub open spec fn shares_name(names: Seq<Seq<char>>, variables: Seq<&str>) -> bool {
    exists|i: int, j: int|
        0 <= i < names.len() && 0 <= j < variables.len() && #[trigger] names[i] == (
        #[trigger] variables[j])@
}

/// Whether some name of `names` is one of `variables`.
pub fn names_contain_any(names: &[String], variables: &[&str]) -> (r: bool)
    ensures
        r == shares_name(string_texts(names@), variables@),
{
    let ghost texts = string_texts(names@);
    let mut i: usize = 0;
    while i < names.len()
        invariant
            i <= names@.len(),
            texts == string_texts(names@),
            forall|a: int, b: int|
                0 <= a < i && 0 <= b < variables@.len() ==> #[trigger] texts[a] != (
                #[trigger] variables@[b])@,
        decreases names.len() - i,
    {
        assert(texts[i as int] == names@[i as int]@);
        let mut j: usize = 0;
        while j < variables.len()
            invariant
                i < names@.len(),
                j <= variables@.len(),
                texts == string_texts(names@),
                texts[i as int] == names@[i as int]@,
                forall|b: int| 0 <= b < j ==> texts[i as int] != (#[trigger] variables@[b])@,
            decreases variables.len() - j,
        {
            if same_text(names[i].as_str(), variables[j]) {
                assert(texts[i as int] == variables@[j as int]@);
                return true;
            }
            j += 1;
        }
        i += 1;
    }
    false
}

/// Whether the template has a placeholder for one of `variables`.
pub fn template_contains_variables(template_content: &str, variables: &[&str]) -> (r: bool)
    ensures
        r == shares_name(placeholder_names(template_content@), variables@),
{
    let names = placeholders(template_content);
    names_contain_any(names.as_slice(), variables)
}

/// Whether a name is one the context always defines.
pub open spec fn is_registered(name: Seq<char>) -> bool {
    name == "path"@ || name == "code"@ || name == "git_diff"@
}

/// `names` without the registered ones, in order.
pub open spec fn unregistered(names: Seq<Seq<char>>) -> Seq<Seq<char>>
    decreases names.len(),
{
    if names.len() == 0 {
        Seq::empty()
    } else if is_registered(names.last()) {
        unregistered(names.drop_last())
    } else {
        unregistered(names.drop_last()).push(names.last())
    }
}

/// The names of `names` that the context does not define by itself, in order.
pub fn unregistered_names(names: &[String]) -> (r: Vec<String>)
    ensures
        string_texts(r@) == unregistered(string_texts(names@)),
{
    let ghost texts = string_texts(names@);
    let mut out: Vec<String> = Vec::new();
    let mut i: usize = 0;
    while i < names.len()
        invariant
            i <= names@.len(),
            texts == string_texts(names@),
            string_texts(out@) == unregistered(texts.take(i as int)),
        decreases names.len() - i,
    {
        let n = names[i].as_str();
        assert(texts[i as int] == names@[i as int]@);
        assert(texts.take(i + 1).drop_last() =~= texts.take(i as int));
        let registered = same_text(n, "path") || same_text(n, "code") || same_text(n, "git_diff");
        if !registered {
            let ghost before = out@;
            let owned = n.to_owned();
            out.push(owned);
            assert(string_texts(out@) =~= string_texts(before).push(texts[i as int]));
        }
        i += 1;
    }
    assert(texts.take(texts.len() as int) =~= texts);
    out
}

/// The placeholder names of the template that the context does not define by
/// itself, in order of appearance.
pub fn extract_undefined_variables(template: &str) -> (r: Vec<String>)
    ensures
        string_texts(r@) == unregistered(placeholder_names(template@)),
{
    let names = placeholders(template);
    unregistered_names(names.as_slice())
}

} // verus!
