//! Include and exclude rules over path strings.
use vstd::prelude::*;

use crate::text::{chars_of, push_char};

verus! {

/// What one character of a wildcard pattern stands for in the regular expression.
pub open spec fn wildcard_piece(c: char) -> Seq<char> {
    if c == '.' {
        seq!['\\', '.']
    } else if c == '*' {
        seq!['.', '*']
    } else if c == '?' {
        seq!['.']
    } else {
        seq![c]
    }
}

/// The conversion of a wildcard pattern, character by character.
pub open spec fn wildcard_body(p: Seq<char>) -> Seq<char>
    decreases p.len(),
{
    if p.len() == 0 {
        Seq::empty()
    } else {
        wildcard_body(p.drop_last()) + wildcard_piece(p.last())
    }
}

/// `re` anchored at both ends, so that it must cover the whole text.
pub open spec fn anchored(re: Seq<char>) -> Seq<char> {
    seq!['^', '(', '?', ':'] + re + seq![')', '$']
}

/// The regular expression a rule compiles for a wildcard pattern: its
/// conversion, anchored, so that `*.log` covers `error.log` and not
/// `error.log.txt`.
pub open spec fn wildcard_regex(p: Seq<char>) -> Seq<char> {
    anchored(wildcard_body(p))
}

/// Converts a wildcard pattern into a regular expression: a literal `.` is
/// escaped, `*` becomes "any run of characters", `?` "exactly one character",
/// every other character stands for itself.
pub fn convert_wildcard_to_regex(pattern: &str) -> (r: String)
    ensures
        r@ == wildcard_body(pattern@),
{
    let cs = chars_of(pattern);
    let mut out = String::new();
    let mut i: usize = 0;
    while i < cs.len()
        invariant
            i <= cs@.len(),
            cs@ == pattern@,
            out@ == wildcard_body(cs@.take(i as int)),
        decreases cs.len() - i,
    {
        let c = cs[i];
        if c == '.' {
            push_char(&mut out, '\\');
            push_char(&mut out, '.');
        } else if c == '*' {
            push_char(&mut out, '.');
            push_char(&mut out, '*');
        } else if c == '?' {
            push_char(&mut out, '.');
        } else {
            push_char(&mut out, c);
        }
        proof {
            assert(cs@.take(i + 1).drop_last() =~= cs@.take(i as int));
        }
        i += 1;
    }
    proof {
        assert(cs@.take(cs@.len() as int) =~= cs@);
    }
    out
}

/// Anchors a regular expression at both ends.
fn anchor_regex(re: &str) -> (r: String)
    ensures
        r@ == anchored(re@),
{
    let mut out = String::new();
    push_char(&mut out, '^');
    push_char(&mut out, '(');
    push_char(&mut out, '?');
    push_char(&mut out, ':');
    out.append(re);
    push_char(&mut out, ')');
    push_char(&mut out, '$');
    assert(out@ =~= anchored(re@));
    out
}

/// Whether `regex::Regex::new` accepts a pattern.
pub uninterp spec fn regex_compiles(pattern: Seq<char>) -> bool;

/// Whether the compiled `pattern` finds a match somewhere in `text`.
pub uninterp spec fn regex_finds(pattern: Seq<char>, text: Seq<char>) -> bool;

#[verifier::external_type_specification]
#[verifier::external_body]
pub struct ExRegex(regex::Regex);

/// A compiled regular expression, together with the pattern it came from.
pub struct RegexMatcher {
    re: regex::Regex,
    pattern: Ghost<Seq<char>>,
}

impl RegexMatcher {
    /// The pattern this matcher was compiled from.
    pub closed spec fn pattern(&self) -> Seq<char> {
        self.pattern@
    }

    /// Relies on `regex::Regex::is_match`: whether the expression matches
    /// somewhere in the text.
    #[verifier::external_body]
    fn is_match(&self, text: &str) -> (r: bool)
        ensures
            r == regex_finds(self.pattern(), text@),
    {
        self.re.is_match(text)
    }
}

/// Relies on `regex::Regex::new`: it accepts or refuses a pattern depending on
/// the pattern alone.
#[verifier::external_body]
fn compile_regex(pattern: &str) -> (r: Option<RegexMatcher>)
    ensures
        r.is_some() == regex_compiles(pattern@),
        r matches Some(m) ==> m.pattern() == pattern@,
{
    match regex::Regex::new(pattern) {
        Ok(re) => Some(RegexMatcher { re, pattern: Ghost(pattern@) }),
        Err(_) => None,
    }
}

/// Whether the wildcard pattern `pattern` matches the path `path`. A pattern
/// whose expression does not compile matches nothing.
pub open spec fn rule_matches(pattern: Seq<char>, path: Seq<char>) -> bool {
    regex_compiles(wildcard_regex(pattern)) && regex_finds(wildcard_regex(pattern), path)
}

/// A wildcard pattern, converted and compiled once.
pub struct PatternRule {
    raw: String,
    matcher: Option<RegexMatcher>,
}

impl View for PatternRule {
    type V = Seq<char>;

    closed spec fn view(&self) -> Seq<char> {
        self.raw@
    }
}

impl PatternRule {
    #[verifier::type_invariant]
    spec fn inv(&self) -> bool {
        &&& self.matcher.is_some() == regex_compiles(wildcard_regex(self.raw@))
        &&& self.matcher matches Some(m) ==> m.pattern() == wildcard_regex(self.raw@)
    }

    /// Converts and compiles `pattern`.
    pub fn new(pattern: &str) -> (r: PatternRule)
        ensures
            r@ == pattern@,
    {
        let converted = convert_wildcard_to_regex(pattern);
        let re = anchor_regex(converted.as_str());
        let matcher = compile_regex(re.as_str());
        PatternRule { raw: pattern.to_owned(), matcher }
    }

    /// The pattern as written.
    pub fn pattern(&self) -> (r: &str)
        ensures
            r@ == self@,
    {
        self.raw.as_str()
    }

    /// Whether the pattern's expression compiled; one that did not matches nothing.
    pub fn is_valid(&self) -> (r: bool)
        ensures
            r == regex_compiles(wildcard_regex(self@)),
    {
        proof {
            use_type_invariant(self);
        }
        self.matcher.is_some()
    }

    /// Whether this rule matches `path`.
    pub fn matches(&self, path: &str) -> (r: bool)
        ensures
            r == rule_matches(self@, path@),
    {
        proof {
            use_type_invariant(self);
        }
        match &self.matcher {
            Some(m) => m.is_match(path),
            None => false,
        }
    }
}

/// Whether the wildcard pattern `pattern` matches `path`.
pub fn matches_pattern(path: &str, pattern: &str) -> (r: bool)
    ensures
        r == rule_matches(pattern@, path@),
{
    PatternRule::new(pattern).matches(path)
}

/// The patterns of a list of rules.
pub open spec fn rule_texts(rules: Seq<PatternRule>) -> Seq<Seq<char>> {
    rules.map_values(|r: PatternRule| r@)
}

/// The contents of a list of strings.
pub open spec fn string_texts(v: Seq<String>) -> Seq<Seq<char>> {
    v.map_values(|s: String| s@)
}

/// Whether some pattern of `patterns` matches `path`.
pub open spec fn matches_any(patterns: Seq<Seq<char>>, path: Seq<char>) -> bool {
    exists|i: int| 0 <= i < patterns.len() && rule_matches(#[trigger] patterns[i], path)
}

/// The resolution table: a conflict goes by `include_priority`; with no match
/// at all, a path is kept only while no include rule exists.
pub open spec fn resolve(
    included: bool,
    excluded: bool,
    no_include_rules: bool,
    include_priority: bool,
) -> bool {
    if included && excluded {
        include_priority
    } else if included {
        true
    } else if excluded {
        false
    } else {
        no_include_rules
    }
}

/// Whether `path` is kept under the include rules `includes`, the exclude rules
/// `excludes` and the conflict setting `include_priority`.
pub open spec fn inclusion(
    path: Seq<char>,
    includes: Seq<Seq<char>>,
    excludes: Seq<Seq<char>>,
    include_priority: bool,
) -> bool {
    resolve(
        includes.len() == 0 || matches_any(includes, path),
        matches_any(excludes, path),
        includes.len() == 0,
        include_priority,
    )
}

/// Compiles each pattern once, keeping their order.
pub fn compile_rules(patterns: &[String]) -> (r: Vec<PatternRule>)
    ensures
        rule_texts(r@) == string_texts(patterns@),
{
    let mut out: Vec<PatternRule> = Vec::new();
    let mut i: usize = 0;
    while i < patterns.len()
        invariant
            i <= patterns@.len(),
            rule_texts(out@) == string_texts(patterns@.take(i as int)),
        decreases patterns.len() - i,
    {
        let rule = PatternRule::new(patterns[i].as_str());
        let ghost before = out@;
        out.push(rule);
        proof {
            assert(out@ == before.push(rule));
            assert(rule_texts(out@) =~= rule_texts(before).push(rule@));
            assert(patterns@.take(i + 1) =~= patterns@.take(i as int).push(patterns@[i as int]));
            assert(string_texts(patterns@.take(i + 1)) =~= string_texts(patterns@.take(i as int)).push(
                patterns@[i as int]@,
            ));
        }
        i += 1;
    }
    proof {
        assert(patterns@.take(patterns@.len() as int) =~= patterns@);
    }
    out
}

/// Whether some rule of `rules` matches `path`; stops at the first that does.
fn any_rule_matches(path: &str, rules: &[PatternRule]) -> (r: bool)
    ensures
        r == matches_any(rule_texts(rules@), path@),
{
    let mut i: usize = 0;
    while i < rules.len()
        invariant
            i <= rules@.len(),
            forall|j: int| 0 <= j < i ==> !rule_matches(#[trigger] rules@[j]@, path@),
        decreases rules.len() - i,
    {
        if rules[i].matches(path) {
            assert(rule_texts(rules@)[i as int] == rules@[i as int]@);
            return true;
        }
        i += 1;
    }
    proof {
        let texts = rule_texts(rules@);
        assert forall|j: int| 0 <= j < texts.len() implies !rule_matches(#[trigger] texts[j], path@) by {
            assert(texts[j] == rules@[j]@);
        }
    }
    false
}

/// Decides whether `path` is kept, with rules compiled beforehand.
pub fn decide(
    path: &str,
    include_rules: &[PatternRule],
    exclude_rules: &[PatternRule],
    include_priority: bool,
) -> (r: bool)
    ensures
        r == inclusion(path@, rule_texts(include_rules@), rule_texts(exclude_rules@), include_priority),
{
    let no_include_rules = include_rules.len() == 0;
    let included = no_include_rules || any_rule_matches(path, include_rules);
    let excluded = any_rule_matches(path, exclude_rules);
    resolve_inclusion(included, excluded, no_include_rules, include_priority)
}

/// Applies the resolution table to the outcome of the rule matches.
pub fn resolve_inclusion(
    included: bool,
    excluded: bool,
    no_include_rules: bool,
    include_priority: bool,
) -> (r: bool)
    ensures
        r == resolve(included, excluded, no_include_rules, include_priority),
{
    if included && excluded {
        include_priority
    } else if included {
        true
    } else if excluded {
        false
    } else {
        no_include_rules
    }
}

/// Decides whether `path` (in its resolved form) is kept under the include
/// patterns, the exclude patterns and the conflict setting.
pub fn should_include_file(
    path: &str,
    include_patterns: &[String],
    exclude_patterns: &[String],
    include_priority: bool,
) -> (r: bool)
    ensures
        r == inclusion(path@, string_texts(include_patterns@), string_texts(exclude_patterns@), include_priority),
{
    let includes = compile_rules(include_patterns);
    let excludes = compile_rules(exclude_patterns);
    decide(path, includes.as_slice(), excludes.as_slice(), include_priority)
}

/// With no rules at all, every path is kept.
pub proof fn lemma_no_rules_keeps_all(path: Seq<char>, include_priority: bool)
    ensures
        inclusion(path, Seq::empty(), Seq::empty(), include_priority),
{
}

/// Once include rules exist, a path that no rule matches is dropped.
pub proof fn lemma_unmatched_dropped_under_include_rules(
    path: Seq<char>,
    includes: Seq<Seq<char>>,
    excludes: Seq<Seq<char>>,
    include_priority: bool,
)
    requires
        includes.len() > 0,
        !matches_any(includes, path),
        !matches_any(excludes, path),
    ensures
        !inclusion(path, includes, excludes, include_priority),
{
}

/// A path matched by both an include and an exclude rule is kept exactly when
/// include rules take priority.
pub proof fn lemma_conflict_follows_priority(
    path: Seq<char>,
    includes: Seq<Seq<char>>,
    excludes: Seq<Seq<char>>,
    include_priority: bool,
)
    requires
        matches_any(includes, path),
        matches_any(excludes, path),
    ensures
        inclusion(path, includes, excludes, include_priority) == include_priority,
{
}

/// The fields of `s` between commas, in order; there is always at least one.
pub open spec fn comma_fields(s: Seq<char>) -> Seq<Seq<char>>
    decreases s.len(),
{
    if s.len() == 0 {
        seq![Seq::empty()]
    } else {
        let f = comma_fields(s.drop_last());
        if s.last() == ',' {
            f.push(Seq::empty())
        } else if f.len() == 0 {
            seq![seq![s.last()]]
        } else {
            f.update(f.len() - 1, f.last().push(s.last()))
        }
    }
}

/// What `str::trim` leaves of `s`.
pub uninterp spec fn trim_of(s: Seq<char>) -> Seq<char>;

/// Relies on `str::trim`: the text without leading and trailing whitespace.
#[verifier::external_body]
fn trim(s: &str) -> (r: String)
    ensures
        r@ == trim_of(s@),
{
    s.trim().to_owned()
}

/// The patterns of a comma-separated list, each trimmed.
pub open spec fn pattern_list(s: Seq<char>) -> Seq<Seq<char>> {
    comma_fields(s).map_values(|f: Seq<char>| trim_of(f))
}

/// Splits a comma-separated list of patterns and trims each; no list, or an
/// empty one, gives no patterns.
pub fn parse_patterns(patterns: &Option<String>) -> (r: Vec<String>)
    ensures
        string_texts(r@) == match patterns {
            Some(p) => if p@.len() == 0 {
                Seq::empty()
            } else {
                pattern_list(p@)
            },
            None => Seq::empty(),
        },
{
    let p = match patterns {
        None => {
            let r: Vec<String> = Vec::new();
            assert(string_texts(r@) =~= Seq::empty());
            return r;
        },
        Some(p) => p,
    };
    let cs = chars_of(p.as_str());
    if cs.len() == 0 {
        let r: Vec<String> = Vec::new();
        assert(string_texts(r@) =~= Seq::empty());
        return r;
    }
    let mut fields: Vec<String> = Vec::new();
    let mut cur = String::new();
    let mut i: usize = 0;
    proof {
        assert(cs@.take(0) =~= Seq::<char>::empty());
        assert(string_texts(fields@).push(cur@) =~= seq![Seq::<char>::empty()]);
    }
    while i < cs.len()
        invariant
            i <= cs@.len(),
            cs@ == p@,
            string_texts(fields@).push(cur@) == comma_fields(cs@.take(i as int)),
        decreases cs.len() - i,
    {
        let c = cs[i];
        let ghost prev = string_texts(fields@).push(cur@);
        proof {
            assert(cs@.take(i + 1).drop_last() =~= cs@.take(i as int));
        }
        if c == ',' {
            let done = cur;
            fields.push(done);
            cur = String::new();
            assert(string_texts(fields@).push(cur@) =~= prev.push(Seq::empty()));
        } else {
            push_char(&mut cur, c);
            assert(string_texts(fields@).push(cur@) =~= prev.update(prev.len() - 1, prev.last().push(c)));
        }
        i += 1;
    }
    fields.push(cur);
    assert(cs@.take(cs@.len() as int) =~= cs@);
    let ghost raw = string_texts(fields@);
    let mut out: Vec<String> = Vec::new();
    let mut j: usize = 0;
    while j < fields.len()
        invariant
            j <= fields@.len(),
            raw == string_texts(fields@),
            raw == comma_fields(p@),
            string_texts(out@) == raw.take(j as int).map_values(|f: Seq<char>| trim_of(f)),
        decreases fields.len() - j,
    {
        let t = trim(fields[j].as_str());
        let ghost before = out@;
        out.push(t);
        assert(raw[j as int] == fields@[j as int]@);
        assert(out@ == before.push(t));
        assert(string_texts(out@) =~= string_texts(before).push(t@));
        assert(string_texts(out@) =~= raw.take(j + 1).map_values(|f: Seq<char>| trim_of(f)));
        j += 1;
    }
    assert(raw.take(raw.len() as int) =~= raw);
    out
}

} // verus!
