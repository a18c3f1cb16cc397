//! Selecting windows by `field[:method]=pattern` matchers.

use vstd::prelude::*;

use crate::hyprland::Client;
use crate::text::{
    first_index, lemma_first_index, lemma_first_index_at,
    contains, contains_seq, ends_with, lowercase, split_once, split_once_spec, starts_with, str_eq,
    to_lowercase,
};

verus! {

/// Error text of compiling `pattern` with the `regex` crate, or `None` when it compiles.
pub uninterp spec fn regex_error(pattern: Seq<char>) -> Option<Seq<char>>;

/// Whether the regex compiled from `pattern` matches somewhere in `haystack`.
pub uninterp spec fn regex_finds(pattern: Seq<char>, haystack: Seq<char>) -> bool;

/// Calls `regex::Regex::new(pattern)` and, when that succeeds,
/// `Regex::is_match(haystack)`; a compile error is handed back as its display
/// text. Trusted: the outcome is a function of `pattern` and `haystack` alone,
/// named by `regex_error` and `regex_finds`; what regex syntax is accepted and
/// what it matches is left unsaid.
#[verifier::external_body]
fn regex_search(pattern: &str, haystack: &str) -> (r: Result<bool, String>)
    ensures
        match r {
            Ok(b) => regex_error(pattern@) is None && b == regex_finds(pattern@, haystack@),
            Err(e) => regex_error(pattern@) == Some(e@),
        },
{
    match regex::Regex::new(pattern) {
        Ok(re) => Ok(re.is_match(haystack)),
        Err(e) => Err(e.to_string()),
    }
}

/// A window property that a matcher can look at.
#[derive(Debug, Clone, Copy, PartialEq, Eq, Structural)]
pub enum MatchField {
    Class,
    InitialClass,
    Title,
    InitialTitle,
    Tag,
    XdgTag,
}

/// The field that a name (or one of its aliases) selects.
pub open spec fn parse_field_spec(raw: Seq<char>) -> Option<MatchField> {
    if raw == "class"@ || raw == "c"@ {
        Some(MatchField::Class)
    } else if raw == "initial-class"@ || raw == "initialClass"@ {
        Some(MatchField::InitialClass)
    } else if raw == "title"@ {
        Some(MatchField::Title)
    } else if raw == "initial-title"@ || raw == "initialTitle"@ {
        Some(MatchField::InitialTitle)
    } else if raw == "tag"@ {
        Some(MatchField::Tag)
    } else if raw == "xdgtag"@ || raw == "xdg-tag"@ || raw == "xdgTag"@ {
        Some(MatchField::XdgTag)
    } else {
        None
    }
}

/// The view of an optional string.
pub open spec fn opt_view(o: Option<String>) -> Option<Seq<char>> {
    match o {
        Some(s) => Some(s@),
        None => None,
    }
}

fn opt_str<'a>(o: &'a Option<String>) -> (r: Option<&'a str>)
    ensures
        match r {
            Some(s) => opt_view(*o) == Some(s@),
            None => o is None,
        },
{
    match o {
        Some(s) => Some(s.as_str()),
        None => None,
    }
}

impl MatchField {
    /// Parses a field name; `None` for an unknown name.
    pub fn parse(raw: &str) -> (r: Option<Self>)
        ensures
            r == parse_field_spec(raw@),
    {
        if str_eq(raw, "class") || str_eq(raw, "c") {
            Some(MatchField::Class)
        } else if str_eq(raw, "initial-class") || str_eq(raw, "initialClass") {
            Some(MatchField::InitialClass)
        } else if str_eq(raw, "title") {
            Some(MatchField::Title)
        } else if str_eq(raw, "initial-title") || str_eq(raw, "initialTitle") {
            Some(MatchField::InitialTitle)
        } else if str_eq(raw, "tag") {
            Some(MatchField::Tag)
        } else if str_eq(raw, "xdgtag") || str_eq(raw, "xdg-tag") || str_eq(raw, "xdgTag") {
            Some(MatchField::XdgTag)
        } else {
            None
        }
    }

    /// The value of this field on `client`; the class is always present.
    pub open spec fn value_spec(self, client: Client) -> Option<Seq<char>> {
        match self {
            MatchField::Class => Some(client.class@),
            MatchField::InitialClass => opt_view(client.initial_class),
            MatchField::Title => opt_view(client.title),
            MatchField::InitialTitle => opt_view(client.initial_title),
            MatchField::Tag => opt_view(client.tag),
            MatchField::XdgTag => opt_view(client.xdg_tag),
        }
    }

    /// The value of this field on `client`.
    pub fn value<'a>(&self, client: &'a Client) -> (r: Option<&'a str>)
        ensures
            match r {
                Some(v) => self.value_spec(*client) == Some(v@),
                None => self.value_spec(*client) is None,
            },
    {
        match self {
            MatchField::Class => Some(client.class.as_str()),
            MatchField::InitialClass => opt_str(&client.initial_class),
            MatchField::Title => opt_str(&client.title),
            MatchField::InitialTitle => opt_str(&client.initial_title),
            MatchField::Tag => opt_str(&client.tag),
            MatchField::XdgTag => opt_str(&client.xdg_tag),
        }
    }
}

/// How a matcher compares a value with its pattern.
#[derive(Debug, Clone, Copy, PartialEq, Eq, Structural)]
pub enum MatchMethod {
    Equals,
    Contains,
    Prefix,
    Suffix,
    Regex,
}

/// A comparison of a window property with a pattern. The textual methods
/// compare their pattern with the lower-cased value (`from_tokens` stores the
/// pattern lower-cased); `Regex` holds the source of a regex and tests the
/// value as it is, accepting nothing when the source does not compile.
#[derive(Debug, Clone)]
pub enum Matcher {
    Equals(String),
    Contains(String),
    Prefix(String),
    Suffix(String),
    Regex(String),
}

impl View for Matcher {
    type V = (MatchMethod, Seq<char>);

    open spec fn view(&self) -> (MatchMethod, Seq<char>) {
        match self {
            Matcher::Equals(p) => (MatchMethod::Equals, p@),
            Matcher::Contains(p) => (MatchMethod::Contains, p@),
            Matcher::Prefix(p) => (MatchMethod::Prefix, p@),
            Matcher::Suffix(p) => (MatchMethod::Suffix, p@),
            Matcher::Regex(p) => (MatchMethod::Regex, p@),
        }
    }
}

/// The method that a method name (or alias) selects.
pub open spec fn parse_method_spec(raw: Seq<char>) -> Option<MatchMethod> {
    if raw == "equals"@ || raw == "eq"@ {
        Some(MatchMethod::Equals)
    } else if raw == "contains"@ || raw == "substr"@ {
        Some(MatchMethod::Contains)
    } else if raw == "prefix"@ || raw == "starts-with"@ || raw == "startswith"@ {
        Some(MatchMethod::Prefix)
    } else if raw == "suffix"@ || raw == "ends-with"@ || raw == "endswith"@ {
        Some(MatchMethod::Suffix)
    } else if raw == "regex"@ || raw == "re"@ {
        Some(MatchMethod::Regex)
    } else {
        None
    }
}

/// What `Matcher::from_tokens` builds from a method name (`contains` when
/// absent) and a pattern, or the error text it gives.
pub open spec fn from_tokens_spec(method: Option<Seq<char>>, pattern: Seq<char>) -> Result<
    (MatchMethod, Seq<char>),
    Seq<char>,
> {
    let m = match method {
        Some(m) => m,
        None => "contains"@,
    };
    match parse_method_spec(m) {
        Some(MatchMethod::Regex) => match regex_error(pattern) {
            None => Ok((MatchMethod::Regex, pattern)),
            Some(e) => Err("Invalid regex `"@ + pattern + "`: "@ + e),
        },
        Some(k) => Ok((k, lowercase(pattern))),
        None => Err("Unsupported match method `"@ + m + "`"@),
    }
}

/// Whether a matcher with view `m` accepts the value `v`.
pub open spec fn matcher_accepts(m: (MatchMethod, Seq<char>), v: Seq<char>) -> bool {
    let p = m.1;
    match m.0 {
        MatchMethod::Equals => lowercase(v) == p,
        MatchMethod::Contains => contains_seq(lowercase(v), p),
        MatchMethod::Prefix => p.is_prefix_of(lowercase(v)),
        MatchMethod::Suffix => p.is_suffix_of(lowercase(v)),
        MatchMethod::Regex => regex_error(p) is None && regex_finds(p, v),
    }
}

/// The error text for a regex pattern that does not compile, given the
/// compiler's own message.
pub fn invalid_regex_message(pattern: &str, error: &str) -> (r: String)
    ensures
        r@ == "Invalid regex `"@ + pattern@ + "`: "@ + error@,
{
    let mut e = String::from_str("Invalid regex `");
    e.append(pattern);
    e.append("`: ");
    e.append(error);
    e
}

/// The error text for an unknown method name.
pub fn unsupported_method_message(method: &str) -> (r: String)
    ensures
        r@ == "Unsupported match method `"@ + method@ + "`"@,
{
    let mut e = String::from_str("Unsupported match method `");
    e.append(method);
    e.append("`");
    e
}

/// The error text for an unknown field name.
pub fn unsupported_field_message(field: &str) -> (r: String)
    ensures
        r@ == "Unsupported match field `"@ + field@ + "`"@,
{
    let mut e = String::from_str("Unsupported match field `");
    e.append(field);
    e.append("`");
    e
}

fn method_of(raw: &str) -> (r: Option<MatchMethod>)
    ensures
        r == parse_method_spec(raw@),
{
    if str_eq(raw, "equals") || str_eq(raw, "eq") {
        Some(MatchMethod::Equals)
    } else if str_eq(raw, "contains") || str_eq(raw, "substr") {
        Some(MatchMethod::Contains)
    } else if str_eq(raw, "prefix") || str_eq(raw, "starts-with") || str_eq(raw, "startswith") {
        Some(MatchMethod::Prefix)
    } else if str_eq(raw, "suffix") || str_eq(raw, "ends-with") || str_eq(raw, "endswith") {
        Some(MatchMethod::Suffix)
    } else if str_eq(raw, "regex") || str_eq(raw, "re") {
        Some(MatchMethod::Regex)
    } else {
        None
    }
}

impl Matcher {
    /// Builds a matcher from an optional method name and a pattern.
    pub fn from_tokens(method: Option<&str>, pattern: &str) -> (r: Result<Self, String>)
        ensures
            match r {
                Ok(m) => from_tokens_spec(
                    match method {
                        Some(s) => Some(s@),
                        None => None,
                    },
                    pattern@,
                ) == Ok::<(MatchMethod, Seq<char>), Seq<char>>(m@),
                Err(e) => from_tokens_spec(
                    match method {
                        Some(s) => Some(s@),
                        None => None,
                    },
                    pattern@,
                ) == Err::<(MatchMethod, Seq<char>), Seq<char>>(e@),
            },
    {
        let m = match method {
            Some(s) => s,
            None => "contains",
        };
        match method_of(m) {
            Some(MatchMethod::Equals) => Ok(Matcher::Equals(to_lowercase(pattern))),
            Some(MatchMethod::Contains) => Ok(Matcher::Contains(to_lowercase(pattern))),
            Some(MatchMethod::Prefix) => Ok(Matcher::Prefix(to_lowercase(pattern))),
            Some(MatchMethod::Suffix) => Ok(Matcher::Suffix(to_lowercase(pattern))),
            Some(MatchMethod::Regex) => match regex_search(pattern, "") {
                Ok(_) => Ok(Matcher::Regex(String::from_str(pattern))),
                Err(err) => Err(invalid_regex_message(pattern, err.as_str())),
            },
            None => Err(unsupported_method_message(m)),
        }
    }

    /// Whether `value` satisfies this matcher.
    pub fn matches(&self, value: &str) -> (r: bool)
        ensures
            r == matcher_accepts(self@, value@),
    {
        match self {
            Matcher::Equals(p) => str_eq(to_lowercase(value).as_str(), p.as_str()),
            Matcher::Contains(p) => contains(to_lowercase(value).as_str(), p.as_str()),
            Matcher::Prefix(p) => starts_with(to_lowercase(value).as_str(), p.as_str()),
            Matcher::Suffix(p) => ends_with(to_lowercase(value).as_str(), p.as_str()),
            Matcher::Regex(p) => match regex_search(p.as_str(), value) {
                Ok(b) => b,
                Err(_) => false,
            },
        }
    }
}


/// Without a method, a matcher tests whether the value contains the pattern,
/// ignoring case.
pub proof fn law_default_method_is_contains(pattern: Seq<char>)
    ensures
        from_tokens_spec(None, pattern) == Ok::<(MatchMethod, Seq<char>), Seq<char>>(
            (MatchMethod::Contains, lowercase(pattern)),
        ),
{
    reveal_strlit("contains");
    reveal_strlit("equals");
    reveal_strlit("eq");
    assert("contains"@.len() == 8);
    assert("equals"@.len() == 6);
    assert("eq"@.len() == 2);
    assert("contains"@ != "equals"@);
    assert("contains"@ != "eq"@);
}

/// What each textual method accepts, in terms of the lower-cased value `lv`:
/// `Equals` exactly the pattern, `Prefix` the pattern followed by anything,
/// `Suffix` anything followed by the pattern, and `Contains` the pattern with
/// anything on either side.
pub proof fn law_textual_methods_accept(p: Seq<char>, v: Seq<char>)
    ensures
        matcher_accepts((MatchMethod::Equals, p), v) == (lowercase(v) == p),
        matcher_accepts((MatchMethod::Prefix, p), v) == (exists|b: Seq<char>|
            lowercase(v) == p + b),
        matcher_accepts((MatchMethod::Suffix, p), v) == (exists|a: Seq<char>|
            lowercase(v) == a + p),
        matcher_accepts((MatchMethod::Contains, p), v) == (exists|a: Seq<char>, b: Seq<char>|
            lowercase(v) == a + p + b),
{
    let lv = lowercase(v);
    if p.is_prefix_of(lv) {
        assert(lv =~= p + lv.skip(p.len() as int));
    }
    assert forall|b: Seq<char>| lv == p + b implies p.is_prefix_of(lv) by {
        assert(lv.subrange(0, p.len() as int) =~= p);
    }
    if p.is_suffix_of(lv) {
        assert(lv =~= lv.take(lv.len() - p.len()) + p);
    }
    assert forall|a: Seq<char>| lv == a + p implies p.is_suffix_of(lv) by {
        assert(lv.subrange(lv.len() - p.len(), lv.len() as int) =~= p);
    }
    crate::text::law_contains_seq_splits(lv, p);
}

/// The textual methods ignore case: values with the same lower-case form are
/// accepted alike.
pub proof fn law_textual_methods_ignore_case(
    m: (MatchMethod, Seq<char>),
    v1: Seq<char>,
    v2: Seq<char>,
)
    requires
        m.0 != MatchMethod::Regex,
        lowercase(v1) == lowercase(v2),
    ensures
        matcher_accepts(m, v1) == matcher_accepts(m, v2),
{
}

/// A regex pattern is kept as written, while the textual methods keep their
/// pattern in lower case.
pub proof fn law_pattern_kept(method: Seq<char>, pattern: Seq<char>)
    ensures
        from_tokens_spec(Some(method), pattern) matches Ok(m) ==> m.1 == (if m.0
            == MatchMethod::Regex {
            pattern
        } else {
            lowercase(pattern)
        }),
{
}

/// One matcher applied to one window property.
#[derive(Debug, Clone)]
pub struct MatchCondition {
    pub field: MatchField,
    pub matcher: Matcher,
}

impl View for MatchCondition {
    type V = (MatchField, (MatchMethod, Seq<char>));

    open spec fn view(&self) -> (MatchField, (MatchMethod, Seq<char>)) {
        (self.field, self.matcher@)
    }
}

/// Whether a condition with view `c` accepts `client`: the field must be
/// present and its value accepted by the matcher.
pub open spec fn condition_accepts(c: (MatchField, (MatchMethod, Seq<char>)), client: Client) -> bool {
    match c.0.value_spec(client) {
        Some(v) => matcher_accepts(c.1, v),
        None => false,
    }
}

impl MatchCondition {
    /// A condition of `matcher` on `field`.
    pub fn new(field: MatchField, matcher: Matcher) -> (r: Self)
        ensures
            r.field == field,
            r.matcher == matcher,
    {
        MatchCondition { field, matcher }
    }

    /// Whether `client` satisfies this condition; a window that lacks the
    /// field never does.
    pub fn matches(&self, client: &Client) -> (r: bool)
        ensures
            r == condition_accepts(self@, *client),
    {
        match self.field.value(client) {
            Some(v) => self.matcher.matches(v),
            None => false,
        }
    }
}

/// Whether `client` satisfies every one of `conditions`; combined matchers
/// all have to match.
pub fn matches_all(conditions: &Vec<MatchCondition>, client: &Client) -> (r: bool)
    ensures
        r == (forall|i: int|
            0 <= i < conditions@.len() ==> condition_accepts(#[trigger] conditions@[i]@, *client)),
{
    let mut i: usize = 0;
    while i < conditions.len()
        invariant
            i <= conditions.len(),
            forall|j: int| 0 <= j < i ==> condition_accepts(#[trigger] conditions@[j]@, *client),
        decreases conditions.len() - i,
    {
        if !conditions[i].matches(client) {
            return false;
        }
        i += 1;
    }
    true
}

/// What `parse_match_condition` gives for the text `v`.
pub open spec fn parse_condition_spec(v: Seq<char>) -> Result<
    (MatchField, (MatchMethod, Seq<char>)),
    Seq<char>,
> {
    match split_once_spec(v, '=') {
        None => Err("Expected matcher in the form field[:method]=pattern"@),
        Some((selector, pattern)) => if pattern.len() == 0 {
            Err("Matcher pattern cannot be empty"@)
        } else {
            let (field_token, method_token) = match split_once_spec(selector, ':') {
                Some((f, m)) => (f, Some(m)),
                None => (selector, None),
            };
            match parse_field_spec(field_token) {
                None => Err("Unsupported match field `"@ + field_token + "`"@),
                Some(field) => match from_tokens_spec(method_token, pattern) {
                    Ok(m) => Ok((field, m)),
                    Err(e) => Err(e),
                },
            }
        },
    }
}

/// Without a method, `field=pattern` is a case-insensitive `contains` matcher
/// on the named field, with the pattern lower-cased; an unknown field name is
/// refused by name.
pub proof fn law_parse_without_method(f: Seq<char>, p: Seq<char>)
    requires
        !f.contains('='),
        !f.contains(':'),
        p.len() > 0,
    ensures
        parse_condition_spec(f + seq!['='] + p) == match parse_field_spec(f) {
            Some(field) => Ok::<(MatchField, (MatchMethod, Seq<char>)), Seq<char>>(
                (field, (MatchMethod::Contains, lowercase(p))),
            ),
            None => Err("Unsupported match field `"@ + f + "`"@),
        },
{
    let t = f + seq!['='] + p;
    assert forall|j: int| 0 <= j < f.len() implies t[j] != '=' by {
        assert(t[j] == f[j]);
    }
    assert(t[f.len() as int] == '=');
    lemma_first_index_at(t, '=', f.len() as int);
    assert(t.take(f.len() as int) =~= f);
    assert(t.skip(f.len() as int + 1) =~= p);
    lemma_first_index(f, ':');
    law_default_method_is_contains(p);
}

/// With a method, `field:method=pattern` builds that method's matcher on the
/// named field: the textual methods with the pattern lower-cased, `regex`
/// with the pattern as written when it compiles.
pub proof fn law_parse_with_method(f: Seq<char>, m: Seq<char>, p: Seq<char>)
    requires
        !f.contains('='),
        !f.contains(':'),
        !m.contains('='),
        p.len() > 0,
        parse_field_spec(f) is Some,
        parse_method_spec(m) is Some,
    ensures
        parse_condition_spec(f + seq![':'] + m + seq!['='] + p) == (if parse_method_spec(m)
            == Some(MatchMethod::Regex) {
            match regex_error(p) {
                None => Ok::<(MatchField, (MatchMethod, Seq<char>)), Seq<char>>(
                    (parse_field_spec(f)->0, (MatchMethod::Regex, p)),
                ),
                Some(e) => Err("Invalid regex `"@ + p + "`: "@ + e),
            }
        } else {
            Ok((parse_field_spec(f)->0, (parse_method_spec(m)->0, lowercase(p))))
        }),
{
    let sel = f + seq![':'] + m;
    let t = sel + seq!['='] + p;
    assert(f + seq![':'] + m + seq!['='] + p =~= t);
    let k = sel.len() as int;
    assert forall|j: int| 0 <= j < k implies t[j] != '=' by {
        assert(t[j] == sel[j]);
        if j < f.len() {
            assert(sel[j] == f[j]);
        } else if j > f.len() {
            assert(sel[j] == m[j - f.len() - 1]);
        }
    }
    assert(t[k] == '=');
    lemma_first_index_at(t, '=', k);
    assert(t.take(k) =~= sel);
    assert(t.skip(k + 1) =~= p);
    assert forall|j: int| 0 <= j < f.len() implies sel[j] != ':' by {
        assert(sel[j] == f[j]);
    }
    assert(sel[f.len() as int] == ':');
    lemma_first_index_at(sel, ':', f.len() as int);
    assert(sel.take(f.len() as int) =~= f);
    assert(sel.skip(f.len() as int + 1) =~= m);
}

/// Parses `field[:method]=pattern` into a condition.
pub fn parse_match_condition(value: &str) -> (r: Result<MatchCondition, String>)
    ensures
        match r {
            Ok(c) => parse_condition_spec(value@) == Ok::<
                (MatchField, (MatchMethod, Seq<char>)),
                Seq<char>,
            >(c@),
            Err(e) => parse_condition_spec(value@) == Err::<
                (MatchField, (MatchMethod, Seq<char>)),
                Seq<char>,
            >(e@),
        },
{
    let (selector, pattern) = match split_once(value, '=') {
        Some(parts) => parts,
        None => {
            return Err(String::from_str("Expected matcher in the form field[:method]=pattern"));
        },
    };
    if pattern.unicode_len() == 0 {
        return Err(String::from_str("Matcher pattern cannot be empty"));
    }
    let (field_token, method_token) = match split_once(selector, ':') {
        Some((field, method)) => (field, Some(method)),
        None => (selector, None),
    };
    let field = match MatchField::parse(field_token) {
        Some(f) => f,
        None => {
            return Err(unsupported_field_message(field_token));
        },
    };
    match Matcher::from_tokens(method_token, pattern) {
        Ok(matcher) => Ok(MatchCondition::new(field, matcher)),
        Err(e) => Err(e),
    }
}

} // verus!
