use hyprrun::hyprland::{Client, Workspace};
use hyprrun::matching::{
    invalid_regex_message, matches_all, parse_match_condition, unsupported_field_message,
    unsupported_method_message, MatchCondition, MatchField, MatchMethod, Matcher,
};

fn build_client(
    class: &str,
    initial_class: Option<&str>,
    title: Option<&str>,
    initial_title: Option<&str>,
    tag: Option<&str>,
    xdg_tag: Option<&str>,
) -> Client {
    Client {
        class: class.to_owned(),
        address: "0x123".to_owned(),
        initial_class: initial_class.map(str::to_owned),
        title: title.map(str::to_owned),
        initial_title: initial_title.map(str::to_owned),
        tag: tag.map(str::to_owned),
        xdg_tag: xdg_tag.map(str::to_owned),
        workspace: Workspace {
            id: 1,
            name: "1".to_owned(),
        },
        floating: false,
        monitor: 0,
        pinned: false,
        fullscreen: false,
        fullscreen_mode: 0,
        at: [0, 0],
        size: [0, 0],
    }
}

fn matches(condition: &MatchCondition, client: &Client) -> bool {
    condition.matches(client)
}

#[test]
fn matches_class_field() {
    let client = build_client("Firefox", None, None, None, None, None);
    let condition = MatchCondition::new(MatchField::Class, Matcher::Equals("firefox".to_string()));
    assert!(matches(&condition, &client));

    let failing = MatchCondition::new(MatchField::Class, Matcher::Equals("chromium".to_string()));
    assert!(!matches(&failing, &client));
}

#[test]
fn matches_title_field() {
    let client = build_client("Firefox", None, Some("Docs - Firefox"), None, None, None);
    let condition = MatchCondition::new(MatchField::Title, Matcher::Contains("docs".to_string()));
    assert!(matches(&condition, &client));

    let failing = MatchCondition::new(MatchField::Title, Matcher::Contains("other".to_string()));
    assert!(!matches(&failing, &client));
}

#[test]
fn matches_initial_class_field() {
    let client = build_client("Firefox", Some("firefox"), None, None, None, None);
    let condition = MatchCondition::new(
        MatchField::InitialClass,
        Matcher::Equals("firefox".to_string()),
    );
    assert!(matches(&condition, &client));

    let failing = MatchCondition::new(
        MatchField::InitialClass,
        Matcher::Equals("kitty".to_string()),
    );
    assert!(!matches(&failing, &client));
}

#[test]
fn matches_initial_title_field() {
    let client = build_client(
        "Firefox",
        None,
        Some("Docs - Firefox"),
        Some("Welcome"),
        None,
        None,
    );
    let condition = MatchCondition::new(
        MatchField::InitialTitle,
        Matcher::Equals("welcome".to_string()),
    );
    assert!(matches(&condition, &client));

    let failing = MatchCondition::new(
        MatchField::InitialTitle,
        Matcher::Equals("other".to_string()),
    );
    assert!(!matches(&failing, &client));
}

#[test]
fn matches_tag_field() {
    let client = build_client("Firefox", None, None, None, Some("work"), None);
    let condition = MatchCondition::new(MatchField::Tag, Matcher::Equals("work".to_string()));
    assert!(matches(&condition, &client));

    let failing = MatchCondition::new(MatchField::Tag, Matcher::Equals("play".to_string()));
    assert!(!matches(&failing, &client));
}

#[test]
fn matches_xdgtag_field() {
    let client = build_client("Firefox", None, None, None, None, Some("browser"));
    let condition =
        MatchCondition::new(MatchField::XdgTag, Matcher::Equals("browser".to_string()));
    assert!(matches(&condition, &client));

    let failing = MatchCondition::new(MatchField::XdgTag, Matcher::Equals("video".to_string()));
    assert!(!matches(&failing, &client));
}

#[test]
fn matcher_variants_behave_as_expected() {
    let client = build_client("Firebox", None, Some("Docs - Firebox"), None, None, None);

    let equals = Matcher::from_tokens(Some("equals"), "firebox").unwrap();
    assert!(equals.matches(&client.class));

    let contains = Matcher::from_tokens(Some("contains"), "docs").unwrap();
    assert!(contains.matches(client.title.as_deref().unwrap()));

    let prefix = Matcher::from_tokens(Some("prefix"), "docs").unwrap();
    assert!(prefix.matches(client.title.as_deref().unwrap()));

    let suffix = Matcher::from_tokens(Some("suffix"), "firebox").unwrap();
    assert!(suffix.matches(client.title.as_deref().unwrap()));

    let regex = Matcher::from_tokens(Some("regex"), "^Docs.*box$").unwrap();
    assert!(regex.matches(client.title.as_deref().unwrap()));
}

#[test]
fn parse_match_condition_supports_aliases() {
    let initial_class = parse_match_condition("initialClass=kitty").unwrap();
    assert!(matches(
        &initial_class,
        &build_client("kitty", Some("kitty"), None, None, None, None)
    ));

    let initial_title = parse_match_condition("initial-title=welcome").unwrap();
    assert!(matches(
        &initial_title,
        &build_client("App", None, Some("App - now"), Some("Welcome"), None, None)
    ));

    let xdg_tag = parse_match_condition("xdg-tag=browser").unwrap();
    assert!(matches(
        &xdg_tag,
        &build_client("App", None, None, None, None, Some("browser"))
    ));
}

#[test]
fn missing_field_never_matches() {
    let client = build_client("Firefox", None, None, None, None, None);
    let condition = MatchCondition::new(MatchField::Title, Matcher::Contains("".to_string()));
    assert!(!matches(&condition, &client));
    let tag = MatchCondition::new(MatchField::Tag, Matcher::Prefix("".to_string()));
    assert!(!matches(&tag, &client));
}

#[test]
fn field_names_and_aliases_parse() {
    assert_eq!(MatchField::parse("class"), Some(MatchField::Class));
    assert_eq!(MatchField::parse("c"), Some(MatchField::Class));
    assert_eq!(MatchField::parse("initial-class"), Some(MatchField::InitialClass));
    assert_eq!(MatchField::parse("initialClass"), Some(MatchField::InitialClass));
    assert_eq!(MatchField::parse("title"), Some(MatchField::Title));
    assert_eq!(MatchField::parse("initial-title"), Some(MatchField::InitialTitle));
    assert_eq!(MatchField::parse("initialTitle"), Some(MatchField::InitialTitle));
    assert_eq!(MatchField::parse("tag"), Some(MatchField::Tag));
    assert_eq!(MatchField::parse("xdgtag"), Some(MatchField::XdgTag));
    assert_eq!(MatchField::parse("xdg-tag"), Some(MatchField::XdgTag));
    assert_eq!(MatchField::parse("xdgTag"), Some(MatchField::XdgTag));
    assert_eq!(MatchField::parse("Class"), None);
    assert_eq!(MatchField::parse(""), None);
}

#[test]
fn field_value_reads_the_right_property() {
    let client = build_client("Kitty", Some("kitty"), Some("t"), None, Some("g"), None);
    assert_eq!(MatchField::Class.value(&client), Some("Kitty"));
    assert_eq!(MatchField::InitialClass.value(&client), Some("kitty"));
    assert_eq!(MatchField::Title.value(&client), Some("t"));
    assert_eq!(MatchField::InitialTitle.value(&client), None);
    assert_eq!(MatchField::Tag.value(&client), Some("g"));
    assert_eq!(MatchField::XdgTag.value(&client), None);
}

#[test]
fn method_aliases_select_methods() {
    let kinds = [
        ("equals", MatchMethod::Equals),
        ("eq", MatchMethod::Equals),
        ("contains", MatchMethod::Contains),
        ("substr", MatchMethod::Contains),
        ("prefix", MatchMethod::Prefix),
        ("starts-with", MatchMethod::Prefix),
        ("startswith", MatchMethod::Prefix),
        ("suffix", MatchMethod::Suffix),
        ("ends-with", MatchMethod::Suffix),
        ("endswith", MatchMethod::Suffix),
        ("regex", MatchMethod::Regex),
        ("re", MatchMethod::Regex),
    ];
    for (name, kind) in kinds {
        let m = Matcher::from_tokens(Some(name), "AbC").unwrap();
        let got = match &m {
            Matcher::Equals(p) => (MatchMethod::Equals, p.clone()),
            Matcher::Contains(p) => (MatchMethod::Contains, p.clone()),
            Matcher::Prefix(p) => (MatchMethod::Prefix, p.clone()),
            Matcher::Suffix(p) => (MatchMethod::Suffix, p.clone()),
            Matcher::Regex(p) => (MatchMethod::Regex, p.clone()),
        };
        assert_eq!(got.0, kind);
        if kind == MatchMethod::Regex {
            assert_eq!(got.1, "AbC");
        } else {
            assert_eq!(got.1, "abc");
        }
    }
}

#[test]
fn default_method_is_case_insensitive_contains() {
    let m = Matcher::from_tokens(None, "FireFox").unwrap();
    assert!(matches!(&m, Matcher::Contains(p) if p == "firefox"));
    assert!(m.matches("Mozilla FIREFOX"));
    assert!(m.matches("firefox"));
    assert!(!m.matches("fire fox"));
}

#[test]
fn textual_methods_ignore_case() {
    let eq = Matcher::from_tokens(Some("eq"), "Kitty").unwrap();
    assert!(eq.matches("KITTY"));
    assert!(eq.matches("kitty"));
    assert!(!eq.matches("kitty2"));
    let prefix = Matcher::from_tokens(Some("starts-with"), "DOC").unwrap();
    assert!(prefix.matches("docs - x"));
    assert!(!prefix.matches("x docs"));
    let suffix = Matcher::from_tokens(Some("ends-with"), "BOX").unwrap();
    assert!(suffix.matches("firebox"));
    assert!(!suffix.matches("boxer"));
}

#[test]
fn regex_is_case_sensitive_on_the_raw_value() {
    let m = Matcher::from_tokens(Some("re"), "^Docs").unwrap();
    assert!(m.matches("Docs - x"));
    assert!(!m.matches("docs - x"));
    let i = Matcher::from_tokens(Some("regex"), "(?i)daily").unwrap();
    assert!(i.matches("The DAILY standup"));
}

#[test]
fn unsupported_method_is_an_error() {
    let e = Matcher::from_tokens(Some("fuzzy"), "x").unwrap_err();
    assert_eq!(e, "Unsupported match method `fuzzy`");
}

#[test]
fn invalid_regex_is_an_error() {
    let e = Matcher::from_tokens(Some("regex"), "(").unwrap_err();
    assert!(e.starts_with("Invalid regex `(`: "));
    assert!(e.len() > "Invalid regex `(`: ".len());
}

#[test]
fn parse_errors() {
    assert_eq!(
        parse_match_condition("class").unwrap_err(),
        "Expected matcher in the form field[:method]=pattern"
    );
    assert_eq!(
        parse_match_condition("class=").unwrap_err(),
        "Matcher pattern cannot be empty"
    );
    assert_eq!(
        parse_match_condition("window=x").unwrap_err(),
        "Unsupported match field `window`"
    );
    assert_eq!(
        parse_match_condition("class:fuzzy=x").unwrap_err(),
        "Unsupported match method `fuzzy`"
    );
    assert!(parse_match_condition("title:regex=(")
        .unwrap_err()
        .starts_with("Invalid regex `(`: "));
}

#[test]
fn parse_splits_at_first_equals_and_colon() {
    let c = parse_match_condition("title:contains=a=b:c").unwrap();
    assert_eq!(c.field, MatchField::Title);
    assert!(matches!(&c.matcher, Matcher::Contains(p) if p == "a=b:c"));
    let d = parse_match_condition("class:eq=Slack").unwrap();
    assert_eq!(d.field, MatchField::Class);
    assert!(matches!(&d.matcher, Matcher::Equals(p) if p == "slack"));
    let r = parse_match_condition("title:regex=(?i)daily").unwrap();
    assert!(matches!(&r.matcher, Matcher::Regex(p) if p == "(?i)daily"));
}

#[test]
fn error_messages() {
    assert_eq!(invalid_regex_message("(", "boom"), "Invalid regex `(`: boom");
    assert_eq!(unsupported_method_message("x"), "Unsupported match method `x`");
    assert_eq!(unsupported_field_message("y"), "Unsupported match field `y`");
}

#[test]
fn lower_casing_is_unicode_aware() {
    let m = Matcher::from_tokens(Some("eq"), "ÄÖ").unwrap();
    assert!(matches!(&m, Matcher::Equals(p) if p == "äö"));
    assert!(m.matches("äÖ"));
}

#[test]
fn combined_matchers_all_have_to_match() {
    let client = build_client("Slack", None, Some("Daily standup"), None, None, None);
    let both = vec![
        parse_match_condition("class=slack").unwrap(),
        parse_match_condition("title:regex=(?i)daily").unwrap(),
    ];
    assert!(matches_all(&both, &client));
    let one_fails = vec![
        parse_match_condition("class=slack").unwrap(),
        parse_match_condition("title:prefix=weekly").unwrap(),
    ];
    assert!(!matches_all(&one_fails, &client));
    assert!(matches_all(&vec![], &client));
}
