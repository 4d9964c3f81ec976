use clockstop::drift::{delta_text, population_delta};
use clockstop::identity::{extract_app_id, extract_key_value, identity_app, window_identity};
use clockstop::population::Population;
use clockstop::sample::{parse_population, window_population, Sample};

fn entries(population: &Population) -> Vec<(String, u64)> {
    (0..population.len())
        .map(|i| population.entry(i))
        .map(|(name, count)| (name.to_string(), count))
        .collect()
}

fn counted(list: &[(&str, u64)]) -> Vec<(String, u64)> {
    list.iter().map(|(name, count)| (name.to_string(), *count)).collect()
}

fn value(line: &str, key: &str) -> Option<String> {
    extract_key_value(line, key)
}

#[test]
fn values_follow_their_keys() {
    assert_eq!(value("app_id=foot title=x", "app_id").as_deref(), Some("foot"));
    assert_eq!(value("app_id: foot", "app_id").as_deref(), Some("foot"));
    assert_eq!(value("app_id \t=  foot", "app_id").as_deref(), Some("foot"));
    assert_eq!(value("app_id foot", "app_id").as_deref(), Some("foot"));
    assert_eq!(value("app_id==foot", "app_id").as_deref(), Some("=foot"));
    assert_eq!(value("APP_ID=Foot", "app_id").as_deref(), Some("Foot"));
    assert_eq!(value("title=é App_Id=ü", "app_id").as_deref(), Some("ü"));
}

#[test]
fn values_may_be_quoted() {
    assert_eq!(value("app_id=\"a b\" c", "app_id").as_deref(), Some("a b"));
    assert_eq!(value("app_id='a\"b' c", "app_id").as_deref(), Some("a\"b"));
    assert_eq!(value("app_id=\"open", "app_id").as_deref(), Some("open"));
    assert_eq!(value("app_id=\"\"", "app_id").as_deref(), Some(""));
    assert_eq!(value("app_id='", "app_id").as_deref(), Some(""));
}

#[test]
fn values_lose_their_commas() {
    assert_eq!(value("app_id=foot, title=x", "app_id").as_deref(), Some("foot"));
    assert_eq!(value("app_id=,,a,b,,", "app_id").as_deref(), Some("a,b"));
    assert_eq!(value("app_id=,", "app_id").as_deref(), Some(""));
}

#[test]
fn missing_values_are_none() {
    assert_eq!(value("title=x", "app_id"), None);
    assert_eq!(value("app_id", "app_id"), None);
    assert_eq!(value("app_id=  ", "app_id"), None);
    assert_eq!(value("", "app_id"), None);
    assert_eq!(value("ap", "app"), None);
}

#[test]
fn only_the_first_occurrence_of_a_key_counts() {
    assert_eq!(value("app_id=a app_id=b", "app_id").as_deref(), Some("a"));
    assert_eq!(value("xapp_idy", "app_id").as_deref(), Some("y"));
}

#[test]
fn keys_are_tried_in_order() {
    assert_eq!(extract_app_id("app=a appid=b app-id=c app_id=d").as_deref(), Some("d"));
    assert_eq!(extract_app_id("app=a appid=b app-id=c").as_deref(), Some("c"));
    assert_eq!(extract_app_id("app=a appid=b").as_deref(), Some("b"));
    assert_eq!(extract_app_id("title=t app=a").as_deref(), Some("a"));
}

#[test]
fn a_line_without_key_starts_with_its_application() {
    assert_eq!(extract_app_id("firefox: Home").as_deref(), Some("firefox:"));
    assert_eq!(extract_app_id("  [foot], x").as_deref(), Some("foot"));
    assert_eq!(extract_app_id("42 foot"), None);
    assert_eq!(extract_app_id("(42) foot"), None);
    assert_eq!(extract_app_id("[] foot"), None);
    assert_eq!(extract_app_id("4x foot").as_deref(), Some("4x"));
    assert_eq!(extract_app_id("   "), None);
}

#[test]
fn an_identity_is_the_application_and_the_line() {
    assert_eq!(
        window_identity("app_id=foot   title=\ta  b ").as_deref(),
        Some("foot\tapp_id=foot title= a b")
    );
    assert_eq!(window_identity("7"), None);
}

#[test]
fn an_identity_belongs_to_its_application() {
    assert_eq!(identity_app("foot\tapp_id=foot\tx"), "foot");
    assert_eq!(identity_app("foot"), "foot");
    assert_eq!(identity_app(""), "");
    let line = "app_id=é title=x";
    let id = window_identity(line).unwrap();
    assert_eq!(Some(identity_app(&id).to_string()), extract_app_id(line));
}

#[test]
fn repeated_windows_are_numbered() {
    let raw = "app_id=foot title=a\r\n\n  app_id=foot  title=a\napp_id=foot title=b\n12\napp_id=foot title=a";
    assert_eq!(
        entries(&window_population(raw)),
        counted(&[
            ("foot\tapp_id=foot title=a", 1),
            ("foot\tapp_id=foot title=a#2", 1),
            ("foot\tapp_id=foot title=a#3", 1),
            ("foot\tapp_id=foot title=b", 1),
        ])
    );
    assert_eq!(entries(&window_population("")), counted(&[]));
}

#[test]
fn a_numbered_window_can_meet_a_listed_one() {
    assert_eq!(
        entries(&window_population("x#2\nx\nx")),
        counted(&[("x\tx", 1), ("x\tx#2", 1), ("x#2\tx#2", 1)])
    );
    let raw = "app=x x#2\napp=x x\napp=x x";
    assert_eq!(
        entries(&window_population(raw)),
        counted(&[("x\tapp=x x", 1), ("x\tapp=x x#2", 1)])
    );
}

#[test]
fn a_population_counts_application_ids() {
    let raw = "app_id=foot title=a\napp_id=foot title=b\napp_id=mpv title=c\n";
    assert_eq!(entries(&parse_population(raw)), counted(&[("foot", 2), ("mpv", 1)]));
    let delta = population_delta(
        &parse_population("app_id=foot title=a"),
        &parse_population("app_id=foot title=b"),
    );
    assert!(delta.is_empty());
}

#[test]
fn one_more_window_is_a_drift_of_one() {
    let start = "app=a\napp=b";
    let now = format!("{start}\napp=b new");
    let delta = population_delta(&parse_population(start), &parse_population(&now));
    assert_eq!(entries(&delta), counted(&[("b", 1)]));
}

#[test]
fn applications_are_counted() {
    let raw = "app_id=foot title=a\napp_id=firefox\n\napp_id=foot title=b\n12\n";
    assert_eq!(entries(&parse_population(raw)), counted(&[("firefox", 1), ("foot", 2)]));
    let sample = Sample::parse(raw);
    assert_eq!(entries(&sample.apps), counted(&[("firefox", 1), ("foot", 2)]));
    assert_eq!(sample.windows.len(), 3);
    assert_eq!(entries(&sample.clone().windows), entries(&sample.windows));
}

#[test]
fn populations_are_listed_by_name() {
    let mut population = Population::new();
    assert!(population.is_empty());
    for name in ["b", "é", "", "a", "B", "\u{10000}", "\u{ffff}", "ab", "a"] {
        population.add_count(name, 2);
    }
    let mut expected = counted(&[
        ("b", 2), ("é", 2), ("", 2), ("a", 4), ("B", 2), ("\u{10000}", 2), ("\u{ffff}", 2), ("ab", 2),
    ]);
    expected.sort();
    assert_eq!(entries(&population), expected);
    assert_eq!(entries(&population.clone()), expected);
    assert_eq!(population.len(), 8);
    assert!(!population.is_empty());
    assert_eq!(population.get("a"), Some(4));
    assert_eq!(population.get("c"), None);
}

#[test]
fn drift_is_what_applications_have_more_of() {
    let start = parse_population("app=a\napp=a\napp=b\napp=c");
    let now = parse_population("app=a\napp=a\napp=a\napp=a\napp=d\napp=c");
    let delta = population_delta(&start, &now);
    assert_eq!(entries(&delta), counted(&[("a", 2), ("d", 1)]));
    assert_eq!(delta_text(&delta), "a+2, d+1");
}

#[test]
fn a_new_application_is_drift() {
    let delta = population_delta(&parse_population("app=a"), &parse_population("app=a\napp=z"));
    assert_eq!(entries(&delta), counted(&[("z", 1)]));
}

#[test]
fn a_new_title_is_no_drift() {
    let delta = population_delta(
        &parse_population("app=a title=one"),
        &parse_population("app=a title=two"),
    );
    assert!(delta.is_empty());
}

#[test]
fn closing_windows_is_no_drift() {
    let delta = population_delta(&parse_population("app=a\napp=a\napp=b"), &parse_population("app=a"));
    assert!(delta.is_empty());
    assert_eq!(delta_text(&delta), "none");
}

#[test]
fn drift_is_told_by_application() {
    let mut delta = Population::new();
    delta.add_count("foot\ta", 1);
    delta.add_count("foot\tb", 2);
    delta.add_count("a-first", 10);
    delta.add_count("foo", 1);
    assert_eq!(delta_text(&delta), "a-first+10, foo+1, foot+3");
}

#[test]
fn the_order_and_layout_of_a_listing_do_not_matter() {
    let a = Sample::parse("app=x one\napp=y\napp=x one\nfoot\napp=x two");
    let b = Sample::parse("\n  app=x two\t\r\n\napp=x one\n   \nfoot \napp=y\n\u{a0}app=x one \n\n");
    assert_eq!(entries(&a.windows), entries(&b.windows));
    assert_eq!(entries(&a.apps), entries(&b.apps));
    assert_eq!(a.windows.get("x\tapp=x one#2"), Some(1));
    assert!(population_delta(&a.apps, &b.apps).is_empty());
}

#[test]
fn the_spacing_of_a_line_does_not_matter() {
    let lines = [
        "  app_id \t=  foot,   title:\u{3000}a  b ",
        "xAPP-ID   :y  z",
        "appid",
        "title  App   \t last",
        " (foot)   bar ",
        "  12   34 ",
    ];
    for line in lines {
        let normal = line.split_whitespace().collect::<Vec<_>>().join(" ");
        assert_eq!(window_identity(line), window_identity(&normal));
        assert_eq!(
            window_identity(line),
            extract_app_id(line).map(|app| format!("{app}\t{normal}"))
        );
    }
    assert_eq!(window_identity(lines[0]).as_deref(), Some("foot\tapp_id = foot, title: a b"));
    assert_eq!(extract_app_id("app_id=\"a  b\"").as_deref(), Some("a  b"));
}
