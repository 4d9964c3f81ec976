use std::collections::HashMap;

use clockstop::icon::solid_clock_icon;
use clockstop::menu::{menu_data, separator_data, ClockstopMenu};
use clockstop::output::{sample, sample_printed, Listing, Output};
use clockstop::picker::{choices, choose_minutes, picked, Choice};
use clockstop::sample::Sample;
use clockstop::service::{goes_on, item_name, Registration, TraySignal, ATTEMPTS, PAUSE_MILLIS};
use clockstop::state::{Phase, SessionView, SharedState};
use clockstop::time::Span;
use clockstop::tray::{default_session, ClockstopItem, TrayRequest};
use clockstop::watch::AppCommand;
use zbus::zvariant::{OwnedValue, Value};

fn text(value: &str) -> OwnedValue {
    OwnedValue::try_from(Value::from(value)).unwrap()
}

fn flag(value: bool) -> OwnedValue {
    OwnedValue::try_from(Value::from(value)).unwrap()
}

fn drifting() -> SharedState {
    let mut state = SharedState::idle(25);
    state.phase = Phase::Drift;
    state.session = Some(SessionView {
        duration: Span::from_secs(1500),
        remaining: Span::from_secs(719),
        bucket: Span::new(21, 999_999_999),
        snapshot: Sample::parse("app=a"),
        delta: Sample::parse("app=b").apps,
    });
    state
}

/// The number, the label and whether it is enabled, for each line of the menu.
fn lines(state: &SharedState) -> Vec<(i32, Option<String>, Option<bool>)> {
    ClockstopMenu { state }
        .nodes()
        .into_iter()
        .map(|node| {
            let fields: HashMap<String, OwnedValue> = node.fields.into_iter().collect();
            let label = fields.get("label").map(|v| v.downcast_ref::<&str>().unwrap().to_string());
            let enabled = fields.get("enabled").map(|v| v.downcast_ref::<bool>().unwrap());
            assert_eq!(fields.get("visible"), Some(&flag(true)));
            if label.is_none() {
                assert_eq!(fields.get("type"), Some(&text("separator")));
                assert_eq!(fields.len(), 2);
            } else {
                assert_eq!(fields.len(), 3);
            }
            (node.id, label, enabled)
        })
        .collect()
}

fn minutes_asked(request: TrayRequest) -> Option<u64> {
    match request {
        TrayRequest::Send(AppCommand::Start(length)) => Some(length.as_secs() / 60),
        _ => None,
    }
}

fn minutes_chosen(choice: Choice) -> Result<u64, String> {
    match choice {
        Choice::Send(AppCommand::Start(length)) => Ok(length.as_secs() / 60),
        Choice::Tell(words) => Err(words),
        _ => panic!("neither a session nor a word"),
    }
}

fn output(success: bool, stdout: &[u8], stderr: &[u8]) -> Output {
    Output { success, stdout: stdout.to_vec(), stderr: stderr.to_vec() }
}

#[test]
fn titles_tell_phase_and_time() {
    let idle = SharedState::idle(25);
    assert_eq!(ClockstopItem { state: &idle }.title_text(), "clockstop: idle");
    let state = drifting();
    assert_eq!(ClockstopItem { state: &state }.title_text(), "clockstop: Drifting 11m left");
}

#[test]
fn drift_and_lock_need_attention() {
    for (phase, status) in [
        (Phase::Idle, "Active"),
        (Phase::Running, "Active"),
        (Phase::Drift, "NeedsAttention"),
        (Phase::Locked, "NeedsAttention"),
        (Phase::Cooldown, "Active"),
    ] {
        let mut state = SharedState::idle(25);
        state.phase = phase;
        assert_eq!(ClockstopItem { state: &state }.status_text(), status);
    }
}

#[test]
fn the_icon_has_the_colour_of_the_phase() {
    for (phase, color) in [
        (Phase::Idle, (0x8a, 0x8f, 0x98)),
        (Phase::Running, (0x3f, 0xc9, 0x77)),
        (Phase::Drift, (0xf0, 0xb4, 0x29)),
        (Phase::Locked, (0xef, 0x44, 0x44)),
        (Phase::Cooldown, (0x60, 0xa5, 0xfa)),
    ] {
        let mut state = SharedState::idle(25);
        state.phase = phase;
        let icons = ClockstopItem { state: &state }.icon_pixmap_data();
        assert_eq!(icons.len(), 1);
        assert_eq!((icons[0].0, icons[0].1), (32, 32));
        assert_eq!(icons[0].2, drawn(32, color));
    }
}

/// A clock drawn in floating point.
fn drawn(size: i32, (r, g, b): (u8, u8, u8)) -> Vec<u8> {
    let mut data = Vec::new();
    let center = (size as f32 - 1.0) / 2.0;
    let radius = size as f32 * 0.42;
    let inner = radius * 0.72;
    for y in 0..size {
        for x in 0..size {
            let dx = x as f32 - center;
            let dy = y as f32 - center;
            let dist = (dx * dx + dy * dy).sqrt();
            let ring = dist <= radius && dist >= inner;
            let long = dx.abs() <= 1.0 && dy <= 1.0 && dy >= -inner;
            let short = dy.abs() <= 1.0 && dx >= -1.0 && dx <= inner * 0.62;
            data.extend(if ring || long || short { [0xff, r, g, b] } else { [0, 0, 0, 0] });
        }
    }
    data
}

#[test]
fn icons_are_drawn_as_in_floating_point() {
    for size in (1..=130).chain([255, 256, 512, 625, 1250]) {
        let icon = solid_clock_icon(size, (1, 2, 3));
        assert_eq!((icon.width, icon.height), (size, size));
        assert!(icon.data == drawn(size, (1, 2, 3)), "size {size}");
    }
}

#[test]
fn an_icon_has_four_bytes_a_pixel() {
    let icon = solid_clock_icon(32, (7, 8, 9));
    assert_eq!(icon.data.len(), 4 * 32 * 32);
    let pixel = |x: usize, y: usize| icon.data[4 * (32 * y + x)..][..4].to_vec();
    assert_eq!(pixel(0, 0), vec![0, 0, 0, 0]);
    assert_eq!(pixel(15, 15), vec![0xff, 7, 8, 9]);
    assert_eq!(pixel(3, 15), vec![0xff, 7, 8, 9]);
    assert_eq!(pixel(10, 20), vec![0, 0, 0, 0]);
}

#[test]
fn an_icon_without_size_is_empty() {
    for size in [0, -1, -23170] {
        let icon = solid_clock_icon(size, (1, 2, 3));
        assert_eq!((icon.width, icon.height), (size, size));
        assert!(icon.data.is_empty());
    }
}

#[test]
fn the_tool_tip_tells_the_last_event() {
    let mut state = drifting();
    state.last_event = "drift warning: b+1".to_string();
    let (icon, pixmaps, title, description) = ClockstopItem { state: &state }.tool_tip();
    assert_eq!(icon, "");
    assert!(pixmaps.is_empty());
    assert_eq!(title, "clockstop: Drifting 11m left");
    assert_eq!(description, "drift warning: b+1");
}

#[test]
fn the_menu_has_its_path() {
    let state = SharedState::idle(25);
    assert_eq!(ClockstopItem { state: &state }.menu().unwrap().as_str(), "/MenuBar");
}

#[test]
fn clicks_ask_for_sessions() {
    let state = SharedState::idle(40);
    let item = ClockstopItem { state: &state };
    assert_eq!(minutes_asked(item.activate(3, 4)), Some(40));
    assert_eq!(minutes_asked(default_session(&state)), Some(40));
    assert!(matches!(item.context_menu(0, 0), TrayRequest::OpenPicker));
    assert!(matches!(item.secondary_activate(0, 0), TrayRequest::OpenPicker));
    assert!(matches!(item.scroll(1, "vertical"), TrayRequest::Nothing));
    let longest = SharedState::idle(u64::MAX / 60);
    assert_eq!(minutes_asked(ClockstopItem { state: &longest }.activate(0, 0)), Some(u64::MAX / 60));
}

#[test]
fn menu_lines_tell_the_idle_state() {
    let label = |s: &str| Some(s.to_string());
    assert_eq!(
        lines(&SharedState::idle(25)),
        vec![
            (1, label("Start 25 min"), Some(true)),
            (2, label("Start custom..."), Some(true)),
            (3, None, None),
            (4, label("Stop"), Some(false)),
            (5, label("Status notification"), Some(true)),
            (6, label("Idle | default 25m"), Some(false)),
            (7, None, None),
            (8, label("Quit"), Some(true)),
        ]
    );
}

#[test]
fn menu_lines_tell_the_session() {
    let all = lines(&drifting());
    assert_eq!(all[3].2, Some(true));
    assert_eq!(all[5].1.as_deref(), Some("Drifting | 11m left | drift 21s"));
    assert_eq!(all[5].2, Some(false));
}

#[test]
fn menu_data_holds_its_properties() {
    let node = menu_data(-4, "l", false);
    assert_eq!(node.id, -4);
    let fields: HashMap<String, OwnedValue> = node.fields.into_iter().collect();
    assert_eq!(fields["label"], text("l"));
    assert_eq!(fields["enabled"], flag(false));
    let node = separator_data(9);
    assert_eq!(node.id, 9);
    let fields: HashMap<String, OwnedValue> = node.fields.into_iter().collect();
    assert_eq!(fields["type"], text("separator"));
}

#[test]
fn the_layout_holds_the_lines_as_values() {
    let state = drifting();
    let menu = ClockstopMenu { state: &state };
    let (revision, (root, properties, children)) = menu.layout();
    assert_eq!((revision, root, properties.len()), (1, 0, 0));
    let expected: Vec<OwnedValue> = menu
        .nodes()
        .into_iter()
        .map(|node| {
            let fields: HashMap<String, OwnedValue> = node.fields.into_iter().collect();
            let node = (node.id, fields, Vec::<OwnedValue>::new());
            OwnedValue::try_from(Value::from(node)).unwrap()
        })
        .collect();
    assert_eq!(expected.len(), 8);
    assert_eq!(children, expected);
    assert_eq!(children[0].value_signature().to_string(), "(ia{sv}av)");
    let (revision, (root, _, children)) = menu.get_layout(5, 1);
    assert_eq!((revision, root), (1, 0));
    assert_eq!(children, expected);
    assert!(menu.about_to_show(0));
}

#[test]
fn menu_clicks_ask_for_what_they_say() {
    let state = SharedState::idle(30);
    let menu = ClockstopMenu { state: &state };
    assert_eq!(minutes_asked(menu.event(1, "clicked")), Some(30));
    assert!(matches!(menu.event(2, "clicked"), TrayRequest::OpenPicker));
    assert!(matches!(menu.event(4, "clicked"), TrayRequest::Send(AppCommand::Stop)));
    assert!(matches!(menu.event(5, "clicked"), TrayRequest::Send(AppCommand::Status)));
    assert!(matches!(menu.event(8, "clicked"), TrayRequest::Send(AppCommand::Quit)));
    for id in [-1, 0, 3, 6, 7, 9] {
        assert!(matches!(menu.event(id, "clicked"), TrayRequest::Nothing));
    }
    for id in 0..9 {
        assert!(matches!(menu.event(id, "hovered"), TrayRequest::Nothing));
        assert!(matches!(menu.event(id, "Clicked"), TrayRequest::Nothing));
    }
}

#[test]
fn groups_of_lines_are_handed_out() {
    let state = SharedState::idle(30);
    let menu = ClockstopMenu { state: &state };
    let ids = |wanted: Vec<i32>| -> Vec<i32> {
        let (revision, group) = menu.get_group_properties(&wanted);
        assert_eq!(revision, 1);
        group.iter().map(|node| node.id).collect()
    };
    assert_eq!(ids(vec![]), vec![1, 2, 3, 4, 5, 6, 7, 8]);
    assert_eq!(ids(vec![8, 2, 2, 99]), vec![2, 8]);
    assert_eq!(ids(vec![0]), Vec::<i32>::new());
}

#[test]
fn properties_are_handed_out() {
    let state = SharedState::idle(30);
    let menu = ClockstopMenu { state: &state };
    assert_eq!(menu.get_property(1, "label").unwrap(), text("Start 30 min"));
    assert_eq!(menu.get_property(4, "enabled").unwrap(), flag(false));
    assert_eq!(menu.get_property(3, "type").unwrap(), text("separator"));
    assert_eq!(menu.get_property(3, "visible").unwrap(), flag(true));
    let unknown = |id: i32, name: &str| menu.get_property(id, name).unwrap_err();
    assert_eq!(unknown(3, "label"), "unknown menu property 3:label");
    assert_eq!(unknown(0, "label"), "unknown menu property 0:label");
    assert_eq!(unknown(-12, ""), "unknown menu property -12:");
}

#[test]
fn given_listings_are_sampled() {
    let found = sample(Listing::Given("app=a\napp=a".to_string())).unwrap();
    assert_eq!(found.apps.get("a"), Some(2));
}

#[test]
fn printed_listings_are_sampled() {
    let found = sample(Listing::Printed(output(true, "app=é\n".as_bytes(), b"noise"))).unwrap();
    assert_eq!(found.apps.get("é"), Some(1));
    let found = sample(Listing::Printed(output(true, b"app=a\xffb\n", b""))).unwrap();
    assert_eq!(found.apps.get("a\u{fffd}b"), Some(1));
    let found = sample_printed(true, "app=x", "").unwrap();
    assert_eq!(found.windows.get("x\tapp=x"), Some(1));
}

#[test]
fn failed_listings_are_errors() {
    let why = sample(Listing::Printed(output(false, b"app=a", b" no such \xff\n"))).err();
    assert_eq!(why.as_deref(), Some("sample command failed: no such \u{fffd}"));
    let why = sample_printed(false, "app=a", "\n").err();
    assert_eq!(why.as_deref(), Some("sample command failed: "));
    let why = sample(Listing::NotStarted("gone".to_string())).err();
    assert_eq!(why.as_deref(), Some("sample command failed to start: gone"));
}

#[test]
fn lengths_are_offered() {
    assert_eq!(choices(30), "30\n15\n25\n45\n60\n90\n");
}

#[test]
fn offered_lengths_can_be_chosen() {
    for line in choices(480).lines() {
        let printed = format!("{line}\n");
        assert_eq!(minutes_chosen(choose_minutes(&printed)), Ok(line.parse().unwrap()));
    }
}

#[test]
fn lengths_out_of_range_are_refused() {
    let refused = Err("custom session needs 1-480 minutes".to_string());
    for text in ["0", "481", "", "ten", "-5", "1.5", "18446744073709551616"] {
        assert_eq!(minutes_chosen(choose_minutes(text)), refused);
    }
    assert_eq!(minutes_chosen(choose_minutes(" 1 ")), Ok(1));
    assert_eq!(minutes_chosen(choose_minutes("480")), Ok(480));
    assert_eq!(minutes_chosen(choose_minutes("+45\n")), Ok(45));
}

#[test]
fn commands_pick_lengths() {
    assert_eq!(minutes_chosen(picked(&Some(output(true, b"45\n", b"")))), Ok(45));
    assert_eq!(
        minutes_chosen(picked(&Some(output(true, b"45\xff", b"")))),
        Err("custom session needs 1-480 minutes".to_string())
    );
    assert!(matches!(picked(&Some(output(false, b"45\n", b""))), Choice::Nothing));
    assert_eq!(
        minutes_chosen(picked(&None)),
        Err("custom picker failed; check CLOCKSTOP_PICKER_CMD".to_string())
    );
}

#[test]
fn registration_is_tried_ten_times() {
    assert_eq!((ATTEMPTS, PAUSE_MILLIS), (10, 250));
    let mut state = Registration::first();
    for attempt in 1..=10 {
        assert_eq!(state, Registration::Try(attempt));
        assert_eq!(state.next(true), Registration::Done);
        state = state.next(false);
    }
    assert_eq!(state, Registration::GivenUp);
    assert_eq!(state.next(true), Registration::GivenUp);
    assert_eq!(Registration::Done.next(false), Registration::Done);
}

#[test]
fn the_service_goes_on_for_updates_alone() {
    assert!(goes_on(Some(TraySignal::Update)));
    assert!(!goes_on(Some(TraySignal::Shutdown)));
    assert!(!goes_on(None));
}

#[test]
fn the_item_is_named_after_its_process() {
    assert_eq!(item_name(0), "org.kde.StatusNotifierItem-0-1");
    assert_eq!(item_name(4294967295), "org.kde.StatusNotifierItem-4294967295-1");
}
