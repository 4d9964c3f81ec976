//! What holds of the tray, its menu and its icon, of commands and what they print, and of the choice
//! of a length, whatever the state is.
use vstd::prelude::*;
use vstd::string::*;
use zbus::zvariant::{OwnedObjectPath, OwnedValue};

use crate::icon::{solid_clock_icon, TrayIcon, ABOVE, LARGEST, LEAST};
use crate::menu::{menu_data, separator_data, ClockstopMenu, Item, MenuLayout, MenuNodeData};
use crate::number::{parse_u64, to_decimal};
use crate::output::{sample, sample_printed, Listing, Output};
use crate::picker::{choices, choose_minutes, picked, Choice};
use crate::sample::Sample;
use crate::service::{goes_on, item_name, Registration, TraySignal};
use crate::state::{Phase, SessionView, SharedState};
use crate::text::{trim, Class};
use crate::time::Span;
use crate::tray::{default_session, ClockstopItem, TrayRequest};
use crate::watch::{AppCommand, Effect, Watch};

verus! {

use crate::icon::{
    excess, inner, is_lit, law_icon_pixels, lemma_excess, lemma_excess_at_least,
    lemma_excess_at_most, lemma_powers, lemma_rounded_quotient, radius, reach, rounded,
    rounded_quotient, two_to, Single,
};
use crate::laws::windows::{lemma_apps_in, lines_naming, number_of};
use crate::menu::{chosen, has_property, items, lemma_names, lemma_property_at, menu_items};
use crate::number::{decimal, signed_decimal};
use crate::output::lossy_text;
use crate::value::{distinct, flag_value, named_at, node_value, path_value, properties, text_value};

/// The length of the session that a request asks for, if it asks for one.
pub open spec fn length_asked(request: TrayRequest) -> Option<nat> {
    match request {
        TrayRequest::Send(AppCommand::Start(length)) => Some(length@),
        _ => None,
    }
}

/// A click asks for a session of the default number of minutes and no rest, whether on the item or on
/// the first line of the menu.
pub proof fn law_click_asks_for_the_default(
    state: &SharedState,
    x: i32,
    y: i32,
    event_id: &str,
    request: TrayRequest,
    clicked: TrayRequest,
    chosen: TrayRequest,
)
    requires
        state.default_minutes * 60 <= u64::MAX,
        event_id@ == "clicked"@,
        call_ensures(default_session, (state,), request),
        call_ensures(ClockstopItem::activate, (&(ClockstopItem { state }), x, y), clicked),
        call_ensures(ClockstopMenu::event, (&(ClockstopMenu { state }), 1i32, event_id), chosen),
    ensures
        length_asked(request) is Some,
        length_asked(request)->0 == state.default_minutes * 60_000_000_000,
        length_asked(clicked) == length_asked(request),
        length_asked(chosen) == length_asked(request),
{
}

/// Starting the session that a click asks for leaves the default as it was, unless there was none.
pub proof fn law_default_stays_the_default(
    shown: &SharedState,
    length: Span,
    watch: &mut Watch,
    state: &mut SharedState,
    snapshot: Sample,
    started_at: Span,
    last_tick: Span,
    now: Span,
    todo: Vec<Effect>,
)
    requires
        shown.default_minutes * 60 <= u64::MAX,
        shown.default_minutes >= 1,
        call_ensures(default_session, (shown,), TrayRequest::Send(AppCommand::Start(length))),
        call_ensures(
            Watch::start,
            (watch, state, length, snapshot, started_at, last_tick, now),
            todo,
        ),
    ensures
        final(state).default_minutes == shown.default_minutes,
{
    crate::laws::law_whole_minutes(shown.default_minutes as nat);
}

/// What the other ways to click on the item ask for.
pub proof fn law_other_clicks(
    item: &ClockstopItem<'_>,
    x: i32,
    y: i32,
    delta: i32,
    orientation: &str,
    menu: TrayRequest,
    second: TrayRequest,
    wheel: TrayRequest,
)
    requires
        call_ensures(ClockstopItem::context_menu, (item, x, y), menu),
        call_ensures(ClockstopItem::secondary_activate, (item, x, y), second),
        call_ensures(ClockstopItem::scroll, (item, delta, orientation), wheel),
    ensures
        menu is OpenPicker,
        second is OpenPicker,
        wheel is Nothing,
{
}

/// The title tells the phase and the whole minutes that are left.
pub proof fn law_title(
    item: &ClockstopItem<'_>,
    shown: &SessionView,
    label: &'static str,
    left: u64,
    title: String,
)
    requires
        item.state.session is Some ==> *shown == item.state.session->0,
        call_ensures(Phase::label, (item.state.phase,), label),
        left as int * 60_000_000_000 <= shown.remaining@ < (left + 1) * 60_000_000_000,
        call_ensures(ClockstopItem::title_text, (item,), title),
    ensures
        item.state.session is None ==> title@ == "clockstop: idle"@,
        item.state.session is Some ==> title@ == "clockstop: "@ + label@ + " "@ + decimal(
            left as nat,
        ) + "m left"@,
{
    assert(crate::watch::minutes(shown.remaining@) == left);
}

/// The item needs attention exactly while there is drift or the lock.
pub proof fn law_attention(item: &ClockstopItem<'_>, status: String)
    requires
        call_ensures(ClockstopItem::status_text, (item,), status),
    ensures
        item.state.phase is Drift || item.state.phase is Locked ==> status@ == "NeedsAttention"@,
        item.state.phase is Idle || item.state.phase is Running || item.state.phase is Cooldown
            ==> status@ == "Active"@,
{
}

/// The item shows one clock in the colour of its phase.
pub proof fn law_item_icon(
    item: &ClockstopItem<'_>,
    color: (u8, u8, u8),
    icon: TrayIcon,
    icons: Vec<(i32, i32, Vec<u8>)>,
)
    requires
        item.state.phase is Idle ==> color == (0x8au8, 0x8fu8, 0x98u8),
        item.state.phase is Running ==> color == (0x3fu8, 0xc9u8, 0x77u8),
        item.state.phase is Drift ==> color == (0xf0u8, 0xb4u8, 0x29u8),
        item.state.phase is Locked ==> color == (0xefu8, 0x44u8, 0x44u8),
        item.state.phase is Cooldown ==> color == (0x60u8, 0xa5u8, 0xfau8),
        call_ensures(solid_clock_icon, (32i32, color), icon),
        call_ensures(ClockstopItem::icon_pixmap_data, (item,), icons),
    ensures
        icons@.len() == 1,
        icons@[0].0 == 32 && icons@[0].1 == 32,
        icons@[0].2@ == icon.data@,
{
}

/// The tool tip shows the title and the last event, and the menu is served where it says.
pub proof fn law_tool_tip(
    item: &ClockstopItem<'_>,
    title: String,
    tip: (String, Vec<(i32, i32, Vec<u8>)>, String, String),
    path: Result<OwnedObjectPath, String>,
)
    requires
        call_ensures(ClockstopItem::title_text, (item,), title),
        call_ensures(ClockstopItem::tool_tip, (item,), tip),
        call_ensures(ClockstopItem::menu, (item,), path),
    ensures
        tip.0@.len() == 0,
        tip.1@.len() == 0,
        tip.2@ == title@,
        tip.3@ == item.state.last_event@,
        path is Ok && path->Ok_0 == path_value("/MenuBar"@),
{
}

/// Whether a node has the property `name` of the value `value`.
pub open spec fn has(node: MenuNodeData, name: Seq<char>, value: OwnedValue) -> bool {
    exists|k: int| 0 <= k < node.fields@.len() && #[trigger] node.fields@[k].0@ == name
        && node.fields@[k].1 == value
}

/// Whether a node has no property `name`.
pub open spec fn lacks(node: MenuNodeData, name: Seq<char>) -> bool {
    forall|k: int| 0 <= k < node.fields@.len() ==> #[trigger] node.fields@[k].0@ != name
}

/// Whether a node is a line with a label: its properties are that, whether it is enabled, and that it
/// is visible.
pub open spec fn is_line(node: MenuNodeData, id: i32, label: Seq<char>, enabled: bool) -> bool {
    &&& node.id == id
    &&& has(node, "label"@, text_value(label))
    &&& has(node, "enabled"@, flag_value(enabled))
    &&& has(node, "visible"@, flag_value(true))
    &&& forall|k: int|
        0 <= k < node.fields@.len() ==> #[trigger] node.fields@[k].0@ == "label"@
            || node.fields@[k].0@ == "enabled"@ || node.fields@[k].0@ == "visible"@
    &&& distinct(node.fields@)
}

/// Whether a node is a line between groups: its properties are that, and that it is visible.
pub open spec fn is_separator(node: MenuNodeData, id: i32) -> bool {
    &&& node.id == id
    &&& has(node, "type"@, text_value("separator"@))
    &&& has(node, "visible"@, flag_value(true))
    &&& forall|k: int|
        0 <= k < node.fields@.len() ==> #[trigger] node.fields@[k].0@ == "type"@
            || node.fields@[k].0@ == "visible"@
    &&& distinct(node.fields@)
}

proof fn lemma_has(node: MenuNodeData, name: Seq<char>)
    requires
        distinct(node.fields@),
        properties(node.fields@).contains_key(name),
    ensures
        has(node, name, properties(node.fields@)[name]),
{
    let k = choose|k: int| named_at(node.fields@, k, name);
    lemma_property_at(node.fields@, k);
    assert(node.fields@[k].0@ == name);
}

proof fn lemma_line(node: MenuNodeData, id: i32, label: Seq<char>, enabled: bool)
    requires
        node.valid(),
        node.item() == crate::menu::labelled(id, label, enabled),
    ensures
        is_line(node, id, label, enabled),
{
    lemma_names();
    lemma_has(node, "label"@);
    lemma_has(node, "enabled"@);
    lemma_has(node, "visible"@);
    assert forall|k: int| 0 <= k < node.fields@.len() implies #[trigger] node.fields@[k].0@
        == "label"@ || node.fields@[k].0@ == "enabled"@ || node.fields@[k].0@ == "visible"@ by {
        lemma_property_at(node.fields@, k);
    }
}

proof fn lemma_separator(node: MenuNodeData, id: i32)
    requires
        node.valid(),
        node.item() == crate::menu::separating(id),
    ensures
        is_separator(node, id),
{
    lemma_names();
    lemma_has(node, "type"@);
    lemma_has(node, "visible"@);
    assert forall|k: int| 0 <= k < node.fields@.len() implies #[trigger] node.fields@[k].0@
        == "type"@ || node.fields@[k].0@ == "visible"@ by {
        lemma_property_at(node.fields@, k);
    }
}

/// What the nodes of a menu hold.
pub proof fn law_nodes_hold_their_properties(
    id: i32,
    label: &str,
    enabled: bool,
    line: MenuNodeData,
    separator: MenuNodeData,
)
    requires
        call_ensures(menu_data, (id, label, enabled), line),
        call_ensures(separator_data, (id,), separator),
    ensures
        is_line(line, id, label@, enabled),
        is_separator(separator, id),
{
    lemma_line(line, id, label@, enabled);
    lemma_separator(separator, id);
}

/// The lines of the menu: the first starts the default session, that to stop is enabled while there
/// is a session, and the sixth tells the state with the whole minutes left and the seconds of drift,
/// or else the default.
pub proof fn law_menu_lines(
    menu: &ClockstopMenu<'_>,
    shown: &SessionView,
    label: &'static str,
    left: u64,
    drift: u64,
    list: Vec<MenuNodeData>,
)
    requires
        menu.state.session is Some ==> *shown == menu.state.session->0,
        call_ensures(Phase::label, (menu.state.phase,), label),
        left as int * 60_000_000_000 <= shown.remaining@ < (left + 1) * 60_000_000_000,
        drift as int * 1_000_000_000 <= shown.bucket@ < (drift + 1) * 1_000_000_000,
        call_ensures(ClockstopMenu::nodes, (menu,), list),
    ensures
        list@.len() == 8,
        is_line(
            list@[0],
            1,
            "Start "@ + decimal(menu.state.default_minutes as nat) + " min"@,
            true,
        ),
        is_line(list@[1], 2, "Start custom..."@, true),
        is_separator(list@[2], 3),
        is_line(list@[3], 4, "Stop"@, menu.state.session is Some),
        is_line(list@[4], 5, "Status notification"@, true),
        is_line(
            list@[5],
            6,
            if menu.state.session is Some {
                label@ + " | "@ + decimal(left as nat) + "m left | drift "@ + decimal(drift as nat)
                    + "s"@
            } else {
                "Idle | default "@ + decimal(menu.state.default_minutes as nat) + "m"@
            },
            false,
        ),
        is_separator(list@[6], 7),
        is_line(list@[7], 8, "Quit"@, true),
{
    let all = menu_items(*menu.state);
    assert(crate::watch::minutes(shown.remaining@) == left);
    assert(SharedState::secs(shown.bucket) == drift);
    assert(items(list@).len() == list@.len());
    assert forall|i: int| 0 <= i < 8 implies (#[trigger] list@[i]).item() == all[i] && list@[
        i
    ].valid() by {
        assert(items(list@)[i] == list@[i].item());
    }
    lemma_line(
        list@[0],
        1,
        "Start "@ + decimal(menu.state.default_minutes as nat) + " min"@,
        true,
    );
    lemma_line(list@[1], 2, "Start custom..."@, true);
    lemma_separator(list@[2], 3);
    lemma_line(list@[3], 4, "Stop"@, menu.state.session is Some);
    lemma_line(list@[4], 5, "Status notification"@, true);
    lemma_line(list@[5], 6, crate::menu::status_line(*menu.state), false);
    lemma_separator(list@[6], 7);
    lemma_line(list@[7], 8, "Quit"@, true);
}

/// Only clicks ask for anything, and each for what its line says.
pub proof fn law_menu_events(
    menu: &ClockstopMenu<'_>,
    id: i32,
    event_id: &str,
    shown: bool,
    request: TrayRequest,
)
    requires
        id == 1 && event_id@ == "clicked"@ ==> menu.state.default_minutes * 60 <= u64::MAX,
        call_ensures(ClockstopMenu::about_to_show, (menu, id), shown),
        call_ensures(ClockstopMenu::event, (menu, id, event_id), request),
    ensures
        shown,
        event_id@ != "clicked"@ ==> request is Nothing,
        event_id@ == "clicked"@ ==> {
            &&& length_asked(request) is Some <==> id == 1
            &&& request is OpenPicker <==> id == 2
            &&& request == TrayRequest::Send(AppCommand::Stop) <==> id == 4
            &&& request == TrayRequest::Send(AppCommand::Status) <==> id == 5
            &&& request == TrayRequest::Send(AppCommand::Quit) <==> id == 8
            &&& request is Nothing <==> !(id == 1 || id == 2 || id == 4 || id == 5 || id == 8)
        },
{
}

/// The menu as a whole has the lines of the menu as bus values, in their order, whichever part of it
/// is asked for.
pub proof fn law_layout_holds_the_lines(
    menu: &ClockstopMenu<'_>,
    parent_id: i32,
    depth: i32,
    list: Vec<MenuNodeData>,
    layout: MenuLayout,
    part: MenuLayout,
)
    requires
        call_ensures(ClockstopMenu::nodes, (menu,), list),
        call_ensures(ClockstopMenu::layout, (menu,), layout),
        call_ensures(ClockstopMenu::get_layout, (menu, parent_id, depth), part),
    ensures
        layout.0 == 1,
        layout.1.0 == 0,
        layout.1.1@.len() == 0,
        layout.1.2@.len() == list@.len(),
        forall|i: int|
            0 <= i < list@.len() ==> #[trigger] layout.1.2@[i] == node_value(
                list@[i].id,
                properties(list@[i].fields@),
            ),
        part.0 == layout.0,
        part.1.0 == layout.1.0,
        part.1.1@.len() == 0,
        part.1.2@ == layout.1.2@,
{
    assert(items(list@).len() == list@.len());
    assert forall|i: int| 0 <= i < list@.len() implies #[trigger] layout.1.2@[i] == node_value(
        list@[i].id,
        properties(list@[i].fields@),
    ) by {
        assert(items(list@)[i] == list@[i].item());
    }
}

proof fn lemma_chosen(list: Seq<Item>, ids: Seq<i32>)
    ensures
        chosen(list, ids) == list.filter(|item: Item| ids.len() == 0 || ids.contains(item.0)),
    decreases list.len(),
{
    reveal(Seq::filter);
    if list.len() > 0 {
        lemma_chosen(list.drop_last(), ids);
    }
}

/// The lines that are handed out are those that are named, or all where none is, in the order of the
/// menu.
pub proof fn law_groups_of_lines(
    menu: &ClockstopMenu<'_>,
    ids: &Vec<i32>,
    list: Vec<MenuNodeData>,
    group: (u32, Vec<MenuNodeData>),
)
    requires
        call_ensures(ClockstopMenu::nodes, (menu,), list),
        call_ensures(ClockstopMenu::get_group_properties, (menu, ids), group),
    ensures
        group.0 == 1,
        items(group.1@) == items(list@).filter(
            |item: Item| ids@.len() == 0 || ids@.contains(item.0),
        ),
{
    lemma_chosen(items(list@), ids@);
}

/// A property is handed out exactly where the line with that number has it, with its value.
pub proof fn law_properties_of_lines(
    menu: &ClockstopMenu<'_>,
    id: i32,
    name: &str,
    list: Vec<MenuNodeData>,
    found: Result<OwnedValue, String>,
)
    requires
        call_ensures(ClockstopMenu::nodes, (menu,), list),
        call_ensures(ClockstopMenu::get_property, (menu, id, name), found),
    ensures
        found is Ok ==> exists|i: int|
            0 <= i < list@.len() && #[trigger] list@[i].id == id && has(
                list@[i],
                name@,
                found->Ok_0,
            ),
        found is Err ==> forall|i: int|
            0 <= i < list@.len() && #[trigger] list@[i].id == id ==> lacks(list@[i], name@),
        found is Err ==> found->Err_0@ == "unknown menu property "@ + signed_decimal(id as int)
            + ":"@ + name@,
{
    let all = menu_items(*menu.state);
    assert(items(list@).len() == list@.len());
    if found is Ok {
        let i = choose|i: int|
            #[trigger] has_property(all, i, id, name@) && found->Ok_0 == all[i].1[name@];
        assert(items(list@)[i] == list@[i].item());
        lemma_has(list@[i], name@);
        assert(list@[i].id == id);
    } else {
        assert forall|i: int| 0 <= i < list@.len() && #[trigger] list@[i].id == id implies lacks(
            list@[i],
            name@,
        ) by {
            assert(items(list@)[i] == list@[i].item());
            assert(!has_property(all, i, id, name@));
            assert forall|k: int| 0 <= k < list@[i].fields@.len() implies #[trigger] list@[
                i
            ].fields@[k].0@ != name@ by {
                lemma_property_at(list@[i].fields@, k);
            }
        }
    }
}

/// What a command prints is sampled as what is given: for every application as many windows as lines
/// of all of it name it. It is sampled exactly where the command succeeded.
pub proof fn law_printed_is_sampled_as_given(
    raw: String,
    stdout: &str,
    stderr: &str,
    success: bool,
    given: Result<Sample, String>,
    printed: Result<Sample, String>,
)
    requires
        stdout@ == raw@,
        call_ensures(sample, (Listing::Given(raw),), given),
        call_ensures(sample_printed, (success, stdout, stderr), printed),
    ensures
        given is Ok,
        printed is Ok <==> success,
        printed is Ok ==> printed->Ok_0.apps@ == given->Ok_0.apps@,
        printed is Ok ==> printed->Ok_0.windows@ == given->Ok_0.windows@,
        forall|app: Seq<char>| #[trigger]
            number_of(given->Ok_0.apps@, app) == lines_naming(raw@, app),
{
    lemma_apps_in(raw@);
}

/// A command that did not succeed is told with what it complained about, without the white space
/// around it.
pub proof fn law_failures_are_told(
    stdout: &str,
    stderr: &str,
    complaint: &str,
    cause: String,
    printed: Result<Sample, String>,
    missing: Result<Sample, String>,
)
    requires
        call_ensures(trim, (stderr, Class::Space), complaint),
        call_ensures(sample_printed, (false, stdout, stderr), printed),
        call_ensures(sample, (Listing::NotStarted(cause),), missing),
    ensures
        printed is Err && printed->Err_0@ == "sample command failed: "@ + complaint@,
        missing is Err && missing->Err_0@ == "sample command failed to start: "@ + cause@,
{
}

/// What a command left behind is sampled as the text of what it printed.
pub proof fn law_output_is_sampled_as_text(
    output: Output,
    stdout: &str,
    stderr: &str,
    result: Result<Sample, String>,
    printed: Result<Sample, String>,
)
    requires
        stdout@ == lossy_text(output.stdout@),
        stderr@ == lossy_text(output.stderr@),
        call_ensures(sample, (Listing::Printed(output),), result),
        call_ensures(sample_printed, (output.success, stdout, stderr), printed),
    ensures
        result is Ok <==> printed is Ok,
        result is Ok ==> result->Ok_0.apps@ == printed->Ok_0.apps@,
        result is Ok ==> result->Ok_0.windows@ == printed->Ok_0.windows@,
        result is Err ==> result->Err_0@ == printed->Err_0@,
{
}

/// The length of the session that a choice starts, if it starts one.
pub open spec fn length_chosen(choice: Choice) -> Option<nat> {
    match choice {
        Choice::Send(AppCommand::Start(length)) => Some(length@),
        _ => None,
    }
}

/// A number of minutes between one and 480, with or without white space around it, starts a session of
/// so many minutes and no rest; all else is refused in words.
pub proof fn law_choice_is_taken(text: &str, core: &str, n: Option<u64>, choice: Choice)
    requires
        call_ensures(trim, (text, Class::Space), core),
        call_ensures(parse_u64, (core,), n),
        call_ensures(choose_minutes, (text,), choice),
    ensures
        length_chosen(choice) is Some <==> n is Some && 1 <= n->0 <= 480,
        length_chosen(choice) is Some ==> length_chosen(choice)->0 == n->0 * 60_000_000_000,
        length_chosen(choice) is None ==> (choice matches Choice::Tell(words) && words@
            == "custom session needs 1-480 minutes"@),
{
}

/// What is offered is the default and then the fixed lengths, one a line.
pub proof fn law_lengths_offered(default_minutes: u64, number: String, text: String)
    requires
        call_ensures(to_decimal, (default_minutes as u128,), number),
        call_ensures(choices, (default_minutes,), text),
    ensures
        text@ == number@ + "\n15\n25\n45\n60\n90\n"@,
{
}

/// What a command picked is taken as what it printed; where it did not succeed nothing comes of it,
/// and where it could not be run the user is told.
pub proof fn law_picking(output: Output, text: &str, direct: Choice, choice: Choice, failed: Choice)
    requires
        text@ == lossy_text(output.stdout@),
        call_ensures(choose_minutes, (text,), direct),
        call_ensures(picked, (&Some(output),), choice),
        call_ensures(picked, (&None::<Output>,), failed),
    ensures
        output.success ==> length_chosen(choice) == length_chosen(direct),
        output.success ==> (choice is Tell <==> direct is Tell),
        output.success && choice is Tell ==> choice->Tell_0@ == direct->Tell_0@,
        !output.success ==> choice is Nothing,
        failed is Tell && failed->Tell_0@ == "custom picker failed; check CLOCKSTOP_PICKER_CMD"@,
{
}

/// Registration is tried again after each failure, ten times in all, and is done with the first
/// success.
pub proof fn law_registration(
    r: Registration,
    first: Registration,
    won: Registration,
    lost: Registration,
)
    requires
        call_ensures(Registration::first, (), first),
        call_ensures(Registration::next, (r, true), won),
        call_ensures(Registration::next, (r, false), lost),
    ensures
        first == Registration::Try(1),
        r matches Registration::Try(n) ==> won is Done && (if n < 10 {
            lost is Try && lost->Try_0 == n + 1
        } else {
            lost is GivenUp
        }),
        !(r is Try) ==> won == r && lost == r,
{
}

/// The service goes on for an update, and ends when it is told to or when nobody tells it anything.
pub proof fn law_service_goes_on(update: bool, shutdown: bool, silence: bool)
    requires
        call_ensures(goes_on, (Some(TraySignal::Update),), update),
        call_ensures(goes_on, (Some(TraySignal::Shutdown),), shutdown),
        call_ensures(goes_on, (None::<TraySignal>,), silence),
    ensures
        update,
        !shutdown,
        !silence,
{
}

/// The item of every process has a name of its own.
pub proof fn law_item_names(pid: u32, number: String, name: String)
    requires
        call_ensures(to_decimal, (pid as u128,), number),
        call_ensures(item_name, (pid,), name),
    ensures
        name@ == "org.kde.StatusNotifierItem-"@ + number@ + "-1"@,
{
}

/// Rounding is off by half a unit at most.
proof fn lemma_rounded_quotient_near(n: nat, u: nat)
    requires
        u >= 1,
    ensures
        2 * (rounded_quotient(n, u) * u - n) <= u,
        2 * (n - rounded_quotient(n, u) * u) <= u,
        2 * (rounded_quotient(n, u) * u - n) == u ==> rounded_quotient(n, u) % 2 == 0,
        2 * (n - rounded_quotient(n, u) * u) == u ==> rounded_quotient(n, u) % 2 == 0,
{
    let q = n / u;
    let r = n % u;
    assert(n == q * u + r && 0 <= r < u) by (nonlinear_arith)
        requires
            u >= 1,
            q == n / u,
            r == n % u,
    ;
    assert((q + 1) * u == q * u + u) by (nonlinear_arith);
}

/// The nearest single is off by half a unit of its last place at most.
proof fn lemma_nearest(n: nat, e: nat)
    requires
        n >= LEAST,
        excess(n) < e,
    ensures
        ({
            let (m, p) = Single::nearest(n, e);
            &&& LEAST <= m < ABOVE
            &&& p <= e
            &&& 2 * (m * two_to((e - p) as nat) - n) <= two_to((e - p) as nat)
            &&& 2 * (n - m * two_to((e - p) as nat)) <= two_to((e - p) as nat)
            &&& 2 * (m * two_to((e - p) as nat) - n) == two_to((e - p) as nat) ==> m % 2 == 0
            &&& 2 * (n - m * two_to((e - p) as nat)) == two_to((e - p) as nat) ==> m % 2 == 0
        }),
{
    let k = excess(n);
    lemma_excess(n);
    lemma_rounded_quotient(n);
    lemma_rounded_quotient_near(n, two_to(k));
    let m = rounded_quotient(n, two_to(k));
    let (mantissa, p) = Single::nearest(n, e);
    if m == ABOVE {
        assert((e - p) as nat == k + 1);
        assert(two_to(k + 1) == 2 * two_to(k));
        assert(mantissa * two_to(k + 1) == m * two_to(k)) by (nonlinear_arith)
            requires
                mantissa == 0x80_0000,
                m == 0x100_0000,
                two_to(k + 1) == 2 * two_to(k),
        ;
    } else {
        assert((e - p) as nat == k);
    }
}

/// Whether `m` divided by two to the power `p` is the single nearest to `n` divided by two to the
/// power `e`: off by half a unit of its last place at most, and the even one where it is half a unit.
pub open spec fn is_near(m: nat, p: nat, n: nat, e: nat) -> bool {
    &&& 0x80_0000 <= m < 0x100_0000
    &&& p <= e
    &&& 2 * (m * two_to((e - p) as nat) - n) <= two_to((e - p) as nat)
    &&& 2 * (n - m * two_to((e - p) as nat)) <= two_to((e - p) as nat)
    &&& 2 * (m * two_to((e - p) as nat) - n) == two_to((e - p) as nat) ==> m % 2 == 0
    &&& 2 * (n - m * two_to((e - p) as nat)) == two_to((e - p) as nat) ==> m % 2 == 0
}

/// The measures of the clock are 0.42 of its size, 0.72 of that, and 0.62 of that again, each with 24
/// significant bits.
pub proof fn law_icon_measures(size: nat)
    requires
        1 <= size <= LARGEST,
    ensures
        is_near(radius(size).0, radius(size).1, size * 14_092_861, 25),
        is_near(inner(size).0, inner(size).1, radius(size).0 * 12_079_596, radius(size).1 + 24),
        is_near(reach(size).0, reach(size).1, inner(size).0 * 10_401_874, inner(size).1 + 24),
        two_to(0) == 1,
        forall|k: nat| #[trigger] two_to(k + 1) == 2 * two_to(k),
{
    lemma_powers();
    let n = size * 14_092_861;
    lemma_excess_at_most(n, 15);
    lemma_nearest(n, 25);
    let m = radius(size).0;
    assert(0x80_0000 * 12_079_596 <= m * 12_079_596 <= 0x100_0000 * 12_079_596) by (nonlinear_arith)
        requires
            0x80_0000 <= m <= 0x100_0000,
    ;
    lemma_excess_at_most(m * 12_079_596, 24);
    lemma_excess_at_least(m * 12_079_596, 23);
    assert(radius(size).1 >= 9) by {
        assert(excess(n) <= 15);
    }
    lemma_nearest(m * 12_079_596, radius(size).1 + 24);
    let m = inner(size).0;
    assert(0x80_0000 * 10_401_874 <= m * 10_401_874 <= 0x100_0000 * 10_401_874) by (nonlinear_arith)
        requires
            0x80_0000 <= m <= 0x100_0000,
    ;
    lemma_excess_at_most(m * 10_401_874, 24);
    lemma_excess_at_least(m * 10_401_874, 23);
    assert(inner(size).1 >= 8);
    lemma_nearest(m * 10_401_874, inner(size).1 + 24);
}

/// Sums of squares are kept with 24 significant bits: exactly as far as those go, and else off by half
/// a unit of their last place at most, and to the even side where it is half a unit.
pub proof fn law_icon_rounding(n: nat)
    ensures
        n < 0x100_0000 ==> rounded(n) == n,
        2 * (rounded(n) - n) <= two_to(excess(n)),
        2 * (n - rounded(n)) <= two_to(excess(n)),
        n >= 0x100_0000 ==> two_to(excess(n)) * 0x80_0000 <= n < two_to(excess(n)) * 0x100_0000,
        exists|q: nat|
            {
                &&& rounded(n) == #[trigger] (q * two_to(excess(n)))
                &&& 2 * (rounded(n) - n) == two_to(excess(n)) ==> q % 2 == 0
                &&& 2 * (n - rounded(n)) == two_to(excess(n)) ==> q % 2 == 0
            },
{
    lemma_excess(n);
    lemma_rounded_quotient_near(n, two_to(excess(n)));
    assert(rounded(n) == rounded_quotient(n, two_to(excess(n))) * two_to(excess(n)));
    if n < 0x100_0000 {
        assert(two_to(0) == 1);
        assert(n / 1 == n && n % 1 == 0);
    }
}

/// Every pixel of an icon is opaque and in the colour asked for where it lies on the rim or on a hand
/// of the clock, and else nothing. With `dx` and `dy` for twice its distance from the centre to the
/// right and downwards, it lies on the rim where half the root of the sum of their squares is between
/// the inner and the outer radius; on the long hand where it is within one of the middle and reaches
/// from one below the centre up to the inner radius; and on the short hand likewise to the right.
pub proof fn law_icon(size: i32, color: (u8, u8, u8), x: int, y: int, icon: TrayIcon)
    requires
        -LARGEST <= size <= LARGEST,
        call_ensures(solid_clock_icon, (size, color), icon),
        0 <= x < size,
        0 <= y < size,
    ensures
        icon.width == size && icon.height == size,
        icon.data@.len() == 4 * (size * size),
        ({
            let dx = 2 * x - (size - 1);
            let dy = 2 * y - (size - 1);
            let s = rounded(rounded((dx * dx) as nat) + rounded((dy * dy) as nat));
            let (outer, a) = radius(size as nat);
            let (rim, b) = inner(size as nat);
            let (hand, c) = reach(size as nat);
            let on_rim = s * two_to(a) * two_to(a) < (2 * outer + 1) * (2 * outer + 1) && (if rim
                == 0x80_0000 {
                4 * (s * two_to(b) * two_to(b)) > (4 * rim - 1) * (4 * rim - 1)
            } else {
                s * two_to(b) * two_to(b) > (2 * rim - 1) * (2 * rim - 1)
            });
            let on_long = -2 <= dx <= 2 && dy <= 2 && -dy * two_to(b) <= 2 * rim;
            let on_short = -2 <= dy <= 2 && dx >= -2 && dx * two_to(c) <= 2 * hand;
            icon.data@.subrange(4 * (y * size + x), 4 * (y * size + x) + 4) == (if on_rim || on_long
                || on_short {
                seq![0xffu8, color.0, color.1, color.2]
            } else {
                seq![0u8, 0u8, 0u8, 0u8]
            })
        }),
{
    law_icon_pixels(size as int, color, x, y);
    reveal(is_lit);
}

/// An icon without size has no pixels.
pub proof fn law_no_icon(size: i32, color: (u8, u8, u8), icon: TrayIcon)
    requires
        -LARGEST <= size <= 0,
        call_ensures(solid_clock_icon, (size, color), icon),
    ensures
        icon.width == size && icon.height == size,
        icon.data@.len() == 0,
{
}

} // verus!
