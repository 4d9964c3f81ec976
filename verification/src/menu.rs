//! The menu of the tray item.
use vstd::prelude::*;
use vstd::string::*;
use zbus::zvariant::OwnedValue;

use crate::number::{to_decimal, to_signed_decimal};
use crate::state::SharedState;
use crate::tray::{default_session, TrayRequest};
use crate::value::{owned_bool, owned_node, owned_string};
use crate::watch::AppCommand;

verus! {

use crate::number::{decimal, signed_decimal};
use crate::tray::asks_for_minutes;
use crate::value::{distinct, flag_value, is_plain, named_at, node_value, properties, text_value};
use crate::watch::minutes;

/// What a menu shows in one place: a number and properties.
pub struct MenuNodeData {
    pub id: i32,
    pub fields: Vec<(String, OwnedValue)>,
}

/// What a node of the menu is: its number and its properties by name.
pub type Item = (i32, Map<Seq<char>, OwnedValue>);

impl MenuNodeData {
    /// Whether no property is given twice, and each is a text or a truth value.
    pub open spec fn valid(self) -> bool {
        &&& distinct(self.fields@)
        &&& forall|i: int| 0 <= i < self.fields@.len() ==> is_plain(#[trigger] self.fields@[i].1)
    }

    /// The number and the properties by name.
    pub open spec fn item(self) -> Item {
        (self.id, properties(self.fields@))
    }
}

/// What the nodes of a list are.
pub open spec fn items(list: Seq<MenuNodeData>) -> Seq<Item> {
    list.map_values(|node: MenuNodeData| node.item())
}

/// A line of the menu with a label.
pub open spec fn labelled(id: i32, label: Seq<char>, enabled: bool) -> Item {
    (
        id,
        Map::<Seq<char>, OwnedValue>::empty().insert("label"@, text_value(label)).insert(
            "enabled"@,
            flag_value(enabled),
        ).insert("visible"@, flag_value(true)),
    )
}

/// A line between groups of the menu.
pub open spec fn separating(id: i32) -> Item {
    (
        id,
        Map::<Seq<char>, OwnedValue>::empty().insert("type"@, text_value("separator"@)).insert(
            "visible"@,
            flag_value(true),
        ),
    )
}

/// The line of the menu that tells the state.
pub open spec fn status_line(state: SharedState) -> Seq<char> {
    match state.session {
        Some(session) => state.phase.word() + " | "@ + decimal(minutes(session.remaining@))
            + "m left | drift "@ + decimal(SharedState::secs(session.bucket)) + "s"@,
        None => "Idle | default "@ + decimal(state.default_minutes as nat) + "m"@,
    }
}

/// The lines of the menu.
pub open spec fn menu_items(state: SharedState) -> Seq<Item> {
    seq![
        labelled(1, "Start "@ + decimal(state.default_minutes as nat) + " min"@, true),
        labelled(2, "Start custom..."@, true),
        separating(3),
        labelled(4, "Stop"@, state.session is Some),
        labelled(5, "Status notification"@, true),
        labelled(6, status_line(state), false),
        separating(7),
        labelled(8, "Quit"@, true),
    ]
}

/// Whether the item in place `i` has the number `id` and a property `name`.
pub open spec fn has_property(list: Seq<Item>, i: int, id: i32, name: Seq<char>) -> bool {
    0 <= i < list.len() && list[i].0 == id && list[i].1.contains_key(name)
}

/// The items of `list` that `ids` names, or all of them where it names none.
pub open spec fn chosen(list: Seq<Item>, ids: Seq<i32>) -> Seq<Item>
    decreases list.len(),
{
    if list.len() == 0 {
        seq![]
    } else {
        let rest = chosen(list.drop_last(), ids);
        if ids.len() == 0 || ids.contains(list.last().0) {
            rest.push(list.last())
        } else {
            rest
        }
    }
}

/// A property of a list without repeated names is the one beside its name.
pub proof fn lemma_property_at(list: Seq<(String, OwnedValue)>, i: int)
    requires
        distinct(list),
        0 <= i < list.len(),
    ensures
        properties(list).contains_key(list[i].0@),
        properties(list)[list[i].0@] == list[i].1,
{
    let name = list[i].0@;
    assert(named_at(list, i, name));
    let k = choose|k: int| named_at(list, k, name);
    assert(named_at(list, k, name));
    if i < k {
        assert(list[i].0@ != list[k].0@);
    }
    if k < i {
        assert(list[k].0@ != list[i].0@);
    }
}

/// A new property behind the others is added to them.
proof fn lemma_properties_push(list: Seq<(String, OwnedValue)>, field: (String, OwnedValue))
    requires
        distinct(list),
        forall|i: int| 0 <= i < list.len() ==> #[trigger] list[i].0@ != field.0@,
    ensures
        distinct(list.push(field)),
        properties(list.push(field)) == properties(list).insert(field.0@, field.1),
{
    let new = list.push(field);
    let want = properties(list).insert(field.0@, field.1);
    assert(distinct(new)) by {
        assert forall|i: int, j: int| 0 <= i < j < new.len() implies #[trigger] new[i].0@
            != #[trigger] new[j].0@ by {
            assert(new[i] == list[i]);
            if j < list.len() {
                assert(new[j] == list[j]);
            }
        }
    }
    assert forall|name: Seq<char>| properties(new).contains_key(name) == want.contains_key(name) by {
        if properties(new).contains_key(name) {
            let k = choose|k: int| named_at(new, k, name);
            if k < list.len() {
                assert(named_at(list, k, name));
            }
        }
        if properties(list).contains_key(name) {
            let k = choose|k: int| named_at(list, k, name);
            assert(named_at(new, k, name));
        }
        if name == field.0@ {
            assert(named_at(new, list.len() as int, name));
        }
    }
    assert forall|name: Seq<char>| properties(new).contains_key(name) implies properties(new)[name]
        == want[name] by {
        let k = choose|k: int| named_at(new, k, name);
        lemma_property_at(new, k);
        if k < list.len() {
            assert(list[k] == new[k]);
            lemma_property_at(list, k);
        }
    }
    assert(properties(new) =~= want);
}

/// The names of properties are all different.
pub proof fn lemma_names()
    ensures
        "label"@ != "enabled"@,
        "label"@ != "visible"@,
        "enabled"@ != "visible"@,
        "type"@ != "visible"@,
{
    reveal_strlit("label");
    reveal_strlit("enabled");
    reveal_strlit("visible");
    reveal_strlit("type");
    assert("enabled"@[0] == 'e');
    assert("visible"@[0] == 'v');
    assert("label"@[0] == 'l');
    assert("type"@[0] == 't');
}

/// Adds a property to a list that does not have it.
fn push_field(fields: &mut Vec<(String, OwnedValue)>, name: &str, value: OwnedValue)
    requires
        distinct(old(fields)@),
        forall|i: int| 0 <= i < old(fields)@.len() ==> #[trigger] old(fields)@[i].0@ != name@,
        forall|i: int|
            0 <= i < old(fields)@.len() ==> is_plain(#[trigger] old(fields)@[i].1),
        is_plain(value),
    ensures
        distinct(final(fields)@),
        final(fields)@.len() == old(fields)@.len() + 1,
        forall|i: int|
            0 <= i < old(fields)@.len() ==> #[trigger] final(fields)@[i] == old(fields)@[i],
        final(fields)@.last().0@ == name@,
        forall|i: int|
            0 <= i < final(fields)@.len() ==> is_plain(#[trigger] final(fields)@[i].1),
        properties(final(fields)@) == properties(old(fields)@).insert(name@, value),
{
    let field = (name.to_string(), value);
    proof {
        lemma_properties_push(fields@, field);
    }
    fields.push(field);
}

/// A line of the menu with a label.
pub fn menu_data(id: i32, label: &str, enabled: bool) -> (node: MenuNodeData)
    ensures
        node.valid(),
        node.item() == labelled(id, label@, enabled),
{
    let mut fields: Vec<(String, OwnedValue)> = Vec::new();
    proof {
        lemma_names();
        assert(properties(fields@) =~= Map::<Seq<char>, OwnedValue>::empty());
    }
    push_field(&mut fields, "label", owned_string(label));
    push_field(&mut fields, "enabled", owned_bool(enabled));
    push_field(&mut fields, "visible", owned_bool(true));
    MenuNodeData { id, fields }
}

/// A line between groups of the menu.
pub fn separator_data(id: i32) -> (node: MenuNodeData)
    ensures
        node.valid(),
        node.item() == separating(id),
{
    let mut fields: Vec<(String, OwnedValue)> = Vec::new();
    proof {
        lemma_names();
        assert(properties(fields@) =~= Map::<Seq<char>, OwnedValue>::empty());
    }
    push_field(&mut fields, "type", owned_string("separator"));
    push_field(&mut fields, "visible", owned_bool(true));
    MenuNodeData { id, fields }
}

/// The menu for a state.
pub struct ClockstopMenu<'a> {
    pub state: &'a SharedState,
}

/// What the menu consists of: a revision, and the root with its number, its properties and the
/// bus values of its children.
pub type MenuLayout = (u32, (i32, Vec<(String, OwnedValue)>, Vec<OwnedValue>));

impl<'a> ClockstopMenu<'a> {
    /// The line of the menu that tells the state.
    fn status_text(&self) -> (line: String)
        ensures
            line@ == status_line(*self.state),
    {
        match &self.state.session {
            Some(session) => {
                let mut line = self.state.phase.label().to_string();
                line.append(" | ");
                line.append(to_decimal((session.remaining.as_secs() / 60) as u128).as_str());
                line.append("m left | drift ");
                line.append(to_decimal(session.bucket.as_secs() as u128).as_str());
                line.append("s");
                line
            },
            None => {
                let mut line = "Idle | default ".to_string();
                line.append(to_decimal(self.state.default_minutes as u128).as_str());
                line.append("m");
                line
            },
        }
    }

    /// The lines of the menu.
    pub fn nodes(&self) -> (list: Vec<MenuNodeData>)
        ensures
            items(list@) == menu_items(*self.state),
            forall|i: int| 0 <= i < list@.len() ==> (#[trigger] list@[i]).valid(),
    {
        let mut start = "Start ".to_string();
        start.append(to_decimal(self.state.default_minutes as u128).as_str());
        start.append(" min");
        let list = vec![
            menu_data(1, start.as_str(), true),
            menu_data(2, "Start custom...", true),
            separator_data(3),
            menu_data(4, "Stop", self.state.session.is_some()),
            menu_data(5, "Status notification", true),
            menu_data(6, self.status_text().as_str(), false),
            separator_data(7),
            menu_data(8, "Quit", true),
        ];
        assert(items(list@) =~= menu_items(*self.state));
        list
    }

    /// The menu as a whole, the lines as bus values.
    pub fn layout(&self) -> (layout: MenuLayout)
        ensures
            layout.0 == 1,
            layout.1.0 == 0,
            layout.1.1@.len() == 0,
            layout.1.2@ == menu_items(*self.state).map_values(
                |item: Item| node_value(item.0, item.1),
            ),
    {
        let mut nodes = self.nodes();
        let ghost all = nodes@;
        let ghost want = menu_items(*self.state).map_values(|item: Item| node_value(item.0, item.1));
        let mut children: Vec<OwnedValue> = Vec::new();
        assert(all.skip(0) == all);
        assert(want.take(0) == Seq::<OwnedValue>::empty());
        while nodes.len() > 0
            invariant
                items(all) == menu_items(*self.state),
                want == menu_items(*self.state).map_values(
                    |item: Item| node_value(item.0, item.1),
                ),
                forall|i: int| 0 <= i < all.len() ==> (#[trigger] all[i]).valid(),
                children@.len() + nodes@.len() == all.len(),
                nodes@ == all.skip(children@.len() as int),
                children@ == want.take(children@.len() as int),
            decreases nodes@.len(),
        {
            let ghost i = children@.len() as int;
            let node = nodes.remove(0);
            assert(node == all[i]);
            assert(items(all)[i] == node.item());
            children.push(owned_node(node.id, node.fields));
            assert(want.take(i + 1) =~= want.take(i).push(want[i]));
        }
        assert(want.take(want.len() as int) == want);
        (1, (0, Vec::new(), children))
    }

    /// Whether the menu is to be fetched anew before it is shown: always.
    pub fn about_to_show(&self, _id: i32) -> (fetch: bool)
        ensures
            fetch,
    {
        true
    }

    /// What an event on the line with the number `id` asks for: a click on a line that can be
    /// clicked, for what its label says, and all else for nothing.
    pub fn event(&self, id: i32, event_id: &str) -> (request: TrayRequest)
        requires
            id == 1 && event_id@ == "clicked"@ ==> self.state.default_minutes * 60 <= u64::MAX,
        ensures
            event_id@ != "clicked"@ ==> request is Nothing,
            event_id@ == "clicked"@ ==> match id {
                1 => asks_for_minutes(request, self.state.default_minutes),
                2 => request is OpenPicker,
                4 => request == TrayRequest::Send(AppCommand::Stop),
                5 => request == TrayRequest::Send(AppCommand::Status),
                8 => request == TrayRequest::Send(AppCommand::Quit),
                _ => request is Nothing,
            },
    {
        if event_id.to_string() != "clicked".to_string() {
            return TrayRequest::Nothing;
        }
        match id {
            1 => default_session(self.state),
            2 => TrayRequest::OpenPicker,
            4 => TrayRequest::Send(AppCommand::Stop),
            5 => TrayRequest::Send(AppCommand::Status),
            8 => TrayRequest::Send(AppCommand::Quit),
            _ => TrayRequest::Nothing,
        }
    }

    /// The menu as a whole, whichever part of it is asked for.
    pub fn get_layout(&self, _parent_id: i32, _recursion_depth: i32) -> (layout: MenuLayout)
        ensures
            layout.0 == 1,
            layout.1.0 == 0,
            layout.1.1@.len() == 0,
            layout.1.2@ == menu_items(*self.state).map_values(
                |item: Item| node_value(item.0, item.1),
            ),
    {
        self.layout()
    }

    /// The lines whose numbers `ids` names, or all of them where it names none.
    pub fn get_group_properties(&self, ids: &Vec<i32>) -> (group: (u32, Vec<MenuNodeData>))
        ensures
            group.0 == 1,
            items(group.1@) == chosen(menu_items(*self.state), ids@),
    {
        let mut nodes = self.nodes();
        let ghost all = nodes@;
        let ghost list = menu_items(*self.state);
        let ghost mut i: int = 0;
        let mut group: Vec<MenuNodeData> = Vec::new();
        assert(all.skip(0) == all);
        assert(items(group@) == chosen(list.take(0), ids@));
        while nodes.len() > 0
            invariant
                items(all) == list,
                0 <= i <= all.len(),
                nodes@ == all.skip(i),
                items(group@) == chosen(list.take(i), ids@),
            decreases nodes@.len(),
        {
            let node = nodes.remove(0);
            let ghost before = group@;
            proof {
                assert(node == all[i]);
                assert(items(all)[i] == node.item());
                assert(list.take(i + 1).drop_last() == list.take(i));
            }
            if ids.len() == 0 || has_id(ids, node.id) {
                group.push(node);
                assert(items(group@) =~= items(before).push(node.item()));
            }
            proof {
                i = i + 1;
            }
        }
        assert(list.take(list.len() as int) == list);
        (1, group)
    }

    /// The property `name` of the line with the number `id`.
    pub fn get_property(&self, id: i32, name: &str) -> (found: Result<OwnedValue, String>)
        ensures
            match found {
                Ok(value) => exists|i: int|
                    #[trigger] has_property(menu_items(*self.state), i, id, name@) && value
                        == menu_items(*self.state)[i].1[name@],
                Err(why) => {
                    &&& forall|i: int| !has_property(menu_items(*self.state), i, id, name@)
                    &&& why@ == "unknown menu property "@ + signed_decimal(id as int) + ":"@ + name@
                },
            },
    {
        let mut nodes = self.nodes();
        let ghost all = nodes@;
        let ghost list = menu_items(*self.state);
        let wanted = name.to_string();
        let mut i: usize = 0;
        while i < nodes.len()
            invariant
                nodes@ == all,
                items(all) == list,
                list == menu_items(*self.state),
                forall|k: int| 0 <= k < all.len() ==> (#[trigger] all[k]).valid(),
                i <= nodes@.len(),
                wanted@ == name@,
                forall|k: int| 0 <= k < i ==> !has_property(list, k, id, name@),
            decreases nodes@.len() - i,
        {
            assert(items(all)[i as int] == all[i as int].item());
            if nodes[i].id == id {
                let mut fields = nodes.remove(i).fields;
                let ghost held = all[i as int].fields@;
                let mut j: usize = 0;
                while j < fields.len()
                    invariant
                        fields@ == held,
                        held == all[i as int].fields@,
                        distinct(held),
                        i < all.len(),
                        all[i as int].id == id,
                        items(all) == list,
                        list == menu_items(*self.state),
                        list[i as int] == all[i as int].item(),
                        j <= fields@.len(),
                        wanted@ == name@,
                        forall|k: int| 0 <= k < j ==> #[trigger] held[k].0@ != name@,
                    decreases fields@.len() - j,
                {
                    if fields[j].0 == wanted {
                        proof {
                            lemma_property_at(held, j as int);
                            assert(has_property(list, i as int, id, name@));
                        }
                        let value = fields.remove(j).1;
                        assert(value == list[i as int].1[name@]);
                        return Ok(value);
                    }
                    j = j + 1;
                }
                proof {
                    assert forall|k: int| !has_property(list, k, id, name@) by {
                        if has_property(list, k, id, name@) {
                            assert(k == i);
                            let n = choose|n: int| named_at(held, n, name@);
                            assert(held[n].0@ != name@);
                        }
                    }
                }
                return Err(unknown_property(id, name));
            }
            i = i + 1;
        }
        Err(unknown_property(id, name))
    }
}

/// Why a property is not handed out.
fn unknown_property(id: i32, name: &str) -> (why: String)
    ensures
        why@ == "unknown menu property "@ + signed_decimal(id as int) + ":"@ + name@,
{
    let mut why = "unknown menu property ".to_string();
    why.append(to_signed_decimal(id).as_str());
    why.append(":");
    why.append(name);
    why
}

/// Whether `ids` holds `id`.
fn has_id(ids: &Vec<i32>, id: i32) -> (yes: bool)
    ensures
        yes == ids@.contains(id),
{
    let mut i: usize = 0;
    while i < ids.len()
        invariant
            i <= ids@.len(),
            forall|j: int| 0 <= j < i ==> #[trigger] ids@[j] != id,
        decreases ids@.len() - i,
    {
        if ids[i] == id {
            return true;
        }
        i = i + 1;
    }
    false
}

} // verus!
