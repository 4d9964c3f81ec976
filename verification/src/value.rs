//! Values as they travel over the message bus.
use std::collections::HashMap;

use vstd::prelude::*;
use vstd::string::*;
use zbus::zvariant::{Error, OwnedObjectPath, OwnedValue, Value};

verus! {

/// `zbus::zvariant::OwnedValue`: a value of the message bus.
#[verifier::external_type_specification]
#[verifier::external_body]
pub struct ExOwnedValue(OwnedValue);

/// `zbus::zvariant::OwnedObjectPath`: the path of an object on the message bus.
#[verifier::external_type_specification]
#[verifier::external_body]
pub struct ExOwnedObjectPath(OwnedObjectPath);

/// `zbus::zvariant::Error`: why a path or a value was refused.
#[verifier::external_type_specification]
#[verifier::external_body]
pub struct ExError(Error);

/// The bus value of a text.
pub uninterp spec fn text_value(text: Seq<char>) -> OwnedValue;

/// The bus value of a truth value.
pub uninterp spec fn flag_value(flag: bool) -> OwnedValue;

/// The bus value of a menu node without children: its number, its properties, and an empty list.
pub uninterp spec fn node_value(id: i32, properties: Map<Seq<char>, OwnedValue>) -> OwnedValue;

/// The path that a text spells.
pub uninterp spec fn path_value(path: Seq<char>) -> OwnedObjectPath;

/// Whether `v` is the bus value of a text or of a truth value.
pub open spec fn is_plain(v: OwnedValue) -> bool {
    (exists|text: Seq<char>| v == text_value(text)) || (exists|flag: bool| v == flag_value(flag))
}

/// Whether the list gives `name` in place `i`.
pub open spec fn named_at(list: Seq<(String, OwnedValue)>, i: int, name: Seq<char>) -> bool {
    0 <= i < list.len() && list[i].0@ == name
}

/// Whether no name is given twice.
pub open spec fn distinct(list: Seq<(String, OwnedValue)>) -> bool {
    forall|i: int, j: int|
        0 <= i < j < list.len() ==> #[trigger] list[i].0@ != #[trigger] list[j].0@
}

/// The properties of a list by name.
pub open spec fn properties(list: Seq<(String, OwnedValue)>) -> Map<Seq<char>, OwnedValue> {
    Map::new(
        |name: Seq<char>| exists|i: int| named_at(list, i, name),
        |name: Seq<char>| list[choose|i: int| named_at(list, i, name)].1,
    )
}

/// Whether `c` may stand in a name within a path.
pub open spec fn is_path_char(c: char) -> bool {
    'a' <= c <= 'z' || 'A' <= c <= 'Z' || '0' <= c <= '9' || c == '_'
}

/// Whether `s` spells a path: a slash, or names that are each preceded by a slash.
pub open spec fn is_path(s: Seq<char>) -> bool {
    &&& s.len() > 0
    &&& s[0] == '/'
    &&& s.len() > 1 ==> s.last() != '/'
    &&& forall|i: int| 0 <= i < s.len() ==> #[trigger] s[i] == '/' || is_path_char(s[i])
    &&& forall|i: int| 0 < i < s.len() ==> !(#[trigger] s[i] == '/' && s[i - 1] == '/')
}

/// Makes a text a bus value: `OwnedValue::try_from` on `Value::from(String)`. That conversion
/// fails for file descriptors alone, and what comes out depends on the text alone.
#[verifier::external_body]
pub(crate) fn owned_string(value: &str) -> (v: OwnedValue)
    ensures
        v == text_value(value@),
{
    OwnedValue::try_from(Value::from(value.to_string())).expect("menu string serializes")
}

/// Makes a truth value a bus value: `OwnedValue::try_from` on `Value::from(bool)`. That conversion
/// fails for file descriptors alone, and what comes out depends on the truth value alone.
#[verifier::external_body]
pub(crate) fn owned_bool(value: bool) -> (v: OwnedValue)
    ensures
        v == flag_value(value),
{
    OwnedValue::try_from(Value::from(value)).expect("menu bool serializes")
}

/// Makes a number, properties and an empty list one bus value: `OwnedValue::try_from` on
/// `Value::from((i32, HashMap, Vec))`. That conversion fails for file descriptors alone, of which
/// texts and truth values hold none. The properties are kept sorted by name, so what comes out
/// depends on the number and on what each name stands for alone.
#[verifier::external_body]
pub(crate) fn owned_node(id: i32, fields: Vec<(String, OwnedValue)>) -> (v: OwnedValue)
    requires
        distinct(fields@),
        forall|i: int| 0 <= i < fields@.len() ==> is_plain(#[trigger] fields@[i].1),
    ensures
        v == node_value(id, properties(fields@)),
{
    let fields: HashMap<String, OwnedValue> = fields.into_iter().collect();
    OwnedValue::try_from(Value::from((id, fields, Vec::<OwnedValue>::new())))
        .expect("menu node serializes")
}

/// Reads a path: `OwnedObjectPath::try_from(&str)`, which accepts exactly the texts that spell
/// one; the path depends on the text alone.
#[verifier::external_body]
pub(crate) fn object_path(path: &str) -> (read: Result<OwnedObjectPath, Error>)
    ensures
        read is Ok == is_path(path@),
        read matches Ok(p) ==> p == path_value(path@),
{
    OwnedObjectPath::try_from(path)
}

} // verus!
