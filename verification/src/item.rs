//! Items of SQL/JSON sequences: JSON values and datetime values.

use vstd::prelude::*;
use crate::json::{JsonValue, Json, json_view};
use crate::datetime::{DateTimeValue, iso_text};
use crate::truth::Truth;

verus! {

/// An item of a sequence, as a mathematical value.
pub enum SItem {
    Json(Json),
    DateTime(DateTimeValue),
}

/// An item of a sequence produced by evaluation.
#[derive(Debug)]
pub enum Item {
    Json(JsonValue),
    DateTime(DateTimeValue),
}

/// A borrowed item: the current item of an evaluation.
#[derive(Debug, Clone, Copy)]
pub enum ItemRef<'a> {
    Json(&'a JsonValue),
    DateTime(DateTimeValue),
}

/// The mathematical value of an item.
pub open spec fn item_view(i: Item) -> SItem {
    match i {
        Item::Json(j) => SItem::Json(json_view(j)),
        Item::DateTime(d) => SItem::DateTime(d),
    }
}

/// The mathematical value of a borrowed item.
pub open spec fn item_ref_view(i: ItemRef) -> SItem {
    match i {
        ItemRef::Json(j) => SItem::Json(json_view(*j)),
        ItemRef::DateTime(d) => SItem::DateTime(d),
    }
}

/// The JSON value of an item: a datetime item becomes its ISO 8601 text.
pub open spec fn item_json(i: SItem) -> Json {
    match i {
        SItem::Json(j) => j,
        SItem::DateTime(d) => Json::String(iso_text(d)),
    }
}

/// The JSON values of a sequence of items.
pub open spec fn items_json(s: Seq<SItem>) -> Seq<Json> {
    s.map_values(|i: SItem| item_json(i))
}

/// The JSON value of a truth: `true`, `false` or `null` for unknown.
pub open spec fn truth_json(t: Truth) -> Json {
    match t {
        Truth::True => Json::Bool(true),
        Truth::False => Json::Bool(false),
        Truth::Unknown => Json::Null,
    }
}

/// The JSON value of a truth.
pub fn truth_to_json(t: Truth) -> (r: JsonValue)
    ensures
        json_view(r) == truth_json(t),
{
    match t {
        Truth::True => JsonValue::Bool(true),
        Truth::False => JsonValue::Bool(false),
        Truth::Unknown => JsonValue::Null,
    }
}

impl Item {
    /// Borrows the item.
    pub fn as_item_ref(&self) -> (r: ItemRef<'_>)
        ensures
            item_ref_view(r) == item_view(*self),
    {
        match self {
            Item::Json(j) => ItemRef::Json(j),
            Item::DateTime(d) => ItemRef::DateTime(*d),
        }
    }

    /// The JSON value of the item.
    pub fn into_json(self) -> (r: JsonValue)
        ensures
            json_view(r) == item_json(item_view(self)),
    {
        match self {
            Item::Json(j) => j,
            Item::DateTime(d) => JsonValue::String(d.to_iso_string()),
        }
    }
}

impl<'a> ItemRef<'a> {
    /// An owned copy of the item.
    pub fn to_owned_item(&self) -> (r: Item)
        ensures
            item_view(r) == item_ref_view(*self),
    {
        match self {
            ItemRef::Json(j) => Item::Json(j.copy()),
            ItemRef::DateTime(d) => Item::DateTime(*d),
        }
    }
}

/// The JSON values of a vector of items.
pub fn items_into_json(items: Vec<Item>) -> (r: Vec<JsonValue>)
    ensures
        r@.len() == items@.len(),
        forall|i: int| 0 <= i < items@.len() ==> json_view(#[trigger] r@[i]) == item_json(item_view(items@[i])),
{
    let mut items = items;
    let ghost orig = items@;
    let mut out: Vec<JsonValue> = Vec::new();
    let mut rev: Vec<JsonValue> = Vec::new();
    while items.len() > 0
        invariant
            items@.len() + rev@.len() == orig.len(),
            items@ == orig.subrange(0, items@.len() as int),
            forall|i: int| 0 <= i < rev@.len() ==> json_view(#[trigger] rev@[i]) == item_json(
                item_view(orig[orig.len() - 1 - i]),
            ),
        decreases items.len(),
    {
        let it = items.pop().unwrap();
        rev.push(it.into_json());
    }
    let n = rev.len();
    while rev.len() > 0
        invariant
            out@.len() + rev@.len() == n,
            n == orig.len(),
            forall|i: int| 0 <= i < rev@.len() ==> json_view(#[trigger] rev@[i]) == item_json(
                item_view(orig[orig.len() - 1 - i]),
            ),
            forall|i: int| 0 <= i < out@.len() ==> json_view(#[trigger] out@[i]) == item_json(item_view(orig[i])),
        decreases rev.len(),
    {
        let j = rev.pop().unwrap();
        out.push(j);
    }
    out
}

} // verus!
