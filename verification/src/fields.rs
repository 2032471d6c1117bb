//! Named values: what a record keeps beside its columns.

use crate::amount::Amount;
use vstd::prelude::*;

verus! {

/// A value of a named field.
#[derive(Debug)]
pub enum FieldValue {
    Text(String),
    Number(Amount),
    Flag(bool),
}

/// What a `FieldValue` holds, as plain mathematical values.
pub enum FieldValueView {
    Text(Seq<char>),
    Number(nat),
    Flag(bool),
}

impl View for FieldValue {
    type V = FieldValueView;

    open spec fn view(&self) -> FieldValueView {
        match self {
            FieldValue::Text(t) => FieldValueView::Text(t@),
            FieldValue::Number(n) => FieldValueView::Number(n@),
            FieldValue::Flag(b) => FieldValueView::Flag(*b),
        }
    }
}

/// A field: a name and its value.
#[derive(Debug)]
pub struct Field {
    pub name: String,
    pub value: FieldValue,
}

/// What a `Field` holds, as plain mathematical values.
pub struct FieldView {
    pub name: Seq<char>,
    pub value: FieldValueView,
}

impl View for Field {
    type V = FieldView;

    open spec fn view(&self) -> FieldView {
        FieldView { name: self.name@, value: self.value@ }
    }
}

/// The views of a run of fields.
pub open spec fn fields_view(fields: Seq<Field>) -> Seq<FieldView> {
    fields.map_values(|f: Field| f@)
}

/// The field `name` with the text `text`.
pub open spec fn text_field(name: Seq<char>, text: Seq<char>) -> FieldView {
    FieldView { name, value: FieldValueView::Text(text) }
}

/// The field `name` with the number `n`.
pub open spec fn number_field(name: Seq<char>, n: nat) -> FieldView {
    FieldView { name, value: FieldValueView::Number(n) }
}

/// The field `name` with the flag `b`.
pub open spec fn flag_field(name: Seq<char>, b: bool) -> FieldView {
    FieldView { name, value: FieldValueView::Flag(b) }
}

impl Field {
    /// The field `name` with the text `text`.
    pub fn text(name: &str, text: String) -> (field: Field)
        ensures
            field@ == text_field(name@, text@),
    {
        Field { name: String::from_str(name), value: FieldValue::Text(text) }
    }

    /// The field `name` with the number `n`.
    pub fn number(name: &str, n: Amount) -> (field: Field)
        ensures
            field@ == number_field(name@, n@),
    {
        Field { name: String::from_str(name), value: FieldValue::Number(n) }
    }

    /// The field `name` with the flag `b`.
    pub fn flag(name: &str, b: bool) -> (field: Field)
        ensures
            field@ == flag_field(name@, b),
    {
        Field { name: String::from_str(name), value: FieldValue::Flag(b) }
    }
}

impl Clone for FieldValue {
    fn clone(&self) -> (copy: Self)
        ensures
            copy@ == self@,
    {
        match self {
            FieldValue::Text(t) => FieldValue::Text(t.clone()),
            FieldValue::Number(n) => FieldValue::Number(n.clone()),
            FieldValue::Flag(b) => FieldValue::Flag(*b),
        }
    }
}

impl Clone for Field {
    fn clone(&self) -> (copy: Self)
        ensures
            copy@ == self@,
    {
        Field { name: self.name.clone(), value: self.value.clone() }
    }
}

/// A copy of a run of fields.
pub fn copy_fields(fields: &[Field]) -> (copy: Vec<Field>)
    ensures
        fields_view(copy@) == fields_view(fields@),
{
    let mut copy: Vec<Field> = Vec::new();
    let mut i: usize = 0;
    while i < fields.len()
        invariant
            i <= fields@.len(),
            copy@.len() == i,
            forall|j: int| 0 <= j < i ==> copy@[j]@ == fields@[j]@,
        decreases fields@.len() - i,
    {
        copy.push(fields[i].clone());
        i += 1;
    }
    assert(fields_view(copy@) =~= fields_view(fields@));
    copy
}

} // verus!
