//! Constant values fixed before the program runs, and references to them.

use vstd::prelude::*;

verus! {

/// The mathematical value of a piece of static data.
pub enum StaticValue {
    Bool(bool),
    Integer(int),
    Text(Seq<char>),
    Identifier(Seq<char>),
    List(Seq<StaticValue>),
}

/// A constant fixed before the program runs.
#[derive(Debug, PartialEq, Eq)]
pub enum StaticData {
    Bool(bool),
    Integer(i32),
    String(String),
    Identifier(String),
    List(Vec<StaticData>),
}

impl View for StaticData {
    type V = StaticValue;

    open spec fn view(&self) -> StaticValue
        decreases self,
    {
        match self {
            StaticData::Bool(b) => StaticValue::Bool(*b),
            StaticData::Integer(i) => StaticValue::Integer(*i as int),
            StaticData::String(s) => StaticValue::Text(s@),
            StaticData::Identifier(s) => StaticValue::Identifier(s@),
            StaticData::List(items) => StaticValue::List(
                Seq::new(
                    items.len() as nat,
                    |i: int|
                        if 0 <= i < items.len() {
                            items[i]@
                        } else {
                            StaticValue::Bool(false)
                        },
                ),
            ),
        }
    }
}

impl Clone for StaticData {
    fn clone(&self) -> (copy: Self)
        ensures
            copy@ == self@,
        decreases self,
    {
        match self {
            StaticData::Bool(b) => StaticData::Bool(*b),
            StaticData::Integer(i) => StaticData::Integer(*i),
            StaticData::String(s) => StaticData::String(s.clone()),
            StaticData::Identifier(s) => StaticData::Identifier(s.clone()),
            StaticData::List(items) => {
                let mut copies: Vec<StaticData> = Vec::new();
                let mut i: usize = 0;
                while i < items.len()
                    invariant
                        *self == StaticData::List(*items),
                        i <= items.len(),
                        copies.len() == i,
                        forall|j: int| 0 <= j < i ==> copies[j]@ == items[j]@,
                    decreases items.len() - i,
                {
                    assert(decreases_to!(*self => self->List_0));
                    copies.push(items[i].clone());
                    i += 1;
                }
                let copy = StaticData::List(copies);
                assert(copy@->List_0 =~= self@->List_0);
                copy
            },
        }
    }
}

/// The mathematical value of a static reference: a name and what it names.
pub struct StaticRefModel {
    pub name: Seq<char>,
    pub value: StaticValue,
}

/// A synthetic name together with the static data interned under it.
#[derive(Debug, PartialEq, Eq)]
pub struct StaticRef {
    pub refname: String,
    pub reftype: StaticData,
}

impl View for StaticRef {
    type V = StaticRefModel;

    open spec fn view(&self) -> StaticRefModel {
        StaticRefModel { name: self.refname@, value: self.reftype@ }
    }
}

impl Clone for StaticRef {
    fn clone(&self) -> (copy: Self)
        ensures
            copy@ == self@,
    {
        StaticRef { refname: self.refname.clone(), reftype: self.reftype.clone() }
    }
}

} // verus!
