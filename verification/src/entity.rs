use vstd::prelude::*;

verus! {

/// A source language an entity was found in.
#[derive(Clone, Copy, Debug, PartialEq, Eq, Structural)]
pub enum Language {
    Typescript,
}

/// The broad category of an entity.
#[derive(Clone, Copy, Debug, PartialEq, Eq, Structural)]
pub enum Kind {
    Function,
    Variable,
    Call,
    Import,
    Export,
    Literal,
}

/// An entity of a program: what it is, and optionally its name, language and value.
pub struct Entity {
    pub kind: Kind,
    pub name: Option<String>,
    pub language: Option<Language>,
    pub value: Option<String>,
}

} // verus!
