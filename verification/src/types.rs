//! The values a pattern is made of and produces, and the things of the
//! mixer that patterns are assigned to.

pub mod function;
pub mod mixer;
pub mod pattern;

pub use function::Guide;
pub use mixer::{Mixer, Slot, Track};
pub use pattern::{
    Degree, Event, EventState, EventStream, Modulation, Octave, Pattern, Root, Scale, Value,
};

use vstd::prelude::*;

verus! {

/// The kinds of values of the language.
#[derive(Debug, Clone, Copy, PartialEq, Eq, Structural)]
pub enum TypeId {
    Identifier,
    Boolean,
    Number,
    Pattern,
    String,
    Properties,
    Array,
    Function,
    Mixer,
    Track,
    Slot,
    Void,
    Nothing,
}

impl TypeId {
    /// The name of the kind as it is shown: the kind in angle brackets.
    pub open spec fn shown(self) -> Seq<char> {
        match self {
            TypeId::Identifier => "<Identifier>"@,
            TypeId::Boolean => "<Boolean>"@,
            TypeId::Number => "<Number>"@,
            TypeId::Pattern => "<Pattern>"@,
            TypeId::String => "<String>"@,
            TypeId::Properties => "<Properties>"@,
            TypeId::Array => "<Array>"@,
            TypeId::Function => "<Function>"@,
            TypeId::Mixer => "<Mixer>"@,
            TypeId::Track => "<Track>"@,
            TypeId::Slot => "<Slot>"@,
            TypeId::Void => "<Void>"@,
            TypeId::Nothing => "<Nothing>"@,
        }
    }

    /// The name of the kind as it is shown.
    pub fn name(&self) -> (r: String)
        ensures
            r@ == self.shown(),
    {
        match self {
            TypeId::Identifier => "<Identifier>".to_owned(),
            TypeId::Boolean => "<Boolean>".to_owned(),
            TypeId::Number => "<Number>".to_owned(),
            TypeId::Pattern => "<Pattern>".to_owned(),
            TypeId::String => "<String>".to_owned(),
            TypeId::Properties => "<Properties>".to_owned(),
            TypeId::Array => "<Array>".to_owned(),
            TypeId::Function => "<Function>".to_owned(),
            TypeId::Mixer => "<Mixer>".to_owned(),
            TypeId::Track => "<Track>".to_owned(),
            TypeId::Slot => "<Slot>".to_owned(),
            TypeId::Void => "<Void>".to_owned(),
            TypeId::Nothing => "<Nothing>".to_owned(),
        }
    }
}

/// The name of a variable, a function or a property.
#[derive(Debug, Clone, Hash, Eq, PartialEq)]
pub struct Identifier(pub String);

/// Why a property could not be set.
#[derive(Debug, PartialEq)]
pub enum PrimitiveError {
    SetProperty { property_name: String, assignee_name: String, cause: String },
}

} // verus!
