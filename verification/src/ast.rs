//! Abstract syntax tree types, and the rule-tagged tree that each of them
//! stands for.

pub mod laws;

use vstd::prelude::*;
use crate::parser::{branch, leaf, number_leaf, text_leaf, Node, Rule};

verus! {

/// A whole source: its statements in order.
#[derive(Debug, PartialEq)]
pub struct Ast(pub Vec<Statement>);

#[derive(Debug, PartialEq)]
pub enum Statement {
    SuperExpression(SuperExpression),
    Assign(Assignment),
}

#[derive(Debug, PartialEq)]
pub enum SuperExpression {
    Expression(Expression),
    Method(MethodCall),
}

#[derive(Debug, PartialEq)]
pub enum Expression {
    /// A chain of property names read from a base expression.
    PropertyGetter { assignee: Box<Expression>, property_id: Vec<Identifier> },
    Boolean(bool),
    Variable(Identifier),
    PatternSuperExpression(PatternSuperExpression),
    /// A number, as it is written in the source.
    Number(String),
    String(String),
    /// A track number and a slot number.
    PatternSlot(u64, u64),
    Track(u64),
    Mixer,
    Properties(Properties),
    Array(Vec<SuperExpression>),
    Function(FunctionCall),
}

#[derive(Debug, Clone, Hash, Eq, PartialEq)]
pub struct Identifier(pub String);

#[derive(Debug, PartialEq)]
pub struct FunctionCall {
    pub identifier: Identifier,
    pub parameters: Vec<Expression>,
}

/// Named values in the order in which the source gives them. No name occurs
/// twice: a value given again for a name takes the place of the earlier one.
#[derive(Debug, PartialEq)]
pub struct Properties(pub Vec<(Identifier, PropertyValue)>);

#[derive(Debug, PartialEq)]
pub enum PropertyValue {
    SuperExpression(SuperExpression),
    PatternExpression(PatternExpression),
}

#[derive(Debug, PartialEq)]
pub struct MethodCall {
    pub caller: Expression,
    pub callee: Vec<FunctionCall>,
}

#[derive(Debug, PartialEq)]
#[allow(inconsistent_fields)]
pub enum Assignment {
    Pattern { assignee: Expression, assignment: PatternSuperExpression },
    Variable { assignee: Identifier, assignment: SuperExpression },
    Properties { assignee: SuperExpression, assignment: Properties },
}

#[derive(Debug, PartialEq)]
pub enum PatternSuperExpression {
    ExpressionList(Vec<PatternExpression>),
    Expression(PatternExpression),
}

#[derive(Debug, PartialEq)]
pub struct PatternExpression {
    pub pattern: Pattern,
    /// The value piped into the pattern's inlets.
    pub input: Option<Box<Expression>>,
    pub methods: Vec<FunctionCall>,
    pub properties: Option<Properties>,
}

/// A pattern: one entry per beat.
#[derive(Debug, PartialEq)]
pub struct Pattern(pub Vec<BeatEvent>);

/// What sounds within one beat.
#[derive(Debug, PartialEq)]
pub struct BeatEvent(pub Vec<Event>);

#[derive(Debug, PartialEq)]
pub enum Event {
    Group(Vec<PatternAtom>),
    Chord(Chord),
    ParenthesisedEvent(ParenthesisedEvent),
}

#[derive(Debug, PartialEq)]
pub struct Chord {
    pub inner: Vec<BeatEvent>,
    pub methods: Vec<EventMethod>,
}

#[derive(Debug, PartialEq)]
pub struct ParenthesisedEvent {
    pub inner: Vec<BeatEvent>,
    pub methods: Vec<EventMethod>,
}

#[derive(Debug, PartialEq)]
pub struct PatternAtom {
    pub value: PatternAtomValue,
    pub methods: Vec<EventMethod>,
}

#[derive(Debug, PartialEq)]
pub enum PatternAtomValue {
    Octave(Octave),
    Note(Note),
    Tie,
    Pause,
    PatternInlet(Expression),
    Interpolation,
}

#[derive(Debug, Clone, PartialEq)]
pub struct Note {
    pub pitch: u64,
    pub alteration: Vec<Alteration>,
}

#[derive(Debug, Clone, Copy, PartialEq, Eq, Structural)]
pub enum EventMethod {
    Dot,
    Multiply,
    Divide,
}

#[derive(Debug, Clone, Copy, PartialEq, Eq, Structural)]
pub enum Octave {
    Up,
    Down,
}

#[derive(Debug, Clone, Copy, PartialEq, Eq, Structural)]
pub enum Alteration {
    Up,
    Down,
}

/// A change of loudness written in a pattern.
#[derive(Debug, Clone, PartialEq)]
pub enum Modulation {
    Up,
    Down,
    Crescendo,
    Diminuendo,
    /// An amount, as it is written in the source.
    Literal(String),
}


/// The trees of the elements of `v`, as `tree` gives them.
pub open spec fn trees<T>(v: Seq<T>, tree: spec_fn(T) -> Node) -> Seq<Node> {
    Seq::new(v.len(), |i: int| tree(v[i]))
}

impl Ast {
    /// The tree of a source: one statement after the other.
    pub open spec fn node(self) -> Node {
        branch(Rule::File, trees(self.0@, |x: Statement| x.node()))
    }
}

impl Statement {
    pub open spec fn node(self) -> Node
        decreases self,
    {
        match self {
            Statement::SuperExpression(value) => branch(Rule::Statement, seq![value.node()]),
            Statement::Assign(value) => branch(Rule::Statement, seq![value.node()]),
        }
    }
}

impl SuperExpression {
    pub open spec fn node(self) -> Node
        decreases self,
    {
        match self {
            SuperExpression::Expression(value) => branch(Rule::SuperExpression, seq![value.node()]),
            SuperExpression::Method(value) => branch(Rule::SuperExpression, seq![value.node()]),
        }
    }
}

impl Expression {
    pub open spec fn node(self) -> Node
        decreases self,
    {
        match self {
            Expression::PropertyGetter { assignee, property_id } => branch(
                Rule::PropertyGetter,
                seq![assignee.node()] + trees(property_id@, |x: Identifier| x.node()),
            ),
            Expression::Boolean(value) => number_leaf(
                Rule::Boolean,
                if value {
                    1
                } else {
                    0
                },
            ),
            Expression::Variable(id) => branch(Rule::Variable, seq![id.node()]),
            Expression::PatternSuperExpression(value) => value.node(),
            Expression::Number(text) => text_leaf(Rule::Number, text@),
            Expression::String(text) => text_leaf(Rule::String, text@),
            Expression::PatternSlot(track, slot) => branch(
                Rule::PatternSlot,
                seq![number_leaf(Rule::Track, track as int), number_leaf(Rule::Slot, slot as int)],
            ),
            Expression::Track(index) => number_leaf(Rule::Track, index as int),
            Expression::Mixer => leaf(Rule::Mixer),
            Expression::Properties(value) => value.node(),
            Expression::Array(items) => branch(
                Rule::Array,
                Seq::new(
                    items@.len(),
                    |i: int|
                        if 0 <= i < items@.len() {
                            items@[i].node()
                        } else {
                            leaf(Rule::Array)
                        },
                ),
            ),
            Expression::Function(call) => call.node(),
        }
    }
}

impl Identifier {
    pub open spec fn node(self) -> Node {
        text_leaf(Rule::Identifier, self.0@)
    }
}

impl FunctionCall {
    pub open spec fn node(self) -> Node
        decreases self,
    {
        branch(
            Rule::FunctionCall,
            seq![self.identifier.node()] + Seq::new(
                self.parameters@.len(),
                |i: int|
                    if 0 <= i < self.parameters@.len() {
                        self.parameters@[i].node()
                    } else {
                        leaf(Rule::FunctionCall)
                    },
            ),
        )
    }
}

impl Properties {
    pub open spec fn node(self) -> Node
        decreases self,
    {
        branch(
            Rule::Properties,
            Seq::new(
                self.0@.len(),
                |i: int|
                    if 0 <= i < self.0@.len() {
                        branch(Rule::Property, seq![self.0@[i].0.node(), self.0@[i].1.node()])
                    } else {
                        leaf(Rule::Property)
                    },
            ),
        )
    }
}

impl PropertyValue {
    pub open spec fn node(self) -> Node
        decreases self,
    {
        match self {
            PropertyValue::SuperExpression(value) => branch(Rule::PropertyValue, seq![value.node()]),
            PropertyValue::PatternExpression(value) => branch(
                Rule::PropertyValue,
                seq![value.node()],
            ),
        }
    }
}

impl MethodCall {
    pub open spec fn node(self) -> Node
        decreases self,
    {
        branch(
            Rule::MethodCall,
            seq![self.caller.node()] + Seq::new(
                self.callee@.len(),
                |i: int|
                    if 0 <= i < self.callee@.len() {
                        self.callee@[i].node()
                    } else {
                        leaf(Rule::MethodCall)
                    },
            ),
        )
    }
}

impl Assignment {
    pub open spec fn node(self) -> Node
        decreases self,
    {
        match self {
            Assignment::Pattern { assignee, assignment } => branch(
                Rule::PatternAssignment,
                seq![assignee.node(), assignment.node()],
            ),
            Assignment::Variable { assignee, assignment } => branch(
                Rule::VariableAssignment,
                seq![assignee.node(), assignment.node()],
            ),
            Assignment::Properties { assignee, assignment } => branch(
                Rule::PropertiesAssignment,
                seq![assignee.node(), assignment.node()],
            ),
        }
    }
}

impl PatternSuperExpression {
    pub open spec fn node(self) -> Node
        decreases self,
    {
        match self {
            PatternSuperExpression::ExpressionList(list) => branch(
                Rule::PatternExpressionList,
                Seq::new(
                    list@.len(),
                    |i: int|
                        if 0 <= i < list@.len() {
                            list@[i].node()
                        } else {
                            leaf(Rule::PatternExpressionList)
                        },
                ),
            ),
            PatternSuperExpression::Expression(value) => branch(
                Rule::PatternSuperExpression,
                seq![value.node()],
            ),
        }
    }
}

impl PatternExpression {
    pub open spec fn node(self) -> Node
        decreases self,
    {
        branch(
            Rule::PatternExpression,
            seq![
                self.pattern.node(),
                match self.input {
                    Some(input) => branch(Rule::Input, seq![input.node()]),
                    None => leaf(Rule::Input),
                },
                branch(
                    Rule::PatternMethod,
                    Seq::new(
                        self.methods@.len(),
                        |i: int|
                            if 0 <= i < self.methods@.len() {
                                self.methods@[i].node()
                            } else {
                                leaf(Rule::PatternMethod)
                            },
                    ),
                ),
                match self.properties {
                    Some(properties) => branch(Rule::PatternProperties, seq![properties.node()]),
                    None => leaf(Rule::PatternProperties),
                },
            ],
        )
    }
}

impl Pattern {
    pub open spec fn node(self) -> Node
        decreases self,
    {
        branch(
            Rule::Pattern,
            Seq::new(
                self.0@.len(),
                |i: int|
                    if 0 <= i < self.0@.len() {
                        self.0@[i].node()
                    } else {
                        leaf(Rule::Pattern)
                    },
            ),
        )
    }
}

impl BeatEvent {
    pub open spec fn node(self) -> Node
        decreases self,
    {
        branch(
            Rule::BeatEvent,
            Seq::new(
                self.0@.len(),
                |i: int|
                    if 0 <= i < self.0@.len() {
                        self.0@[i].node()
                    } else {
                        leaf(Rule::BeatEvent)
                    },
            ),
        )
    }
}

impl Event {
    pub open spec fn node(self) -> Node
        decreases self,
    {
        match self {
            Event::Group(atoms) => branch(
                Rule::Group,
                Seq::new(
                    atoms@.len(),
                    |i: int|
                        if 0 <= i < atoms@.len() {
                            atoms@[i].node()
                        } else {
                            leaf(Rule::Group)
                        },
                ),
            ),
            Event::Chord(chord) => branch(
                Rule::Chord,
                Seq::new(
                    chord.inner@.len(),
                    |i: int|
                        if 0 <= i < chord.inner@.len() {
                            chord.inner@[i].node()
                        } else {
                            leaf(Rule::Chord)
                        },
                ) + trees(chord.methods@, |x: EventMethod| x.node()),
            ),
            Event::ParenthesisedEvent(event) => branch(
                Rule::ParenthesisedEventGroup,
                Seq::new(
                    event.inner@.len(),
                    |i: int|
                        if 0 <= i < event.inner@.len() {
                            event.inner@[i].node()
                        } else {
                            leaf(Rule::ParenthesisedEventGroup)
                        },
                ) + trees(event.methods@, |x: EventMethod| x.node()),
            ),
        }
    }
}

impl PatternAtom {
    pub open spec fn node(self) -> Node
        decreases self,
    {
        branch(
            Rule::PatternAtom,
            seq![self.value.node()] + trees(self.methods@, |x: EventMethod| x.node()),
        )
    }
}

impl PatternAtomValue {
    pub open spec fn node(self) -> Node
        decreases self,
    {
        match self {
            PatternAtomValue::Octave(octave) => octave.node(),
            PatternAtomValue::Note(note) => note.node(),
            PatternAtomValue::Tie => leaf(Rule::Tie),
            PatternAtomValue::Pause => leaf(Rule::Pause),
            PatternAtomValue::PatternInlet(expression) => branch(
                Rule::PatternInlet,
                seq![expression.node()],
            ),
            PatternAtomValue::Interpolation => leaf(Rule::Interpolation),
        }
    }
}

impl Note {
    pub open spec fn node(self) -> Node {
        branch(
            Rule::Note,
            trees(self.alteration@, |x: Alteration| x.node()).push(
                number_leaf(Rule::Pitch, self.pitch as int),
            ),
        )
    }
}

impl EventMethod {
    pub open spec fn node(self) -> Node {
        number_leaf(
            Rule::EventMethod,
            match self {
                EventMethod::Dot => 0,
                EventMethod::Multiply => 1,
                EventMethod::Divide => 2,
            },
        )
    }
}

impl Octave {
    pub open spec fn node(self) -> Node {
        number_leaf(
            Rule::Octave,
            match self {
                Octave::Up => 1,
                Octave::Down => -1,
            },
        )
    }
}

impl Alteration {
    pub open spec fn node(self) -> Node {
        number_leaf(
            Rule::Alteration,
            match self {
                Alteration::Up => 1,
                Alteration::Down => -1,
            },
        )
    }
}

impl Modulation {
    pub open spec fn node(self) -> Node {
        match self {
            Modulation::Up => number_leaf(Rule::Modulation, 0),
            Modulation::Down => number_leaf(Rule::Modulation, 1),
            Modulation::Crescendo => number_leaf(Rule::Modulation, 2),
            Modulation::Diminuendo => number_leaf(Rule::Modulation, 3),
            Modulation::Literal(text) => branch(
                Rule::Modulation,
                seq![text_leaf(Rule::Number, text@)],
            ),
        }
    }
}

} // verus!
