//! The rule-tagged tree tells the values of the syntax tree apart: two
//! values have one tree only if they are of one shape and their parts have
//! one tree each. Texts and lists are compared by what they hold.

use vstd::prelude::*;
use crate::ast::{
    Alteration, Assignment, Ast, BeatEvent, Chord, Event, EventMethod, Expression, FunctionCall,
    Identifier, MethodCall, Modulation, Note, Octave, ParenthesisedEvent, Pattern, PatternAtom,
    PatternAtomValue, PatternExpression, PatternSuperExpression, Properties, PropertyValue,
    Statement, SuperExpression,
};
use crate::parser::{Node, Rule};

verus! {

/// Two lists are of one length, and their elements have one tree each.
pub open spec fn same_trees<T>(a: Seq<T>, b: Seq<T>, tree: spec_fn(T) -> Node) -> bool {
    a.len() == b.len() && forall|i: int| 0 <= i < a.len() ==> tree(#[trigger] a[i]) == tree(b[i])
}

pub proof fn lemma_alteration(a: Alteration, b: Alteration)
    requires
        a.node() == b.node(),
    ensures
        a == b,
{
}

pub proof fn lemma_octave(a: Octave, b: Octave)
    requires
        a.node() == b.node(),
    ensures
        a == b,
{
}

pub proof fn lemma_event_method(a: EventMethod, b: EventMethod)
    requires
        a.node() == b.node(),
    ensures
        a == b,
{
}

pub proof fn lemma_identifier(a: Identifier, b: Identifier)
    requires
        a.node() == b.node(),
    ensures
        a.0@ == b.0@,
{
}

pub proof fn lemma_modulation(a: Modulation, b: Modulation)
    requires
        a.node() == b.node(),
    ensures
        match (a, b) {
            (Modulation::Literal(x), Modulation::Literal(y)) => x@ == y@,
            (Modulation::Up, Modulation::Up) => true,
            (Modulation::Down, Modulation::Down) => true,
            (Modulation::Crescendo, Modulation::Crescendo) => true,
            (Modulation::Diminuendo, Modulation::Diminuendo) => true,
            _ => false,
        },
{
    match a {
        Modulation::Literal(x) => {
            assert(a.node().inner.len() == 1);
            assert(a.node().inner[0].text == x@);
        },
        _ => {
            assert(a.node().inner.len() == 0);
        },
    }
    match b {
        Modulation::Literal(y) => {
            assert(b.node().inner.len() == 1);
            assert(b.node().inner[0].text == y@);
        },
        _ => {
            assert(b.node().inner.len() == 0);
        },
    }
}

/// The event methods of two lists are the same where their trees are.
pub proof fn lemma_methods(a: Seq<EventMethod>, b: Seq<EventMethod>)
    requires
        same_trees(a, b, |x: EventMethod| x.node()),
    ensures
        a == b,
{
    assert forall|i: int| 0 <= i < a.len() implies a[i] == b[i] by {
        lemma_event_method(a[i], b[i]);
    }
    assert(a =~= b);
}

pub proof fn lemma_note(a: Note, b: Note)
    requires
        a.node() == b.node(),
    ensures
        a.pitch == b.pitch,
        a.alteration@ == b.alteration@,
{
    let (ia, ib) = (a.node().inner, b.node().inner);
    assert(ia.len() == a.alteration@.len() + 1);
    assert(ib.len() == b.alteration@.len() + 1);
    assert(ia.last() == ib.last());
    assert forall|i: int| 0 <= i < a.alteration@.len() implies a.alteration@[i]
        == b.alteration@[i] by {
        assert(ia[i] == ib[i]);
        lemma_alteration(a.alteration@[i], b.alteration@[i]);
    }
    assert(a.alteration@ =~= b.alteration@);
}

pub proof fn lemma_atom_value(a: PatternAtomValue, b: PatternAtomValue)
    requires
        a.node() == b.node(),
    ensures
        match (a, b) {
            (PatternAtomValue::Octave(x), PatternAtomValue::Octave(y)) => x == y,
            (PatternAtomValue::Note(x), PatternAtomValue::Note(y)) => x.node() == y.node(),
            (PatternAtomValue::Tie, PatternAtomValue::Tie) => true,
            (PatternAtomValue::Pause, PatternAtomValue::Pause) => true,
            (PatternAtomValue::PatternInlet(x), PatternAtomValue::PatternInlet(y)) => x.node()
                == y.node(),
            (PatternAtomValue::Interpolation, PatternAtomValue::Interpolation) => true,
            _ => false,
        },
{
    match a {
        PatternAtomValue::Octave(x) => {
            assert(a.node().rule == Rule::Octave);
        },
        PatternAtomValue::Note(x) => {
            assert(x.node().rule == Rule::Note);
        },
        PatternAtomValue::PatternInlet(x) => {
            assert(a.node().inner[0] == x.node());
        },
        _ => {},
    }
    match b {
        PatternAtomValue::Octave(y) => {
            assert(b.node().rule == Rule::Octave);
        },
        PatternAtomValue::Note(y) => {
            assert(y.node().rule == Rule::Note);
        },
        PatternAtomValue::PatternInlet(y) => {
            assert(b.node().inner[0] == y.node());
        },
        _ => {},
    }
    match (a, b) {
        (PatternAtomValue::Octave(x), PatternAtomValue::Octave(y)) => {
            lemma_octave(x, y);
        },
        _ => {},
    }
}

pub proof fn lemma_atom(a: PatternAtom, b: PatternAtom)
    requires
        a.node() == b.node(),
    ensures
        a.value.node() == b.value.node(),
        a.methods@ == b.methods@,
{
    let (ia, ib) = (a.node().inner, b.node().inner);
    assert(ia.len() == a.methods@.len() + 1);
    assert(ib.len() == b.methods@.len() + 1);
    assert(ia[0] == ib[0]);
    assert forall|i: int| 0 <= i < a.methods@.len() implies a.methods@[i].node()
        == b.methods@[i].node() by {
        assert(ia[i + 1] == ib[i + 1]);
    }
    lemma_methods(a.methods@, b.methods@);
}

/// The beats and the methods of a chord or a parenthesised event are told
/// apart by their trees.
proof fn lemma_beats_and_methods(
    beats1: Seq<BeatEvent>,
    methods1: Seq<EventMethod>,
    beats2: Seq<BeatEvent>,
    methods2: Seq<EventMethod>,
    inner1: Seq<Node>,
    inner2: Seq<Node>,
)
    requires
        inner1 == inner2,
        inner1.len() == beats1.len() + methods1.len(),
        inner2.len() == beats2.len() + methods2.len(),
        forall|i: int| 0 <= i < beats1.len() ==> inner1[i] == (#[trigger] beats1[i]).node(),
        forall|i: int| 0 <= i < beats2.len() ==> inner2[i] == (#[trigger] beats2[i]).node(),
        forall|i: int|
            0 <= i < methods1.len() ==> inner1[beats1.len() + i] == (#[trigger] methods1[i]).node(),
        forall|i: int|
            0 <= i < methods2.len() ==> inner2[beats2.len() + i] == (#[trigger] methods2[i]).node(),
    ensures
        same_trees(beats1, beats2, |x: BeatEvent| x.node()),
        methods1 == methods2,
{
    if beats1.len() < beats2.len() {
        let k = beats1.len() as int;
        assert(inner1[k] == methods1[0].node());
        assert(inner2[k] == beats2[k].node());
    }
    if beats2.len() < beats1.len() {
        let k = beats2.len() as int;
        assert(inner2[k] == methods2[0].node());
        assert(inner1[k] == beats1[k].node());
    }
    assert forall|i: int| 0 <= i < beats1.len() implies (#[trigger] beats1[i]).node()
        == beats2[i].node() by {
        assert(inner1[i] == inner2[i]);
    }
    assert forall|i: int| 0 <= i < methods1.len() implies methods1[i].node()
        == methods2[i].node() by {
        assert(inner1[beats1.len() + i] == inner2[beats2.len() + i]);
    }
    lemma_methods(methods1, methods2);
}

pub proof fn lemma_event(a: Event, b: Event)
    requires
        a.node() == b.node(),
    ensures
        match (a, b) {
            (Event::Group(x), Event::Group(y)) => same_trees(x@, y@, |t: PatternAtom| t.node()),
            (Event::Chord(x), Event::Chord(y)) => same_trees(
                x.inner@,
                y.inner@,
                |t: BeatEvent| t.node(),
            ) && x.methods@ == y.methods@,
            (Event::ParenthesisedEvent(x), Event::ParenthesisedEvent(y)) => same_trees(
                x.inner@,
                y.inner@,
                |t: BeatEvent| t.node(),
            ) && x.methods@ == y.methods@,
            _ => false,
        },
{
    let (ia, ib) = (a.node().inner, b.node().inner);
    match (a, b) {
        (Event::Group(x), Event::Group(y)) => {
            assert(ia.len() == x@.len() && ib.len() == y@.len());
            assert forall|i: int| 0 <= i < x@.len() implies (#[trigger] x@[i]).node()
                == y@[i].node() by {
                assert(ia[i] == ib[i]);
            }
        },
        (Event::Chord(x), Event::Chord(y)) => {
            lemma_beats_and_methods(x.inner@, x.methods@, y.inner@, y.methods@, ia, ib);
        },
        (Event::ParenthesisedEvent(x), Event::ParenthesisedEvent(y)) => {
            lemma_beats_and_methods(x.inner@, x.methods@, y.inner@, y.methods@, ia, ib);
        },
        _ => {},
    }
}

pub proof fn lemma_beat_event(a: BeatEvent, b: BeatEvent)
    requires
        a.node() == b.node(),
    ensures
        same_trees(a.0@, b.0@, |t: Event| t.node()),
{
    let (ia, ib) = (a.node().inner, b.node().inner);
    assert(ia.len() == a.0@.len() && ib.len() == b.0@.len());
    assert forall|i: int| 0 <= i < a.0@.len() implies (#[trigger] a.0@[i]).node()
        == b.0@[i].node() by {
        assert(ia[i] == ib[i]);
    }
}

pub proof fn lemma_pattern(a: Pattern, b: Pattern)
    requires
        a.node() == b.node(),
    ensures
        same_trees(a.0@, b.0@, |t: BeatEvent| t.node()),
{
    let (ia, ib) = (a.node().inner, b.node().inner);
    assert(ia.len() == a.0@.len() && ib.len() == b.0@.len());
    assert forall|i: int| 0 <= i < a.0@.len() implies (#[trigger] a.0@[i]).node()
        == b.0@[i].node() by {
        assert(ia[i] == ib[i]);
    }
}

pub proof fn lemma_pattern_expression(a: PatternExpression, b: PatternExpression)
    requires
        a.node() == b.node(),
    ensures
        a.pattern.node() == b.pattern.node(),
        match (a.input, b.input) {
            (Some(x), Some(y)) => x.node() == y.node(),
            (None, None) => true,
            _ => false,
        },
        same_trees(a.methods@, b.methods@, |t: FunctionCall| t.node()),
        match (a.properties, b.properties) {
            (Some(x), Some(y)) => x.node() == y.node(),
            (None, None) => true,
            _ => false,
        },
{
    let (ia, ib) = (a.node().inner, b.node().inner);
    assert(ia[0] == ib[0] && ia[1] == ib[1] && ia[2] == ib[2] && ia[3] == ib[3]);
    match (a.input, b.input) {
        (Some(x), Some(y)) => {
            assert(ia[1].inner[0] == ib[1].inner[0]);
        },
        (Some(x), None) => {
            assert(ia[1].inner.len() == 1);
        },
        (None, Some(y)) => {
            assert(ib[1].inner.len() == 1);
        },
        _ => {},
    }
    match (a.properties, b.properties) {
        (Some(x), Some(y)) => {
            assert(ia[3].inner[0] == ib[3].inner[0]);
        },
        (Some(x), None) => {
            assert(ia[3].inner.len() == 1);
        },
        (None, Some(y)) => {
            assert(ib[3].inner.len() == 1);
        },
        _ => {},
    }
    let (ma, mb) = (ia[2].inner, ib[2].inner);
    assert(ma.len() == a.methods@.len() && mb.len() == b.methods@.len());
    assert forall|i: int| 0 <= i < a.methods@.len() implies (#[trigger] a.methods@[i]).node()
        == b.methods@[i].node() by {
        assert(ma[i] == mb[i]);
    }
}

pub proof fn lemma_pattern_super_expression(a: PatternSuperExpression, b: PatternSuperExpression)
    requires
        a.node() == b.node(),
    ensures
        match (a, b) {
            (
                PatternSuperExpression::ExpressionList(x),
                PatternSuperExpression::ExpressionList(y),
            ) => same_trees(x@, y@, |t: PatternExpression| t.node()),
            (
                PatternSuperExpression::Expression(x),
                PatternSuperExpression::Expression(y),
            ) => x.node() == y.node(),
            _ => false,
        },
{
    let (ia, ib) = (a.node().inner, b.node().inner);
    match (a, b) {
        (PatternSuperExpression::ExpressionList(x), PatternSuperExpression::ExpressionList(y)) => {
            assert(ia.len() == x@.len() && ib.len() == y@.len());
            assert forall|i: int| 0 <= i < x@.len() implies (#[trigger] x@[i]).node()
                == y@[i].node() by {
                assert(ia[i] == ib[i]);
            }
        },
        (PatternSuperExpression::Expression(x), PatternSuperExpression::Expression(y)) => {
            assert(ia[0] == ib[0]);
        },
        _ => {},
    }
}

pub proof fn lemma_function_call(a: FunctionCall, b: FunctionCall)
    requires
        a.node() == b.node(),
    ensures
        a.identifier.0@ == b.identifier.0@,
        same_trees(a.parameters@, b.parameters@, |t: Expression| t.node()),
{
    let (ia, ib) = (a.node().inner, b.node().inner);
    assert(ia.len() == a.parameters@.len() + 1 && ib.len() == b.parameters@.len() + 1);
    assert(ia[0] == ib[0]);
    assert forall|i: int| 0 <= i < a.parameters@.len() implies (#[trigger] a.parameters@[i]).node()
        == b.parameters@[i].node() by {
        assert(ia[i + 1] == ib[i + 1]);
    }
}

pub proof fn lemma_method_call(a: MethodCall, b: MethodCall)
    requires
        a.node() == b.node(),
    ensures
        a.caller.node() == b.caller.node(),
        same_trees(a.callee@, b.callee@, |t: FunctionCall| t.node()),
{
    let (ia, ib) = (a.node().inner, b.node().inner);
    assert(ia.len() == a.callee@.len() + 1 && ib.len() == b.callee@.len() + 1);
    assert(ia[0] == ib[0]);
    assert forall|i: int| 0 <= i < a.callee@.len() implies (#[trigger] a.callee@[i]).node()
        == b.callee@[i].node() by {
        assert(ia[i + 1] == ib[i + 1]);
    }
}

pub proof fn lemma_property_value(a: PropertyValue, b: PropertyValue)
    requires
        a.node() == b.node(),
    ensures
        match (a, b) {
            (PropertyValue::SuperExpression(x), PropertyValue::SuperExpression(y)) => x.node()
                == y.node(),
            (PropertyValue::PatternExpression(x), PropertyValue::PatternExpression(y)) => x.node()
                == y.node(),
            _ => false,
        },
{
    assert(a.node().inner[0] == b.node().inner[0]);
    match a {
        PropertyValue::SuperExpression(x) => {
            lemma_super_expression_rule(x);
            assert(a.node().inner[0] == x.node());
        },
        PropertyValue::PatternExpression(x) => {
            assert(x.node().rule == Rule::PatternExpression);
            assert(a.node().inner[0] == x.node());
        },
    }
    match b {
        PropertyValue::SuperExpression(y) => {
            lemma_super_expression_rule(y);
            assert(b.node().inner[0] == y.node());
        },
        PropertyValue::PatternExpression(y) => {
            assert(y.node().rule == Rule::PatternExpression);
            assert(b.node().inner[0] == y.node());
        },
    }
}

pub proof fn lemma_properties(a: Properties, b: Properties)
    requires
        a.node() == b.node(),
    ensures
        a.0@.len() == b.0@.len(),
        forall|i: int|
            0 <= i < a.0@.len() ==> (#[trigger] a.0@[i]).0.0@ == b.0@[i].0.0@ && a.0@[i].1.node()
                == b.0@[i].1.node(),
{
    let (ia, ib) = (a.node().inner, b.node().inner);
    assert(ia.len() == a.0@.len() && ib.len() == b.0@.len());
    assert forall|i: int| 0 <= i < a.0@.len() implies (#[trigger] a.0@[i]).0.0@ == b.0@[i].0.0@
        && a.0@[i].1.node() == b.0@[i].1.node() by {
        assert(ia[i] == ib[i]);
        assert(ia[i].inner[0] == ib[i].inner[0]);
        assert(ia[i].inner[1] == ib[i].inner[1]);
    }
}

/// The rule at the root of the tree of a super expression.
pub proof fn lemma_super_expression_rule(e: SuperExpression)
    ensures
        e.node().rule == Rule::SuperExpression,
{
    match e {
        SuperExpression::Expression(_) => {},
        SuperExpression::Method(_) => {},
    }
}

/// The rule at the root of the tree of an expression tells its kind.
pub proof fn lemma_expression_rule(e: Expression)
    ensures
        e is PropertyGetter <==> e.node().rule == Rule::PropertyGetter,
        e is Boolean <==> e.node().rule == Rule::Boolean,
        e is Variable <==> e.node().rule == Rule::Variable,
        e is PatternSuperExpression <==> (e.node().rule == Rule::PatternSuperExpression
            || e.node().rule == Rule::PatternExpressionList),
        e is Number <==> e.node().rule == Rule::Number,
        e is String <==> e.node().rule == Rule::String,
        e is PatternSlot <==> e.node().rule == Rule::PatternSlot,
        e is Track <==> e.node().rule == Rule::Track,
        e is Mixer <==> e.node().rule == Rule::Mixer,
        e is Properties <==> e.node().rule == Rule::Properties,
        e is Array <==> e.node().rule == Rule::Array,
        e is Function <==> e.node().rule == Rule::FunctionCall,
        e.node().rule != Rule::MethodCall,
{
    match e {
        Expression::PatternSuperExpression(value) => {
            match value {
                PatternSuperExpression::ExpressionList(_) => {
                    assert(value.node().rule == Rule::PatternExpressionList);
                },
                PatternSuperExpression::Expression(_) => {
                    assert(value.node().rule == Rule::PatternSuperExpression);
                },
            }
        },
        Expression::Properties(value) => {
            assert(value.node().rule == Rule::Properties);
        },
        Expression::Function(call) => {
            assert(call.node().rule == Rule::FunctionCall);
        },
        _ => {},
    }
}

pub proof fn lemma_expression(a: Expression, b: Expression)
    requires
        a.node() == b.node(),
    ensures
        match (a, b) {
            (
                Expression::PropertyGetter { assignee: x, property_id: p },
                Expression::PropertyGetter { assignee: y, property_id: q },
            ) => x.node() == y.node() && same_trees(p@, q@, |t: Identifier| t.node()),
            (Expression::Boolean(x), Expression::Boolean(y)) => x == y,
            (Expression::Variable(x), Expression::Variable(y)) => x.0@ == y.0@,
            (
                Expression::PatternSuperExpression(x),
                Expression::PatternSuperExpression(y),
            ) => x.node() == y.node(),
            (Expression::Number(x), Expression::Number(y)) => x@ == y@,
            (Expression::String(x), Expression::String(y)) => x@ == y@,
            (Expression::PatternSlot(t1, s1), Expression::PatternSlot(t2, s2)) => t1 == t2 && s1
                == s2,
            (Expression::Track(x), Expression::Track(y)) => x == y,
            (Expression::Mixer, Expression::Mixer) => true,
            (Expression::Properties(x), Expression::Properties(y)) => x.node() == y.node(),
            (Expression::Array(x), Expression::Array(y)) => same_trees(
                x@,
                y@,
                |t: SuperExpression| t.node(),
            ),
            (Expression::Function(x), Expression::Function(y)) => x.node() == y.node(),
            _ => false,
        },
{
    lemma_expression_rule(a);
    lemma_expression_rule(b);
    let (ia, ib) = (a.node().inner, b.node().inner);
    match (a, b) {
        (
            Expression::PropertyGetter { assignee: x, property_id: p },
            Expression::PropertyGetter { assignee: y, property_id: q },
        ) => {
            assert(ia.len() == p@.len() + 1 && ib.len() == q@.len() + 1);
            assert(ia[0] == ib[0]);
            assert forall|i: int| 0 <= i < p@.len() implies (#[trigger] p@[i]).node()
                == q@[i].node() by {
                assert(ia[i + 1] == ib[i + 1]);
            }
        },
        (Expression::Variable(x), Expression::Variable(y)) => {
            assert(ia[0] == ib[0]);
        },
        (Expression::PatternSlot(t1, s1), Expression::PatternSlot(t2, s2)) => {
            assert(ia[0] == ib[0] && ia[1] == ib[1]);
        },
        (Expression::Array(x), Expression::Array(y)) => {
            assert(ia.len() == x@.len() && ib.len() == y@.len());
            assert forall|i: int| 0 <= i < x@.len() implies (#[trigger] x@[i]).node()
                == y@[i].node() by {
                assert(ia[i] == ib[i]);
            }
        },
        _ => {},
    }
}

pub proof fn lemma_super_expression(a: SuperExpression, b: SuperExpression)
    requires
        a.node() == b.node(),
    ensures
        match (a, b) {
            (SuperExpression::Expression(x), SuperExpression::Expression(y)) => x.node()
                == y.node(),
            (SuperExpression::Method(x), SuperExpression::Method(y)) => x.node() == y.node(),
            _ => false,
        },
{
    assert(a.node().inner[0] == b.node().inner[0]);
    match a {
        SuperExpression::Expression(x) => {
            lemma_expression_rule(x);
            assert(a.node().inner[0] == x.node());
        },
        SuperExpression::Method(x) => {
            assert(x.node().rule == Rule::MethodCall);
            assert(a.node().inner[0] == x.node());
        },
    }
    match b {
        SuperExpression::Expression(y) => {
            lemma_expression_rule(y);
            assert(b.node().inner[0] == y.node());
        },
        SuperExpression::Method(y) => {
            assert(y.node().rule == Rule::MethodCall);
            assert(b.node().inner[0] == y.node());
        },
    }
}

pub proof fn lemma_assignment(a: Assignment, b: Assignment)
    requires
        a.node() == b.node(),
    ensures
        match (a, b) {
            (
                Assignment::Pattern { assignee: x, assignment: v },
                Assignment::Pattern { assignee: y, assignment: w },
            ) => x.node() == y.node() && v.node() == w.node(),
            (
                Assignment::Variable { assignee: x, assignment: v },
                Assignment::Variable { assignee: y, assignment: w },
            ) => x.0@ == y.0@ && v.node() == w.node(),
            (
                Assignment::Properties { assignee: x, assignment: v },
                Assignment::Properties { assignee: y, assignment: w },
            ) => x.node() == y.node() && v.node() == w.node(),
            _ => false,
        },
{
    let (ia, ib) = (a.node().inner, b.node().inner);
    match (a, b) {
        (Assignment::Pattern { .. }, Assignment::Pattern { .. }) => {
            assert(ia[0] == ib[0] && ia[1] == ib[1]);
        },
        (Assignment::Variable { .. }, Assignment::Variable { .. }) => {
            assert(ia[0] == ib[0] && ia[1] == ib[1]);
        },
        (Assignment::Properties { .. }, Assignment::Properties { .. }) => {
            assert(ia[0] == ib[0] && ia[1] == ib[1]);
        },
        _ => {},
    }
}

pub proof fn lemma_statement(a: Statement, b: Statement)
    requires
        a.node() == b.node(),
    ensures
        match (a, b) {
            (Statement::SuperExpression(x), Statement::SuperExpression(y)) => x.node() == y.node(),
            (Statement::Assign(x), Statement::Assign(y)) => x.node() == y.node(),
            _ => false,
        },
{
    assert(a.node().inner[0] == b.node().inner[0]);
    match a {
        Statement::SuperExpression(x) => {
            lemma_super_expression_rule(x);
            assert(a.node().inner[0] == x.node());
        },
        Statement::Assign(x) => {
            lemma_assignment_rule(x);
            assert(a.node().inner[0] == x.node());
        },
    }
    match b {
        Statement::SuperExpression(y) => {
            lemma_super_expression_rule(y);
            assert(b.node().inner[0] == y.node());
        },
        Statement::Assign(y) => {
            lemma_assignment_rule(y);
            assert(b.node().inner[0] == y.node());
        },
    }
}

/// The rule at the root of the tree of an assignment is never that of a
/// super expression.
pub proof fn lemma_assignment_rule(a: Assignment)
    ensures
        a.node().rule != Rule::SuperExpression,
{
    match a {
        Assignment::Pattern { .. } => {
            assert(a.node().rule == Rule::PatternAssignment);
        },
        Assignment::Variable { .. } => {
            assert(a.node().rule == Rule::VariableAssignment);
        },
        Assignment::Properties { .. } => {
            assert(a.node().rule == Rule::PropertiesAssignment);
        },
    }
}

/// Two sources with one tree hold statements with one tree each, as many
/// and in the same order.
pub proof fn lemma_ast(a: Ast, b: Ast)
    requires
        a.node() == b.node(),
    ensures
        same_trees(a.0@, b.0@, |t: Statement| t.node()),
{
    let (ia, ib) = (a.node().inner, b.node().inner);
    assert(ia.len() == a.0@.len() && ib.len() == b.0@.len());
    assert forall|i: int| 0 <= i < a.0@.len() implies (#[trigger] a.0@[i]).node()
        == b.0@[i].node() by {
        assert(ia[i] == ib[i]);
    }
}

} // verus!
