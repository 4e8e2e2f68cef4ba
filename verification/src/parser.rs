//! The grammar of the language: from source text to the syntax tree.

pub mod expression;
pub mod grammar;
pub mod lexical;
pub mod pattern;

use vstd::prelude::*;
use vstd::string::StrSliceExecFns;
use crate::ast;
use crate::parser::grammar::{of_kind, run, CharKind, Fault, Parsed};

verus! {

/// The rules of the grammar.
#[derive(Debug, Clone, Copy, PartialEq, Eq, Structural)]
pub enum Rule {
    File,
    Statement,
    SuperExpression,
    AssignStatement,
    VariableAssignment,
    PatternAssignment,
    PropertiesAssignment,
    MethodCall,
    FunctionCall,
    Expression,
    Boolean,
    Number,
    String,
    Variable,
    PropertyGetter,
    PatternSlot,
    Track,
    Slot,
    Mixer,
    Array,
    Properties,
    Property,
    PropertyValue,
    Identifier,
    PatternSuperExpression,
    PatternExpressionList,
    PatternExpression,
    Pattern,
    PatternMethod,
    PatternProperties,
    Input,
    BeatEvent,
    Event,
    Chord,
    ParenthesisedEventGroup,
    Group,
    PatternAtom,
    Note,
    Pitch,
    Alteration,
    Octave,
    Tie,
    Pause,
    PatternInlet,
    Interpolation,
    EventMethod,
    Modulation,
}

/// A rule-tagged tree: what a piece of source text says, without its
/// spacing. A node carries the rule it was read by, the text or the number
/// it holds if it is a leaf, and the trees of its parts.
pub struct Node {
    pub rule: Rule,
    pub text: Seq<char>,
    pub number: int,
    pub inner: Seq<Node>,
}

/// A node without content.
pub open spec fn leaf(rule: Rule) -> Node {
    Node { rule, text: Seq::empty(), number: 0, inner: Seq::empty() }
}

/// A node that holds text.
pub open spec fn text_leaf(rule: Rule, text: Seq<char>) -> Node {
    Node { rule, text, number: 0, inner: Seq::empty() }
}

/// A node that holds a number.
pub open spec fn number_leaf(rule: Rule, number: int) -> Node {
    Node { rule, text: Seq::empty(), number, inner: Seq::empty() }
}

/// A node made of parts.
pub open spec fn branch(rule: Rule, inner: Seq<Node>) -> Node {
    Node { rule, text: Seq::empty(), number: 0, inner }
}


/// A source text, held for reading character by character.
pub struct Source<'a> {
    text: &'a str,
    chars: Vec<char>,
}

impl<'a> View for Source<'a> {
    type V = Seq<char>;

    closed spec fn view(&self) -> Seq<char> {
        self.text@
    }
}

impl<'a> Source<'a> {
    #[verifier::type_invariant]
    closed spec fn wf(self) -> bool {
        self.chars@ == self.text@
    }

    /// The text, ready for reading.
    pub fn new(text: &'a str) -> (r: Self)
        ensures
            r@ == text@,
    {
        let len = text.unicode_len();
        let mut chars: Vec<char> = Vec::new();
        let mut i: usize = 0;
        while i < len
            invariant
                i <= len,
                len == text@.len(),
                chars@ == text@.take(i as int),
            decreases len - i,
        {
            chars.push(text.get_char(i));
            i += 1;
            proof {
                assert(chars@ =~= text@.take(i as int));
            }
        }
        proof {
            assert(text@.take(len as int) =~= text@);
        }
        Source { text, chars }
    }

    /// The number of characters.
    pub fn len(&self) -> (n: usize)
        ensures
            n == self@.len(),
    {
        proof {
            use_type_invariant(self);
        }
        self.chars.len()
    }

    /// The character at `pos`.
    pub fn at(&self, pos: usize) -> (c: char)
        requires
            pos < self@.len(),
        ensures
            c == self@[pos as int],
    {
        proof {
            use_type_invariant(self);
        }
        self.chars[pos]
    }

    /// Whether the character `c` stands at `pos`.
    pub fn has(&self, pos: usize, c: char) -> (b: bool)
        ensures
            b == grammar::has(self@, pos as int, c),
            b ==> pos < usize::MAX,
    {
        proof {
            use_type_invariant(self);
        }
        pos < self.chars.len() && self.chars[pos] == c
    }

    /// The text from `from` up to `to`.
    pub fn slice(&self, from: usize, to: usize) -> (r: String)
        requires
            from <= to <= self@.len(),
        ensures
            r@ == self@.subrange(from as int, to as int),
    {
        self.text.substring_char(from, to).to_owned()
    }

    /// The position behind the characters of the kind `kind` at `pos`.
    pub fn skip(&self, pos: usize, kind: CharKind) -> (end: usize)
        requires
            pos <= self@.len(),
        ensures
            end == pos + run(self@, pos as int, kind),
            pos <= end <= self@.len(),
    {
        let len = self.len();
        let mut end = pos;
        while end < len && is_of_kind(self.at(end), kind)
            invariant
                pos <= end <= len,
                len == self@.len(),
                pos + run(self@, pos as int, kind) == end + run(self@, end as int, kind),
            decreases len - end,
        {
            end += 1;
        }
        end
    }
}

/// Whether `c` is of the kind `kind`.
pub fn is_of_kind(c: char, kind: CharKind) -> (b: bool)
    ensures
        b == of_kind(c, kind),
{
    let code = c as u32;
    let digit = 48 <= code && code <= 57;
    let letter = (97 <= code && code <= 122) || (65 <= code && code <= 90) || c == '_';
    match kind {
        CharKind::Blank => c == ' ' || c == '\t',
        CharKind::Space => c == ' ' || c == '\t' || c == '\n' || c == '\r',
        CharKind::Digit => digit,
        CharKind::NamePart => letter || digit,
        CharKind::Method => c == '.' || c == '*' || c == ':',
        CharKind::Sign => c == '+' || c == '-',
        CharKind::NotQuote => c != '"',
    }
}

/// Where and why a text cannot be read.
#[derive(Debug, Clone, Copy, PartialEq, Eq, Structural)]
pub struct Failure {
    /// The position at which reading failed.
    pub at: usize,
    /// Whether a number was read there that is too large.
    pub numeric: bool,
}

impl View for Failure {
    type V = Fault;

    open spec fn view(&self) -> Fault {
        Fault { at: self.at as int, numeric: self.numeric }
    }
}

/// The failure of the grammar at `at`.
pub fn failure(at: usize) -> (r: Failure)
    ensures
        r@ == grammar::fault(at as int),
{
    Failure { at, numeric: false }
}


/// Why a source could not be read.
#[derive(Debug, PartialEq)]
pub enum ParseError {
    /// The source does not follow the grammar: what is wrong, and where.
    Parse { message: String, start: usize, end: usize },
    /// A number that is too large for 64 bits, and where it stands.
    NumericLiteral { start: usize, end: usize },
    /// A rule that is read as a part of other rules only.
    BadChild { rule: Rule },
}

pub type ParseResult<T> = Result<T, ParseError>;

/// Whether `error` is the error that reports `fault`: it names the
/// position of the fault.
pub open spec fn reports(fault: Fault, error: ParseError) -> bool {
    if fault.numeric {
        error == (ParseError::NumericLiteral { start: fault.at as usize, end: fault.at as usize })
    } else {
        error matches ParseError::Parse { message, start, end } && message@
            == "The source does not follow the grammar."@ && start == fault.at && end == fault.at
    }
}

/// The tree that was read, without the position behind it.
pub open spec fn tree_of(parsed: Parsed) -> Result<Node, Fault> {
    match parsed {
        Ok((node, _)) => Ok(node),
        Err(f) => Err(f),
    }
}

/// Whether `error` reports the fault of `outcome`.
pub open spec fn fails_as(outcome: Result<Node, Fault>, error: ParseError) -> bool {
    outcome matches Err(f) && reports(f, error)
}

impl ParseError {
    /// The position at which reading failed.
    pub fn position(&self) -> (r: usize)
        ensures
            r == (match *self {
                ParseError::Parse { start, .. } => start,
                ParseError::NumericLiteral { start, .. } => start,
                ParseError::BadChild { .. } => 0,
            }),
    {
        match self {
            ParseError::Parse { start, .. } => *start,
            ParseError::NumericLiteral { start, .. } => *start,
            ParseError::BadChild { .. } => 0,
        }
    }
}

/// The parser of the language.
#[derive(Debug)]
pub struct CollyParser;

impl CollyParser {
    /// An error with the given message for the text from `start` up to
    /// `end`.
    pub fn error(message: &str, start: usize, end: usize) -> (e: ParseError)
        ensures
            e matches ParseError::Parse { message: m, start: s, end: t } && m@ == message@ && s
                == start && t == end,
    {
        ParseError::Parse { message: message.to_owned(), start, end }
    }

    /// The error that reports `failure`.
    pub fn failed(failure: Failure) -> (e: ParseError)
        ensures
            reports(failure@, e),
    {
        if failure.numeric {
            ParseError::NumericLiteral { start: failure.at, end: failure.at }
        } else {
            CollyParser::error("The source does not follow the grammar.", failure.at, failure.at)
        }
    }

    /// Reads a whole source: statements, one to a line.
    pub fn parse(source: &str) -> (r: ParseResult<ast::Ast>)
        ensures
            match r {
                Ok(tree) => grammar::file_at(source@) == Ok::<_, Fault>(tree.node()),
                Err(e) => fails_as(grammar::file_at(source@), e),
            },
    {
        let src = Source::new(source);
        match expression::parse_file(&src) {
            Ok(tree) => Ok(tree),
            Err(f) => Err(CollyParser::failed(f)),
        }
    }

    /// Reads a statement at the start of the source.
    pub fn parse_statement(source: &str) -> (r: ParseResult<ast::Statement>)
        ensures
            match r {
                Ok(e) => tree_of(grammar::statement_at(source@, 0)) == Ok::<_, Fault>(e.node()),
                Err(e) => fails_as(tree_of(grammar::statement_at(source@, 0)), e),
            },
    {
        let src = Source::new(source);
        match expression::parse_statement(&src, 0) {
            Ok((e, _)) => Ok(e),
            Err(f) => Err(CollyParser::failed(f)),
        }
    }

    /// Reads an assignment at the start of the source.
    pub fn parse_assignment(source: &str) -> (r: ParseResult<ast::Assignment>)
        ensures
            match r {
                Ok(e) => tree_of(grammar::assignment_at(source@, 0)) == Ok::<_, Fault>(e.node()),
                Err(e) => fails_as(tree_of(grammar::assignment_at(source@, 0)), e),
            },
    {
        let src = Source::new(source);
        match expression::parse_assignment(&src, 0) {
            Ok((e, _)) => Ok(e),
            Err(f) => Err(CollyParser::failed(f)),
        }
    }

    /// Reads a super expression at the start of the source.
    pub fn parse_super_expression(source: &str) -> (r: ParseResult<ast::SuperExpression>)
        ensures
            match r {
                Ok(e) => tree_of(grammar::super_expression_at(source@, 0)) == Ok::<_, Fault>(
                    e.node(),
                ),
                Err(e) => fails_as(tree_of(grammar::super_expression_at(source@, 0)), e),
            },
    {
        let src = Source::new(source);
        match expression::parse_super_expression(&src, 0) {
            Ok((e, _)) => Ok(e),
            Err(f) => Err(CollyParser::failed(f)),
        }
    }

    /// Reads a method call at the start of the source.
    pub fn parse_method_call(source: &str) -> (r: ParseResult<ast::MethodCall>)
        ensures
            match r {
                Ok(e) => tree_of(grammar::method_call_at(source@, 0)) == Ok::<_, Fault>(e.node()),
                Err(e) => fails_as(tree_of(grammar::method_call_at(source@, 0)), e),
            },
    {
        let src = Source::new(source);
        match expression::parse_method_call(&src, 0) {
            Ok((e, _)) => Ok(e),
            Err(f) => Err(CollyParser::failed(f)),
        }
    }

    /// Reads an expression at the start of the source.
    pub fn parse_expression(source: &str) -> (r: ParseResult<ast::Expression>)
        ensures
            match r {
                Ok(e) => tree_of(grammar::expression_at(source@, 0)) == Ok::<_, Fault>(e.node()),
                Err(e) => fails_as(tree_of(grammar::expression_at(source@, 0)), e),
            },
    {
        let src = Source::new(source);
        match expression::parse_expression(&src, 0) {
            Ok((e, _)) => Ok(e),
            Err(f) => Err(CollyParser::failed(f)),
        }
    }

    /// Reads a function call at the start of the source.
    pub fn parse_function_call(source: &str) -> (r: ParseResult<ast::FunctionCall>)
        ensures
            match r {
                Ok(e) => tree_of(grammar::function_call_at(source@, 0)) == Ok::<_, Fault>(e.node()),
                Err(e) => fails_as(tree_of(grammar::function_call_at(source@, 0)), e),
            },
    {
        let src = Source::new(source);
        match expression::parse_function_call(&src, 0) {
            Ok((e, _)) => Ok(e),
            Err(f) => Err(CollyParser::failed(f)),
        }
    }

    /// Reads properties at the start of the source.
    pub fn parse_properties(source: &str) -> (r: ParseResult<ast::Properties>)
        ensures
            match r {
                Ok(e) => tree_of(grammar::properties_at(source@, 0)) == Ok::<_, Fault>(e.node()),
                Err(e) => fails_as(tree_of(grammar::properties_at(source@, 0)), e),
            },
    {
        let src = Source::new(source);
        match expression::parse_properties(&src, 0) {
            Ok((e, _)) => Ok(e),
            Err(f) => Err(CollyParser::failed(f)),
        }
    }

    /// Reads the value of a property at the start of the source.
    pub fn parse_property_value(source: &str) -> (r: ParseResult<ast::PropertyValue>)
        ensures
            match r {
                Ok(e) => tree_of(grammar::property_value_at(source@, 0)) == Ok::<_, Fault>(
                    e.node(),
                ),
                Err(e) => fails_as(tree_of(grammar::property_value_at(source@, 0)), e),
            },
    {
        let src = Source::new(source);
        match expression::parse_property_value(&src, 0) {
            Ok((e, _)) => Ok(e),
            Err(f) => Err(CollyParser::failed(f)),
        }
    }

    /// Reads a pattern expression, or a list of them, at the start of the
    /// source.
    pub fn parse_pattern_super_expression(source: &str) -> (r: ParseResult<
        ast::PatternSuperExpression,
    >)
        ensures
            match r {
                Ok(e) => tree_of(grammar::pattern_super_at(source@, 0)) == Ok::<_, Fault>(e.node()),
                Err(e) => fails_as(tree_of(grammar::pattern_super_at(source@, 0)), e),
            },
    {
        let src = Source::new(source);
        match expression::parse_pattern_super(&src, 0) {
            Ok((e, _)) => Ok(e),
            Err(f) => Err(CollyParser::failed(f)),
        }
    }

    /// Reads a pattern expression at the start of the source.
    pub fn parse_pattern_expression(source: &str) -> (r: ParseResult<ast::PatternExpression>)
        ensures
            match r {
                Ok(e) => tree_of(grammar::pattern_expression_at(source@, 0)) == Ok::<_, Fault>(
                    e.node(),
                ),
                Err(e) => fails_as(tree_of(grammar::pattern_expression_at(source@, 0)), e),
            },
    {
        let src = Source::new(source);
        match expression::parse_pattern_expression(&src, 0) {
            Ok((e, _)) => Ok(e),
            Err(f) => Err(CollyParser::failed(f)),
        }
    }

    /// Reads a pattern at the start of the source.
    pub fn parse_pattern(source: &str) -> (r: ParseResult<ast::Pattern>)
        ensures
            match r {
                Ok(e) => tree_of(grammar::pattern_at(source@, 0)) == Ok::<_, Fault>(e.node()),
                Err(e) => fails_as(tree_of(grammar::pattern_at(source@, 0)), e),
            },
    {
        let src = Source::new(source);
        match pattern::parse_pattern(&src, 0) {
            Ok((e, _)) => Ok(e),
            Err(f) => Err(CollyParser::failed(f)),
        }
    }

    /// Reads a beat at the start of the source.
    pub fn parse_beat_event(source: &str) -> (r: ParseResult<ast::BeatEvent>)
        ensures
            match r {
                Ok(e) => tree_of(grammar::beat_at(source@, 0)) == Ok::<_, Fault>(e.node()),
                Err(e) => fails_as(tree_of(grammar::beat_at(source@, 0)), e),
            },
    {
        let src = Source::new(source);
        match pattern::parse_beat(&src, 0) {
            Ok((e, _)) => Ok(e),
            Err(f) => Err(CollyParser::failed(f)),
        }
    }

    /// Reads an event of a beat at the start of the source.
    pub fn parse_event(source: &str) -> (r: ParseResult<ast::Event>)
        ensures
            match r {
                Ok(e) => tree_of(grammar::event_at(source@, 0)) == Ok::<_, Fault>(e.node()),
                Err(e) => fails_as(tree_of(grammar::event_at(source@, 0)), e),
            },
    {
        let src = Source::new(source);
        match pattern::parse_event(&src, 0) {
            Ok((e, _)) => Ok(e),
            Err(f) => Err(CollyParser::failed(f)),
        }
    }

    /// Reads an atom of a pattern at the start of the source.
    pub fn parse_pattern_atom(source: &str) -> (r: ParseResult<ast::PatternAtom>)
        ensures
            match r {
                Ok(e) => tree_of(grammar::atom_at(source@, 0)) == Ok::<_, Fault>(e.node()),
                Err(e) => fails_as(tree_of(grammar::atom_at(source@, 0)), e),
            },
    {
        let src = Source::new(source);
        match pattern::parse_atom(&src, 0) {
            Ok((e, _)) => Ok(e),
            Err(f) => Err(CollyParser::failed(f)),
        }
    }

    /// Reads a modulation at the start of the source.
    pub fn parse_modulation(source: &str) -> (r: ParseResult<ast::Modulation>)
        ensures
            match r {
                Ok(e) => tree_of(grammar::modulation_at(source@, 0)) == Ok::<_, Fault>(e.node()),
                Err(e) => fails_as(tree_of(grammar::modulation_at(source@, 0)), e),
            },
    {
        let src = Source::new(source);
        match lexical::parse_modulation(&src, 0) {
            Ok((e, _)) => Ok(e),
            Err(f) => Err(CollyParser::failed(f)),
        }
    }
}

/// What was read by a rule.
#[derive(Debug, PartialEq)]
pub enum Tree {
    File(ast::Ast),
    Statement(ast::Statement),
    AssignStatement(ast::Assignment),
    SuperExpression(ast::SuperExpression),
    MethodCall(ast::MethodCall),
    Expression(ast::Expression),
    FunctionCall(ast::FunctionCall),
    Properties(ast::Properties),
    PropertyValue(ast::PropertyValue),
    PatternSuperExpression(ast::PatternSuperExpression),
    PatternExpression(ast::PatternExpression),
    Pattern(ast::Pattern),
    BeatEvent(ast::BeatEvent),
    Event(ast::Event),
    PatternAtom(ast::PatternAtom),
    Modulation(ast::Modulation),
}

impl Tree {
    /// The rule-tagged tree of what was read.
    pub open spec fn node(self) -> Node {
        match self {
            Tree::File(t) => t.node(),
            Tree::Statement(t) => t.node(),
            Tree::AssignStatement(t) => t.node(),
            Tree::SuperExpression(t) => t.node(),
            Tree::MethodCall(t) => t.node(),
            Tree::Expression(t) => t.node(),
            Tree::FunctionCall(t) => t.node(),
            Tree::Properties(t) => t.node(),
            Tree::PropertyValue(t) => t.node(),
            Tree::PatternSuperExpression(t) => t.node(),
            Tree::PatternExpression(t) => t.node(),
            Tree::Pattern(t) => t.node(),
            Tree::BeatEvent(t) => t.node(),
            Tree::Event(t) => t.node(),
            Tree::PatternAtom(t) => t.node(),
            Tree::Modulation(t) => t.node(),
        }
    }
}

/// Whether the rule can be read alone. The rules of the smaller parts are
/// read as parts of these only.
pub open spec fn reads_alone(rule: Rule) -> bool {
    rule == Rule::File || rule == Rule::Statement || rule == Rule::AssignStatement || rule
        == Rule::SuperExpression || rule == Rule::MethodCall || rule == Rule::Expression || rule
        == Rule::FunctionCall || rule == Rule::Properties || rule == Rule::PropertyValue || rule
        == Rule::PatternSuperExpression || rule == Rule::PatternExpression || rule
        == Rule::Pattern || rule == Rule::BeatEvent || rule == Rule::Event || rule
        == Rule::PatternAtom || rule == Rule::Modulation
}

/// What the rule `rule` reads at the start of the text.
pub open spec fn rule_at(rule: Rule, s: Seq<char>) -> Result<Node, Fault> {
    match rule {
        Rule::File => grammar::file_at(s),
        Rule::Statement => tree_of(grammar::statement_at(s, 0)),
        Rule::AssignStatement => tree_of(grammar::assignment_at(s, 0)),
        Rule::SuperExpression => tree_of(grammar::super_expression_at(s, 0)),
        Rule::MethodCall => tree_of(grammar::method_call_at(s, 0)),
        Rule::Expression => tree_of(grammar::expression_at(s, 0)),
        Rule::FunctionCall => tree_of(grammar::function_call_at(s, 0)),
        Rule::Properties => tree_of(grammar::properties_at(s, 0)),
        Rule::PropertyValue => tree_of(grammar::property_value_at(s, 0)),
        Rule::PatternSuperExpression => tree_of(grammar::pattern_super_at(s, 0)),
        Rule::PatternExpression => tree_of(grammar::pattern_expression_at(s, 0)),
        Rule::Pattern => tree_of(grammar::pattern_at(s, 0)),
        Rule::BeatEvent => tree_of(grammar::beat_at(s, 0)),
        Rule::Event => tree_of(grammar::event_at(s, 0)),
        Rule::PatternAtom => tree_of(grammar::atom_at(s, 0)),
        Rule::Modulation => tree_of(grammar::modulation_at(s, 0)),
        _ => Err(grammar::fault(0)),
    }
}

/// Reads by the rule `File`.
fn read_file(source: &str) -> (r: ParseResult<Tree>)
    ensures
        match r {
            Ok(tree) => rule_at(Rule::File, source@) == Ok::<_, Fault>(tree.node()),
            Err(e) => fails_as(rule_at(Rule::File, source@), e),
        },
{
    match CollyParser::parse(source) {
        Ok(t) => Ok(Tree::File(t)),
        Err(e) => Err(e),
    }
}

/// Reads by the rule `Statement`.
fn read_statement(source: &str) -> (r: ParseResult<Tree>)
    ensures
        match r {
            Ok(tree) => rule_at(Rule::Statement, source@) == Ok::<_, Fault>(tree.node()),
            Err(e) => fails_as(rule_at(Rule::Statement, source@), e),
        },
{
    match CollyParser::parse_statement(source) {
        Ok(t) => Ok(Tree::Statement(t)),
        Err(e) => Err(e),
    }
}

/// Reads by the rule `AssignStatement`.
fn read_assignment(source: &str) -> (r: ParseResult<Tree>)
    ensures
        match r {
            Ok(tree) => rule_at(Rule::AssignStatement, source@) == Ok::<_, Fault>(tree.node()),
            Err(e) => fails_as(rule_at(Rule::AssignStatement, source@), e),
        },
{
    match CollyParser::parse_assignment(source) {
        Ok(t) => Ok(Tree::AssignStatement(t)),
        Err(e) => Err(e),
    }
}

/// Reads by the rule `SuperExpression`.
fn read_super_expression(source: &str) -> (r: ParseResult<Tree>)
    ensures
        match r {
            Ok(tree) => rule_at(Rule::SuperExpression, source@) == Ok::<_, Fault>(tree.node()),
            Err(e) => fails_as(rule_at(Rule::SuperExpression, source@), e),
        },
{
    match CollyParser::parse_super_expression(source) {
        Ok(t) => Ok(Tree::SuperExpression(t)),
        Err(e) => Err(e),
    }
}

/// Reads by the rule `MethodCall`.
fn read_method_call(source: &str) -> (r: ParseResult<Tree>)
    ensures
        match r {
            Ok(tree) => rule_at(Rule::MethodCall, source@) == Ok::<_, Fault>(tree.node()),
            Err(e) => fails_as(rule_at(Rule::MethodCall, source@), e),
        },
{
    match CollyParser::parse_method_call(source) {
        Ok(t) => Ok(Tree::MethodCall(t)),
        Err(e) => Err(e),
    }
}

/// Reads by the rule `Expression`.
fn read_expression(source: &str) -> (r: ParseResult<Tree>)
    ensures
        match r {
            Ok(tree) => rule_at(Rule::Expression, source@) == Ok::<_, Fault>(tree.node()),
            Err(e) => fails_as(rule_at(Rule::Expression, source@), e),
        },
{
    match CollyParser::parse_expression(source) {
        Ok(t) => Ok(Tree::Expression(t)),
        Err(e) => Err(e),
    }
}

/// Reads by the rule `FunctionCall`.
fn read_function_call(source: &str) -> (r: ParseResult<Tree>)
    ensures
        match r {
            Ok(tree) => rule_at(Rule::FunctionCall, source@) == Ok::<_, Fault>(tree.node()),
            Err(e) => fails_as(rule_at(Rule::FunctionCall, source@), e),
        },
{
    match CollyParser::parse_function_call(source) {
        Ok(t) => Ok(Tree::FunctionCall(t)),
        Err(e) => Err(e),
    }
}

/// Reads by the rule `Properties`.
fn read_properties(source: &str) -> (r: ParseResult<Tree>)
    ensures
        match r {
            Ok(tree) => rule_at(Rule::Properties, source@) == Ok::<_, Fault>(tree.node()),
            Err(e) => fails_as(rule_at(Rule::Properties, source@), e),
        },
{
    match CollyParser::parse_properties(source) {
        Ok(t) => Ok(Tree::Properties(t)),
        Err(e) => Err(e),
    }
}

/// Reads by the rule `PropertyValue`.
fn read_property_value(source: &str) -> (r: ParseResult<Tree>)
    ensures
        match r {
            Ok(tree) => rule_at(Rule::PropertyValue, source@) == Ok::<_, Fault>(tree.node()),
            Err(e) => fails_as(rule_at(Rule::PropertyValue, source@), e),
        },
{
    match CollyParser::parse_property_value(source) {
        Ok(t) => Ok(Tree::PropertyValue(t)),
        Err(e) => Err(e),
    }
}

/// Reads by the rule `PatternSuperExpression`.
fn read_pattern_super_expression(source: &str) -> (r: ParseResult<Tree>)
    ensures
        match r {
            Ok(tree) => rule_at(Rule::PatternSuperExpression, source@) == Ok::<_, Fault>(tree.node()),
            Err(e) => fails_as(rule_at(Rule::PatternSuperExpression, source@), e),
        },
{
    match CollyParser::parse_pattern_super_expression(source) {
        Ok(t) => Ok(Tree::PatternSuperExpression(t)),
        Err(e) => Err(e),
    }
}

/// Reads by the rule `PatternExpression`.
fn read_pattern_expression(source: &str) -> (r: ParseResult<Tree>)
    ensures
        match r {
            Ok(tree) => rule_at(Rule::PatternExpression, source@) == Ok::<_, Fault>(tree.node()),
            Err(e) => fails_as(rule_at(Rule::PatternExpression, source@), e),
        },
{
    match CollyParser::parse_pattern_expression(source) {
        Ok(t) => Ok(Tree::PatternExpression(t)),
        Err(e) => Err(e),
    }
}

/// Reads by the rule `Pattern`.
fn read_pattern(source: &str) -> (r: ParseResult<Tree>)
    ensures
        match r {
            Ok(tree) => rule_at(Rule::Pattern, source@) == Ok::<_, Fault>(tree.node()),
            Err(e) => fails_as(rule_at(Rule::Pattern, source@), e),
        },
{
    match CollyParser::parse_pattern(source) {
        Ok(t) => Ok(Tree::Pattern(t)),
        Err(e) => Err(e),
    }
}

/// Reads by the rule `BeatEvent`.
fn read_beat_event(source: &str) -> (r: ParseResult<Tree>)
    ensures
        match r {
            Ok(tree) => rule_at(Rule::BeatEvent, source@) == Ok::<_, Fault>(tree.node()),
            Err(e) => fails_as(rule_at(Rule::BeatEvent, source@), e),
        },
{
    match CollyParser::parse_beat_event(source) {
        Ok(t) => Ok(Tree::BeatEvent(t)),
        Err(e) => Err(e),
    }
}

/// Reads by the rule `Event`.
fn read_event(source: &str) -> (r: ParseResult<Tree>)
    ensures
        match r {
            Ok(tree) => rule_at(Rule::Event, source@) == Ok::<_, Fault>(tree.node()),
            Err(e) => fails_as(rule_at(Rule::Event, source@), e),
        },
{
    match CollyParser::parse_event(source) {
        Ok(t) => Ok(Tree::Event(t)),
        Err(e) => Err(e),
    }
}

/// Reads by the rule `PatternAtom`.
fn read_pattern_atom(source: &str) -> (r: ParseResult<Tree>)
    ensures
        match r {
            Ok(tree) => rule_at(Rule::PatternAtom, source@) == Ok::<_, Fault>(tree.node()),
            Err(e) => fails_as(rule_at(Rule::PatternAtom, source@), e),
        },
{
    match CollyParser::parse_pattern_atom(source) {
        Ok(t) => Ok(Tree::PatternAtom(t)),
        Err(e) => Err(e),
    }
}

/// Reads by the rule `Modulation`.
fn read_modulation(source: &str) -> (r: ParseResult<Tree>)
    ensures
        match r {
            Ok(tree) => rule_at(Rule::Modulation, source@) == Ok::<_, Fault>(tree.node()),
            Err(e) => fails_as(rule_at(Rule::Modulation, source@), e),
        },
{
    match CollyParser::parse_modulation(source) {
        Ok(t) => Ok(Tree::Modulation(t)),
        Err(e) => Err(e),
    }
}

impl CollyParser {
    /// Reads what the rule `rule` describes at the start of the source. A
    /// rule that is read as a part of other rules only is refused.
    pub fn parse_source_for_rule(source: &str, rule: Rule) -> (r: ParseResult<Tree>)
        ensures
            match r {
                Ok(tree) => reads_alone(rule) && rule_at(rule, source@) == Ok::<_, Fault>(
                    tree.node(),
                ),
                Err(e) => if reads_alone(rule) {
                    fails_as(rule_at(rule, source@), e)
                } else {
                    e == (ParseError::BadChild { rule })
                },
            },
    {
        match rule {
            Rule::File => read_file(source),
            Rule::Statement => read_statement(source),
            Rule::AssignStatement => read_assignment(source),
            Rule::SuperExpression => read_super_expression(source),
            Rule::MethodCall => read_method_call(source),
            Rule::Expression => read_expression(source),
            Rule::FunctionCall => read_function_call(source),
            Rule::Properties => read_properties(source),
            Rule::PropertyValue => read_property_value(source),
            Rule::PatternSuperExpression => read_pattern_super_expression(source),
            Rule::PatternExpression => read_pattern_expression(source),
            Rule::Pattern => read_pattern(source),
            Rule::BeatEvent => read_beat_event(source),
            Rule::Event => read_event(source),
            Rule::PatternAtom => read_pattern_atom(source),
            Rule::Modulation => read_modulation(source),
            _ => Err(ParseError::BadChild { rule }),
        }
    }
}

/// Reading is a function of the source: whatever is read from one source
/// is the same tree, and a source that gives a tree gives no fault.
pub proof fn lemma_reading_is_a_function(source: Seq<char>, first: ast::Ast, second: ast::Ast)
    requires
        grammar::file_at(source) == Ok::<_, Fault>(first.node()),
        grammar::file_at(source) == Ok::<_, Fault>(second.node()),
    ensures
        first.node() == second.node(),
        forall|e: ParseError| !fails_as(grammar::file_at(source), e),
{
}

impl core::str::FromStr for ast::Ast {
    type Err = ParseError;

    /// Reads a whole source: statements, one to a line.
    fn from_str(source: &str) -> (r: ParseResult<Self>)
        ensures
            match r {
                Ok(tree) => grammar::file_at(source@) == Ok::<_, Fault>(tree.node()),
                Err(e) => fails_as(grammar::file_at(source@), e),
            },
    {
        CollyParser::parse(source)
    }
}

} // verus!
