//! Reading expressions and statements.

use vstd::prelude::*;
use crate::ast;
use crate::ast::laws::lemma_expression_rule;
use crate::parser::grammar::{
    pattern_assignment_at, properties_assignment_at, variable_assignment_at, array_at,
    assignment_at, file_at, is_plain, line_at, lines_at, method_call_at, past_space, simple_at,
    statement_after, statement_at, behind, entries_at, expression_at, expressions_at, fault, function_call_at, function_calls_at,
    getters_at, index_of, items_at, key_of, more_patterns_at, past_blanks, pattern_at,
    pattern_expression_at, pattern_super_at, primary_at, properties_at, property_value_at, put,
    super_expression_at, takes_getters, unique, CharKind, Fault,
};
use crate::parser::lexical::{
    is_name_start, name_trees, parse_boolean, parse_getters, parse_identifier, parse_mixer,
    parse_number, parse_string, parse_variable,
};
use crate::parser::pattern::parse_pattern;
use crate::parser::{branch, failure, leaf, Failure, Node, Rule, Source};

verus! {

/// The trees of the expressions.
pub open spec fn expression_trees(v: Seq<ast::Expression>) -> Seq<Node> {
    Seq::new(v.len(), |i: int| v[i].node())
}

/// The trees of the function calls.
pub open spec fn call_trees(v: Seq<ast::FunctionCall>) -> Seq<Node> {
    Seq::new(v.len(), |i: int| v[i].node())
}

/// The trees of the super expressions.
pub open spec fn super_trees(v: Seq<ast::SuperExpression>) -> Seq<Node> {
    Seq::new(v.len(), |i: int| v[i].node())
}

/// The trees of the pattern expressions.
pub open spec fn pattern_trees(v: Seq<ast::PatternExpression>) -> Seq<Node> {
    Seq::new(v.len(), |i: int| v[i].node())
}

/// The tree of an entry of properties.
pub open spec fn entry_tree(entry: (ast::Identifier, ast::PropertyValue)) -> Node {
    branch(Rule::Property, seq![entry.0.node(), entry.1.node()])
}

/// The trees of the entries.
pub open spec fn entry_trees(v: Seq<(ast::Identifier, ast::PropertyValue)>) -> Seq<Node> {
    Seq::new(v.len(), |i: int| entry_tree(v[i]))
}

/// A function call of the given parts.
fn function_call_of(identifier: ast::Identifier, parameters: Vec<ast::Expression>) -> (call:
    ast::FunctionCall)
    ensures
        call.node() == branch(
            Rule::FunctionCall,
            seq![identifier.node()] + expression_trees(parameters@),
        ),
{
    let call = ast::FunctionCall { identifier, parameters };
    proof {
        assert(call.node().inner =~= seq![identifier.node()] + expression_trees(parameters@));
    }
    call
}

/// An array of the given items.
fn array_of(items: Vec<ast::SuperExpression>) -> (e: ast::Expression)
    ensures
        e.node() == branch(Rule::Array, super_trees(items@)),
        e is Array,
{
    let e = ast::Expression::Array(items);
    proof {
        assert(e.node().inner =~= super_trees(items@));
    }
    e
}

/// The properties `names` read from `assignee`.
fn getter_of(assignee: ast::Expression, names: Vec<ast::Identifier>) -> (e: ast::Expression)
    ensures
        e.node() == branch(Rule::PropertyGetter, seq![assignee.node()] + name_trees(names@)),
        e is PropertyGetter,
{
    let e = ast::Expression::PropertyGetter { assignee: Box::new(assignee), property_id: names };
    proof {
        assert(e.node().inner =~= seq![assignee.node()] + name_trees(names@));
    }
    e
}

/// The function calls `callee` applied to `caller`.
fn method_call_of(caller: ast::Expression, callee: Vec<ast::FunctionCall>) -> (e:
    ast::SuperExpression)
    ensures
        e.node() == branch(
            Rule::SuperExpression,
            seq![branch(Rule::MethodCall, seq![caller.node()] + call_trees(callee@))],
        ),
        e is Method,
{
    let call = ast::MethodCall { caller, callee };
    proof {
        assert(call.node().inner =~= seq![caller.node()] + call_trees(callee@));
    }
    ast::SuperExpression::Method(call)
}

/// Properties of the given entries.
fn properties_of(entries: Vec<(ast::Identifier, ast::PropertyValue)>) -> (p: ast::Properties)
    ensures
        p.node() == branch(Rule::Properties, entry_trees(entries@)),
{
    let p = ast::Properties(entries);
    proof {
        assert(p.node().inner =~= entry_trees(entries@));
    }
    p
}

/// The tree of an input that may be there.
pub open spec fn input_tree(input: Option<Box<ast::Expression>>) -> Node {
    match input {
        Some(e) => branch(Rule::Input, seq![e.node()]),
        None => leaf(Rule::Input),
    }
}

/// The tree of properties that may be there.
pub open spec fn properties_tree(properties: Option<ast::Properties>) -> Node {
    match properties {
        Some(p) => branch(Rule::PatternProperties, seq![p.node()]),
        None => leaf(Rule::PatternProperties),
    }
}

/// A pattern expression of the given parts.
fn pattern_expression_of(
    pattern: ast::Pattern,
    input: Option<Box<ast::Expression>>,
    methods: Vec<ast::FunctionCall>,
    properties: Option<ast::Properties>,
) -> (e: ast::PatternExpression)
    ensures
        e.node() == branch(
            Rule::PatternExpression,
            seq![
                pattern.node(),
                input_tree(input),
                branch(Rule::PatternMethod, call_trees(methods@)),
                properties_tree(properties),
            ],
        ),
{
    let e = ast::PatternExpression { pattern, input, methods, properties };
    proof {
        assert(e.node().inner[2].inner =~= call_trees(methods@));
        assert(e.node().inner =~= seq![
            pattern.node(),
            input_tree(input),
            branch(Rule::PatternMethod, call_trees(methods@)),
            properties_tree(properties),
        ]);
    }
    e
}

/// A list of pattern expressions.
fn pattern_list_of(list: Vec<ast::PatternExpression>) -> (e: ast::PatternSuperExpression)
    ensures
        e.node() == branch(Rule::PatternExpressionList, pattern_trees(list@)),
{
    let e = ast::PatternSuperExpression::ExpressionList(list);
    proof {
        assert(e.node().inner =~= pattern_trees(list@));
    }
    e
}

/// Once a name is found among the entries, it is found at the same place
/// among more of them.
pub proof fn lemma_index_stays(entries: Seq<Node>, key: Seq<char>, n: int, m: int)
    requires
        0 <= n <= m,
        index_of(entries, key, n) < n,
    ensures
        index_of(entries, key, m) == index_of(entries, key, n),
    decreases m - n,
{
    if n < m {
        lemma_index_stays(entries, key, n, m - 1);
    }
}

/// Whether two strings are the same text.
fn same_text(a: &String, b: &String) -> (r: bool)
    ensures
        r == (a@ == b@),
{
    *a == *b
}

/// The entries with later values in the place of earlier ones of the same
/// name.
pub fn unique_entries(raw: Vec<(ast::Identifier, ast::PropertyValue)>) -> (out: Vec<
    (ast::Identifier, ast::PropertyValue),
>)
    ensures
        entry_trees(out@) == unique(entry_trees(raw@), raw@.len() as int),
{
    let mut rest = raw;
    let ghost all = rest@;
    let mut out: Vec<(ast::Identifier, ast::PropertyValue)> = Vec::new();
    let mut n: usize = 0;
    let len = rest.len();
    proof {
        assert(entry_trees(out@) =~= unique(entry_trees(all), 0));
    }
    while n < len
        invariant
            n <= len,
            len == all.len(),
            rest@ == all.subrange(n as int, len as int),
            entry_trees(out@) == unique(entry_trees(all), n as int),
        decreases len - n,
    {
        let entry = rest.remove(0);
        proof {
            assert(entry == all[n as int]);
            assert(entry_trees(all)[n as int] == entry_tree(entry));
        }
        let ghost before = entry_trees(out@);
        let ghost key = entry.0.0@;
        let mut j: usize = 0;
        let mut found = false;
        while j < out.len() && !found
            invariant
                j <= out@.len(),
                before == entry_trees(out@),
                key == entry.0.0@,
                !found ==> index_of(before, key, j as int) == j,
                found ==> j < out@.len() && index_of(before, key, j + 1) == j,
            decreases out@.len() - j + (if found { 0int } else { 1int }),
        {
            proof {
                assert(key_of(before[j as int]) == out@[j as int].0.0@);
            }
            if same_text(&out[j].0.0, &entry.0.0) {
                found = true;
            } else {
                j += 1;
            }
        }
        proof {
            if found {
                lemma_index_stays(before, key, j + 1, before.len() as int);
            }
            assert(key_of(entry_tree(entry)) == key);
        }
        if found {
            out.set(j, entry);
            proof {
                assert(entry_trees(out@) =~= before.update(j as int, entry_tree(entry)));
            }
        } else {
            out.push(entry);
            proof {
                assert(entry_trees(out@) =~= before.push(entry_tree(entry)));
            }
        }
        n += 1;
        proof {
            assert(rest@ =~= all.subrange(n as int, len as int));
        }
    }
    out
}

/// A pattern expression at `pos`.
pub fn parse_pattern_expression(src: &Source, pos: usize) -> (r: Result<
    (ast::PatternExpression, usize),
    Failure,
>)
    requires
        pos <= src@.len(),
    ensures
        match r {
            Ok((e, end)) => pattern_expression_at(src@, pos as int) == Ok::<_, Fault>(
                (e.node(), end as int),
            ) && pos < end <= src@.len(),
            Err(f) => pattern_expression_at(src@, pos as int) == Err::<(Node, int), _>(f@),
        },
    decreases src@.len() - pos, 1nat,
{
    let (pattern, next) = match parse_pattern(src, pos) {
        Ok(read) => read,
        Err(f) => {
            return Err(f);
        },
    };
    let at_input = src.skip(next, CharKind::Blank);
    let (input, after_input) = match parse_expression(src, at_input) {
        Ok((e, end)) => (Some(Box::new(e)), end),
        Err(_) => (None, next),
    };
    let amp = src.skip(after_input, CharKind::Blank);
    let (methods, after_methods) = if src.has(amp, '&') {
        let (calls, end) = parse_function_calls(src, amp + 1);
        if calls.len() > 0 {
            (calls, end)
        } else {
            (calls, amp + 1)
        }
    } else {
        (Vec::new(), after_input)
    };
    proof {
        assert(call_trees(Seq::<ast::FunctionCall>::empty()) =~= Seq::<Node>::empty());
        if methods@.len() == 0 {
            assert(call_trees(methods@) =~= Seq::<Node>::empty());
        }
    }
    let brace = src.skip(after_methods, CharKind::Blank);
    let (properties, end) = if src.has(brace, '{') {
        match parse_properties(src, brace) {
            Ok((p, end)) => (Some(p), end),
            Err(_) => (None, after_methods),
        }
    } else {
        (None, after_methods)
    };
    Ok((pattern_expression_of(pattern, input, methods, properties), end))
}

/// The pattern expressions at `pos`, a comma before each.
pub fn parse_more_patterns(src: &Source, pos: usize) -> (r: (Vec<ast::PatternExpression>, usize))
    requires
        pos <= src@.len(),
    ensures
        more_patterns_at(src@, pos as int) == (pattern_trees(r.0@), r.1 as int),
        pos <= r.1 <= src@.len(),
    decreases src@.len() - pos, 2nat,
{
    let mut list: Vec<ast::PatternExpression> = Vec::new();
    let mut at = pos;
    let mut done = false;
    proof {
        assert(pattern_trees(list@) + more_patterns_at(src@, pos as int).0 =~= more_patterns_at(
            src@,
            pos as int,
        ).0);
    }
    while !done
        invariant
            pos <= at <= src@.len(),
            more_patterns_at(src@, pos as int).0 == pattern_trees(list@) + (if done {
                Seq::<Node>::empty()
            } else {
                more_patterns_at(src@, at as int).0
            }),
            more_patterns_at(src@, pos as int).1 == (if done {
                at as int
            } else {
                more_patterns_at(src@, at as int).1
            }),
        decreases src@.len() - at + (if done { 0int } else { 1int }),
    {
        let comma = src.skip(at, CharKind::Blank);
        if src.has(comma, ',') {
            let start = src.skip(comma + 1, CharKind::Blank);
            match parse_pattern_expression(src, start) {
                Ok((e, next)) => {
                    proof {
                        assert(pattern_trees(list@.push(e)) =~= pattern_trees(list@).push(e.node()));
                        assert(pattern_trees(list@) + (seq![e.node()] + more_patterns_at(
                            src@,
                            next as int,
                        ).0) =~= pattern_trees(list@).push(e.node()) + more_patterns_at(
                            src@,
                            next as int,
                        ).0);
                    }
                    list.push(e);
                    at = next;
                },
                Err(_) => {
                    done = true;
                },
            }
        } else {
            done = true;
        }
    }
    proof {
        assert(pattern_trees(list@) + Seq::<Node>::empty() =~= pattern_trees(list@));
    }
    (list, at)
}

/// A pattern expression or a list of them at `pos`.
pub fn parse_pattern_super(src: &Source, pos: usize) -> (r: Result<
    (ast::PatternSuperExpression, usize),
    Failure,
>)
    requires
        pos <= src@.len(),
    ensures
        match r {
            Ok((e, end)) => pattern_super_at(src@, pos as int) == Ok::<_, Fault>(
                (e.node(), end as int),
            ) && pos < end <= src@.len(),
            Err(f) => pattern_super_at(src@, pos as int) == Err::<(Node, int), _>(f@),
        },
    decreases src@.len() - pos, 3nat,
{
    let (first, next) = match parse_pattern_expression(src, pos) {
        Ok(read) => read,
        Err(f) => {
            return Err(f);
        },
    };
    let (more, end) = parse_more_patterns(src, next);
    if more.len() > 0 {
        let ghost first_node = first.node();
        let ghost more_nodes = pattern_trees(more@);
        let mut list: Vec<ast::PatternExpression> = Vec::new();
        list.push(first);
        let mut more = more;
        list.append(&mut more);
        proof {
            assert(pattern_trees(list@) =~= seq![first_node] + more_nodes);
        }
        Ok((pattern_list_of(list), end))
    } else {
        let e = ast::PatternSuperExpression::Expression(first);
        proof {
            assert(e.node().inner =~= seq![first.node()]);
        }
        Ok((e, next))
    }
}

/// A function call at `pos`.
pub fn parse_function_call(src: &Source, pos: usize) -> (r: Result<
    (ast::FunctionCall, usize),
    Failure,
>)
    requires
        pos <= src@.len(),
    ensures
        match r {
            Ok((e, end)) => function_call_at(src@, pos as int) == Ok::<_, Fault>(
                (e.node(), end as int),
            ) && pos < end <= src@.len(),
            Err(f) => function_call_at(src@, pos as int) == Err::<(Node, int), _>(f@),
        },
    decreases src@.len() - pos, 4nat,
{
    if src.has(pos, '(') {
        let start = src.skip(pos + 1, CharKind::Blank);
        let (name, next) = match parse_identifier(src, start) {
            Ok(read) => read,
            Err(f) => {
                return Err(f);
            },
        };
        let (parameters, end) = parse_expressions(src, next);
        let close = src.skip(end, CharKind::Blank);
        if src.has(close, ')') {
            Ok((function_call_of(name, parameters), close + 1))
        } else {
            Err(failure(close))
        }
    } else {
        match parse_identifier(src, pos) {
            Ok((name, end)) => {
                proof {
                    assert(expression_trees(Seq::<ast::Expression>::empty()) =~= Seq::<
                        Node,
                    >::empty());
                    assert(seq![name.node()] + Seq::<Node>::empty() =~= seq![name.node()]);
                }
                Ok((function_call_of(name, Vec::new()), end))
            },
            Err(f) => Err(f),
        }
    }
}

/// Properties at `pos`.
pub fn parse_properties(src: &Source, pos: usize) -> (r: Result<(ast::Properties, usize), Failure>)
    requires
        pos <= src@.len(),
    ensures
        match r {
            Ok((e, end)) => properties_at(src@, pos as int) == Ok::<_, Fault>(
                (e.node(), end as int),
            ) && pos < end <= src@.len(),
            Err(f) => properties_at(src@, pos as int) == Err::<(Node, int), _>(f@),
        },
    decreases src@.len() - pos, 4nat,
{
    if !src.has(pos, '{') {
        return Err(failure(pos));
    }
    let (entries, end) = parse_entries(src, pos + 1);
    if entries.len() == 0 {
        return Err(failure(src.skip(pos + 1, CharKind::Blank)));
    }
    let close = src.skip(end, CharKind::Blank);
    if src.has(close, '}') {
        Ok((properties_of(unique_entries(entries)), close + 1))
    } else {
        Err(failure(close))
    }
}

/// An array at `pos`.
fn parse_array(src: &Source, pos: usize) -> (r: Result<(ast::Expression, usize), Failure>)
    requires
        pos <= src@.len(),
    ensures
        match r {
            Ok((e, end)) => array_at(src@, pos as int) == Ok::<_, Fault>((e.node(), end as int))
                && pos < end <= src@.len(),
            Err(f) => array_at(src@, pos as int) == Err::<(Node, int), _>(f@),
        },
    decreases src@.len() - pos, 4nat,
{
    if !src.has(pos, '[') {
        return Err(failure(pos));
    }
    let (items, end) = parse_items(src, pos + 1);
    if items.len() == 0 {
        return Err(failure(src.skip(pos + 1, CharKind::Blank)));
    }
    let close = src.skip(end, CharKind::Blank);
    if src.has(close, ']') {
        Ok((array_of(items), close + 1))
    } else {
        Err(failure(close))
    }
}

/// A number, a string, a variable, a track, a pattern slot or the mixer at
/// `pos`.
fn parse_simple(src: &Source, pos: usize) -> (r: Result<(ast::Expression, usize), Failure>)
    requires
        pos < src@.len(),
    ensures
        match r {
            Ok((e, end)) => simple_at(src@, pos as int) == Ok::<_, Fault>((e.node(), end as int))
                && pos < end <= src@.len(),
            Err(f) => simple_at(src@, pos as int) == Err::<(Node, int), _>(f@),
        },
{
    let c = src.at(pos);
    if crate::parser::is_of_kind(c, CharKind::Digit) || c == '-' {
        match parse_number(src, pos) {
            Ok((text, end)) => Ok((ast::Expression::Number(text), end)),
            Err(f) => Err(f),
        }
    } else if c == '"' {
        match parse_string(src, pos) {
            Ok((text, end)) => Ok((ast::Expression::String(text), end)),
            Err(f) => Err(f),
        }
    } else if c == ':' {
        parse_variable(src, pos)
    } else if c == '$' {
        parse_mixer(src, pos)
    } else {
        Err(failure(pos))
    }
}

/// An expression at `pos` that is not a chain of properties.
pub fn parse_primary(src: &Source, pos: usize) -> (r: Result<(ast::Expression, usize), Failure>)
    requires
        pos <= src@.len(),
    ensures
        match r {
            Ok((e, end)) => primary_at(src@, pos as int) == Ok::<_, Fault>((e.node(), end as int))
                && pos < end <= src@.len(),
            Err(f) => primary_at(src@, pos as int) == Err::<(Node, int), _>(f@),
        },
    decreases src@.len() - pos, 5nat,
{
    if pos >= src.len() {
        return Err(failure(pos));
    }
    match parse_boolean(src, pos) {
        Ok(read) => {
            return Ok(read);
        },
        Err(_) => {},
    }
    let c = src.at(pos);
    if is_simple_start(c) {
        parse_simple(src, pos)
    } else if c == '{' {
        match parse_properties(src, pos) {
            Ok((p, end)) => Ok((ast::Expression::Properties(p), end)),
            Err(f) => Err(f),
        }
    } else if c == '[' {
        parse_array(src, pos)
    } else if c == '(' || is_name_start(c) {
        match parse_function_call(src, pos) {
            Ok((call, end)) => Ok((ast::Expression::Function(call), end)),
            Err(f) => Err(f),
        }
    } else if c == '|' {
        match parse_pattern_super(src, pos) {
            Ok((p, end)) => Ok((ast::Expression::PatternSuperExpression(p), end)),
            Err(f) => Err(f),
        }
    } else {
        Err(failure(pos))
    }
}

/// Whether a number, a string, a variable, a track, a pattern slot or the
/// mixer can start with `c`.
fn is_simple_start(c: char) -> (b: bool)
    ensures
        b == crate::parser::grammar::starts_simple(c),
{
    crate::parser::is_of_kind(c, CharKind::Digit) || c == '-' || c == '"' || c == ':' || c == '$'
}

/// Whether properties can be read from the expression.
fn can_take_getters(e: &ast::Expression) -> (b: bool)
    ensures
        b == takes_getters(e.node().rule),
{
    proof {
        lemma_expression_rule(*e);
    }
    match e {
        ast::Expression::Variable(_) => true,
        ast::Expression::PatternSlot(_, _) => true,
        ast::Expression::Track(_) => true,
        ast::Expression::Mixer => true,
        ast::Expression::Function(_) => true,
        ast::Expression::Properties(_) => true,
        ast::Expression::Array(_) => true,
        _ => false,
    }
}

/// An expression at `pos`.
pub fn parse_expression(src: &Source, pos: usize) -> (r: Result<(ast::Expression, usize), Failure>)
    requires
        pos <= src@.len(),
    ensures
        match r {
            Ok((e, end)) => expression_at(src@, pos as int) == Ok::<_, Fault>(
                (e.node(), end as int),
            ) && pos < end <= src@.len(),
            Err(f) => expression_at(src@, pos as int) == Err::<(Node, int), _>(f@),
        },
    decreases src@.len() - pos, 6nat,
{
    let (primary, next) = match parse_primary(src, pos) {
        Ok(read) => read,
        Err(f) => {
            return Err(f);
        },
    };
    if can_take_getters(&primary) {
        let (names, end) = parse_getters(src, next);
        if names.len() > 0 {
            return Ok((getter_of(primary, names), end));
        }
    }
    Ok((primary, next))
}

/// The expressions at `pos`, blanks before each.
pub fn parse_expressions(src: &Source, pos: usize) -> (r: (Vec<ast::Expression>, usize))
    requires
        pos <= src@.len(),
    ensures
        expressions_at(src@, pos as int) == (expression_trees(r.0@), r.1 as int),
        pos <= r.1 <= src@.len(),
    decreases src@.len() - pos, 7nat,
{
    let mut list: Vec<ast::Expression> = Vec::new();
    let mut at = pos;
    let mut done = false;
    proof {
        assert(expression_trees(list@) + expressions_at(src@, pos as int).0 =~= expressions_at(
            src@,
            pos as int,
        ).0);
    }
    while !done
        invariant
            pos <= at <= src@.len(),
            expressions_at(src@, pos as int).0 == expression_trees(list@) + (if done {
                Seq::<Node>::empty()
            } else {
                expressions_at(src@, at as int).0
            }),
            expressions_at(src@, pos as int).1 == (if done {
                at as int
            } else {
                expressions_at(src@, at as int).1
            }),
        decreases src@.len() - at + (if done { 0int } else { 1int }),
    {
        let start = src.skip(at, CharKind::Blank);
        match parse_expression(src, start) {
            Ok((e, next)) => {
                proof {
                    assert(expression_trees(list@.push(e)) =~= expression_trees(list@).push(
                        e.node(),
                    ));
                    assert(expression_trees(list@) + (seq![e.node()] + expressions_at(
                        src@,
                        next as int,
                    ).0) =~= expression_trees(list@).push(e.node()) + expressions_at(
                        src@,
                        next as int,
                    ).0);
                }
                list.push(e);
                at = next;
            },
            Err(_) => {
                done = true;
            },
        }
    }
    proof {
        assert(expression_trees(list@) + Seq::<Node>::empty() =~= expression_trees(list@));
    }
    (list, at)
}

/// The function calls at `pos`, blanks before each.
pub fn parse_function_calls(src: &Source, pos: usize) -> (r: (Vec<ast::FunctionCall>, usize))
    requires
        pos <= src@.len(),
    ensures
        function_calls_at(src@, pos as int) == (call_trees(r.0@), r.1 as int),
        pos <= r.1 <= src@.len(),
        r.0@.len() > 0 ==> pos < r.1,
    decreases src@.len() - pos, 7nat,
{
    let mut list: Vec<ast::FunctionCall> = Vec::new();
    let mut at = pos;
    let mut done = false;
    proof {
        assert(call_trees(list@) + function_calls_at(src@, pos as int).0 =~= function_calls_at(
            src@,
            pos as int,
        ).0);
    }
    while !done
        invariant
            pos <= at <= src@.len(),
            list@.len() > 0 ==> pos < at,
            function_calls_at(src@, pos as int).0 == call_trees(list@) + (if done {
                Seq::<Node>::empty()
            } else {
                function_calls_at(src@, at as int).0
            }),
            function_calls_at(src@, pos as int).1 == (if done {
                at as int
            } else {
                function_calls_at(src@, at as int).1
            }),
        decreases src@.len() - at + (if done { 0int } else { 1int }),
    {
        let start = src.skip(at, CharKind::Blank);
        match parse_function_call(src, start) {
            Ok((e, next)) => {
                proof {
                    assert(call_trees(list@.push(e)) =~= call_trees(list@).push(e.node()));
                    assert(call_trees(list@) + (seq![e.node()] + function_calls_at(
                        src@,
                        next as int,
                    ).0) =~= call_trees(list@).push(e.node()) + function_calls_at(
                        src@,
                        next as int,
                    ).0);
                }
                list.push(e);
                at = next;
            },
            Err(_) => {
                done = true;
            },
        }
    }
    proof {
        assert(call_trees(list@) + Seq::<Node>::empty() =~= call_trees(list@));
    }
    (list, at)
}

/// An expression at `pos`, with the function calls that are applied to it.
pub fn parse_super_expression(src: &Source, pos: usize) -> (r: Result<
    (ast::SuperExpression, usize),
    Failure,
>)
    requires
        pos <= src@.len(),
    ensures
        match r {
            Ok((e, end)) => super_expression_at(src@, pos as int) == Ok::<_, Fault>(
                (e.node(), end as int),
            ) && pos < end <= src@.len(),
            Err(f) => super_expression_at(src@, pos as int) == Err::<(Node, int), _>(f@),
        },
    decreases src@.len() - pos, 8nat,
{
    let (e, next) = match parse_expression(src, pos) {
        Ok(read) => read,
        Err(f) => {
            return Err(f);
        },
    };
    let (calls, end) = parse_function_calls(src, next);
    if calls.len() > 0 {
        Ok((method_call_of(e, calls), end))
    } else {
        let s = ast::SuperExpression::Expression(e);
        proof {
            assert(s.node().inner =~= seq![e.node()]);
        }
        Ok((s, next))
    }
}

/// The items of an array at `pos`, with commas between them.
pub fn parse_items(src: &Source, pos: usize) -> (r: (Vec<ast::SuperExpression>, usize))
    requires
        pos <= src@.len(),
    ensures
        items_at(src@, pos as int) == (super_trees(r.0@), r.1 as int),
        pos <= r.1 <= src@.len(),
    decreases src@.len() - pos, 9nat,
{
    let mut list: Vec<ast::SuperExpression> = Vec::new();
    let mut at = pos;
    let mut end = pos;
    let mut done = false;
    while !done
        invariant
            pos <= end <= src@.len(),
            pos <= at <= src@.len(),
            list@.len() == 0 ==> at == pos && end == pos,
            list@.len() == 0 && !done ==> items_at(src@, pos as int) == items_at(src@, at as int),
            list@.len() == 0 && done ==> items_at(src@, pos as int) == (
                Seq::<Node>::empty(),
                pos as int,
            ),
            list@.len() > 0 ==> items_at(src@, pos as int) == (if !done && items_at(
                src@,
                at as int,
            ).0.len() > 0 {
                (super_trees(list@) + items_at(src@, at as int).0, items_at(src@, at as int).1)
            } else {
                (super_trees(list@), end as int)
            }),
        decreases src@.len() - at + (if done { 0int } else { 1int }),
    {
        let start = src.skip(at, CharKind::Blank);
        match parse_super_expression(src, start) {
            Ok((item, next)) => {
                let comma = src.skip(next, CharKind::Blank);
                proof {
                    assert(super_trees(list@.push(item)) =~= super_trees(list@).push(item.node()));
                    assert(super_trees(list@) + seq![item.node()] =~= super_trees(list@).push(
                        item.node(),
                    ));
                    assert(Seq::<Node>::empty() + seq![item.node()] =~= seq![item.node()]);
                    if src@.len() > comma {
                        let more = items_at(src@, comma + 1);
                        assert(super_trees(list@) + (seq![item.node()] + more.0) =~= super_trees(
                            list@,
                        ).push(item.node()) + more.0);
                    }
                }
                list.push(item);
                end = next;
                if src.has(comma, ',') {
                    at = comma + 1;
                } else {
                    done = true;
                }
            },
            Err(_) => {
                done = true;
            },
        }
    }
    proof {
        if list@.len() == 0 {
            assert(super_trees(list@) =~= Seq::<Node>::empty());
        }
    }
    (list, end)
}

/// The value of a property at `pos`.
pub fn parse_property_value(src: &Source, pos: usize) -> (r: Result<
    (ast::PropertyValue, usize),
    Failure,
>)
    requires
        pos <= src@.len(),
    ensures
        match r {
            Ok((e, end)) => property_value_at(src@, pos as int) == Ok::<_, Fault>(
                (e.node(), end as int),
            ) && pos < end <= src@.len(),
            Err(f) => property_value_at(src@, pos as int) == Err::<(Node, int), _>(f@),
        },
    decreases src@.len() - pos, 9nat,
{
    if src.has(pos, '|') {
        match parse_pattern_expression(src, pos) {
            Ok((value, end)) => {
                let v = ast::PropertyValue::PatternExpression(value);
                proof {
                    assert(v.node().inner =~= seq![value.node()]);
                }
                Ok((v, end))
            },
            Err(f) => Err(f),
        }
    } else {
        match parse_super_expression(src, pos) {
            Ok((value, end)) => {
                let v = ast::PropertyValue::SuperExpression(value);
                proof {
                    assert(v.node().inner =~= seq![value.node()]);
                }
                Ok((v, end))
            },
            Err(f) => Err(f),
        }
    }
}

/// The entries of properties at `pos`, with commas between them.
pub fn parse_entries(src: &Source, pos: usize) -> (r: (
    Vec<(ast::Identifier, ast::PropertyValue)>,
    usize,
))
    requires
        pos <= src@.len(),
    ensures
        entries_at(src@, pos as int) == (entry_trees(r.0@), r.1 as int),
        pos <= r.1 <= src@.len(),
    decreases src@.len() - pos, 10nat,
{
    let mut list: Vec<(ast::Identifier, ast::PropertyValue)> = Vec::new();
    let mut at = pos;
    let mut end = pos;
    let mut done = false;
    while !done
        invariant
            pos <= end <= src@.len(),
            pos <= at <= src@.len(),
            list@.len() == 0 ==> at == pos && end == pos,
            list@.len() == 0 && !done ==> entries_at(src@, pos as int) == entries_at(
                src@,
                at as int,
            ),
            list@.len() == 0 && done ==> entries_at(src@, pos as int) == (
                Seq::<Node>::empty(),
                pos as int,
            ),
            list@.len() > 0 ==> entries_at(src@, pos as int) == (if !done && entries_at(
                src@,
                at as int,
            ).0.len() > 0 {
                (entry_trees(list@) + entries_at(src@, at as int).0, entries_at(src@, at as int).1)
            } else {
                (entry_trees(list@), end as int)
            }),
        decreases src@.len() - at + (if done { 0int } else { 1int }),
    {
        let key_at = src.skip(at, CharKind::Blank);
        match parse_identifier(src, key_at) {
            Err(_) => {
                done = true;
            },
            Ok((key, after_key)) => {
                let colon = src.skip(after_key, CharKind::Blank);
                if !src.has(colon, ':') {
                    done = true;
                } else {
                    let start = src.skip(colon + 1, CharKind::Blank);
                    match parse_property_value(src, start) {
                        Err(_) => {
                            done = true;
                        },
                        Ok((value, next)) => {
                            let comma = src.skip(next, CharKind::Blank);
                            let entry = (key, value);
                            proof {
                                let node = entry_tree(entry);
                                assert(entry_trees(list@.push(entry)) =~= entry_trees(list@).push(
                                    node,
                                ));
                                assert(entry_trees(list@) + seq![node] =~= entry_trees(list@).push(
                                    node,
                                ));
                                assert(Seq::<Node>::empty() + seq![node] =~= seq![node]);
                                if src@.len() > comma {
                                    let more = entries_at(src@, comma + 1);
                                    assert(entry_trees(list@) + (seq![node] + more.0)
                                        =~= entry_trees(list@).push(node) + more.0);
                                }
                            }
                            list.push(entry);
                            end = next;
                            if src.has(comma, ',') {
                                at = comma + 1;
                            } else {
                                done = true;
                            }
                        },
                    }
                }
            },
        }
    }
    proof {
        if list@.len() == 0 {
            assert(entry_trees(list@) =~= Seq::<Node>::empty());
        }
    }
    (list, end)
}


/// The trees of the statements.
pub open spec fn statement_trees(v: Seq<ast::Statement>) -> Seq<Node> {
    Seq::new(v.len(), |i: int| v[i].node())
}

/// Whether the super expression is a plain variable.
fn is_variable(head: &ast::SuperExpression) -> (b: bool)
    ensures
        b == is_plain(head.node(), Rule::Variable),
        b == (*head matches ast::SuperExpression::Expression(e) && e is Variable),
        head.node().inner.len() == 1,
        *head matches ast::SuperExpression::Expression(e) ==> head.node().inner[0] == e.node(),
{
    match head {
        ast::SuperExpression::Expression(e) => {
            proof {
                lemma_expression_rule(*e);
                assert(head.node().inner =~= seq![e.node()]);
            }
            match e {
                ast::Expression::Variable(_) => true,
                _ => false,
            }
        },
        ast::SuperExpression::Method(call) => {
            proof {
                assert(head.node().inner =~= seq![call.node()]);
                assert(call.node().rule == Rule::MethodCall);
            }
            false
        },
    }
}

/// Whether the super expression is a plain pattern slot.
fn is_slot(head: &ast::SuperExpression) -> (b: bool)
    ensures
        b == is_plain(head.node(), Rule::PatternSlot),
        b == (*head matches ast::SuperExpression::Expression(e) && e is PatternSlot),
{
    match head {
        ast::SuperExpression::Expression(e) => {
            proof {
                lemma_expression_rule(*e);
                assert(head.node().inner =~= seq![e.node()]);
            }
            match e {
                ast::Expression::PatternSlot(_, _) => true,
                _ => false,
            }
        },
        ast::SuperExpression::Method(call) => {
            proof {
                assert(head.node().inner =~= seq![call.node()]);
                assert(call.node().rule == Rule::MethodCall);
            }
            false
        },
    }
}

/// The assignment of `value` to the variable that `head` is.
fn variable_assignment_of(head: ast::SuperExpression, value: ast::SuperExpression) -> (a:
    ast::Assignment)
    requires
        head matches ast::SuperExpression::Expression(e) && e is Variable,
    ensures
        a.node() == branch(
            Rule::VariableAssignment,
            seq![head.node().inner[0].inner[0], value.node()],
        ),
{
    match head {
        ast::SuperExpression::Expression(ast::Expression::Variable(name)) => {
            let a = ast::Assignment::Variable { assignee: name, assignment: value };
            proof {
                assert(head.node().inner =~= seq![ast::Expression::Variable(name).node()]);
                assert(ast::Expression::Variable(name).node().inner =~= seq![name.node()]);
                assert(a.node().inner =~= seq![name.node(), value.node()]);
            }
            a
        },
        // not reached: `head` is a variable
        other => ast::Assignment::Properties {
            assignee: other,
            assignment: ast::Properties(Vec::new()),
        },
    }
}

/// The assignment of the patterns `value` to the expression that `head`
/// is.
fn pattern_assignment_of(head: ast::SuperExpression, value: ast::PatternSuperExpression) -> (a:
    ast::Assignment)
    requires
        head is Expression,
    ensures
        a.node() == branch(Rule::PatternAssignment, seq![head.node().inner[0], value.node()]),
{
    match head {
        ast::SuperExpression::Expression(e) => {
            let a = ast::Assignment::Pattern { assignee: e, assignment: value };
            proof {
                assert(head.node().inner =~= seq![e.node()]);
                assert(a.node().inner =~= seq![e.node(), value.node()]);
            }
            a
        },
        // not reached: `head` is a plain expression
        other => ast::Assignment::Properties {
            assignee: other,
            assignment: ast::Properties(Vec::new()),
        },
    }
}

/// The statement that an assignment makes.
fn assign_of(a: ast::Assignment) -> (s: ast::Statement)
    ensures
        s.node() == branch(Rule::Statement, seq![a.node()]),
        s is Assign,
{
    let s = ast::Statement::Assign(a);
    proof {
        assert(s.node().inner =~= seq![a.node()]);
    }
    s
}

/// The assignment of the value behind the `=` at `at` to the variable
/// `head`.
fn parse_variable_assignment(src: &Source, head: ast::SuperExpression, at: usize) -> (r: Result<
    (ast::Statement, usize),
    Failure,
>)
    requires
        at < src@.len(),
        head matches ast::SuperExpression::Expression(e) && e is Variable,
    ensures
        match r {
            Ok((e, end)) => variable_assignment_at(src@, head.node(), at as int) == Ok::<_, Fault>(
                (e.node(), end as int),
            ) && at < end <= src@.len(),
            Err(f) => variable_assignment_at(src@, head.node(), at as int) == Err::<(Node, int), _>(
                f@,
            ),
        },
{
    let len = src.len();
    let start = src.skip(at + 1, CharKind::Blank);
    match parse_super_expression(src, start) {
        Ok((value, end)) => Ok((assign_of(variable_assignment_of(head, value)), end)),
        Err(f) => Err(f),
    }
}

/// The assignment of the patterns at `at` to `head`.
fn parse_pattern_assignment(src: &Source, head: ast::SuperExpression, at: usize) -> (r: Result<
    (ast::Statement, usize),
    Failure,
>)
    requires
        at <= src@.len(),
        head is Expression,
    ensures
        match r {
            Ok((e, end)) => pattern_assignment_at(src@, head.node(), at as int) == Ok::<_, Fault>(
                (e.node(), end as int),
            ) && at < end <= src@.len(),
            Err(f) => pattern_assignment_at(src@, head.node(), at as int) == Err::<(Node, int), _>(
                f@,
            ),
        },
{
    match parse_pattern_super(src, at) {
        Ok((value, end)) => Ok((assign_of(pattern_assignment_of(head, value)), end)),
        Err(f) => Err(f),
    }
}

/// The assignment of the properties at `at` to `head`.
fn parse_properties_assignment(src: &Source, head: ast::SuperExpression, at: usize) -> (r: Result<
    (ast::Statement, usize),
    Failure,
>)
    requires
        at <= src@.len(),
    ensures
        match r {
            Ok((e, end)) => properties_assignment_at(src@, head.node(), at as int) == Ok::<
                _,
                Fault,
            >((e.node(), end as int)) && at < end <= src@.len(),
            Err(f) => properties_assignment_at(src@, head.node(), at as int) == Err::<
                (Node, int),
                _,
            >(f@),
        },
{
    match parse_properties(src, at) {
        Ok((value, end)) => {
            let a = ast::Assignment::Properties { assignee: head, assignment: value };
            proof {
                assert(a.node().inner =~= seq![head.node(), value.node()]);
            }
            Ok((assign_of(a), end))
        },
        Err(f) => Err(f),
    }
}

/// What `head` becomes with what stands behind it.
fn parse_statement_after(src: &Source, head: ast::SuperExpression, next: usize) -> (r: Result<
    (ast::Statement, usize),
    Failure,
>)
    requires
        next <= src@.len(),
    ensures
        match r {
            Ok((e, end)) => statement_after(src@, head.node(), next as int) == Ok::<_, Fault>(
                (e.node(), end as int),
            ) && next <= end <= src@.len(),
            Err(f) => statement_after(src@, head.node(), next as int) == Err::<(Node, int), _>(f@),
        },
{
    let at = src.skip(next, CharKind::Blank);
    let variable = is_variable(&head);
    let slot = is_slot(&head);
    if src.has(at, '=') && variable {
        parse_variable_assignment(src, head, at)
    } else if src.has(at, '|') && (variable || slot) {
        parse_pattern_assignment(src, head, at)
    } else if src.has(at, '{') {
        parse_properties_assignment(src, head, at)
    } else {
        let s = ast::Statement::SuperExpression(head);
        proof {
            assert(s.node().inner =~= seq![head.node()]);
        }
        Ok((s, next))
    }
}

/// A statement at `pos`.
pub fn parse_statement(src: &Source, pos: usize) -> (r: Result<(ast::Statement, usize), Failure>)
    requires
        pos <= src@.len(),
    ensures
        match r {
            Ok((e, end)) => statement_at(src@, pos as int) == Ok::<_, Fault>(
                (e.node(), end as int),
            ) && pos < end <= src@.len(),
            Err(f) => statement_at(src@, pos as int) == Err::<(Node, int), _>(f@),
        },
{
    match parse_super_expression(src, pos) {
        Ok((head, next)) => parse_statement_after(src, head, next),
        Err(f) => Err(f),
    }
}

/// The rule of the tree of an assignment is never that of a super
/// expression, and that of a super expression always is.
pub proof fn lemma_statement_rule(s: ast::Statement)
    ensures
        s.node().inner.len() == 1,
        s matches ast::Statement::SuperExpression(e) ==> s.node().inner[0] == e.node()
            && e.node().rule == Rule::SuperExpression,
        s matches ast::Statement::Assign(a) ==> s.node().inner[0] == a.node() && a.node().rule
            != Rule::SuperExpression,
{
    match s {
        ast::Statement::SuperExpression(e) => {
            assert(s.node().inner =~= seq![e.node()]);
            match e {
                ast::SuperExpression::Expression(_) => {},
                ast::SuperExpression::Method(_) => {},
            }
        },
        ast::Statement::Assign(a) => {
            assert(s.node().inner =~= seq![a.node()]);
            match a {
                ast::Assignment::Pattern { .. } => {},
                ast::Assignment::Variable { .. } => {},
                ast::Assignment::Properties { .. } => {},
            }
        },
    }
}

/// An assignment at `pos`.
pub fn parse_assignment(src: &Source, pos: usize) -> (r: Result<(ast::Assignment, usize), Failure>)
    requires
        pos <= src@.len(),
    ensures
        match r {
            Ok((e, end)) => assignment_at(src@, pos as int) == Ok::<_, Fault>(
                (e.node(), end as int),
            ) && pos < end <= src@.len(),
            Err(f) => assignment_at(src@, pos as int) == Err::<(Node, int), _>(f@),
        },
{
    match parse_statement(src, pos) {
        Err(f) => Err(f),
        Ok((statement, end)) => {
            proof {
                lemma_statement_rule(statement);
            }
            match statement {
                ast::Statement::Assign(a) => Ok((a, end)),
                ast::Statement::SuperExpression(_) => Err(failure(src.skip(end, CharKind::Blank))),
            }
        },
    }
}

/// A method call at `pos`.
pub fn parse_method_call(src: &Source, pos: usize) -> (r: Result<(ast::MethodCall, usize), Failure>)
    requires
        pos <= src@.len(),
    ensures
        match r {
            Ok((e, end)) => method_call_at(src@, pos as int) == Ok::<_, Fault>(
                (e.node(), end as int),
            ) && pos < end <= src@.len(),
            Err(f) => method_call_at(src@, pos as int) == Err::<(Node, int), _>(f@),
        },
{
    match parse_super_expression(src, pos) {
        Err(f) => Err(f),
        Ok((value, end)) => {
            match value {
                ast::SuperExpression::Method(call) => {
                    proof {
                        assert(value.node().inner =~= seq![call.node()]);
                        assert(call.node().rule == Rule::MethodCall);
                    }
                    Ok((call, end))
                },
                ast::SuperExpression::Expression(e) => {
                    proof {
                        assert(value.node().inner =~= seq![e.node()]);
                        lemma_expression_rule(e);
                    }
                    Err(failure(src.skip(end, CharKind::Blank)))
                },
            }
        },
    }
}

/// Whether `c` ends a line.
fn is_line_end(c: char) -> (b: bool)
    ensures
        b == crate::parser::grammar::is_line_end(c),
{
    c == '\n' || c == '\r'
}

/// The statement of the next line that holds one, and the position behind
/// that line.
pub fn parse_line(src: &Source, pos: usize) -> (r: Result<Option<(ast::Statement, usize)>, Failure>)
    requires
        pos <= src@.len(),
    ensures
        match r {
            Ok(Some((statement, next))) => line_at(src@, pos as int) == Ok::<_, Fault>(
                Some((statement.node(), next as int)),
            ) && pos < next <= src@.len(),
            Ok(None) => line_at(src@, pos as int) == Ok::<Option<(Node, int)>, Fault>(None),
            Err(f) => line_at(src@, pos as int) == Err::<Option<(Node, int)>, _>(f@),
        },
{
    let len = src.len();
    let start = src.skip(pos, CharKind::Space);
    if start >= len {
        return Ok(None);
    }
    match parse_statement(src, start) {
        Err(f) => Err(f),
        Ok((statement, next)) => {
            let end = src.skip(next, CharKind::Blank);
            if end >= len {
                Ok(Some((statement, len)))
            } else if is_line_end(src.at(end)) {
                Ok(Some((statement, end + 1)))
            } else {
                Err(failure(end))
            }
        },
    }
}

/// The statements from `pos` to the end of the text.
pub fn parse_lines(src: &Source, pos: usize) -> (r: Result<Vec<ast::Statement>, Failure>)
    requires
        pos <= src@.len(),
    ensures
        match r {
            Ok(list) => lines_at(src@, pos as int) == Ok::<_, Fault>(statement_trees(list@)),
            Err(f) => lines_at(src@, pos as int) == Err::<Seq<Node>, _>(f@),
        },
{
    let mut list: Vec<ast::Statement> = Vec::new();
    let mut at = pos;
    let mut outcome: Option<Result<(), Failure>> = None;
    proof {
        assert(statement_trees(list@) =~= Seq::<Node>::empty());
    }
    while outcome.is_none()
        invariant
            pos <= at <= src@.len(),
            match outcome {
                None => match lines_at(src@, at as int) {
                    Ok(more) => lines_at(src@, pos as int) == Ok::<_, Fault>(
                        statement_trees(list@) + more,
                    ),
                    Err(f) => lines_at(src@, pos as int) == Err::<Seq<Node>, _>(f),
                },
                Some(Ok(())) => lines_at(src@, pos as int) == Ok::<_, Fault>(
                    statement_trees(list@),
                ),
                Some(Err(f)) => lines_at(src@, pos as int) == Err::<Seq<Node>, _>(f@),
            },
        decreases src@.len() - at + (if outcome.is_none() { 1int } else { 0int }),
    {
        match parse_line(src, at) {
            Err(f) => {
                outcome = Some(Err(f));
            },
            Ok(None) => {
                proof {
                    assert(statement_trees(list@) + Seq::<Node>::empty() =~= statement_trees(
                        list@,
                    ));
                }
                outcome = Some(Ok(()));
            },
            Ok(Some((statement, next))) => {
                proof {
                    let node = statement.node();
                    assert(statement_trees(list@.push(statement)) =~= statement_trees(list@).push(
                        node,
                    ));
                    if let Ok(more) = lines_at(src@, next as int) {
                        assert(statement_trees(list@) + (seq![node] + more) =~= statement_trees(
                            list@,
                        ).push(node) + more);
                    }
                }
                list.push(statement);
                at = next;
            },
        }
    }
    match outcome {
        Some(Err(f)) => Err(f),
        _ => Ok(list),
    }
}

/// A whole source.
pub fn parse_file(src: &Source) -> (r: Result<ast::Ast, Failure>)
    ensures
        match r {
            Ok(tree) => file_at(src@) == Ok::<_, Fault>(tree.node()),
            Err(f) => file_at(src@) == Err::<Node, _>(f@),
        },
{
    match parse_lines(src, 0) {
        Ok(list) => {
            let tree = ast::Ast(list);
            proof {
                assert(tree.node().inner =~= statement_trees(list@));
            }
            Ok(tree)
        },
        Err(f) => Err(f),
    }
}

} // verus!
