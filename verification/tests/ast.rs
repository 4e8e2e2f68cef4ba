use colly::ast::{
    Alteration, Assignment, Ast, BeatEvent, Chord, Event, EventMethod, Expression, FunctionCall,
    Identifier, MethodCall, Modulation, Note, Octave, ParenthesisedEvent, Pattern, PatternAtom,
    PatternAtomValue, PatternExpression, PatternSuperExpression, Properties, PropertyValue,
    Statement, SuperExpression,
};
use colly::parser::{CollyParser, ParseError, ParseResult, Rule, Tree};

/// The number that the expression holds.
fn number_value(expression: &Expression) -> f64 {
    match expression {
        Expression::Number(text) => text.parse().unwrap(),
        other => panic!("not a number: {:?}", other),
    }
}

fn number(text: &str) -> Expression {
    Expression::Number(text.to_string())
}

fn plain(expression: Expression) -> SuperExpression {
    SuperExpression::Expression(expression)
}

fn call(name: &str, parameters: Vec<Expression>) -> FunctionCall {
    FunctionCall { identifier: Identifier(name.to_string()), parameters }
}

fn note(pitch: u64) -> PatternAtom {
    PatternAtom {
        value: PatternAtomValue::Note(Note { pitch, alteration: Vec::new() }),
        methods: Vec::new(),
    }
}

fn group(pitches: &[u64]) -> Event {
    Event::Group(pitches.iter().map(|p| note(*p)).collect())
}

fn empty_pattern() -> PatternExpression {
    PatternExpression {
        pattern: Pattern(Vec::new()),
        input: None,
        methods: Vec::new(),
        properties: None,
    }
}

#[test]
fn test_parse_number() {
    let result: ParseResult<Expression> = CollyParser::parse_expression("0.123");
    assert_eq!(0.123, number_value(&result.unwrap()));

    let result: ParseResult<Expression> = CollyParser::parse_expression("10");
    assert_eq!(10.0, number_value(&result.unwrap()));

    let result: ParseResult<Expression> = CollyParser::parse_expression("1e5");
    assert_eq!(1e5, number_value(&result.unwrap()));

    let result: ParseResult<Expression> = CollyParser::parse_expression("1e-5");
    assert_eq!(1e-5, number_value(&result.unwrap()));
}

#[test]
fn tests_test_parse_number() {
    assert_eq!(number("0.123"), CollyParser::parse_expression("0.123").unwrap());
    assert_eq!(number("10"), CollyParser::parse_expression("10").unwrap());
    assert_eq!(number("1e5"), CollyParser::parse_expression("1e5").unwrap());
    assert_eq!(number("1e-5"), CollyParser::parse_expression("1e-5").unwrap());
}

#[test]
fn test_parse_boolean() {
    let result: ParseResult<Expression> = CollyParser::parse_expression("true");
    assert_eq!(Expression::Boolean(true), result.unwrap());

    let result: ParseResult<Expression> = CollyParser::parse_expression("false");
    assert_eq!(Expression::Boolean(false), result.unwrap());
}

#[test]
fn tests_test_parse_boolean() {
    assert_eq!(Expression::Boolean(true), CollyParser::parse_expression("true").unwrap());
    assert_eq!(Expression::Boolean(false), CollyParser::parse_expression("false").unwrap());
}

#[test]
fn test_parse_string() {
    let result: ParseResult<Expression> =
        CollyParser::parse_expression("\"hello world {} \n\"");
    assert_eq!(
        Expression::String("hello world {} \n".to_string()),
        result.unwrap()
    );
}

#[test]
fn tests_test_parse_string() {
    assert_eq!(
        Expression::String("hello world {} \n".to_string()),
        CollyParser::parse_expression("\"hello world {} \n\"").unwrap()
    );
}

#[test]
fn test_parse_mixer() {
    let result: ParseResult<Expression> = CollyParser::parse_expression("$");
    assert_eq!(Expression::Mixer, result.unwrap());
}

#[test]
fn tests_test_parse_mixer() {
    assert_eq!(Expression::Mixer, CollyParser::parse_expression("$").unwrap());
}

#[test]
fn test_parse_variable() {
    let result: ParseResult<Expression> = CollyParser::parse_expression(":foo");
    assert_eq!(
        Expression::Variable(Identifier("foo".to_string())),
        result.unwrap()
    );
}

#[test]
fn tests_test_parse_variable() {
    assert_eq!(
        Expression::Variable(Identifier("foo".to_string())),
        CollyParser::parse_expression(":foo").unwrap()
    );
}

#[test]
fn test_parse_property_getter() {
    let expected = Expression::PropertyGetter {
        assignee: Box::new(Expression::Variable(Identifier("foo".into()))),
        property_id: vec![Identifier("bar".into())],
    };
    let result: ParseResult<Expression> = CollyParser::parse_expression(":foo.bar");
    assert_eq!(expected, result.unwrap());

    let expected = Expression::PropertyGetter {
        assignee: Box::new(Expression::Variable(Identifier("foo".into()))),
        property_id: vec![
            Identifier("bar".into()),
            Identifier("baz".into()),
            Identifier("fred".into()),
        ],
    };
    let result: ParseResult<Expression> = CollyParser::parse_expression(":foo.bar.baz.fred");
    assert_eq!(expected, result.unwrap());
}

#[test]
fn tests_test_parse_property_getter() {
    let expected = Expression::PropertyGetter {
        assignee: Box::new(Expression::Variable(Identifier("foo".into()))),
        property_id: vec![Identifier("bar".into())],
    };
    assert_eq!(expected, CollyParser::parse_expression(":foo.bar").unwrap());
}

#[test]
fn test_parse_track() {
    let result: ParseResult<Expression> = CollyParser::parse_expression("$0");
    assert_eq!(Expression::Track(0), result.unwrap());
}

#[test]
fn tests_test_parse_track() {
    assert_eq!(Expression::Track(0), CollyParser::parse_expression("$0").unwrap());
}

#[test]
fn test_parse_pattern_slot() {
    let result: ParseResult<Expression> = CollyParser::parse_expression("$0@1");
    assert_eq!(Expression::PatternSlot(0, 1), result.unwrap());
}

#[test]
fn test_parse_function_expression() {
    let expected = call("foo", Vec::new());
    let result: ParseResult<FunctionCall> = CollyParser::parse_function_call("foo");
    assert_eq!(expected, result.unwrap());

    let expected = call("foo", vec![Expression::Function(call("bar", Vec::new()))]);
    let result: ParseResult<FunctionCall> = CollyParser::parse_function_call("(foo bar)");
    assert_eq!(expected, result.unwrap());

    let expected = call("foo", vec![Expression::Boolean(true)]);
    let result: ParseResult<FunctionCall> = CollyParser::parse_function_call("(foo true)");
    assert_eq!(expected, result.unwrap());

    let expected = call(
        "foo",
        vec![
            number("1"),
            Expression::Function(call("bar", vec![number("2"), Expression::Boolean(false)])),
        ],
    );
    let result: ParseResult<FunctionCall> =
        CollyParser::parse_function_call("(foo 1 (bar 2 false))");
    let result = result.unwrap();
    assert_eq!(expected, result);
    assert_eq!(1.0, number_value(&result.parameters[0]));
}

#[test]
fn tests_test_parse_function_expression() {
    let ast: Ast = "(foo true)".parse().unwrap();
    assert_eq!(
        vec![Statement::SuperExpression(plain(Expression::Function(call(
            "foo",
            vec![Expression::Boolean(true)]
        ))))],
        ast.0
    );
    let ast: Ast = "(foo 1 (bar 2 false))".parse().unwrap();
    assert_eq!(1, ast.0.len());
}

#[test]
fn test_parse_array() {
    let ast: Ast = "[foo, 1, true, \"hello\", [1, 2], $16@19, 1.234]"
        .parse()
        .unwrap();
    let expected = vec![Statement::SuperExpression(plain(Expression::Array(vec![
        plain(Expression::Function(call("foo", Vec::new()))),
        plain(number("1")),
        plain(Expression::Boolean(true)),
        plain(Expression::String("hello".to_string())),
        plain(Expression::Array(vec![plain(number("1")), plain(number("2"))])),
        plain(Expression::PatternSlot(16, 19)),
        plain(number("1.234")),
    ])))];
    assert_eq!(ast.0, expected);
}

#[test]
fn test_parse_pattern_as_expression() {
    let result: ParseResult<Expression> = CollyParser::parse_expression("||");
    let expected = Expression::PatternSuperExpression(PatternSuperExpression::Expression(
        empty_pattern(),
    ));
    assert_eq!(expected, result.unwrap());
}

#[test]
fn test_parse_properties() {
    let source = "{foo: true, bar: \"hello\", baz: 1.0, fred: foo, ringo: [1, false], paul: {foo: 1, bar: false}}";
    let result: ParseResult<Properties> = CollyParser::parse_properties(source);
    let mut map: Vec<(Identifier, PropertyValue)> = Vec::new();
    map.push((
        Identifier("foo".into()),
        PropertyValue::SuperExpression(plain(Expression::Boolean(true))),
    ));
    map.push((
        Identifier("bar".into()),
        PropertyValue::SuperExpression(plain(Expression::String("hello".into()))),
    ));
    map.push((
        Identifier("baz".into()),
        PropertyValue::SuperExpression(plain(number("1.0"))),
    ));
    map.push((
        Identifier("fred".into()),
        PropertyValue::SuperExpression(plain(Expression::Function(call("foo", Vec::new())))),
    ));
    map.push((
        Identifier("ringo".into()),
        PropertyValue::SuperExpression(plain(Expression::Array(vec![
            plain(number("1")),
            plain(Expression::Boolean(false)),
        ]))),
    ));

    let mut inner_properties: Vec<(Identifier, PropertyValue)> = Vec::new();
    inner_properties.push((
        Identifier("foo".into()),
        PropertyValue::SuperExpression(plain(number("1"))),
    ));
    inner_properties.push((
        Identifier("bar".into()),
        PropertyValue::SuperExpression(plain(Expression::Boolean(false))),
    ));
    map.push((
        Identifier("paul".into()),
        PropertyValue::SuperExpression(plain(Expression::Properties(Properties(
            inner_properties,
        )))),
    ));

    assert_eq!(Properties(map), result.unwrap());
}

#[test]
fn tests_test_parse_properties() {
    let result = CollyParser::parse_properties("{foo: true}").unwrap();
    assert_eq!(
        Properties(vec![(
            Identifier("foo".into()),
            PropertyValue::SuperExpression(plain(Expression::Boolean(true)))
        )]),
        result
    );
}

#[test]
fn test_parse_property_value() {
    let result: ParseResult<PropertyValue> = CollyParser::parse_property_value("||");
    let expected = PropertyValue::PatternExpression(empty_pattern());

    assert_eq!(expected, result.unwrap());
}

#[test]
fn test_parse_method_call() {
    let source = ":foo bar (baz 1.0 -2 true)";
    let result: ParseResult<MethodCall> = CollyParser::parse_method_call(source);
    let expected = MethodCall {
        caller: Expression::Variable(Identifier("foo".into())),
        callee: vec![
            call("bar", Vec::new()),
            call("baz", vec![number("1.0"), number("-2"), Expression::Boolean(true)]),
        ],
    };
    let result = result.unwrap();
    assert_eq!(expected, result);
    assert_eq!(-2.0, number_value(&result.callee[1].parameters[1]));
}

#[test]
fn tests_test_parse_method_call() {
    let result = CollyParser::parse_super_expression(":foo bar (baz 1.0 -2 true)").unwrap();
    match result {
        SuperExpression::Method(method) => assert_eq!(2, method.callee.len()),
        other => panic!("not a method call: {:?}", other),
    }
}

#[test]
fn test_parse_variable_assignment() {
    let result: ParseResult<Assignment> = CollyParser::parse_assignment(":foo = 1");
    let expected = Assignment::Variable {
        assignee: Identifier("foo".into()),
        assignment: plain(number("1")),
    };

    assert_eq!(expected, result.unwrap());

    let result: ParseResult<Assignment> = CollyParser::parse_assignment(":foo = bar (baz true)");
    let expected = Assignment::Variable {
        assignee: Identifier("foo".into()),
        assignment: SuperExpression::Method(MethodCall {
            caller: Expression::Function(call("bar", Vec::new())),
            callee: vec![call("baz", vec![Expression::Boolean(true)])],
        }),
    };

    assert_eq!(expected, result.unwrap());
}

#[test]
fn tests_test_parse_variable_assignment() {
    let statement = CollyParser::parse_statement(":foo = 1").unwrap();
    assert_eq!(
        Statement::Assign(Assignment::Variable {
            assignee: Identifier("foo".into()),
            assignment: plain(number("1")),
        }),
        statement
    );
}

#[test]
fn test_parse_properties_assignment() {
    let result: ParseResult<Assignment> = CollyParser::parse_assignment("$11@12 {foo: true}");
    let mut map: Vec<(Identifier, PropertyValue)> = Vec::new();
    map.push((
        Identifier("foo".into()),
        PropertyValue::SuperExpression(plain(Expression::Boolean(true))),
    ));
    let expected = Assignment::Properties {
        assignee: plain(Expression::PatternSlot(11, 12)),
        assignment: Properties(map),
    };

    assert_eq!(expected, result.unwrap());
}

#[test]
fn test_parse_event() {
    let result: ParseResult<Event> = CollyParser::parse_event("[0 1 2]");
    let expected = Event::Chord(Chord {
        inner: vec![
            BeatEvent(vec![group(&[0])]),
            BeatEvent(vec![group(&[1])]),
            BeatEvent(vec![group(&[2])]),
        ],
        methods: Vec::new(),
    });
    assert_eq!(expected, result.unwrap());

    let result: ParseResult<Event> = CollyParser::parse_event("(01 (23 (4) 5)6)");
    let expected = Event::ParenthesisedEvent(ParenthesisedEvent {
        inner: vec![
            // 01
            BeatEvent(vec![group(&[0, 1])]),
            // (23 (4) 5)6
            BeatEvent(vec![
                // (23 (4) 5)
                Event::ParenthesisedEvent(ParenthesisedEvent {
                    inner: vec![
                        // 23
                        BeatEvent(vec![group(&[2, 3])]),
                        // (4)
                        BeatEvent(vec![Event::ParenthesisedEvent(ParenthesisedEvent {
                            inner: vec![BeatEvent(vec![group(&[4])])],
                            methods: Vec::new(),
                        })]),
                        // 5
                        BeatEvent(vec![group(&[5])]),
                    ],
                    methods: Vec::new(),
                }),
                // 6
                group(&[6]),
            ]),
        ],
        methods: Vec::new(),
    });
    assert_eq!(expected, result.unwrap());
}

#[test]
fn tests_test_parse_event() {
    let expected = Event::Chord(Chord {
        inner: vec![
            BeatEvent(vec![group(&[0])]),
            BeatEvent(vec![group(&[1])]),
            BeatEvent(vec![group(&[2])]),
        ],
        methods: Vec::new(),
    });
    assert_eq!(expected, CollyParser::parse_event("[0 1 2]").unwrap());
}

#[test]
fn parse_event_with_method() {
    let result: ParseResult<BeatEvent> = CollyParser::parse_beat_event("[01 2]*.");
    let expected = BeatEvent(vec![Event::Chord(Chord {
        inner: vec![BeatEvent(vec![group(&[0, 1])]), BeatEvent(vec![group(&[2])])],
        methods: vec![EventMethod::Multiply, EventMethod::Dot],
    })]);

    assert_eq!(expected, result.unwrap());

    let result: ParseResult<BeatEvent> = CollyParser::parse_beat_event("(01 2)*.");
    let expected = BeatEvent(vec![Event::ParenthesisedEvent(ParenthesisedEvent {
        inner: vec![BeatEvent(vec![group(&[0, 1])]), BeatEvent(vec![group(&[2])])],
        methods: vec![EventMethod::Multiply, EventMethod::Dot],
    })]);

    assert_eq!(expected, result.unwrap());
}

#[test]
fn parse_atom_with_methods() {
    let result: ParseResult<PatternAtom> = CollyParser::parse_pattern_atom("2*:.");
    let expected = PatternAtom {
        value: PatternAtomValue::Note(Note {
            pitch: 2,
            alteration: Vec::new(),
        }),
        methods: vec![
            EventMethod::Multiply,
            EventMethod::Divide,
            EventMethod::Dot,
        ],
    };

    assert_eq!(expected, result.unwrap());

    // a modulation is no atom of a pattern; it is read by its own rule
    assert!(CollyParser::parse_pattern_atom("F*:.").is_err());
    assert_eq!(Modulation::Up, CollyParser::parse_modulation("F*:.").unwrap());
}

#[test]
fn parse_note_with_alterations() {
    let result: ParseResult<PatternAtom> = CollyParser::parse_pattern_atom("++--+2");
    let expected = PatternAtom {
        value: PatternAtomValue::Note(Note {
            pitch: 2,
            alteration: vec![
                Alteration::Up,
                Alteration::Up,
                Alteration::Down,
                Alteration::Down,
                Alteration::Up,
            ],
        }),
        methods: Vec::new(),
    };

    assert_eq!(expected, result.unwrap());
}

#[test]
fn test_parse_pattern_expression() {
    let result: ParseResult<PatternExpression> = CollyParser::parse_pattern_expression("|| hello");
    let expected = PatternExpression {
        pattern: Pattern(vec![]),
        input: Some(Box::new(Expression::Function(call("hello", Vec::new())))),
        methods: Vec::new(),
        properties: None,
    };

    assert_eq!(expected, result.unwrap());

    let result: ParseResult<PatternExpression> =
        CollyParser::parse_pattern_expression("|| & hello world");
    let expected = PatternExpression {
        pattern: Pattern(vec![]),
        input: None,
        methods: vec![call("hello", Vec::new()), call("world", Vec::new())],
        properties: None,
    };

    assert_eq!(expected, result.unwrap());

    let result: ParseResult<PatternExpression> =
        CollyParser::parse_pattern_expression("|| & {foo: true}");
    let properties = Properties(vec![(
        Identifier("foo".into()),
        PropertyValue::SuperExpression(plain(Expression::Boolean(true))),
    )]);
    let expected = PatternExpression {
        pattern: Pattern(vec![]),
        input: None,
        methods: Vec::new(),
        properties: Some(properties),
    };

    assert_eq!(expected, result.unwrap());

    let result: ParseResult<PatternExpression> =
        CollyParser::parse_pattern_expression("|| hello & world {foo: true}");
    let properties = Properties(vec![(
        Identifier("foo".into()),
        PropertyValue::SuperExpression(plain(Expression::Boolean(true))),
    )]);
    let expected = PatternExpression {
        pattern: Pattern(vec![]),
        input: Some(Box::new(Expression::Function(call("hello", Vec::new())))),
        methods: vec![call("world", Vec::new())],
        properties: Some(properties),
    };

    assert_eq!(expected, result.unwrap());
}

#[test]
fn test_parse_pattern_expression_list() {
    let result: ParseResult<PatternSuperExpression> =
        CollyParser::parse_pattern_super_expression("||, ||, ||");
    let expected = PatternSuperExpression::ExpressionList(vec![
        empty_pattern(),
        empty_pattern(),
        empty_pattern(),
    ]);

    assert_eq!(expected, result.unwrap());
}

#[test]
fn test_parse_pitch() {
    let result: ParseResult<PatternAtom> = CollyParser::parse_pattern_atom("a");
    assert_eq!(note(10), result.unwrap());

    let result: ParseResult<PatternAtom> = CollyParser::parse_pattern_atom("f");
    assert_eq!(note(15), result.unwrap());
}

#[test]
fn tests_test_parse_pitch() {
    assert_eq!(note(10), CollyParser::parse_pattern_atom("a").unwrap());
    assert_eq!(note(15), CollyParser::parse_pattern_atom("f").unwrap());
}

#[test]
fn test_parse_modulation_atom() {
    let result: ParseResult<Modulation> = CollyParser::parse_modulation("{127}");
    match result.unwrap() {
        Modulation::Literal(text) => assert_eq!(127.0, text.parse::<f64>().unwrap()),
        other => panic!("not a literal: {:?}", other),
    }

    let result: ParseResult<Modulation> = CollyParser::parse_modulation("p");
    assert_eq!(Modulation::Down, result.unwrap());

    let result: ParseResult<Modulation> = CollyParser::parse_modulation("F");
    assert_eq!(Modulation::Up, result.unwrap());
}

#[test]
fn tests_test_parse_modulation_atom() {
    assert_eq!(
        Modulation::Literal("127".to_string()),
        CollyParser::parse_modulation("{127}").unwrap()
    );
    assert_eq!(Modulation::Crescendo, CollyParser::parse_modulation("<").unwrap());
    assert_eq!(Modulation::Diminuendo, CollyParser::parse_modulation(">").unwrap());
}

#[test]
fn test_pattern_assignment() {
    let result: ParseResult<Assignment> = CollyParser::parse_assignment("$11@12 ||");
    let expected = Assignment::Pattern {
        assignee: Expression::PatternSlot(11, 12),
        assignment: PatternSuperExpression::Expression(empty_pattern()),
    };
    assert_eq!(expected, result.unwrap());
}

#[should_panic]
#[test]
fn test_parse_event_as_event_method() {
    let result: ParseResult<BeatEvent> = CollyParser::parse_beat_event("*:.");
    result.unwrap();
}

#[test]
fn a_source_is_read_line_by_line() {
    let ast: Ast = ":a = 1\n\n$0@1 | 0 1 | & fast\n  :a.b mute\r\n".parse().unwrap();
    assert_eq!(3, ast.0.len());
    assert!(matches!(ast.0[0], Statement::Assign(Assignment::Variable { .. })));
    assert!(matches!(ast.0[1], Statement::Assign(Assignment::Pattern { .. })));
    assert!(matches!(ast.0[2], Statement::SuperExpression(SuperExpression::Method(_))));
    let empty: Ast = "  \n ".parse().unwrap();
    assert_eq!(Ast(Vec::new()), empty);
}

#[test]
fn reading_is_a_function_of_the_source() {
    let source = "$1@2 | [0 +2 4]* (1 _)r Oa: | :x & (shift 1.5e2) {swing: true}";
    let first: Ast = source.parse().unwrap();
    let second: Ast = source.parse().unwrap();
    assert_eq!(first, second);
}

#[test]
fn faults_are_reported_with_their_position() {
    let fault = |start: usize| -> Result<(), ParseError> {
        Err(ParseError::Parse {
            message: "The source does not follow the grammar.".to_string(),
            start,
            end: start,
        })
    };
    assert_eq!(fault(0), CollyParser::parse_expression("?").map(|_| ()));
    assert_eq!(fault(0), CollyParser::parse_expression("").map(|_| ()));
    assert_eq!(fault(2), CollyParser::parse_expression("[1, ?]").map(|_| ()));
    assert_eq!(fault(6), CollyParser::parse_expression("\"hello").map(|_| ()));
    assert_eq!(fault(4), CollyParser::parse_pattern("| 0 ?").map(|_| ()));
    assert_eq!(fault(5), CollyParser::parse_pattern("| [0 ? ] |").map(|_| ()));
    assert_eq!(fault(2), CollyParser::parse_pattern_atom("+-*").map(|_| ()));
    assert_eq!(fault(1), CollyParser::parse_expression(":1").map(|_| ()));
    assert_eq!(fault(9), CollyParser::parse(":a = 1\nb ?").map(|_| ()));
    assert_eq!(fault(2), CollyParser::parse("a = 1").map(|_| ()));
    assert_eq!(fault(4), CollyParser::parse_assignment(":a b").map(|_| ()));
    assert_eq!(fault(1), CollyParser::parse_properties("{}").map(|_| ()));
    assert_eq!(9, CollyParser::parse(":a = 1\nb ?").unwrap_err().position());
}

#[test]
fn numbers_that_do_not_fit_are_refused() {
    assert_eq!(
        Err(ParseError::NumericLiteral { start: 1, end: 1 }),
        CollyParser::parse_expression("$18446744073709551616")
    );
    assert_eq!(
        Ok(Expression::Track(u64::MAX)),
        CollyParser::parse_expression("$18446744073709551615")
    );
    assert_eq!(
        Err(ParseError::NumericLiteral { start: 3, end: 3 }),
        CollyParser::parse_expression("$1@99999999999999999999")
    );
    assert_eq!(Ok(Expression::Track(7)), CollyParser::parse_expression("$007@"));
}

#[test]
fn a_property_given_twice_keeps_the_later_value() {
    let result = CollyParser::parse_properties("{a: 1, b: 2, a: 3}").unwrap();
    assert_eq!(
        Properties(vec![
            (Identifier("a".into()), PropertyValue::SuperExpression(plain(number("3")))),
            (Identifier("b".into()), PropertyValue::SuperExpression(plain(number("2")))),
        ]),
        result
    );
}

#[test]
fn octaves_ties_and_pauses_are_atoms() {
    let beat = CollyParser::parse_beat_event("O*o_.r:").unwrap();
    let atom = |value: PatternAtomValue, methods: Vec<EventMethod>| PatternAtom { value, methods };
    assert_eq!(
        BeatEvent(vec![Event::Group(vec![
            // methods behind an octave atom are left out
            atom(PatternAtomValue::Octave(Octave::Up), vec![]),
            atom(PatternAtomValue::Octave(Octave::Down), vec![]),
            atom(PatternAtomValue::Tie, vec![EventMethod::Dot]),
            atom(PatternAtomValue::Pause, vec![EventMethod::Divide]),
        ])]),
        beat
    );
}

#[test]
fn words_that_go_on_are_names() {
    assert_eq!(
        Expression::Function(call("truely", Vec::new())),
        CollyParser::parse_expression("truely").unwrap()
    );
    assert_eq!(
        Expression::PropertyGetter {
            assignee: Box::new(Expression::Mixer),
            property_id: vec![Identifier("volume".into())],
        },
        CollyParser::parse_expression("$.volume").unwrap()
    );
    assert_eq!(number("1"), CollyParser::parse_expression("1.x").unwrap());
}

#[test]
fn errors_can_be_made_with_a_message() {
    assert_eq!(
        ParseError::Parse { message: "Cannot get inner.".to_string(), start: 2, end: 5 },
        CollyParser::error("Cannot get inner.", 2, 5)
    );
}

#[test]
fn any_rule_can_be_read_by_its_name() {
    assert_eq!(
        Ok(Tree::Expression(Expression::Boolean(true))),
        CollyParser::parse_source_for_rule("true", Rule::Expression)
    );
    assert_eq!(
        Ok(Tree::PatternAtom(note(10))),
        CollyParser::parse_source_for_rule("a", Rule::PatternAtom)
    );
    assert_eq!(
        Ok(Tree::Pattern(Pattern(vec![BeatEvent(vec![group(&[0, 1])])]))),
        CollyParser::parse_source_for_rule("| 01 |", Rule::Pattern)
    );
    assert_eq!(
        Ok(Tree::File(Ast(vec![Statement::SuperExpression(plain(Expression::Mixer))]))),
        CollyParser::parse_source_for_rule("$", Rule::File)
    );
    assert_eq!(
        Err(ParseError::BadChild { rule: Rule::Tie }),
        CollyParser::parse_source_for_rule("_", Rule::Tie)
    );
}

#[test]
fn properties_of_a_pattern_are_there_or_not() {
    let without = CollyParser::parse_pattern_expression("|| & fast").unwrap();
    assert_eq!(None, without.properties);
    // properties that cannot be read are left where they stand
    let unread = CollyParser::parse_pattern_expression("|| {}").unwrap();
    assert_eq!(None, unread.properties);
    let with = CollyParser::parse_pattern_expression("|| & {a: 1}").unwrap();
    assert_eq!(1, with.properties.unwrap().0.len());
    // properties right behind the pattern are its input
    let input = CollyParser::parse_pattern_expression("|| {a: 1}").unwrap();
    assert_eq!(None, input.properties);
    assert!(matches!(input.input.as_deref(), Some(Expression::Properties(_))));
}
