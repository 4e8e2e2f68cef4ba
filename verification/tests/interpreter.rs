use colly::ast;
use colly::clock::{Cursor, CursorPosition};
use colly::interpreter::{
    interpret_pattern, ArrangedIntermediates, AtomInterpreter, Audible, BeatEventInterpreter,
    Context, EventInterpreter, IntermediateEvent, Interpreter, InterpreterError,
    PatternInnerInterpreter, TieInterpreter,
};
use colly::parser::CollyParser;
use colly::ratio::Ratio;
use colly::types::{Degree, Event, EventState, Octave, Value};

/// The fraction that the number stands for, exactly.
fn ratio(x: f64) -> Ratio {
    let mut value = x;
    let mut den: u64 = 1;
    while value.fract() != 0.0 {
        value *= 2.0;
        den *= 2;
    }
    Ratio::new(value as u64, den).unwrap()
}

fn event(value: Audible, duration: f64, beat_position: f64, beat: u64) -> IntermediateEvent {
    IntermediateEvent {
        value,
        octave: None,
        duration: ratio(duration),
        beat_position: ratio(beat_position),
        beat,
    }
}

fn degree(value: u64, duration: f64, beat_position: f64, beat: u64) -> IntermediateEvent {
    event(Audible::Degree(Degree::from(value)), duration, beat_position, beat)
}

fn event_interpreter(source: &str) -> EventInterpreter {
    EventInterpreter {
        event: CollyParser::parse_event(source).unwrap(),
        beat: 0,
        octave: Default::default(),
        beat_position: Default::default(),
    }
}

fn inner_interpreter(source: &str) -> PatternInnerInterpreter {
    let pattern: ast::Pattern = CollyParser::parse_pattern(source).unwrap();
    PatternInnerInterpreter::new(pattern.0)
}

#[test]
fn interpret_event_group_methods() {
    let mut context = Context::default();
    let event_interpreter = event_interpreter("a*._:");

    assert_eq!(
        vec![
            ArrangedIntermediates::from(IntermediateEvent {
                value: Audible::Degree(Degree::from(10)),
                duration: ratio(3.0),
                octave: None,
                beat_position: Default::default(),
                beat: 0,
            }),
            ArrangedIntermediates::from(IntermediateEvent {
                value: Audible::Tie,
                duration: ratio(0.5),
                octave: None,
                beat_position: ratio(3.0),
                beat: 0,
            })
        ],
        event_interpreter.interpret(&mut context).unwrap()
    );
}

#[test]
fn interpret_event_group_alterations() {
    let mut context = Context::default();
    let event_interpreter = event_interpreter("++a-+--b");

    assert_eq!(
        vec![
            ArrangedIntermediates::from(IntermediateEvent {
                value: Audible::Degree(Degree {
                    value: 10,
                    alteration: 2,
                }),
                duration: ratio(1.0),
                octave: None,
                beat_position: ratio(0.0),
                beat: 0,
            }),
            ArrangedIntermediates::from(IntermediateEvent {
                value: Audible::Degree(Degree {
                    value: 11,
                    alteration: -2,
                }),
                duration: ratio(1.0),
                octave: None,
                beat_position: ratio(1.0),
                beat: 0,
            })
        ],
        event_interpreter.interpret(&mut context).unwrap()
    );
}

#[test]
fn interpret_event_group_octaves() {
    let mut context = Context::default();
    let event_interpreter = event_interpreter("OOaooob");

    assert_eq!(
        vec![
            ArrangedIntermediates::from(IntermediateEvent {
                value: Audible::Degree(Degree::from(10)),
                duration: ratio(1.0),
                octave: Some(Octave::with_octave(7)),
                beat_position: ratio(0.0),
                beat: 0,
            }),
            ArrangedIntermediates::from(IntermediateEvent {
                value: Audible::Degree(Degree::from(11)),
                duration: ratio(1.0),
                octave: Some(Octave::with_octave(4)),
                beat_position: ratio(1.0),
                beat: 0,
            })
        ],
        event_interpreter.interpret(&mut context).unwrap()
    );
}

#[test]
fn interpret_parenthesised_group_single() {
    let mut context = Context::default();
    let event_interpreter = event_interpreter("(0)");

    assert_eq!(
        vec![ArrangedIntermediates::from(degree(0, 1.0, 0.0, 0))],
        event_interpreter.interpret(&mut context).unwrap()
    );
}

#[test]
fn interpret_parenthesised_group_simple() {
    let mut context = Context::default();
    let event_interpreter = event_interpreter("(00)");

    assert_eq!(
        vec![
            ArrangedIntermediates::from(degree(0, 0.5, 0.0, 0)),
            ArrangedIntermediates::from(degree(0, 0.5, 0.5, 0)),
        ],
        event_interpreter.interpret(&mut context).unwrap()
    );
}

#[test]
fn interpret_parenthesised_group() {
    let mut context = Context::default();
    let event_interpreter = event_interpreter("(ab 0)");

    assert_eq!(
        vec![
            ArrangedIntermediates::from(degree(10, 0.25, 0.0, 0)),
            ArrangedIntermediates::from(degree(11, 0.25, 0.25, 0)),
            ArrangedIntermediates::from(degree(0, 0.5, 0.5, 0)),
        ],
        event_interpreter.interpret(&mut context).unwrap()
    );
}

#[test]
fn interpret_parenthesised_group_recursive() {
    let mut context = Context::default();
    let event_interpreter = event_interpreter("(0(00)00 12)");

    assert_eq!(
        vec![
            ArrangedIntermediates::from(degree(0, 0.125, 0.0, 0)),
            ArrangedIntermediates::from(degree(0, 0.0625, 0.125, 0)),
            ArrangedIntermediates::from(degree(0, 0.0625, 0.1875, 0)),
            ArrangedIntermediates::from(degree(0, 0.125, 0.25, 0)),
            ArrangedIntermediates::from(degree(0, 0.125, 0.375, 0)),
            ArrangedIntermediates::from(degree(1, 0.25, 0.5, 0)),
            ArrangedIntermediates::from(degree(2, 0.25, 0.75, 0)),
        ],
        event_interpreter.interpret(&mut context).unwrap()
    );
}

#[test]
fn interpret_chord_simple() {
    let mut context = Context::default();
    let event_interpreter = event_interpreter("[01 2 4567]");

    assert_eq!(
        vec![ArrangedIntermediates {
            values: vec![
                degree(0, 0.5, 0.0, 0),
                degree(1, 0.5, 0.5, 0),
                degree(2, 1.0, 0.0, 0),
                degree(4, 0.25, 0.0, 0),
                degree(5, 0.25, 0.25, 0),
                degree(6, 0.25, 0.5, 0),
                degree(7, 0.25, 0.75, 0),
            ],
            duration: ratio(1.0),
            beat: 0,
            beat_position: ratio(0.0),
        }],
        event_interpreter.interpret(&mut context).unwrap()
    );
}

#[test]
fn interpret_chord_with_parenthesised() {
    let mut context = Context::default();
    let event_interpreter = event_interpreter("[01 3 (56 7)]");

    assert_eq!(
        vec![ArrangedIntermediates {
            values: vec![
                degree(0, 0.5, 0.0, 0),
                degree(1, 0.5, 0.5, 0),
                degree(3, 1.0, 0.0, 0),
                degree(5, 0.25, 0.0, 0),
                degree(6, 0.25, 0.25, 0),
                degree(7, 0.5, 0.5, 0),
            ],
            beat: 0,
            beat_position: ratio(0.0),
            duration: ratio(1.0),
        }],
        event_interpreter.interpret(&mut context).unwrap()
    );
}

#[test]
fn interpret_pattern_inner_simple() {
    let mut context = Context::default();
    let inner_interpreter = inner_interpreter("| 01 2 |");
    let result = inner_interpreter.interpret(&mut context).unwrap();
    let expected = vec![
        degree(0, 0.5, 0.0, 0),
        degree(1, 0.5, 0.5, 0),
        degree(2, 1.0, 0.0, 1),
    ];

    assert_eq!(expected, result);
}

#[test]
fn interpret_pattern_inner_methods() {
    let mut context = Context::default();
    let inner_interpreter = inner_interpreter("| 0:1. 2* |");
    let result = inner_interpreter.interpret(&mut context).unwrap();
    let expected = vec![
        degree(0, 0.25, 0.0, 0),
        degree(1, 0.75, 0.25, 0),
        degree(2, 1.0, 0.0, 1),
    ];

    assert_eq!(expected, result);
}

#[test]
fn interpret_pattern_inner_parenthesised() {
    let mut context = Context::default();
    let inner_interpreter = inner_interpreter("| 0(11 1)00 |");
    let result = inner_interpreter.interpret(&mut context).unwrap();
    let expected = vec![
        degree(0, 0.25, 0.0, 0),
        degree(1, 0.0625, 0.25, 0),
        degree(1, 0.0625, 0.3125, 0),
        degree(1, 0.125, 0.375, 0),
        degree(0, 0.25, 0.5, 0),
        degree(0, 0.25, 0.75, 0),
    ];

    assert_eq!(expected, result);
}

#[test]
fn interpret_pattern_inner_ties() {
    let mut context = Context::default();
    let inner_interpreter = inner_interpreter("| 0_0_ _ 0 |");
    let result = inner_interpreter.interpret(&mut context).unwrap();
    let expected = vec![
        degree(0, 0.5, 0.0, 0),
        degree(0, 1.5, 0.5, 0),
        degree(0, 1.0, 0.0, 2),
    ];

    assert_eq!(expected, result);
}

#[test]
fn pattern_inner_chord_within_group() {
    let mut context = Context::default();
    let inner_interpreter = inner_interpreter("| 0[0 2 45]12 |");

    assert_eq!(
        vec![
            degree(0, 0.25, 0.0, 0),
            degree(0, 0.25, 0.25, 0),
            degree(2, 0.25, 0.25, 0),
            degree(4, 0.125, 0.25, 0),
            degree(5, 0.125, 0.375, 0),
            degree(1, 0.25, 0.5, 0),
            degree(2, 0.25, 0.75, 0),
        ],
        inner_interpreter.interpret(&mut context).unwrap()
    );
}

#[test]
fn pattern_inner_chord_multitie_chords() {
    let mut context = Context::default();
    let inner_interpreter = inner_interpreter("| [ 0 2 4 ] [ _ r ] [ _ _ r ] 1 |");

    assert_eq!(
        vec![
            degree(0, 3.0, 0.0, 0),
            degree(2, 1.0, 0.0, 0),
            degree(4, 2.0, 0.0, 0),
            event(Audible::Pause, 2.0, 0.0, 1),
            event(Audible::Pause, 1.0, 0.0, 2),
            degree(1, 1.0, 0.0, 3),
        ],
        inner_interpreter.interpret(&mut context).unwrap()
    );
}

#[should_panic]
#[test]
fn pattern_inner_lonely_tie_in_chord() {
    let mut context = Context::default();
    let inner_interpreter = inner_interpreter("| [ 0 2 ] [ _ r _ ] |");
    inner_interpreter.interpret(&mut context).unwrap();
}

#[test]
fn lonely_ties_are_reported_with_their_beat() {
    let mut context = Context::default();
    assert_eq!(
        Err(InterpreterError::LonelyTie(1)),
        inner_interpreter("| [ 0 2 ] [ _ r _ ] |").interpret(&mut context)
    );
    assert_eq!(
        Err(InterpreterError::LonelyTie(0)),
        inner_interpreter("| _ 0 |").interpret(&mut context)
    );
    assert_eq!(
        Err(InterpreterError::LonelyTie(0)),
        inner_interpreter("| _ _ |").interpret(&mut context)
    );
    assert_eq!(
        Err(InterpreterError::LonelyTie(0)),
        inner_interpreter("| [ _ ] |").interpret(&mut context)
    );
    assert_eq!(
        Err(InterpreterError::LonelyTie(0)),
        inner_interpreter("| ( _ ) |").interpret(&mut context)
    );
    assert_eq!(
        Err(InterpreterError::LonelyTie(1)),
        inner_interpreter("| [ 0 2 ] [ _ _ _ ] |").interpret(&mut context)
    );
}

#[test]
fn a_tie_behind_a_chord_prolongs_every_voice() {
    let mut context = Context::default();
    assert_eq!(
        vec![degree(0, 2.0, 0.0, 0), degree(2, 2.0, 0.0, 0)],
        inner_interpreter("| [ 0 2 ] _ |").interpret(&mut context).unwrap()
    );
    assert_eq!(
        vec![degree(0, 2.0, 0.0, 0), degree(2, 2.0, 0.0, 0), degree(4, 1.0, 0.0, 1)],
        inner_interpreter("| [ 0 2 ] [ _ _ 4 ] |").interpret(&mut context).unwrap()
    );
}

#[test]
fn a_chord_without_voices_behind_an_event_is_refused() {
    let mut context = Context::default();
    assert_eq!(
        Err(InterpreterError::Rule(
            "chord".to_string(),
            "no voice to align with the voices before".to_string()
        )),
        inner_interpreter("| 0 [o] |").interpret(&mut context)
    );
    assert_eq!(
        Vec::<IntermediateEvent>::new(),
        inner_interpreter("| [o] |").interpret(&mut context).unwrap()
    );
}

#[test]
fn inlets_and_interpolations_are_refused() {
    let mut interpreter = AtomInterpreter::new(Octave::default(), 0, Ratio::zero());
    let inlet = ast::PatternAtom {
        value: ast::PatternAtomValue::PatternInlet(ast::Expression::Mixer),
        methods: vec![],
    };
    let expected = Err(InterpreterError::Rule(
        "pattern atom".to_string(),
        "inlets and interpolations cannot be lowered".to_string(),
    ));
    assert_eq!(expected, interpreter.interpret(&inlet));
    let interpolation =
        ast::PatternAtom { value: ast::PatternAtomValue::Interpolation, methods: vec![] };
    assert_eq!(expected, interpreter.interpret(&interpolation));
}

#[test]
fn durations_out_of_range_are_refused() {
    let mut context = Context::default();
    let source = format!("| 0{} |", "*".repeat(70));
    assert_eq!(
        Err(InterpreterError::Rule("duration".to_string(), "out of range".to_string())),
        inner_interpreter(&source).interpret(&mut context)
    );
}

#[test]
fn methods_change_the_duration() {
    assert_eq!(
        Some(ratio(3.0)),
        AtomInterpreter::interpret_methods(
            Ratio::one(),
            &vec![ast::EventMethod::Multiply, ast::EventMethod::Dot]
        )
    );
    assert_eq!(
        Some(ratio(0.5)),
        AtomInterpreter::interpret_methods(Ratio::one(), &vec![ast::EventMethod::Divide])
    );
    assert_eq!(
        Some(-1),
        AtomInterpreter::interpret_alteration(&vec![
            ast::Alteration::Down,
            ast::Alteration::Up,
            ast::Alteration::Down
        ])
    );
}

#[test]
fn every_beat_lasts_one_beat() {
    let mut context = Context::default();
    for source in ["01 2", "0*1:2.", "0(11 1)00", "0[0 2 45]12", "(0(00)00 12)r", "a*._:"] {
        let beat = CollyParser::parse_beat_event(source).unwrap();
        let slots = BeatEventInterpreter {
            event: beat,
            beat: 0,
            octave: Octave::default(),
            divisor_multiplier: 1,
        }
        .interpret(&mut context)
        .unwrap();
        let mut sum = Ratio::zero();
        for slot in slots.iter() {
            sum = sum.checked_add(&slot.duration).unwrap();
        }
        assert_eq!(Ratio::one(), sum, "{}", source);
    }
}

#[test]
fn a_beat_of_a_group_of_three_is_a_third_each() {
    let mut context = Context::default();
    let result = inner_interpreter("| 012 |").interpret(&mut context).unwrap();
    let third = Ratio::new(1, 3).unwrap();
    assert_eq!(3, result.len());
    assert_eq!(third, result[0].duration);
    assert_eq!(Ratio::new(2, 3).unwrap(), result[2].beat_position);
}

#[test]
fn ties_add_up_voice_by_voice() {
    let tie = |duration: f64, beat: u64| event(Audible::Tie, duration, 0.0, beat);
    let slots = vec![
        ArrangedIntermediates {
            values: vec![degree(0, 1.0, 0.0, 0), degree(2, 0.5, 0.0, 0)],
            duration: ratio(1.0),
            beat: 0,
            beat_position: ratio(0.0),
        },
        ArrangedIntermediates {
            values: vec![tie(1.0, 1), tie(0.25, 1)],
            duration: ratio(1.0),
            beat: 1,
            beat_position: ratio(0.0),
        },
        ArrangedIntermediates {
            values: vec![tie(2.0, 2), tie(0.125, 2)],
            duration: ratio(1.0),
            beat: 2,
            beat_position: ratio(0.0),
        },
    ];
    let mut context = Context::default();
    assert_eq!(
        vec![degree(0, 4.0, 0.0, 0), degree(2, 0.875, 0.0, 0)],
        TieInterpreter::new(slots).interpret(&mut context).unwrap()
    );
}

#[test]
fn the_octave_register_follows_the_octave_atoms() {
    let notes = |source: &str| match CollyParser::parse_event(source).unwrap() {
        ast::Event::Group(atoms) => atoms,
        _ => panic!("a group was expected"),
    };
    let start = Octave::default();
    let (_, after, _) =
        colly::interpreter::lower_group(&notes("OOa"), 0, start, Ratio::zero()).unwrap();
    assert_eq!(start.get_octave_number() + 2, after.get_octave_number());
    let (_, after, _) =
        colly::interpreter::lower_group(&notes("Ooa"), 0, start, Ratio::zero()).unwrap();
    assert_eq!(start.get_octave_number(), after.get_octave_number());
}

#[test]
fn the_octave_register_threads_through_nested_events() {
    let event = CollyParser::parse_event("(O0 [o1 oo2])").unwrap();
    let (_, after, _) =
        colly::interpreter::lower_event(&event, 0, Octave::default(), Ratio::zero()).unwrap();
    assert_eq!(3, after.get_octave_number());
}

#[test]
fn a_pattern_is_scheduled_in_ticks() {
    let pattern = CollyParser::parse_pattern("| 01 2 |").unwrap();
    let mut scheduled = interpret_pattern(&pattern, &Cursor::new(4)).unwrap();
    let at = |beat: u64, tick: u64| CursorPosition { beat, tick, resolution: 4 };
    let on = |pitch: u64, beat: u64, tick: u64| {
        Event::new(Value::Pitch(pitch), at(beat, tick), EventState::On)
    };
    let off = |pitch: u64, beat: u64, tick: u64| {
        Event::new(Value::Pitch(pitch), at(beat, tick), EventState::Off)
    };
    let expected: Vec<Vec<Event<Value>>> = vec![
        vec![on(60, 0, 0)],
        vec![off(60, 0, 1)],
        vec![on(61, 0, 2)],
        vec![off(61, 0, 3)],
        vec![on(62, 1, 0)],
        vec![],
        vec![],
        vec![off(62, 1, 3)],
    ];
    for step in expected {
        assert_eq!(Some(step), scheduled.next());
    }
    assert_eq!(None, scheduled.next());
}

#[test]
fn a_pattern_is_anchored_at_the_cursor() {
    let pattern = CollyParser::parse_pattern("| r 3 |").unwrap();
    let mut cursor = Cursor::new(2);
    cursor.position = CursorPosition { beat: 1, tick: 1, resolution: 2 };
    let mut scheduled = interpret_pattern(&pattern, &cursor).unwrap();
    assert_eq!(cursor.position, scheduled.start_position());
    let mut seen = Vec::new();
    while let Some(events) = scheduled.next() {
        for event in events {
            seen.push((event.position.beat, event.position.tick, event.state));
        }
    }
    // the degree stands in beat one of the pattern, one beat and one tick behind the anchor
    assert_eq!(vec![(2, 1, EventState::On), (3, 0, EventState::Off)], seen);
}

#[test]
fn a_pattern_with_a_lonely_tie_is_not_scheduled() {
    let pattern = CollyParser::parse_pattern("| [ 0 2 ] [ _ r _ ] |").unwrap();
    assert_eq!(
        Err(InterpreterError::LonelyTie(1)),
        interpret_pattern(&pattern, &Cursor::new(4)).map(|_| ())
    );
    let mut context = Context::default();
    assert!(CollyParser::parse_pattern("| 0 1 |").unwrap().interpret(&mut context).is_ok());
    let pattern = CollyParser::parse_pattern("| 0 |").unwrap();
    assert_eq!(
        Err(InterpreterError::Rule("duration".to_string(), "out of range".to_string())),
        interpret_pattern(&pattern, &Cursor::new(0)).map(|_| ())
    );
}

#[test]
fn the_beats_of_a_pattern_take_one_beat_each() {
    let interpreter = inner_interpreter("| 01 2 |");
    assert_eq!(1, interpreter.divisor_multiplier);
    assert!(interpreter.interpret_ties);
    assert_eq!(Octave::with_octave(5), interpreter.octave);
    assert_eq!(2, interpreter.inner.len());
}

#[test]
fn the_slots_of_a_beat_follow_each_other_within_the_beat() {
    let mut context = Context::default();
    for source in ["01 2", "0*1:2.", "0(11 1)00", "0[0 2 45]12", "(0(00)00 12)r", "a*._:"] {
        let beat = CollyParser::parse_beat_event(source).unwrap();
        let slots = BeatEventInterpreter {
            event: beat,
            beat: 0,
            octave: Octave::default(),
            divisor_multiplier: 1,
        }
        .interpret(&mut context)
        .unwrap();
        let mut sum = Ratio::zero();
        for slot in slots.iter() {
            assert_eq!(sum, slot.beat_position, "{}", source);
            assert!(slot.beat_position.is_less_than(&Ratio::one()), "{}", source);
            assert!(!slot.duration.is_zero(), "{}", source);
            sum = sum.checked_add(&slot.duration).unwrap();
        }
        assert_eq!(Ratio::zero(), slots[0].beat_position, "{}", source);
    }
}

#[test]
fn a_beat_that_is_to_take_no_time_is_refused() {
    let mut context = Context::default();
    let beat = CollyParser::parse_beat_event("01").unwrap();
    let result = BeatEventInterpreter {
        event: beat,
        beat: 0,
        octave: Octave::default(),
        divisor_multiplier: 0,
    }
    .interpret(&mut context);
    assert_eq!(
        Err(InterpreterError::Rule("duration".to_string(), "out of range".to_string())),
        result
    );
}

#[test]
fn the_event_interpreter_carries_the_register_and_the_offset() {
    let atoms = |source: &str| match CollyParser::parse_event(source).unwrap() {
        ast::Event::Group(atoms) => atoms,
        _ => panic!("a group was expected"),
    };
    let mut interpreter = event_interpreter("0");
    let out = interpreter.interpret_group(&atoms("OOa")).unwrap();
    assert_eq!(1, out.len());
    assert_eq!(Octave::with_octave(7), interpreter.octave);
    assert_eq!(Some(Octave::with_octave(7)), out[0].values[0].octave);
    assert_eq!(Ratio::one(), interpreter.beat_position);

    let mut interpreter = event_interpreter("0");
    let out = interpreter.interpret_group(&atoms("Ooa")).unwrap();
    assert_eq!(1, out.len());
    assert_eq!(Octave::with_octave(5), interpreter.octave);
    assert_eq!(Some(Octave::with_octave(5)), out[0].values[0].octave);

    let mut interpreter = event_interpreter("0");
    match CollyParser::parse_event("[O0 2]*").unwrap() {
        ast::Event::Chord(chord) => {
            let out = interpreter.interpret_chord(&chord).unwrap();
            assert_eq!(1, out.len());
            assert_eq!(2, out[0].values.len());
            assert_eq!(ratio(2.0), out[0].duration);
            assert_eq!(ratio(2.0), interpreter.beat_position);
            assert_eq!(Octave::with_octave(6), interpreter.octave);
        }
        _ => panic!("a chord was expected"),
    }
    match CollyParser::parse_event("(0o 1)").unwrap() {
        ast::Event::ParenthesisedEvent(event) => {
            let out = interpreter.interpret_parenthesised(&event).unwrap();
            assert_eq!(2, out.len());
            assert_eq!(ratio(2.0), out[0].beat_position);
            assert_eq!(ratio(3.0), interpreter.beat_position);
            assert_eq!(Octave::with_octave(5), interpreter.octave);
            let inner = interpreter.interpret_inner(2, &event.inner).unwrap();
            assert_eq!(2, inner.len());
            assert_eq!(ratio(0.5), inner[0].duration);
            assert_eq!(Octave::with_octave(4), interpreter.octave);
        }
        _ => panic!("a parenthesised event was expected"),
    }
}

#[test]
fn ties_in_some_voices_prolong_those_voices() {
    let tie = |duration: f64| event(Audible::Tie, duration, 0.0, 1);
    let slots = vec![
        ArrangedIntermediates {
            values: vec![degree(0, 1.0, 0.0, 0), degree(2, 1.0, 0.0, 0), degree(4, 1.0, 0.0, 0)],
            duration: ratio(1.0),
            beat: 0,
            beat_position: ratio(0.0),
        },
        ArrangedIntermediates {
            values: vec![tie(0.5), degree(7, 1.0, 0.0, 1), tie(2.0)],
            duration: ratio(1.0),
            beat: 1,
            beat_position: ratio(0.0),
        },
    ];
    let mut context = Context::default();
    assert_eq!(
        vec![
            degree(0, 1.5, 0.0, 0),
            degree(2, 1.0, 0.0, 0),
            degree(4, 3.0, 0.0, 0),
            degree(7, 1.0, 0.0, 1),
        ],
        TieInterpreter::new(slots).interpret(&mut context).unwrap()
    );
}

#[test]
fn a_tied_event_stays_as_it_is_once_another_follows() {
    let mut context = Context::default();
    let result = inner_interpreter("| 0 _ _ 1 _ [2 3] _ |").interpret(&mut context).unwrap();
    assert_eq!(degree(0, 3.0, 0.0, 0), result[0]);
    assert_eq!(degree(1, 2.0, 0.0, 3), result[1]);
}
