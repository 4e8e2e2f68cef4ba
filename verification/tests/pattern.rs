use colly::clock::{Cursor, CursorPosition};
use colly::types::{
    Degree, Event, EventState, EventStream, Modulation, Octave, Pattern, Root, Scale, Value,
};

/// An `On` event of the value at the beat and tick, counted at two ticks to
/// the beat.
fn on(value: u64, beat: u64, tick: u64) -> Event<u64> {
    (value, CursorPosition::from((beat, tick, 2))).into()
}

fn at(beat: u64, tick: u64, resolution: u64) -> CursorPosition {
    (beat, tick, resolution).into()
}

#[test]
fn event_stream() {
    let mut stream = EventStream::new(
        vec![
            on(27, 2, 1),
            on(12, 0, 0),
            on(21, 1, 0),
            on(15, 0, 0),
            on(17, 1, 0),
        ],
        2,
    );

    let mut expected: Vec<Vec<Event<u64>>> = vec![
        vec![on(12, 0, 0), on(15u64, 0, 0)],
        vec![],
        vec![on(21, 1, 0), on(17u64, 1, 0)],
        vec![],
        vec![],
        vec![on(27, 2, 1)],
    ];

    for _ in 0..expected.len() {
        assert_eq!(Some(expected.remove(0)), stream.next());
    }

    for _ in 0..expected.len() + 3 {
        assert_eq!(None, stream.next());
    }
}

#[test]
fn event_stream_fill_gaps() {
    let mut stream = EventStream::new(
        vec![
            on(27, 2, 1),
            on(12, 0, 0),
            on(21, 1, 0),
            on(15, 0, 0),
            on(17, 1, 0),
        ],
        2,
    );

    stream.set_fill_gaps(true);

    let mut expected: Vec<Vec<Event<u64>>> = vec![
        vec![on(12, 0, 0), on(15, 0, 0)],
        vec![on(12, 0, 1), on(15, 0, 1)],
        vec![on(21, 1, 0), on(17, 1, 0)],
        vec![on(21, 1, 1), on(17, 1, 1)],
        vec![on(21, 2, 0), on(17, 2, 0)],
        vec![on(27, 2, 1)],
    ];

    for _ in 0..expected.len() {
        assert_eq!(Some(expected.remove(0)), stream.next());
    }

    for _ in 0..expected.len() + 3 {
        assert_eq!(None, stream.next());
    }
}

#[test]
fn stream_loop() {
    let mut stream = EventStream::new(vec![on(27, 2, 1), on(21, 1, 0), on(15, 0, 0)], 2);
    stream.set_loop(true);

    let expected: Vec<Vec<Event<u64>>> = vec![
        vec![on(15, 0, 0)],
        vec![],
        vec![on(21, 1, 0)],
        vec![],
        vec![],
        vec![on(27, 2, 1)],
    ];

    for n in 0..expected.len() * 3 {
        let step: Vec<Event<u64>> =
            expected[n % expected.len()].iter().map(|e| e.clone()).collect();
        assert_eq!(Some(step), stream.next());
    }
}

#[test]
fn stream_loop_enabled_afterwards() {
    let mut stream = EventStream::new(vec![on(0, 0, 0)], 2);
    stream.next();
    stream.set_loop(true);

    for _ in 0..5 {
        assert_eq!(Some(vec![on(0, 0, 0)]), stream.next());
    }
}

#[test]
fn octave() {
    let mut octave = Octave::with_octave(5);
    assert_eq!(60, octave.get_pitch());
    assert_eq!(5, octave.get_octave_number());

    octave.set_as_octave(3);
    assert_eq!(36, octave.get_pitch());
    assert_eq!(3, octave.get_octave_number());

    octave.set_as_pitch(75);
    assert_eq!(72, octave.get_pitch());
    assert_eq!(6, octave.get_octave_number());
}

#[test]
fn degree_as_pitch() {
    let scale = Scale::default();
    let degree = Degree::default();
    assert_eq!(0, degree.as_pitch_at_scale(&scale));

    let degree = Degree::from(13);
    assert_eq!(13, degree.as_pitch_at_scale(&scale));

    let mut degree = Degree::from(0);
    degree.alteration = -4;
    assert_eq!(-4, degree.as_pitch_at_scale(&scale));
}

#[test]
fn init_pitch_value() {
    let mut degree = Degree::default();
    let mut root = Root::default();
    let mut octave = Octave::default();
    let scale = Scale::default();
    let value = Value::new_pitch(&degree, &root, &octave, &scale);

    assert_eq!(Value::Pitch(60), value);

    octave.set_as_octave(0);
    root.0 = 0;
    degree.alteration = -5;
    let value = Value::new_pitch(&degree, &root, &octave, &scale);
    assert_eq!(Value::Pitch(0), value);

    octave.set_as_octave(4);
    root.0 = 2;
    degree.value = 3;
    degree.alteration = 1;
    let value = Value::new_pitch(&degree, &root, &octave, &scale);
    assert_eq!(Value::Pitch(54), value);
}

#[test]
fn pattern_schedule_event() {
    let mut pattern = Pattern::new(Cursor::new(3));
    pattern.schedule_degree(1.into(), at(0, 1, 3), at(0, 1, 3));

    assert_eq!(Vec::<Event<Value>>::new(), pattern.next().unwrap());

    assert_eq!(
        vec![
            Event {
                value: Value::Pitch(61),
                position: at(0, 1, 3),
                state: EventState::On,
            },
            Event {
                value: Value::Pitch(61),
                position: at(0, 1, 3),
                state: EventState::Off,
            },
        ],
        pattern.next().unwrap()
    );

    assert_eq!(Vec::<Event<Value>>::new(), pattern.next().unwrap());

    assert_eq!(None, pattern.next());
}

#[test]
fn pattern_next_polyrithmic() {
    let mut cursor = Cursor::new(6);
    cursor.position = at(2, 1, 6);
    let mut pattern = Pattern::new(cursor);
    pattern.schedule_degree(0.into(), at(0, 0, 6), at(0, 2, 6));

    pattern.schedule_degree(1.into(), at(1, 0, 6), at(0, 4, 6));

    pattern.schedule_modulation(Modulation::new("v", 0.1f64.to_bits()), at(0, 0, 6), at(0, 3, 6));
    pattern.schedule_modulation(Modulation::new("v", 0.2f64.to_bits()), at(1, 0, 6), at(0, 3, 6));
    pattern.schedule_modulation(Modulation::new("v", 0.3f64.to_bits()), at(2, 0, 6), at(0, 3, 6));
    pattern.schedule_modulation(Modulation::new("v", 0.4f64.to_bits()), at(3, 0, 6), at(0, 3, 6));

    let modulation = |amount: f64| Value::Modulation("v".to_string(), amount.to_bits());

    let mut expected: Vec<Vec<Event<Value>>> = vec![
        vec![
            Event::new(modulation(0.1), at(0, 0, 6), EventState::On),
            Event::new(Value::Pitch(60), at(0, 0, 6), EventState::On),
        ],
        vec![Event::new(Value::Pitch(60), at(0, 1, 6), EventState::Off)],
        vec![Event::new(modulation(0.1), at(0, 2, 6), EventState::Off)],
        vec![],
        vec![],
        vec![],
        vec![
            Event::new(modulation(0.2), at(1, 0, 6), EventState::On),
            Event::new(Value::Pitch(61), at(1, 0, 6), EventState::On),
        ],
        vec![],
        vec![Event::new(modulation(0.2), at(1, 2, 6), EventState::Off)],
        vec![Event::new(Value::Pitch(61), at(1, 3, 6), EventState::Off)],
        vec![],
        vec![],
        vec![
            Event::new(modulation(0.3), at(2, 0, 6), EventState::On),
            Event::new(Value::Pitch(60), at(2, 0, 6), EventState::On),
        ],
        vec![Event::new(Value::Pitch(60), at(2, 1, 6), EventState::Off)],
        vec![Event::new(modulation(0.3), at(2, 2, 6), EventState::Off)],
        vec![],
        vec![],
        vec![],
        vec![
            Event::new(modulation(0.4), at(3, 0, 6), EventState::On),
            Event::new(Value::Pitch(61), at(3, 0, 6), EventState::On),
        ],
        vec![],
        vec![Event::new(modulation(0.4), at(3, 2, 6), EventState::Off)],
        vec![Event::new(Value::Pitch(61), at(3, 3, 6), EventState::Off)],
        vec![],
        vec![],
    ];

    for _ in 0..expected.len() {
        assert_eq!(expected.remove(0), pattern.next().unwrap());
    }

    for _ in 0..3 {
        assert_eq!(None, pattern.next());
    }
}

#[test]
fn stream_keeps_the_order_of_events_at_one_position() {
    let mut stream: EventStream<u64> = EventStream::new(vec![], 4);
    assert_eq!(None, stream.last_position());
    stream.add_event(on(1, 1, 0));
    stream.add_event(on(2, 0, 3));
    stream.add_event(on(3, 1, 0));
    stream.add_event(on(4, 0, 3));
    assert_eq!(Some(at(0, 3, 2)), stream.last_position());
    let mut seen: Vec<u64> = Vec::new();
    let mut positions: Vec<CursorPosition> = Vec::new();
    for _ in 0..5 {
        let reading = stream.position();
        for event in stream.next().unwrap() {
            assert!(event.position.is_at(&reading));
            seen.push(event.value);
            positions.push(event.position);
        }
    }
    assert_eq!(vec![2, 4, 1, 3], seen);
    for pair in positions.windows(2) {
        assert!(!pair[1].is_before(&pair[0]));
    }
    assert_eq!(None, stream.next());
}

#[test]
fn stream_reset_starts_again() {
    let mut stream = EventStream::new(vec![on(7, 0, 0), on(8, 0, 1)], 2);
    assert!(!stream.is_loop());
    assert!(!stream.fill_gaps());
    assert_eq!(Some(vec![on(7, 0, 0)]), stream.next());
    stream.reset();
    assert_eq!(at(0, 0, 2), stream.position());
    assert_eq!(Some(vec![on(7, 0, 0)]), stream.next());
    assert_eq!(Some(vec![on(8, 0, 1)]), stream.next());
    assert_eq!(None, stream.next());
}

#[test]
fn gap_value_is_the_default_before_the_first_event() {
    let mut stream = EventStream::new(vec![on(5, 0, 1)], 2);
    stream.set_fill_gaps(true);
    let first = stream.next().unwrap();
    assert_eq!(1, first.len());
    assert_eq!(0, first[0].value);
    assert_eq!(at(0, 0, 2), first[0].position);
    assert_eq!(EventState::On, first[0].state);
    assert_eq!(Some(vec![on(5, 0, 1)]), stream.next());
}

#[test]
fn pitch_follows_scale_root_and_octave() {
    let major = Scale::new("Major", &[0, 2, 4, 5, 7, 9, 11]);
    assert_eq!("Major", major.get_name());
    assert_eq!(&vec![0, 2, 4, 5, 7, 9, 11], major.get_pitch_set());
    // degree 9 of a scale of seven: one octave up, third step
    let degree = Degree { value: 9, alteration: -1 };
    assert_eq!(4 + 12 - 1, degree.as_pitch_at_scale(&major));
    let value = Value::new_pitch(&degree, &Root(3), &Octave::with_octave(4), &major);
    assert_eq!(Value::Pitch(48 + 3 + 15), value);
    // a pitch below zero is floored at zero
    let low = Degree { value: 0, alteration: i64::MIN };
    assert_eq!(Value::Pitch(0), Value::new_pitch(&low, &Root(0), &Octave::with_octave(0), &major));
    // a pitch above the range is held at its top
    let high = Degree { value: u64::MAX, alteration: i64::MAX };
    assert_eq!(
        Value::Pitch(u64::MAX),
        Value::new_pitch(&high, &Root(u64::MAX), &Octave::with_pitch(u64::MAX), &major)
    );
    assert_eq!(Value::Pitch(60), Value::default());
    assert_eq!(
        Value::Modulation("v".to_string(), 7),
        Value::from(Modulation::new("v", 7))
    );
}

#[test]
fn octave_moves_by_steps_and_stops_at_its_ends() {
    let mut octave = Octave::default();
    octave.up();
    octave.up();
    assert_eq!(7, octave.get_octave_number());
    assert_eq!(84, octave.get_pitch());
    octave.down();
    assert_eq!(6, octave.get_octave_number());
    let mut lowest = Octave::with_octave(0);
    lowest.down();
    assert_eq!(0, lowest.get_octave_number());
    let mut highest = Octave::with_pitch(u64::MAX);
    assert_eq!(u64::MAX / 12, highest.get_octave_number());
    highest.up();
    assert_eq!(u64::MAX / 12, highest.get_octave_number());
    assert_eq!(u64::MAX / 12 * 12, highest.get_pitch());
    assert_eq!(75, Octave::with_pitch(75).get_pitch());
}

#[test]
fn looping_pattern_starts_again() {
    let mut pattern = Pattern::new(Cursor::new(2));
    pattern.schedule_degree(2.into(), at(0, 0, 2), at(1, 0, 2));
    pattern.set_loop(true);
    assert!(pattern.is_loop());
    assert_eq!(at(0, 0, 2), pattern.start_position());
    let on_event = Event::new(Value::Pitch(62), at(0, 0, 2), EventState::On);
    for round in 0..3u64 {
        let first = pattern.next().unwrap();
        assert_eq!(1, first.len());
        assert_eq!(on_event.value, first[0].value);
        assert_eq!(EventState::On, first[0].state);
        assert_eq!(at(round, 0, 2), first[0].position);
        let second = pattern.next().unwrap();
        assert_eq!(1, second.len());
        assert_eq!(EventState::Off, second[0].state);
    }
    pattern.reset();
    assert_eq!(at(0, 0, 2), pattern.position());
    assert_eq!(2, pattern.resolution());
}

#[test]
fn scheduled_scale_root_and_octave_shape_the_pitch() {
    let mut pattern = Pattern::new(Cursor::new(2));
    pattern.schedule_degree(1.into(), at(0, 0, 2), at(1, 0, 2));
    pattern.schedule_scale(Scale::new("Whole", &[0, 2, 4, 6, 8, 10]), at(0, 0, 2), at(1, 0, 2));
    pattern.schedule_root(Root(5), at(0, 0, 2), at(1, 0, 2));
    pattern.schedule_octave(Octave::with_octave(3), at(0, 0, 2), at(1, 0, 2));
    pattern.sort();
    let first = pattern.next().unwrap();
    assert_eq!(
        vec![Event::new(Value::Pitch(36 + 5 + 2), at(0, 0, 2), EventState::On)],
        first
    );
}
