use colly::clock::{Bpm, Clock, Cursor, CursorPosition};
use colly::ratio::Ratio;
use colly::settings;

/// The fraction that the number stands for, exactly.
fn ratio(x: f64) -> Ratio {
    let mut value = x;
    let mut den: u64 = 1;
    while value.fract() != 0.0 {
        value *= 2.0;
        den *= 2;
    }
    Ratio::new(value as u64, den).unwrap()
}

fn as_f64(r: &Ratio) -> f64 {
    r.numerator() as f64 / r.denominator() as f64
}

#[test]
fn position_from_relative() {
    let resolution = 1920;
    let result = CursorPosition::from_real(&ratio(16.98765), resolution).unwrap();
    let expected = CursorPosition {
        beat: 16,
        tick: 1896,
        resolution,
    };

    assert_eq!(expected, result);
}

#[test]
fn position_as_relative() {
    let resolution = 1920;
    let position = CursorPosition {
        beat: 16,
        tick: 1896,
        resolution,
    };
    let result = as_f64(&position.as_real().unwrap());

    assert!((16.9875 - result).abs() < 1e-9);
}

#[test]
fn increment_cursor() {
    let resolution = 24;
    let mut cursor_position = CursorPosition::new(resolution);
    let expected = CursorPosition {
        beat: 1,
        tick: 2,
        resolution,
    };

    for _ in 0..=resolution + 1 {
        cursor_position.increment();
    }

    assert_eq!(expected, cursor_position);
}

#[test]
fn cursor_add() {
    let mut cursor = Cursor::new(24);
    cursor.nth(3);
    let offset = CursorPosition {
        beat: 10,
        // such a tick value shouldn't be possible when
        // resolution is 24, but for battle-like circumstances...
        tick: 73,
        resolution: cursor.resolution,
    };

    let expected = CursorPosition {
        beat: 13,
        tick: 5,
        resolution: cursor.resolution,
    };

    assert_eq!(expected, cursor.position + offset);
}

#[test]
fn cursor_add_assign() {
    let resolution = 24;
    let mut cursor = Cursor::new(resolution);
    cursor.position = (12, 5, resolution).into();

    let expected = CursorPosition {
        beat: 13,
        tick: 5,
        resolution,
    };

    cursor.position += CursorPosition {
        beat: 1,
        tick: 0,
        resolution,
    };

    assert_eq!(expected, cursor.position);
}

#[test]
fn cursor_sub() {
    let resolution = 24;
    let mut cursor = Cursor::new(resolution);
    cursor.position = (12, 5, resolution).into();

    let offset = CursorPosition {
        beat: 5,
        // such a tick value shouldn't be possible when
        // resolution is 24, but for battle-like circumstances...
        tick: 73,
        resolution,
    };
    let expected = CursorPosition {
        beat: 4,
        tick: 4,
        resolution,
    };

    assert_eq!(expected, cursor.position - offset);
}

#[test]
fn cursor_sub_assign() {
    let resolution = 24;
    let mut cursor = Cursor::new(resolution);
    cursor.position = (12, 5, resolution).into();

    let expected = CursorPosition {
        beat: 11,
        tick: 5,
        resolution,
    };

    cursor.position -= CursorPosition {
        beat: 1,
        tick: 0,
        resolution,
    };

    assert_eq!(expected, cursor.position);
}

#[test]
fn cursor_add_u64() {
    let resolution = 24;
    let mut cursor = Cursor::new(resolution);
    cursor.position = (12, 5, resolution).into();

    let expected = CursorPosition {
        beat: 13,
        tick: 5,
        resolution,
    };

    assert_eq!(expected, cursor.position + resolution);
}

#[test]
fn cursor_add_assign_u64() {
    let resolution = 24;
    let mut cursor = Cursor::new(resolution);
    cursor.position = (12, 5, resolution).into();

    let expected = CursorPosition {
        beat: 13,
        tick: 5,
        resolution,
    };

    cursor.position += resolution;

    assert_eq!(expected, cursor.position);
}

#[test]
fn cursor_sub_u64() {
    let resolution = 24;
    let mut cursor = Cursor::new(resolution);
    cursor.position = (12, 5, resolution).into();

    let expected = CursorPosition {
        beat: 11,
        tick: 5,
        resolution,
    };

    assert_eq!(expected, cursor.position - resolution);
}

#[test]
fn cursor_sub_assign_u64() {
    let resolution = 24;
    let mut cursor = Cursor::new(resolution);
    cursor.position = (12, 5, resolution).into();

    let expected = CursorPosition {
        beat: 11,
        tick: 5,
        resolution,
    };

    cursor.position -= resolution;

    assert_eq!(expected, cursor.position);
}

#[test]
fn cursor_mul_f64() {
    let resolution = 24;
    let mut cursor = Cursor::new(resolution);
    cursor.position = (12, 5, resolution).into();

    let expected = CursorPosition {
        beat: 18,
        tick: 8,
        resolution,
    };

    assert_eq!(expected, cursor.position * ratio(1.5));
}

#[test]
fn cursor_mul_assign_f64() {
    let resolution = 24;
    let mut cursor = Cursor::new(resolution);
    cursor.position = (12, 5, resolution).into();

    let expected = CursorPosition {
        beat: 18,
        tick: 8,
        resolution,
    };

    cursor.position *= ratio(1.5);

    assert_eq!(expected, cursor.position);
}

#[test]
fn cursor_div_f64() {
    let resolution = 24;
    let mut cursor = Cursor::new(resolution);
    cursor.position = (12, 5, resolution).into();

    let expected = CursorPosition {
        beat: 24,
        tick: 10,
        resolution,
    };

    assert_eq!(expected, cursor.position / ratio(0.5));
}

#[test]
fn cursor_div_assign_f64() {
    let resolution = 24;
    let mut cursor = Cursor::new(resolution);
    cursor.position = (12, 5, resolution).into();

    let expected = CursorPosition {
        beat: 24,
        tick: 10,
        resolution,
    };

    cursor.position /= ratio(0.5);

    assert_eq!(expected, cursor.position);
}

#[test]
fn real_round_trip_gives_the_position_back() {
    for resolution in [1u64, 2, 3, 7, 24, 1920] {
        for beat in [0u64, 1, 5, 1000] {
            for tick in 0..resolution.min(30) {
                let position = CursorPosition { beat, tick, resolution };
                let real = position.as_real().unwrap();
                assert_eq!(Some(position), CursorPosition::from_real(&real, resolution));
            }
        }
    }
}

#[test]
fn from_real_starts_the_next_beat_where_the_fraction_rounds_up() {
    // 0.999 of a beat is nearer to the next beat than to tick 23 of 24
    let position = CursorPosition::from_real(&Ratio::new(999, 1000).unwrap(), 24).unwrap();
    assert_eq!(CursorPosition { beat: 1, tick: 0, resolution: 24 }, position);
    // half a tick rounds up
    let position = CursorPosition::from_real(&Ratio::new(1, 48).unwrap(), 24).unwrap();
    assert_eq!(CursorPosition { beat: 0, tick: 1, resolution: 24 }, position);
}

#[test]
fn from_ticks_normalises() {
    let position = CursorPosition::from_ticks(293, 24);
    assert_eq!(CursorPosition { beat: 12, tick: 5, resolution: 24 }, position);
    assert_eq!(293, position.as_ticks());
    assert_eq!(12, position.beat());
    assert_eq!(5, position.tick());
    assert_eq!(24, position.resolution());
    assert_eq!(Some(293), position.checked_ticks());
}

#[test]
fn checked_ticks_refuses_what_does_not_fit() {
    let position = CursorPosition { beat: u64::MAX, tick: 0, resolution: 2 };
    assert_eq!(None, position.checked_ticks());
    assert_eq!(None, position.as_real());
}

#[test]
fn addition_is_associative() {
    let r = 24;
    let a = CursorPosition { beat: 3, tick: 23, resolution: r };
    let b = CursorPosition { beat: 0, tick: 73, resolution: r };
    let c = CursorPosition { beat: 9, tick: 1, resolution: r };
    assert_eq!((a + b) + c, a + (b + c));
    assert_eq!(CursorPosition::from_ticks(3 * 24 + 23 + 73 + 9 * 24 + 1, r), (a + b) + c);
}

#[test]
fn subtraction_saturates_at_zero() {
    let r = 24;
    let a = CursorPosition { beat: 3, tick: 2, resolution: r };
    let b = CursorPosition { beat: 3, tick: 3, resolution: r };
    assert_eq!(CursorPosition { beat: 0, tick: 0, resolution: r }, a - b);
    assert_eq!(CursorPosition { beat: 0, tick: 0, resolution: r }, a - 1000u64);
    assert_eq!(CursorPosition { beat: 0, tick: 1, resolution: r }, b - a);
}

#[test]
fn positions_are_ordered_by_beat_then_tick() {
    let r = 24;
    let a = CursorPosition { beat: 1, tick: 23, resolution: r };
    let b = CursorPosition { beat: 2, tick: 0, resolution: r };
    assert!(a < b);
    assert!(b > a);
    assert!(a <= a);
    assert!(a.is_before(&b));
    assert!(!b.is_before(&a));
    assert!(a.is_at(&CursorPosition { beat: 1, tick: 23, resolution: 12 }));
}

#[test]
fn cursor_walks_tick_by_tick() {
    let mut cursor = Cursor::new(2);
    assert_eq!(2, cursor.resolution());
    assert_eq!(Some(CursorPosition { beat: 0, tick: 1, resolution: 2 }), cursor.next());
    assert_eq!(Some(CursorPosition { beat: 1, tick: 0, resolution: 2 }), cursor.next());
    cursor.reset();
    assert_eq!(CursorPosition { beat: 0, tick: 0, resolution: 2 }, cursor.position);
    assert_eq!(1920, Cursor::default().resolution());
    assert_eq!(CursorPosition { beat: 0, tick: 0, resolution: 1920 }, CursorPosition::default());
}

#[test]
fn tempo_is_kept_between_27_and_200() {
    let mut tempo = Bpm::default();
    assert_eq!(117.0, as_f64(&tempo.get()));
    tempo.set(ratio(250.5));
    assert_eq!(200.0, as_f64(&tempo.get()));
    tempo.set(ratio(3.0));
    assert_eq!(27.0, as_f64(&tempo.get()));
    tempo.set(ratio(99.5));
    assert_eq!(99.5, as_f64(&tempo.get()));
}

#[test]
fn clock_holds_tempo_and_cursor() {
    let mut clock = Clock::new(Bpm::default(), &settings::Clock { resolution: 12 });
    assert_eq!(12, clock.cursor().resolution());
    assert_eq!(CursorPosition { beat: 0, tick: 0, resolution: 12 }, clock.cursor().position);
    let mut tempo = Bpm::default();
    tempo.set(ratio(60.0));
    clock.set_tempo(tempo);
    assert_eq!(60.0, as_f64(&clock.tempo().get()));
    assert_eq!(1920, Clock::default().cursor().resolution());
    assert_eq!(1920, settings::Settings::default().clock.resolution);
}

#[test]
fn ratios_are_exact() {
    let third = Ratio::new(1, 3).unwrap();
    let sum = third.checked_add(&third).unwrap().checked_add(&third).unwrap();
    assert_eq!(Ratio::one(), sum);
    assert_eq!(Ratio::new(2, 4), Ratio::new(1, 2));
    assert_eq!(None, Ratio::new(1, 0));
    assert_eq!(Some(Ratio::new(1, 9).unwrap()), third.checked_mul(&third));
    assert_eq!(Some(Ratio::one()), third.checked_div(&third));
    assert_eq!(None, third.checked_div(&Ratio::zero()));
    assert_eq!(None, Ratio::zero().recip());
    assert_eq!(Some(Ratio::from_integer(3)), third.recip());
    assert_eq!(2, Ratio::new(7, 3).unwrap().floor());
    assert_eq!(Ratio::new(1, 3).unwrap(), Ratio::new(7, 3).unwrap().fract());
    assert_eq!(Some(8), third.scale_round(24));
    assert_eq!(Some(3), Ratio::new(5, 2).unwrap().scale_round(1));
    assert_eq!(None, Ratio::from_integer(2).scale_round(u64::MAX));
    assert!(third.is_less_than(&Ratio::new(1, 2).unwrap()));
    assert!(third.same_value(&Ratio::new(2, 6).unwrap()));
    assert!(Ratio::zero().is_zero());
    assert_eq!(Ratio::zero(), Ratio::default());
}

#[test]
fn ratio_sums_out_of_range_are_refused() {
    let big = Ratio::new(u64::MAX, 1).unwrap();
    assert_eq!(None, big.checked_add(&Ratio::one()));
    assert_eq!(None, big.checked_mul(&Ratio::from_integer(2)));
    let small = Ratio::new(1, u64::MAX).unwrap();
    assert_eq!(None, small.checked_div(&Ratio::from_integer(2)));
}

#[test]
fn subtraction_is_exact_where_the_right_side_is_smaller() {
    let r = 24;
    let a = CursorPosition { beat: 12, tick: 5, resolution: r };
    let b = CursorPosition { beat: 5, tick: 73, resolution: r };
    let difference = a - b;
    assert_eq!(a.as_ticks() - (5 * 24 + 73), difference.as_ticks());
    assert!(difference.tick() < r);
    assert_eq!(r, difference.resolution());
}
