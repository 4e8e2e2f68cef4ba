use colly::ast;
use colly::clock::Cursor;
use colly::interpreter::interpret_pattern;
use colly::types::{Identifier, Mixer, Pattern, PrimitiveError, Track, TypeId};

#[test]
fn kinds_are_shown_in_angle_brackets() {
    assert_eq!("<Identifier>", TypeId::Identifier.name());
    assert_eq!("<Boolean>", TypeId::Boolean.name());
    assert_eq!("<Number>", TypeId::Number.name());
    assert_eq!("<Pattern>", TypeId::Pattern.name());
    assert_eq!("<String>", TypeId::String.name());
    assert_eq!("<Properties>", TypeId::Properties.name());
    assert_eq!("<Array>", TypeId::Array.name());
    assert_eq!("<Function>", TypeId::Function.name());
    assert_eq!("<Mixer>", TypeId::Mixer.name());
    assert_eq!("<Track>", TypeId::Track.name());
    assert_eq!("<Slot>", TypeId::Slot.name());
    assert_eq!("<Void>", TypeId::Void.name());
    assert_eq!("<Nothing>", TypeId::Nothing.name());
}

#[test]
fn tracks_and_slots_are_made_when_first_asked_for() {
    let mut mixer = Mixer::default();
    assert_eq!(0, mixer.track(7));
    assert_eq!(1, mixer.track(3));
    assert_eq!(0, mixer.track(7));
    assert_eq!(0, mixer.slot(1, 12));
    assert_eq!(1, mixer.slot(1, 2));
    assert_eq!(0, mixer.slot(1, 12));
    assert_eq!(0, mixer.slot(0, 2));

    let mut track = Track::default();
    let slot = track.slot(5);
    assert_eq!(Pattern::default(), slot.pattern);
    track.slot(9);
    assert_eq!(Pattern::default(), track.slot(5).pattern);
}

#[test]
fn an_empty_pattern_hands_out_nothing() {
    let mut pattern = interpret_pattern(&ast::Pattern(Vec::new()), &Cursor::new(4)).unwrap();
    assert_eq!(None, pattern.next());
    let mut default = Pattern::default();
    assert_eq!(None, default.next());
    let copy = default.clone();
    assert_eq!(default, copy);
}

#[test]
fn names_and_errors_are_plain_values() {
    assert_eq!(Identifier("a".to_string()), Identifier("a".to_string()).clone());
    let error = PrimitiveError::SetProperty {
        property_name: "volume".to_string(),
        assignee_name: "track".to_string(),
        cause: "not a number".to_string(),
    };
    assert_eq!(
        PrimitiveError::SetProperty {
            property_name: "volume".to_string(),
            assignee_name: "track".to_string(),
            cause: "not a number".to_string(),
        },
        error
    );
}
