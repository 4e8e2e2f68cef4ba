//! Reading patterns: atoms, groups, chords, beats.

use vstd::prelude::*;
use crate::ast;
use crate::parser::grammar::{
    atom_at, atoms_at, beat_at, beats_at, event_at, events_at, fault, methods_between, past_blanks,
    past_methods, pattern_at, run, signs_between, CharKind, Fault, lemma_run,
};
use crate::parser::{failure, Failure, Node, Rule, Source};

verus! {

/// The trees of the event methods.
pub open spec fn method_trees(v: Seq<ast::EventMethod>) -> Seq<Node> {
    Seq::new(v.len(), |i: int| v[i].node())
}

/// The trees of the alterations.
pub open spec fn sign_trees(v: Seq<ast::Alteration>) -> Seq<Node> {
    Seq::new(v.len(), |i: int| v[i].node())
}

/// The trees of the atoms.
pub open spec fn atom_trees(v: Seq<ast::PatternAtom>) -> Seq<Node> {
    Seq::new(v.len(), |i: int| v[i].node())
}

/// The trees of the events.
pub open spec fn event_trees(v: Seq<ast::Event>) -> Seq<Node> {
    Seq::new(v.len(), |i: int| v[i].node())
}

/// The trees of the beats.
pub open spec fn beat_trees(v: Seq<ast::BeatEvent>) -> Seq<Node> {
    Seq::new(v.len(), |i: int| v[i].node())
}

/// The event methods at `pos`.
pub fn parse_methods(src: &Source, pos: usize) -> (r: (Vec<ast::EventMethod>, usize))
    requires
        pos <= src@.len(),
    ensures
        r.1 == past_methods(src@, pos as int),
        pos <= r.1 <= src@.len(),
        method_trees(r.0@) == methods_between(src@, pos as int, r.1 as int),
{
    let end = src.skip(pos, CharKind::Method);
    proof {
        lemma_run(src@, pos as int, CharKind::Method);
    }
    let mut methods: Vec<ast::EventMethod> = Vec::new();
    let mut i = pos;
    while i < end
        invariant
            pos <= i <= end <= src@.len(),
            methods@.len() == i - pos,
            forall|k: int| pos <= k < end ==> crate::parser::grammar::is_method(#[trigger] src@[k]),
            forall|k: int|
                0 <= k < methods@.len() ==> (#[trigger] methods@[k]).node()
                    == crate::parser::grammar::method_node(src@[pos + k]),
        decreases end - i,
    {
        let c = src.at(i);
        let method = if c == '.' {
            ast::EventMethod::Dot
        } else if c == '*' {
            ast::EventMethod::Multiply
        } else {
            ast::EventMethod::Divide
        };
        methods.push(method);
        i += 1;
    }
    proof {
        assert(method_trees(methods@) =~= methods_between(src@, pos as int, end as int));
    }
    (methods, end)
}

/// The alterations at `pos`.
pub fn parse_signs(src: &Source, pos: usize) -> (r: (Vec<ast::Alteration>, usize))
    requires
        pos <= src@.len(),
    ensures
        r.1 == pos + run(src@, pos as int, CharKind::Sign),
        pos <= r.1 <= src@.len(),
        sign_trees(r.0@) == signs_between(src@, pos as int, r.1 as int),
{
    let end = src.skip(pos, CharKind::Sign);
    proof {
        lemma_run(src@, pos as int, CharKind::Sign);
    }
    let mut signs: Vec<ast::Alteration> = Vec::new();
    let mut i = pos;
    while i < end
        invariant
            pos <= i <= end <= src@.len(),
            signs@.len() == i - pos,
            forall|k: int| pos <= k < end ==> crate::parser::grammar::is_sign(#[trigger] src@[k]),
            forall|k: int|
                0 <= k < signs@.len() ==> (#[trigger] signs@[k]).node()
                    == crate::parser::grammar::sign_node(src@[pos + k]),
        decreases end - i,
    {
        let c = src.at(i);
        let sign = if c == '+' {
            ast::Alteration::Up
        } else {
            ast::Alteration::Down
        };
        signs.push(sign);
        i += 1;
    }
    proof {
        assert(sign_trees(signs@) =~= signs_between(src@, pos as int, end as int));
    }
    (signs, end)
}

/// An atom of a pattern at `pos`.
pub fn parse_atom(src: &Source, pos: usize) -> (r: Result<(ast::PatternAtom, usize), Failure>)
    requires
        pos <= src@.len(),
    ensures
        match r {
            Ok((atom, end)) => atom_at(src@, pos as int) == Ok::<_, Fault>(
                (atom.node(), end as int),
            ) && pos < end <= src@.len(),
            Err(f) => atom_at(src@, pos as int) == Err::<(Node, int), _>(f@),
        },
{
    if pos >= src.len() {
        return Err(failure(pos));
    }
    let c = src.at(pos);
    if c == 'O' || c == 'o' {
        let (_, end) = parse_methods(src, pos + 1);
        let octave = if c == 'O' {
            ast::Octave::Up
        } else {
            ast::Octave::Down
        };
        let atom = ast::PatternAtom { value: ast::PatternAtomValue::Octave(octave), methods: Vec::new() };
        proof {
            assert(atom.node().inner =~= seq![octave.node()]);
        }
        Ok((atom, end))
    } else if c == '_' || c == 'r' {
        let (methods, end) = parse_methods(src, pos + 1);
        let value = if c == '_' {
            ast::PatternAtomValue::Tie
        } else {
            ast::PatternAtomValue::Pause
        };
        let atom = ast::PatternAtom { value, methods };
        proof {
            assert(atom.node().inner =~= seq![value.node()] + methods_between(
                src@,
                pos + 1,
                end as int,
            ));
        }
        Ok((atom, end))
    } else {
        let (alteration, at) = parse_signs(src, pos);
        if at < src.len() && is_pitch_digit(src.at(at)) {
            let pitch = pitch_of(src.at(at));
            let (methods, end) = parse_methods(src, at + 1);
            let note = ast::Note { pitch, alteration };
            proof {
                assert(note.node().inner =~= signs_between(src@, pos as int, at as int).push(
                    crate::parser::number_leaf(Rule::Pitch, pitch as int),
                ));
            }
            let atom = ast::PatternAtom { value: ast::PatternAtomValue::Note(note), methods };
            proof {
                assert(atom.node().inner =~= seq![note.node()] + methods_between(
                    src@,
                    at + 1,
                    end as int,
                ));
            }
            Ok((atom, end))
        } else {
            Err(failure(at))
        }
    }
}

/// Whether `c` is a digit of a pitch.
fn is_pitch_digit(c: char) -> (b: bool)
    ensures
        b == crate::parser::grammar::is_pitch(c),
{
    let code = c as u32;
    (48 <= code && code <= 57) || (97 <= code && code <= 102)
}

/// The pitch that the digit `c` stands for.
fn pitch_of(c: char) -> (r: u64)
    requires
        crate::parser::grammar::is_pitch(c),
    ensures
        r == crate::parser::grammar::pitch_value(c),
{
    let code = c as u32;
    if code <= 57 {
        (code - 48) as u64
    } else {
        (code - 97 + 10) as u64
    }
}

/// The atoms that stand one behind the other at `pos`.
pub fn parse_atoms(src: &Source, pos: usize) -> (r: (Vec<ast::PatternAtom>, usize))
    requires
        pos <= src@.len(),
    ensures
        atoms_at(src@, pos as int) == (atom_trees(r.0@), r.1 as int),
        pos <= r.1 <= src@.len(),
        r.0@.len() > 0 ==> pos < r.1,
{
    let mut atoms: Vec<ast::PatternAtom> = Vec::new();
    let mut at = pos;
    let mut done = false;
    proof {
        assert(atom_trees(atoms@) + atoms_at(src@, pos as int).0 =~= atoms_at(src@, pos as int).0);
    }
    while !done
        invariant
            pos <= at <= src@.len(),
            atoms@.len() > 0 ==> pos < at,
            atoms_at(src@, pos as int).0 == atom_trees(atoms@) + (if done {
                Seq::<Node>::empty()
            } else {
                atoms_at(src@, at as int).0
            }),
            atoms_at(src@, pos as int).1 == (if done {
                at as int
            } else {
                atoms_at(src@, at as int).1
            }),
        decreases src@.len() - at + (if done { 0int } else { 1int }),
    {
        match parse_atom(src, at) {
            Ok((atom, next)) => {
                proof {
                    assert(atom_trees(atoms@.push(atom)) =~= atom_trees(atoms@).push(atom.node()));
                    assert(atom_trees(atoms@) + (seq![atom.node()] + atoms_at(src@, next as int).0)
                        =~= atom_trees(atoms@).push(atom.node()) + atoms_at(src@, next as int).0);
                }
                atoms.push(atom);
                at = next;
            },
            Err(_) => {
                done = true;
            },
        }
    }
    proof {
        assert(atom_trees(atoms@) + Seq::<Node>::empty() =~= atom_trees(atoms@));
    }
    (atoms, at)
}

/// The tree of a chord or a parenthesised event with the given beats and
/// methods.
pub open spec fn bracketed_node(rule: Rule, beats: Seq<Node>, methods: Seq<Node>) -> Node {
    crate::parser::branch(rule, beats + methods)
}

/// A chord of the given parts.
fn chord_of(inner: Vec<ast::BeatEvent>, methods: Vec<ast::EventMethod>) -> (event: ast::Event)
    ensures
        event.node() == bracketed_node(Rule::Chord, beat_trees(inner@), method_trees(methods@)),
{
    let event = ast::Event::Chord(ast::Chord { inner, methods });
    proof {
        assert(event.node().inner =~= beat_trees(inner@) + method_trees(methods@));
    }
    event
}

/// A parenthesised event of the given parts.
fn parenthesised_of(inner: Vec<ast::BeatEvent>, methods: Vec<ast::EventMethod>) -> (event:
    ast::Event)
    ensures
        event.node() == bracketed_node(
            Rule::ParenthesisedEventGroup,
            beat_trees(inner@),
            method_trees(methods@),
        ),
{
    let event = ast::Event::ParenthesisedEvent(ast::ParenthesisedEvent { inner, methods });
    proof {
        assert(event.node().inner =~= beat_trees(inner@) + method_trees(methods@));
    }
    event
}

/// A group of the given atoms.
fn group_of(atoms: Vec<ast::PatternAtom>) -> (event: ast::Event)
    ensures
        event.node() == crate::parser::branch(Rule::Group, atom_trees(atoms@)),
{
    let event = ast::Event::Group(atoms);
    proof {
        assert(event.node().inner =~= atom_trees(atoms@));
    }
    event
}

/// An event of a beat at `pos`: a chord, a parenthesised event or a group.
pub fn parse_event(src: &Source, pos: usize) -> (r: Result<(ast::Event, usize), Failure>)
    requires
        pos <= src@.len(),
    ensures
        match r {
            Ok((event, end)) => event_at(src@, pos as int) == Ok::<_, Fault>(
                (event.node(), end as int),
            ) && pos < end <= src@.len(),
            Err(f) => event_at(src@, pos as int) == Err::<(Node, int), _>(f@),
        },
    decreases src@.len() - pos, 1nat,
{
    if src.has(pos, '[') || src.has(pos, '(') {
        let chord = src.has(pos, '[');
        let close = if chord {
            ']'
        } else {
            ')'
        };
        let start = src.skip(pos + 1, CharKind::Blank);
        let (inner, end, first) = parse_beats(src, start);
        if inner.len() == 0 {
            return Err(first);
        }
        let bar = src.skip(end, CharKind::Blank);
        if !src.has(bar, close) {
            return Err(failure(bar));
        }
        let (methods, after) = parse_methods(src, bar + 1);
        let event = if chord {
            chord_of(inner, methods)
        } else {
            parenthesised_of(inner, methods)
        };
        Ok((event, after))
    } else {
        let (atoms, end) = parse_atoms(src, pos);
        if atoms.len() == 0 {
            match parse_atom(src, pos) {
                Err(f) => Err(f),
                Ok(_) => Err(failure(pos)),
            }
        } else {
            Ok((group_of(atoms), end))
        }
    }
}

/// The events that stand one behind the other at `pos`, and the failure of
/// the first attempt if there is none.
pub fn parse_events(src: &Source, pos: usize) -> (r: (Vec<ast::Event>, usize, Failure))
    requires
        pos <= src@.len(),
    ensures
        events_at(src@, pos as int) == (event_trees(r.0@), r.1 as int),
        pos <= r.1 <= src@.len(),
        r.0@.len() > 0 ==> pos < r.1,
        r.0@.len() == 0 ==> r.2@ == crate::parser::grammar::fault_of(
            event_at(src@, pos as int),
            pos as int,
        ),
    decreases src@.len() - pos, 2nat,
{
    let mut events: Vec<ast::Event> = Vec::new();
    let mut at = pos;
    let mut done = false;
    let mut first = failure(pos);
    proof {
        assert(event_trees(events@) + events_at(src@, pos as int).0 =~= events_at(
            src@,
            pos as int,
        ).0);
    }
    while !done
        invariant
            pos <= at <= src@.len(),
            events@.len() > 0 ==> pos < at,
            events@.len() == 0 ==> at == pos,
            events@.len() == 0 && done ==> first@ == crate::parser::grammar::fault_of(
                event_at(src@, pos as int),
                pos as int,
            ),
            events_at(src@, pos as int).0 == event_trees(events@) + (if done {
                Seq::<Node>::empty()
            } else {
                events_at(src@, at as int).0
            }),
            events_at(src@, pos as int).1 == (if done {
                at as int
            } else {
                events_at(src@, at as int).1
            }),
        decreases src@.len() - at + (if done { 0int } else { 1int }),
    {
        match parse_event(src, at) {
            Ok((event, next)) => {
                proof {
                    assert(event_trees(events@.push(event)) =~= event_trees(events@).push(
                        event.node(),
                    ));
                    assert(event_trees(events@) + (seq![event.node()] + events_at(
                        src@,
                        next as int,
                    ).0) =~= event_trees(events@).push(event.node()) + events_at(
                        src@,
                        next as int,
                    ).0);
                }
                events.push(event);
                at = next;
            },
            Err(f) => {
                if events.len() == 0 {
                    first = f;
                }
                done = true;
            },
        }
    }
    proof {
        assert(event_trees(events@) + Seq::<Node>::empty() =~= event_trees(events@));
    }
    (events, at, first)
}

/// A beat at `pos`: the events that stand there one behind the other.
pub fn parse_beat(src: &Source, pos: usize) -> (r: Result<(ast::BeatEvent, usize), Failure>)
    requires
        pos <= src@.len(),
    ensures
        match r {
            Ok((beat, end)) => beat_at(src@, pos as int) == Ok::<_, Fault>(
                (beat.node(), end as int),
            ) && pos < end <= src@.len(),
            Err(f) => beat_at(src@, pos as int) == Err::<(Node, int), _>(f@),
        },
    decreases src@.len() - pos, 3nat,
{
    let (events, end, first) = parse_events(src, pos);
    if events.len() == 0 {
        Err(first)
    } else {
        let beat = ast::BeatEvent(events);
        proof {
            assert(beat.node().inner =~= events_at(src@, pos as int).0);
        }
        Ok((beat, end))
    }
}

/// The beats at `pos`, with blanks between them; the position behind the
/// last of them; and the failure of the first attempt if there is none.
pub fn parse_beats(src: &Source, pos: usize) -> (r: (Vec<ast::BeatEvent>, usize, Failure))
    requires
        pos <= src@.len(),
    ensures
        beats_at(src@, pos as int) == (beat_trees(r.0@), r.1 as int),
        pos <= r.1 <= src@.len(),
        r.0@.len() == 0 ==> r.2@ == crate::parser::grammar::fault_of(
            beat_at(src@, pos as int),
            pos as int,
        ),
    decreases src@.len() - pos, 4nat,
{
    let mut beats: Vec<ast::BeatEvent> = Vec::new();
    let mut at = pos;
    let mut end = pos;
    let mut done = false;
    let mut first = failure(pos);
    while !done
        invariant
            pos <= end <= at <= src@.len(),
            beats@.len() == 0 ==> at == pos && end == pos,
            beats@.len() == 0 && done ==> first@ == crate::parser::grammar::fault_of(
                beat_at(src@, pos as int),
                pos as int,
            ),
            beats@.len() == 0 && !done ==> beats_at(src@, pos as int) == beats_at(
                src@,
                at as int,
            ),
            beats@.len() == 0 && done ==> beats_at(src@, pos as int) == (
                Seq::<Node>::empty(),
                pos as int,
            ),
            beats@.len() > 0 ==> beats_at(src@, pos as int) == (if !done && beats_at(
                src@,
                at as int,
            ).0.len() > 0 {
                (beat_trees(beats@) + beats_at(src@, at as int).0, beats_at(src@, at as int).1)
            } else {
                (beat_trees(beats@), end as int)
            }),
        decreases src@.len() - at + (if done { 0int } else { 1int }),
    {
        match parse_beat(src, at) {
            Ok((beat, next)) => {
                let gap = src.skip(next, CharKind::Blank);
                proof {
                    assert(beat_trees(beats@.push(beat)) =~= beat_trees(beats@).push(beat.node()));
                    let more = beats_at(src@, gap as int);
                    assert(beat_trees(beats@) + (seq![beat.node()] + more.0) =~= beat_trees(
                        beats@,
                    ).push(beat.node()) + more.0);
                    assert(beat_trees(beats@) + seq![beat.node()] =~= beat_trees(beats@).push(
                        beat.node(),
                    ));
                    assert(Seq::<Node>::empty() + seq![beat.node()] =~= seq![beat.node()]);
                }
                beats.push(beat);
                end = next;
                at = gap;
            },
            Err(f) => {
                if beats.len() == 0 {
                    first = f;
                }
                done = true;
            },
        }
    }
    proof {
        if beats@.len() == 0 {
            assert(beat_trees(beats@) =~= Seq::<Node>::empty());
        }
    }
    (beats, end, first)
}

/// A pattern at `pos`: beats between two bars.
pub fn parse_pattern(src: &Source, pos: usize) -> (r: Result<(ast::Pattern, usize), Failure>)
    requires
        pos <= src@.len(),
    ensures
        match r {
            Ok((pattern, end)) => pattern_at(src@, pos as int) == Ok::<_, Fault>(
                (pattern.node(), end as int),
            ) && pos < end <= src@.len(),
            Err(f) => pattern_at(src@, pos as int) == Err::<(Node, int), _>(f@),
        },
{
    if !src.has(pos, '|') {
        return Err(failure(pos));
    }
    let start = src.skip(pos + 1, CharKind::Blank);
    let (beats, end, first) = parse_beats(src, start);
    let bar = src.skip(end, CharKind::Blank);
    if src.has(bar, '|') {
        let pattern = ast::Pattern(beats);
        proof {
            assert(pattern.node().inner =~= beats_at(src@, start as int).0);
        }
        Ok((pattern, bar + 1))
    } else if beats.len() == 0 {
        Err(first)
    } else {
        Err(failure(bar))
    }
}

} // verus!
