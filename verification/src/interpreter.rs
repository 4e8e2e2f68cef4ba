//! Lowering of a pattern: from the syntax tree, through intermediate events
//! with exact durations, to a scheduled pattern.

pub mod laws;

use vstd::prelude::*;
use crate::ast;
use crate::clock::{position_of_ticks, Clock, Cursor, CursorPosition, Duration};
use crate::types::pattern::{scheduled, stable_sorted, PatternState, StreamState};
use crate::ratio::{gcd, Ratio};
use crate::types;

verus! {

pub type InterpreterResult<T> = Result<T, InterpreterError>;

/// Why a pattern could not be lowered.
#[derive(Debug, PartialEq)]
pub enum InterpreterError {
    /// A construct that cannot be lowered: its name, and what is wrong.
    Rule(String, String),
    /// A tie with no event before it to prolong, and the beat it stands in.
    LonelyTie(u64),
}

/// The kinds of failure, apart from their wording.
#[derive(Debug, Clone, Copy, PartialEq, Eq, Structural)]
pub enum Failure {
    /// A duration or position left the range of the numbers that hold it.
    OutOfRange,
    /// An atom whose lowering is not defined: an inlet or an interpolation.
    Unsupported,
    /// A chord without any voice follows events that its voices would be
    /// aligned with.
    NoVoices,
    /// A tie with no event before it to prolong, and the beat it stands in.
    LonelyTie(u64),
}

/// Whether `error` is the error that reports `failure`.
pub open spec fn reports(failure: Failure, error: InterpreterError) -> bool {
    match failure {
        Failure::OutOfRange => error matches InterpreterError::Rule(rule, detail) && rule@
            == "duration"@ && detail@ == "out of range"@,
        Failure::Unsupported => error matches InterpreterError::Rule(rule, detail) && rule@
            == "pattern atom"@ && detail@ == "inlets and interpolations cannot be lowered"@,
        Failure::NoVoices => error matches InterpreterError::Rule(rule, detail) && rule@
            == "chord"@ && detail@ == "no voice to align with the voices before"@,
        Failure::LonelyTie(beat) => error == InterpreterError::LonelyTie(beat),
    }
}

/// The error that reports `failure`.
pub fn error_for(failure: &Failure) -> (error: InterpreterError)
    ensures
        reports(*failure, error),
{
    match failure {
        Failure::OutOfRange => InterpreterError::Rule(
            "duration".to_owned(),
            "out of range".to_owned(),
        ),
        Failure::Unsupported => InterpreterError::Rule(
            "pattern atom".to_owned(),
            "inlets and interpolations cannot be lowered".to_owned(),
        ),
        Failure::NoVoices => InterpreterError::Rule(
            "chord".to_owned(),
            "no voice to align with the voices before".to_owned(),
        ),
        Failure::LonelyTie(beat) => InterpreterError::LonelyTie(*beat),
    }
}

/// What the interpreters take from their surroundings: the clock, whose
/// cursor is the anchor of a new pattern.
#[derive(Debug)]
pub struct Context {
    pub clock: Clock,
}

impl Default for Context {
    fn default() -> (r: Self)
        ensures
            r.clock.spec_cursor().resolution == 1920,
            r.clock.spec_cursor().position == (crate::clock::CursorPosition {
                beat: 0,
                tick: 0,
                resolution: 1920,
            }),
    {
        Context { clock: Clock::default() }
    }
}

/// Something that can be lowered to a `V`.
pub trait Interpreter<V> {
    fn interpret(self, context: &mut Context) -> InterpreterResult<V>;
}

/// What an intermediate event stands for.
#[derive(Debug, PartialEq)]
pub enum Audible {
    Degree(types::Degree),
    Modulation(types::Modulation),
    Pause,
    Tie,
}

impl Clone for Audible {
    fn clone(&self) -> (r: Self)
        ensures
            r == *self,
    {
        match self {
            Audible::Degree(degree) => Audible::Degree(*degree),
            Audible::Modulation(modulation) => Audible::Modulation(modulation.clone()),
            Audible::Pause => Audible::Pause,
            Audible::Tie => Audible::Tie,
        }
    }
}

/// What one atom contributes: a value, the octave change that precedes it,
/// its duration and its offset within its beat, both in beats.
#[derive(Debug, PartialEq)]
pub struct IntermediateEvent {
    pub value: Audible,
    pub octave: Option<types::Octave>,
    pub duration: Ratio,
    pub beat_position: Ratio,
    pub beat: u64,
}

impl Clone for IntermediateEvent {
    fn clone(&self) -> (r: Self)
        ensures
            r == *self,
    {
        IntermediateEvent {
            value: self.value.clone(),
            octave: self.octave,
            duration: self.duration,
            beat_position: self.beat_position,
            beat: self.beat,
        }
    }
}

/// Events that share one slot of a beat: the voices of a chord, or a single
/// event.
#[derive(Debug, PartialEq)]
pub struct ArrangedIntermediates {
    pub values: Vec<IntermediateEvent>,
    pub duration: Ratio,
    pub beat: u64,
    pub beat_position: Ratio,
}

/// `ArrangedIntermediates` as a mathematical value.
pub struct Arranged {
    pub values: Seq<IntermediateEvent>,
    pub duration: Ratio,
    pub beat: u64,
    pub beat_position: Ratio,
}

impl View for ArrangedIntermediates {
    type V = Arranged;

    open spec fn view(&self) -> Arranged {
        Arranged {
            values: self.values@,
            duration: self.duration,
            beat: self.beat,
            beat_position: self.beat_position,
        }
    }
}

/// The slot that holds just `event`.
pub open spec fn single(event: IntermediateEvent) -> Arranged {
    Arranged {
        values: seq![event],
        duration: event.duration,
        beat: event.beat,
        beat_position: event.beat_position,
    }
}

/// The views of the slots of `v`.
pub open spec fn views(v: Seq<ArrangedIntermediates>) -> Seq<Arranged> {
    Seq::new(v.len(), |i: int| v[i]@)
}

impl ArrangedIntermediates {
    /// The slot that holds just `intermediate`.
    pub fn from(intermediate: IntermediateEvent) -> (r: Self)
        ensures
            r@ == single(intermediate),
    {
        let mut values: Vec<IntermediateEvent> = Vec::new();
        let duration = intermediate.duration;
        let beat = intermediate.beat;
        let beat_position = intermediate.beat_position;
        values.push(intermediate);
        assert(values@ =~= seq![intermediate]);
        Self { duration, beat, beat_position, values }
    }
}

/// The factor by which a method changes a duration.
pub open spec fn method_factor(method: ast::EventMethod) -> real {
    match method {
        ast::EventMethod::Multiply => 2 as real,
        ast::EventMethod::Divide => 1 as real / 2 as real,
        ast::EventMethod::Dot => 3 as real / 2 as real,
    }
}

/// The product of the factors of `methods`.
pub open spec fn methods_factor(methods: Seq<ast::EventMethod>) -> real
    decreases methods.len(),
{
    if methods.len() == 0 {
        1 as real
    } else {
        methods_factor(methods.drop_last()) * method_factor(methods.last())
    }
}

/// `duration` changed by one method; `None` where the result is out of
/// range.
pub open spec fn method_applied(duration: Ratio, method: ast::EventMethod) -> Option<Ratio> {
    match method {
        ast::EventMethod::Multiply => duration.spec_checked_mul(Ratio::of(2, 1)),
        ast::EventMethod::Divide => duration.spec_checked_div(Ratio::of(2, 1)),
        ast::EventMethod::Dot => duration.spec_checked_mul(Ratio::of(3, 2)),
    }
}

/// `source` changed by each of `methods` from left to right; `None` where a
/// result on the way is out of range.
pub open spec fn methods_applied(source: Ratio, methods: Seq<ast::EventMethod>) -> Option<Ratio>
    decreases methods.len(),
{
    if methods.len() == 0 {
        Some(source)
    } else {
        match methods_applied(source, methods.drop_last()) {
            Some(duration) => method_applied(duration, methods.last()),
            None => None,
        }
    }
}

/// A duration changed by methods is the duration times the product of their
/// factors: twice for each `*`, half for each `:`, one and a half for each
/// `.`.
pub proof fn lemma_methods_applied(source: Ratio, methods: Seq<ast::EventMethod>)
    requires
        source.wf(),
    ensures
        methods_applied(source, methods) matches Some(r) ==> r.wf() && r.value() == source.value()
            * methods_factor(methods),
    decreases methods.len(),
{
    if methods.len() > 0 {
        lemma_methods_applied(source, methods.drop_last());
        if let Some(d) = methods_applied(source, methods.drop_last()) {
            Ratio::lemma_of(2, 1);
            Ratio::lemma_of(3, 2);
            Ratio::lemma_mul_value(d, Ratio::of(2, 1));
            Ratio::lemma_mul_value(d, Ratio::of(3, 2));
            Ratio::lemma_div_value(d, Ratio::of(2, 1));
            let f = methods_factor(methods.drop_last());
            let s = source.value();
            let m = method_factor(methods.last());
            assert(2 as real / 1 as real == 2 as real) by (nonlinear_arith);
            assert((s * f) * m == s * (f * m)) by (nonlinear_arith);
            assert((s * f) / (2 as real) == (s * f) * (1 as real / 2 as real)) by (nonlinear_arith);
        }
    } else {
        assert(source.value() * (1 as real) == source.value()) by (nonlinear_arith);
    }
}

/// The sum of the alterations: one up for each `+`, one down for each `-`.
pub open spec fn alteration_sum(alterations: Seq<ast::Alteration>) -> int
    decreases alterations.len(),
{
    if alterations.len() == 0 {
        0
    } else {
        alteration_sum(alterations.drop_last()) + (match alterations.last() {
            ast::Alteration::Up => 1int,
            ast::Alteration::Down => -1int,
        })
    }
}

/// The degree that a note names; `None` where the sum of its alterations is
/// out of range.
pub open spec fn note_degree(note: ast::Note) -> Option<types::Degree> {
    let sum = alteration_sum(note.alteration@);
    if i64::MIN <= sum <= i64::MAX {
        Some(types::Degree { value: note.pitch, alteration: sum as i64 })
    } else {
        None
    }
}

/// Lowers the atoms of one group, one after the other. It carries the
/// octave register, the octave change that waits for the next event, and the
/// offset within the beat at which the next event starts.
#[derive(Debug)]
pub struct AtomInterpreter {
    pub octave: types::Octave,
    pub octave_change: Option<types::Octave>,
    pub position: Ratio,
    pub beat: u64,
}

impl AtomInterpreter {
    pub fn new(octave: types::Octave, beat: u64, position: Ratio) -> (r: Self)
        ensures
            r == (AtomInterpreter { octave, octave_change: None, position, beat }),
    {
        Self { octave, beat, position, octave_change: None }
    }

    /// The state after an octave atom: the register moves one octave, and
    /// so does the change that waits for the next event, which starts from
    /// the register if none waits yet.
    pub open spec fn after_octave(self, octave: ast::Octave) -> AtomInterpreter {
        let base = match self.octave_change {
            Some(change) => change,
            None => self.octave,
        };
        match octave {
            ast::Octave::Up => AtomInterpreter {
                octave: types::Octave::at(types::Octave::number_above(self.octave.number())),
                octave_change: Some(types::Octave::at(types::Octave::number_above(base.number()))),
                position: self.position,
                beat: self.beat,
            },
            ast::Octave::Down => AtomInterpreter {
                octave: types::Octave::at(types::Octave::number_below(self.octave.number())),
                octave_change: Some(types::Octave::at(types::Octave::number_below(base.number()))),
                position: self.position,
                beat: self.beat,
            },
        }
    }

    /// The event for `value` with the given methods, and the state after it:
    /// the event starts at the current offset, takes up the octave change
    /// that waits, and lasts one beat changed by its methods; the offset
    /// moves on by that duration.
    pub open spec fn after_value(self, value: Audible, methods: Seq<ast::EventMethod>) -> Result<
        (Arranged, AtomInterpreter),
        Failure,
    > {
        match methods_applied(Ratio::of(1, 1), methods) {
            None => Err(Failure::OutOfRange),
            Some(duration) => match self.position.spec_checked_add(duration) {
                None => Err(Failure::OutOfRange),
                Some(next) => Ok(
                    (
                        single(
                            IntermediateEvent {
                                value,
                                duration,
                                octave: self.octave_change,
                                beat_position: self.position,
                                beat: self.beat,
                            },
                        ),
                        AtomInterpreter {
                            octave: self.octave,
                            octave_change: None,
                            position: next,
                            beat: self.beat,
                        },
                    ),
                ),
            },
        }
    }

    /// What lowering `atom` in this state gives: the event it stands for, if
    /// any, and the state after it.
    pub open spec fn after_atom(self, atom: ast::PatternAtom) -> Result<
        (Option<Arranged>, AtomInterpreter),
        Failure,
    > {
        match atom.value {
            ast::PatternAtomValue::Octave(octave) => Ok((None, self.after_octave(octave))),
            ast::PatternAtomValue::Tie => with_event(self.after_value(Audible::Tie, atom.methods@)),
            ast::PatternAtomValue::Note(note) => match note_degree(note) {
                Some(degree) => with_event(
                    self.after_value(Audible::Degree(degree), atom.methods@),
                ),
                None => Err(Failure::OutOfRange),
            },
            ast::PatternAtomValue::Pause => with_event(
                self.after_value(Audible::Pause, atom.methods@),
            ),
            ast::PatternAtomValue::PatternInlet(_) => Err(Failure::Unsupported),
            ast::PatternAtomValue::Interpolation => Err(Failure::Unsupported),
        }
    }

    /// Lowers one atom. An octave atom gives no event; a note, a tie and a
    /// pause give one each. Inlets and interpolations are refused.
    pub fn interpret(&mut self, atom: &ast::PatternAtom) -> (r: InterpreterResult<
        Option<ArrangedIntermediates>,
    >)
        ensures
            match r {
                Ok(out) => old(self).after_atom(*atom) matches Ok((event, state)) && state == *final(self) && match out {
                    Some(a) => event == Some(a@),
                    None => event.is_none(),
                },
                Err(e) => old(self).after_atom(*atom) matches Err(f) && reports(f, e),
            },
    {
        match &atom.value {
            ast::PatternAtomValue::Octave(octave) => {
                self.interpret_octave_change(*octave);
                Ok(None)
            },
            ast::PatternAtomValue::Tie => {
                match self.next_intermediate(Audible::Tie, &atom.methods) {
                    Ok(a) => Ok(Some(a)),
                    Err(e) => Err(e),
                }
            },
            ast::PatternAtomValue::Note(note) => {
                match AtomInterpreter::interpret_note(note) {
                    Some(degree) => match self.next_intermediate(
                        Audible::Degree(degree),
                        &atom.methods,
                    ) {
                        Ok(a) => Ok(Some(a)),
                        Err(e) => Err(e),
                    },
                    None => Err(error_for(&Failure::OutOfRange)),
                }
            },
            ast::PatternAtomValue::Pause => {
                match self.next_intermediate(Audible::Pause, &atom.methods) {
                    Ok(a) => Ok(Some(a)),
                    Err(e) => Err(e),
                }
            },
            ast::PatternAtomValue::PatternInlet(_) => Err(error_for(&Failure::Unsupported)),
            ast::PatternAtomValue::Interpolation => Err(error_for(&Failure::Unsupported)),
        }
    }

    /// Moves the octave register, and the change that waits for the next
    /// event, one octave up or down.
    pub fn interpret_octave_change(&mut self, octave: ast::Octave)
        ensures
            *final(self) == old(self).after_octave(octave),
    {
        let mut octave_change = match self.octave_change {
            Some(change) => change,
            None => self.octave,
        };
        match octave {
            ast::Octave::Up => {
                octave_change.up();
                self.octave.up();
            },
            ast::Octave::Down => {
                octave_change.down();
                self.octave.down();
            },
        }
        self.octave_change = Some(octave_change);
    }

    /// The event for `value`, at the current offset; the offset moves on by
    /// its duration.
    pub fn next_intermediate(&mut self, value: Audible, methods: &Vec<ast::EventMethod>) -> (r:
        InterpreterResult<ArrangedIntermediates>)
        ensures
            match r {
                Ok(a) => old(self).after_value(value, methods@) == Ok::<_, Failure>(
                    (a@, *final(self)),
                ),
                Err(e) => old(self).after_value(value, methods@) matches Err(f) && reports(f, e)
                    && *final(self) == *old(self),
            },
    {
        let duration = match AtomInterpreter::interpret_methods(Ratio::one(), methods) {
            Some(d) => d,
            None => {
                return Err(error_for(&Failure::OutOfRange));
            },
        };
        let next = match self.position.checked_add(&duration) {
            Some(p) => p,
            None => {
                return Err(error_for(&Failure::OutOfRange));
            },
        };
        let intermediate = IntermediateEvent {
            value,
            duration,
            octave: self.octave_change,
            beat_position: self.position,
            beat: self.beat,
        };
        self.octave_change = None;
        self.position = next;
        Ok(ArrangedIntermediates::from(intermediate))
    }

    /// The degree that `note` names.
    pub fn interpret_note(note: &ast::Note) -> (r: Option<types::Degree>)
        ensures
            r == note_degree(*note),
    {
        match AtomInterpreter::interpret_alteration(&note.alteration) {
            Some(alteration) => Some(types::Degree { value: note.pitch, alteration }),
            None => None,
        }
    }

    /// The sum of the alterations; `None` exactly when it does not fit.
    pub fn interpret_alteration(alterations: &Vec<ast::Alteration>) -> (r: Option<i64>)
        ensures
            r == (if i64::MIN <= alteration_sum(alterations@) <= i64::MAX {
                Some(alteration_sum(alterations@) as i64)
            } else {
                None
            }),
    {
        let mut sum: i128 = 0;
        let mut i: usize = 0;
        while i < alterations.len()
            invariant
                i <= alterations@.len(),
                sum == alteration_sum(alterations@.take(i as int)),
                -i <= sum <= i,
            decreases alterations@.len() - i,
        {
            proof {
                assert(alterations@.take(i + 1).drop_last() =~= alterations@.take(i as int));
            }
            match alterations[i] {
                ast::Alteration::Up => {
                    sum = sum + 1;
                },
                ast::Alteration::Down => {
                    sum = sum - 1;
                },
            }
            i += 1;
        }
        proof {
            assert(alterations@.take(alterations@.len() as int) =~= alterations@);
        }
        if sum < i64::MIN as i128 || sum > i64::MAX as i128 {
            None
        } else {
            Some(sum as i64)
        }
    }

    /// `source` changed by each method from left to right: `*` doubles,
    /// `:` halves, `.` makes one and a half of it.
    pub fn interpret_methods(source: Ratio, methods: &Vec<ast::EventMethod>) -> (r: Option<Ratio>)
        ensures
            r == methods_applied(source, methods@),
            r matches Some(d) ==> d.value() == source.value() * methods_factor(methods@),
    {
        let two = Ratio::from_integer(2);
        let three_halves = three_halves();
        let mut duration = source;
        let mut i: usize = 0;
        proof {
            use_type_invariant(&source);
        }
        while i < methods.len()
            invariant
                i <= methods@.len(),
                two == Ratio::of(2, 1),
                three_halves == Ratio::of(3, 2),
                methods_applied(source, methods@.take(i as int)) == Some(duration),
            decreases methods@.len() - i,
        {
            proof {
                assert(methods@.take(i + 1).drop_last() =~= methods@.take(i as int));
            }
            let changed = match methods[i] {
                ast::EventMethod::Multiply => duration.checked_mul(&two),
                ast::EventMethod::Divide => duration.checked_div(&two),
                ast::EventMethod::Dot => duration.checked_mul(&three_halves),
            };
            match changed {
                Some(d) => {
                    duration = d;
                },
                None => {
                    proof {
                        lemma_methods_applied_fails(source, methods@, i + 1);
                    }
                    return None;
                },
            }
            i += 1;
        }
        proof {
            assert(methods@.take(methods@.len() as int) =~= methods@);
            lemma_methods_applied(source, methods@);
        }
        Some(duration)
    }
}

/// Once a method has taken the duration out of range, it stays out of range
/// whatever follows.
pub proof fn lemma_methods_applied_fails(source: Ratio, methods: Seq<ast::EventMethod>, n: int)
    requires
        0 <= n <= methods.len(),
        methods_applied(source, methods.take(n)).is_none(),
    ensures
        methods_applied(source, methods).is_none(),
    decreases methods.len() - n,
{
    if n < methods.len() {
        assert(methods.take(n + 1).drop_last() =~= methods.take(n));
        lemma_methods_applied_fails(source, methods, n + 1);
    } else {
        assert(methods.take(n) =~= methods);
    }
}

/// The fraction three over two.
fn three_halves() -> (r: Ratio)
    ensures
        r == Ratio::of(3, 2),
{
    proof {
        reveal_with_fuel(gcd, 4);
        assert(gcd(3, 2) == 1);
    }
    match Ratio::new(3, 2) {
        Some(r) => r,
        None => Ratio::one(),
    }
}

/// The event of a result, marked as present.
pub open spec fn with_event(r: Result<(Arranged, AtomInterpreter), Failure>) -> Result<
    (Option<Arranged>, AtomInterpreter),
    Failure,
> {
    match r {
        Ok((a, state)) => Ok((Some(a), state)),
        Err(f) => Err(f),
    }
}

/// What lowering the first `n` atoms of a group gives, starting in `start`:
/// the events in order, and the state after the last of them.
pub open spec fn group_lowered(atoms: Seq<ast::PatternAtom>, n: int, start: AtomInterpreter) -> Result<
    (Seq<Arranged>, AtomInterpreter),
    Failure,
>
    decreases n,
{
    if n <= 0 {
        Ok((Seq::empty(), start))
    } else {
        match group_lowered(atoms, n - 1, start) {
            Err(f) => Err(f),
            Ok((out, state)) => match state.after_atom(atoms[n - 1]) {
                Err(f) => Err(f),
                Ok((None, next)) => Ok((out, next)),
                Ok((Some(a), next)) => Ok((out.push(a), next)),
            },
        }
    }
}

/// The sum of the durations of the first `n` slots; `None` where it is out
/// of range.
pub open spec fn total_duration(group: Seq<Arranged>, n: int) -> Option<Ratio>
    decreases n,
{
    if n <= 0 {
        Some(Ratio::of(0, 1))
    } else {
        match total_duration(group, n - 1) {
            Some(total) => total.spec_checked_add(group[n - 1].duration),
            None => None,
        }
    }
}

/// `event` with its duration and its offset divided by `divisor`.
pub open spec fn event_scaled(event: IntermediateEvent, divisor: Ratio) -> Option<
    IntermediateEvent,
> {
    match (
        event.duration.spec_checked_div(divisor),
        event.beat_position.spec_checked_div(divisor),
    ) {
        (Some(duration), Some(beat_position)) => Some(
            IntermediateEvent {
                value: event.value,
                octave: event.octave,
                duration,
                beat_position,
                beat: event.beat,
            },
        ),
        _ => None,
    }
}

/// The first `n` events, each with duration and offset divided by `divisor`.
pub open spec fn values_scaled(values: Seq<IntermediateEvent>, n: int, divisor: Ratio) -> Option<
    Seq<IntermediateEvent>,
>
    decreases n,
{
    if n <= 0 {
        Some(Seq::empty())
    } else {
        match (values_scaled(values, n - 1, divisor), event_scaled(values[n - 1], divisor)) {
            (Some(out), Some(e)) => Some(out.push(e)),
            _ => None,
        }
    }
}

/// A slot with the durations and offsets of its events, and its own, divided
/// by `divisor`.
pub open spec fn arranged_scaled(arranged: Arranged, divisor: Ratio) -> Option<Arranged> {
    match (
        values_scaled(arranged.values, arranged.values.len() as int, divisor),
        arranged.duration.spec_checked_div(divisor),
        arranged.beat_position.spec_checked_div(divisor),
    ) {
        (Some(values), Some(duration), Some(beat_position)) => Some(
            Arranged { values, duration, beat: arranged.beat, beat_position },
        ),
        _ => None,
    }
}

/// The first `n` slots, each divided by `divisor`.
pub open spec fn group_scaled(group: Seq<Arranged>, n: int, divisor: Ratio) -> Option<Seq<Arranged>>
    decreases n,
{
    if n <= 0 {
        Some(Seq::empty())
    } else {
        match (group_scaled(group, n - 1, divisor), arranged_scaled(group[n - 1], divisor)) {
            (Some(out), Some(a)) => Some(out.push(a)),
            _ => None,
        }
    }
}

/// The divisor that brings a beat to length one: the sum of the durations
/// of its slots, times the number of beats of the construct around it if
/// that is given.
pub open spec fn beat_divisor(group: Seq<Arranged>, multiplier: usize) -> Option<Ratio> {
    match total_duration(group, group.len() as int) {
        None => None,
        Some(total) => total.spec_checked_mul(Ratio::of(multiplier as nat, 1)),
    }
}

/// The slots of a beat with every duration and offset divided by the beat's
/// divisor.
pub open spec fn normalized(group: Seq<Arranged>, multiplier: usize) -> Option<Seq<Arranged>> {
    match beat_divisor(group, multiplier) {
        None => None,
        Some(divisor) => group_scaled(group, group.len() as int, divisor),
    }
}

/// The events of the first `n` slots, in order.
pub open spec fn flattened(arranged: Seq<Arranged>, n: int) -> Seq<IntermediateEvent>
    decreases n,
{
    if n <= 0 {
        Seq::empty()
    } else {
        flattened(arranged, n - 1) + arranged[n - 1].values
    }
}

/// The first `n` events laid end to end from `position` on, in beat `beat`,
/// each with its duration times `modifier`: one slot for each, and the
/// offset behind the last.
pub open spec fn spread(
    values: Seq<IntermediateEvent>,
    n: int,
    modifier: Ratio,
    beat: u64,
    position: Ratio,
) -> Option<(Seq<Arranged>, Ratio)>
    decreases n,
{
    if n <= 0 {
        Some((Seq::empty(), position))
    } else {
        match spread(values, n - 1, modifier, beat, position) {
            None => None,
            Some((out, at)) => match values[n - 1].duration.spec_checked_mul(modifier) {
                None => None,
                Some(duration) => match at.spec_checked_add(duration) {
                    None => None,
                    Some(next) => Some(
                        (
                            out.push(
                                single(
                                    IntermediateEvent {
                                        value: values[n - 1].value,
                                        octave: values[n - 1].octave,
                                        duration,
                                        beat_position: at,
                                        beat,
                                    },
                                ),
                            ),
                            next,
                        ),
                    ),
                },
            },
        }
    }
}

/// The first `n` events as the voices of a chord at `position` in beat
/// `beat`: each with its duration times `modifier` and its offset moved by
/// `position`.
pub open spec fn stacked(
    values: Seq<IntermediateEvent>,
    n: int,
    modifier: Ratio,
    beat: u64,
    position: Ratio,
) -> Option<Seq<IntermediateEvent>>
    decreases n,
{
    if n <= 0 {
        Some(Seq::empty())
    } else {
        match (
            stacked(values, n - 1, modifier, beat, position),
            values[n - 1].duration.spec_checked_mul(modifier),
            values[n - 1].beat_position.spec_checked_add(position),
        ) {
            (Some(out), Some(duration), Some(beat_position)) => Some(
                out.push(
                    IntermediateEvent {
                        value: values[n - 1].value,
                        octave: values[n - 1].octave,
                        duration,
                        beat_position,
                        beat,
                    },
                ),
            ),
            _ => None,
        }
    }
}

/// What lowering one event of a beat gives: its slots, the octave register
/// after it and the offset behind it.
///
/// A group gives one slot for each note, tie and pause. A parenthesised
/// event lowers its inner beats, each to the length of one over their
/// number, and lays the events end to end. A chord lowers each inner beat to
/// length one and stacks the events in one slot that lasts one beat. The
/// methods behind a parenthesised event or a chord change every duration in
/// it.
pub open spec fn event_lowered(
    event: ast::Event,
    beat: u64,
    octave: types::Octave,
    position: Ratio,
) -> Result<(Seq<Arranged>, types::Octave, Ratio), Failure>
    decreases event, 0nat,
{
    match event {
        ast::Event::Group(atoms) => match group_lowered(
            atoms@,
            atoms@.len() as int,
            AtomInterpreter { octave, octave_change: None, position, beat },
        ) {
            Ok((out, state)) => Ok((out, state.octave, state.position)),
            Err(f) => Err(f),
        },
        ast::Event::ParenthesisedEvent(inner) => parenthesised_lowered(inner, beat, octave, position),
        ast::Event::Chord(chord) => chord_lowered(chord, beat, octave, position),
    }
}

/// What lowering a parenthesised event gives: its inner beats are lowered,
/// each to the length of one over their number, and their events are laid
/// end to end from `position` on, one slot each, every duration changed by
/// the methods behind the closing bracket.
pub open spec fn parenthesised_lowered(
    inner: ast::ParenthesisedEvent,
    beat: u64,
    octave: types::Octave,
    position: Ratio,
) -> Result<(Seq<Arranged>, types::Octave, Ratio), Failure>
    decreases inner, 0nat,
{
    match beats_lowered(inner.inner@, inner.inner@.len() as int, octave, inner.inner@.len() as usize) {
        Err(f) => Err(f),
        Ok((arranged, register)) => match methods_applied(Ratio::of(1, 1), inner.methods@) {
            None => Err(Failure::OutOfRange),
            Some(modifier) => {
                let values = flattened(arranged, arranged.len() as int);
                match spread(values, values.len() as int, modifier, beat, position) {
                    None => Err(Failure::OutOfRange),
                    Some((out, next)) => Ok((out, register, next)),
                }
            },
        },
    }
}

/// What lowering a chord gives: each inner beat is lowered to length one,
/// and the events are stacked in one slot at `position` that lasts one
/// beat, changed by the methods behind the closing bracket.
pub open spec fn chord_lowered(
    chord: ast::Chord,
    beat: u64,
    octave: types::Octave,
    position: Ratio,
) -> Result<(Seq<Arranged>, types::Octave, Ratio), Failure>
    decreases chord, 0nat,
{
    match beats_lowered(chord.inner@, chord.inner@.len() as int, octave, 1) {
        Err(f) => Err(f),
        Ok((arranged, register)) => match methods_applied(Ratio::of(1, 1), chord.methods@) {
            None => Err(Failure::OutOfRange),
            Some(modifier) => {
                let values = flattened(arranged, arranged.len() as int);
                match (
                    stacked(values, values.len() as int, modifier, beat, position),
                    position.spec_checked_add(modifier),
                ) {
                    (Some(voices), Some(next)) => Ok(
                        (
                            seq![
                                Arranged {
                                    values: voices,
                                    duration: modifier,
                                    beat,
                                    beat_position: position,
                                },
                            ],
                            register,
                            next,
                        ),
                    ),
                    _ => Err(Failure::OutOfRange),
                }
            },
        },
    }
}

/// What lowering the first `n` events of a beat gives, one after the other.
pub open spec fn events_lowered(
    events: Seq<ast::Event>,
    n: int,
    beat: u64,
    octave: types::Octave,
    position: Ratio,
) -> Result<(Seq<Arranged>, types::Octave, Ratio), Failure>
    decreases events, n,
{
    if n <= 0 || n > events.len() {
        Ok((Seq::empty(), octave, position))
    } else {
        match events_lowered(events, n - 1, beat, octave, position) {
            Err(f) => Err(f),
            Ok((out, register, at)) => match event_lowered(events[n - 1], beat, register, at) {
                Err(f) => Err(f),
                Ok((more, register2, next)) => Ok((out + more, register2, next)),
            },
        }
    }
}

/// What lowering one beat gives: the slots of its events, brought to the
/// length of one beat, or of one over `multiplier` beats.
pub open spec fn beat_lowered(
    beat_event: ast::BeatEvent,
    beat: u64,
    octave: types::Octave,
    multiplier: usize,
) -> Result<(Seq<Arranged>, types::Octave), Failure>
    decreases beat_event, 0nat,
{
    match events_lowered(
        beat_event.0@,
        beat_event.0@.len() as int,
        beat,
        octave,
        Ratio::of(0, 1),
    ) {
        Err(f) => Err(f),
        Ok((out, register, _)) => match normalized(out, multiplier) {
            None => Err(Failure::OutOfRange),
            Some(slots) => Ok((slots, register)),
        },
    }
}

/// What lowering the first `n` beats gives; the beats are numbered from
/// zero.
pub open spec fn beats_lowered(
    beats: Seq<ast::BeatEvent>,
    n: int,
    octave: types::Octave,
    multiplier: usize,
) -> Result<(Seq<Arranged>, types::Octave), Failure>
    decreases beats, n,
{
    if n <= 0 || n > beats.len() {
        Ok((Seq::empty(), octave))
    } else {
        match beats_lowered(beats, n - 1, octave, multiplier) {
            Err(f) => Err(f),
            Ok((out, register)) => match beat_lowered(
                beats[n - 1],
                (n - 1) as u64,
                register,
                multiplier,
            ) {
                Err(f) => Err(f),
                Ok((more, register2)) => Ok((out + more, register2)),
            },
        }
    }
}

/// Lowers the atoms of a group one after the other.
pub fn lower_group(
    atoms: &Vec<ast::PatternAtom>,
    beat: u64,
    octave: types::Octave,
    position: Ratio,
) -> (r: InterpreterResult<(Vec<ArrangedIntermediates>, types::Octave, Ratio)>)
    ensures
        match r {
            Ok((out, register, next)) => group_lowered(
                atoms@,
                atoms@.len() as int,
                AtomInterpreter { octave, octave_change: None, position, beat },
            ) matches Ok((slots, state)) && slots == views(out@) && state.octave == register
                && state.position == next,
            Err(e) => group_lowered(
                atoms@,
                atoms@.len() as int,
                AtomInterpreter { octave, octave_change: None, position, beat },
            ) matches Err(f) && reports(f, e),
        },
{
    let mut interpreter = AtomInterpreter::new(octave, beat, position);
    let ghost start = interpreter;
    let mut output: Vec<ArrangedIntermediates> = Vec::new();
    let mut failure: Option<InterpreterError> = None;
    let mut i: usize = 0;
    proof {
        assert(views(output@) =~= Seq::<Arranged>::empty());
    }
    while i < atoms.len()
        invariant
            i <= atoms@.len(),
            match failure {
                None => group_lowered(atoms@, i as int, start) matches Ok((slots, state)) && slots
                    == views(output@) && state == interpreter,
                Some(e) => group_lowered(atoms@, i as int, start) matches Err(f) && reports(f, e),
            },
        decreases atoms@.len() - i,
    {
        if failure.is_none() {
            match interpreter.interpret(&atoms[i]) {
                Ok(Some(a)) => {
                    proof {
                        assert(views(output@.push(a)) =~= views(output@).push(a@));
                    }
                    output.push(a);
                },
                Ok(None) => {},
                Err(e) => {
                    failure = Some(e);
                },
            }
        }
        i += 1;
    }
    match failure {
        Some(e) => Err(e),
        None => Ok((output, interpreter.octave, interpreter.position)),
    }
}

/// The sum of the durations of the slots.
fn sum_durations(group: &Vec<ArrangedIntermediates>) -> (r: Option<Ratio>)
    ensures
        r == total_duration(views(group@), group@.len() as int),
        laws::sound(views(group@)),
{
    let mut total: Option<Ratio> = Some(Ratio::zero());
    let mut i: usize = 0;
    while i < group.len()
        invariant
            i <= group@.len(),
            total == total_duration(views(group@), i as int),
            forall|k: int| 0 <= k < i ==> (#[trigger] views(group@)[k]).duration.wf(),
        decreases group@.len() - i,
    {
        let duration = &group[i].duration;
        proof {
            use_type_invariant(duration);
        }
        total = match total {
            Some(t) => t.checked_add(&group[i].duration),
            None => None,
        };
        i += 1;
    }
    total
}

/// The events with duration and offset divided by `divisor`.
fn scale_values(values: &Vec<IntermediateEvent>, divisor: &Ratio) -> (r: Option<
    Vec<IntermediateEvent>,
>)
    ensures
        match r {
            Some(out) => values_scaled(values@, values@.len() as int, *divisor) == Some(out@),
            None => values_scaled(values@, values@.len() as int, *divisor).is_none(),
        },
{
    let mut out: Option<Vec<IntermediateEvent>> = Some(Vec::new());
    let mut i: usize = 0;
    while i < values.len()
        invariant
            i <= values@.len(),
            match out {
                Some(v) => values_scaled(values@, i as int, *divisor) == Some(v@),
                None => values_scaled(values@, i as int, *divisor).is_none(),
            },
        decreases values@.len() - i,
    {
        out = match out {
            None => None,
            Some(mut v) => {
                let e = &values[i];
                match (e.duration.checked_div(divisor), e.beat_position.checked_div(divisor)) {
                    (Some(duration), Some(beat_position)) => {
                        v.push(
                            IntermediateEvent {
                                value: e.value.clone(),
                                octave: e.octave,
                                duration,
                                beat_position,
                                beat: e.beat,
                            },
                        );
                        Some(v)
                    },
                    _ => None,
                }
            },
        };
        i += 1;
    }
    out
}

/// The slots with every duration and offset divided by `divisor`.
fn scale_group(group: &Vec<ArrangedIntermediates>, divisor: &Ratio) -> (r: Option<
    Vec<ArrangedIntermediates>,
>)
    ensures
        match r {
            Some(out) => group_scaled(views(group@), group@.len() as int, *divisor) == Some(
                views(out@),
            ),
            None => group_scaled(views(group@), group@.len() as int, *divisor).is_none(),
        },
{
    let mut out: Option<Vec<ArrangedIntermediates>> = Some(Vec::new());
    let mut i: usize = 0;
    proof {
        assert(views(Seq::<ArrangedIntermediates>::empty()) =~= Seq::<Arranged>::empty());
    }
    while i < group.len()
        invariant
            i <= group@.len(),
            match out {
                Some(v) => group_scaled(views(group@), i as int, *divisor) == Some(views(v@)),
                None => group_scaled(views(group@), i as int, *divisor).is_none(),
            },
        decreases group@.len() - i,
    {
        out = match out {
            None => None,
            Some(mut v) => {
                let a = &group[i];
                match (
                    scale_values(&a.values, divisor),
                    a.duration.checked_div(divisor),
                    a.beat_position.checked_div(divisor),
                ) {
                    (Some(values), Some(duration), Some(beat_position)) => {
                        let scaled = ArrangedIntermediates {
                            values,
                            duration,
                            beat: a.beat,
                            beat_position,
                        };
                        proof {
                            assert(views(v@.push(scaled)) =~= views(v@).push(scaled@));
                        }
                        v.push(scaled);
                        Some(v)
                    },
                    _ => None,
                }
            },
        };
        i += 1;
    }
    out
}

/// The events of the slots, in order.
fn flatten(arranged: &Vec<ArrangedIntermediates>) -> (r: Vec<IntermediateEvent>)
    ensures
        r@ == flattened(views(arranged@), arranged@.len() as int),
{
    let mut out: Vec<IntermediateEvent> = Vec::new();
    let mut i: usize = 0;
    while i < arranged.len()
        invariant
            i <= arranged@.len(),
            out@ == flattened(views(arranged@), i as int),
        decreases arranged@.len() - i,
    {
        let values = &arranged[i].values;
        let ghost before = out@;
        let mut j: usize = 0;
        while j < values.len()
            invariant
                j <= values@.len(),
                out@ == before + values@.take(j as int),
            decreases values@.len() - j,
        {
            out.push(values[j].clone());
            j += 1;
            proof {
                assert(values@.take(j as int) =~= values@.take(j - 1).push(values@[j - 1]));
                assert(out@ =~= before + values@.take(j as int));
            }
        }
        proof {
            assert(values@.take(values@.len() as int) =~= values@);
        }
        i += 1;
    }
    out
}

/// The events laid end to end from `position` on, in beat `beat`, each with
/// its duration times `modifier`.
fn spread_values(values: &Vec<IntermediateEvent>, modifier: &Ratio, beat: u64, position: Ratio) -> (r:
    Option<(Vec<ArrangedIntermediates>, Ratio)>)
    ensures
        match r {
            Some((out, next)) => spread(values@, values@.len() as int, *modifier, beat, position)
                == Some((views(out@), next)),
            None => spread(values@, values@.len() as int, *modifier, beat, position).is_none(),
        },
{
    let mut out: Option<(Vec<ArrangedIntermediates>, Ratio)> = Some((Vec::new(), position));
    let mut i: usize = 0;
    proof {
        assert(views(Seq::<ArrangedIntermediates>::empty()) =~= Seq::<Arranged>::empty());
    }
    while i < values.len()
        invariant
            i <= values@.len(),
            match out {
                Some((v, at)) => spread(values@, i as int, *modifier, beat, position) == Some(
                    (views(v@), at),
                ),
                None => spread(values@, i as int, *modifier, beat, position).is_none(),
            },
        decreases values@.len() - i,
    {
        out = match out {
            None => None,
            Some((mut v, at)) => {
                let e = &values[i];
                match e.duration.checked_mul(modifier) {
                    None => None,
                    Some(duration) => match at.checked_add(&duration) {
                        None => None,
                        Some(next) => {
                            let slot = ArrangedIntermediates::from(
                                IntermediateEvent {
                                    value: e.value.clone(),
                                    octave: e.octave,
                                    duration,
                                    beat_position: at,
                                    beat,
                                },
                            );
                            proof {
                                assert(views(v@.push(slot)) =~= views(v@).push(slot@));
                            }
                            v.push(slot);
                            Some((v, next))
                        },
                    },
                }
            },
        };
        i += 1;
    }
    out
}

/// The events as the voices of a chord at `position` in beat `beat`.
fn stack_values(values: &Vec<IntermediateEvent>, modifier: &Ratio, beat: u64, position: &Ratio) -> (r:
    Option<Vec<IntermediateEvent>>)
    ensures
        match r {
            Some(out) => stacked(values@, values@.len() as int, *modifier, beat, *position)
                == Some(out@),
            None => stacked(values@, values@.len() as int, *modifier, beat, *position).is_none(),
        },
{
    let mut out: Option<Vec<IntermediateEvent>> = Some(Vec::new());
    let mut i: usize = 0;
    while i < values.len()
        invariant
            i <= values@.len(),
            match out {
                Some(v) => stacked(values@, i as int, *modifier, beat, *position) == Some(v@),
                None => stacked(values@, i as int, *modifier, beat, *position).is_none(),
            },
        decreases values@.len() - i,
    {
        out = match out {
            None => None,
            Some(mut v) => {
                let e = &values[i];
                match (e.duration.checked_mul(modifier), e.beat_position.checked_add(position)) {
                    (Some(duration), Some(beat_position)) => {
                        v.push(
                            IntermediateEvent {
                                value: e.value.clone(),
                                octave: e.octave,
                                duration,
                                beat_position,
                                beat,
                            },
                        );
                        Some(v)
                    },
                    _ => None,
                }
            },
        };
        i += 1;
    }
    out
}

/// Lowers one event of a beat: a group, a chord or a parenthesised event.
pub fn lower_event(event: &ast::Event, beat: u64, octave: types::Octave, position: Ratio) -> (r:
    InterpreterResult<(Vec<ArrangedIntermediates>, types::Octave, Ratio)>)
    ensures
        match r {
            Ok((out, register, next)) => event_lowered(*event, beat, octave, position) == Ok::<
                _,
                Failure,
            >((views(out@), register, next)),
            Err(e) => event_lowered(*event, beat, octave, position) matches Err(f) && reports(f, e),
        },
    decreases event, 0nat,
{
    match event {
        ast::Event::Group(atoms) => lower_group(atoms, beat, octave, position),
        ast::Event::ParenthesisedEvent(inner) => lower_parenthesised(inner, beat, octave, position),
        ast::Event::Chord(chord) => lower_chord(chord, beat, octave, position),
    }
}

/// Lowers a parenthesised event.
pub fn lower_parenthesised(
    inner: &ast::ParenthesisedEvent,
    beat: u64,
    octave: types::Octave,
    position: Ratio,
) -> (r: InterpreterResult<(Vec<ArrangedIntermediates>, types::Octave, Ratio)>)
    ensures
        match r {
            Ok((out, register, next)) => parenthesised_lowered(*inner, beat, octave, position)
                == Ok::<_, Failure>((views(out@), register, next)),
            Err(e) => parenthesised_lowered(*inner, beat, octave, position) matches Err(f)
                && reports(f, e),
        },
    decreases inner, 0nat,
{
    let (arranged, register) = match lower_beats(&inner.inner, octave, inner.inner.len()) {
        Ok(lowered) => lowered,
        Err(e) => {
            return Err(e);
        },
    };
    let modifier = match AtomInterpreter::interpret_methods(Ratio::one(), &inner.methods) {
        Some(m) => m,
        None => {
            return Err(error_for(&Failure::OutOfRange));
        },
    };
    let values = flatten(&arranged);
    match spread_values(&values, &modifier, beat, position) {
        Some((out, next)) => Ok((out, register, next)),
        None => Err(error_for(&Failure::OutOfRange)),
    }
}

/// Lowers a chord.
pub fn lower_chord(chord: &ast::Chord, beat: u64, octave: types::Octave, position: Ratio) -> (r:
    InterpreterResult<(Vec<ArrangedIntermediates>, types::Octave, Ratio)>)
    ensures
        match r {
            Ok((out, register, next)) => chord_lowered(*chord, beat, octave, position) == Ok::<
                _,
                Failure,
            >((views(out@), register, next)),
            Err(e) => chord_lowered(*chord, beat, octave, position) matches Err(f) && reports(f, e),
        },
    decreases chord, 0nat,
{
    let (arranged, register) = match lower_beats(&chord.inner, octave, 1) {
        Ok(lowered) => lowered,
        Err(e) => {
            return Err(e);
        },
    };
    let modifier = match AtomInterpreter::interpret_methods(Ratio::one(), &chord.methods) {
        Some(m) => m,
        None => {
            return Err(error_for(&Failure::OutOfRange));
        },
    };
    let values = flatten(&arranged);
    match (stack_values(&values, &modifier, beat, &position), position.checked_add(&modifier)) {
        (Some(voices), Some(next)) => {
            let slot = ArrangedIntermediates {
                values: voices,
                duration: modifier,
                beat,
                beat_position: position,
            };
            let mut out: Vec<ArrangedIntermediates> = Vec::new();
            out.push(slot);
            proof {
                assert(views(out@) =~= seq![slot@]);
            }
            Ok((out, register, next))
        },
        _ => Err(error_for(&Failure::OutOfRange)),
    }
}

/// Lowers the events of one beat, one after the other.
pub fn lower_events(
    events: &Vec<ast::Event>,
    beat: u64,
    octave: types::Octave,
    position: Ratio,
) -> (r: InterpreterResult<(Vec<ArrangedIntermediates>, types::Octave, Ratio)>)
    ensures
        match r {
            Ok((out, register, next)) => events_lowered(
                events@,
                events@.len() as int,
                beat,
                octave,
                position,
            ) == Ok::<_, Failure>((views(out@), register, next)),
            Err(e) => events_lowered(events@, events@.len() as int, beat, octave, position) matches Err(
                f,
            ) && reports(f, e),
        },
    decreases events, 0nat,
{
    let mut output: Vec<ArrangedIntermediates> = Vec::new();
    let mut register = octave;
    let mut at = position;
    let mut failure: Option<InterpreterError> = None;
    let mut i: usize = 0;
    proof {
        assert(views(output@) =~= Seq::<Arranged>::empty());
    }
    while i < events.len()
        invariant
            i <= events@.len(),
            match failure {
                None => events_lowered(events@, i as int, beat, octave, position) == Ok::<
                    _,
                    Failure,
                >((views(output@), register, at)),
                Some(e) => events_lowered(events@, i as int, beat, octave, position) matches Err(f)
                    && reports(f, e),
            },
        decreases events@.len() - i,
    {
        if failure.is_none() {
            match lower_event(&events[i], beat, register, at) {
                Ok((mut more, register2, next)) => {
                    proof {
                        assert(views(output@ + more@) =~= views(output@) + views(more@));
                    }
                    output.append(&mut more);
                    register = register2;
                    at = next;
                },
                Err(e) => {
                    failure = Some(e);
                },
            }
        }
        i += 1;
    }
    match failure {
        Some(e) => Err(e),
        None => Ok((output, register, at)),
    }
}

/// Lowers one beat and brings it to the length of one beat, or of one over
/// `multiplier` beats.
pub fn lower_beat(
    beat_event: &ast::BeatEvent,
    beat: u64,
    octave: types::Octave,
    multiplier: usize,
) -> (r: InterpreterResult<(Vec<ArrangedIntermediates>, types::Octave)>)
    ensures
        match r {
            Ok((out, register)) => beat_lowered(*beat_event, beat, octave, multiplier) == Ok::<
                _,
                Failure,
            >((views(out@), register)),
            Err(e) => beat_lowered(*beat_event, beat, octave, multiplier) matches Err(f) && reports(
                f,
                e,
            ),
        },
        r matches Ok((out, _)) ==> (out@.len() > 0 ==> laws::duration_sum(
            views(out@),
            out@.len() as int,
        ) * (multiplier as real) == 1 as real),
        r matches Ok((out, _)) ==> laws::offsets_within(views(out@), multiplier),
    decreases beat_event, 0nat,
{
    proof {
        laws::lemma_beat_offsets(*beat_event, beat, octave, multiplier);
    }
    match lower_events(&beat_event.0, beat, octave, Ratio::zero()) {
        Err(e) => Err(e),
        Ok((output, register, _)) => match normalize(&output, multiplier) {
            Some(slots) => Ok((slots, register)),
            None => Err(error_for(&Failure::OutOfRange)),
        },
    }
}

/// Divides every duration and offset of a beat by the beat's divisor. A
/// beat that holds anything then lasts one beat, or one over `multiplier`
/// beats.
pub fn normalize(group: &Vec<ArrangedIntermediates>, multiplier: usize) -> (r: Option<
    Vec<ArrangedIntermediates>,
>)
    ensures
        match r {
            Some(out) => normalized(views(group@), multiplier) == Some(views(out@)),
            None => normalized(views(group@), multiplier).is_none(),
        },
        r matches Some(out) ==> (out@.len() > 0 ==> laws::duration_sum(
            views(out@),
            out@.len() as int,
        ) * (multiplier as real) == 1 as real),
{
    let summed = sum_durations(group);
    proof {
        if group@.len() > 0 {
            laws::lemma_beat_is_whole(views(group@), multiplier);
        }
    }
    let total = match summed {
        Some(t) => t,
        None => {
            return None;
        },
    };
    let divisor = match total.checked_mul(&Ratio::from_integer(multiplier as u64)) {
        Some(d) => d,
        None => {
            return None;
        },
    };
    let out = scale_group(group, &divisor);
    proof {
        if group@.len() == 0 {
            assert(group_scaled(views(group@), 0, divisor) == Some(Seq::<Arranged>::empty()));
        }
        if out.is_some() {
            assert(views(out.unwrap()@).len() == out.unwrap()@.len());
        }
    }
    out
}

/// Lowers beats one after the other; the beats are numbered from zero.
pub fn lower_beats(beats: &Vec<ast::BeatEvent>, octave: types::Octave, multiplier: usize) -> (r:
    InterpreterResult<(Vec<ArrangedIntermediates>, types::Octave)>)
    ensures
        match r {
            Ok((out, register)) => beats_lowered(beats@, beats@.len() as int, octave, multiplier)
                == Ok::<_, Failure>((views(out@), register)),
            Err(e) => beats_lowered(beats@, beats@.len() as int, octave, multiplier) matches Err(f)
                && reports(f, e),
        },
    decreases beats, 0nat,
{
    let mut output: Vec<ArrangedIntermediates> = Vec::new();
    let mut register = octave;
    let mut failure: Option<InterpreterError> = None;
    let mut i: usize = 0;
    proof {
        assert(views(output@) =~= Seq::<Arranged>::empty());
    }
    while i < beats.len()
        invariant
            i <= beats@.len(),
            match failure {
                None => beats_lowered(beats@, i as int, octave, multiplier) == Ok::<_, Failure>(
                    (views(output@), register),
                ),
                Some(e) => beats_lowered(beats@, i as int, octave, multiplier) matches Err(f)
                    && reports(f, e),
            },
        decreases beats@.len() - i,
    {
        if failure.is_none() {
            match lower_beat(&beats[i], i as u64, register, multiplier) {
                Ok((mut more, register2)) => {
                    proof {
                        assert(views(output@ + more@) =~= views(output@) + views(more@));
                    }
                    output.append(&mut more);
                    register = register2;
                },
                Err(e) => {
                    failure = Some(e);
                },
            }
        }
        i += 1;
    }
    match failure {
        Some(e) => Err(e),
        None => Ok((output, register)),
    }
}

/// Whether one of the events is a tie.
pub open spec fn has_tie(values: Seq<IntermediateEvent>) -> bool {
    exists|i: int| 0 <= i < values.len() && (#[trigger] values[i]).value == Audible::Tie
}

/// What tie handling has built so far: the events that stay, and for each
/// voice of the slot handled last the index of the event that a tie in that
/// voice prolongs.
pub struct Voices {
    pub result: Seq<IntermediateEvent>,
    pub previous: Seq<int>,
}

impl Voices {
    /// Every voice points at an event that is there.
    pub open spec fn wf(self) -> bool {
        forall|i: int| 0 <= i < self.previous.len() ==> 0 <= (#[trigger] self.previous[i])
            < self.result.len()
    }
}

/// The numbers from zero up to, not including, `n`.
pub open spec fn iota(n: nat) -> Seq<int> {
    Seq::new(n, |i: int| i)
}

/// `result` with the event at `index` made longer by `by`; `None` where the
/// duration is out of range.
pub open spec fn prolonged(result: Seq<IntermediateEvent>, index: int, by: Ratio) -> Option<
    Seq<IntermediateEvent>,
> {
    match result[index].duration.spec_checked_add(by) {
        Some(duration) => Some(
            result.update(
                index,
                IntermediateEvent {
                    value: result[index].value,
                    octave: result[index].octave,
                    duration,
                    beat_position: result[index].beat_position,
                    beat: result[index].beat,
                },
            ),
        ),
        None => None,
    }
}

/// The first `n` voices of `start` met with the voices `current` of the
/// next slot, voice `k` with `current[k % |current|]`. A tie makes the
/// voice's event longer and the voice stays with it. Another event is
/// added and the voice moves to it; where `current` has fewer voices than
/// `k + 1`, the voice ends.
pub open spec fn aligned(start: Voices, current: Seq<IntermediateEvent>, n: int) -> Option<Voices>
    decreases n,
{
    if n <= 0 {
        Some(Voices { result: start.result, previous: Seq::empty() })
    } else {
        match aligned(start, current, n - 1) {
            None => None,
            Some(v) => {
                let event = current[(n - 1) % (current.len() as int)];
                let index = start.previous[n - 1];
                if event.value == Audible::Tie {
                    match prolonged(v.result, index, event.duration) {
                        Some(result) => Some(Voices { result, previous: v.previous.push(index) }),
                        None => None,
                    }
                } else if current.len() > n - 1 {
                    Some(
                        Voices {
                            result: v.result.push(event),
                            previous: v.previous.push(v.result.len() as int),
                        },
                    )
                } else {
                    Some(v)
                }
            },
        }
    }
}

/// The first `n` events of `next` added as voices of their own. A tie among
/// them has nothing to prolong.
pub open spec fn appended(v: Voices, next: Seq<IntermediateEvent>, n: int, beat: u64) -> Result<
    Voices,
    Failure,
>
    decreases n,
{
    if n <= 0 {
        Ok(v)
    } else {
        match appended(v, next, n - 1, beat) {
            Err(f) => Err(f),
            Ok(w) => if next[n - 1].value == Audible::Tie {
                Err(Failure::LonelyTie(beat))
            } else {
                Ok(
                    Voices {
                        result: w.result.push(next[n - 1]),
                        previous: w.previous.push(w.result.len() as int),
                    },
                )
            },
        }
    }
}

/// The smaller of two numbers.
pub open spec fn min_of(a: int, b: int) -> int {
    if a <= b {
        a
    } else {
        b
    }
}

/// One slot taken in: its voices are met with the voices before, as many as
/// there are of both, and the voices beyond those are added.
pub open spec fn slot_taken(v: Voices, slot: Arranged) -> Result<Voices, Failure> {
    let mid = min_of(v.previous.len() as int, slot.values.len() as int);
    if v.previous.len() > 0 && slot.values.len() == 0 {
        Err(Failure::NoVoices)
    } else {
        match aligned(v, slot.values.take(mid), v.previous.len() as int) {
            None => Err(Failure::OutOfRange),
            Some(w) => appended(w, slot.values.skip(mid), slot.values.len() - mid, slot.beat),
        }
    }
}

/// The first `n` slots taken in, one after the other; the first slot gives
/// the first voices.
pub open spec fn slots_taken(arranged: Seq<Arranged>, n: int) -> Result<Voices, Failure>
    decreases n,
{
    if n <= 1 {
        Ok(Voices { result: arranged[0].values, previous: iota(arranged[0].values.len()) })
    } else {
        match slots_taken(arranged, n - 1) {
            Err(f) => Err(f),
            Ok(v) => slot_taken(v, arranged[n - 1]),
        }
    }
}

/// The events that are left when every tie has prolonged the event before
/// it in its voice. A tie in the first slot, or in a voice that the slot
/// before does not have, is lonely.
pub open spec fn ties_resolved(arranged: Seq<Arranged>) -> Result<Seq<IntermediateEvent>, Failure> {
    if arranged.len() == 0 {
        Ok(Seq::empty())
    } else if has_tie(arranged[0].values) {
        Err(Failure::LonelyTie(arranged[0].beat))
    } else {
        match slots_taken(arranged, arranged.len() as int) {
            Err(f) => Err(f),
            Ok(v) => Ok(v.result),
        }
    }
}

/// The indices as mathematical integers.
pub open spec fn indices(v: Seq<usize>) -> Seq<int> {
    Seq::new(v.len(), |i: int| v[i] as int)
}

/// Folds ties into the events before them, voice by voice.
#[derive(Debug)]
pub struct TieInterpreter {
    pub result: Vec<IntermediateEvent>,
    pub previous_indices: Vec<usize>,
    pub intermediates: Vec<ArrangedIntermediates>,
}

impl TieInterpreter {
    /// The events built so far and the voices of the slot handled last.
    pub open spec fn voices(self) -> Voices {
        Voices { result: self.result@, previous: indices(self.previous_indices@) }
    }

    pub fn new(intermediates: Vec<ArrangedIntermediates>) -> (r: Self)
        ensures
            r.intermediates == intermediates,
            r.result@.len() == 0,
            r.previous_indices@.len() == 0,
    {
        TieInterpreter { intermediates, result: Vec::new(), previous_indices: Vec::new() }
    }

    /// Resolves the ties of the slots.
    pub fn run(self) -> (r: InterpreterResult<Vec<IntermediateEvent>>)
        ensures
            match r {
                Ok(out) => ties_resolved(views(self.intermediates@)) == Ok::<_, Failure>(out@),
                Err(e) => ties_resolved(views(self.intermediates@)) matches Err(f) && reports(f, e),
            },
            r matches Ok(out) ==> !has_tie(out@),
    {
        let mut this = self;
        this.resolve()
    }

    /// Resolves the ties of the slots that this interpreter holds.
    pub fn resolve(&mut self) -> (r: InterpreterResult<Vec<IntermediateEvent>>)
        ensures
            match r {
                Ok(out) => ties_resolved(views(old(self).intermediates@)) == Ok::<_, Failure>(out@),
                Err(e) => ties_resolved(views(old(self).intermediates@)) matches Err(f) && reports(
                    f,
                    e,
                ),
            },
            r matches Ok(out) ==> !has_tie(out@),
    {
        if self.intermediates.len() == 0 {
            return Ok(Vec::new());
        }
        let ghost slots = views(self.intermediates@);
        match self.prepare_buffers() {
            Err(e) => {
                return Err(e);
            },
            Ok(()) => {},
        }
        let mut failure: Option<InterpreterError> = None;
        let mut i: usize = 1;
        let n = self.intermediates.len();
        while i < n
            invariant
                1 <= i <= n,
                n == self.intermediates@.len(),
                views(self.intermediates@) == slots,
                match failure {
                    None => slots_taken(slots, i as int) == Ok::<_, Failure>(self.voices())
                        && self.voices().wf() && !has_tie(self.result@),
                    Some(e) => slots_taken(slots, i as int) matches Err(f) && reports(f, e),
                },
            decreases n - i,
        {
            if failure.is_none() {
                let beat = self.intermediates[i].beat;
                let values = copy_values(&self.intermediates[i].values);
                let mid = if self.previous_indices.len() < values.len() {
                    self.previous_indices.len()
                } else {
                    values.len()
                };
                if self.previous_indices.len() > 0 && values.len() == 0 {
                    failure = Some(error_for(&Failure::NoVoices));
                } else {
                    if self.interpret_current(&values, mid) {
                        match self.interpret_next(&values, mid, beat) {
                            Ok(()) => {},
                            Err(e) => {
                                failure = Some(e);
                            },
                        }
                    } else {
                        failure = Some(error_for(&Failure::OutOfRange));
                    }
                }
            }
            i += 1;
        }
        match failure {
            Some(e) => Err(e),
            None => Ok(copy_values(&self.result)),
        }
    }

    /// Takes the first slot as the first voices. A tie in it is lonely.
    pub fn prepare_buffers(&mut self) -> (r: InterpreterResult<()>)
        requires
            old(self).intermediates@.len() > 0,
        ensures
            final(self).intermediates == old(self).intermediates,
            match r {
                Ok(()) => !has_tie(old(self).intermediates@[0].values@) && final(self).voices() == (
                Voices {
                    result: old(self).intermediates@[0].values@,
                    previous: iota(old(self).intermediates@[0].values@.len()),
                }) && final(self).voices().wf(),
                Err(e) => has_tie(old(self).intermediates@[0].values@) && e
                    == InterpreterError::LonelyTie(old(self).intermediates@[0].beat),
            },
    {
        match self.check_lonely() {
            Err(e) => {
                return Err(e);
            },
            Ok(()) => {},
        }
        self.result = copy_values(&self.intermediates[0].values);
        let mut previous: Vec<usize> = Vec::new();
        let mut n: usize = 0;
        while n < self.result.len()
            invariant
                n <= self.result@.len(),
                previous@.len() == n,
                forall|k: int| 0 <= k < n ==> previous@[k] == k,
            decreases self.result@.len() - n,
        {
            previous.push(n);
            n += 1;
        }
        self.previous_indices = previous;
        proof {
            assert(indices(self.previous_indices@) =~= iota(self.result@.len()));
        }
        Ok(())
    }

    /// Refuses a tie in the first slot.
    pub fn check_lonely(&self) -> (r: InterpreterResult<()>)
        ensures
            match r {
                Ok(()) => self.intermediates@.len() == 0 || !has_tie(
                    self.intermediates@[0].values@,
                ),
                Err(e) => self.intermediates@.len() > 0 && has_tie(self.intermediates@[0].values@)
                    && e == InterpreterError::LonelyTie(self.intermediates@[0].beat),
            },
    {
        if self.intermediates.len() > 0 {
            let arranged = &self.intermediates[0];
            let mut i: usize = 0;
            while i < arranged.values.len()
                invariant
                    i <= arranged.values@.len(),
                    self.intermediates@.len() > 0,
                    *arranged == self.intermediates@[0],
                    forall|k: int| 0 <= k < i ==> arranged.values@[k].value != Audible::Tie,
                decreases arranged.values@.len() - i,
            {
                if is_tie(&arranged.values[i].value) {
                    assert(arranged.values@[i as int].value == Audible::Tie);
                    return Err(InterpreterError::LonelyTie(arranged.beat));
                }
                i += 1;
            }
        }
        Ok(())
    }

    /// Meets the voices before with the first `mid` of `values`. Answers
    /// `false` where a duration went out of range.
    pub fn interpret_current(&mut self, values: &Vec<IntermediateEvent>, mid: usize) -> (ok: bool)
        requires
            old(self).voices().wf(),
            mid <= values@.len(),
            mid > 0 || old(self).previous_indices@.len() == 0,
            !has_tie(old(self).result@),
        ensures
            final(self).intermediates == old(self).intermediates,
            match aligned(
                old(self).voices(),
                values@.take(mid as int),
                old(self).previous_indices@.len() as int,
            ) {
                Some(v) => ok && final(self).voices() == v && v.wf() && !has_tie(v.result),
                None => !ok,
            },
    {
        let mut previous: Vec<usize> = Vec::new();
        core::mem::swap(&mut self.previous_indices, &mut previous);
        let ghost start = Voices { result: self.result@, previous: indices(previous@) };
        let ghost current = values@.take(mid as int);
        let mut ok = true;
        let mut n: usize = 0;
        proof {
            assert(self.voices().previous =~= Seq::<int>::empty());
        }
        while n < previous.len()
            invariant
                n <= previous@.len(),
                self.intermediates == old(self).intermediates,
                start == (Voices { result: old(self).result@, previous: indices(previous@) }),
                start.wf(),
                current == values@.take(mid as int),
                mid <= values@.len(),
                mid > 0 || previous@.len() == 0,
                match aligned(start, current, n as int) {
                    Some(v) => ok && self.voices() == v && v.wf() && v.result.len()
                        >= start.result.len() && !has_tie(v.result),
                    None => !ok,
                },
            decreases previous@.len() - n,
        {
            if ok {
                let prev_n = previous[n];
                let event = &values[n % mid];
                proof {
                    assert(current[(n as int) % (current.len() as int)] == values@[(n % mid) as int]);
                    assert(start.previous[n as int] == prev_n);
                }
                if is_tie(&event.value) {
                    match self.result[prev_n].duration.checked_add(&event.duration) {
                        Some(duration) => {
                            let mut longer = self.result[prev_n].clone();
                            longer.duration = duration;
                            let ghost before = self.voices();
                            self.result.set(prev_n, longer);
                            self.previous_indices.push(prev_n);
                            proof {
                                assert(indices(self.previous_indices@) =~= before.previous.push(
                                    prev_n as int,
                                ));
                                assert(!has_tie(self.result@)) by {
                                    if has_tie(self.result@) {
                                        let k = choose|k: int|
                                            0 <= k < self.result@.len() && (
                                            #[trigger] self.result@[k]).value == Audible::Tie;
                                        assert(before.result[k].value == Audible::Tie);
                                    }
                                }
                            }
                        },
                        None => {
                            ok = false;
                        },
                    }
                } else if mid > n {
                    let ghost before = self.voices();
                    self.result.push(event.clone());
                    self.previous_indices.push(self.result.len() - 1);
                    proof {
                        assert(indices(self.previous_indices@) =~= before.previous.push(
                            before.result.len() as int,
                        ));
                        assert(!has_tie(self.result@)) by {
                            if has_tie(self.result@) {
                                let k = choose|k: int|
                                    0 <= k < self.result@.len() && (
                                    #[trigger] self.result@[k]).value == Audible::Tie;
                                if k < before.result.len() {
                                    assert(before.result[k].value == Audible::Tie);
                                }
                            }
                        }
                    }
                }
            }
            n += 1;
        }
        ok
    }

    /// Adds the events of `values` from `mid` on as voices of their own. A
    /// tie among them is lonely.
    pub fn interpret_next(&mut self, values: &Vec<IntermediateEvent>, mid: usize, beat: u64) -> (r:
        InterpreterResult<()>)
        requires
            old(self).voices().wf(),
            mid <= values@.len(),
            !has_tie(old(self).result@),
        ensures
            final(self).intermediates == old(self).intermediates,
            match r {
                Ok(()) => appended(
                    old(self).voices(),
                    values@.skip(mid as int),
                    values@.len() - mid,
                    beat,
                ) == Ok::<_, Failure>(final(self).voices()) && final(self).voices().wf()
                    && !has_tie(final(self).result@),
                Err(e) => appended(
                    old(self).voices(),
                    values@.skip(mid as int),
                    values@.len() - mid,
                    beat,
                ) matches Err(f) && reports(f, e),
            },
    {
        let ghost start = self.voices();
        let ghost next = values@.skip(mid as int);
        let mut failure: Option<InterpreterError> = None;
        let mut i: usize = mid;
        while i < values.len()
            invariant
                mid <= i <= values@.len(),
                self.intermediates == old(self).intermediates,
                next == values@.skip(mid as int),
                match failure {
                    None => appended(start, next, i - mid, beat) == Ok::<_, Failure>(self.voices())
                        && self.voices().wf() && !has_tie(self.result@),
                    Some(e) => appended(start, next, i - mid, beat) matches Err(f) && reports(f, e),
                },
            decreases values@.len() - i,
        {
            if failure.is_none() {
                proof {
                    assert(next[i - mid] == values@[i as int]);
                }
                if is_tie(&values[i].value) {
                    failure = Some(InterpreterError::LonelyTie(beat));
                } else {
                    let ghost before = self.voices();
                    self.push_result(values[i].clone());
                    proof {
                        assert(!has_tie(self.result@)) by {
                            if has_tie(self.result@) {
                                let k = choose|k: int|
                                    0 <= k < self.result@.len() && (
                                    #[trigger] self.result@[k]).value == Audible::Tie;
                                if k < before.result.len() {
                                    assert(before.result[k].value == Audible::Tie);
                                }
                            }
                        }
                    }
                }
            }
            i += 1;
        }
        match failure {
            Some(e) => Err(e),
            None => Ok(()),
        }
    }

    /// Adds an event as a voice of its own.
    pub fn push_result(&mut self, event: IntermediateEvent)
        requires
            old(self).voices().wf(),
        ensures
            final(self).intermediates == old(self).intermediates,
            final(self).voices() == (Voices {
                result: old(self).voices().result.push(event),
                previous: old(self).voices().previous.push(old(self).voices().result.len() as int),
            }),
            final(self).voices().wf(),
    {
        let ghost before = self.voices();
        self.result.push(event);
        self.previous_indices.push(self.result.len() - 1);
        proof {
            assert(indices(self.previous_indices@) =~= before.previous.push(
                before.result.len() as int,
            ));
        }
    }
}

/// Whether the value is a tie.
fn is_tie(value: &Audible) -> (b: bool)
    ensures
        b == (*value == Audible::Tie),
{
    match value {
        Audible::Tie => true,
        _ => false,
    }
}

/// A copy of the events.
fn copy_values(values: &Vec<IntermediateEvent>) -> (r: Vec<IntermediateEvent>)
    ensures
        r@ == values@,
{
    let mut out: Vec<IntermediateEvent> = Vec::new();
    let mut i: usize = 0;
    while i < values.len()
        invariant
            i <= values@.len(),
            out@ == values@.take(i as int),
        decreases values@.len() - i,
    {
        out.push(values[i].clone());
        i += 1;
        proof {
            assert(out@ =~= values@.take(i as int));
        }
    }
    proof {
        assert(values@.take(values@.len() as int) =~= values@);
    }
    out
}

/// What lowering beats gives: the slots of the beats with their ties
/// resolved, or, within a chord or a parenthesised event, the events of the
/// slots as they are.
pub open spec fn pattern_lowered(
    beats: Seq<ast::BeatEvent>,
    octave: types::Octave,
    multiplier: usize,
    ties: bool,
) -> Result<Seq<IntermediateEvent>, Failure> {
    match beats_lowered(beats, beats.len() as int, octave, multiplier) {
        Err(f) => Err(f),
        Ok((arranged, _)) => if ties {
            ties_resolved(arranged)
        } else {
            Ok(flattened(arranged, arranged.len() as int))
        },
    }
}

/// Lowers the beats of a pattern, or of the inside of a chord or a
/// parenthesised event.
#[derive(Debug)]
pub struct PatternInnerInterpreter {
    /// The number of beats that the beats together are to take: one for the
    /// beats of a pattern and of a chord, the number of the beats for those
    /// of a parenthesised event.
    pub divisor_multiplier: usize,
    pub octave: types::Octave,
    pub inner: Vec<ast::BeatEvent>,
    pub interpret_ties: bool,
}

impl PatternInnerInterpreter {
    /// An interpreter for the beats of a whole pattern: ties are resolved,
    /// and the octave register starts at its default.
    pub fn new(inner: Vec<ast::BeatEvent>) -> (r: Self)
        ensures
            r.inner == inner,
            r.interpret_ties,
            r.divisor_multiplier == 1,
            r.octave == types::Octave::at(5),
    {
        PatternInnerInterpreter {
            inner,
            interpret_ties: true,
            divisor_multiplier: 1,
            octave: types::Octave::default(),
        }
    }

    /// Lowers the beats.
    pub fn run(&self) -> (r: InterpreterResult<Vec<IntermediateEvent>>)
        ensures
            match r {
                Ok(out) => pattern_lowered(
                    self.inner@,
                    self.octave,
                    self.divisor_multiplier,
                    self.interpret_ties,
                ) == Ok::<_, Failure>(out@),
                Err(e) => pattern_lowered(
                    self.inner@,
                    self.octave,
                    self.divisor_multiplier,
                    self.interpret_ties,
                ) matches Err(f) && reports(f, e),
            },
            self.interpret_ties ==> (r matches Ok(out) ==> !has_tie(out@)),
    {
        match lower_beats(&self.inner, self.octave, self.divisor_multiplier) {
            Err(e) => Err(e),
            Ok((intermediates, _)) => self.interpret_ties_or_concat(intermediates),
        }
    }

    /// Resolves the ties of the slots, or hands out their events as they
    /// are.
    pub fn interpret_ties_or_concat(&self, intermediates: Vec<ArrangedIntermediates>) -> (r:
        InterpreterResult<Vec<IntermediateEvent>>)
        ensures
            match r {
                Ok(out) => (if self.interpret_ties {
                    ties_resolved(views(intermediates@))
                } else {
                    Ok(flattened(views(intermediates@), intermediates@.len() as int))
                }) == Ok::<_, Failure>(out@),
                Err(e) => self.interpret_ties && (ties_resolved(views(intermediates@)) matches Err(
                    f,
                ) && reports(f, e)),
            },
            self.interpret_ties ==> (r matches Ok(out) ==> !has_tie(out@)),
    {
        if self.interpret_ties {
            let tie_interpreter = TieInterpreter::new(intermediates);
            tie_interpreter.run()
        } else {
            Ok(flatten(&intermediates))
        }
    }
}

impl Interpreter<Vec<IntermediateEvent>> for PatternInnerInterpreter {
    /// Lowers the beats. Where ties are resolved, none is left in the
    /// result.
    fn interpret(self, context: &mut Context) -> (r: InterpreterResult<Vec<IntermediateEvent>>)
        ensures
            *final(context) == *old(context),
            self.interpret_ties ==> (r matches Ok(out) ==> !has_tie(out@)),
            match r {
                Ok(out) => pattern_lowered(
                    self.inner@,
                    self.octave,
                    self.divisor_multiplier,
                    self.interpret_ties,
                ) == Ok::<_, Failure>(out@),
                Err(e) => pattern_lowered(
                    self.inner@,
                    self.octave,
                    self.divisor_multiplier,
                    self.interpret_ties,
                ) matches Err(f) && reports(f, e),
            },
    {
        self.run()
    }
}

impl Interpreter<Vec<IntermediateEvent>> for TieInterpreter {
    /// Resolves the ties of the slots; none is left in the result.
    fn interpret(self, context: &mut Context) -> (r: InterpreterResult<Vec<IntermediateEvent>>)
        ensures
            *final(context) == *old(context),
            r matches Ok(out) ==> !has_tie(out@),
            match r {
                Ok(out) => ties_resolved(views(self.intermediates@)) == Ok::<_, Failure>(out@),
                Err(e) => ties_resolved(views(self.intermediates@)) matches Err(f) && reports(f, e),
            },
    {
        self.run()
    }
}

/// Lowers one beat.
#[derive(Debug)]
pub struct BeatEventInterpreter {
    pub event: ast::BeatEvent,
    pub beat: u64,
    pub octave: types::Octave,
    pub divisor_multiplier: usize,
}

impl BeatEventInterpreter {
    /// Divides every duration and offset of the beat by the beat's divisor.
    pub fn normalize(&self, group: Vec<ArrangedIntermediates>) -> (r: Option<
        Vec<ArrangedIntermediates>,
    >)
        ensures
            match r {
                Some(out) => normalized(views(group@), self.divisor_multiplier) == Some(
                    views(out@),
                ),
                None => normalized(views(group@), self.divisor_multiplier).is_none(),
            },
            r matches Some(out) ==> (out@.len() > 0 ==> laws::duration_sum(
                views(out@),
                out@.len() as int,
            ) * (self.divisor_multiplier as real) == 1 as real),
    {
        normalize(&group, self.divisor_multiplier)
    }
}

impl Interpreter<Vec<ArrangedIntermediates>> for BeatEventInterpreter {
    /// Lowers the beat. The durations of its slots, times the divisor
    /// multiplier, add up to one; the first slot starts at the start of the
    /// beat, each slot starts where the one before it ends, and every slot
    /// starts within the beat.
    fn interpret(self, context: &mut Context) -> (r: InterpreterResult<Vec<ArrangedIntermediates>>)
        ensures
            *final(context) == *old(context),
            r matches Ok(out) ==> (out@.len() > 0 ==> laws::duration_sum(
                views(out@),
                out@.len() as int,
            ) * (self.divisor_multiplier as real) == 1 as real),
            r matches Ok(out) ==> laws::offsets_within(views(out@), self.divisor_multiplier),
            match r {
                Ok(out) => beat_lowered(self.event, self.beat, self.octave, self.divisor_multiplier)
                    matches Ok((slots, _)) && slots == views(out@),
                Err(e) => beat_lowered(self.event, self.beat, self.octave, self.divisor_multiplier)
                    matches Err(f) && reports(f, e),
            },
    {
        match lower_beat(&self.event, self.beat, self.octave, self.divisor_multiplier) {
            Ok((out, _)) => Ok(out),
            Err(e) => Err(e),
        }
    }
}

/// Lowers one event of a beat, from the offset `beat_position` on.
#[derive(Debug)]
pub struct EventInterpreter {
    pub event: ast::Event,
    pub beat: u64,
    pub octave: types::Octave,
    pub beat_position: Ratio,
}

impl EventInterpreter {
    /// Lowers the atoms of a group from the interpreter's offset on. The
    /// octave register and the offset move on with the atoms; a failure
    /// leaves them as they were.
    pub fn interpret_group(&mut self, atoms: &Vec<ast::PatternAtom>) -> (r: InterpreterResult<
        Vec<ArrangedIntermediates>,
    >)
        ensures
            final(self).event == old(self).event,
            final(self).beat == old(self).beat,
            match r {
                Ok(out) => group_lowered(
                    atoms@,
                    atoms@.len() as int,
                    AtomInterpreter {
                        octave: old(self).octave,
                        octave_change: None,
                        position: old(self).beat_position,
                        beat: old(self).beat,
                    },
                ) matches Ok((slots, state)) && slots == views(out@) && state.octave == final(self).octave && state.position == final(self).beat_position,
                Err(e) => group_lowered(
                    atoms@,
                    atoms@.len() as int,
                    AtomInterpreter {
                        octave: old(self).octave,
                        octave_change: None,
                        position: old(self).beat_position,
                        beat: old(self).beat,
                    },
                ) matches Err(f) && reports(f, e) && final(self).octave == old(self).octave
                    && final(self).beat_position == old(self).beat_position,
            },
    {
        match lower_group(atoms, self.beat, self.octave, self.beat_position) {
            Ok((out, register, next)) => {
                self.octave = register;
                self.beat_position = next;
                Ok(out)
            },
            Err(e) => Err(e),
        }
    }

    /// Lowers a parenthesised event from the interpreter's offset on. The
    /// octave register and the offset move on; a failure leaves them as
    /// they were.
    pub fn interpret_parenthesised(&mut self, event: &ast::ParenthesisedEvent) -> (r:
        InterpreterResult<Vec<ArrangedIntermediates>>)
        ensures
            final(self).event == old(self).event,
            final(self).beat == old(self).beat,
            match r {
                Ok(out) => parenthesised_lowered(
                    *event,
                    old(self).beat,
                    old(self).octave,
                    old(self).beat_position,
                ) == Ok::<_, Failure>((views(out@), final(self).octave, final(self).beat_position)),
                Err(e) => parenthesised_lowered(
                    *event,
                    old(self).beat,
                    old(self).octave,
                    old(self).beat_position,
                ) matches Err(f) && reports(f, e) && final(self).octave == old(self).octave
                    && final(self).beat_position == old(self).beat_position,
            },
    {
        match lower_parenthesised(event, self.beat, self.octave, self.beat_position) {
            Ok((out, register, next)) => {
                self.octave = register;
                self.beat_position = next;
                Ok(out)
            },
            Err(e) => Err(e),
        }
    }

    /// Lowers a chord at the interpreter's offset. The octave register and
    /// the offset move on; a failure leaves them as they were.
    pub fn interpret_chord(&mut self, chord: &ast::Chord) -> (r: InterpreterResult<
        Vec<ArrangedIntermediates>,
    >)
        ensures
            final(self).event == old(self).event,
            final(self).beat == old(self).beat,
            match r {
                Ok(out) => chord_lowered(
                    *chord,
                    old(self).beat,
                    old(self).octave,
                    old(self).beat_position,
                ) == Ok::<_, Failure>((views(out@), final(self).octave, final(self).beat_position)),
                Err(e) => chord_lowered(
                    *chord,
                    old(self).beat,
                    old(self).octave,
                    old(self).beat_position,
                ) matches Err(f) && reports(f, e) && final(self).octave == old(self).octave
                    && final(self).beat_position == old(self).beat_position,
            },
    {
        match lower_chord(chord, self.beat, self.octave, self.beat_position) {
            Ok((out, register, next)) => {
                self.octave = register;
                self.beat_position = next;
                Ok(out)
            },
            Err(e) => Err(e),
        }
    }

    /// Lowers the beats inside a chord or a parenthesised event, to the
    /// length of one over `num_of_beats` each, and hands out their events
    /// with ties left as they are. The octave register moves on; a failure
    /// leaves it as it was.
    pub fn interpret_inner(&mut self, num_of_beats: usize, inner: &Vec<ast::BeatEvent>) -> (r:
        InterpreterResult<Vec<IntermediateEvent>>)
        ensures
            final(self).event == old(self).event,
            final(self).beat == old(self).beat,
            final(self).beat_position == old(self).beat_position,
            match r {
                Ok(out) => beats_lowered(inner@, inner@.len() as int, old(self).octave, num_of_beats)
                    matches Ok((slots, register)) && out@ == flattened(slots, slots.len() as int)
                    && register == final(self).octave,
                Err(e) => beats_lowered(inner@, inner@.len() as int, old(self).octave, num_of_beats)
                    matches Err(f) && reports(f, e) && final(self).octave == old(self).octave,
            },
    {
        match lower_beats(inner, self.octave, num_of_beats) {
            Ok((arranged, register)) => {
                self.octave = register;
                Ok(flatten(&arranged))
            },
            Err(e) => Err(e),
        }
    }
}

impl Interpreter<Vec<ArrangedIntermediates>> for EventInterpreter {
    fn interpret(self, context: &mut Context) -> (r: InterpreterResult<Vec<ArrangedIntermediates>>)
        ensures
            *final(context) == *old(context),
            match r {
                Ok(out) => event_lowered(self.event, self.beat, self.octave, self.beat_position)
                    matches Ok((slots, _, _)) && slots == views(out@),
                Err(e) => event_lowered(self.event, self.beat, self.octave, self.beat_position)
                    matches Err(f) && reports(f, e),
            },
    {
        match lower_event(&self.event, self.beat, self.octave, self.beat_position) {
            Ok((out, _, _)) => Ok(out),
            Err(e) => Err(e),
        }
    }
}

/// Where and for how long an event sounds in a pattern that is anchored at
/// `anchor` and counts `resolution` ticks to the beat: it starts at the
/// anchor plus its beat plus its offset, and its duration is counted in
/// ticks; both are rounded to the nearest tick. `None` where the resolution
/// is zero or the end of the event does not fit in 64 bits of ticks.
pub open spec fn placement(event: IntermediateEvent, anchor: CursorPosition, resolution: u64) -> Option<
    (CursorPosition, Duration),
> {
    let offset = event.beat_position.spec_scale_round(resolution as nat);
    let length = event.duration.spec_scale_round(resolution as nat);
    let start = anchor.beat * resolution + anchor.tick + event.beat * resolution + offset;
    if resolution == 0 || start + length > u64::MAX {
        None
    } else {
        Some((position_of_ticks(start, resolution), position_of_ticks(length as int, resolution)))
    }
}

impl IntermediateEvent {
    /// The pattern with this event scheduled: a degree goes to the degree
    /// stream and a modulation to the modulation stream. A pause leaves the
    /// pattern as it is. `None` where the event cannot be placed, and for a
    /// tie, which is never scheduled.
    pub open spec fn scheduled_onto(self, pattern: PatternState) -> Option<PatternState> {
        match self.value {
            Audible::Degree(degree) => match placement(
                self,
                pattern.start_position,
                pattern.cursor.resolution,
            ) {
                Some((position, duration)) => Some(
                    PatternState {
                        degree: scheduled(
                            pattern.degree,
                            degree,
                            position,
                            duration,
                            pattern.cursor.resolution,
                        ),
                        ..pattern
                    },
                ),
                None => None,
            },
            Audible::Modulation(modulation) => match placement(
                self,
                pattern.start_position,
                pattern.cursor.resolution,
            ) {
                Some((position, duration)) => Some(
                    PatternState {
                        modulation: scheduled(
                            pattern.modulation,
                            modulation,
                            position,
                            duration,
                            pattern.cursor.resolution,
                        ),
                        ..pattern
                    },
                ),
                None => None,
            },
            Audible::Pause => Some(pattern),
            Audible::Tie => None,
        }
    }

    /// Where and for how long the event sounds in `pattern`.
    pub fn place(&self, pattern: &types::Pattern) -> (r: Option<(CursorPosition, Duration)>)
        ensures
            r == placement(*self, pattern@.start_position, pattern@.cursor.resolution),
            r matches Some((position, duration)) ==> crate::types::pattern::schedulable(
                position,
                duration,
                pattern@.cursor.resolution,
            ),
    {
        let resolution = pattern.resolution();
        let anchor = pattern.start_position();
        if resolution == 0 {
            return None;
        }
        let offset = match self.beat_position.scale_round(resolution) {
            Some(t) => t,
            None => {
                assert(anchor.beat * resolution >= 0 && self.beat * resolution >= 0)
                    by (nonlinear_arith)
                    requires
                        resolution >= 0,
                        anchor.beat >= 0,
                        self.beat >= 0,
                ;
                return None;
            },
        };
        let length = match self.duration.scale_round(resolution) {
            Some(t) => t,
            None => {
                assert(anchor.beat * resolution >= 0 && self.beat * resolution >= 0)
                    by (nonlinear_arith)
                    requires
                        resolution >= 0,
                        anchor.beat >= 0,
                        self.beat >= 0,
                ;
                return None;
            },
        };
        assert(anchor.beat as u128 * resolution as u128 <= 0xffff_ffff_ffff_ffff
            * 0xffff_ffff_ffff_ffff && self.beat as u128 * resolution as u128
            <= 0xffff_ffff_ffff_ffff * 0xffff_ffff_ffff_ffff) by (nonlinear_arith)
            requires
                anchor.beat <= 0xffff_ffff_ffff_ffff,
                self.beat <= 0xffff_ffff_ffff_ffff,
                resolution <= 0xffff_ffff_ffff_ffff,
        ;
        let before: u128 = anchor.beat as u128 * resolution as u128;
        let within: u128 = self.beat as u128 * resolution as u128;
        if before > u64::MAX as u128 || within > u64::MAX as u128 {
            return None;
        }
        let start: u128 = before + anchor.tick as u128 + within + offset as u128;
        if start + length as u128 > u64::MAX as u128 {
            return None;
        }
        proof {
            crate::clock::lemma_position_of_ticks(start as int, resolution);
            crate::clock::lemma_position_of_ticks(length as int, resolution);
        }
        Some(
            (
                CursorPosition::from_ticks(start as u64, resolution),
                CursorPosition::from_ticks(length, resolution),
            ),
        )
    }

    /// Schedules the event onto `pattern`. Answers `false`, and leaves the
    /// pattern as it is, where the event cannot be placed. A tie is not
    /// scheduled: tie handling has folded it into the event before it.
    pub fn schedule(&self, pattern: &mut types::Pattern) -> (ok: bool)
        requires
            old(pattern)@.wf(),
            self.value != Audible::Tie,
        ensures
            final(pattern)@.wf(),
            match self.scheduled_onto(old(pattern)@) {
                Some(next) => ok && final(pattern)@ == next,
                None => !ok && final(pattern)@ == old(pattern)@,
            },
    {
        match &self.value {
            Audible::Degree(degree) => match self.place(pattern) {
                Some((position, duration)) => {
                    pattern.schedule_degree(*degree, position, duration);
                    true
                },
                None => false,
            },
            Audible::Modulation(modulation) => match self.place(pattern) {
                Some((position, duration)) => {
                    pattern.schedule_modulation(modulation.clone(), position, duration);
                    true
                },
                None => false,
            },
            Audible::Pause => true,
            Audible::Tie => false,
        }
    }
}

/// The pattern with the first `n` events scheduled, one after the other.
pub open spec fn all_scheduled(pattern: PatternState, events: Seq<IntermediateEvent>, n: int) -> Option<
    PatternState,
>
    decreases n,
{
    if n <= 0 {
        Some(pattern)
    } else {
        match all_scheduled(pattern, events, n - 1) {
            Some(p) => events[n - 1].scheduled_onto(p),
            None => None,
        }
    }
}

/// Whether each of the first `n` events can be scheduled: none is a tie,
/// and every degree and modulation can be placed.
pub open spec fn placeable(
    events: Seq<IntermediateEvent>,
    n: int,
    anchor: CursorPosition,
    resolution: u64,
) -> bool
    decreases n,
{
    if n <= 0 {
        true
    } else {
        placeable(events, n - 1, anchor, resolution) && match events[n - 1].value {
            Audible::Degree(_) => placement(events[n - 1], anchor, resolution).is_some(),
            Audible::Modulation(_) => placement(events[n - 1], anchor, resolution).is_some(),
            Audible::Pause => true,
            Audible::Tie => false,
        }
    }
}

/// The `On` and the `Off` event of a value that sounds from `position` on
/// for `duration`.
pub open spec fn on_and_off<T>(
    value: T,
    position: CursorPosition,
    duration: Duration,
    resolution: u64,
) -> Seq<types::pattern::Event<T>> {
    seq![
        types::pattern::Event { value, position, state: types::pattern::EventState::On },
        types::pattern::Event {
            value,
            position: types::pattern::off_position(position, duration, resolution),
            state: types::pattern::EventState::Off,
        },
    ]
}

/// The events that the degrees among the first `n` events give, in order:
/// an `On` and an `Off` event each.
pub open spec fn degree_track(
    events: Seq<IntermediateEvent>,
    n: int,
    anchor: CursorPosition,
    resolution: u64,
) -> Seq<types::pattern::Event<types::Degree>>
    decreases n,
{
    if n <= 0 {
        Seq::empty()
    } else {
        let track = degree_track(events, n - 1, anchor, resolution);
        match (events[n - 1].value, placement(events[n - 1], anchor, resolution)) {
            (Audible::Degree(degree), Some((position, duration))) => track + on_and_off(
                degree,
                position,
                duration,
                resolution,
            ),
            _ => track,
        }
    }
}

/// The events that the modulations among the first `n` events give, in
/// order: an `On` and an `Off` event each.
pub open spec fn modulation_track(
    events: Seq<IntermediateEvent>,
    n: int,
    anchor: CursorPosition,
    resolution: u64,
) -> Seq<types::pattern::Event<types::Modulation>>
    decreases n,
{
    if n <= 0 {
        Seq::empty()
    } else {
        let track = modulation_track(events, n - 1, anchor, resolution);
        match (events[n - 1].value, placement(events[n - 1], anchor, resolution)) {
            (Audible::Modulation(modulation), Some((position, duration))) => track + on_and_off(
                modulation,
                position,
                duration,
                resolution,
            ),
            _ => track,
        }
    }
}

/// `stream` with `track` added behind its events.
pub open spec fn with_track<T>(
    stream: StreamState<T>,
    track: Seq<types::pattern::Event<T>>,
) -> StreamState<T> {
    StreamState {
        events: stream.events + track,
        sorted: stream.sorted && track.len() == 0,
        ..stream
    }
}

/// Scheduling events one after the other adds the degrees' events to the
/// degree stream and the modulations' events to the modulation stream, and
/// leaves the rest of the pattern as it is. It fails exactly when one of
/// them cannot be placed.
pub proof fn lemma_all_scheduled(pattern: PatternState, events: Seq<IntermediateEvent>, n: int)
    requires
        0 <= n <= events.len(),
    ensures
        all_scheduled(pattern, events, n).is_some() == placeable(
            events,
            n,
            pattern.start_position,
            pattern.cursor.resolution,
        ),
        all_scheduled(pattern, events, n) matches Some(p) ==> p == (PatternState {
            degree: with_track(
                pattern.degree,
                degree_track(events, n, pattern.start_position, pattern.cursor.resolution),
            ),
            modulation: with_track(
                pattern.modulation,
                modulation_track(events, n, pattern.start_position, pattern.cursor.resolution),
            ),
            ..pattern
        }),
    decreases n,
{
    let anchor = pattern.start_position;
    let resolution = pattern.cursor.resolution;
    if n > 0 {
        lemma_all_scheduled(pattern, events, n - 1);
        if let Some(p) = all_scheduled(pattern, events, n - 1) {
            let d = degree_track(events, n - 1, anchor, resolution);
            let m = modulation_track(events, n - 1, anchor, resolution);
            if let Some(q) = events[n - 1].scheduled_onto(p) {
                match (events[n - 1].value, placement(events[n - 1], anchor, resolution)) {
                    (Audible::Degree(degree), Some((position, duration))) => {
                        assert(q.degree.events =~= pattern.degree.events + degree_track(
                            events,
                            n,
                            anchor,
                            resolution,
                        ));
                    },
                    (Audible::Modulation(modulation), Some((position, duration))) => {
                        assert(q.modulation.events =~= pattern.modulation.events + modulation_track(
                            events,
                            n,
                            anchor,
                            resolution,
                        ));
                    },
                    _ => {},
                }
            }
        }
    } else {
        assert(pattern.degree.events + Seq::empty() =~= pattern.degree.events);
        assert(pattern.modulation.events + Seq::empty() =~= pattern.modulation.events);
    }
}

/// A pattern anchored at `cursor` that holds the given degree and
/// modulation events, in time order, and nothing else; it stands at its
/// start, does not loop, and its scale, root and octave loop and fill gaps.
pub open spec fn holds(
    pattern: PatternState,
    cursor: Cursor,
    degrees: Seq<types::pattern::Event<types::Degree>>,
    modulations: Seq<types::pattern::Event<types::Modulation>>,
) -> bool {
    &&& pattern.wf()
    &&& pattern.start_position == cursor.position
    &&& pattern.cursor == (Cursor {
        position: CursorPosition { beat: 0, tick: 0, resolution: cursor.resolution },
        resolution: cursor.resolution,
    })
    &&& !pattern.is_loop
    &&& !pattern.is_finished
    &&& pattern.degree.events == stable_sorted(degrees)
    &&& pattern.modulation.events == stable_sorted(modulations)
    &&& types::pattern::fresh(
        StreamState { events: Seq::empty(), ..pattern.degree },
        cursor.resolution,
        false,
    )
    &&& types::pattern::fresh(
        StreamState { events: Seq::empty(), ..pattern.modulation },
        cursor.resolution,
        false,
    )
    &&& types::pattern::fresh(pattern.scale, cursor.resolution, true)
    &&& types::pattern::fresh(pattern.root, cursor.resolution, true)
    &&& types::pattern::fresh(pattern.octave, cursor.resolution, true)
    &&& types::pattern::default_gaps(pattern)
}

/// Lowers a pattern and schedules its events onto a new pattern that is
/// anchored at `cursor`.
///
/// The result holds, in time order, an `On` and an `Off` event for every
/// degree and modulation of the pattern; pauses leave gaps. A lonely tie,
/// an inlet or an interpolation, a chord without voices behind an event,
/// and a duration or position out of range are errors.
pub fn interpret_pattern(pattern: &ast::Pattern, cursor: &Cursor) -> (r: InterpreterResult<
    types::Pattern,
>)
    ensures
        pattern_interpreted(*pattern, *cursor, r),
{
    let intermediates = match lower_beats(&pattern.0, types::Octave::default(), 1) {
        Err(e) => {
            return Err(e);
        },
        Ok((arranged, _)) => match TieInterpreter::new(arranged).run() {
            Err(e) => {
                return Err(e);
            },
            Ok(events) => events,
        },
    };
    let mut result = types::Pattern::new(*cursor);
    let ghost empty = result@;
    let mut ok = true;
    let mut i: usize = 0;
    while i < intermediates.len()
        invariant
            i <= intermediates@.len(),
            result@.wf(),
            !has_tie(intermediates@),
            match all_scheduled(empty, intermediates@, i as int) {
                Some(p) => ok && result@ == p,
                None => !ok,
            },
        decreases intermediates@.len() - i,
    {
        if ok {
            ok = intermediates[i].schedule(&mut result);
        }
        i += 1;
    }
    proof {
        lemma_all_scheduled(empty, intermediates@, intermediates@.len() as int);
    }
    if !ok {
        return Err(error_for(&Failure::OutOfRange));
    }
    result.sort();
    proof {
        let d = degree_track(
            intermediates@,
            intermediates@.len() as int,
            cursor.position,
            cursor.resolution,
        );
        let m = modulation_track(
            intermediates@,
            intermediates@.len() as int,
            cursor.position,
            cursor.resolution,
        );
        assert(empty.degree.events + d =~= d);
        assert(empty.modulation.events + m =~= m);
        if d.len() == 0 {
            assert(stable_sorted(d) =~= d);
        }
        if m.len() == 0 {
            assert(stable_sorted(m) =~= m);
        }
    }
    Ok(result)
}

/// What `interpret_pattern` answers for `pattern` and `cursor`.
pub open spec fn pattern_interpreted(
    pattern: ast::Pattern,
    cursor: Cursor,
    r: InterpreterResult<types::Pattern>,
) -> bool {
    match (r, pattern_lowered(pattern.0@, types::Octave::at(5), 1, true)) {
        (Ok(p), Ok(events)) => {
            &&& !has_tie(events)
            &&& placeable(events, events.len() as int, cursor.position, cursor.resolution)
            &&& holds(
                p@,
                cursor,
                degree_track(events, events.len() as int, cursor.position, cursor.resolution),
                modulation_track(events, events.len() as int, cursor.position, cursor.resolution),
            )
        },
        (Err(e), Ok(events)) => !placeable(
            events,
            events.len() as int,
            cursor.position,
            cursor.resolution,
        ) && reports(Failure::OutOfRange, e),
        (Err(e), Err(f)) => reports(f, e),
        (Ok(_), Err(_)) => false,
    }
}

impl Interpreter<types::Pattern> for ast::Pattern {
    /// Lowers the pattern and schedules it, anchored at the cursor of the
    /// context's clock.
    fn interpret(self, context: &mut Context) -> (r: InterpreterResult<types::Pattern>)
        ensures
            *final(context) == *old(context),
            pattern_interpreted(self, old(context).clock.spec_cursor(), r),
    {
        interpret_pattern(&self, context.clock.cursor())
    }
}

} // verus!
