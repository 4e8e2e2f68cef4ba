//! What holds of every lowering: a beat stays a beat, ties add up, and the
//! octave register follows the octave atoms.

use vstd::prelude::*;
use crate::ast;
use crate::interpreter::{
    beats_lowered, flattened, method_factor, methods_factor, stacked, beat_lowered, chord_lowered, event_lowered, events_lowered, has_tie, method_applied,
    methods_applied, min_of, parenthesised_lowered, single, spread, lemma_methods_applied,
    aligned, appended, group_lowered, group_scaled, iota, normalized, prolonged, slot_taken,
    slots_taken, ties_resolved, total_duration, values_scaled, event_scaled, arranged_scaled,
    beat_divisor, Arranged, AtomInterpreter, Audible, Failure, IntermediateEvent, Voices,
};
use crate::ratio::Ratio;
use crate::types;

verus! {

/// The sum of the durations of the first `n` slots, as a number.
pub open spec fn duration_sum(group: Seq<Arranged>, n: int) -> real
    decreases n,
{
    if n <= 0 {
        0 as real
    } else {
        duration_sum(group, n - 1) + group[n - 1].duration.value()
    }
}

/// Every slot has a duration with a denominator that is not zero.
pub open spec fn sound(group: Seq<Arranged>) -> bool {
    forall|i: int| 0 <= i < group.len() ==> (#[trigger] group[i]).duration.wf()
}

/// The checked sum of the durations is their sum.
pub proof fn lemma_total_duration(group: Seq<Arranged>, n: int)
    requires
        0 <= n <= group.len(),
        sound(group),
    ensures
        total_duration(group, n) matches Some(total) ==> total.wf() && total.value()
            == duration_sum(group, n),
    decreases n,
{
    if n > 0 {
        lemma_total_duration(group, n - 1);
        if let Some(total) = total_duration(group, n - 1) {
            assert(group[n - 1].duration.wf());
            Ratio::lemma_add_value(total, group[n - 1].duration);
        }
    } else {
        Ratio::lemma_of(0, 1);
        assert(0 as real / 1 as real == 0 as real) by (nonlinear_arith);
    }
}

/// Slots divided by a divisor add up to the sum of the slots, divided by
/// the divisor: the sum of the results times the divisor is the sum of the
/// slots.
pub proof fn lemma_group_scaled(group: Seq<Arranged>, n: int, divisor: Ratio)
    requires
        0 <= n <= group.len(),
        sound(group),
        divisor.wf(),
    ensures
        group_scaled(group, n, divisor) matches Some(out) ==> {
            &&& out.len() == n
            &&& sound(out)
            &&& n > 0 ==> divisor.value() != 0 as real
            &&& duration_sum(out, n) * divisor.value() == duration_sum(group, n)
        },
    decreases n,
{
    if n > 0 {
        lemma_group_scaled(group, n - 1, divisor);
        if let Some(out) = group_scaled(group, n, divisor) {
            let before = group_scaled(group, n - 1, divisor).unwrap();
            let a = arranged_scaled(group[n - 1], divisor).unwrap();
            assert(out == before.push(a));
            assert(group[n - 1].duration.wf());
            Ratio::lemma_div_value(group[n - 1].duration, divisor);
            lemma_duration_sum_prefix(before, out, n - 1);
            let d = divisor.value();
            let x = group[n - 1].duration.value();
            let s = duration_sum(before, n - 1);
            assert((s + x / d) * d == s * d + x) by (nonlinear_arith)
                requires
                    d != 0 as real,
            ;
            assert forall|i: int| 0 <= i < out.len() implies (#[trigger] out[i]).duration.wf() by {
                if i < n - 1 {
                    assert(out[i] == before[i]);
                }
            }
        }
    } else {
        assert(0 as real * divisor.value() == 0 as real) by (nonlinear_arith);
    }
}

/// The sum of the first `n` durations depends on the first `n` slots only.
pub proof fn lemma_duration_sum_prefix(a: Seq<Arranged>, b: Seq<Arranged>, n: int)
    requires
        0 <= n <= a.len(),
        n <= b.len(),
        forall|i: int| 0 <= i < n ==> a[i] == b[i],
    ensures
        duration_sum(a, n) == duration_sum(b, n),
    decreases n,
{
    if n > 0 {
        lemma_duration_sum_prefix(a, b, n - 1);
    }
}

/// A beat that holds anything lasts exactly one beat after it is
/// normalised, or one over the number of beats of the construct around it:
/// the durations of its slots, times that number, add up to one.
pub proof fn lemma_beat_is_whole(group: Seq<Arranged>, multiplier: usize)
    requires
        group.len() > 0,
        sound(group),
    ensures
        normalized(group, multiplier) matches Some(out) ==> out.len() == group.len() && sound(out)
            && duration_sum(out, out.len() as int) * (multiplier as real) == 1 as real,
{
    let n = group.len() as int;
    lemma_total_duration(group, n);
    if let Some(out) = normalized(group, multiplier) {
        let total = total_duration(group, n).unwrap();
        let divisor = beat_divisor(group, multiplier).unwrap();
        Ratio::lemma_of(multiplier as nat, 1);
        Ratio::lemma_mul_value(total, Ratio::of(multiplier as nat, 1));
        assert(multiplier as real / 1 as real == multiplier as real) by (nonlinear_arith);
        lemma_group_scaled(group, n, divisor);
        let s = duration_sum(out, n);
        let t = total.value();
        let m = multiplier as real;
        assert(s * m == 1 as real) by (nonlinear_arith)
            requires
                s * (t * m) == t,
                t * m != 0 as real,
        ;
    }
}

/// The sum of the durations of voice `voice` in the first `n` slots.
pub open spec fn column_sum(slots: Seq<Arranged>, voice: int, n: int) -> real
    decreases n,
{
    if n <= 0 {
        0 as real
    } else {
        column_sum(slots, voice, n - 1) + slots[n - 1].values[voice].duration.value()
    }
}

/// A first slot of `k` events that are no ties, followed by slots of `k`
/// ties each.
pub open spec fn tied_voices(slots: Seq<Arranged>, k: int) -> bool {
    &&& slots.len() >= 1
    &&& k >= 1
    &&& forall|i: int| 0 <= i < slots.len() ==> (#[trigger] slots[i]).values.len() == k
    &&& forall|i: int, j: int|
        0 <= i < slots.len() && 0 <= j < k ==> (#[trigger] slots[i].values[j]).duration.wf()
    &&& forall|j: int| 0 <= j < k ==> (#[trigger] slots[0].values[j]).value != Audible::Tie
    &&& forall|i: int, j: int|
        1 <= i < slots.len() && 0 <= j < k ==> (#[trigger] slots[i].values[j]).value
            == Audible::Tie
}

/// `out` holds the events of the first slot, each as long as its voice is
/// in the first `n` slots together.
pub open spec fn prolonged_by_columns(slots: Seq<Arranged>, k: int, n: int, out: Seq<IntermediateEvent>) -> bool {
    &&& out.len() == k
    &&& forall|j: int|
        0 <= j < k ==> {
            &&& (#[trigger] out[j]).value == slots[0].values[j].value
            &&& out[j].octave == slots[0].values[j].octave
            &&& out[j].beat == slots[0].values[j].beat
            &&& out[j].beat_position == slots[0].values[j].beat_position
            &&& out[j].duration.wf()
            &&& out[j].duration.value() == column_sum(slots, j, n)
        }
}

/// Ties align with the voices before them: met with `k` ties, the first
/// `n` of `k` voices are each prolonged by the tie of their index, and the
/// others are as they were.
proof fn lemma_aligned_ties(start: Voices, current: Seq<IntermediateEvent>, k: int, n: int)
    requires
        0 <= n <= k,
        start.previous == iota(k as nat),
        start.result.len() == k,
        current.len() == k,
        forall|j: int| 0 <= j < k ==> (#[trigger] current[j]).value == Audible::Tie,
        forall|j: int| 0 <= j < k ==> (#[trigger] current[j]).duration.wf(),
        forall|j: int| 0 <= j < k ==> (#[trigger] start.result[j]).duration.wf(),
    ensures
        aligned(start, current, n) matches Some(v) ==> {
            &&& v.previous == iota(n as nat)
            &&& v.result.len() == k
            &&& forall|j: int|
                0 <= j < n ==> {
                    &&& (#[trigger] v.result[j]).value == start.result[j].value
                    &&& v.result[j].octave == start.result[j].octave
                    &&& v.result[j].beat == start.result[j].beat
                    &&& v.result[j].beat_position == start.result[j].beat_position
                    &&& v.result[j].duration.wf()
                    &&& v.result[j].duration.value() == start.result[j].duration.value()
                        + current[j].duration.value()
                }
            &&& forall|j: int| n <= j < k ==> (#[trigger] v.result[j]) == start.result[j]
        },
    decreases n,
{
    if n > 0 {
        lemma_aligned_ties(start, current, k, n - 1);
        if let Some(v) = aligned(start, current, n) {
            let w = aligned(start, current, n - 1).unwrap();
            assert((n - 1) % k == n - 1) by (nonlinear_arith)
                requires
                    0 <= n - 1 < k,
            ;
            let event = current[n - 1];
            assert(start.previous[n - 1] == n - 1);
            assert(w.result[n - 1] == start.result[n - 1]);
            assert(start.result[n - 1].duration.wf());
            assert(event.duration.wf());
            Ratio::lemma_add_value(w.result[n - 1].duration, event.duration);
            assert(v.previous =~= iota(n as nat));
            assert forall|j: int| 0 <= j < n implies {
                &&& (#[trigger] v.result[j]).value == start.result[j].value
                &&& v.result[j].octave == start.result[j].octave
                &&& v.result[j].beat == start.result[j].beat
                &&& v.result[j].beat_position == start.result[j].beat_position
                &&& v.result[j].duration.wf()
                &&& v.result[j].duration.value() == start.result[j].duration.value()
                    + current[j].duration.value()
            } by {
                if j < n - 1 {
                    assert(v.result[j] == w.result[j]);
                }
            }
            assert forall|j: int| n <= j < k implies (#[trigger] v.result[j]) == start.result[j] by {
                assert(v.result[j] == w.result[j]);
            }
        }
    } else {
        assert(iota(0) =~= Seq::<int>::empty());
    }
}

/// The voices after the first `n` slots of tied voices.
proof fn lemma_slots_taken_ties(slots: Seq<Arranged>, k: int, n: int)
    requires
        tied_voices(slots, k),
        1 <= n <= slots.len(),
    ensures
        match slots_taken(slots, n) {
            Ok(v) => v.previous == iota(k as nat) && prolonged_by_columns(slots, k, n, v.result),
            Err(f) => f == Failure::OutOfRange,
        },
    decreases n,
{
    if n <= 1 {
        let v = slots_taken(slots, n).unwrap();
        assert forall|j: int| 0 <= j < k implies (#[trigger] v.result[j]).duration.value()
            == column_sum(slots, j, n) by {
            reveal_with_fuel(column_sum, 2);
        }
    } else {
        lemma_slots_taken_ties(slots, k, n - 1);
        if let Ok(v) = slots_taken(slots, n - 1) {
            let slot = slots[n - 1];
            assert(slot.values.len() == k);
            assert(slot.values.take(k) =~= slot.values);
            assert(slot.values.skip(k) =~= Seq::<IntermediateEvent>::empty());
            assert forall|j: int| 0 <= j < k implies (#[trigger] slot.values[j]).value
                == Audible::Tie by {
                assert(slots[n - 1].values[j].value == Audible::Tie);
            }
            assert forall|j: int| 0 <= j < k implies (#[trigger] slot.values[j]).duration.wf() by {
                assert(slots[n - 1].values[j].duration.wf());
            }
            lemma_aligned_ties(v, slot.values, k, k);
            if let Some(w) = aligned(v, slot.values, k) {
                assert(appended(w, slot.values.skip(k), 0, slot.beat) == Ok::<Voices, Failure>(w));
                assert(slots_taken(slots, n) == Ok::<Voices, Failure>(w));
            }
        }
    }
}

/// Ties prolong, voice by voice: where a slot of `k` events that are no
/// ties is followed by slots of `k` ties each, the result is the `k`
/// events, each as long as itself and the ties of its voice together.
pub proof fn lemma_ties_prolong(slots: Seq<Arranged>, k: int)
    requires
        tied_voices(slots, k),
    ensures
        match ties_resolved(slots) {
            Ok(out) => prolonged_by_columns(slots, k, slots.len() as int, out),
            Err(f) => f == Failure::OutOfRange,
        },
{
    lemma_slots_taken_ties(slots, k, slots.len() as int);
    assert(!crate::interpreter::has_tie(slots[0].values));
}

/// The octave register after the first `n` atoms of a group: one octave up
/// for each `O`, one down for each `o`, in their order; other atoms leave
/// it.
pub open spec fn octave_after(atoms: Seq<ast::PatternAtom>, n: int, octave: types::Octave) -> types::Octave
    decreases n,
{
    if n <= 0 {
        octave
    } else {
        let before = octave_after(atoms, n - 1, octave);
        match atoms[n - 1].value {
            ast::PatternAtomValue::Octave(ast::Octave::Up) => types::Octave::at(
                types::Octave::number_above(before.number()),
            ),
            ast::PatternAtomValue::Octave(ast::Octave::Down) => types::Octave::at(
                types::Octave::number_below(before.number()),
            ),
            _ => before,
        }
    }
}

/// The octave register threads through a group: after the group it is
/// what the octave atoms of the group make of it, one after the other.
pub proof fn lemma_octave_threads(atoms: Seq<ast::PatternAtom>, n: int, start: AtomInterpreter)
    requires
        0 <= n <= atoms.len(),
    ensures
        group_lowered(atoms, n, start) matches Ok((_, state)) ==> state.octave == octave_after(
            atoms,
            n,
            start.octave,
        ),
    decreases n,
{
    if n > 0 {
        lemma_octave_threads(atoms, n - 1, start);
    }
}

/// One octave up and one octave down again is where it started, unless it
/// started at the highest octave.
pub proof fn lemma_up_then_down(n: u64)
    requires
        n < types::pattern::MAX_OCTAVE,
    ensures
        types::Octave::number_below(types::Octave::number_above(n)) == n,
{
}

/// Two octaves up is two above the start, unless the highest octave is in
/// the way.
pub proof fn lemma_up_twice(n: u64)
    requires
        n + 2 <= types::pattern::MAX_OCTAVE,
    ensures
        types::Octave::number_above(types::Octave::number_above(n)) == n + 2,
{
}

/// A group of two octave atoms up and a note gives one slot; the register
/// ends two octaves above its start, and the note carries that octave.
pub proof fn lemma_up_up_note(atoms: Seq<ast::PatternAtom>, start: AtomInterpreter)
    requires
        atoms.len() == 3,
        atoms[0].value == ast::PatternAtomValue::Octave(ast::Octave::Up),
        atoms[1].value == ast::PatternAtomValue::Octave(ast::Octave::Up),
        atoms[2].value is Note,
        start.octave_change.is_none(),
        start.octave.number() + 2 <= types::pattern::MAX_OCTAVE,
    ensures
        group_lowered(atoms, 3, start) matches Ok((out, state)) ==> {
            &&& out.len() == 1
            &&& out[0].values.len() == 1
            &&& state.octave == types::Octave::at((start.octave.number() + 2) as u64)
            &&& out[0].values[0].octave == Some(state.octave)
        },
{
    let n = start.octave.number();
    reveal_with_fuel(group_lowered, 4);
    types::Octave::lemma_at((n + 1) as u64);
    types::Octave::lemma_at((n + 2) as u64);
}

/// A group of an octave atom up, one down and a note gives one slot; the
/// register ends at the octave of its start, and the note carries it.
pub proof fn lemma_up_down_note(atoms: Seq<ast::PatternAtom>, start: AtomInterpreter)
    requires
        atoms.len() == 3,
        atoms[0].value == ast::PatternAtomValue::Octave(ast::Octave::Up),
        atoms[1].value == ast::PatternAtomValue::Octave(ast::Octave::Down),
        atoms[2].value is Note,
        start.octave_change.is_none(),
        start.octave.number() < types::pattern::MAX_OCTAVE,
    ensures
        group_lowered(atoms, 3, start) matches Ok((out, state)) ==> {
            &&& out.len() == 1
            &&& out[0].values.len() == 1
            &&& state.octave == types::Octave::at(start.octave.number())
            &&& out[0].values[0].octave == Some(state.octave)
        },
{
    let n = start.octave.number();
    reveal_with_fuel(group_lowered, 4);
    types::Octave::lemma_at((n + 1) as u64);
    types::Octave::lemma_at(n);
}

/// Every voice points at an event at or behind the index `bound`.
pub open spec fn voices_from(v: Voices, bound: int) -> bool {
    &&& v.wf()
    &&& 0 <= bound <= v.result.len()
    &&& forall|i: int| 0 <= i < v.previous.len() ==> (#[trigger] v.previous[i]) >= bound
}

/// Meeting voices with a slot touches only the events that the voices point
/// at: the events before them stay as they are.
proof fn lemma_aligned_frame(start: Voices, current: Seq<IntermediateEvent>, n: int, bound: int)
    requires
        0 <= n <= start.previous.len(),
        voices_from(start, bound),
    ensures
        aligned(start, current, n) matches Some(v) ==> voices_from(v, bound) && v.result.len()
            >= start.result.len() && v.result.take(bound) == start.result.take(bound),
    decreases n,
{
    if n > 0 {
        lemma_aligned_frame(start, current, n - 1, bound);
        if let Some(v) = aligned(start, current, n) {
            let w = aligned(start, current, n - 1).unwrap();
            let index = start.previous[n - 1];
            assert(index >= bound);
            assert(v.result.take(bound) =~= w.result.take(bound));
        }
    } else {
        assert(start.result.take(bound) =~= start.result.take(bound));
    }
}

/// Adding voices leaves the events before them as they are.
proof fn lemma_appended_frame(
    v: Voices,
    next: Seq<IntermediateEvent>,
    n: int,
    beat: u64,
    bound: int,
)
    requires
        0 <= n <= next.len(),
        voices_from(v, bound),
    ensures
        appended(v, next, n, beat) matches Ok(w) ==> voices_from(w, bound) && w.result.len()
            >= v.result.len() && w.result.take(bound) == v.result.take(bound),
    decreases n,
{
    if n > 0 {
        lemma_appended_frame(v, next, n - 1, beat, bound);
        if let Ok(w) = appended(v, next, n, beat) {
            let u = appended(v, next, n - 1, beat).unwrap();
            assert(w.result.take(bound) =~= u.result.take(bound));
        }
    }
}

/// Once no voice points at the first `bound` events, no later slot changes
/// them.
pub proof fn lemma_slots_taken_frame(arranged: Seq<Arranged>, m: int, n: int, bound: int)
    requires
        1 <= m <= n <= arranged.len(),
        slots_taken(arranged, m) matches Ok(v) && voices_from(v, bound),
    ensures
        slots_taken(arranged, n) matches Ok(w) ==> voices_from(w, bound) && w.result.take(bound)
            == slots_taken(arranged, m).unwrap().result.take(bound),
    decreases n - m,
{
    if m < n {
        lemma_slots_taken_frame(arranged, m, n - 1, bound);
        if let Ok(w) = slots_taken(arranged, n) {
            let u = slots_taken(arranged, n - 1).unwrap();
            let slot = arranged[n - 1];
            let mid = min_of(u.previous.len() as int, slot.values.len() as int);
            lemma_aligned_frame(u, slot.values.take(mid), u.previous.len() as int, bound);
            let a = aligned(u, slot.values.take(mid), u.previous.len() as int).unwrap();
            lemma_appended_frame(a, slot.values.skip(mid), slot.values.len() - mid, slot.beat, bound);
        }
    }
}

/// Once taking slots in has failed, it has failed for good.
proof fn lemma_slots_taken_fails(arranged: Seq<Arranged>, m: int, n: int)
    requires
        1 <= m <= n,
        slots_taken(arranged, m).is_err(),
    ensures
        slots_taken(arranged, n).is_err(),
    decreases n - m,
{
    if m < n {
        lemma_slots_taken_fails(arranged, m, n - 1);
    }
}

/// What the first `n` slots give depends on those slots only.
proof fn lemma_slots_taken_prefix(a: Seq<Arranged>, b: Seq<Arranged>, n: int)
    requires
        1 <= n <= a.len(),
        n <= b.len(),
        forall|i: int| 0 <= i < n ==> a[i] == b[i],
    ensures
        slots_taken(a, n) == slots_taken(b, n),
        forall|voice: int| column_sum(a, voice, n) == column_sum(b, voice, n),
    decreases n,
{
    if n > 1 {
        lemma_slots_taken_prefix(a, b, n - 1);
    }
    assert forall|voice: int| column_sum(a, voice, n) == column_sum(b, voice, n) by {
        reveal_with_fuel(column_sum, 2);
        assert(a[n - 1] == b[n - 1]);
        if n > 1 {
            assert(column_sum(a, voice, n - 1) == column_sum(b, voice, n - 1));
        }
    }
}

/// A single event, `n` single ties behind it, and then a single event that
/// is no tie.
pub open spec fn tie_chain(arranged: Seq<Arranged>, n: int) -> bool {
    &&& 0 <= n
    &&& n + 1 < arranged.len()
    &&& forall|i: int| 0 <= i <= n + 1 ==> (#[trigger] arranged[i]).values.len() == 1
    &&& forall|i: int| 0 <= i <= n ==> (#[trigger] arranged[i]).values[0].duration.wf()
    &&& arranged[0].values[0].value != Audible::Tie
    &&& forall|i: int| 1 <= i <= n ==> (#[trigger] arranged[i]).values[0].value == Audible::Tie
    &&& arranged[n + 1].values[0].value != Audible::Tie
}

/// Ties prolong the event before them, whatever follows: where an event
/// has `n` ties behind it and then another event, the result starts with
/// the first event, as long as itself and its ties together.
pub proof fn lemma_tie_chain(arranged: Seq<Arranged>, n: int)
    requires
        tie_chain(arranged, n),
    ensures
        ties_resolved(arranged) matches Ok(r) ==> {
            &&& r.len() >= 1
            &&& r[0].value == arranged[0].values[0].value
            &&& r[0].octave == arranged[0].values[0].octave
            &&& r[0].beat == arranged[0].values[0].beat
            &&& r[0].beat_position == arranged[0].values[0].beat_position
            &&& r[0].duration.value() == column_sum(arranged, 0, n + 1)
        },
{
    let pre = arranged.take(n + 1);
    assert(tied_voices(pre, 1)) by {
        assert forall|i: int| 0 <= i < pre.len() implies (#[trigger] pre[i]).values.len() == 1 by {
            assert(pre[i] == arranged[i]);
        }
        assert forall|i: int, j: int| 0 <= i < pre.len() && 0 <= j < 1 implies (
        #[trigger] pre[i].values[j]).duration.wf() by {
            assert(pre[i] == arranged[i]);
        }
        assert forall|i: int, j: int| 1 <= i < pre.len() && 0 <= j < 1 implies (
        #[trigger] pre[i].values[j]).value == Audible::Tie by {
            assert(pre[i] == arranged[i]);
        }
        assert(pre[0] == arranged[0]);
    }
    lemma_slots_taken_ties(pre, 1, n + 1);
    lemma_slots_taken_prefix(pre, arranged, n + 1);
    assert(!has_tie(arranged[0].values));
    if let Ok(r) = ties_resolved(arranged) {
        let total = arranged.len() as int;
        if slots_taken(arranged, n + 1).is_err() {
            lemma_slots_taken_fails(arranged, n + 1, total);
        }
        if slots_taken(arranged, n + 2).is_err() {
            lemma_slots_taken_fails(arranged, n + 2, total);
        }
        let v = slots_taken(arranged, n + 1).unwrap();
        let w = slots_taken(arranged, n + 2).unwrap();
        assert(v.previous =~= seq![0int]);
        let slot = arranged[n + 1];
        let event = slot.values[0];
        assert(slot.values.take(1) =~= slot.values);
        assert(slot.values.skip(1) =~= Seq::<IntermediateEvent>::empty());
        assert(0int % 1int == 0);
        reveal_with_fuel(aligned, 2);
        assert(w.result =~= v.result.push(event));
        assert(w.previous =~= seq![1int]);
        assert(voices_from(w, 1));
        lemma_slots_taken_frame(arranged, n + 2, total, 1);
        let last = slots_taken(arranged, total).unwrap();
        assert(last.result.take(1) == w.result.take(1));
        assert(last.result.take(1)[0] == last.result[0]);
        assert(w.result.take(1)[0] == w.result[0]);
    }
}

/// The first `n` events of `current` that are no ties, in their order.
pub open spec fn kept(current: Seq<IntermediateEvent>, n: int) -> Seq<IntermediateEvent>
    decreases n,
{
    if n <= 0 {
        Seq::empty()
    } else if current[n - 1].value == Audible::Tie {
        kept(current, n - 1)
    } else {
        kept(current, n - 1).push(current[n - 1])
    }
}

/// `after` is `before` as the voice `with` leaves it: made longer by a tie,
/// left as it is by any other event.
pub open spec fn met(before: IntermediateEvent, with: IntermediateEvent, after: IntermediateEvent) -> bool {
    if with.value == Audible::Tie {
        &&& after.value == before.value
        &&& after.octave == before.octave
        &&& after.beat == before.beat
        &&& after.beat_position == before.beat_position
        &&& after.duration.wf()
        &&& after.duration.value() == before.duration.value() + with.duration.value()
    } else {
        after == before
    }
}

/// `k` voices met with a slot of `k` events, ties among them: the first
/// `n` voices are prolonged where a tie meets them, and the events that
/// are no ties follow behind the `k` events, in voice order.
proof fn lemma_aligned_mixed(start: Voices, current: Seq<IntermediateEvent>, k: int, n: int)
    requires
        0 <= n <= k,
        start.previous == iota(k as nat),
        start.result.len() == k,
        current.len() == k,
        forall|j: int| 0 <= j < k ==> (#[trigger] current[j]).duration.wf(),
        forall|j: int| 0 <= j < k ==> (#[trigger] start.result[j]).duration.wf(),
    ensures
        aligned(start, current, n) matches Some(v) ==> {
            &&& v.previous.len() == n
            &&& v.result.len() == k + kept(current, n).len()
            &&& v.result.skip(k) == kept(current, n)
            &&& forall|j: int| 0 <= j < n ==> met(start.result[j], current[j], #[trigger] v.result[j])
            &&& forall|j: int| n <= j < k ==> (#[trigger] v.result[j]) == start.result[j]
        },
    decreases n,
{
    if n > 0 {
        lemma_aligned_mixed(start, current, k, n - 1);
        if let Some(v) = aligned(start, current, n) {
            let w = aligned(start, current, n - 1).unwrap();
            assert((n - 1) % k == n - 1) by (nonlinear_arith)
                requires
                    0 <= n - 1 < k,
            ;
            let event = current[n - 1];
            assert(start.previous[n - 1] == n - 1);
            assert(w.result[n - 1] == start.result[n - 1]);
            assert(start.result[n - 1].duration.wf());
            assert(event.duration.wf());
            if event.value == Audible::Tie {
                Ratio::lemma_add_value(w.result[n - 1].duration, event.duration);
                assert(v.result.skip(k) =~= w.result.skip(k));
            } else {
                assert(v.result == w.result.push(event));
                assert(v.result.skip(k) =~= w.result.skip(k).push(event));
            }
            assert forall|j: int| 0 <= j < n implies met(
                start.result[j],
                current[j],
                #[trigger] v.result[j],
            ) by {
                if j < n - 1 {
                    assert(v.result[j] == w.result[j]);
                    assert(met(start.result[j], current[j], w.result[j]));
                }
            }
            assert forall|j: int| n <= j < k implies (#[trigger] v.result[j]) == start.result[j] by {
                assert(v.result[j] == w.result[j]);
            }
        }
    } else {
        let v = aligned(start, current, 0).unwrap();
        assert(v.result.skip(k) =~= Seq::<IntermediateEvent>::empty());
    }
}

/// Ties prolong voice by voice, also where only some voices are tied: of
/// two slots of `k` events each, the first without ties, the result holds
/// the `k` events of the first, each made longer by the tie of its voice
/// if there is one, and behind them the events of the second that are no
/// ties, in voice order and as they are.
pub proof fn lemma_ties_in_some_voices(first: Arranged, second: Arranged, k: int)
    requires
        k >= 1,
        first.values.len() == k,
        second.values.len() == k,
        !has_tie(first.values),
        forall|j: int| 0 <= j < k ==> (#[trigger] first.values[j]).duration.wf(),
        forall|j: int| 0 <= j < k ==> (#[trigger] second.values[j]).duration.wf(),
    ensures
        match ties_resolved(seq![first, second]) {
            Ok(r) => {
                &&& r.len() == k + kept(second.values, k).len()
                &&& forall|j: int|
                    0 <= j < k ==> met(first.values[j], second.values[j], #[trigger] r[j])
                &&& r.skip(k) == kept(second.values, k)
            },
            Err(f) => f == Failure::OutOfRange,
        },
{
    let arranged = seq![first, second];
    reveal_with_fuel(slots_taken, 3);
    let v = slots_taken(arranged, 1).unwrap();
    assert(v.result == first.values);
    assert(second.values.take(k) =~= second.values);
    assert(second.values.skip(k) =~= Seq::<IntermediateEvent>::empty());
    lemma_aligned_mixed(v, second.values, k, k);
    if let Some(w) = aligned(v, second.values, k) {
        assert(appended(w, second.values.skip(k), 0, second.beat) == Ok::<Voices, Failure>(w));
    }
}

/// A fraction is never negative.
pub proof fn lemma_value_not_negative(r: Ratio)
    requires
        r.wf(),
    ensures
        r.value() >= 0 as real,
{
    let (n, d) = (r.numer(), r.denom());
    Ratio::lemma_positive_denominator(r);
    assert(n as real / d as real >= 0 as real) by (nonlinear_arith)
        requires
            n >= 0,
            d > 0,
    ;
}

/// The slots follow each other from the offset `from` on: each starts where
/// the one before it ends.
pub open spec fn contiguous(slots: Seq<Arranged>, from: real) -> bool {
    forall|k: int|
        0 <= k < slots.len() ==> {
            &&& (#[trigger] slots[k]).duration.wf()
            &&& slots[k].beat_position.wf()
            &&& slots[k].beat_position.value() == from + duration_sum(slots, k)
        }
}

/// The durations of two lists of slots, one behind the other, add up.
pub proof fn lemma_duration_sum_concat(a: Seq<Arranged>, b: Seq<Arranged>, k: int)
    requires
        0 <= k <= b.len(),
    ensures
        duration_sum(a + b, a.len() + k) == duration_sum(a, a.len() as int) + duration_sum(b, k),
    decreases k,
{
    if k > 0 {
        lemma_duration_sum_concat(a, b, k - 1);
        assert((a + b)[a.len() + k - 1] == b[k - 1]);
    } else {
        lemma_duration_sum_prefix(a, a + b, a.len() as int);
    }
}

/// Slots that follow each other, and more slots that follow each other from
/// the end of the first on, follow each other as one list.
pub proof fn lemma_contiguous_concat(a: Seq<Arranged>, b: Seq<Arranged>, from: real)
    requires
        contiguous(a, from),
        contiguous(b, from + duration_sum(a, a.len() as int)),
    ensures
        contiguous(a + b, from),
        duration_sum(a + b, (a + b).len() as int) == duration_sum(a, a.len() as int) + duration_sum(
            b,
            b.len() as int,
        ),
{
    let c = a + b;
    assert forall|k: int| 0 <= k < c.len() implies {
        &&& (#[trigger] c[k]).duration.wf()
        &&& c[k].beat_position.wf()
        &&& c[k].beat_position.value() == from + duration_sum(c, k)
    } by {
        if k < a.len() {
            assert(c[k] == a[k]);
            lemma_duration_sum_prefix(a, c, k);
        } else {
            assert(c[k] == b[k - a.len()]);
            lemma_duration_sum_concat(a, b, k - a.len());
        }
    }
    lemma_duration_sum_concat(a, b, b.len() as int);
}

/// The slots of a group follow each other from the offset of its start on,
/// and the offset behind the group is that of its end.
pub proof fn lemma_group_contiguous(atoms: Seq<ast::PatternAtom>, n: int, start: AtomInterpreter)
    requires
        0 <= n <= atoms.len(),
        start.position.wf(),
    ensures
        group_lowered(atoms, n, start) matches Ok((out, state)) ==> {
            &&& state.position.wf()
            &&& contiguous(out, start.position.value())
            &&& state.position.value() == start.position.value() + duration_sum(
                out,
                out.len() as int,
            )
        },
    decreases n,
{
    if n > 0 {
        lemma_group_contiguous(atoms, n - 1, start);
        if let Ok((out, state)) = group_lowered(atoms, n, start) {
            let (before, mid) = group_lowered(atoms, n - 1, start).unwrap();
            if out.len() > before.len() {
                let slot = out[out.len() - 1];
                assert(out == before.push(slot));
                Ratio::lemma_of(1, 1);
                lemma_methods_applied(Ratio::of(1, 1), atoms[n - 1].methods@);
                Ratio::lemma_add_value(mid.position, slot.duration);
                assert forall|k: int| 0 <= k < out.len() implies {
                    &&& (#[trigger] out[k]).duration.wf()
                    &&& out[k].beat_position.wf()
                    &&& out[k].beat_position.value() == start.position.value() + duration_sum(
                        out,
                        k,
                    )
                } by {
                    lemma_duration_sum_prefix(before, out, if k < before.len() {
                        k
                    } else {
                        before.len() as int
                    });
                    if k < before.len() {
                        assert(out[k] == before[k]);
                    }
                }
                lemma_duration_sum_prefix(before, out, before.len() as int);
            }
        }
    }
}

/// The slots that a parenthesised event spreads follow each other from the
/// offset of its start on.
pub proof fn lemma_spread_contiguous(
    values: Seq<IntermediateEvent>,
    n: int,
    modifier: Ratio,
    beat: u64,
    position: Ratio,
)
    requires
        0 <= n <= values.len(),
        position.wf(),
    ensures
        spread(values, n, modifier, beat, position) matches Some((out, next)) ==> {
            &&& out.len() == n
            &&& next.wf()
            &&& contiguous(out, position.value())
            &&& next.value() == position.value() + duration_sum(out, n)
        },
    decreases n,
{
    if n > 0 {
        lemma_spread_contiguous(values, n - 1, modifier, beat, position);
        if let Some((out, next)) = spread(values, n, modifier, beat, position) {
            let (before, at) = spread(values, n - 1, modifier, beat, position).unwrap();
            let slot = out[n - 1];
            assert(out == before.push(slot));
            Ratio::lemma_make(
                values[n - 1].duration.numer() * modifier.numer(),
                values[n - 1].duration.denom() * modifier.denom(),
            );
            Ratio::lemma_add_value(at, slot.duration);
            assert forall|k: int| 0 <= k < out.len() implies {
                &&& (#[trigger] out[k]).duration.wf()
                &&& out[k].beat_position.wf()
                &&& out[k].beat_position.value() == position.value() + duration_sum(out, k)
            } by {
                lemma_duration_sum_prefix(before, out, if k < n - 1 {
                    k
                } else {
                    n - 1
                });
                if k < n - 1 {
                    assert(out[k] == before[k]);
                }
            }
            lemma_duration_sum_prefix(before, out, n - 1);
        }
    }
}

/// The slots of an event follow each other from the offset of its start
/// on, and the offset behind the event is that of its end.
pub proof fn lemma_event_contiguous(
    event: ast::Event,
    beat: u64,
    octave: types::Octave,
    position: Ratio,
)
    requires
        position.wf(),
    ensures
        event_lowered(event, beat, octave, position) matches Ok((out, _, next)) ==> {
            &&& next.wf()
            &&& contiguous(out, position.value())
            &&& next.value() == position.value() + duration_sum(out, out.len() as int)
        },
{
    match event {
        ast::Event::Group(atoms) => {
            lemma_group_contiguous(
                atoms@,
                atoms@.len() as int,
                AtomInterpreter { octave, octave_change: None, position, beat },
            );
        },
        ast::Event::ParenthesisedEvent(inner) => {
            if let Ok((out, _, next)) = parenthesised_lowered(inner, beat, octave, position) {
                let (arranged, _) = crate::interpreter::beats_lowered(
                    inner.inner@,
                    inner.inner@.len() as int,
                    octave,
                    inner.inner@.len() as usize,
                ).unwrap();
                let modifier = methods_applied(Ratio::of(1, 1), inner.methods@).unwrap();
                let values = crate::interpreter::flattened(arranged, arranged.len() as int);
                lemma_spread_contiguous(values, values.len() as int, modifier, beat, position);
            }
        },
        ast::Event::Chord(chord) => {
            if let Ok((out, _, next)) = chord_lowered(chord, beat, octave, position) {
                Ratio::lemma_of(1, 1);
                lemma_methods_applied(Ratio::of(1, 1), chord.methods@);
                let modifier = methods_applied(Ratio::of(1, 1), chord.methods@).unwrap();
                Ratio::lemma_add_value(position, modifier);
                reveal_with_fuel(duration_sum, 2);
            }
        },
    }
}

/// The slots of the events of a beat follow each other from the offset of
/// the start on.
pub proof fn lemma_events_contiguous(
    events: Seq<ast::Event>,
    n: int,
    beat: u64,
    octave: types::Octave,
    position: Ratio,
)
    requires
        0 <= n <= events.len(),
        position.wf(),
    ensures
        events_lowered(events, n, beat, octave, position) matches Ok((out, _, next)) ==> {
            &&& next.wf()
            &&& contiguous(out, position.value())
            &&& next.value() == position.value() + duration_sum(out, out.len() as int)
        },
    decreases n,
{
    if n > 0 {
        lemma_events_contiguous(events, n - 1, beat, octave, position);
        if let Ok((out, _, next)) = events_lowered(events, n, beat, octave, position) {
            let (before, register, at) = events_lowered(events, n - 1, beat, octave, position).unwrap();
            lemma_event_contiguous(events[n - 1], beat, register, at);
            let (more, _, _) = event_lowered(events[n - 1], beat, register, at).unwrap();
            lemma_contiguous_concat(before, more, position.value());
        }
    }
}

/// A well-formed fraction above zero.
pub open spec fn positive(r: Ratio) -> bool {
    r.wf() && r.value() > 0 as real
}

/// Every event lasts longer than nothing.
pub open spec fn values_positive(values: Seq<IntermediateEvent>) -> bool {
    forall|j: int| 0 <= j < values.len() ==> positive((#[trigger] values[j]).duration)
}

/// Every slot, and every event in it, lasts longer than nothing.
pub open spec fn slots_positive(slots: Seq<Arranged>) -> bool {
    forall|i: int|
        0 <= i < slots.len() ==> positive((#[trigger] slots[i]).duration) && values_positive(
            slots[i].values,
        )
}

/// Methods never bring a duration to nothing: each factor is above zero.
pub proof fn lemma_methods_positive(methods: Seq<ast::EventMethod>)
    ensures
        methods_factor(methods) > 0 as real,
        methods_applied(Ratio::of(1, 1), methods) matches Some(r) ==> positive(r),
    decreases methods.len(),
{
    if methods.len() > 0 {
        lemma_methods_positive(methods.drop_last());
        let f = methods_factor(methods.drop_last());
        let m = method_factor(methods.last());
        assert(1 as real / 2 as real > 0 as real) by (nonlinear_arith);
        assert(3 as real / 2 as real > 0 as real) by (nonlinear_arith);
        assert(f * m > 0 as real) by (nonlinear_arith)
            requires
                f > 0 as real,
                m > 0 as real,
        ;
    }
    Ratio::lemma_of(1, 1);
    lemma_methods_applied(Ratio::of(1, 1), methods);
    assert(1 as real / 1 as real == 1 as real) by (nonlinear_arith);
    let f = methods_factor(methods);
    assert((1 as real) * f == f) by (nonlinear_arith);
}

/// The slots of a group last longer than nothing.
pub proof fn lemma_group_positive(atoms: Seq<ast::PatternAtom>, n: int, start: AtomInterpreter)
    requires
        0 <= n <= atoms.len(),
    ensures
        group_lowered(atoms, n, start) matches Ok((out, _)) ==> slots_positive(out),
    decreases n,
{
    if n > 0 {
        lemma_group_positive(atoms, n - 1, start);
        if let Ok((out, _)) = group_lowered(atoms, n, start) {
            let (before, _) = group_lowered(atoms, n - 1, start).unwrap();
            lemma_methods_positive(atoms[n - 1].methods@);
            assert forall|i: int| 0 <= i < out.len() implies positive((#[trigger] out[i]).duration)
                && values_positive(out[i].values) by {
                if i < before.len() {
                    assert(out[i] == before[i]);
                }
            }
        }
    }
}

/// Where every slot and event lasts, every event of the flattened slots
/// lasts.
pub proof fn lemma_flattened_positive(arranged: Seq<Arranged>, n: int)
    requires
        0 <= n <= arranged.len(),
        slots_positive(arranged),
    ensures
        values_positive(flattened(arranged, n)),
    decreases n,
{
    if n > 0 {
        lemma_flattened_positive(arranged, n - 1);
        let before = flattened(arranged, n - 1);
        let all = flattened(arranged, n);
        assert forall|j: int| 0 <= j < all.len() implies positive((#[trigger] all[j]).duration) by {
            if j < before.len() {
                assert(all[j] == before[j]);
            } else {
                assert(all[j] == arranged[n - 1].values[j - before.len()]);
                assert(values_positive(arranged[n - 1].values));
            }
        }
    }
}

/// A product of two fractions above zero is above zero.
pub proof fn lemma_product_positive(a: Ratio, b: Ratio)
    requires
        positive(a),
        positive(b),
    ensures
        a.spec_checked_mul(b) matches Some(r) ==> positive(r),
{
    Ratio::lemma_mul_value(a, b);
    let (x, y) = (a.value(), b.value());
    assert(x * y > 0 as real) by (nonlinear_arith)
        requires
            x > 0 as real,
            y > 0 as real,
    ;
}

/// A quotient of two fractions above zero is above zero.
pub proof fn lemma_quotient_positive(a: Ratio, b: Ratio)
    requires
        positive(a),
        positive(b),
    ensures
        a.spec_checked_div(b) matches Some(r) ==> positive(r),
{
    Ratio::lemma_div_value(a, b);
    let (x, y) = (a.value(), b.value());
    assert(x / y > 0 as real) by (nonlinear_arith)
        requires
            x > 0 as real,
            y > 0 as real,
    ;
}

/// The slots that a parenthesised event spreads last longer than nothing.
pub proof fn lemma_spread_positive(
    values: Seq<IntermediateEvent>,
    n: int,
    modifier: Ratio,
    beat: u64,
    position: Ratio,
)
    requires
        0 <= n <= values.len(),
        values_positive(values),
        positive(modifier),
    ensures
        spread(values, n, modifier, beat, position) matches Some((out, _)) ==> slots_positive(out),
    decreases n,
{
    if n > 0 {
        lemma_spread_positive(values, n - 1, modifier, beat, position);
        if let Some((out, _)) = spread(values, n, modifier, beat, position) {
            let (before, _) = spread(values, n - 1, modifier, beat, position).unwrap();
            assert(positive(values[n - 1].duration));
            lemma_product_positive(values[n - 1].duration, modifier);
            assert forall|i: int| 0 <= i < out.len() implies positive((#[trigger] out[i]).duration)
                && values_positive(out[i].values) by {
                if i < before.len() {
                    assert(out[i] == before[i]);
                }
            }
        }
    }
}

/// The voices that a chord stacks last longer than nothing.
pub proof fn lemma_stacked_positive(
    values: Seq<IntermediateEvent>,
    n: int,
    modifier: Ratio,
    beat: u64,
    position: Ratio,
)
    requires
        0 <= n <= values.len(),
        values_positive(values),
        positive(modifier),
    ensures
        stacked(values, n, modifier, beat, position) matches Some(out) ==> values_positive(out),
    decreases n,
{
    if n > 0 {
        lemma_stacked_positive(values, n - 1, modifier, beat, position);
        if let Some(out) = stacked(values, n, modifier, beat, position) {
            let before = stacked(values, n - 1, modifier, beat, position).unwrap();
            assert(positive(values[n - 1].duration));
            lemma_product_positive(values[n - 1].duration, modifier);
            assert forall|j: int| 0 <= j < out.len() implies positive((#[trigger] out[j]).duration) by {
                if j < before.len() {
                    assert(out[j] == before[j]);
                }
            }
        }
    }
}

/// Events that last, divided by a divisor above zero, last.
pub proof fn lemma_values_scaled_positive(values: Seq<IntermediateEvent>, n: int, divisor: Ratio)
    requires
        0 <= n <= values.len(),
        values_positive(values),
        positive(divisor),
    ensures
        values_scaled(values, n, divisor) matches Some(out) ==> values_positive(out),
    decreases n,
{
    if n > 0 {
        lemma_values_scaled_positive(values, n - 1, divisor);
        if let Some(out) = values_scaled(values, n, divisor) {
            let before = values_scaled(values, n - 1, divisor).unwrap();
            assert(positive(values[n - 1].duration));
            lemma_quotient_positive(values[n - 1].duration, divisor);
            assert forall|j: int| 0 <= j < out.len() implies positive((#[trigger] out[j]).duration) by {
                if j < before.len() {
                    assert(out[j] == before[j]);
                }
            }
        }
    }
}

/// Slots that last, divided by a divisor above zero, last.
pub proof fn lemma_group_scaled_positive(group: Seq<Arranged>, n: int, divisor: Ratio)
    requires
        0 <= n <= group.len(),
        slots_positive(group),
        positive(divisor),
    ensures
        group_scaled(group, n, divisor) matches Some(out) ==> slots_positive(out),
    decreases n,
{
    if n > 0 {
        lemma_group_scaled_positive(group, n - 1, divisor);
        if let Some(out) = group_scaled(group, n, divisor) {
            let before = group_scaled(group, n - 1, divisor).unwrap();
            let slot = group[n - 1];
            assert(positive(slot.duration) && values_positive(slot.values));
            lemma_quotient_positive(slot.duration, divisor);
            lemma_values_scaled_positive(slot.values, slot.values.len() as int, divisor);
            assert forall|i: int| 0 <= i < out.len() implies positive((#[trigger] out[i]).duration)
                && values_positive(out[i].values) by {
                if i < before.len() {
                    assert(out[i] == before[i]);
                }
            }
        }
    }
}

/// A normalised beat of slots that last is made of slots that last.
pub proof fn lemma_normalized_positive(group: Seq<Arranged>, multiplier: usize)
    requires
        slots_positive(group),
    ensures
        normalized(group, multiplier) matches Some(out) ==> slots_positive(out),
{
    let n = group.len() as int;
    if let Some(out) = normalized(group, multiplier) {
        if n > 0 {
            assert(sound(group)) by {
                assert forall|i: int| 0 <= i < group.len() implies (#[trigger] group[i]).duration.wf() by {
                    assert(positive(group[i].duration));
                }
            }
            lemma_total_duration(group, n);
            let total = total_duration(group, n).unwrap();
            let divisor = beat_divisor(group, multiplier).unwrap();
            Ratio::lemma_of(multiplier as nat, 1);
            Ratio::lemma_mul_value(total, Ratio::of(multiplier as nat, 1));
            lemma_group_scaled(group, n, divisor);
            lemma_value_not_negative(divisor);
            lemma_group_scaled_positive(group, n, divisor);
        } else {
            assert(out =~= Seq::<Arranged>::empty());
        }
    }
}

/// Every slot and every event that lowering an event gives lasts longer
/// than nothing.
pub proof fn lemma_event_positive(
    event: ast::Event,
    beat: u64,
    octave: types::Octave,
    position: Ratio,
)
    ensures
        event_lowered(event, beat, octave, position) matches Ok((out, _, _)) ==> slots_positive(
            out,
        ),
    decreases event, 0nat,
{
    match event {
        ast::Event::Group(atoms) => {
            lemma_group_positive(
                atoms@,
                atoms@.len() as int,
                AtomInterpreter { octave, octave_change: None, position, beat },
            );
        },
        ast::Event::ParenthesisedEvent(inner) => {
            lemma_parenthesised_positive(inner, beat, octave, position);
        },
        ast::Event::Chord(chord) => {
            lemma_chord_positive(chord, beat, octave, position);
        },
    }
}

/// Every slot and every event that lowering a parenthesised event gives
/// lasts longer than nothing.
pub proof fn lemma_parenthesised_positive(
    inner: ast::ParenthesisedEvent,
    beat: u64,
    octave: types::Octave,
    position: Ratio,
)
    ensures
        parenthesised_lowered(inner, beat, octave, position) matches Ok((out, _, _))
            ==> slots_positive(out),
    decreases inner, 0nat,
{
    if let Ok((out, _, _)) = parenthesised_lowered(inner, beat, octave, position) {
        let n = inner.inner@.len();
        lemma_beats_positive(inner.inner@, n as int, octave, n as usize);
        let (arranged, _) = beats_lowered(inner.inner@, n as int, octave, n as usize).unwrap();
        lemma_methods_positive(inner.methods@);
        let modifier = methods_applied(Ratio::of(1, 1), inner.methods@).unwrap();
        lemma_flattened_positive(arranged, arranged.len() as int);
        let values = flattened(arranged, arranged.len() as int);
        lemma_spread_positive(values, values.len() as int, modifier, beat, position);
    }
}

/// Every slot and every event that lowering a chord gives lasts longer
/// than nothing.
pub proof fn lemma_chord_positive(
    chord: ast::Chord,
    beat: u64,
    octave: types::Octave,
    position: Ratio,
)
    ensures
        chord_lowered(chord, beat, octave, position) matches Ok((out, _, _)) ==> slots_positive(
            out,
        ),
    decreases chord, 0nat,
{
    if let Ok((out, _, _)) = chord_lowered(chord, beat, octave, position) {
        let n = chord.inner@.len();
        lemma_beats_positive(chord.inner@, n as int, octave, 1);
        let (arranged, _) = beats_lowered(chord.inner@, n as int, octave, 1).unwrap();
        lemma_methods_positive(chord.methods@);
        let modifier = methods_applied(Ratio::of(1, 1), chord.methods@).unwrap();
        lemma_flattened_positive(arranged, arranged.len() as int);
        let values = flattened(arranged, arranged.len() as int);
        lemma_stacked_positive(values, values.len() as int, modifier, beat, position);
    }
}

/// Every slot and every event that lowering the events of a beat gives
/// lasts longer than nothing.
pub proof fn lemma_events_positive(
    events: Seq<ast::Event>,
    n: int,
    beat: u64,
    octave: types::Octave,
    position: Ratio,
)
    ensures
        events_lowered(events, n, beat, octave, position) matches Ok((out, _, _))
            ==> slots_positive(out),
    decreases events, n,
{
    if 0 < n <= events.len() {
        lemma_events_positive(events, n - 1, beat, octave, position);
        if let Ok((out, _, _)) = events_lowered(events, n, beat, octave, position) {
            let (before, register, at) = events_lowered(events, n - 1, beat, octave, position).unwrap();
            lemma_event_positive(events[n - 1], beat, register, at);
            let (more, _, _) = event_lowered(events[n - 1], beat, register, at).unwrap();
            assert forall|i: int| 0 <= i < out.len() implies positive((#[trigger] out[i]).duration)
                && values_positive(out[i].values) by {
                if i < before.len() {
                    assert(out[i] == before[i]);
                } else {
                    assert(out[i] == more[i - before.len()]);
                }
            }
        }
    }
}

/// Every slot and every event that lowering a beat gives lasts longer than
/// nothing.
pub proof fn lemma_beat_positive(
    beat_event: ast::BeatEvent,
    beat: u64,
    octave: types::Octave,
    multiplier: usize,
)
    ensures
        beat_lowered(beat_event, beat, octave, multiplier) matches Ok((out, _)) ==> slots_positive(
            out,
        ),
    decreases beat_event, 0nat,
{
    if let Ok((out, _)) = beat_lowered(beat_event, beat, octave, multiplier) {
        let n = beat_event.0@.len() as int;
        lemma_events_positive(beat_event.0@, n, beat, octave, Ratio::of(0, 1));
        let (slots, _, _) = events_lowered(beat_event.0@, n, beat, octave, Ratio::of(0, 1)).unwrap();
        lemma_normalized_positive(slots, multiplier);
    }
}

/// Every slot and every event that lowering beats gives lasts longer than
/// nothing.
pub proof fn lemma_beats_positive(
    beats: Seq<ast::BeatEvent>,
    n: int,
    octave: types::Octave,
    multiplier: usize,
)
    ensures
        beats_lowered(beats, n, octave, multiplier) matches Ok((out, _)) ==> slots_positive(out),
    decreases beats, n,
{
    if 0 < n <= beats.len() {
        lemma_beats_positive(beats, n - 1, octave, multiplier);
        if let Ok((out, _)) = beats_lowered(beats, n, octave, multiplier) {
            let (before, register) = beats_lowered(beats, n - 1, octave, multiplier).unwrap();
            lemma_beat_positive(beats[n - 1], (n - 1) as u64, register, multiplier);
            let (more, _) = beat_lowered(beats[n - 1], (n - 1) as u64, register, multiplier).unwrap();
            assert forall|i: int| 0 <= i < out.len() implies positive((#[trigger] out[i]).duration)
                && values_positive(out[i].values) by {
                if i < before.len() {
                    assert(out[i] == before[i]);
                } else {
                    assert(out[i] == more[i - before.len()]);
                }
            }
        }
    }
}

/// Each slot divided by the divisor, times the divisor, is the slot: its
/// duration and its offset.
pub proof fn lemma_group_scaled_exact(group: Seq<Arranged>, n: int, divisor: Ratio)
    requires
        0 <= n <= group.len(),
        forall|i: int|
            0 <= i < group.len() ==> (#[trigger] group[i]).duration.wf()
                && group[i].beat_position.wf(),
        divisor.wf(),
    ensures
        group_scaled(group, n, divisor) matches Some(out) ==> {
            &&& out.len() == n
            &&& n > 0 ==> divisor.value() != 0 as real
            &&& forall|k: int|
                0 <= k < n ==> {
                    &&& (#[trigger] out[k]).duration.wf()
                    &&& out[k].beat_position.wf()
                    &&& out[k].duration.value() * divisor.value() == group[k].duration.value()
                    &&& out[k].beat_position.value() * divisor.value()
                        == group[k].beat_position.value()
                }
        },
    decreases n,
{
    if n > 0 {
        lemma_group_scaled_exact(group, n - 1, divisor);
        if let Some(out) = group_scaled(group, n, divisor) {
            let before = group_scaled(group, n - 1, divisor).unwrap();
            let slot = group[n - 1];
            assert(slot.duration.wf() && slot.beat_position.wf());
            Ratio::lemma_div_value(slot.duration, divisor);
            Ratio::lemma_div_value(slot.beat_position, divisor);
            let d = divisor.value();
            let x = slot.duration.value();
            let y = slot.beat_position.value();
            assert((x / d) * d == x && (y / d) * d == y) by (nonlinear_arith)
                requires
                    d != 0 as real,
            ;
            assert forall|k: int| 0 <= k < n implies {
                &&& (#[trigger] out[k]).duration.wf()
                &&& out[k].beat_position.wf()
                &&& out[k].duration.value() * divisor.value() == group[k].duration.value()
                &&& out[k].beat_position.value() * divisor.value() == group[k].beat_position.value()
            } by {
                if k < n - 1 {
                    assert(out[k] == before[k]);
                }
            }
        }
    }
}

/// Where each duration of `out` times `d` is the duration of `group`, the
/// sums are in the same proportion.
pub proof fn lemma_sum_scaled(out: Seq<Arranged>, group: Seq<Arranged>, k: int, d: real)
    requires
        0 <= k <= out.len(),
        k <= group.len(),
        forall|i: int| 0 <= i < k ==> (#[trigger] out[i]).duration.value() * d == group[i].duration.value(),
    ensures
        duration_sum(out, k) * d == duration_sum(group, k),
    decreases k,
{
    if k > 0 {
        lemma_sum_scaled(out, group, k - 1, d);
        let a = duration_sum(out, k - 1);
        let x = out[k - 1].duration.value();
        assert((a + x) * d == a * d + x * d) by (nonlinear_arith);
    } else {
        assert((0 as real) * d == 0 as real) by (nonlinear_arith);
    }
}

/// Where every slot lasts, the durations of more slots add up to more.
pub proof fn lemma_duration_sum_grows(slots: Seq<Arranged>, k: int, n: int)
    requires
        0 <= k < n <= slots.len(),
        slots_positive(slots),
    ensures
        duration_sum(slots, k) < duration_sum(slots, n),
    decreases n - k,
{
    assert(positive(slots[n - 1].duration));
    if k < n - 1 {
        lemma_duration_sum_grows(slots, k, n - 1);
    }
}

/// Every slot starts where the slots before it end, the first at the start
/// of the beat, and every slot starts within the beat: its offset, times
/// the number of beats that the beat is a part of, is below one.
pub open spec fn offsets_within(out: Seq<Arranged>, multiplier: usize) -> bool {
    forall|k: int|
        0 <= k < out.len() ==> {
            &&& (#[trigger] out[k]).beat_position.wf()
            &&& out[k].beat_position.value() == duration_sum(out, k)
            &&& 0 as real <= out[k].beat_position.value()
            &&& out[k].beat_position.value() * (multiplier as real) < 1 as real
        }
}

/// The slots of a lowered beat lie within the beat: the first starts at
/// its start, each starts where the one before it ends, and all of them
/// start before the beat is over.
pub proof fn lemma_beat_offsets(
    beat_event: ast::BeatEvent,
    beat: u64,
    octave: types::Octave,
    multiplier: usize,
)
    ensures
        beat_lowered(beat_event, beat, octave, multiplier) matches Ok((out, _)) ==> offsets_within(
            out,
            multiplier,
        ) && slots_positive(out) && (out.len() > 0 ==> out[0].beat_position.value() == 0 as real),
{
    if let Ok((out, _)) = beat_lowered(beat_event, beat, octave, multiplier) {
        let count = beat_event.0@.len() as int;
        let start = Ratio::of(0, 1);
        Ratio::lemma_of(0, 1);
        assert(start.value() == 0 as real) by (nonlinear_arith)
            requires
                start.value() == 0 as real / 1 as real,
        ;
        lemma_events_contiguous(beat_event.0@, count, beat, octave, start);
        lemma_events_positive(beat_event.0@, count, beat, octave, start);
        lemma_beat_positive(beat_event, beat, octave, multiplier);
        let (pre, _, _) = events_lowered(beat_event.0@, count, beat, octave, start).unwrap();
        let n = pre.len() as int;
        if n > 0 {
            assert(sound(pre)) by {
                assert forall|i: int| 0 <= i < pre.len() implies (#[trigger] pre[i]).duration.wf() by {
                    assert(positive(pre[i].duration));
                }
            }
            lemma_total_duration(pre, n);
            let total = total_duration(pre, n).unwrap();
            let divisor = beat_divisor(pre, multiplier).unwrap();
            Ratio::lemma_of(multiplier as nat, 1);
            Ratio::lemma_mul_value(total, Ratio::of(multiplier as nat, 1));
            lemma_group_scaled_exact(pre, n, divisor);
            lemma_beat_is_whole(pre, multiplier);
            let d = divisor.value();
            let m = multiplier as real;
            let whole = duration_sum(out, n);
            assert(m > 0 as real) by (nonlinear_arith)
                requires
                    whole * m == 1 as real,
                    m >= 0 as real,
            ;
            assert forall|k: int| 0 <= k < out.len() implies {
                &&& (#[trigger] out[k]).beat_position.wf()
                &&& out[k].beat_position.value() == duration_sum(out, k)
                &&& 0 as real <= out[k].beat_position.value()
                &&& out[k].beat_position.value() * m < 1 as real
            } by {
                lemma_sum_scaled(out, pre, k, d);
                let p = out[k].beat_position.value();
                let q = duration_sum(out, k);
                assert(p == q) by (nonlinear_arith)
                    requires
                        p * d == q * d,
                        d != 0 as real,
                ;
                lemma_value_not_negative(out[k].beat_position);
                lemma_duration_sum_grows(out, k, n);
                assert(p * m < 1 as real) by (nonlinear_arith)
                    requires
                        p < whole,
                        whole * m == 1 as real,
                        m > 0 as real,
                ;
            }
        } else {
            assert(out =~= Seq::<Arranged>::empty());
        }
    }
}

} // verus!
