//! Degrees, scales, octaves and the streams of events that carry them.

use vstd::prelude::*;
use vstd::std_specs::convert::FromSpecImpl;
use crate::clock::{Cursor, CursorPosition, Duration};

verus! {

/// The pitch set of the chromatic scale.
pub open spec fn chromatic() -> Seq<u64> {
    seq![0u64, 1u64, 2u64, 3u64, 4u64, 5u64, 6u64, 7u64, 8u64, 9u64, 10u64, 11u64]
}

/// `x` limited to what a `u64` holds.
pub open spec fn clamp_to_u64(x: int) -> u64 {
    if x < 0 {
        0
    } else if x > u64::MAX {
        u64::MAX
    } else {
        x as u64
    }
}

/// The highest octave whose pitch is still a `u64`.
pub const MAX_OCTAVE: u64 = 1537228672809129301;

/// What a scheduled event carries when it fires.
#[derive(Debug, PartialEq)]
pub enum Value {
    /// A pitch number.
    Pitch(u64),
    /// A named modulation and its amount, as the bit pattern of a 64-bit
    /// IEEE 754 number.
    Modulation(String, u64),
}

impl Value {
    /// The pitch of `degree` in `scale`, above `root` and `octave`, never
    /// below zero.
    pub open spec fn spec_new_pitch(degree: Degree, root: Root, octave: Octave, scale: Scale) -> Value {
        Value::pitch_of(degree, root, octave, scale.pitch_set())
    }

    /// The pitch of `degree` in a scale with the pitch set `set`, above
    /// `root` and `octave`, never below zero.
    pub open spec fn pitch_of(degree: Degree, root: Root, octave: Octave, set: Seq<u64>) -> Value {
        Value::Pitch(clamp_to_u64(octave.pitch() + root.0 + degree.spec_as_pitch_at_scale(set)))
    }

    pub fn new_pitch(degree: &Degree, root: &Root, octave: &Octave, scale: &Scale) -> (r: Value)
        ensures
            r == Value::spec_new_pitch(*degree, *root, *octave, *scale),
    {
        let pitch_offset: i128 = degree.pitch_offset(scale);
        let pitch: i128 = octave.get_pitch() as i128 + root.0 as i128 + pitch_offset;
        if pitch < 0 {
            Value::Pitch(0)
        } else if pitch > u64::MAX as i128 {
            Value::Pitch(u64::MAX)
        } else {
            Value::Pitch(pitch as u64)
        }
    }
}

impl FromSpecImpl<Modulation> for Value {
    open spec fn obeys_from_spec() -> bool {
        true
    }

    open spec fn from_spec(value: Modulation) -> Value {
        Value::Modulation(value.name, value.value)
    }
}

impl From<Modulation> for Value {
    fn from(value: Modulation) -> Self {
        Value::Modulation(value.name, value.value)
    }
}

impl Clone for Value {
    fn clone(&self) -> (r: Self)
        ensures
            r == *self,
    {
        match self {
            Value::Pitch(p) => Value::Pitch(*p),
            Value::Modulation(name, amount) => Value::Modulation(name.clone(), *amount),
        }
    }
}

impl Default for Value {
    fn default() -> (r: Self)
        ensures
            r == Value::Pitch(60),
    {
        Value::Pitch(60)
    }
}

/// A step of a scale, with a chromatic alteration.
#[derive(Clone, Copy, Debug, PartialEq, Eq, Structural)]
pub struct Degree {
    pub value: u64,
    pub alteration: i64,
}

impl Degree {
    /// The degree's distance from the root, in semitones:
    /// `set[value % |set|] + 12 * (value / |set|) + alteration`.
    pub open spec fn spec_as_pitch_at_scale(self, set: Seq<u64>) -> int {
        set[(self.value as int) % (set.len() as int)] + 12 * ((self.value as int) / (
        set.len() as int)) + self.alteration
    }

    /// The degree's distance from the root of `scale`, in semitones.
    pub fn as_pitch_at_scale(&self, scale: &Scale) -> (r: i64)
        requires
            i64::MIN <= self.spec_as_pitch_at_scale(scale.pitch_set()) <= i64::MAX,
        ensures
            r == self.spec_as_pitch_at_scale(scale.pitch_set()),
    {
        self.pitch_offset(scale) as i64
    }

    /// The same distance in a width that always holds it.
    fn pitch_offset(&self, scale: &Scale) -> (r: i128)
        ensures
            r == self.spec_as_pitch_at_scale(scale.pitch_set()),
            -0x8000_0000_0000_0000 <= r <= 14 * 0x1_0000_0000_0000_0000,
    {
        proof {
            use_type_invariant(scale);
        }
        let set = scale.pitch_set_ref();
        let len: usize = set.len();
        assert(len > 0);
        let octaves: u64 = self.value / (len as u64);
        let index: usize = (self.value % (len as u64)) as usize;
        set[index] as i128 + 12 * (octaves as i128) + self.alteration as i128
    }
}

impl Default for Degree {
    fn default() -> (r: Self)
        ensures
            r == (Degree { value: 0, alteration: 0 }),
    {
        Degree { value: 0, alteration: 0 }
    }
}

impl FromSpecImpl<u64> for Degree {
    open spec fn obeys_from_spec() -> bool {
        true
    }

    open spec fn from_spec(value: u64) -> Degree {
        Degree { value, alteration: 0 }
    }
}

impl From<u64> for Degree {
    fn from(value: u64) -> Self {
        Self { value, alteration: 0 }
    }
}

/// The pitch a scale starts from.
#[derive(Clone, Copy, Debug, PartialEq, Eq, Structural)]
pub struct Root(pub u64);

impl Default for Root {
    fn default() -> (r: Self)
        ensures
            r == Root(0),
    {
        Root(0)
    }
}

/// An octave register: a pitch and the number of the octave it lies in.
#[derive(Clone, Copy, Debug, PartialEq, Eq)]
pub struct Octave {
    pitch: u64,
    octave: u64,
}

impl Octave {
    #[verifier::type_invariant]
    pub closed spec fn wf(self) -> bool {
        self.octave == self.pitch / 12
    }

    /// The pitch of the register.
    pub closed spec fn pitch(self) -> u64 {
        self.pitch
    }

    /// The number of the octave.
    pub closed spec fn number(self) -> u64 {
        self.octave
    }

    /// The register that starts octave `octave`.
    pub closed spec fn at(octave: u64) -> Octave {
        Octave { pitch: (octave * 12) as u64, octave }
    }

    /// The register at `pitch`, within its octave.
    pub closed spec fn at_pitch(pitch: u64) -> Octave {
        Octave { pitch, octave: pitch / 12 }
    }

    /// The number of the next octave up; the highest octave stays.
    pub open spec fn number_above(n: u64) -> u64 {
        if n < MAX_OCTAVE {
            (n + 1) as u64
        } else {
            MAX_OCTAVE
        }
    }

    /// The number of the next octave down; octave zero stays.
    pub open spec fn number_below(n: u64) -> u64 {
        if n > 0 {
            (n - 1) as u64
        } else {
            0
        }
    }

    /// A register is determined by its pitch and its octave number.
    pub broadcast proof fn lemma_at(octave: u64)
        requires
            octave <= MAX_OCTAVE,
        ensures
            #![trigger Octave::at(octave)]
            Octave::at(octave).pitch() == octave * 12,
            Octave::at(octave).number() == octave,
            Octave::at(octave).wf(),
    {
    }

    /// The pitch and octave number of a register given by its pitch.
    pub broadcast proof fn lemma_at_pitch(pitch: u64)
        ensures
            #![trigger Octave::at_pitch(pitch)]
            Octave::at_pitch(pitch).pitch() == pitch,
            Octave::at_pitch(pitch).number() == pitch / 12,
            Octave::at_pitch(pitch).wf(),
    {
    }

    pub fn with_octave(octave: u64) -> (r: Self)
        requires
            octave <= MAX_OCTAVE,
        ensures
            r == Octave::at(octave),
            r.pitch() == octave * 12,
            r.number() == octave,
    {
        Self { pitch: octave * 12, octave }
    }

    pub fn with_pitch(pitch: u64) -> (r: Self)
        ensures
            r == Octave::at_pitch(pitch),
            r.pitch() == pitch,
            r.number() == pitch / 12,
    {
        Self { pitch, octave: pitch / 12 }
    }

    pub fn set_as_octave(&mut self, value: u64)
        requires
            value <= MAX_OCTAVE,
        ensures
            *final(self) == Octave::at(value),
            final(self).pitch() == value * 12,
            final(self).number() == value,
    {
        *self = Self { pitch: 12 * value, octave: value };
    }

    pub fn set_as_pitch(&mut self, value: u64)
        ensures
            *final(self) == Octave::at((value / 12) as u64),
            final(self).pitch() == (value / 12) * 12,
            final(self).number() == value / 12,
    {
        let octave = value / 12;
        *self = Self { pitch: octave * 12, octave };
    }

    pub fn get_octave_number(&self) -> (r: u64)
        ensures
            r == self.number(),
    {
        self.octave
    }

    pub fn get_pitch(&self) -> (r: u64)
        ensures
            r == self.pitch(),
    {
        self.pitch
    }

    /// One octave up. The highest octave whose pitch is a `u64` stays as it
    /// is.
    pub fn up(&mut self)
        ensures
            *final(self) == Octave::at(Octave::number_above(old(self).number())),
            final(self).number() == Octave::number_above(old(self).number()),
            final(self).pitch() == final(self).number() * 12,
    {
        proof {
            use_type_invariant(&*self);
        }
        let octave = if self.octave < MAX_OCTAVE {
            self.octave + 1
        } else {
            MAX_OCTAVE
        };
        self.set_as_octave(octave);
    }

    /// One octave down. Octave zero stays as it is.
    pub fn down(&mut self)
        ensures
            *final(self) == Octave::at(Octave::number_below(old(self).number())),
            final(self).number() == Octave::number_below(old(self).number()),
            final(self).pitch() == final(self).number() * 12,
    {
        proof {
            use_type_invariant(&*self);
        }
        let octave = self.octave.saturating_sub(1);
        self.set_as_octave(octave);
    }
}

impl Default for Octave {
    fn default() -> (r: Self)
        ensures
            r == Octave::at(5),
            r.pitch() == 60,
            r.number() == 5,
    {
        Self::with_octave(5)
    }
}

/// A named modulation with its amount, carried as the bit pattern of a
/// 64-bit IEEE 754 number.
#[derive(Debug, PartialEq)]
pub struct Modulation {
    pub name: String,
    pub value: u64,
}

impl Clone for Modulation {
    fn clone(&self) -> (r: Self)
        ensures
            r == *self,
    {
        Modulation { name: self.name.clone(), value: self.value }
    }
}

impl Modulation {
    pub fn new(name: &str, value: u64) -> (r: Self)
        ensures
            r.name@ == name@,
            r.value == value,
    {
        Self { name: name.to_owned(), value }
    }
}

impl Default for Modulation {
    fn default() -> (r: Self)
        ensures
            r.name@ == Seq::<char>::empty(),
            r.value == 0,
    {
        Self { name: String::new(), value: 0 }
    }
}

/// A scale: a name and the chromatic offsets of its degrees. The pitch set
/// is never empty.
#[derive(Debug, PartialEq)]
pub struct Scale {
    name: String,
    pitch_set: Vec<u64>,
}

impl Clone for Scale {
    fn clone(&self) -> (r: Self)
        ensures
            r.name() == self.name(),
            r.pitch_set() == self.pitch_set(),
    {
        proof {
            use_type_invariant(self);
        }
        Scale { name: self.name.clone(), pitch_set: self.pitch_set.clone() }
    }
}

impl Scale {
    #[verifier::type_invariant]
    pub closed spec fn wf(self) -> bool {
        self.pitch_set@.len() > 0
    }

    /// The name of the scale.
    pub closed spec fn name(self) -> Seq<char> {
        self.name@
    }

    /// The chromatic offsets of the degrees, in order.
    pub closed spec fn pitch_set(self) -> Seq<u64> {
        self.pitch_set@
    }

    /// A scale from its name and pitch set, which must not be empty.
    pub fn new(name: &str, pitch_set: &[u64]) -> (r: Self)
        requires
            pitch_set@.len() > 0,
        ensures
            r.name() == name@,
            r.pitch_set() == pitch_set@,
    {
        Scale { name: name.to_owned(), pitch_set: slice_to_vec(pitch_set) }
    }

    /// The name of the scale.
    pub fn get_name(&self) -> (r: &String)
        ensures
            r@ == self.name(),
    {
        &self.name
    }

    /// The chromatic offsets of the degrees.
    pub fn get_pitch_set(&self) -> (r: &Vec<u64>)
        ensures
            r@ == self.pitch_set(),
            r@.len() > 0,
    {
        proof {
            use_type_invariant(self);
        }
        &self.pitch_set
    }

    fn pitch_set_ref(&self) -> (r: &Vec<u64>)
        ensures
            r@ == self.pitch_set(),
    {
        &self.pitch_set
    }
}

impl Default for Scale {
    /// The chromatic scale.
    fn default() -> (r: Self)
        ensures
            r.pitch_set() == chromatic(),
            r.name() == "Chromatic"@,
    {
        let mut pitch_set: Vec<u64> = Vec::new();
        let mut i: u64 = 0;
        while i < 12
            invariant
                i <= 12,
                pitch_set@.len() == i,
                forall|k: int| 0 <= k < i ==> pitch_set@[k] == k,
            decreases 12 - i,
        {
            pitch_set.push(i);
            i += 1;
        }
        assert(pitch_set@ =~= chromatic());
        Scale { name: "Chromatic".to_owned(), pitch_set }
    }
}

/// A copy of the slice as a vector.
fn slice_to_vec(s: &[u64]) -> (v: Vec<u64>)
    ensures
        v@ == s@,
{
    let mut v: Vec<u64> = Vec::new();
    let mut i: usize = 0;
    while i < s.len()
        invariant
            i <= s@.len(),
            v@ == s@.subrange(0, i as int),
        decreases s@.len() - i,
    {
        v.push(s[i]);
        proof {
            assert(v@ =~= s@.subrange(0, i + 1));
        }
        i += 1;
    }
    assert(s@.subrange(0, s@.len() as int) =~= s@);
    v
}

/// Whether a scheduled value starts or stops at its position.
#[derive(Clone, Copy, Debug, PartialEq, Eq, Structural)]
pub enum EventState {
    On,
    Off,
}

impl Default for EventState {
    fn default() -> (r: Self)
        ensures
            r == EventState::On,
    {
        Self::On
    }
}

/// Event is a scheduled value.
#[derive(Debug, PartialEq)]
pub struct Event<V> {
    pub value: V,
    pub position: CursorPosition,
    pub state: EventState,
}

impl<V> Event<V> {
    pub fn new(value: V, position: CursorPosition, state: EventState) -> (r: Self)
        ensures
            r == (Event { value, position, state }),
    {
        Event { value, position, state }
    }
}

impl<V: Clone> Event<V> {
    /// `other` is what a copy of this event may be: a copy of the value at
    /// the same position and in the same state.
    pub open spec fn copied_to(self, other: Event<V>) -> bool {
        &&& cloned(self.value, other.value)
        &&& other.position == self.position
        &&& other.state == self.state
    }

    /// `other` is what a copy of this event may be once it is moved to
    /// `position`.
    pub open spec fn copied_to_at(self, other: Event<V>, position: CursorPosition) -> bool {
        &&& cloned(self.value, other.value)
        &&& other.position == position
        &&& other.state == self.state
    }
}

impl<V: Clone> Clone for Event<V> {
    fn clone(&self) -> (r: Self)
        ensures
            self.copied_to(r),
    {
        Event { value: self.value.clone(), position: self.position, state: self.state }
    }
}

impl<V: Default> Default for Event<V> {
    fn default() -> (r: Self)
        ensures
            call_ensures(V::default, (), r.value),
            r.position == (CursorPosition { beat: 0, tick: 0, resolution: 1920 }),
            r.state == EventState::On,
    {
        Event {
            value: V::default(),
            position: CursorPosition::default(),
            state: EventState::default(),
        }
    }
}

impl<T> FromSpecImpl<(T, CursorPosition)> for Event<T> {
    open spec fn obeys_from_spec() -> bool {
        true
    }

    open spec fn from_spec(value: (T, CursorPosition)) -> Event<T> {
        Event { value: value.0, position: value.1, state: EventState::On }
    }
}

impl<T> From<(T, CursorPosition)> for Event<T> {
    fn from(value: (T, CursorPosition)) -> Self {
        Event { value: value.0, position: value.1, state: EventState::On }
    }
}

/// Every event of `dst` may be a copy of the event of `src` at the same
/// index.
pub open spec fn copies_of<T: Clone>(src: Seq<Event<T>>, dst: Seq<Event<T>>) -> bool {
    &&& dst.len() == src.len()
    &&& forall|i: int| 0 <= i < src.len() ==> (#[trigger] src[i]).copied_to(dst[i])
}

/// Every event of `dst` may be a copy of the event of `src` at the same
/// index, moved to `position`.
pub open spec fn copies_at<T: Clone>(
    src: Seq<Event<T>>,
    dst: Seq<Event<T>>,
    position: CursorPosition,
) -> bool {
    &&& dst.len() == src.len()
    &&& forall|i: int| 0 <= i < src.len() ==> (#[trigger] src[i]).copied_to_at(dst[i], position)
}

/// No event comes before an earlier one of the sequence.
pub open spec fn in_time_order<T>(s: Seq<Event<T>>) -> bool {
    forall|i: int, j: int| 0 <= i <= j < s.len() ==> !(#[trigger] s[j]).position.precedes(
        (#[trigger] s[i]).position,
    )
}

/// The first index at or after `from` whose event comes after `p`, or the
/// length where there is none.
pub open spec fn first_after<T>(s: Seq<Event<T>>, p: CursorPosition, from: int) -> int
    decreases s.len() - from,
{
    if from < 0 || from >= s.len() {
        s.len() as int
    } else if p.precedes(s[from].position) {
        from
    } else {
        first_after(s, p, from + 1)
    }
}

/// `sorted` with `e` put in behind every event that does not come after it.
pub open spec fn insert_in_order<T>(sorted: Seq<Event<T>>, e: Event<T>) -> Seq<Event<T>> {
    sorted.insert(first_after(sorted, e.position, 0), e)
}

/// The first `n` events of `s`, in time order; events of one position keep
/// the order they had in `s`.
pub open spec fn sorted_prefix<T>(s: Seq<Event<T>>, n: int) -> Seq<Event<T>>
    decreases n,
{
    if n <= 0 {
        Seq::empty()
    } else {
        insert_in_order(sorted_prefix(s, n - 1), s[n - 1])
    }
}

/// The events of `s` in time order; events of one position keep the order
/// they had in `s`.
pub open spec fn stable_sorted<T>(s: Seq<Event<T>>) -> Seq<Event<T>> {
    sorted_prefix(s, s.len() as int)
}

/// The indices, from `from` on, of the events that lie at `p`, up to the
/// first event that comes after `p`.
pub open spec fn hits<T>(s: Seq<Event<T>>, from: int, p: CursorPosition) -> Seq<int>
    decreases s.len() - from,
{
    if from < 0 || from >= s.len() {
        Seq::empty()
    } else if p.precedes(s[from].position) {
        Seq::empty()
    } else if s[from].position.same_instant(p) {
        seq![from] + hits(s, from + 1, p)
    } else {
        hits(s, from + 1, p)
    }
}

/// The events of `s` at the given indices.
pub open spec fn picked<T>(s: Seq<Event<T>>, indices: Seq<int>) -> Seq<Event<T>> {
    Seq::new(indices.len(), |i: int| s[indices[i]])
}

/// `first_after` finds an index between `from` and the length; nothing from
/// `from` up to it comes after `p`, and the event at it does.
pub proof fn lemma_first_after<T>(s: Seq<Event<T>>, p: CursorPosition, from: int)
    requires
        0 <= from <= s.len(),
    ensures
        from <= first_after(s, p, from) <= s.len(),
        forall|k: int| from <= k < first_after(s, p, from) ==> !p.precedes((#[trigger] s[k]).position),
        first_after(s, p, from) < s.len() ==> p.precedes(s[first_after(s, p, from)].position),
    decreases s.len() - from,
{
    if from < s.len() && !p.precedes(s[from].position) {
        lemma_first_after(s, p, from + 1);
    }
}

/// Putting an event into a sequence in time order keeps the time order and
/// adds just that event.
pub proof fn lemma_insert_in_order<T>(sorted: Seq<Event<T>>, e: Event<T>)
    requires
        in_time_order(sorted),
    ensures
        in_time_order(insert_in_order(sorted, e)),
        insert_in_order(sorted, e).to_multiset() == sorted.to_multiset().insert(e),
        insert_in_order(sorted, e).len() == sorted.len() + 1,
{
    let j = first_after(sorted, e.position, 0);
    lemma_first_after(sorted, e.position, 0);
    let r = insert_in_order(sorted, e);
    assert forall|a: int, b: int| 0 <= a <= b < r.len() implies !(#[trigger] r[b]).position.precedes(
        (#[trigger] r[a]).position,
    ) by {
        if a == j {
            if b > j {
                // r[b] is sorted[b - 1], at or behind sorted[j], which comes after e
                assert(r[b] == sorted[b - 1]);
                assert(!sorted[b - 1].position.precedes(sorted[j].position));
            }
        } else if b == j {
            assert(r[a] == sorted[a]);
        } else {
            let a0 = if a < j {
                a
            } else {
                a - 1
            };
            let b0 = if b < j {
                b
            } else {
                b - 1
            };
            assert(r[a] == sorted[a0]);
            assert(r[b] == sorted[b0]);
        }
    }
    assert(r.remove(j) =~= sorted);
    assert(r[j] == e);
    r.to_multiset_ensures();
    assert(r.contains(e));
    assert(r.to_multiset() =~= sorted.to_multiset().insert(e));
}

/// The sorted sequence is in time order and holds the same events.
pub proof fn lemma_sorted_prefix<T>(s: Seq<Event<T>>, n: int)
    requires
        0 <= n <= s.len(),
    ensures
        in_time_order(sorted_prefix(s, n)),
        sorted_prefix(s, n).to_multiset() == s.subrange(0, n).to_multiset(),
        sorted_prefix(s, n).len() == n,
    decreases n,
{
    if n > 0 {
        lemma_sorted_prefix(s, n - 1);
        lemma_insert_in_order(sorted_prefix(s, n - 1), s[n - 1]);
        assert(s.subrange(0, n) =~= s.subrange(0, n - 1).push(s[n - 1]));
        s.subrange(0, n - 1).to_multiset_ensures();
    } else {
        assert(s.subrange(0, 0) =~= Seq::<Event<T>>::empty());
    }
}

/// Sorting gives a sequence in time order that holds exactly the events it
/// was given.
pub proof fn lemma_stable_sorted<T>(s: Seq<Event<T>>)
    ensures
        in_time_order(stable_sorted(s)),
        stable_sorted(s).to_multiset() == s.to_multiset(),
        stable_sorted(s).len() == s.len(),
{
    lemma_sorted_prefix(s, s.len() as int);
    assert(s.subrange(0, s.len() as int) =~= s);
}

/// Every index that `hits` returns lies between `from` and the length, the
/// indices grow, and the events at them lie at `p`.
pub proof fn lemma_hits<T>(s: Seq<Event<T>>, from: int, p: CursorPosition)
    requires
        0 <= from,
    ensures
        hits(s, from, p).len() <= s.len() - from || hits(s, from, p).len() == 0,
        forall|i: int|
            0 <= i < hits(s, from, p).len() ==> {
                &&& from <= (#[trigger] hits(s, from, p)[i]) < s.len()
                &&& s[hits(s, from, p)[i]].position.same_instant(p)
            },
        forall|i: int, j: int|
            0 <= i < j < hits(s, from, p).len() ==> (#[trigger] hits(s, from, p)[i]) < (
            #[trigger] hits(s, from, p)[j]),
    decreases s.len() - from,
{
    if from < s.len() && !p.precedes(s[from].position) {
        lemma_hits(s, from + 1, p);
        let rest = hits(s, from + 1, p);
        if s[from].position.same_instant(p) {
            let h = hits(s, from, p);
            assert(h =~= seq![from] + rest);
            assert forall|i: int| 0 <= i < h.len() implies from <= (#[trigger] h[i]) < s.len()
                && s[h[i]].position.same_instant(p) by {
                if i > 0 {
                    assert(h[i] == rest[i - 1]);
                }
            }
            assert forall|i: int, j: int| 0 <= i < j < h.len() implies (#[trigger] h[i]) < (
            #[trigger] h[j]) by {
                assert(h[j] == rest[j - 1]);
                if i > 0 {
                    assert(h[i] == rest[i - 1]);
                }
            }
        }
    }
}

/// Copies of the given events.
fn copy_events<T: Clone>(src: &Vec<Event<T>>) -> (dst: Vec<Event<T>>)
    ensures
        copies_of(src@, dst@),
{
    let mut dst: Vec<Event<T>> = Vec::new();
    let mut i: usize = 0;
    while i < src.len()
        invariant
            i <= src@.len(),
            dst@.len() == i,
            forall|k: int| 0 <= k < i ==> (#[trigger] src@[k]).copied_to(dst@[k]),
        decreases src@.len() - i,
    {
        dst.push(src[i].clone());
        i += 1;
    }
    dst
}

/// Copies of the given events, each moved to `position`.
fn copy_events_to<T: Clone>(src: &Vec<Event<T>>, position: CursorPosition) -> (dst: Vec<Event<T>>)
    ensures
        copies_at(src@, dst@, position),
{
    let mut dst: Vec<Event<T>> = Vec::new();
    let mut i: usize = 0;
    while i < src.len()
        invariant
            i <= src@.len(),
            dst@.len() == i,
            forall|k: int| 0 <= k < i ==> (#[trigger] src@[k]).copied_to_at(dst@[k], position),
        decreases src@.len() - i,
    {
        let mut e = src[i].clone();
        e.position = position;
        dst.push(e);
        i += 1;
    }
    dst
}

/// The state of an `EventStream` as a mathematical value.
pub struct StreamState<T> {
    /// The events as they are stored.
    pub events: Seq<Event<T>>,
    /// Whether the stored events are known to be in time order.
    pub sorted: bool,
    /// How many events the stream has handed out since it last started.
    pub index: int,
    /// The position the next step reads.
    pub position: CursorPosition,
    /// Whether the stream starts again when it has run out.
    pub looping: bool,
    /// Whether a step that finds nothing hands out the gap value instead.
    pub filling: bool,
    /// What a step hands out where it finds nothing, if gaps are filled.
    pub gap: Seq<Event<T>>,
    /// The ticks per beat that the stream was made for.
    pub resolution: u64,
}

/// The events, each moved to `position`.
pub open spec fn moved<T>(events: Seq<Event<T>>, position: CursorPosition) -> Seq<Event<T>> {
    Seq::new(
        events.len(),
        |i: int| Event { value: events[i].value, position, state: events[i].state },
    )
}

impl<T> StreamState<T> {
    /// What holds of every stream: events that are marked as sorted are in
    /// time order, and the position never has a tick count of a whole beat.
    pub open spec fn wf(self) -> bool {
        &&& self.sorted ==> in_time_order(self.events)
        &&& self.position.tick == 0 || self.position.tick < self.position.resolution
        &&& self.index >= 0
    }

    /// The events in the order in which the stream reads them.
    pub open spec fn ordered(self) -> Seq<Event<T>> {
        if self.sorted {
            self.events
        } else {
            stable_sorted(self.events)
        }
    }

    /// The stream's position at the start.
    pub open spec fn origin(self) -> CursorPosition {
        CursorPosition { beat: 0, tick: 0, resolution: self.position.resolution }
    }

    /// Whether the stream has nothing more to hand out: it holds no events,
    /// or has handed out all of them and does not loop.
    pub open spec fn exhausted(self) -> bool {
        self.ordered().len() == 0 || (self.index >= self.ordered().len() && !self.looping)
    }

    /// The stream with its events put in order.
    pub open spec fn settled(self) -> Self {
        StreamState { events: self.ordered(), sorted: true, ..self }
    }

    /// The stream back at its start.
    pub open spec fn restarted(self) -> Self {
        StreamState { index: 0, position: self.origin(), ..self }
    }

    /// The stream with the given loop flag; a looping stream that has handed
    /// out every stored event starts again at once.
    pub open spec fn with_loop(self, value: bool) -> Self {
        if value && self.index >= self.events.len() {
            StreamState { looping: value, ..self.restarted() }
        } else {
            StreamState { looping: value, ..self }
        }
    }

    /// The indices of the events that the next step finds at the position.
    pub open spec fn found(self) -> Seq<int> {
        hits(self.ordered(), self.index, self.position)
    }

    /// What the next step takes its result from: the events at the
    /// position; if there are none and gaps are filled, the gap value moved
    /// to the position.
    pub open spec fn offered(self) -> Seq<Event<T>> {
        if self.found().len() > 0 {
            picked(self.ordered(), self.found())
        } else if self.filling {
            moved(self.gap, self.position)
        } else {
            Seq::empty()
        }
    }

    /// The stream after a step that leaves `gap` as the gap value: the
    /// events are in order, the events found are counted, and the position
    /// is one tick on; a looping stream that has handed out its last event
    /// starts again.
    pub open spec fn advanced(self, gap: Seq<Event<T>>) -> Self {
        let index = self.index + self.found().len();
        if self.looping && index >= self.ordered().len() {
            StreamState {
                events: self.ordered(),
                sorted: true,
                index: 0,
                position: self.origin(),
                gap,
                ..self
            }
        } else {
            StreamState {
                events: self.ordered(),
                sorted: true,
                index,
                position: self.position.successor(),
                gap,
                ..self
            }
        }
    }
}

impl<T: Clone> StreamState<T> {
    /// What a step of a stream that is not exhausted hands out and leaves
    /// behind: `out` is made of copies of what is offered, and if events
    /// were found, copies of them become the next gap value.
    pub open spec fn hands_out(self, out: Seq<Event<T>>, next: Self) -> bool {
        &&& copies_of(self.offered(), out)
        &&& if self.found().len() > 0 {
            copies_of(out, next.gap)
        } else {
            next.gap == self.gap
        }
        &&& next == self.advanced(next.gap)
    }

    /// What a call of `next` may answer and leave behind.
    pub open spec fn pulled(self, out: Option<Seq<Event<T>>>, next: Self) -> bool {
        if self.exhausted() {
            out.is_none() && next == self.settled()
        } else {
            out.is_some() && self.hands_out(out.unwrap(), next)
        }
    }
}

/// For each of the first `n` events of `s`, in the order in which sorting
/// puts them, the index that it has in `s`.
pub open spec fn sorted_order<T>(s: Seq<Event<T>>, n: int) -> Seq<int>
    decreases n,
{
    if n <= 0 {
        Seq::empty()
    } else {
        sorted_order(s, n - 1).insert(
            first_after(sorted_prefix(s, n - 1), s[n - 1].position, 0),
            n - 1,
        )
    }
}

/// Whether `order` tells how `sorted` is `s` in time order, events of one
/// position in the order they have in `s`: `sorted[k]` is `s[order[k]]`, no
/// index occurs twice, and of two events at one position the one that comes
/// first in `s` comes first.
pub open spec fn sorted_stably<T>(s: Seq<Event<T>>, sorted: Seq<Event<T>>, order: Seq<int>) -> bool {
    &&& order.len() == sorted.len()
    &&& in_time_order(sorted)
    &&& forall|k: int|
        0 <= k < sorted.len() ==> 0 <= (#[trigger] order[k]) < s.len() && sorted[k] == s[order[k]]
    &&& forall|a: int, b: int|
        0 <= a < b < sorted.len() ==> (#[trigger] order[a]) != (#[trigger] order[b])
    &&& forall|a: int, b: int|
        0 <= a < b < sorted.len() && sorted[a].position.same_instant(sorted[b].position) ==> (
        #[trigger] order[a]) < (#[trigger] order[b])
}

/// Sorting is stable: the first `n` events come out in time order, each
/// once, and events of one position keep the order they had.
pub proof fn lemma_sorted_stably<T>(s: Seq<Event<T>>, n: int)
    requires
        0 <= n <= s.len(),
    ensures
        sorted_stably(s.take(n), sorted_prefix(s, n), sorted_order(s, n)),
        sorted_prefix(s, n).len() == n,
    decreases n,
{
    lemma_sorted_prefix(s, n);
    if n > 0 {
        lemma_sorted_stably(s, n - 1);
        lemma_sorted_prefix(s, n - 1);
        let r = sorted_prefix(s, n - 1);
        let o = sorted_order(s, n - 1);
        let e = s[n - 1];
        let j = first_after(r, e.position, 0);
        lemma_first_after(r, e.position, 0);
        let r2 = sorted_prefix(s, n);
        let o2 = sorted_order(s, n);
        assert(r2 == r.insert(j, e));
        assert(o2 == o.insert(j, n - 1));
        assert forall|k: int| j <= k < r.len() implies e.position.precedes(
            (#[trigger] r[k]).position,
        ) by {
            assert(!r[k].position.precedes(r[j].position));
        }
        assert forall|k: int| 0 <= k < r2.len() implies 0 <= (#[trigger] o2[k]) < n && r2[k]
            == s.take(n)[o2[k]] by {
            if k < j {
                assert(r[k] == s.take(n - 1)[o[k]]);
            } else if k > j {
                assert(r[k - 1] == s.take(n - 1)[o[k - 1]]);
            }
        }
        assert forall|a: int, b: int| 0 <= a < b < r2.len() implies (#[trigger] o2[a]) != (
        #[trigger] o2[b]) by {
            let a0 = if a < j {
                a
            } else {
                a - 1
            };
            let b0 = if b < j {
                b
            } else {
                b - 1
            };
            if a != j && b != j {
                assert(o[a0] != o[b0]);
            } else if a == j {
                assert(0 <= o[b0] < n - 1);
            } else {
                assert(0 <= o[a0] < n - 1);
            }
        }
        assert forall|a: int, b: int|
            0 <= a < b < r2.len() && r2[a].position.same_instant(r2[b].position) implies (
            #[trigger] o2[a]) < (#[trigger] o2[b]) by {
            let a0 = if a < j {
                a
            } else {
                a - 1
            };
            let b0 = if b < j {
                b
            } else {
                b - 1
            };
            if a != j && b != j {
                assert(r2[a] == r[a0] && r2[b] == r[b0]);
                assert(o[a0] < o[b0]);
            } else if a == j {
                assert(r2[b] == r[b0]);
                assert(e.position.precedes(r[b0].position));
            } else {
                assert(0 <= o[a0] < n - 1);
            }
        }
    }
}

/// In a sequence in time order, a step finds every event at the position
/// from `from` on.
pub proof fn lemma_hits_all<T>(s: Seq<Event<T>>, from: int, p: CursorPosition, k: int)
    requires
        0 <= from <= k < s.len(),
        in_time_order(s),
        s[k].position.same_instant(p),
    ensures
        hits(s, from, p).contains(k),
    decreases s.len() - from,
{
    // nothing up to `k` comes after `p`, for `s[k]` lies at `p`
    assert(!s[k].position.precedes(s[from].position));
    if from == k {
        assert(hits(s, from, p)[0] == k);
    } else {
        lemma_hits_all(s, from + 1, p, k);
        let rest = hits(s, from + 1, p);
        let i = choose|i: int| 0 <= i < rest.len() && rest[i] == k;
        if s[from].position.same_instant(p) {
            assert(hits(s, from, p)[i + 1] == k);
        } else {
            assert(hits(s, from, p)[i] == k);
        }
    }
}

/// EventStream is a time series of events that is read tick by tick: each
/// step hands out the events at the current position.
#[derive(Debug, PartialEq)]
pub struct EventStream<T> {
    events: Vec<Event<T>>,
    increment: usize,
    cursor: Cursor,
    is_loop: bool,
    fill_gaps: bool,
    gap_value: Vec<Event<T>>,
    is_sorted: bool,
}

impl<T> View for EventStream<T> {
    type V = StreamState<T>;

    closed spec fn view(&self) -> StreamState<T> {
        StreamState {
            events: self.events@,
            sorted: self.is_sorted,
            index: self.increment as int,
            position: self.cursor.position,
            looping: self.is_loop,
            filling: self.fill_gaps,
            gap: self.gap_value@,
            resolution: self.cursor.resolution,
        }
    }
}

/// The views of the events handed out, if any.
pub open spec fn handed<T>(out: Option<Vec<Event<T>>>) -> Option<Seq<Event<T>>> {
    match out {
        Some(v) => Some(v@),
        None => None,
    }
}

impl<T> EventStream<T> {
    /// A stream of the given events, at the start of time. The gap value is
    /// one default event.
    pub fn new(events: Vec<Event<T>>, resolution: u64) -> (r: Self) where T: Default
        ensures
            r@.wf(),
            r@.events == stable_sorted(events@),
            r@.sorted,
            r@.index == 0,
            r@.position == (CursorPosition { beat: 0, tick: 0, resolution }),
            r@.resolution == resolution,
            !r@.looping,
            !r@.filling,
            r@.gap.len() == 1,
            call_ensures(T::default, (), r@.gap[0].value),
            r@.gap[0].position == (CursorPosition { beat: 0, tick: 0, resolution: 1920 }),
            r@.gap[0].state == EventState::On,
    {
        let mut gap_value: Vec<Event<T>> = Vec::new();
        gap_value.push(Event::default());
        let mut result = Self {
            events,
            increment: 0,
            cursor: Cursor::new(resolution),
            is_loop: false,
            fill_gaps: false,
            gap_value,
            is_sorted: false,
        };
        result.sort();
        result
    }

    /// The events at the current position, then one tick forward.
    ///
    /// `None` once every event was handed out and the stream does not loop,
    /// and for a stream without events; the position then stays.
    pub fn next(&mut self) -> (r: Option<Vec<Event<T>>>) where T: Clone
        requires
            old(self)@.wf(),
            old(self)@.position.beat < u64::MAX,
        ensures
            final(self)@.wf(),
            old(self)@.pulled(handed(r), final(self)@),
            r matches Some(out) ==> forall|i: int|
                0 <= i < out@.len() ==> (#[trigger] out@[i]).position.same_instant(
                    old(self)@.position,
                ),
    {
        self.sort();
        let len = self.events.len();
        if len == 0 || (self.increment >= len && !self.is_loop) {
            return None;
        }
        let ghost pre = old(self)@;
        let ghost evs = self.events@;
        let ghost start = self.increment as int;
        let p = self.cursor.position;
        let ghost mut taken: Seq<int> = Seq::empty();
        let mut result: Vec<Event<T>> = Vec::new();
        let mut k: usize = self.increment;
        let mut done = false;
        while k < len && !done
            invariant
                self@.wf(),
                self.events@ == evs,
                len == evs.len(),
                self.is_sorted,
                self.cursor.position == p,
                self.cursor.resolution == old(self).cursor.resolution,
                self.is_loop == old(self).is_loop,
                self.fill_gaps == old(self).fill_gaps,
                self.gap_value@ == old(self).gap_value@,
                start <= k,
                self.increment == start + taken.len(),
                self.increment <= k,
                hits(evs, start, p) == taken + (if done {
                    Seq::<int>::empty()
                } else {
                    hits(evs, k as int, p)
                }),
                copies_of(picked(evs, taken), result@),
                forall|i: int| 0 <= i < taken.len() ==> 0 <= #[trigger] taken[i] < k,
            decreases len - k + (if done { 0int } else { 1int }),
        {
            if p.is_before(&self.events[k].position) {
                done = true;
            } else {
                if self.events[k].position.is_at(&p) {
                    let e = self.events[k].clone();
                    result.push(e);
                    self.increment += 1;
                    proof {
                        let before = taken;
                        taken = taken.push(k as int);
                        assert(before + (seq![k as int] + hits(evs, k + 1, p)) =~= taken + hits(
                            evs,
                            k + 1,
                            p,
                        ));
                        assert(picked(evs, taken) =~= picked(evs, before).push(evs[k as int]));
                    }
                }
                k += 1;
            }
        }
        proof {
            assert(taken + Seq::<int>::empty() =~= taken);
            lemma_hits(evs, start, p);
            assert(pre.found() == taken);
        }
        if result.len() > 0 {
            self.gap_value = copy_events(&result);
        } else if self.fill_gaps {
            result = copy_events_to(&self.gap_value, p);
            proof {
                assert forall|i: int| 0 <= i < pre.gap.len() implies (#[trigger] moved(
                    pre.gap,
                    p,
                )[i]).copied_to(result@[i]) by {
                    assert(pre.gap[i].copied_to_at(result@[i], p));
                }
            }
        }
        proof {
            assert forall|i: int| 0 <= i < result@.len() implies (#[trigger] result@[i]).position.same_instant(
            p) by {
                if taken.len() > 0 {
                    assert(picked(evs, taken)[i].copied_to(result@[i]));
                    assert(hits(evs, start, p)[i] == taken[i]);
                } else if self.fill_gaps {
                    assert(self.gap_value@[i].copied_to_at(result@[i], p));
                }
            }
        }
        self.cursor.next();
        self.check_loop();
        Some(result)
    }

    /// Sorts the events by position unless they are sorted already;
    /// events of one position keep their order.
    pub fn sort(&mut self)
        requires
            old(self)@.wf(),
        ensures
            final(self)@.wf(),
            final(self)@ == old(self)@.settled(),
    {
        if !self.is_sorted {
            let mut rest: Vec<Event<T>> = Vec::new();
            core::mem::swap(&mut self.events, &mut rest);
            let ghost all = rest@;
            let mut sorted: Vec<Event<T>> = Vec::new();
            let mut n: usize = 0;
            let len = rest.len();
            while n < len
                invariant
                    0 <= n <= len,
                    len == all.len(),
                    rest@ == all.subrange(n as int, len as int),
                    sorted@ == sorted_prefix(all, n as int),
                decreases len - n,
            {
                let e = rest.remove(0);
                proof {
                    lemma_sorted_prefix(all, n as int);
                    lemma_first_after(sorted@, e.position, 0);
                }
                let mut j: usize = 0;
                while j < sorted.len() && !e.position.is_before(&sorted[j].position)
                    invariant
                        0 <= j <= sorted@.len(),
                        first_after(sorted@, e.position, 0) == first_after(
                            sorted@,
                            e.position,
                            j as int,
                        ),
                    decreases sorted@.len() - j,
                {
                    j += 1;
                }
                sorted.insert(j, e);
                n += 1;
                proof {
                    assert(rest@ =~= all.subrange(n as int, len as int));
                }
            }
            proof {
                lemma_stable_sorted(all);
            }
            self.events = sorted;
            self.is_sorted = true;
        }
    }

    /// Add (schedule) an event to the stream.
    pub fn add_event(&mut self, event: Event<T>)
        requires
            old(self)@.wf(),
        ensures
            final(self)@.wf(),
            final(self)@ == (StreamState {
                events: old(self)@.events.push(event),
                sorted: false,
                ..old(self)@
            }),
    {
        self.is_sorted = false;
        self.events.push(event);
    }

    /// The position of the event that is stored last.
    pub fn last_position(&self) -> (r: Option<CursorPosition>)
        ensures
            r == (if self@.events.len() > 0 {
                Some(self@.events.last().position)
            } else {
                None
            }),
    {
        let n = self.events.len();
        if n == 0 {
            None
        } else {
            Some(self.events[n - 1].position)
        }
    }

    /// Sets whether the stream starts again when it has run out. A stream
    /// that has run out starts again at once.
    pub fn set_loop(&mut self, value: bool)
        requires
            old(self)@.wf(),
        ensures
            final(self)@.wf(),
            final(self)@ == old(self)@.with_loop(value),
    {
        self.is_loop = value;
        self.check_loop();
    }

    pub fn is_loop(&self) -> (r: bool)
        ensures
            r == self@.looping,
    {
        self.is_loop
    }

    /// Sets whether a step that finds no event hands out a value all the
    /// same: the events handed out last, or the default if there were none.
    pub fn set_fill_gaps(&mut self, value: bool)
        requires
            old(self)@.wf(),
        ensures
            final(self)@.wf(),
            final(self)@ == (StreamState { filling: value, ..old(self)@ }),
    {
        self.fill_gaps = value;
    }

    /// Whether gaps are filled.
    pub fn fill_gaps(&self) -> (r: bool)
        ensures
            r == self@.filling,
    {
        self.fill_gaps
    }

    /// The position the next step reads.
    pub fn position(&self) -> (r: CursorPosition)
        ensures
            r == self@.position,
    {
        self.cursor.position
    }

    /// Reset position to beginning.
    pub fn reset(&mut self)
        requires
            old(self)@.wf(),
        ensures
            final(self)@.wf(),
            final(self)@ == old(self)@.restarted(),
    {
        self.increment = 0;
        self.cursor.position.beat = 0;
        self.cursor.position.tick = 0;
    }

    /// Starts a looping stream again once every event was handed out.
    fn check_loop(&mut self)
        requires
            old(self)@.wf(),
        ensures
            final(self)@.wf(),
            final(self)@ == old(self)@.with_loop(old(self)@.looping),
    {
        if self.is_loop && self.increment >= self.events.len() {
            self.reset();
        }
    }
}

impl<T> Default for EventStream<T> {
    fn default() -> (r: Self)
        ensures
            r@.wf(),
            r@ == (StreamState::<T> {
                events: Seq::empty(),
                sorted: false,
                index: 0,
                position: CursorPosition { beat: 0, tick: 0, resolution: 1920 },
                looping: false,
                filling: false,
                gap: Seq::empty(),
                resolution: 1920,
            }),
    {
        Self {
            events: Vec::new(),
            increment: 0,
            cursor: Cursor::default(),
            is_loop: false,
            fill_gaps: false,
            gap_value: Vec::new(),
            is_sorted: false,
        }
    }
}

impl<T> StreamState<T> {
    /// What a call of `next` answers, for values whose copies are equal to
    /// them.
    pub open spec fn yielded(self) -> Option<Seq<Event<T>>> {
        if self.exhausted() {
            None
        } else {
            Some(self.offered())
        }
    }

    /// What a call of `next` leaves behind, for values whose copies are
    /// equal to them.
    pub open spec fn stepped(self) -> Self {
        if self.exhausted() {
            self.settled()
        } else if self.found().len() > 0 {
            self.advanced(self.offered())
        } else {
            self.advanced(self.gap)
        }
    }
}

/// Whether every copy of a `T` is equal to what it was made from.
pub open spec fn copies_are_equal<T: Clone>() -> bool {
    forall|a: T, b: T| #[trigger] cloned(a, b) ==> a == b
}

/// Where copies are equal to what they are made from, a call of `next` has
/// one outcome.
pub proof fn lemma_pulled_exactly<T: Clone>(
    s: StreamState<T>,
    out: Option<Seq<Event<T>>>,
    next: StreamState<T>,
)
    requires
        copies_are_equal::<T>(),
        s.pulled(out, next),
    ensures
        out == s.yielded(),
        next == s.stepped(),
{
    if !s.exhausted() {
        let o = out.unwrap();
        assert(o =~= s.offered()) by {
            assert forall|i: int| 0 <= i < o.len() implies o[i] == s.offered()[i] by {
                assert(s.offered()[i].copied_to(o[i]));
            }
        }
        if s.found().len() > 0 {
            assert(next.gap =~= o) by {
                assert forall|i: int| 0 <= i < o.len() implies o[i] == next.gap[i] by {
                    assert(o[i].copied_to(next.gap[i]));
                }
            }
        }
    }
}

/// The events handed out, or none at all.
pub open spec fn or_empty<T>(out: Option<Seq<Event<T>>>) -> Seq<Event<T>> {
    match out {
        Some(events) => events,
        None => Seq::empty(),
    }
}

/// The values of the events handed out; where there are none, the one
/// value `default`.
pub open spec fn values_or<T>(out: Option<Seq<Event<T>>>, default: T) -> Seq<T> {
    if or_empty(out).len() == 0 {
        seq![default]
    } else {
        Seq::new(or_empty(out).len(), |i: int| or_empty(out)[i].value)
    }
}

/// The pitch sets of the scales handed out; where there are none, the
/// chromatic pitch set.
pub open spec fn pitch_sets(out: Option<Seq<Event<Scale>>>) -> Seq<Seq<u64>> {
    if or_empty(out).len() == 0 {
        seq![chromatic()]
    } else {
        Seq::new(or_empty(out).len(), |i: int| or_empty(out)[i].value.pitch_set())
    }
}

/// The pitch events of one step: one for each degree, with the root, the
/// octave and the scale taken by the degree's index, each list going round
/// again where it is shorter.
pub open spec fn pitch_events(
    degrees: Seq<Event<Degree>>,
    roots: Seq<Root>,
    octaves: Seq<Octave>,
    sets: Seq<Seq<u64>>,
    position: CursorPosition,
) -> Seq<Event<Value>> {
    Seq::new(
        degrees.len(),
        |n: int|
            Event {
                value: Value::pitch_of(
                    degrees[n].value,
                    roots[n % (roots.len() as int)],
                    octaves[n % (octaves.len() as int)],
                    sets[n % (sets.len() as int)],
                ),
                position,
                state: degrees[n].state,
            },
    )
}

/// The modulation events of one step: one for each modulation handed out.
pub open spec fn modulation_events(
    modulations: Seq<Event<Modulation>>,
    position: CursorPosition,
) -> Seq<Event<Value>> {
    Seq::new(
        modulations.len(),
        |n: int|
            Event {
                value: Value::Modulation(modulations[n].value.name, modulations[n].value.value),
                position,
                state: modulations[n].state,
            },
    )
}

/// A stream pulled again from its start if a first pull gave nothing and the
/// step is the first of a beat: what comes of it, and the stream after it.
pub open spec fn again<T>(first: StreamState<T>, retry: bool) -> (Option<Seq<Event<T>>>, StreamState<T>) {
    if first.yielded().is_none() && retry {
        let back = first.stepped().restarted();
        (back.yielded(), back.stepped())
    } else {
        (first.yielded(), first.stepped())
    }
}

/// The state of a `Pattern` as a mathematical value.
pub struct PatternState {
    pub degree: StreamState<Degree>,
    pub scale: StreamState<Scale>,
    pub root: StreamState<Root>,
    pub octave: StreamState<Octave>,
    pub modulation: StreamState<Modulation>,
    pub cursor: Cursor,
    pub start_position: CursorPosition,
    pub is_loop: bool,
    pub is_finished: bool,
}

/// A stream of a pattern counts in the pattern's resolution and is never
/// ahead of the pattern's cursor.
pub open spec fn keeps_step<T>(stream: StreamState<T>, cursor: Cursor) -> bool {
    &&& stream.wf()
    &&& stream.position.resolution == cursor.position.resolution
    &&& !cursor.position.precedes(stream.position)
}

impl PatternState {
    /// What holds of every pattern: its streams are well formed and none is
    /// ahead of the cursor, whose position never has a tick count of a
    /// whole beat.
    pub open spec fn wf(self) -> bool {
        &&& keeps_step(self.degree, self.cursor)
        &&& keeps_step(self.scale, self.cursor)
        &&& keeps_step(self.root, self.cursor)
        &&& keeps_step(self.octave, self.cursor)
        &&& keeps_step(self.modulation, self.cursor)
        &&& self.cursor.position.tick == 0 || self.cursor.position.tick
            < self.cursor.position.resolution
    }

    /// Whether the degree and the modulation stream both have nothing more
    /// to hand out.
    pub open spec fn at_end(self) -> bool {
        self.degree.exhausted() && self.modulation.exhausted()
    }

    /// Whether a step at the end still hands out an empty list, to fill the
    /// beat that has begun.
    pub open spec fn fills_beat(self) -> bool {
        !self.is_finished && self.cursor.position.tick != 0
    }

    /// The cursor one tick on.
    pub open spec fn cursor_after(self) -> Cursor {
        Cursor { position: self.cursor.position.successor(), resolution: self.cursor.resolution }
    }

    /// What a step of the pattern hands out: the modulations first, then a
    /// pitch for each degree.
    ///
    /// At the end of both the degree and the modulation stream, nothing is
    /// handed out, but for empty lists up to the end of the beat. Otherwise
    /// a stream of the two that has run out starts again at the first tick
    /// of a beat.
    pub open spec fn handed_out(self) -> Option<Seq<Event<Value>>> {
        if self.at_end() {
            if self.fills_beat() {
                Some(Seq::empty())
            } else {
                None
            }
        } else {
            let retry = self.cursor.position.tick == 0;
            let degrees = or_empty(again(self.degree, retry).0);
            let modulations = or_empty(again(self.modulation, retry).0);
            Some(
                modulation_events(modulations, self.cursor.position) + pitch_events(
                    degrees,
                    values_or(self.root.yielded(), Root(0)),
                    values_or(self.octave.yielded(), Octave::at(5)),
                    pitch_sets(self.scale.yielded()),
                    self.cursor.position,
                ),
            )
        }
    }

    /// Whether `next` is the pattern after a step: the cursor is one tick
    /// on, and every stream that was pulled has made its step. Scale, root
    /// and octave are pulled whenever the step hands out a list.
    pub open spec fn steps_to(self, next: PatternState) -> bool {
        &&& next.cursor == self.cursor_after()
        &&& next.start_position == self.start_position
        &&& next.is_loop == self.is_loop
        &&& if self.at_end() && !self.fills_beat() {
            &&& next.degree == self.degree.stepped()
            &&& next.modulation == self.modulation.stepped()
            &&& next.scale == self.scale
            &&& next.root == self.root
            &&& next.octave == self.octave
            &&& next.is_finished
        } else if self.at_end() {
            &&& next.degree == self.degree.stepped()
            &&& next.modulation == self.modulation.stepped()
            &&& exists|out: Option<Seq<Event<Scale>>>| self.scale.pulled(out, next.scale)
            &&& next.root == self.root.stepped()
            &&& next.octave == self.octave.stepped()
            &&& next.is_finished == self.is_finished
        } else {
            &&& next.degree == again(self.degree, self.cursor.position.tick == 0).1
            &&& next.modulation == again(self.modulation, self.cursor.position.tick == 0).1
            &&& exists|out: Option<Seq<Event<Scale>>>| self.scale.pulled(out, next.scale)
            &&& next.root == self.root.stepped()
            &&& next.octave == self.octave.stepped()
            &&& next.is_finished == self.is_finished
        }
    }
}

/// Pattern combines several event streams and produces the values for the
/// current cursor position on each step.
#[derive(Debug, PartialEq)]
pub struct Pattern {
    degree: EventStream<Degree>,
    scale: EventStream<Scale>,
    root: EventStream<Root>,
    octave: EventStream<Octave>,
    modulation: EventStream<Modulation>,
    cursor: Cursor,
    start_position: CursorPosition,
    is_loop: bool,
    is_finished: bool,
}

impl View for Pattern {
    type V = PatternState;

    closed spec fn view(&self) -> PatternState {
        PatternState {
            degree: self.degree@,
            scale: self.scale@,
            root: self.root@,
            octave: self.octave@,
            modulation: self.modulation@,
            cursor: self.cursor,
            start_position: self.start_position,
            is_loop: self.is_loop,
            is_finished: self.is_finished,
        }
    }
}

/// The gap values of a pattern are the defaults: degree zero without
/// alteration, a modulation without name or amount, root zero, octave five
/// and the chromatic scale.
pub open spec fn default_gaps(p: PatternState) -> bool {
    &&& p.degree.gap.len() == 1
    &&& p.degree.gap[0].value == (Degree { value: 0, alteration: 0 })
    &&& p.modulation.gap.len() == 1
    &&& p.modulation.gap[0].value.name@ == Seq::<char>::empty()
    &&& p.modulation.gap[0].value.value == 0
    &&& p.root.gap.len() == 1
    &&& p.root.gap[0].value == Root(0)
    &&& p.octave.gap.len() == 1
    &&& p.octave.gap[0].value == Octave::at(5)
    &&& p.scale.gap.len() == 1
    &&& p.scale.gap[0].value.pitch_set() == chromatic()
    &&& p.scale.gap[0].value.name() == "Chromatic"@
}

/// An empty stream at the start of time: no events, and one default event
/// as the gap value.
pub open spec fn fresh<T>(s: StreamState<T>, resolution: u64, looping: bool) -> bool {
    &&& s.events.len() == 0
    &&& s.sorted
    &&& s.index == 0
    &&& s.position == (CursorPosition { beat: 0, tick: 0, resolution })
    &&& s.resolution == resolution
    &&& s.looping == looping
    &&& s.filling == looping
    &&& s.gap.len() == 1
    &&& s.gap[0].position == (CursorPosition { beat: 0, tick: 0, resolution: 1920 })
    &&& s.gap[0].state == EventState::On
}

/// The position one tick before the end of a span that starts at
/// `position` and lasts `duration`, counted at `resolution`.
pub open spec fn off_position(
    position: CursorPosition,
    duration: Duration,
    resolution: u64,
) -> CursorPosition {
    let ticks = position.beat * resolution + position.tick + duration.beat * resolution
        + duration.tick;
    crate::clock::position_of_ticks(crate::clock::saturating_diff(ticks, 1), resolution)
}

/// A stream with an `On` event for `value` at `position` added, and an
/// `Off` event one tick before the end of `duration`.
pub open spec fn scheduled<T>(
    s: StreamState<T>,
    value: T,
    position: CursorPosition,
    duration: Duration,
    resolution: u64,
) -> StreamState<T> {
    StreamState {
        events: s.events.push(Event { value, position, state: EventState::On }).push(
            Event {
                value,
                position: off_position(position, duration, resolution),
                state: EventState::Off,
            },
        ),
        sorted: false,
        ..s
    }
}

/// Whether a span that starts at `position` and lasts `duration` can be
/// scheduled at `resolution`: the resolution is not zero, and the end of the
/// span fits in 64 bits of ticks.
pub open spec fn schedulable(position: CursorPosition, duration: Duration, resolution: u64) -> bool {
    &&& resolution > 0
    &&& position.beat * resolution + position.tick + duration.beat * resolution + duration.tick
        <= u64::MAX
}

/// The position one tick before the end of the span.
fn off_position_of(position: CursorPosition, duration: Duration, resolution: u64) -> (r:
    CursorPosition)
    requires
        schedulable(position, duration, resolution),
    ensures
        r == off_position(position, duration, resolution),
{
    assert(position.beat * resolution >= 0 && duration.beat * resolution >= 0) by (nonlinear_arith)
        requires
            position.beat >= 0,
            duration.beat >= 0,
            resolution >= 0,
    ;
    let start: u64 = position.beat * resolution + position.tick;
    let length: u64 = duration.beat * resolution + duration.tick;
    let end: u64 = start + length;
    CursorPosition::from_ticks(end.saturating_sub(1), resolution)
}

impl Pattern {
    /// A pattern without events that starts where `cursor` stands. Its own
    /// cursor starts at zero. Scale, root and octave loop and fill gaps, and
    /// every gap value is the default of its kind.
    pub fn new(cursor: Cursor) -> (r: Self)
        ensures
            r@.wf(),
            default_gaps(r@),
            r@.start_position == cursor.position,
            r@.cursor == (Cursor {
                position: CursorPosition { beat: 0, tick: 0, resolution: cursor.resolution },
                resolution: cursor.resolution,
            }),
            !r@.is_loop,
            !r@.is_finished,
            fresh(r@.degree, cursor.resolution, false),
            fresh(r@.modulation, cursor.resolution, false),
            fresh(r@.scale, cursor.resolution, true),
            fresh(r@.root, cursor.resolution, true),
            fresh(r@.octave, cursor.resolution, true),
    {
        let start_position = cursor.position;
        let resolution = cursor.resolution();
        let own = Cursor::new(resolution);
        let mut result = Self {
            degree: EventStream::new(Vec::new(), resolution),
            scale: EventStream::new(Vec::new(), resolution),
            root: EventStream::new(Vec::new(), resolution),
            octave: EventStream::new(Vec::new(), resolution),
            modulation: EventStream::new(Vec::new(), resolution),
            start_position,
            cursor: own,
            is_loop: false,
            is_finished: false,
        };
        proof {
            reveal_with_fuel(sorted_prefix, 1);
        }

        result.scale.set_loop(true);
        result.scale.set_fill_gaps(true);

        result.root.set_loop(true);
        result.root.set_fill_gaps(true);

        result.octave.set_loop(true);
        result.octave.set_fill_gaps(true);

        result
    }

    /// Set if the pattern should loop.
    pub fn set_loop(&mut self, is_loop: bool)
        requires
            old(self)@.wf(),
        ensures
            final(self)@.wf(),
            final(self)@ == (PatternState {
                is_loop,
                degree: old(self)@.degree.with_loop(is_loop),
                modulation: old(self)@.modulation.with_loop(is_loop),
                ..old(self)@
            }),
    {
        self.is_loop = is_loop;
        self.degree.set_loop(is_loop);
        self.modulation.set_loop(is_loop);
    }

    /// Get if pattern is loop.
    pub fn is_loop(&self) -> (r: bool)
        ensures
            r == self@.is_loop,
    {
        self.is_loop
    }

    /// Reset pattern to start position.
    pub fn reset(&mut self)
        requires
            old(self)@.wf(),
        ensures
            final(self)@.wf(),
            final(self)@ == (PatternState {
                cursor: Cursor {
                    position: CursorPosition {
                        beat: 0,
                        tick: 0,
                        resolution: old(self)@.cursor.position.resolution,
                    },
                    resolution: old(self)@.cursor.resolution,
                },
                degree: old(self)@.degree.restarted(),
                scale: old(self)@.scale.restarted(),
                root: old(self)@.root.restarted(),
                octave: old(self)@.octave.restarted(),
                modulation: old(self)@.modulation.restarted(),
                ..old(self)@
            }),
    {
        self.cursor.reset();
        self.degree.reset();
        self.scale.reset();
        self.root.reset();
        self.octave.reset();
        self.modulation.reset();
    }

    pub fn start_position(&self) -> (r: CursorPosition)
        ensures
            r == self@.start_position,
    {
        self.start_position
    }

    /// The position that the next step stands for.
    pub fn position(&self) -> (r: CursorPosition)
        ensures
            r == self@.cursor.position,
    {
        self.cursor.position
    }

    /// Ticks per beat.
    pub fn resolution(&self) -> (r: u64)
        ensures
            r == self@.cursor.resolution,
    {
        self.cursor.resolution()
    }

    /// Puts the events of every stream in time order.
    pub fn sort(&mut self)
        requires
            old(self)@.wf(),
        ensures
            final(self)@.wf(),
            final(self)@ == (PatternState {
                degree: old(self)@.degree.settled(),
                scale: old(self)@.scale.settled(),
                root: old(self)@.root.settled(),
                octave: old(self)@.octave.settled(),
                modulation: old(self)@.modulation.settled(),
                ..old(self)@
            }),
    {
        self.degree.sort();
        self.scale.sort();
        self.root.sort();
        self.octave.sort();
        self.modulation.sort();
    }

    /// Schedules a degree from `position` on, for `duration`. Positions
    /// count from the start of the pattern, whatever the cursor's position.
    pub fn schedule_degree(&mut self, value: Degree, position: CursorPosition, duration: Duration)
        requires
            old(self)@.wf(),
            schedulable(position, duration, old(self)@.cursor.resolution),
        ensures
            final(self)@.wf(),
            final(self)@ == (PatternState {
                degree: scheduled(
                    old(self)@.degree,
                    value,
                    position,
                    duration,
                    old(self)@.cursor.resolution,
                ),
                ..old(self)@
            }),
    {
        let off = off_position_of(position, duration, self.cursor.resolution());
        self.degree.add_event(Event { value, position, state: EventState::On });
        self.degree.add_event(Event { value, position: off, state: EventState::Off });
    }

    /// Schedules a root from `position` on, for `duration`.
    pub fn schedule_root(&mut self, value: Root, position: CursorPosition, duration: Duration)
        requires
            old(self)@.wf(),
            schedulable(position, duration, old(self)@.cursor.resolution),
        ensures
            final(self)@.wf(),
            final(self)@ == (PatternState {
                root: scheduled(
                    old(self)@.root,
                    value,
                    position,
                    duration,
                    old(self)@.cursor.resolution,
                ),
                ..old(self)@
            }),
    {
        let off = off_position_of(position, duration, self.cursor.resolution());
        self.root.add_event(Event { value, position, state: EventState::On });
        self.root.add_event(Event { value, position: off, state: EventState::Off });
    }

    /// Schedules an octave from `position` on, for `duration`.
    pub fn schedule_octave(&mut self, value: Octave, position: CursorPosition, duration: Duration)
        requires
            old(self)@.wf(),
            schedulable(position, duration, old(self)@.cursor.resolution),
        ensures
            final(self)@.wf(),
            final(self)@ == (PatternState {
                octave: scheduled(
                    old(self)@.octave,
                    value,
                    position,
                    duration,
                    old(self)@.cursor.resolution,
                ),
                ..old(self)@
            }),
    {
        let off = off_position_of(position, duration, self.cursor.resolution());
        self.octave.add_event(Event { value, position, state: EventState::On });
        self.octave.add_event(Event { value, position: off, state: EventState::Off });
    }

    /// Schedules a modulation from `position` on, for `duration`.
    pub fn schedule_modulation(
        &mut self,
        value: Modulation,
        position: CursorPosition,
        duration: Duration,
    )
        requires
            old(self)@.wf(),
            schedulable(position, duration, old(self)@.cursor.resolution),
        ensures
            final(self)@.wf(),
            final(self)@ == (PatternState {
                modulation: scheduled(
                    old(self)@.modulation,
                    value,
                    position,
                    duration,
                    old(self)@.cursor.resolution,
                ),
                ..old(self)@
            }),
    {
        let off = off_position_of(position, duration, self.cursor.resolution());
        self.modulation.add_event(Event { value: value.clone(), position, state: EventState::On });
        self.modulation.add_event(Event { value, position: off, state: EventState::Off });
    }

    /// Schedules a scale from `position` on, for `duration`. The `On` event
    /// holds a copy of the scale: the same name and pitch set.
    pub fn schedule_scale(&mut self, value: Scale, position: CursorPosition, duration: Duration)
        requires
            old(self)@.wf(),
            schedulable(position, duration, old(self)@.cursor.resolution),
        ensures
            final(self)@.wf(),
            final(self)@ == (PatternState { scale: final(self)@.scale, ..old(self)@ }),
            final(self)@.scale == (StreamState {
                events: final(self)@.scale.events,
                sorted: false,
                ..old(self)@.scale
            }),
            final(self)@.scale.events.len() == old(self)@.scale.events.len() + 2,
            final(self)@.scale.events.take(old(self)@.scale.events.len() as int) == old(self)@.scale.events,
            ({
                let on = final(self)@.scale.events[old(self)@.scale.events.len() as int];
                &&& on.value.name() == value.name()
                &&& on.value.pitch_set() == value.pitch_set()
                &&& on.position == position
                &&& on.state == EventState::On
            }),
            final(self)@.scale.events.last() == (Event {
                value,
                position: off_position(position, duration, old(self)@.cursor.resolution),
                state: EventState::Off,
            }),
    {
        let off = off_position_of(position, duration, self.cursor.resolution());
        let ghost before = self.scale@.events;
        self.scale.add_event(Event { value: value.clone(), position, state: EventState::On });
        self.scale.add_event(Event { value, position: off, state: EventState::Off });
        proof {
            assert(self.scale@.events.take(before.len() as int) =~= before);
        }
    }
}

/// A copy of a degree, a root, an octave or a modulation is equal to what
/// it was made from.
pub proof fn lemma_copies_are_equal()
    ensures
        copies_are_equal::<Degree>(),
        copies_are_equal::<Root>(),
        copies_are_equal::<Octave>(),
        copies_are_equal::<Modulation>(),
{
}

/// A stream that was not ahead of the cursor is not ahead of it after a
/// step of both, nor if the stream went back to its start before.
pub proof fn lemma_keeps_step<T>(pre: StreamState<T>, post: StreamState<T>, cursor: Cursor)
    requires
        keeps_step(pre, cursor),
        cursor.position.tick == 0 || cursor.position.tick < cursor.position.resolution,
        cursor.position.beat < u64::MAX,
        post.wf(),
        post.position == pre.position || post.position == pre.origin() || post.position
            == pre.position.successor() || post.position == pre.origin().successor(),
    ensures
        keeps_step(
            post,
            Cursor { position: cursor.position.successor(), resolution: cursor.resolution },
        ),
{
}

/// What a step leaves of a stream's position: it stays, moves one tick on,
/// or goes back to the start.
pub proof fn lemma_stepped_position<T>(s: StreamState<T>)
    ensures
        s.stepped().position == s.position || s.stepped().position == s.origin()
            || s.stepped().position == s.position.successor(),
        s.stepped().position.resolution == s.position.resolution,
        s.settled().position == s.position,
        s.restarted().position == s.origin(),
        s.restarted().origin() == s.origin(),
        forall|gap: Seq<Event<T>>|
            (#[trigger] s.advanced(gap)).position == s.origin() || s.advanced(gap).position
                == s.position.successor(),
{
}

impl Pattern {
    /// The values at the current position, then one tick forward.
    ///
    /// `None` when the degrees and the modulations have come to their end
    /// and the beat is complete.
    pub fn next(&mut self) -> (r: Option<Vec<Event<Value>>>)
        requires
            old(self)@.wf(),
            old(self)@.cursor.position.beat < u64::MAX,
        ensures
            final(self)@.wf(),
            handed(r) == old(self)@.handed_out(),
            old(self)@.steps_to(final(self)@),
    {
        let result = match self.next_degree_and_modulation() {
            Some((degree, modulation)) => Some(self.init_next_values(degree, modulation)),
            None => None,
        };
        proof {
            let pre = old(self)@;
            let now = self@;
            lemma_stepped_position(pre.degree);
            lemma_stepped_position(pre.modulation);
            lemma_stepped_position(pre.root);
            lemma_stepped_position(pre.octave);
            lemma_stepped_position(pre.degree.stepped().restarted());
            lemma_stepped_position(pre.modulation.stepped().restarted());
            lemma_stepped_position(pre.scale);
            lemma_keeps_step(pre.degree, now.degree, pre.cursor);
            lemma_keeps_step(pre.modulation, now.modulation, pre.cursor);
            lemma_keeps_step(pre.root, now.root, pre.cursor);
            lemma_keeps_step(pre.octave, now.octave, pre.cursor);
            lemma_keeps_step(pre.scale, now.scale, pre.cursor);
        }
        self.cursor.next();
        proof {
            let pre = old(self)@;
            if !pre.at_end() || pre.fills_beat() {
                let out = choose|out: Option<Seq<Event<Scale>>>| pre.scale.pulled(out, self@.scale);
                assert(pre.scale.pulled(out, self@.scale));
            }
            assert(self@.cursor == pre.cursor_after());
        }
        result
    }

    /// Pulls the degrees and the modulations of the step.
    fn next_degree_and_modulation(&mut self) -> (r: Option<
        (Vec<Event<Degree>>, Vec<Event<Modulation>>),
    >)
        requires
            old(self)@.wf(),
            old(self)@.cursor.position.beat < u64::MAX,
        ensures
            final(self).degree@.wf(),
            final(self).modulation@.wf(),
            final(self)@.scale == old(self)@.scale,
            final(self)@.root == old(self)@.root,
            final(self)@.octave == old(self)@.octave,
            final(self)@.cursor == old(self)@.cursor,
            final(self)@.start_position == old(self)@.start_position,
            final(self)@.is_loop == old(self)@.is_loop,
            old(self)@.at_end() ==> {
                &&& final(self)@.degree == old(self)@.degree.stepped()
                &&& final(self)@.modulation == old(self)@.modulation.stepped()
                &&& final(self)@.is_finished == (old(self)@.is_finished || !old(self)@.fills_beat())
                &&& if old(self)@.fills_beat() {
                    r matches Some((d, m)) && d@.len() == 0 && m@.len() == 0
                } else {
                    r.is_none()
                }
            },
            !old(self)@.at_end() ==> {
                &&& final(self)@.degree == again(
                    old(self)@.degree,
                    old(self)@.cursor.position.tick == 0,
                ).1
                &&& final(self)@.modulation == again(
                    old(self)@.modulation,
                    old(self)@.cursor.position.tick == 0,
                ).1
                &&& final(self)@.is_finished == old(self)@.is_finished
                &&& r matches Some((d, m)) && d@ == or_empty(
                    again(old(self)@.degree, old(self)@.cursor.position.tick == 0).0,
                ) && m@ == or_empty(
                    again(old(self)@.modulation, old(self)@.cursor.position.tick == 0).0,
                )
            },
    {
        proof {
            lemma_copies_are_equal();
        }
        let mut degree = self.degree.next();
        let mut modulation = self.modulation.next();
        proof {
            lemma_pulled_exactly(old(self)@.degree, handed(degree), self.degree@);
            lemma_pulled_exactly(old(self)@.modulation, handed(modulation), self.modulation@);
        }

        if degree.is_none() && modulation.is_none() {
            // the rest of the beat
            if !self.is_finished && self.cursor.position.tick() != 0 {
                return Some((Vec::new(), Vec::new()));
            }
            self.is_finished = true;
            return None;
        }
        if self.cursor.position.tick() == 0 {
            if degree.is_none() {
                let ghost first = self.degree@;
                self.degree.reset();
                degree = self.degree.next();
                proof {
                    lemma_pulled_exactly(first.restarted(), handed(degree), self.degree@);
                }
            }
            if modulation.is_none() {
                let ghost first = self.modulation@;
                self.modulation.reset();
                modulation = self.modulation.next();
                proof {
                    lemma_pulled_exactly(first.restarted(), handed(modulation), self.modulation@);
                }
            }
        }
        let degrees = match degree {
            Some(d) => d,
            None => Vec::new(),
        };
        let modulations = match modulation {
            Some(m) => m,
            None => Vec::new(),
        };
        Some((degrees, modulations))
    }

    /// The pitches of the step: one for each degree.
    fn next_pitches(&mut self, degree: Vec<Event<Degree>>) -> (r: Vec<Event<Value>>)
        requires
            keeps_step(old(self)@.scale, old(self)@.cursor),
            keeps_step(old(self)@.root, old(self)@.cursor),
            keeps_step(old(self)@.octave, old(self)@.cursor),
            old(self)@.cursor.position.beat < u64::MAX,
        ensures
            final(self).scale@.wf(),
            final(self).root@.wf(),
            final(self).octave@.wf(),
            final(self)@.degree == old(self)@.degree,
            final(self)@.modulation == old(self)@.modulation,
            final(self)@.cursor == old(self)@.cursor,
            final(self)@.start_position == old(self)@.start_position,
            final(self)@.is_loop == old(self)@.is_loop,
            final(self)@.is_finished == old(self)@.is_finished,
            final(self)@.root == old(self)@.root.stepped(),
            final(self)@.octave == old(self)@.octave.stepped(),
            exists|out: Option<Seq<Event<Scale>>>| old(self)@.scale.pulled(out, final(self)@.scale),
            r@ == pitch_events(
                degree@,
                values_or(old(self)@.root.yielded(), Root(0)),
                values_or(old(self)@.octave.yielded(), Octave::at(5)),
                pitch_sets(old(self)@.scale.yielded()),
                old(self)@.cursor.position,
            ),
    {
        proof {
            lemma_copies_are_equal();
        }
        let roots = self.root.next();
        let octaves = self.octave.next();
        let scales = self.scale.next();
        proof {
            lemma_pulled_exactly(old(self)@.root, handed(roots), self.root@);
            lemma_pulled_exactly(old(self)@.octave, handed(octaves), self.octave@);
            assert(old(self)@.scale.pulled(handed(scales), self.scale@));
        }
        let default_scale = Scale::default();
        let position = self.cursor.position;
        let ghost root_values = values_or(old(self)@.root.yielded(), Root(0));
        let ghost octave_values = values_or(old(self)@.octave.yielded(), Octave::at(5));
        let ghost sets = pitch_sets(old(self)@.scale.yielded());
        proof {
            if let Some(v) = handed(scales) {
                let v = scales.unwrap();
                assert(copies_of(old(self)@.scale.offered(), v@));
                assert forall|i: int| 0 <= i < v@.len() implies (#[trigger] v@[i]).value.pitch_set()
                    == old(self)@.scale.offered()[i].value.pitch_set() by {
                    assert(old(self)@.scale.offered()[i].copied_to(v@[i]));
                }
            }
        }
        let mut out: Vec<Event<Value>> = Vec::new();
        let mut n: usize = 0;
        while n < degree.len()
            invariant
                n <= degree@.len(),
                out@.len() == n,
                handed(roots) == old(self)@.root.yielded(),
                handed(octaves) == old(self)@.octave.yielded(),
                root_values == values_or(old(self)@.root.yielded(), Root(0)),
                octave_values == values_or(old(self)@.octave.yielded(), Octave::at(5)),
                sets == pitch_sets(old(self)@.scale.yielded()),
                default_scale.pitch_set() == chromatic(),
                match scales {
                    Some(v) => old(self)@.scale.yielded().is_some() && v@.len()
                        == old(self)@.scale.offered().len() && forall|i: int|
                        0 <= i < v@.len() ==> (#[trigger] v@[i]).value.pitch_set() == old(self)@.scale.offered()[i].value.pitch_set(),
                    None => old(self)@.scale.yielded().is_none(),
                },
                forall|k: int|
                    0 <= k < n ==> out@[k] == pitch_events(
                        degree@,
                        root_values,
                        octave_values,
                        sets,
                        position,
                    )[k],
            decreases degree@.len() - n,
        {
            let d = &degree[n];
            let root = match &roots {
                Some(v) => if v.len() > 0 {
                    v[n % v.len()].value
                } else {
                    Root::default()
                },
                None => Root::default(),
            };
            let octave = match &octaves {
                Some(v) => if v.len() > 0 {
                    v[n % v.len()].value
                } else {
                    Octave::default()
                },
                None => Octave::default(),
            };
            let value = match &scales {
                Some(v) => if v.len() > 0 {
                    Value::new_pitch(&d.value, &root, &octave, &v[n % v.len()].value)
                } else {
                    Value::new_pitch(&d.value, &root, &octave, &default_scale)
                },
                None => Value::new_pitch(&d.value, &root, &octave, &default_scale),
            };
            out.push(Event::new(value, position, d.state));
            n += 1;
        }
        proof {
            assert(out@ =~= pitch_events(degree@, root_values, octave_values, sets, position));
            assert(old(self)@.scale.pulled(handed(scales), self@.scale));
        }
        out
    }

    /// The values of the step: the modulations, then the pitches.
    fn init_next_values(&mut self, degree: Vec<Event<Degree>>, modulation: Vec<Event<Modulation>>) -> (r:
        Vec<Event<Value>>)
        requires
            keeps_step(old(self)@.scale, old(self)@.cursor),
            keeps_step(old(self)@.root, old(self)@.cursor),
            keeps_step(old(self)@.octave, old(self)@.cursor),
            old(self)@.cursor.position.beat < u64::MAX,
        ensures
            final(self).scale@.wf(),
            final(self).root@.wf(),
            final(self).octave@.wf(),
            final(self)@.degree == old(self)@.degree,
            final(self)@.modulation == old(self)@.modulation,
            final(self)@.cursor == old(self)@.cursor,
            final(self)@.start_position == old(self)@.start_position,
            final(self)@.is_loop == old(self)@.is_loop,
            final(self)@.is_finished == old(self)@.is_finished,
            final(self)@.root == old(self)@.root.stepped(),
            final(self)@.octave == old(self)@.octave.stepped(),
            exists|out: Option<Seq<Event<Scale>>>| old(self)@.scale.pulled(out, final(self)@.scale),
            r@ == modulation_events(modulation@, old(self)@.cursor.position) + pitch_events(
                degree@,
                values_or(old(self)@.root.yielded(), Root(0)),
                values_or(old(self)@.octave.yielded(), Octave::at(5)),
                pitch_sets(old(self)@.scale.yielded()),
                old(self)@.cursor.position,
            ),
    {
        let mut pitches = self.next_pitches(degree);
        let position = self.cursor.position;
        let mut out: Vec<Event<Value>> = Vec::new();
        let mut n: usize = 0;
        while n < modulation.len()
            invariant
                n <= modulation@.len(),
                out@.len() == n,
                forall|k: int|
                    0 <= k < n ==> out@[k] == modulation_events(modulation@, position)[k],
            decreases modulation@.len() - n,
        {
            let m = &modulation[n];
            out.push(Event::new(Value::from(m.value.clone()), position, m.state));
            n += 1;
        }
        proof {
            assert(out@ =~= modulation_events(modulation@, position));
        }
        out.append(&mut pitches);
        out
    }
}

impl Default for Pattern {
    /// A pattern without events whose streams are all at their defaults:
    /// none loops, and none fills gaps.
    fn default() -> (r: Self)
        ensures
            r@.wf(),
            r@.cursor == (Cursor {
                position: CursorPosition { beat: 0, tick: 0, resolution: 1920 },
                resolution: 1920,
            }),
            r@.start_position == (CursorPosition { beat: 0, tick: 0, resolution: 1920 }),
            !r@.is_loop,
            !r@.is_finished,
            r@.degree.events.len() == 0,
            r@.modulation.events.len() == 0,
            r@.scale.events.len() == 0,
            r@.root.events.len() == 0,
            r@.octave.events.len() == 0,
    {
        Pattern {
            degree: EventStream::default(),
            scale: EventStream::default(),
            root: EventStream::default(),
            octave: EventStream::default(),
            modulation: EventStream::default(),
            cursor: Cursor::default(),
            start_position: CursorPosition::default(),
            is_loop: false,
            is_finished: false,
        }
    }
}

/// Every event that a step hands out lies at the position that the stream
/// had before the step, and the step leaves the stream at a later
/// position, unless it starts a looping stream again.
pub proof fn lemma_stream_steps_forward<T: Clone>(
    s: StreamState<T>,
    out: Seq<Event<T>>,
    next: StreamState<T>,
)
    requires
        s.wf(),
        s.position.beat < u64::MAX,
        !s.exhausted(),
        s.hands_out(out, next),
    ensures
        forall|i: int| 0 <= i < out.len() ==> (#[trigger] out[i]).position.same_instant(s.position),
        in_time_order(next.events),
        next.position == s.origin() || next.position == s.position.successor(),
        s.position.precedes(s.position.successor()),
{
    lemma_hits(s.ordered(), s.index, s.position);
    lemma_stable_sorted(s.events);
    assert forall|i: int| 0 <= i < out.len() implies (#[trigger] out[i]).position.same_instant(
        s.position,
    ) by {
        assert(s.offered()[i].copied_to(out[i]));
    }
}

/// Whether `copy` is what a copy of the stream `original` may be: the same
/// state, with copies of its events.
pub open spec fn stream_copied<T: Clone>(original: StreamState<T>, copy: StreamState<T>) -> bool {
    &&& copies_of(original.events, copy.events)
    &&& copies_of(original.gap, copy.gap)
    &&& copy.sorted == original.sorted
    &&& copy.index == original.index
    &&& copy.position == original.position
    &&& copy.looping == original.looping
    &&& copy.filling == original.filling
    &&& copy.resolution == original.resolution
}

impl<T: Clone> Clone for EventStream<T> {
    fn clone(&self) -> (r: Self)
        ensures
            stream_copied(self@, r@),
    {
        EventStream {
            events: copy_events(&self.events),
            increment: self.increment,
            cursor: self.cursor,
            is_loop: self.is_loop,
            fill_gaps: self.fill_gaps,
            gap_value: copy_events(&self.gap_value),
            is_sorted: self.is_sorted,
        }
    }
}

impl Clone for Pattern {
    fn clone(&self) -> (r: Self)
        ensures
            stream_copied(self@.degree, r@.degree),
            stream_copied(self@.scale, r@.scale),
            stream_copied(self@.root, r@.root),
            stream_copied(self@.octave, r@.octave),
            stream_copied(self@.modulation, r@.modulation),
            r@.cursor == self@.cursor,
            r@.start_position == self@.start_position,
            r@.is_loop == self@.is_loop,
            r@.is_finished == self@.is_finished,
    {
        Pattern {
            degree: self.degree.clone(),
            scale: self.scale.clone(),
            root: self.root.clone(),
            octave: self.octave.clone(),
            modulation: self.modulation.clone(),
            cursor: self.cursor,
            start_position: self.start_position,
            is_loop: self.is_loop,
            is_finished: self.is_finished,
        }
    }
}

/// Of two steps that follow each other without a new start between them,
/// every event of the second lies strictly after every event of the first.
pub proof fn lemma_successive_steps<T: Clone>(
    first: StreamState<T>,
    out1: Seq<Event<T>>,
    second: StreamState<T>,
    out2: Seq<Event<T>>,
    third: StreamState<T>,
)
    requires
        first.wf(),
        first.position.beat < u64::MAX,
        !first.exhausted(),
        first.hands_out(out1, second),
        second.position == first.position.successor(),
        second.position.beat < u64::MAX,
        !second.exhausted(),
        second.hands_out(out2, third),
    ensures
        forall|i: int, j: int|
            0 <= i < out1.len() && 0 <= j < out2.len() ==> (#[trigger] out1[i]).position.precedes(
                (#[trigger] out2[j]).position,
            ),
{
    lemma_stream_steps_forward(first, out1, second);
    assert(second.wf());
    lemma_stream_steps_forward(second, out2, third);
}

/// The events that a step finds at one position come in the order in which
/// they were added: their indices in the events as they were stored grow.
pub proof fn lemma_group_in_insertion_order<T>(events: Seq<Event<T>>, from: int, p: CursorPosition)
    requires
        0 <= from,
    ensures
        ({
            let sorted = stable_sorted(events);
            let order = sorted_order(events, events.len() as int);
            let found = hits(sorted, from, p);
            &&& forall|i: int|
                0 <= i < found.len() ==> 0 <= (#[trigger] found[i]) < sorted.len() && picked(
                    sorted,
                    found,
                )[i] == events[order[found[i]]]
            &&& forall|i: int, j: int|
                0 <= i < j < found.len() ==> order[#[trigger] found[i]] < order[#[trigger] found[j]]
        }),
{
    let sorted = stable_sorted(events);
    let order = sorted_order(events, events.len() as int);
    let found = hits(sorted, from, p);
    lemma_hits(sorted, from, p);
    lemma_sorted_stably(events, events.len() as int);
    assert(events.take(events.len() as int) =~= events);
    assert forall|i: int, j: int| 0 <= i < j < found.len() implies order[#[trigger] found[i]]
        < order[#[trigger] found[j]] by {
        assert(found[i] < found[j]);
        assert(sorted[found[i]].position.same_instant(sorted[found[j]].position));
    }
}

} // verus!
