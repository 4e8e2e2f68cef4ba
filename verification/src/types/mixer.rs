//! The mixer: tracks, and the slots of a track that hold patterns.

use vstd::prelude::*;
use crate::types::pattern::Pattern;

verus! {

/// A place of a track that holds a pattern.
#[derive(Debug, PartialEq)]
pub struct Slot {
    pub pattern: Pattern,
}

impl Default for Slot {
    fn default() -> (r: Self)
        ensures
            r.pattern@.wf(),
    {
        Slot { pattern: Pattern::default() }
    }
}

/// A track: its slots, each under its number.
#[derive(Debug, PartialEq)]
pub struct Track {
    slots: Vec<(usize, Slot)>,
}

/// The index of the first of the first `n` entries with the number
/// `number`, or `n` if there is none.
pub open spec fn place_of<T>(entries: Seq<(usize, T)>, number: usize, n: int) -> int
    decreases n,
{
    if n <= 0 {
        0
    } else if place_of(entries, number, n - 1) < n - 1 {
        place_of(entries, number, n - 1)
    } else if entries[n - 1].0 == number {
        n - 1
    } else {
        n
    }
}

/// The place of `number` among the entries, or their length.
fn find<T>(entries: &Vec<(usize, T)>, number: usize) -> (r: usize)
    ensures
        r == place_of(entries@, number, entries@.len() as int),
        r <= entries@.len(),
        r < entries@.len() ==> entries@[r as int].0 == number,
{
    let mut i: usize = 0;
    while i < entries.len()
        invariant
            i <= entries@.len(),
            place_of(entries@, number, i as int) == i,
        decreases entries@.len() - i,
    {
        if entries[i].0 == number {
            proof {
                lemma_place_stays(entries@, number, i + 1, entries@.len() as int);
            }
            return i;
        }
        i += 1;
    }
    i
}

/// Once a number is found among the entries, it is found at the same place
/// among more of them.
pub proof fn lemma_place_stays<T>(entries: Seq<(usize, T)>, number: usize, n: int, m: int)
    requires
        0 <= n <= m,
        place_of(entries, number, n) < n,
    ensures
        place_of(entries, number, m) == place_of(entries, number, n),
    decreases m - n,
{
    if n < m {
        lemma_place_stays(entries, number, n, m - 1);
    }
}

impl Track {
    /// The slots with their numbers, in the order in which they were first
    /// asked for.
    pub closed spec fn slots(self) -> Seq<(usize, Slot)> {
        self.slots@
    }

    /// The slot with the number `index`. A slot that is asked for the first
    /// time is made, with an empty pattern.
    pub fn slot(&mut self, index: usize) -> (r: &Slot)
        ensures
            ({
                let place = place_of(old(self).slots(), index, old(self).slots().len() as int);
                if place < old(self).slots().len() {
                    final(self).slots() == old(self).slots() && *r == old(self).slots()[place].1
                } else {
                    final(self).slots().len() == old(self).slots().len() + 1 && final(self).slots().take(place) == old(self).slots() && final(self).slots()[place]
                        == (index, *r) && r.pattern@.wf()
                }
            }),
    {
        let place = find(&self.slots, index);
        if place == self.slots.len() {
            self.slots.push((index, Slot::default()));
            proof {
                assert(self.slots@.take(place as int) =~= old(self).slots@);
            }
        }
        &self.slots[place].1
    }
}

impl Default for Track {
    fn default() -> (r: Self)
        ensures
            r.slots().len() == 0,
    {
        Track { slots: Vec::new() }
    }
}

/// The mixer: its tracks, each under its number.
#[derive(Debug, PartialEq)]
pub struct Mixer {
    tracks: Vec<(usize, Track)>,
}

impl Mixer {
    /// The tracks with their numbers, in the order in which they were first
    /// asked for.
    pub closed spec fn tracks(self) -> Seq<(usize, Track)> {
        self.tracks@
    }

    /// The place of the track with the number `index` among the tracks. A
    /// track that is asked for the first time is made, without slots.
    pub fn track(&mut self, index: usize) -> (place: usize)
        ensures
            place == place_of(old(self).tracks(), index, old(self).tracks().len() as int),
            place < final(self).tracks().len(),
            final(self).tracks()[place as int].0 == index,
            if place < old(self).tracks().len() {
                final(self).tracks() == old(self).tracks()
            } else {
                final(self).tracks() == old(self).tracks().push(
                    final(self).tracks()[place as int],
                ) && final(self).tracks()[place as int].1.slots().len() == 0
            },
    {
        let place = find(&self.tracks, index);
        if place == self.tracks.len() {
            self.tracks.push((index, Track::default()));
        }
        place
    }
}

impl Mixer {
    /// The slot with the number `slot` of the track at `place`. A slot that
    /// is asked for the first time is made, with an empty pattern.
    pub fn slot(&mut self, place: usize, slot: usize) -> (at: usize)
        requires
            place < old(self).tracks().len(),
        ensures
            final(self).tracks().len() == old(self).tracks().len(),
            forall|i: int|
                0 <= i < old(self).tracks().len() && i != place ==> final(self).tracks()[i] == old(self).tracks()[i],
            final(self).tracks()[place as int].0 == old(self).tracks()[place as int].0,
            at == place_of(
                old(self).tracks()[place as int].1.slots(),
                slot,
                old(self).tracks()[place as int].1.slots().len() as int,
            ),
            at < final(self).tracks()[place as int].1.slots().len(),
            final(self).tracks()[place as int].1.slots()[at as int].0 == slot,
            at < old(self).tracks()[place as int].1.slots().len() ==> final(self).tracks() == old(self).tracks(),
    {
        let mut entry = self.tracks.remove(place);
        let at = find(&entry.1.slots, slot);
        if at == entry.1.slots.len() {
            entry.1.slots.push((slot, Slot::default()));
        }
        self.tracks.insert(place, entry);
        proof {
            if at < old(self).tracks@[place as int].1.slots@.len() {
                assert(self.tracks@ =~= old(self).tracks@);
            }
        }
        at
    }
}

impl Default for Mixer {
    fn default() -> (r: Self)
        ensures
            r.tracks().len() == 0,
    {
        Mixer { tracks: Vec::new() }
    }
}

} // verus!
