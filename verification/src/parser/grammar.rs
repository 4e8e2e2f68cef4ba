//! The grammar, as functions from a text and a position to the tree that is
//! read there and the position behind it.
//!
//! Every rule reads as much as it can. A list ends where its next element
//! cannot be read; a part that may be left out is left out where it cannot
//! be read.

use vstd::prelude::*;
use crate::parser::{branch, leaf, number_leaf, text_leaf, Node, Rule};

verus! {

/// Where and why a text cannot be read.
pub struct Fault {
    /// The position at which reading failed.
    pub at: int,
    /// Whether a number was read there that is too large.
    pub numeric: bool,
}

/// A tree and the position behind the text it was read from, or the fault.
pub type Parsed = Result<(Node, int), Fault>;

/// A fault of the grammar at `at`.
pub open spec fn fault(at: int) -> Fault {
    Fault { at, numeric: false }
}

/// Whether the text has the character `c` at `pos`.
pub open spec fn has(s: Seq<char>, pos: int, c: char) -> bool {
    0 <= pos < s.len() && s[pos] == c
}

pub open spec fn is_blank(c: char) -> bool {
    c == ' ' || c == '\t'
}

pub open spec fn is_line_end(c: char) -> bool {
    c == '\n' || c == '\r'
}

pub open spec fn is_digit(c: char) -> bool {
    48 <= c as u32 <= 57
}

/// The digits of a pitch: `0` to `9` and `a` to `f`.
pub open spec fn is_pitch(c: char) -> bool {
    is_digit(c) || 97 <= c as u32 <= 102
}

/// The value of a decimal digit.
pub open spec fn digit_value(c: char) -> int {
    c as u32 - 48
}

/// The value of a pitch digit: `a` to `f` stand for ten to fifteen.
pub open spec fn pitch_value(c: char) -> int {
    if is_digit(c) {
        c as u32 - 48
    } else {
        c as u32 - 97 + 10
    }
}

/// A letter of the Latin alphabet or `_`.
pub open spec fn is_name_start(c: char) -> bool {
    97 <= c as u32 <= 122 || 65 <= c as u32 <= 90 || c == '_'
}

pub open spec fn is_name_part(c: char) -> bool {
    is_name_start(c) || is_digit(c)
}

pub open spec fn is_method(c: char) -> bool {
    c == '.' || c == '*' || c == ':'
}

pub open spec fn is_sign(c: char) -> bool {
    c == '+' || c == '-'
}

/// Kinds of characters that the grammar reads in runs.
#[derive(Debug, Clone, Copy, PartialEq, Eq, Structural)]
pub enum CharKind {
    /// A space or a tab.
    Blank,
    /// A space, a tab or a line end.
    Space,
    /// A decimal digit.
    Digit,
    /// A letter, a digit or `_`.
    NamePart,
    /// One of the event methods `.`, `*` and `:`.
    Method,
    /// One of the alterations `+` and `-`.
    Sign,
    /// Anything but a double quote.
    NotQuote,
}

/// Whether `c` is of the kind `kind`.
pub open spec fn of_kind(c: char, kind: CharKind) -> bool {
    match kind {
        CharKind::Blank => is_blank(c),
        CharKind::Space => is_blank(c) || is_line_end(c),
        CharKind::Digit => is_digit(c),
        CharKind::NamePart => is_name_part(c),
        CharKind::Method => is_method(c),
        CharKind::Sign => is_sign(c),
        CharKind::NotQuote => c != '"',
    }
}

/// The number of characters from `pos` on that all are of the kind `kind`.
pub open spec fn run(s: Seq<char>, pos: int, kind: CharKind) -> nat
    decreases s.len() - pos,
{
    if 0 <= pos < s.len() && of_kind(s[pos], kind) {
        1 + run(s, pos + 1, kind)
    } else {
        0
    }
}

/// A run stays within the text.
pub proof fn lemma_run(s: Seq<char>, pos: int, kind: CharKind)
    requires
        0 <= pos <= s.len(),
    ensures
        pos + run(s, pos, kind) <= s.len(),
        forall|i: int| pos <= i < pos + run(s, pos, kind) ==> of_kind(#[trigger] s[i], kind),
        pos + run(s, pos, kind) < s.len() ==> !of_kind(s[pos + run(s, pos, kind)], kind),
    decreases s.len() - pos,
{
    if pos < s.len() && of_kind(s[pos], kind) {
        lemma_run(s, pos + 1, kind);
    }
}

/// The position behind the blanks at `pos`.
pub open spec fn past_blanks(s: Seq<char>, pos: int) -> int {
    pos + run(s, pos, CharKind::Blank)
}

/// The position behind the blanks and line ends at `pos`.
pub open spec fn past_space(s: Seq<char>, pos: int) -> int {
    pos + run(s, pos, CharKind::Space)
}

/// The value of the digits from `from` up to `to`, read as a decimal
/// number.
pub open spec fn decimal(s: Seq<char>, from: int, to: int) -> nat
    decreases to - from,
{
    if to <= from {
        0
    } else {
        (decimal(s, from, to - 1) * 10 + digit_value(s[to - 1])) as nat
    }
}

/// A whole number of at least one digit that fits in 64 bits.
pub open spec fn natural_at(s: Seq<char>, pos: int, rule: Rule) -> Parsed {
    let end = pos + run(s, pos, CharKind::Digit);
    if end == pos {
        Err(fault(pos))
    } else if decimal(s, pos, end) > u64::MAX {
        Err(Fault { at: pos, numeric: true })
    } else {
        Ok((number_leaf(rule, decimal(s, pos, end) as int), end))
    }
}

/// A name: a letter or `_`, then letters, digits and `_`.
pub open spec fn identifier_at(s: Seq<char>, pos: int) -> Parsed {
    if 0 <= pos < s.len() && is_name_start(s[pos]) {
        let end = pos + run(s, pos, CharKind::NamePart);
        Ok((text_leaf(Rule::Identifier, s.subrange(pos, end)), end))
    } else {
        Err(fault(pos))
    }
}

/// The position behind a number's fraction at `pos`, if there is one: a
/// point and at least one digit.
pub open spec fn past_fraction(s: Seq<char>, pos: int) -> int {
    if has(s, pos, '.') && run(s, pos + 1, CharKind::Digit) > 0 {
        pos + 1 + run(s, pos + 1, CharKind::Digit)
    } else {
        pos
    }
}

/// The position behind a number's exponent at `pos`, if there is one: `e`
/// or `E`, a sign if any, and at least one digit.
pub open spec fn past_exponent(s: Seq<char>, pos: int) -> int {
    if has(s, pos, 'e') || has(s, pos, 'E') {
        let digits = if has(s, pos + 1, '+') || has(s, pos + 1, '-') {
            pos + 2
        } else {
            pos + 1
        };
        if run(s, digits, CharKind::Digit) > 0 {
            digits + run(s, digits, CharKind::Digit)
        } else {
            pos
        }
    } else {
        pos
    }
}

/// A number as it is written: a minus sign if any, digits, a fraction if
/// any, an exponent if any.
pub open spec fn number_at(s: Seq<char>, pos: int) -> Parsed {
    let digits = if has(s, pos, '-') {
        pos + 1
    } else {
        pos
    };
    let whole = digits + run(s, digits, CharKind::Digit);
    if whole == digits {
        Err(fault(digits))
    } else {
        let end = past_exponent(s, past_fraction(s, whole));
        Ok((text_leaf(Rule::Number, s.subrange(pos, end)), end))
    }
}

/// A string: what stands between two double quotes.
pub open spec fn string_at(s: Seq<char>, pos: int) -> Parsed {
    if has(s, pos, '"') {
        let end = pos + 1 + run(s, pos + 1, CharKind::NotQuote);
        if has(s, end, '"') {
            Ok((text_leaf(Rule::String, s.subrange(pos + 1, end)), end + 1))
        } else {
            Err(fault(end))
        }
    } else {
        Err(fault(pos))
    }
}

/// Whether the word `word` stands at `pos` and no name goes on behind it.
pub open spec fn word_at(s: Seq<char>, pos: int, word: Seq<char>) -> bool {
    &&& 0 <= pos
    &&& pos + word.len() <= s.len()
    &&& s.subrange(pos, pos + word.len()) == word
    &&& !(pos + word.len() < s.len() && is_name_part(s[pos + word.len()]))
}

/// The tree of an event method.
pub open spec fn method_node(c: char) -> Node {
    number_leaf(
        Rule::EventMethod,
        if c == '.' {
            0
        } else if c == '*' {
            1
        } else {
            2
        },
    )
}

/// The tree of an alteration.
pub open spec fn sign_node(c: char) -> Node {
    number_leaf(
        Rule::Alteration,
        if c == '+' {
            1
        } else {
            -1
        },
    )
}

/// The trees of the event methods from `from` up to `to`.
pub open spec fn methods_between(s: Seq<char>, from: int, to: int) -> Seq<Node> {
    Seq::new((to - from) as nat, |i: int| method_node(s[from + i]))
}

/// The trees of the alterations from `from` up to `to`.
pub open spec fn signs_between(s: Seq<char>, from: int, to: int) -> Seq<Node> {
    Seq::new((to - from) as nat, |i: int| sign_node(s[from + i]))
}

/// The position behind the event methods at `pos`.
pub open spec fn past_methods(s: Seq<char>, pos: int) -> int {
    pos + run(s, pos, CharKind::Method)
}

/// An atom of a pattern: an octave atom, a tie, a pause or a note, with
/// the methods behind it. The methods behind an octave atom are read and
/// left out.
pub open spec fn atom_at(s: Seq<char>, pos: int) -> Parsed {
    if !(0 <= pos < s.len()) {
        Err(fault(pos))
    } else if s[pos] == 'O' || s[pos] == 'o' {
        Ok(
            (
                branch(
                    Rule::PatternAtom,
                    seq![
                        number_leaf(
                            Rule::Octave,
                            if s[pos] == 'O' {
                                1
                            } else {
                                -1
                            },
                        ),
                    ],
                ),
                past_methods(s, pos + 1),
            ),
        )
    } else if s[pos] == '_' || s[pos] == 'r' {
        Ok(
            (
                branch(
                    Rule::PatternAtom,
                    seq![
                        leaf(
                            if s[pos] == '_' {
                                Rule::Tie
                            } else {
                                Rule::Pause
                            },
                        ),
                    ] + methods_between(s, pos + 1, past_methods(s, pos + 1)),
                ),
                past_methods(s, pos + 1),
            ),
        )
    } else {
        let pitch = pos + run(s, pos, CharKind::Sign);
        if 0 <= pitch < s.len() && is_pitch(s[pitch]) {
            Ok(
                (
                    branch(
                        Rule::PatternAtom,
                        seq![
                            branch(
                                Rule::Note,
                                signs_between(s, pos, pitch).push(
                                    number_leaf(Rule::Pitch, pitch_value(s[pitch])),
                                ),
                            ),
                        ] + methods_between(s, pitch + 1, past_methods(s, pitch + 1)),
                    ),
                    past_methods(s, pitch + 1),
                ),
            )
        } else {
            Err(fault(pitch))
        }
    }
}

/// The atoms that stand one behind the other from `pos` on, and the
/// position behind them.
pub open spec fn atoms_at(s: Seq<char>, pos: int) -> (Seq<Node>, int)
    decreases s.len() - pos,
{
    match atom_at(s, pos) {
        Ok((atom, next)) => if pos < next <= s.len() {
            (seq![atom] + atoms_at(s, next).0, atoms_at(s, next).1)
        } else {
            (Seq::empty(), pos)
        },
        Err(_) => (Seq::empty(), pos),
    }
}

/// The fault at `pos` of the rule whose attempt there gave `r`.
pub open spec fn fault_of(r: Parsed, pos: int) -> Fault {
    match r {
        Err(f) => f,
        Ok(_) => fault(pos),
    }
}

/// An event of a beat: a chord in square brackets, beats in round brackets,
/// or a group of atoms. Methods may stand behind the closing bracket.
pub open spec fn event_at(s: Seq<char>, pos: int) -> Parsed
    decreases s.len() - pos, 1nat,
{
    if has(s, pos, '[') || has(s, pos, '(') {
        let close = if s[pos] == '[' {
            ']'
        } else {
            ')'
        };
        let rule = if s[pos] == '[' {
            Rule::Chord
        } else {
            Rule::ParenthesisedEventGroup
        };
        let start = past_blanks(s, pos + 1);
        let (beats, end) = if pos < start <= s.len() {
            beats_at(s, start)
        } else {
            (Seq::empty(), start)
        };
        if beats.len() == 0 {
            Err(
                if pos < start <= s.len() {
                    fault_of(beat_at(s, start), start)
                } else {
                    fault(start)
                },
            )
        } else if has(s, past_blanks(s, end), close) {
            let methods = past_blanks(s, end) + 1;
            Ok(
                (
                    branch(
                        rule,
                        beats + methods_between(s, methods, past_methods(s, methods)),
                    ),
                    past_methods(s, methods),
                ),
            )
        } else {
            Err(fault(past_blanks(s, end)))
        }
    } else {
        let (atoms, end) = atoms_at(s, pos);
        if atoms.len() == 0 {
            Err(fault_of(atom_at(s, pos), pos))
        } else {
            Ok((branch(Rule::Group, atoms), end))
        }
    }
}

/// The events that stand one behind the other from `pos` on.
pub open spec fn events_at(s: Seq<char>, pos: int) -> (Seq<Node>, int)
    decreases s.len() - pos, 2nat,
{
    match event_at(s, pos) {
        Ok((event, next)) => if pos < next <= s.len() {
            (seq![event] + events_at(s, next).0, events_at(s, next).1)
        } else {
            (Seq::empty(), pos)
        },
        Err(_) => (Seq::empty(), pos),
    }
}

/// A beat: at least one event, the events one behind the other.
pub open spec fn beat_at(s: Seq<char>, pos: int) -> Parsed
    decreases s.len() - pos, 3nat,
{
    let (events, end) = events_at(s, pos);
    if events.len() == 0 {
        Err(fault_of(event_at(s, pos), pos))
    } else {
        Ok((branch(Rule::BeatEvent, events), end))
    }
}

/// The beats from `pos` on, with blanks between them, and the position
/// behind the last of them.
pub open spec fn beats_at(s: Seq<char>, pos: int) -> (Seq<Node>, int)
    decreases s.len() - pos, 4nat,
{
    match beat_at(s, pos) {
        Ok((beat, next)) => if pos < next <= s.len() {
            let more = if next <= past_blanks(s, next) <= s.len() {
                beats_at(s, past_blanks(s, next))
            } else {
                (Seq::empty(), next)
            };
            if more.0.len() > 0 {
                (seq![beat] + more.0, more.1)
            } else {
                (seq![beat], next)
            }
        } else {
            (Seq::empty(), pos)
        },
        Err(_) => (Seq::empty(), pos),
    }
}

/// A pattern: beats between two bars.
pub open spec fn pattern_at(s: Seq<char>, pos: int) -> Parsed {
    if has(s, pos, '|') {
        let start = past_blanks(s, pos + 1);
        let (beats, end) = beats_at(s, start);
        let bar = past_blanks(s, end);
        if has(s, bar, '|') {
            Ok((branch(Rule::Pattern, beats), bar + 1))
        } else if beats.len() == 0 {
            Err(fault_of(beat_at(s, start), start))
        } else {
            Err(fault(bar))
        }
    } else {
        Err(fault(pos))
    }
}

/// A modulation: one of the symbols `F`, `p`, `<` and `>`, or a number in
/// braces.
pub open spec fn modulation_at(s: Seq<char>, pos: int) -> Parsed {
    if has(s, pos, 'F') {
        Ok((number_leaf(Rule::Modulation, 0), pos + 1))
    } else if has(s, pos, 'p') {
        Ok((number_leaf(Rule::Modulation, 1), pos + 1))
    } else if has(s, pos, '<') {
        Ok((number_leaf(Rule::Modulation, 2), pos + 1))
    } else if has(s, pos, '>') {
        Ok((number_leaf(Rule::Modulation, 3), pos + 1))
    } else if has(s, pos, '{') {
        match number_at(s, past_blanks(s, pos + 1)) {
            Ok((number, end)) => if has(s, past_blanks(s, end), '}') {
                Ok((branch(Rule::Modulation, seq![number]), past_blanks(s, end) + 1))
            } else {
                Err(fault(past_blanks(s, end)))
            },
            Err(f) => Err(f),
        }
    } else {
        Err(fault(pos))
    }
}


/// The word `true`.
pub open spec fn word_true() -> Seq<char> {
    seq!['t', 'r', 'u', 'e']
}

/// The word `false`.
pub open spec fn word_false() -> Seq<char> {
    seq!['f', 'a', 'l', 's', 'e']
}

/// Whether `pos` is a position of the text behind `from`.
pub open spec fn behind(s: Seq<char>, from: int, pos: int) -> bool {
    from < pos <= s.len()
}

/// The names that are read from `pos` on, a point before each.
pub open spec fn getters_at(s: Seq<char>, pos: int) -> (Seq<Node>, int)
    decreases s.len() - pos,
{
    if has(s, pos, '.') {
        match identifier_at(s, pos + 1) {
            Ok((name, next)) => if behind(s, pos, next) {
                (seq![name] + getters_at(s, next).0, getters_at(s, next).1)
            } else {
                (Seq::empty(), pos)
            },
            Err(_) => (Seq::empty(), pos),
        }
    } else {
        (Seq::empty(), pos)
    }
}

/// Whether properties can be read from an expression of this rule.
pub open spec fn takes_getters(rule: Rule) -> bool {
    rule == Rule::Variable || rule == Rule::PatternSlot || rule == Rule::Track || rule
        == Rule::Mixer || rule == Rule::FunctionCall || rule == Rule::Properties || rule
        == Rule::Array
}

/// A track, a pattern slot or the mixer: `$` with a number, with a number,
/// `@` and a number, or alone.
pub open spec fn mixer_at(s: Seq<char>, pos: int) -> Parsed {
    if has(s, pos, '$') {
        match natural_at(s, pos + 1, Rule::Track) {
            Err(f) => if f.numeric {
                Err(f)
            } else {
                Ok((leaf(Rule::Mixer), pos + 1))
            },
            Ok((track, next)) => if has(s, next, '@') {
                match natural_at(s, next + 1, Rule::Slot) {
                    Err(f) => if f.numeric {
                        Err(f)
                    } else {
                        Ok((track, next))
                    },
                    Ok((slot, end)) => Ok((branch(Rule::PatternSlot, seq![track, slot]), end)),
                }
            } else {
                Ok((track, next))
            },
        }
    } else {
        Err(fault(pos))
    }
}

/// A variable: `:` and a name.
pub open spec fn variable_at(s: Seq<char>, pos: int) -> Parsed {
    if has(s, pos, ':') {
        match identifier_at(s, pos + 1) {
            Ok((name, end)) => Ok((branch(Rule::Variable, seq![name]), end)),
            Err(f) => Err(f),
        }
    } else {
        Err(fault(pos))
    }
}

/// A pattern with what may stand behind it: an input, methods behind `&`,
/// and properties.
pub open spec fn pattern_expression_at(s: Seq<char>, pos: int) -> Parsed
    decreases s.len() - pos, 1nat,
{
    match pattern_at(s, pos) {
        Err(f) => Err(f),
        Ok((pattern, next)) => if !behind(s, pos, next) {
            Err(fault(next))
        } else {
            let at_input = past_blanks(s, next);
            let (input, after_input) = if behind(s, pos, at_input) {
                match expression_at(s, at_input) {
                    Ok((e, end)) => if behind(s, at_input, end) {
                        (branch(Rule::Input, seq![e]), end)
                    } else {
                        (leaf(Rule::Input), next)
                    },
                    Err(_) => (leaf(Rule::Input), next),
                }
            } else {
                (leaf(Rule::Input), next)
            };
            let amp = past_blanks(s, after_input);
            let (methods, after_methods) = if has(s, amp, '&') && behind(s, pos, amp + 1) {
                let calls = function_calls_at(s, amp + 1);
                if calls.0.len() > 0 {
                    calls
                } else {
                    (Seq::empty(), amp + 1)
                }
            } else {
                (Seq::empty(), after_input)
            };
            let brace = past_blanks(s, after_methods);
            let (properties, end) = if has(s, brace, '{') && behind(s, pos, brace) {
                match properties_at(s, brace) {
                    Ok(read) => (branch(Rule::PatternProperties, seq![read.0]), read.1),
                    Err(_) => (leaf(Rule::PatternProperties), after_methods),
                }
            } else {
                (leaf(Rule::PatternProperties), after_methods)
            };
            Ok(
                (
                    branch(
                        Rule::PatternExpression,
                        seq![pattern, input, branch(Rule::PatternMethod, methods), properties],
                    ),
                    end,
                ),
            )
        },
    }
}

/// The pattern expressions that are read from `pos` on, a comma before
/// each.
pub open spec fn more_patterns_at(s: Seq<char>, pos: int) -> (Seq<Node>, int)
    decreases s.len() - pos, 2nat,
{
    let comma = past_blanks(s, pos);
    let start = past_blanks(s, comma + 1);
    if has(s, comma, ',') && pos <= comma && behind(s, pos, start) {
        match pattern_expression_at(s, start) {
            Ok((pattern, next)) => if behind(s, start, next) {
                (seq![pattern] + more_patterns_at(s, next).0, more_patterns_at(s, next).1)
            } else {
                (Seq::empty(), pos)
            },
            Err(_) => (Seq::empty(), pos),
        }
    } else {
        (Seq::empty(), pos)
    }
}

/// A pattern expression, or a list of them with commas between.
pub open spec fn pattern_super_at(s: Seq<char>, pos: int) -> Parsed
    decreases s.len() - pos, 3nat,
{
    match pattern_expression_at(s, pos) {
        Err(f) => Err(f),
        Ok((first, next)) => if !behind(s, pos, next) {
            Err(fault(next))
        } else {
            let more = more_patterns_at(s, next);
            if more.0.len() > 0 {
                Ok((branch(Rule::PatternExpressionList, seq![first] + more.0), more.1))
            } else {
                Ok((branch(Rule::PatternSuperExpression, seq![first]), next))
            }
        },
    }
}

/// A function call: a name, or a name and parameters in round brackets.
pub open spec fn function_call_at(s: Seq<char>, pos: int) -> Parsed
    decreases s.len() - pos, 4nat,
{
    if has(s, pos, '(') {
        match identifier_at(s, past_blanks(s, pos + 1)) {
            Err(f) => Err(f),
            Ok((name, next)) => if !behind(s, pos, next) {
                Err(fault(next))
            } else {
                let parameters = expressions_at(s, next);
                if has(s, past_blanks(s, parameters.1), ')') {
                    Ok(
                        (
                            branch(Rule::FunctionCall, seq![name] + parameters.0),
                            past_blanks(s, parameters.1) + 1,
                        ),
                    )
                } else {
                    Err(fault(past_blanks(s, parameters.1)))
                }
            },
        }
    } else {
        match identifier_at(s, pos) {
            Ok((name, end)) => Ok((branch(Rule::FunctionCall, seq![name]), end)),
            Err(f) => Err(f),
        }
    }
}

/// The name of a property.
pub open spec fn key_of(entry: Node) -> Seq<char> {
    entry.inner[0].text
}

/// The index of the first of the first `n` entries with the name `key`, or
/// `n` if there is none.
pub open spec fn index_of(entries: Seq<Node>, key: Seq<char>, n: int) -> int
    decreases n,
{
    if n <= 0 {
        0
    } else if index_of(entries, key, n - 1) < n - 1 {
        index_of(entries, key, n - 1)
    } else if key_of(entries[n - 1]) == key {
        n - 1
    } else {
        n
    }
}

/// The entries with `entry` put in: in the place of the entry of its name
/// if there is one, else at the end.
pub open spec fn put(entries: Seq<Node>, entry: Node) -> Seq<Node> {
    let i = index_of(entries, key_of(entry), entries.len() as int);
    if i < entries.len() {
        entries.update(i, entry)
    } else {
        entries.push(entry)
    }
}

/// The first `n` entries put in one after the other: where a name is given
/// again, the later value takes the place of the earlier.
pub open spec fn unique(entries: Seq<Node>, n: int) -> Seq<Node>
    decreases n,
{
    if n <= 0 {
        Seq::empty()
    } else {
        put(unique(entries, n - 1), entries[n - 1])
    }
}

/// Properties: entries in braces, with commas between.
pub open spec fn properties_at(s: Seq<char>, pos: int) -> Parsed
    decreases s.len() - pos, 4nat,
{
    if has(s, pos, '{') && pos + 1 <= s.len() {
        let entries = entries_at(s, pos + 1);
        if entries.0.len() == 0 {
            Err(fault(past_blanks(s, pos + 1)))
        } else if has(s, past_blanks(s, entries.1), '}') {
            Ok(
                (
                    branch(Rule::Properties, unique(entries.0, entries.0.len() as int)),
                    past_blanks(s, entries.1) + 1,
                ),
            )
        } else {
            Err(fault(past_blanks(s, entries.1)))
        }
    } else {
        Err(fault(pos))
    }
}

/// A truth value: the word `true` or the word `false`.
pub open spec fn boolean_at(s: Seq<char>, pos: int) -> Parsed {
    if word_at(s, pos, word_true()) {
        Ok((number_leaf(Rule::Boolean, 1), pos + 4))
    } else if word_at(s, pos, word_false()) {
        Ok((number_leaf(Rule::Boolean, 0), pos + 5))
    } else {
        Err(fault(pos))
    }
}

/// Whether a number, a string, a variable, a track, a pattern slot or the
/// mixer can start with `c`.
pub open spec fn starts_simple(c: char) -> bool {
    is_digit(c) || c == '-' || c == '"' || c == ':' || c == '$'
}

/// A number, a string, a variable, a track, a pattern slot or the mixer.
pub open spec fn simple_at(s: Seq<char>, pos: int) -> Parsed {
    if !(0 <= pos < s.len()) {
        Err(fault(pos))
    } else if is_digit(s[pos]) || s[pos] == '-' {
        number_at(s, pos)
    } else if s[pos] == '"' {
        string_at(s, pos)
    } else if s[pos] == ':' {
        variable_at(s, pos)
    } else if s[pos] == '$' {
        mixer_at(s, pos)
    } else {
        Err(fault(pos))
    }
}

/// An array: items in square brackets, with commas between.
pub open spec fn array_at(s: Seq<char>, pos: int) -> Parsed
    decreases s.len() - pos, 4nat,
{
    if has(s, pos, '[') && pos + 1 <= s.len() {
        let items = items_at(s, pos + 1);
        if items.0.len() == 0 {
            Err(fault(past_blanks(s, pos + 1)))
        } else if has(s, past_blanks(s, items.1), ']') {
            Ok((branch(Rule::Array, items.0), past_blanks(s, items.1) + 1))
        } else {
            Err(fault(past_blanks(s, items.1)))
        }
    } else {
        Err(fault(pos))
    }
}

/// An expression that is not a chain of properties: a truth value, a
/// number, a string, a variable, a track, a pattern slot, the mixer,
/// properties, an array, a function call or patterns.
pub open spec fn primary_at(s: Seq<char>, pos: int) -> Parsed
    decreases s.len() - pos, 5nat,
{
    if !(0 <= pos < s.len()) {
        Err(fault(pos))
    } else if boolean_at(s, pos).is_ok() {
        boolean_at(s, pos)
    } else if starts_simple(s[pos]) {
        simple_at(s, pos)
    } else if s[pos] == '{' {
        properties_at(s, pos)
    } else if s[pos] == '[' {
        array_at(s, pos)
    } else if s[pos] == '(' || is_name_start(s[pos]) {
        function_call_at(s, pos)
    } else if s[pos] == '|' {
        pattern_super_at(s, pos)
    } else {
        Err(fault(pos))
    }
}

/// An expression: a primary expression, and the names of the properties
/// that are read from it, if any.
pub open spec fn expression_at(s: Seq<char>, pos: int) -> Parsed
    decreases s.len() - pos, 6nat,
{
    match primary_at(s, pos) {
        Err(f) => Err(f),
        Ok((primary, next)) => {
            let getters = getters_at(s, next);
            if takes_getters(primary.rule) && getters.0.len() > 0 {
                Ok((branch(Rule::PropertyGetter, seq![primary] + getters.0), getters.1))
            } else {
                Ok((primary, next))
            }
        },
    }
}

/// The expressions that are read from `pos` on, blanks before each.
pub open spec fn expressions_at(s: Seq<char>, pos: int) -> (Seq<Node>, int)
    decreases s.len() - pos, 7nat,
{
    let start = past_blanks(s, pos);
    if pos <= start <= s.len() {
        match expression_at(s, start) {
            Ok((e, next)) => if behind(s, start, next) {
                (seq![e] + expressions_at(s, next).0, expressions_at(s, next).1)
            } else {
                (Seq::empty(), pos)
            },
            Err(_) => (Seq::empty(), pos),
        }
    } else {
        (Seq::empty(), pos)
    }
}

/// The function calls that are read from `pos` on, blanks before each.
pub open spec fn function_calls_at(s: Seq<char>, pos: int) -> (Seq<Node>, int)
    decreases s.len() - pos, 7nat,
{
    let start = past_blanks(s, pos);
    if pos <= start <= s.len() {
        match function_call_at(s, start) {
            Ok((call, next)) => if behind(s, start, next) {
                (seq![call] + function_calls_at(s, next).0, function_calls_at(s, next).1)
            } else {
                (Seq::empty(), pos)
            },
            Err(_) => (Seq::empty(), pos),
        }
    } else {
        (Seq::empty(), pos)
    }
}

/// An expression, or an expression and the function calls that are applied
/// to it.
pub open spec fn super_expression_at(s: Seq<char>, pos: int) -> Parsed
    decreases s.len() - pos, 8nat,
{
    match expression_at(s, pos) {
        Err(f) => Err(f),
        Ok((e, next)) => if !behind(s, pos, next) {
            Err(fault(next))
        } else {
            let calls = function_calls_at(s, next);
            if calls.0.len() > 0 {
                Ok(
                    (
                        branch(
                            Rule::SuperExpression,
                            seq![branch(Rule::MethodCall, seq![e] + calls.0)],
                        ),
                        calls.1,
                    ),
                )
            } else {
                Ok((branch(Rule::SuperExpression, seq![e]), next))
            }
        },
    }
}

/// The items of an array from `pos` on, with commas between them.
pub open spec fn items_at(s: Seq<char>, pos: int) -> (Seq<Node>, int)
    decreases s.len() - pos, 9nat,
{
    let start = past_blanks(s, pos);
    if pos <= start <= s.len() {
        match super_expression_at(s, start) {
            Ok((item, next)) => if behind(s, start, next) {
                let comma = past_blanks(s, next);
                let more = if has(s, comma, ',') && behind(s, pos, comma + 1) {
                    items_at(s, comma + 1)
                } else {
                    (Seq::empty(), next)
                };
                if more.0.len() > 0 {
                    (seq![item] + more.0, more.1)
                } else {
                    (seq![item], next)
                }
            } else {
                (Seq::empty(), pos)
            },
            Err(_) => (Seq::empty(), pos),
        }
    } else {
        (Seq::empty(), pos)
    }
}

/// The value of a property: a pattern expression or another expression.
pub open spec fn property_value_at(s: Seq<char>, pos: int) -> Parsed
    decreases s.len() - pos, 9nat,
{
    if has(s, pos, '|') {
        match pattern_expression_at(s, pos) {
            Ok((value, end)) => Ok((branch(Rule::PropertyValue, seq![value]), end)),
            Err(f) => Err(f),
        }
    } else {
        match super_expression_at(s, pos) {
            Ok((value, end)) => Ok((branch(Rule::PropertyValue, seq![value]), end)),
            Err(f) => Err(f),
        }
    }
}

/// The entries of properties from `pos` on, with commas between them: a
/// name, a colon and a value each.
pub open spec fn entries_at(s: Seq<char>, pos: int) -> (Seq<Node>, int)
    decreases s.len() - pos, 10nat,
{
    match identifier_at(s, past_blanks(s, pos)) {
        Err(_) => (Seq::empty(), pos),
        Ok((key, after_key)) => {
            let colon = past_blanks(s, after_key);
            let start = past_blanks(s, colon + 1);
            if has(s, colon, ':') && behind(s, pos, start) {
                match property_value_at(s, start) {
                    Err(_) => (Seq::empty(), pos),
                    Ok((value, next)) => if behind(s, start, next) {
                        let comma = past_blanks(s, next);
                        let more = if has(s, comma, ',') && behind(s, pos, comma + 1) {
                            entries_at(s, comma + 1)
                        } else {
                            (Seq::empty(), next)
                        };
                        if more.0.len() > 0 {
                            (seq![branch(Rule::Property, seq![key, value])] + more.0, more.1)
                        } else {
                            (seq![branch(Rule::Property, seq![key, value])], next)
                        }
                    } else {
                        (Seq::empty(), pos)
                    },
                }
            } else {
                (Seq::empty(), pos)
            }
        },
    }
}

/// Whether the tree is that of a plain expression of the rule `rule`.
pub open spec fn is_plain(head: Node, rule: Rule) -> bool {
    head.inner.len() == 1 && head.inner[0].rule == rule
}

/// The assignment of a value to the variable `head`, the `=` at `pos`.
pub open spec fn variable_assignment_at(s: Seq<char>, head: Node, pos: int) -> Parsed {
    match super_expression_at(s, past_blanks(s, pos + 1)) {
        Ok((value, end)) => Ok(
            (
                branch(
                    Rule::Statement,
                    seq![branch(Rule::VariableAssignment, seq![head.inner[0].inner[0], value])],
                ),
                end,
            ),
        ),
        Err(f) => Err(f),
    }
}

/// The assignment of the patterns at `pos` to `head`.
pub open spec fn pattern_assignment_at(s: Seq<char>, head: Node, pos: int) -> Parsed {
    match pattern_super_at(s, pos) {
        Ok((value, end)) => Ok(
            (
                branch(
                    Rule::Statement,
                    seq![branch(Rule::PatternAssignment, seq![head.inner[0], value])],
                ),
                end,
            ),
        ),
        Err(f) => Err(f),
    }
}

/// The assignment of the properties at `pos` to `head`.
pub open spec fn properties_assignment_at(s: Seq<char>, head: Node, pos: int) -> Parsed {
    match properties_at(s, pos) {
        Ok((value, end)) => Ok(
            (
                branch(
                    Rule::Statement,
                    seq![branch(Rule::PropertiesAssignment, seq![head, value])],
                ),
                end,
            ),
        ),
        Err(f) => Err(f),
    }
}

/// What `head` becomes with what stands behind it: an assignment if `=`
/// and a value, a pattern or properties stand there, else the statement
/// that `head` alone makes. A value is assigned to a variable only, and a
/// pattern to a variable or a pattern slot.
pub open spec fn statement_after(s: Seq<char>, head: Node, next: int) -> Parsed {
    let pos = past_blanks(s, next);
    if has(s, pos, '=') && is_plain(head, Rule::Variable) {
        variable_assignment_at(s, head, pos)
    } else if has(s, pos, '|') && (is_plain(head, Rule::Variable) || is_plain(
        head,
        Rule::PatternSlot,
    )) {
        pattern_assignment_at(s, head, pos)
    } else if has(s, pos, '{') {
        properties_assignment_at(s, head, pos)
    } else {
        Ok((branch(Rule::Statement, seq![head]), next))
    }
}

/// A statement: an expression, or an assignment.
pub open spec fn statement_at(s: Seq<char>, pos: int) -> Parsed {
    match super_expression_at(s, pos) {
        Err(f) => Err(f),
        Ok((head, next)) => statement_after(s, head, next),
    }
}

/// An assignment: a statement that assigns.
pub open spec fn assignment_at(s: Seq<char>, pos: int) -> Parsed {
    match statement_at(s, pos) {
        Err(f) => Err(f),
        Ok((statement, end)) => if statement.inner[0].rule == Rule::SuperExpression {
            Err(fault(past_blanks(s, end)))
        } else {
            Ok((statement.inner[0], end))
        },
    }
}

/// The statement of the next line that holds one, and the position behind
/// that line; nothing where only blanks and line ends are left.
pub open spec fn line_at(s: Seq<char>, pos: int) -> Result<Option<(Node, int)>, Fault> {
    let start = past_space(s, pos);
    if start >= s.len() || start < pos {
        Ok(None)
    } else {
        match statement_at(s, start) {
            Err(f) => Err(f),
            Ok((statement, next)) => {
                let end = past_blanks(s, next);
                if end >= s.len() {
                    Ok(Some((statement, s.len() as int)))
                } else if is_line_end(s[end]) {
                    Ok(Some((statement, end + 1)))
                } else {
                    Err(fault(end))
                }
            },
        }
    }
}

/// The statements from `pos` to the end of the text, one to a line. Empty
/// lines may stand between them.
pub open spec fn lines_at(s: Seq<char>, pos: int) -> Result<Seq<Node>, Fault>
    decreases s.len() - pos,
{
    match line_at(s, pos) {
        Err(f) => Err(f),
        Ok(None) => Ok(Seq::empty()),
        Ok(Some((statement, next))) => if behind(s, pos, next) {
            match lines_at(s, next) {
                Ok(more) => Ok(seq![statement] + more),
                Err(f) => Err(f),
            }
        } else {
            Ok(seq![statement])
        },
    }
}

/// A whole source: its statements.
pub open spec fn file_at(s: Seq<char>) -> Result<Node, Fault> {
    match lines_at(s, 0) {
        Ok(statements) => Ok(branch(Rule::File, statements)),
        Err(f) => Err(f),
    }
}


/// A method call: an expression followed by at least one function call.
pub open spec fn method_call_at(s: Seq<char>, pos: int) -> Parsed {
    match super_expression_at(s, pos) {
        Err(f) => Err(f),
        Ok((value, end)) => if value.inner[0].rule == Rule::MethodCall {
            Ok((value.inner[0], end))
        } else {
            Err(fault(past_blanks(s, end)))
        },
    }
}

} // verus!
