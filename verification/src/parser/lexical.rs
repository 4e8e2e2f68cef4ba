//! Reading names, numbers, strings and the other small parts.

use vstd::prelude::*;
use crate::ast;
use crate::parser::grammar::{
    decimal, digit_value, getters_at, identifier_at, is_digit, lemma_run, mixer_at, modulation_at,
    natural_at, number_at, past_blanks, past_exponent, past_fraction, run, string_at, variable_at,
    word_at, CharKind, Fault,
};
use crate::parser::{branch, failure, leaf, number_leaf, text_leaf, Failure, Node, Rule, Source};

verus! {

/// The trees of the names.
pub open spec fn name_trees(v: Seq<ast::Identifier>) -> Seq<Node> {
    Seq::new(v.len(), |i: int| v[i].node())
}

/// Digits that follow never make a number smaller.
pub proof fn lemma_decimal_grows(s: Seq<char>, from: int, mid: int, to: int)
    requires
        from <= mid <= to <= s.len(),
        0 <= from,
        forall|i: int| from <= i < to ==> is_digit(#[trigger] s[i]),
    ensures
        decimal(s, from, mid) <= decimal(s, from, to),
    decreases to - mid,
{
    if mid < to {
        lemma_decimal_grows(s, from, mid, to - 1);
        assert(is_digit(s[to - 1]));
        assert(decimal(s, from, to - 1) * 10 >= decimal(s, from, to - 1)) by (nonlinear_arith)
            requires
                decimal(s, from, to - 1) >= 0,
        ;
    }
}

/// A whole number at `pos`.
pub fn parse_natural(src: &Source, pos: usize, rule: Rule) -> (r: Result<(u64, usize), Failure>)
    requires
        pos <= src@.len(),
    ensures
        match r {
            Ok((n, end)) => natural_at(src@, pos as int, rule) == Ok::<_, Fault>(
                (number_leaf(rule, n as int), end as int),
            ) && pos < end <= src@.len(),
            Err(f) => natural_at(src@, pos as int, rule) == Err::<(Node, int), _>(f@),
        },
{
    let end = src.skip(pos, CharKind::Digit);
    if end == pos {
        return Err(failure(pos));
    }
    proof {
        lemma_run(src@, pos as int, CharKind::Digit);
    }
    let mut value: u64 = 0;
    let mut i = pos;
    while i < end
        invariant
            pos <= i <= end <= src@.len(),
            pos < end,
            end == pos + run(src@, pos as int, CharKind::Digit),
            forall|k: int| pos <= k < end ==> is_digit(#[trigger] src@[k]),
            value == decimal(src@, pos as int, i as int),
        decreases end - i,
    {
        let digit = (src.at(i) as u32 - 48) as u64;
        proof {
            assert(is_digit(src@[i as int]));
            lemma_decimal_grows(src@, pos as int, i + 1, end as int);
        }
        if value > (u64::MAX - digit) / 10 {
            proof {
                assert(digit == digit_value(src@[i as int]));
                assert(decimal(src@, pos as int, i + 1) == value * 10 + digit);
                assert(value * 10 + digit > u64::MAX);
            }
            return Err(Failure { at: pos, numeric: true });
        }
        value = value * 10 + digit;
        i += 1;
    }
    Ok((value, end))
}

/// A name at `pos`.
pub fn parse_identifier(src: &Source, pos: usize) -> (r: Result<(ast::Identifier, usize), Failure>)
    requires
        pos <= src@.len(),
    ensures
        match r {
            Ok((name, end)) => identifier_at(src@, pos as int) == Ok::<_, Fault>(
                (name.node(), end as int),
            ) && pos < end <= src@.len(),
            Err(f) => identifier_at(src@, pos as int) == Err::<(Node, int), _>(f@),
        },
{
    if pos < src.len() && is_name_start(src.at(pos)) {
        let end = src.skip(pos, CharKind::NamePart);
        proof {
            reveal_with_fuel(run, 2);
        }
        Ok((ast::Identifier(src.slice(pos, end)), end))
    } else {
        Err(failure(pos))
    }
}

/// Whether a name can start with `c`.
pub fn is_name_start(c: char) -> (b: bool)
    ensures
        b == crate::parser::grammar::is_name_start(c),
{
    let code = c as u32;
    (97 <= code && code <= 122) || (65 <= code && code <= 90) || c == '_'
}

/// The position behind a number's fraction at `pos`, if there is one.
fn skip_fraction(src: &Source, pos: usize) -> (end: usize)
    requires
        pos <= src@.len(),
    ensures
        end == past_fraction(src@, pos as int),
        pos <= end <= src@.len(),
{
    if src.has(pos, '.') {
        let end = src.skip(pos + 1, CharKind::Digit);
        if end > pos + 1 {
            return end;
        }
    }
    pos
}

/// The position behind a number's exponent at `pos`, if there is one.
fn skip_exponent(src: &Source, pos: usize) -> (end: usize)
    requires
        pos <= src@.len(),
    ensures
        end == past_exponent(src@, pos as int),
        pos <= end <= src@.len(),
{
    if src.has(pos, 'e') || src.has(pos, 'E') {
        let digits = if src.has(pos + 1, '+') || src.has(pos + 1, '-') {
            pos + 2
        } else {
            pos + 1
        };
        let end = src.skip(digits, CharKind::Digit);
        if end > digits {
            return end;
        }
    }
    pos
}

/// A number at `pos`, as it is written.
pub fn parse_number(src: &Source, pos: usize) -> (r: Result<(String, usize), Failure>)
    requires
        pos <= src@.len(),
    ensures
        match r {
            Ok((text, end)) => number_at(src@, pos as int) == Ok::<_, Fault>(
                (text_leaf(Rule::Number, text@), end as int),
            ) && pos < end <= src@.len(),
            Err(f) => number_at(src@, pos as int) == Err::<(Node, int), _>(f@),
        },
{
    let digits = if src.has(pos, '-') {
        pos + 1
    } else {
        pos
    };
    let whole = src.skip(digits, CharKind::Digit);
    if whole == digits {
        return Err(failure(digits));
    }
    let end = skip_exponent(src, skip_fraction(src, whole));
    Ok((src.slice(pos, end), end))
}

/// A string at `pos`: what stands between the double quotes.
pub fn parse_string(src: &Source, pos: usize) -> (r: Result<(String, usize), Failure>)
    requires
        pos <= src@.len(),
    ensures
        match r {
            Ok((text, end)) => string_at(src@, pos as int) == Ok::<_, Fault>(
                (text_leaf(Rule::String, text@), end as int),
            ) && pos < end <= src@.len(),
            Err(f) => string_at(src@, pos as int) == Err::<(Node, int), _>(f@),
        },
{
    if !src.has(pos, '"') {
        return Err(failure(pos));
    }
    let end = src.skip(pos + 1, CharKind::NotQuote);
    if src.has(end, '"') {
        Ok((src.slice(pos + 1, end), end + 1))
    } else {
        Err(failure(end))
    }
}

/// Whether the word `true` stands at `pos`.
fn has_true(src: &Source, pos: usize) -> (r: bool)
    requires
        pos <= src@.len(),
    ensures
        r == word_at(src@, pos as int, crate::parser::grammar::word_true()),
{
    let len = src.len();
    if len - pos >= 4 && src.at(pos) == 't' && src.at(pos + 1) == 'r' && src.at(pos + 2) == 'u'
        && src.at(pos + 3) == 'e' && !(pos + 4 < len && crate::parser::is_of_kind(
        src.at(pos + 4),
        CharKind::NamePart,
    )) {
        proof {
            assert(src@.subrange(pos as int, pos + 4) =~= crate::parser::grammar::word_true());
        }
        true
    } else {
        proof {
            if word_at(src@, pos as int, crate::parser::grammar::word_true()) {
                let w = src@.subrange(pos as int, pos + 4);
                assert(w[0] == 't' && w[1] == 'r' && w[2] == 'u' && w[3] == 'e');
            }
        }
        false
    }
}

/// Whether the word `false` stands at `pos`.
fn has_false(src: &Source, pos: usize) -> (r: bool)
    requires
        pos <= src@.len(),
    ensures
        r == word_at(src@, pos as int, crate::parser::grammar::word_false()),
{
    let len = src.len();
    if len - pos >= 5 && src.at(pos) == 'f' && src.at(pos + 1) == 'a' && src.at(pos + 2) == 'l'
        && src.at(pos + 3) == 's' && src.at(pos + 4) == 'e' && !(pos + 5 < len
        && crate::parser::is_of_kind(src.at(pos + 5), CharKind::NamePart)) {
        proof {
            assert(src@.subrange(pos as int, pos + 5) =~= crate::parser::grammar::word_false());
        }
        true
    } else {
        proof {
            if word_at(src@, pos as int, crate::parser::grammar::word_false()) {
                let w = src@.subrange(pos as int, pos + 5);
                assert(w[0] == 'f' && w[1] == 'a' && w[2] == 'l' && w[3] == 's' && w[4] == 'e');
            }
        }
        false
    }
}

/// A truth value at `pos`.
pub fn parse_boolean(src: &Source, pos: usize) -> (r: Result<(ast::Expression, usize), Failure>)
    requires
        pos <= src@.len(),
    ensures
        match r {
            Ok((e, end)) => crate::parser::grammar::boolean_at(src@, pos as int) == Ok::<_, Fault>(
                (e.node(), end as int),
            ) && pos < end <= src@.len() && e is Boolean,
            Err(f) => crate::parser::grammar::boolean_at(src@, pos as int) == Err::<(Node, int), _>(
                f@,
            ),
        },
{
    let len = src.len();
    if has_true(src, pos) {
        Ok((ast::Expression::Boolean(true), pos + 4))
    } else if has_false(src, pos) {
        Ok((ast::Expression::Boolean(false), pos + 5))
    } else {
        Err(failure(pos))
    }
}

/// The names at `pos`, a point before each.
pub fn parse_getters(src: &Source, pos: usize) -> (r: (Vec<ast::Identifier>, usize))
    requires
        pos <= src@.len(),
    ensures
        getters_at(src@, pos as int) == (name_trees(r.0@), r.1 as int),
        pos <= r.1 <= src@.len(),
{
    let mut names: Vec<ast::Identifier> = Vec::new();
    let mut at = pos;
    let mut done = false;
    proof {
        assert(name_trees(names@) + getters_at(src@, pos as int).0 =~= getters_at(
            src@,
            pos as int,
        ).0);
    }
    while !done
        invariant
            pos <= at <= src@.len(),
            getters_at(src@, pos as int).0 == name_trees(names@) + (if done {
                Seq::<Node>::empty()
            } else {
                getters_at(src@, at as int).0
            }),
            getters_at(src@, pos as int).1 == (if done {
                at as int
            } else {
                getters_at(src@, at as int).1
            }),
        decreases src@.len() - at + (if done { 0int } else { 1int }),
    {
        if src.has(at, '.') {
            match parse_identifier(src, at + 1) {
                Ok((name, next)) => {
                    proof {
                        assert(name_trees(names@.push(name)) =~= name_trees(names@).push(
                            name.node(),
                        ));
                        assert(name_trees(names@) + (seq![name.node()] + getters_at(
                            src@,
                            next as int,
                        ).0) =~= name_trees(names@).push(name.node()) + getters_at(
                            src@,
                            next as int,
                        ).0);
                    }
                    names.push(name);
                    at = next;
                },
                Err(_) => {
                    done = true;
                },
            }
        } else {
            done = true;
        }
    }
    proof {
        assert(name_trees(names@) + Seq::<Node>::empty() =~= name_trees(names@));
    }
    (names, at)
}

/// A track, a pattern slot or the mixer at `pos`.
pub fn parse_mixer(src: &Source, pos: usize) -> (r: Result<(ast::Expression, usize), Failure>)
    requires
        pos <= src@.len(),
    ensures
        match r {
            Ok((e, end)) => mixer_at(src@, pos as int) == Ok::<_, Fault>((e.node(), end as int))
                && pos < end <= src@.len() && (e is Mixer || e is Track || e is PatternSlot),
            Err(f) => mixer_at(src@, pos as int) == Err::<(Node, int), _>(f@),
        },
{
    if !src.has(pos, '$') {
        return Err(failure(pos));
    }
    match parse_natural(src, pos + 1, Rule::Track) {
        Err(f) => if f.numeric {
            Err(f)
        } else {
            Ok((ast::Expression::Mixer, pos + 1))
        },
        Ok((track, next)) => {
            if src.has(next, '@') {
                match parse_natural(src, next + 1, Rule::Slot) {
                    Err(f) => if f.numeric {
                        Err(f)
                    } else {
                        Ok((ast::Expression::Track(track), next))
                    },
                    Ok((slot, end)) => {
                        let e = ast::Expression::PatternSlot(track, slot);
                        proof {
                            assert(e.node().inner =~= seq![
                                number_leaf(Rule::Track, track as int),
                                number_leaf(Rule::Slot, slot as int),
                            ]);
                        }
                        Ok((e, end))
                    },
                }
            } else {
                Ok((ast::Expression::Track(track), next))
            }
        },
    }
}

/// A variable at `pos`.
pub fn parse_variable(src: &Source, pos: usize) -> (r: Result<(ast::Expression, usize), Failure>)
    requires
        pos <= src@.len(),
    ensures
        match r {
            Ok((e, end)) => variable_at(src@, pos as int) == Ok::<_, Fault>((e.node(), end as int))
                && pos < end <= src@.len() && e is Variable,
            Err(f) => variable_at(src@, pos as int) == Err::<(Node, int), _>(f@),
        },
{
    if !src.has(pos, ':') {
        return Err(failure(pos));
    }
    match parse_identifier(src, pos + 1) {
        Ok((name, end)) => {
            let e = ast::Expression::Variable(name);
            proof {
                assert(e.node().inner =~= seq![name.node()]);
            }
            Ok((e, end))
        },
        Err(f) => Err(f),
    }
}

/// A modulation at `pos`.
pub fn parse_modulation(src: &Source, pos: usize) -> (r: Result<(ast::Modulation, usize), Failure>)
    requires
        pos <= src@.len(),
    ensures
        match r {
            Ok((m, end)) => modulation_at(src@, pos as int) == Ok::<_, Fault>(
                (m.node(), end as int),
            ) && pos < end <= src@.len(),
            Err(f) => modulation_at(src@, pos as int) == Err::<(Node, int), _>(f@),
        },
{
    if src.has(pos, 'F') {
        Ok((ast::Modulation::Up, pos + 1))
    } else if src.has(pos, 'p') {
        Ok((ast::Modulation::Down, pos + 1))
    } else if src.has(pos, '<') {
        Ok((ast::Modulation::Crescendo, pos + 1))
    } else if src.has(pos, '>') {
        Ok((ast::Modulation::Diminuendo, pos + 1))
    } else if src.has(pos, '{') {
        let start = src.skip(pos + 1, CharKind::Blank);
        match parse_number(src, start) {
            Ok((text, end)) => {
                let close = src.skip(end, CharKind::Blank);
                if src.has(close, '}') {
                    Ok((ast::Modulation::Literal(text), close + 1))
                } else {
                    Err(failure(close))
                }
            },
            Err(f) => Err(f),
        }
    } else {
        Err(failure(pos))
    }
}

} // verus!
