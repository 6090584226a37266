//! The grammar of a protocol line, as functions on its characters.
//!
//! ```text
//! line       := [count WS] identifier (WS identifier)*
//! count      := digit+
//! identifier := (alnum | "_")+
//! ```
//!
//! Whitespace is mandatory after a count. Whatever follows the last
//! identifier that can be read is ignored. A run of a class can only be
//! looked for where the pattern engine compiles the pattern of the class:
//! where it does not, the line fails at the first run that is looked for.

use vstd::prelude::*;
use crate::classes::{leading_run, lemma_leading_run_bound, CharClass};
use crate::decimal::count_of;
use crate::error::Failure;

verus! {

/// What a line says: the mathematical value of a `RawCommand`.
pub struct RawCommandView {
    /// The number in front of the command, if there is one.
    pub count: Option<u32>,
    /// The command's name.
    pub name: Seq<char>,
    /// The arguments, in the order of the line.
    pub args: Seq<Seq<char>>,
}

/// `text` without its leading run of `class`.
pub open spec fn skip_run(class: CharClass, text: Seq<char>) -> Seq<char> {
    text.skip(leading_run(class, text) as int)
}

/// The leading run of `class` in `text`.
pub open spec fn take_run(class: CharClass, text: Seq<char>) -> Seq<char> {
    text.take(leading_run(class, text) as int)
}

/// The identifiers at the start of `text`: each is a longest run of word
/// characters, followed by a run of whitespace that may be empty. The list
/// ends where no word character follows.
pub open spec fn identifiers(text: Seq<char>) -> Seq<Seq<char>>
    decreases text.len(),
    via identifiers_decreases
{
    if leading_run(CharClass::Word, text) == 0 {
        Seq::empty()
    } else {
        seq![take_run(CharClass::Word, text)] + identifiers(
            skip_run(CharClass::Space, skip_run(CharClass::Word, text)),
        )
    }
}

#[via_fn]
proof fn identifiers_decreases(text: Seq<char>) {
    lemma_leading_run_bound(CharClass::Word, text);
    lemma_leading_run_bound(CharClass::Space, skip_run(CharClass::Word, text));
}

/// The number of characters that the identifiers at the start of `text`
/// take up, together with the whitespace behind each of them.
pub open spec fn identifiers_span(text: Seq<char>) -> nat
    decreases text.len(),
    via identifiers_span_decreases
{
    if leading_run(CharClass::Word, text) == 0 {
        0
    } else {
        leading_run(CharClass::Word, text) + leading_run(
            CharClass::Space,
            skip_run(CharClass::Word, text),
        ) + identifiers_span(skip_run(CharClass::Space, skip_run(CharClass::Word, text)))
    }
}

#[via_fn]
proof fn identifiers_span_decreases(text: Seq<char>) {
    lemma_leading_run_bound(CharClass::Word, text);
    lemma_leading_run_bound(CharClass::Space, skip_run(CharClass::Word, text));
}

/// The count in front of a line and the text after the whitespace that
/// follows it; no count and the whole line where it does not start with a
/// digit.
pub open spec fn leading_count(line: Seq<char>) -> Result<(Option<u32>, Seq<char>), Failure> {
    let digits = take_run(CharClass::Digit, line);
    let after = skip_run(CharClass::Digit, line);
    if !CharClass::Digit.usable() {
        Err(Failure::Engine)
    } else if leading_run(CharClass::Digit, line) == 0 {
        Ok((None, line))
    } else if count_of(digits) is None {
        Err(Failure::BadCount)
    } else if !CharClass::Space.usable() {
        Err(Failure::Engine)
    } else if leading_run(CharClass::Space, after) == 0 {
        Err(Failure::NoWhitespace)
    } else {
        Ok((count_of(digits), skip_run(CharClass::Space, after)))
    }
}

/// The number of characters that are read for the count: the digits and the
/// whitespace behind them where the digits denote a count, none otherwise.
pub open spec fn count_span(line: Seq<char>) -> nat {
    let digits = leading_run(CharClass::Digit, line);
    if !CharClass::Digit.usable() || count_of(take_run(CharClass::Digit, line)) is None {
        0
    } else if !CharClass::Space.usable() {
        digits
    } else {
        digits + leading_run(CharClass::Space, skip_run(CharClass::Digit, line))
    }
}

/// The identifiers at the start of `text`, as far as the pattern engine lets
/// them be read: word characters are looked for first, whitespace only
/// behind an identifier.
pub open spec fn words(text: Seq<char>) -> Result<Seq<Seq<char>>, Failure> {
    if !CharClass::Word.usable() {
        Err(Failure::Engine)
    } else if leading_run(CharClass::Word, text) == 0 {
        Ok(Seq::empty())
    } else if !CharClass::Space.usable() {
        Err(Failure::Engine)
    } else {
        Ok(identifiers(text))
    }
}

/// The number of characters that are read for the identifiers: none, the
/// first identifier alone where whitespace cannot be looked for, or all of
/// them with the whitespace behind each.
pub open spec fn words_span(text: Seq<char>) -> nat {
    if !CharClass::Word.usable() {
        0
    } else if !CharClass::Space.usable() {
        leading_run(CharClass::Word, text)
    } else {
        identifiers_span(text)
    }
}

/// The number of characters of a line that lexing reads, whether it ends
/// well or not.
pub open spec fn lex_span(line: Seq<char>) -> nat {
    match leading_count(line) {
        Err(_) => count_span(line),
        Ok((_, rest)) => count_span(line) + words_span(rest),
    }
}

/// The count and the identifiers of a line.
pub open spec fn lex_line(line: Seq<char>) -> Result<(Option<u32>, Seq<Seq<char>>), Failure> {
    match leading_count(line) {
        Err(failure) => Err(failure),
        Ok((count, rest)) => match words(rest) {
            Err(failure) => Err(failure),
            Ok(found) => Ok((count, found)),
        },
    }
}

/// The command that the identifiers of a line make up: the first is the
/// name, the others are the arguments.
pub open spec fn assemble(count: Option<u32>, words: Seq<Seq<char>>) -> Result<
    RawCommandView,
    Failure,
> {
    if words.len() == 0 {
        Err(Failure::NoCommand)
    } else {
        Ok(RawCommandView { count, name: words[0], args: words.skip(1) })
    }
}

/// The meaning of a whole line.
pub open spec fn parse_line(line: Seq<char>) -> Result<RawCommandView, Failure> {
    match lex_line(line) {
        Err(failure) => Err(failure),
        Ok((count, found)) => assemble(count, found),
    }
}

} // verus!
