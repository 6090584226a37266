//! What holds of the grammar: which lines parse into which commands, and that
//! writing a parsed command out and parsing it again changes nothing.

use vstd::prelude::*;
use crate::classes::{
    all_in, all_usable, is_ascii_text, leading_run, lemma_leading_run_is_maximal,
    lemma_run_then_stop, CharClass,
};
use crate::decimal::{count_of, decimal_digits, lemma_decimal_digits};
use crate::error::Failure;
use crate::grammar::{
    identifiers, leading_count, parse_line, skip_run, take_run, RawCommandView,
};

verus! {

/// Whether `text` is an identifier: word characters, at least one.
pub open spec fn is_word(text: Seq<char>) -> bool {
    text.len() > 0 && all_in(CharClass::Word, text)
}

/// Whether `words` can be told apart again once whitespace stands between
/// them: each is an identifier, and none but the first starts with a
/// character that is whitespace too.
pub open spec fn separable(words: Seq<Seq<char>>) -> bool {
    &&& forall|i: int| 0 <= i < words.len() ==> is_word(#[trigger] words[i])
    &&& forall|i: int| 1 <= i < words.len() ==> !CharClass::Space.holds((#[trigger] words[i])[0])
}

/// Whether `gap` separates two identifiers: whitespace, at least one
/// character, and not starting with a character that is a word character too.
pub open spec fn is_separator(gap: Seq<char>) -> bool {
    &&& gap.len() > 0
    &&& all_in(CharClass::Space, gap)
    &&& !CharClass::Word.holds(gap[0])
}

/// The text made of `words` with one of `gaps` between each two neighbours.
pub open spec fn interleave(words: Seq<Seq<char>>, gaps: Seq<Seq<char>>) -> Seq<char>
    decreases words.len(),
{
    if words.len() == 0 {
        Seq::empty()
    } else if words.len() == 1 {
        words[0]
    } else {
        words[0] + gaps[0] + interleave(words.drop_first(), gaps.drop_first())
    }
}

/// `count` single spaces.
pub open spec fn spaces(count: nat) -> Seq<Seq<char>> {
    Seq::new(count, |i: int| seq![' '])
}

/// `words` with a single space between each two.
pub open spec fn join(words: Seq<Seq<char>>) -> Seq<char> {
    interleave(words, spaces(words.len()))
}

/// A command written out as a line: the count in decimal and a space, where
/// there is a count, then the name, a space, and the arguments with a space
/// between each two.
pub open spec fn line_of(command: RawCommandView) -> Seq<char> {
    let body = command.name + seq![' '] + join(command.args);
    match command.count {
        Some(n) => decimal_digits(n as nat) + seq![' '] + body,
        None => body,
    }
}

/// Words with gaps between them start with the first word.
pub proof fn lemma_interleave_starts(words: Seq<Seq<char>>, gaps: Seq<Seq<char>>)
    requires
        words.len() > 0,
        words[0].len() > 0,
    ensures
        interleave(words, gaps).len() > 0,
        interleave(words, gaps)[0] == words[0][0],
{
}

/// The identifiers read from a text are separable, and the first of them
/// starts where the text starts.
pub proof fn lemma_identifiers_separable(text: Seq<char>)
    ensures
        separable(identifiers(text)),
        identifiers(text).len() > 0 ==> text.len() > 0 && identifiers(text)[0][0] == text[0],
    decreases text.len(),
{
    let words = identifiers(text);
    lemma_leading_run_is_maximal(CharClass::Word, text);
    if leading_run(CharClass::Word, text) > 0 {
        let after = skip_run(CharClass::Word, text);
        let next = skip_run(CharClass::Space, after);
        let others = identifiers(next);
        lemma_leading_run_is_maximal(CharClass::Space, after);
        lemma_identifiers_separable(next);
        assert(words == seq![take_run(CharClass::Word, text)] + others);
        assert forall|i: int| 0 <= i < words.len() implies is_word(#[trigger] words[i]) by {
            if i > 0 {
                assert(words[i] == others[i - 1]);
            }
        }
        assert forall|i: int| 1 <= i < words.len() implies !CharClass::Space.holds(
            (#[trigger] words[i])[0],
        ) by {
            assert(words[i] == others[i - 1]);
        }
    }
}

/// Separable words with separators between them are read back as they are.
pub proof fn lemma_identifiers_of_interleave(words: Seq<Seq<char>>, gaps: Seq<Seq<char>>)
    requires
        words.len() > 0,
        gaps.len() + 1 >= words.len(),
        separable(words),
        forall|i: int| 0 <= i < gaps.len() ==> is_separator(#[trigger] gaps[i]),
    ensures
        identifiers(interleave(words, gaps)) == words,
    decreases words.len(),
{
    let text = interleave(words, gaps);
    let first = words[0];
    assert(is_word(first));
    if words.len() == 1 {
        let nothing = Seq::<char>::empty();
        assert(text =~= first + nothing);
        lemma_run_then_stop(CharClass::Word, first, nothing);
        assert(skip_run(CharClass::Space, nothing) =~= nothing);
        assert(identifiers(nothing) =~= Seq::<Seq<char>>::empty());
        assert(identifiers(text) =~= words);
    } else {
        let gap = gaps[0];
        let later_words = words.drop_first();
        let later_gaps = gaps.drop_first();
        let later = interleave(later_words, later_gaps);
        assert(is_separator(gap));
        assert(later_words[0] == words[1]);
        assert(is_word(words[1]));
        assert(separable(later_words)) by {
            assert forall|i: int| 0 <= i < later_words.len() implies is_word(
                #[trigger] later_words[i],
            ) by {
                assert(later_words[i] == words[i + 1]);
            }
            assert forall|i: int| 1 <= i < later_words.len() implies !CharClass::Space.holds(
                (#[trigger] later_words[i])[0],
            ) by {
                assert(later_words[i] == words[i + 1]);
            }
        }
        assert forall|i: int| 0 <= i < later_gaps.len() implies is_separator(
            #[trigger] later_gaps[i],
        ) by {
            assert(later_gaps[i] == gaps[i + 1]);
        }
        lemma_interleave_starts(later_words, later_gaps);
        lemma_identifiers_of_interleave(later_words, later_gaps);
        assert(text =~= first + (gap + later));
        assert((gap + later)[0] == gap[0]);
        lemma_run_then_stop(CharClass::Word, first, gap + later);
        lemma_run_then_stop(CharClass::Space, gap, later);
        assert(identifiers(text) =~= words);
    }
}

/// A line of identifiers with whitespace between them, whose first
/// character is no digit, is the command without a count whose name is the
/// first identifier and whose arguments are the others.
///
/// An identifier here starts with a character that is not whitespace as
/// well, and a run of whitespace with one that is not a word character as
/// well. The pattern engine must compile the three patterns, or nothing is
/// parsed at all.
pub proof fn lemma_separated_words_parse(words: Seq<Seq<char>>, gaps: Seq<Seq<char>>)
    requires
        all_usable(),
        words.len() > 0,
        gaps.len() == words.len() - 1,
        separable(words),
        forall|i: int| 0 <= i < gaps.len() ==> is_separator(#[trigger] gaps[i]),
        !CharClass::Digit.holds(words[0][0]),
    ensures
        parse_line(interleave(words, gaps)) == Ok::<RawCommandView, Failure>(
            RawCommandView { count: None, name: words[0], args: words.skip(1) },
        ),
{
    let line = interleave(words, gaps);
    assert(is_word(words[0]));
    lemma_interleave_starts(words, gaps);
    lemma_identifiers_of_interleave(words, gaps);
    assert(leading_run(CharClass::Digit, line) == 0);
    assert(take_run(CharClass::Digit, line) =~= Seq::<char>::empty());
}

/// A line of ASCII identifiers with ASCII whitespace between them, whose
/// first character is no digit, is the command without a count whose name is
/// the first identifier and whose arguments are the others.
pub proof fn lemma_ascii_words_parse(words: Seq<Seq<char>>, gaps: Seq<Seq<char>>)
    requires
        all_usable(),
        words.len() > 0,
        gaps.len() == words.len() - 1,
        forall|i: int|
            0 <= i < words.len() ==> is_word(#[trigger] words[i]) && is_ascii_text(words[i]),
        forall|i: int|
            0 <= i < gaps.len() ==> {
                &&& (#[trigger] gaps[i]).len() > 0
                &&& all_in(CharClass::Space, gaps[i])
                &&& is_ascii_text(gaps[i])
            },
        !CharClass::Digit.holds(words[0][0]),
    ensures
        parse_line(interleave(words, gaps)) == Ok::<RawCommandView, Failure>(
            RawCommandView { count: None, name: words[0], args: words.skip(1) },
        ),
{
    assert forall|i: int| 1 <= i < words.len() implies !CharClass::Space.holds(
        (#[trigger] words[i])[0],
    ) by {
        assert(is_word(words[i]));
        assert(CharClass::Word.holds(words[i][0]));
    }
    assert forall|i: int| 0 <= i < gaps.len() implies is_separator(#[trigger] gaps[i]) by {
        assert(CharClass::Space.holds(gaps[i][0]));
    }
    lemma_separated_words_parse(words, gaps);
}

/// The name of a parsed command and each of its arguments is an identifier.
pub proof fn lemma_parsed_words(line: Seq<char>)
    ensures
        parse_line(line) matches Ok(command) ==> is_word(command.name) && forall|i: int|
            0 <= i < command.args.len() ==> is_word(#[trigger] command.args[i]),
{
    if let Ok((count, rest)) = leading_count(line) {
        let words = identifiers(rest);
        lemma_identifiers_separable(rest);
        if words.len() > 0 {
            let args = words.skip(1);
            assert(is_word(words[0]));
            assert forall|i: int| 0 <= i < args.len() implies is_word(#[trigger] args[i]) by {
                assert(args[i] == words[i + 1]);
            }
        }
    }
}

/// Whether a command can be written out as a line and read back: its name
/// and arguments are separable, and the name does not start with a digit
/// that would be read as a count or, behind a count, with whitespace.
pub open spec fn writable(command: RawCommandView) -> bool {
    &&& separable(seq![command.name] + command.args)
    &&& match command.count {
        None => !CharClass::Digit.holds(command.name[0]),
        Some(_) => !CharClass::Space.holds(command.name[0]),
    }
}

/// A parsed command is writable.
pub proof fn lemma_parsed_is_writable(line: Seq<char>)
    ensures
        parse_line(line) matches Ok(command) ==> all_usable() && writable(command),
{
    if let Ok(command) = parse_line(line) {
        let (count, rest) = leading_count(line)->Ok_0;
        let words = identifiers(rest);
        lemma_identifiers_separable(rest);
        lemma_leading_run_is_maximal(CharClass::Digit, line);
        lemma_leading_run_is_maximal(CharClass::Space, skip_run(CharClass::Digit, line));
        assert(words =~= seq![command.name] + command.args);
        assert(is_word(words[0]));
        assert(rest.len() > 0 && command.name[0] == rest[0]);
    }
}

/// A writable command written out as a line parses to itself, where the
/// pattern engine compiles the three patterns.
pub proof fn lemma_written_command_parses(command: RawCommandView)
    requires
        all_usable(),
        writable(command),
    ensures
        parse_line(line_of(command)) == Ok::<RawCommandView, Failure>(command),
{
    let name = command.name;
    let args = command.args;
    let words = seq![name] + args;
    let space = seq![' '];
    let nothing = Seq::<char>::empty();
    let body = name + space + join(args);
    assert(words[0] == name);
    assert(is_word(name));
    assert(words.skip(1) =~= args);
    assert(all_in(CharClass::Space, space));

    // The body of the line is read back as the same words.
    assert(identifiers(body) == words) by {
        if args.len() == 0 {
            assert(join(args) =~= nothing);
            assert(body =~= name + (space + nothing));
            lemma_run_then_stop(CharClass::Word, name, space + nothing);
            lemma_run_then_stop(CharClass::Space, space, nothing);
            assert(identifiers(nothing) =~= Seq::<Seq<char>>::empty());
            assert(identifiers(body) =~= words);
        } else {
            let gaps = spaces(words.len());
            assert(gaps[0] == space);
            assert(gaps.drop_first() =~= spaces(args.len()));
            assert(words.drop_first() =~= args);
            assert(interleave(words, gaps) =~= body);
            assert forall|i: int| 0 <= i < gaps.len() implies is_separator(
                #[trigger] gaps[i],
            ) by {
                assert(gaps[i] =~= space);
            }
            lemma_identifiers_of_interleave(words, gaps);
        }
    }
    assert(body.len() > 0 && body[0] == name[0]);

    match command.count {
        None => {
            assert(leading_run(CharClass::Digit, body) == 0);
            assert(take_run(CharClass::Digit, body) =~= nothing);
        },
        Some(n) => {
            let digits = decimal_digits(n as nat);
            lemma_decimal_digits(n as nat);
            assert(all_in(CharClass::Digit, digits));
            assert(line_of(command) =~= digits + (space + body));
            assert((space + body)[0] == ' ');
            lemma_run_then_stop(CharClass::Digit, digits, space + body);
            lemma_run_then_stop(CharClass::Space, space, body);
            assert(count_of(digits) == Some(n));
        },
    }
}

/// Writing a parsed command out as a line and parsing that line gives the
/// same command.
pub proof fn lemma_reparse(line: Seq<char>)
    ensures
        parse_line(line) matches Ok(command) ==> parse_line(line_of(command)) == Ok::<
            RawCommandView,
            Failure,
        >(command),
{
    if let Ok(command) = parse_line(line) {
        lemma_parsed_is_writable(line);
        lemma_written_command_parses(command);
    }
}

} // verus!
