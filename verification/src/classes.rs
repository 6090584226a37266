//! The three character classes of the protocol and the matching of a leading
//! run of one of them, which is left to the `regex` crate.

use vstd::prelude::*;

verus! {

/// A class of characters that the lexer recognises runs of.
#[derive(Debug, Clone, Copy, PartialEq, Eq)]
pub enum CharClass {
    /// Decimal digits, `\d`.
    Digit,
    /// Whitespace, `\s`.
    Space,
    /// Letters, digits and the underscore, `[\w\d]`.
    Word,
}

/// The text of the first match that `regex::Regex::find` reports for
/// `pattern` in `text`, if there is one.
pub uninterp spec fn regex_find(pattern: Seq<char>, text: Seq<char>) -> Option<Seq<char>>;

/// Whether `regex::Regex::new` compiles `pattern`.
pub uninterp spec fn regex_accepts(pattern: Seq<char>) -> bool;

impl CharClass {
    /// Whether the pattern engine compiles the pattern of the class, without
    /// which no run of it can be looked for.
    pub open spec fn usable(self) -> bool {
        regex_accepts(self.spec_pattern())
    }

    /// The anchored pattern that matches a non-empty leading run of the class.
    pub open spec fn spec_pattern(self) -> Seq<char> {
        match self {
            CharClass::Digit => "^\\d+"@,
            CharClass::Space => "^\\s+"@,
            CharClass::Word => "^[\\w\\d]+"@,
        }
    }

    /// Whether `c` belongs to the class. For ASCII the members are listed; a
    /// character beyond ASCII belongs to it when the pattern matches the text
    /// made of that character alone.
    pub open spec fn holds(self, c: char) -> bool {
        if c > '\u{7f}' {
            regex_find(self.spec_pattern(), seq![c]) is Some
        } else {
            match self {
                CharClass::Digit => '0' <= c <= '9',
                CharClass::Space => c == ' ' || '\t' <= c <= '\r',
                CharClass::Word => {
                    '0' <= c <= '9' || 'A' <= c <= 'Z' || 'a' <= c <= 'z' || c == '_'
                },
            }
        }
    }

    /// The pattern for a leading run of the class.
    pub fn pattern(self) -> (p: &'static str)
        ensures
            p@ == self.spec_pattern(),
    {
        match self {
            CharClass::Digit => "^\\d+",
            CharClass::Space => "^\\s+",
            CharClass::Word => "^[\\w\\d]+",
        }
    }
}

/// Whether the pattern engine compiles the patterns of all three classes.
pub open spec fn all_usable() -> bool {
    CharClass::Digit.usable() && CharClass::Space.usable() && CharClass::Word.usable()
}

/// The number of characters at the start of `text` that belong to `class`.
pub open spec fn leading_run(class: CharClass, text: Seq<char>) -> nat
    decreases text.len(),
{
    if text.len() > 0 && class.holds(text[0]) {
        1 + leading_run(class, text.drop_first())
    } else {
        0
    }
}

/// A leading run is no longer than the text.
pub proof fn lemma_leading_run_bound(class: CharClass, text: Seq<char>)
    ensures
        leading_run(class, text) <= text.len(),
    decreases text.len(),
{
    if text.len() > 0 && class.holds(text[0]) {
        lemma_leading_run_bound(class, text.drop_first());
    }
}

/// Whether `text` holds ASCII characters only.
pub open spec fn is_ascii_text(text: Seq<char>) -> bool {
    forall|i: int| 0 <= i < text.len() ==> #[trigger] text[i] <= '\u{7f}'
}

/// Whether every character of `text` belongs to `class`.
pub open spec fn all_in(class: CharClass, text: Seq<char>) -> bool {
    forall|i: int| 0 <= i < text.len() ==> class.holds(#[trigger] text[i])
}

/// Whether `text` starts with a member of `class`.
pub open spec fn starts_in(class: CharClass, text: Seq<char>) -> bool {
    text.len() > 0 && class.holds(text[0])
}

/// The leading run holds members only and ends where the text ends or a
/// character outside the class follows.
pub proof fn lemma_leading_run_is_maximal(class: CharClass, text: Seq<char>)
    ensures
        leading_run(class, text) <= text.len(),
        all_in(class, text.take(leading_run(class, text) as int)),
        !starts_in(class, text.skip(leading_run(class, text) as int)),
    decreases text.len(),
{
    if text.len() > 0 && class.holds(text[0]) {
        let tail = text.drop_first();
        let run = leading_run(class, tail) as int;
        lemma_leading_run_is_maximal(class, tail);
        assert(text.skip(run + 1) =~= tail.skip(run));
        assert forall|i: int| 0 <= i < run + 1 implies class.holds(
            #[trigger] text.take(run + 1)[i],
        ) by {
            if i > 0 {
                assert(text.take(run + 1)[i] == tail.take(run)[i - 1]);
            }
        }
    } else {
        assert(text.skip(0) =~= text);
    }
}

/// Members followed by the end of the text or by a character outside the
/// class are the leading run.
pub proof fn lemma_run_then_stop(class: CharClass, run: Seq<char>, rest: Seq<char>)
    requires
        all_in(class, run),
        !starts_in(class, rest),
    ensures
        leading_run(class, run + rest) == run.len(),
        (run + rest).take(run.len() as int) == run,
        (run + rest).skip(run.len() as int) == rest,
    decreases run.len(),
{
    assert((run + rest).take(run.len() as int) =~= run);
    assert((run + rest).skip(run.len() as int) =~= rest);
    if run.len() == 0 {
        assert(run + rest =~= rest);
    } else {
        let tail = run.drop_first();
        assert((run + rest)[0] == run[0]);
        assert((run + rest).drop_first() =~= tail + rest);
        assert forall|i: int| 0 <= i < tail.len() implies class.holds(#[trigger] tail[i]) by {
            assert(tail[i] == run[i + 1]);
        }
        lemma_run_then_stop(class, tail, rest);
    }
}

/// What a search for the pattern of `class` finds in `text`: the longest
/// leading run of the class, or nothing where `text` does not start with a
/// member.
pub open spec fn leading_match(class: CharClass, text: Seq<char>) -> Option<Seq<char>> {
    if leading_run(class, text) == 0 {
        None
    } else {
        Some(text.take(leading_run(class, text) as int))
    }
}

/// The characters of an optional string slice.
pub open spec fn opt_chars(found: Option<&str>) -> Option<Seq<char>> {
    match found {
        Some(s) => Some(s@),
        None => None,
    }
}

/// Compiles `pattern` with `regex::Regex::new` and searches `text` with
/// `Regex::find`, handing back the matched text.
///
/// Trusted: whether the pattern compiles depends on the pattern alone; what
/// comes back for a compiled pattern is `regex_find` of the two arguments;
/// and a pattern that anchors a repeated class at the start of the text
/// matches exactly the longest non-empty run of class members there. Nothing
/// more is claimed of other patterns, nor that any pattern compiles.
#[verifier::external_body]
pub(crate) fn find_leading<'a>(pattern: &str, text: &'a str) -> (r: Result<
    Option<&'a str>,
    regex::Error,
>)
    ensures
        r is Ok <==> regex_accepts(pattern@),
        r matches Ok(found) ==> opt_chars(found) == regex_find(pattern@, text@),
        r matches Ok(found) ==> forall|class: CharClass|
            pattern@ == class.spec_pattern() ==> opt_chars(found) == leading_match(class, text@),
{
    match regex::Regex::new(pattern) {
        Ok(re) => Ok(re.find(text).map(|m| m.as_str())),
        Err(e) => Err(e),
    }
}

} // verus!
