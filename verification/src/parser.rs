//! The line parser: a cursor over one line and the operations that read a
//! count, whitespace and identifiers from it.

use vstd::prelude::*;
use vstd::std_specs::convert::FromSpec;
use vstd::string::*;
use vstd::utf8::*;
use crate::classes::{
    find_leading, leading_match, leading_run, lemma_leading_run_bound, opt_chars, CharClass,
};
use crate::decimal::{count_of, parse_count};
use crate::encoding::{
    lemma_empty_encoding, lemma_encode_concat, lemma_prefix_is_boundary, lemma_split_at_boundary,
    utf8_len,
};
use crate::error::{ErrorKind, Failure};
use crate::grammar::{
    count_span, identifiers, identifiers_span, leading_count, lex_line, lex_span, parse_line,
    skip_run, take_run, RawCommandView,
};

verus! {

/// The characters of each string of a list.
pub open spec fn texts(strings: Seq<String>) -> Seq<Seq<char>> {
    strings.map_values(|s: String| s@)
}

/// A raw command containing the command name, an optional count, and its
/// arguments.
#[derive(Clone, PartialEq, Debug)]
pub struct RawCommand {
    /// An optional number attached to the command.
    pub count: Option<u32>,
    /// The name of the command itself.
    pub name: String,
    /// Zero or more arguments for the command.
    pub args: Vec<String>,
}

impl View for RawCommand {
    type V = RawCommandView;

    open spec fn view(&self) -> RawCommandView {
        RawCommandView { count: self.count, name: self.name@, args: texts(self.args@) }
    }
}

/// The outcome of parsing as a value: the command that was parsed, or what
/// went wrong.
pub open spec fn parsed(r: Result<RawCommand, ErrorKind>) -> Result<RawCommandView, Failure> {
    match r {
        Ok(raw) => Ok(raw@),
        Err(e) => Err(e.failure()),
    }
}

/// The outcome of lexing as a value: the count and the identifiers, or what
/// went wrong.
pub open spec fn lexed(r: Result<(Option<u32>, Vec<String>), ErrorKind>) -> Result<
    (Option<u32>, Seq<Seq<char>>),
    Failure,
> {
    match r {
        Ok((count, tokens)) => Ok((count, texts(tokens@))),
        Err(e) => Err(e.failure()),
    }
}

/// Whether `command` is what `raw` converts into, as far as the target type
/// says how it converts.
pub open spec fn converts<C: From<RawCommand>>(raw: RawCommand, command: C) -> bool {
    C::obeys_from_spec() ==> command == C::from_spec(raw)
}

/// Parse a single line and extract a command.
///
/// This function is generic, so you can get any type which can be coerced from
/// a `RawCommand` using `raw_command.into()`.
pub fn parse<C>(src: &str) -> (r: Result<C, ErrorKind>) where C: From<RawCommand>
    ensures
        r matches Ok(command) ==> exists|raw: RawCommand|
            parse_line(src@) == Ok::<RawCommandView, Failure>(raw@) && #[trigger] converts(
                raw,
                command,
            ),
        r matches Err(e) ==> parse_line(src@) == Err::<RawCommandView, Failure>(e.failure()),
{
    let parser = Parser::new(src);
    match parser.parse() {
        Ok(raw) => {
            let ghost parsed = raw;
            let r = Ok(C::from(raw));
            assert(converts(parsed, r->Ok_0));
            r
        },
        Err(e) => Err(e),
    }
}

/// A line parser.
pub struct Parser {
    src: String,
    pointer: usize,
}

impl Parser {
    /// The cursor is a byte offset into the line that never stands inside a
    /// character.
    #[verifier::type_invariant]
    spec fn well_formed(self) -> bool {
        &&& utf8_len(self.src@) <= usize::MAX
        &&& is_char_boundary(encode_utf8(self.src@), self.pointer as int)
    }

    /// The line that is being parsed.
    pub closed spec fn line(self) -> Seq<char> {
        self.src@
    }

    /// The cursor: the number of bytes of the line that have been read.
    pub closed spec fn position(self) -> nat {
        self.pointer as nat
    }

    /// The part of the line that has not been read yet.
    pub closed spec fn unread(self) -> Seq<char> {
        let bytes = encode_utf8(self.src@);
        decode_utf8(bytes.subrange(self.pointer as int, bytes.len() as int))
    }

    /// Whether `next` is this parser after reading `chars` more characters.
    pub open spec fn advanced_by(self, next: Parser, chars: nat) -> bool {
        &&& chars <= self.unread().len()
        &&& next.line() == self.line()
        &&& next.unread() == self.unread().skip(chars as int)
        &&& next.position() == self.position() + utf8_len(self.unread().take(chars as int))
    }

    /// Reading on from where a first reading stopped adds up.
    pub proof fn lemma_advanced_further(
        self,
        middle: Parser,
        last: Parser,
        first: nat,
        second: nat,
    )
        requires
            self.advanced_by(middle, first),
            middle.advanced_by(last, second),
        ensures
            self.advanced_by(last, first + second),
    {
        let unread = self.unread();
        let head = unread.take(first as int);
        let tail = unread.skip(first as int);
        assert(tail.skip(second as int) =~= unread.skip((first + second) as int));
        assert(unread.take((first + second) as int) =~= head + tail.take(second as int));
        lemma_encode_concat(head, tail.take(second as int));
    }

    /// Create a new parser to parse a line.
    pub fn new(line: &str) -> (parser: Parser)
        ensures
            parser.line() == line@,
            parser.position() == 0,
            parser.unread() == line@,
    {
        let ghost bytes = encode_utf8(line@);
        // Taking the length shows that the bytes of the line can be counted
        // in a `usize`, which the cursor relies on.
        let _ = line.as_bytes().len();
        proof {
            broadcast use {encode_utf8_valid_utf8, encode_utf8_decode_utf8};

            is_char_boundary_start_end_of_seq(bytes);
            assert(bytes.subrange(0, bytes.len() as int) =~= bytes);
        }
        Parser { src: line.to_owned(), pointer: 0 }
    }

    /// Parse the source string into a `RawCommand`.
    ///
    /// What is parsed is the unread part of the line, which is all of it for
    /// a parser that has read nothing yet.
    pub fn parse(self) -> (r: Result<RawCommand, ErrorKind>)
        ensures
            parsed(r) == parse_line(self.unread()),
    {
        let mut this = self;
        // Try to lex the provided string into its optional count, command, and
        // arguments.
        let (count, mut identifiers) = match this.lex() {
            Ok(lexed) => lexed,
            Err(e) => {
                return Err(e);
            },
        };
        // Make sure we got at least 1 identifier (i.e. the command name itself)
        if identifiers.len() < 1 {
            Err(ErrorKind::NoCommand)
        } else {
            let ghost words = identifiers@;
            let args = identifiers.split_off(1);
            let name = identifiers[0].clone();
            proof {
                assert(texts(args@) =~= texts(words).skip(1));
            }
            Ok(RawCommand { count, name, args })
        }
    }

    /// Does lexical analysis.
    ///
    /// This breaks the input string into an optional number (plus a space),
    /// followed by a number of space delimited strings (the command and args).
    pub fn lex(&mut self) -> (r: Result<(Option<u32>, Vec<String>), ErrorKind>)
        ensures
            lexed(r) == lex_line(old(self).unread()),
            old(self).advanced_by(*final(self), lex_span(old(self).unread())),
    {
        let mut tokens: Vec<String> = Vec::new();
        let mut count: Option<u32> = None;
        let ghost mut read: nat = 0;
        proof {
            let unread = self.unread();
            lemma_leading_run_bound(CharClass::Digit, unread);
            lemma_leading_run_bound(CharClass::Space, skip_run(CharClass::Digit, unread));
            assert(unread.skip(0) =~= unread);
        }

        match self.read_number() {
            Err(e) => {
                return Err(e);
            },
            Ok(None) => {},
            Ok(Some(num)) => {
                count = Some(num);
                let ghost digits = leading_run(CharClass::Digit, old(self).unread());
                let ghost after = *self;
                let skipped = self.skip_whitespace(true);
                proof {
                    let blank = if skipped is Ok {
                        leading_run(CharClass::Space, after.unread())
                    } else {
                        0
                    };
                    old(self).lemma_advanced_further(after, *self, digits, blank);
                    read = digits + blank;
                }
                match skipped {
                    Err(e) => {
                        return Err(e);
                    },
                    Ok(()) => {},
                }
            },
        }

        let ghost start = self.unread();
        let ghost base = read;
        assert(leading_count(old(self).unread()) == Ok::<(Option<u32>, Seq<char>), Failure>(
            (count, start),
        ));
        assert(base == count_span(old(self).unread()));
        loop
            invariant
                old(self).advanced_by(*self, read),
                leading_count(old(self).unread()) == Ok::<(Option<u32>, Seq<char>), Failure>(
                    (count, start),
                ),
                base == count_span(old(self).unread()),
                texts(tokens@) + identifiers(self.unread()) == identifiers(start),
                read + identifiers_span(self.unread()) == base + identifiers_span(start),
                tokens@.len() > 0 ==> CharClass::Word.usable() && CharClass::Space.usable(),
                tokens@.len() > 0 ==> leading_run(CharClass::Word, start) > 0,
                tokens@.len() == 0 ==> self.unread() == start && read == base,
            ensures
                old(self).advanced_by(*self, read),
                texts(tokens@) == identifiers(start),
                read == base + identifiers_span(start),
                CharClass::Word.usable(),
                tokens@.len() > 0 ==> CharClass::Space.usable(),
            decreases self.unread().len(),
        {
            let ghost before = *self;
            let ghost so_far = tokens@;
            let ghost word = leading_run(CharClass::Word, before.unread());
            proof {
                lemma_leading_run_bound(CharClass::Word, before.unread());
                lemma_leading_run_bound(
                    CharClass::Space,
                    skip_run(CharClass::Word, before.unread()),
                );
                assert(before.unread().skip(0) =~= before.unread());
            }
            match self.lex_identifier() {
                Err(e) => {
                    return Err(e);
                },
                Ok(None) => {
                    proof {
                        assert(texts(tokens@) + Seq::<Seq<char>>::empty() =~= texts(tokens@));
                    }
                    break ;
                },
                Ok(Some(next_token)) => {
                    tokens.push(next_token);
                    let ghost after = *self;
                    let skipped = self.skip_whitespace(false);
                    proof {
                        let blank = if skipped is Ok {
                            leading_run(CharClass::Space, after.unread())
                        } else {
                            0
                        };
                        before.lemma_advanced_further(after, *self, word, blank);
                        old(self).lemma_advanced_further(before, *self, read, word + blank);
                        read = read + word + blank;
                    }
                    match skipped {
                        Err(e) => {
                            return Err(e);
                        },
                        Ok(()) => {},
                    }
                    proof {
                        assert(texts(tokens@) =~= texts(so_far) + seq![next_token@]);
                        assert(texts(tokens@) + identifiers(self.unread()) =~= texts(so_far)
                            + (seq![next_token@] + identifiers(self.unread())));
                    }
                },
            }
        }

        Ok((count, tokens))
    }

    /// The cursor, as a byte offset into the line.
    pub fn pointer(&self) -> (p: usize)
        ensures
            p == self.position(),
    {
        self.pointer
    }

    /// The unread part of the line.
    fn rest(&self) -> (r: &str)
        ensures
            r@ == self.unread(),
    {
        proof {
            broadcast use {encode_utf8_valid_utf8, encode_utf8_decode_utf8};

            use_type_invariant(self);
        }
        let (_, rest) = self.src.as_str().split_at(self.pointer);
        rest
    }

    /// Moves the cursor over the first `chars` unread characters, which take
    /// up `bytes` bytes.
    fn advance(&mut self, bytes: usize, Ghost(chars): Ghost<nat>)
        requires
            chars <= old(self).unread().len(),
            bytes == utf8_len(old(self).unread().take(chars as int)),
        ensures
            old(self).advanced_by(*final(self), chars),
    {
        proof {
            broadcast use {encode_utf8_valid_utf8, encode_utf8_decode_utf8};

            use_type_invariant(&*self);
            let all = encode_utf8(self.src@);
            let at = self.pointer as int;
            lemma_split_at_boundary(all, at);
            let read = decode_utf8(all.subrange(0, at));
            let unread = self.unread();
            let run = unread.take(chars as int);
            let left = unread.skip(chars as int);
            assert(unread =~= run + left);
            assert(self.src@ =~= (read + run) + left);
            lemma_encode_concat(read, run);
            lemma_encode_concat(read + run, left);
            lemma_prefix_is_boundary(read + run, left);
            assert(all.subrange(0, at) + all.subrange(at, all.len() as int) =~= all);
            assert(all.subrange(at + bytes, all.len() as int) =~= encode_utf8(left));
        }
        self.pointer = self.pointer + bytes;
    }

    /// Looks for a leading run of `class` in the unread text.
    fn scan(&self, class: CharClass) -> (r: Result<Option<&str>, ErrorKind>)
        ensures
            r is Ok <==> class.usable(),
            r matches Ok(found) ==> opt_chars(found) == leading_match(class, self.unread()),
            r matches Err(e) ==> e is Regex,
    {
        match find_leading(class.pattern(), self.rest()) {
            Ok(found) => Ok(found),
            Err(e) => Err(ErrorKind::Regex(e)),
        }
    }

    /// Try to read a number from the source string, moving the pointer if a
    /// match is found.
    ///
    /// The number is the longest leading run of digits. Nothing is read where
    /// the text does not start with a digit, nor where the digits do not
    /// denote a 32-bit number, which is an error.
    pub fn read_number(&mut self) -> (r: Result<Option<u32>, ErrorKind>)
        ensures
            match r {
                Ok(Some(n)) => {
                    &&& CharClass::Digit.usable()
                    &&& leading_run(CharClass::Digit, old(self).unread()) > 0
                    &&& count_of(take_run(CharClass::Digit, old(self).unread())) == Some(n)
                    &&& old(self).advanced_by(
                        *final(self),
                        leading_run(CharClass::Digit, old(self).unread()),
                    )
                },
                Ok(None) => {
                    &&& CharClass::Digit.usable()
                    &&& leading_run(CharClass::Digit, old(self).unread()) == 0
                    &&& old(self).advanced_by(*final(self), 0)
                },
                Err(ErrorKind::BadCount) => {
                    &&& CharClass::Digit.usable()
                    &&& leading_run(CharClass::Digit, old(self).unread()) > 0
                    &&& count_of(take_run(CharClass::Digit, old(self).unread())) is None
                    &&& old(self).advanced_by(*final(self), 0)
                },
                Err(ErrorKind::Regex(_)) => {
                    &&& !CharClass::Digit.usable()
                    &&& old(self).advanced_by(*final(self), 0)
                },
                Err(_) => false,
            },
    {
        let ghost run = leading_run(CharClass::Digit, self.unread());
        proof {
            lemma_leading_run_bound(CharClass::Digit, self.unread());
            assert(self.unread().skip(0) =~= self.unread());
            assert(self.unread().take(0) =~= Seq::<char>::empty());
        }
        let (number, bytes) = match self.scan(CharClass::Digit) {
            Err(e) => {
                return Err(e);
            },
            Ok(None) => {
                return Ok(None);
            },
            Ok(Some(digits)) => (parse_count(digits), digits.as_bytes().len()),
        };
        match number {
            None => Err(ErrorKind::BadCount),
            Some(n) => {
                self.advance(bytes, Ghost(run));
                Ok(Some(n))
            },
        }
    }

    /// Move the pointer past any whitespace.
    ///
    /// Where there is none, this is an error if whitespace is `mandatory` and
    /// does nothing otherwise.
    pub fn skip_whitespace(&mut self, mandatory: bool) -> (r: Result<(), ErrorKind>)
        ensures
            match r {
                Ok(()) => {
                    &&& CharClass::Space.usable()
                    &&& mandatory ==> leading_run(CharClass::Space, old(self).unread()) > 0
                    &&& old(self).advanced_by(
                        *final(self),
                        leading_run(CharClass::Space, old(self).unread()),
                    )
                },
                Err(ErrorKind::NoWhitespace) => {
                    &&& CharClass::Space.usable()
                    &&& mandatory
                    &&& leading_run(CharClass::Space, old(self).unread()) == 0
                    &&& old(self).advanced_by(*final(self), 0)
                },
                Err(ErrorKind::Regex(_)) => {
                    &&& !CharClass::Space.usable()
                    &&& old(self).advanced_by(*final(self), 0)
                },
                Err(_) => false,
            },
    {
        let ghost run = leading_run(CharClass::Space, self.unread());
        proof {
            lemma_leading_run_bound(CharClass::Space, self.unread());
            assert(self.unread().skip(0) =~= self.unread());
            assert(self.unread().take(0) =~= Seq::<char>::empty());
        }
        let num_bytes_to_skip = match self.scan(CharClass::Space) {
            Err(e) => {
                return Err(e);
            },
            Ok(None) => 0,
            Ok(Some(blank)) => blank.as_bytes().len(),
        };
        self.advance(num_bytes_to_skip, Ghost(run));
        if num_bytes_to_skip == 0 && mandatory {
            proof {
                lemma_empty_encoding(old(self).unread().take(run as int));
            }
            Err(ErrorKind::NoWhitespace)
        } else {
            Ok(())
        }
    }

    /// Try to match an identifier (any alphanumeric string).
    ///
    /// The identifier is the longest leading run of word characters. Nothing
    /// is read where the text does not start with one.
    pub fn lex_identifier(&mut self) -> (r: Result<Option<String>, ErrorKind>)
        ensures
            match r {
                Ok(Some(token)) => {
                    &&& CharClass::Word.usable()
                    &&& leading_run(CharClass::Word, old(self).unread()) > 0
                    &&& token@ == take_run(CharClass::Word, old(self).unread())
                    &&& old(self).advanced_by(
                        *final(self),
                        leading_run(CharClass::Word, old(self).unread()),
                    )
                },
                Ok(None) => {
                    &&& CharClass::Word.usable()
                    &&& leading_run(CharClass::Word, old(self).unread()) == 0
                    &&& old(self).advanced_by(*final(self), 0)
                },
                Err(e) => {
                    &&& e is Regex
                    &&& !CharClass::Word.usable()
                    &&& old(self).advanced_by(*final(self), 0)
                },
            },
    {
        let ghost run = leading_run(CharClass::Word, self.unread());
        proof {
            lemma_leading_run_bound(CharClass::Word, self.unread());
            assert(self.unread().skip(0) =~= self.unread());
            assert(self.unread().take(0) =~= Seq::<char>::empty());
        }
        let (token, bytes) = match self.scan(CharClass::Word) {
            Err(e) => {
                return Err(e);
            },
            Ok(None) => {
                return Ok(None);
            },
            Ok(Some(word)) => (word.to_owned(), word.as_bytes().len()),
        };
        self.advance(bytes, Ghost(run));
        Ok(Some(token))
    }
}

} // verus!
