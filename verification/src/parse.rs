//! Reading an Unlambda program into a syntax tree.
//!
//! The grammar is stated as spec functions over the sequence of source
//! characters; the executable parser is proved to compute exactly them,
//! including the position reported with each error.

use vstd::prelude::*;

verus! {

/// The primitive combinators of the source language.
#[derive(Debug, Clone, Copy, PartialEq, Eq)]
pub enum Combinator {
    I,
    K,
    S,
    V,
    D,
    C,
    E,
    Read,
    Reprint,
    Compare(char),
    Dot(char),
}

/// A binary application node.
#[derive(Debug, PartialEq, Eq)]
pub struct Application {
    pub func: Box<SyntaxTree>,
    pub arg: Box<SyntaxTree>,
}

/// A parsed program: a combinator leaf or an application.
#[derive(Debug, PartialEq, Eq)]
pub enum SyntaxTree {
    Combinator(Combinator),
    Application(Application),
}

impl Clone for SyntaxTree {
    /// A copy of the tree.
    fn clone(&self) -> (r: Self)
        ensures
            r == *self,
        decreases *self,
    {
        match self {
            SyntaxTree::Combinator(c) => SyntaxTree::Combinator(*c),
            SyntaxTree::Application(app) => SyntaxTree::Application(
                Application {
                    func: Box::new((*app.func).clone()),
                    arg: Box::new((*app.arg).clone()),
                },
            ),
        }
    }
}

impl Clone for Application {
    /// A copy of the application.
    fn clone(&self) -> (r: Self)
        ensures
            r == *self,
    {
        Application { func: Box::new((*self.func).clone()), arg: Box::new((*self.arg).clone()) }
    }
}

/// A source character with its `(line, column)` position, both from zero.
#[derive(Debug, Clone, Copy, PartialEq, Eq)]
pub struct CharPos {
    pub item: char,
    pub position: (usize, usize),
}

/// Why a source text is not a program.
#[derive(Debug, Clone, Copy, PartialEq, Eq)]
pub enum ParseError {
    /// The text ended where an expression was expected.
    UnexpectedEof,
    /// The text ended right after a `?` or `.` at `position`.
    UnexpectedEofAfter { position: (usize, usize) },
    /// The character `item` (letters in lower case) starts no expression.
    UnexpectedToken { item: char, position: (usize, usize) },
    /// The character `item` follows the complete program.
    UnexpectedCharacter { item: char, position: (usize, usize) },
}

/// What a parse yields, and the offset at which it leaves the source.
pub struct Parse {
    pub result: Result<SyntaxTree, ParseError>,
    pub end: int,
}

/// A name for `char::is_whitespace`: whether `c` has the Unicode
/// `White_Space` property.
pub uninterp spec fn char_is_whitespace(c: char) -> bool;

/// Number of line breaks among the first `i` characters of `s`.
pub open spec fn line_of(s: Seq<char>, i: int) -> int
    decreases i,
{
    if i <= 0 {
        0
    } else if s[i - 1] == '\n' {
        line_of(s, i - 1) + 1
    } else {
        line_of(s, i - 1)
    }
}

/// Distance of offset `i` from the start of its line.
pub open spec fn col_of(s: Seq<char>, i: int) -> int
    decreases i,
{
    if i <= 0 {
        0
    } else if s[i - 1] == '\n' {
        0
    } else {
        col_of(s, i - 1) + 1
    }
}

/// The position reported for the character at offset `i`.
pub open spec fn position_of(s: Seq<char>, i: int) -> (usize, usize) {
    (line_of(s, i) as usize, col_of(s, i) as usize)
}

/// ASCII capitals map to their small letters, everything else to itself.
pub open spec fn lower(c: char) -> char {
    if 'A' <= c && c <= 'Z' {
        ((c as u8) + 32) as u8 as char
    } else {
        c
    }
}

/// The offset just past the first line break at or after `i`, or the end.
pub open spec fn after_line(s: Seq<char>, i: int) -> int
    decreases s.len() - i,
{
    if i < 0 || i >= s.len() {
        s.len() as int
    } else if s[i] == '\n' {
        i + 1
    } else {
        after_line(s, i + 1)
    }
}

/// The first offset at or after `i` that is neither white space nor inside
/// a `#` comment, or the end.
pub open spec fn skip_blank(s: Seq<char>, i: int) -> int
    decreases s.len() - i,
{
    if i < 0 || i >= s.len() {
        s.len() as int
    } else if s[i] == '#' {
        let j = after_line(s, i + 1);
        if i < j <= s.len() {
            skip_blank(s, j)
        } else {
            j
        }
    } else if char_is_whitespace(s[i]) {
        skip_blank(s, i + 1)
    } else {
        i
    }
}

/// The parse of a combinator that ends at `end`.
pub open spec fn leaf(c: Combinator, end: int) -> Parse {
    Parse { result: Ok(SyntaxTree::Combinator(c)), end }
}

/// One expression read from offset `i` on.
pub open spec fn parse_at(s: Seq<char>, i: int) -> Parse
    decreases s.len() - i,
{
    let j = skip_blank(s, i);
    if i < 0 || j < i || j >= s.len() {
        Parse { result: Err(ParseError::UnexpectedEof), end: s.len() as int }
    } else {
        let c = lower(s[j]);
        if c == 'k' {
            leaf(Combinator::K, j + 1)
        } else if c == 's' {
            leaf(Combinator::S, j + 1)
        } else if c == 'i' {
            leaf(Combinator::I, j + 1)
        } else if c == 'v' {
            leaf(Combinator::V, j + 1)
        } else if c == 'd' {
            leaf(Combinator::D, j + 1)
        } else if c == 'c' {
            leaf(Combinator::C, j + 1)
        } else if c == 'e' {
            leaf(Combinator::E, j + 1)
        } else if c == '@' {
            leaf(Combinator::Read, j + 1)
        } else if c == '|' {
            leaf(Combinator::Reprint, j + 1)
        } else if c == 'r' {
            leaf(Combinator::Dot('\n'), j + 1)
        } else if c == '?' || c == '.' {
            if j + 1 < s.len() {
                leaf(
                    if c == '?' {
                        Combinator::Compare(s[j + 1])
                    } else {
                        Combinator::Dot(s[j + 1])
                    },
                    j + 2,
                )
            } else {
                Parse {
                    result: Err(ParseError::UnexpectedEofAfter { position: position_of(s, j) }),
                    end: s.len() as int,
                }
            }
        } else if c == '[' || c == '`' {
            let f = parse_at(s, j + 1);
            match f.result {
                Err(e) => f,
                Ok(func) => {
                    if f.end <= j || f.end > s.len() {
                        f
                    } else {
                        let a = parse_at(s, f.end);
                        match a.result {
                            Err(e) => a,
                            Ok(arg) => Parse {
                                result: Ok(
                                    SyntaxTree::Application(
                                        Application { func: Box::new(func), arg: Box::new(arg) },
                                    ),
                                ),
                                end: a.end,
                            },
                        }
                    }
                },
            }
        } else {
            Parse {
                result: Err(ParseError::UnexpectedToken { item: c, position: position_of(s, j) }),
                end: j + 1,
            }
        }
    }
}

/// A whole program read from offset `i` on: one expression, then nothing
/// but white space and comments.
pub open spec fn parse_program(s: Seq<char>, i: int) -> Parse {
    let p = parse_at(s, i);
    match p.result {
        Err(e) => p,
        Ok(tree) => {
            let j = skip_blank(s, p.end);
            if j < s.len() {
                Parse {
                    result: Err(
                        ParseError::UnexpectedCharacter { item: s[j], position: position_of(s, j) },
                    ),
                    end: j + 1,
                }
            } else {
                Parse { result: Ok(tree), end: s.len() as int }
            }
        },
    }
}

/// Positions never run ahead of the offset they describe.
pub proof fn lemma_position_bounds(s: Seq<char>, i: int)
    requires
        0 <= i,
    ensures
        0 <= line_of(s, i) <= i,
        0 <= col_of(s, i) <= i,
    decreases i,
{
    if i > 0 {
        lemma_position_bounds(s, i - 1);
    }
}

/// Skipping a line moves forward and stays inside the text.
pub proof fn lemma_after_line_bounds(s: Seq<char>, i: int)
    requires
        0 <= i <= s.len(),
    ensures
        i <= after_line(s, i) <= s.len(),
    decreases s.len() - i,
{
    if i < s.len() && s[i] != '\n' {
        lemma_after_line_bounds(s, i + 1);
    }
}

/// Skipping blanks moves forward, stays inside the text, and stops at the
/// end or at a character that is neither white space nor `#`.
pub proof fn lemma_skip_blank_bounds(s: Seq<char>, i: int)
    requires
        0 <= i <= s.len(),
    ensures
        i <= skip_blank(s, i) <= s.len(),
        skip_blank(s, i) < s.len() ==> s[skip_blank(s, i)] != '#' && !char_is_whitespace(
            s[skip_blank(s, i)],
        ),
        skip_blank(s, skip_blank(s, i)) == skip_blank(s, i),
    decreases s.len() - i,
{
    if i < s.len() {
        if s[i] == '#' {
            lemma_after_line_bounds(s, i + 1);
            lemma_skip_blank_bounds(s, after_line(s, i + 1));
        } else if char_is_whitespace(s[i]) {
            lemma_skip_blank_bounds(s, i + 1);
        }
    }
}

/// A successful parse consumes at least one character and ends inside
/// the text, so the guards on the offsets in [`parse_at`] never decide.
pub proof fn lemma_parse_at_advances(s: Seq<char>, i: int)
    requires
        0 <= i <= s.len(),
    ensures
        i <= parse_at(s, i).end <= s.len(),
        parse_at(s, i).result is Ok ==> i < parse_at(s, i).end,
    decreases s.len() - i,
{
    lemma_skip_blank_bounds(s, i);
    let j = skip_blank(s, i);
    if j < s.len() {
        let c = lower(s[j]);
        if c == '[' || c == '`' {
            lemma_parse_at_advances(s, j + 1);
            let f = parse_at(s, j + 1);
            if f.result is Ok {
                lemma_parse_at_advances(s, f.end);
            }
        }
    }
}

/// `char::is_whitespace`: the answer is the `White_Space` property of `c`,
/// which the contract names without spelling out its table.
#[verifier::external_body]
fn is_whitespace(c: char) -> (b: bool)
    ensures
        b == char_is_whitespace(c),
{
    c.is_whitespace()
}

/// Lower-cases an ASCII letter and leaves every other character alone.
pub fn to_lower(c: char) -> (r: char)
    ensures
        r == lower(c),
{
    if 'A' <= c && c <= 'Z' {
        let b: u8 = c as u8;
        (b + 32) as char
    } else {
        c
    }
}

/// A cursor over source characters that knows the position of the next
/// one.
pub struct CharPosIterator {
    chars: Vec<char>,
    index: usize,
    line: usize,
    col: usize,
}

impl CharPosIterator {
    /// The whole text that the cursor walks over.
    pub closed spec fn source(&self) -> Seq<char> {
        self.chars@
    }

    /// How many characters have been handed out.
    pub closed spec fn offset(&self) -> int {
        self.index as int
    }

    /// The cursor is inside the text and its line and column are those of
    /// the next character.
    pub closed spec fn wf(&self) -> bool {
        &&& self.index <= self.chars@.len()
        &&& self.line == line_of(self.chars@, self.index as int)
        &&& self.col == col_of(self.chars@, self.index as int)
    }

    /// Every well-formed cursor is inside its text.
    pub proof fn lemma_offset_in_source(&self)
        requires
            self.wf(),
        ensures
            0 <= self.offset() <= self.source().len(),
    {
    }

    /// A cursor at the start of `chars`.
    pub fn new(chars: Vec<char>) -> (it: Self)
        ensures
            it.wf(),
            it.source() == chars@,
            it.offset() == 0,
    {
        CharPosIterator { chars, index: 0, line: 0, col: 0 }
    }

    /// The next character with its position, without moving.
    pub fn peek(&self) -> (r: Option<CharPos>)
        requires
            self.wf(),
        ensures
            r == if self.offset() < self.source().len() {
                Some(
                    CharPos {
                        item: self.source()[self.offset()],
                        position: position_of(self.source(), self.offset()),
                    },
                )
            } else {
                None
            },
    {
        if self.index >= self.chars.len() {
            None
        } else {
            Some(CharPos { item: self.chars[self.index], position: (self.line, self.col) })
        }
    }

    /// The next character with its position; the cursor moves past it.
    /// At the end of the text nothing changes.
    pub fn next(&mut self) -> (r: Option<CharPos>)
        requires
            old(self).wf(),
        ensures
            final(self).wf(),
            final(self).source() == old(self).source(),
            r == if old(self).offset() < old(self).source().len() {
                Some(
                    CharPos {
                        item: old(self).source()[old(self).offset()],
                        position: position_of(old(self).source(), old(self).offset()),
                    },
                )
            } else {
                None
            },
            final(self).offset() == if old(self).offset() < old(self).source().len() {
                old(self).offset() + 1
            } else {
                old(self).offset()
            },
    {
        if self.index >= self.chars.len() {
            None
        } else {
            let c = self.chars[self.index];
            let cp = CharPos { item: c, position: (self.line, self.col) };
            proof {
                lemma_position_bounds(self.chars@, self.index as int);
                lemma_position_bounds(self.chars@, self.index as int + 1);
            }
            if c == '\n' {
                self.line = self.line + 1;
                self.col = 0;
            } else {
                self.col = self.col + 1;
            }
            self.index = self.index + 1;
            Some(cp)
        }
    }
}

/// Consumes the rest of the current line, its line break included.
pub fn read_to_newline(iterator: &mut CharPosIterator)
    requires
        old(iterator).wf(),
    ensures
        final(iterator).wf(),
        final(iterator).source() == old(iterator).source(),
        final(iterator).offset() == after_line(old(iterator).source(), old(iterator).offset()),
{
    let ghost s = iterator.source();
    let ghost start = iterator.offset();
    proof {
        iterator.lemma_offset_in_source();
    }
    loop
        invariant_except_break
            iterator.wf(),
            iterator.source() == s,
            0 <= iterator.offset() <= s.len(),
            after_line(s, iterator.offset()) == after_line(s, start),
        ensures
            iterator.wf(),
            iterator.source() == s,
            iterator.offset() == after_line(s, start),
        decreases s.len() - iterator.offset(),
    {
        match iterator.next() {
            None => {
                break ;
            },
            Some(cp) => {
                if cp.item == '\n' {
                    break ;
                }
            },
        }
    }
}

/// Consumes white space and `#` comments up to the next token.
pub fn consume_whitespace(iterator: &mut CharPosIterator)
    requires
        old(iterator).wf(),
    ensures
        final(iterator).wf(),
        final(iterator).source() == old(iterator).source(),
        final(iterator).offset() == skip_blank(old(iterator).source(), old(iterator).offset()),
{
    let ghost s = iterator.source();
    let ghost start = iterator.offset();
    proof {
        iterator.lemma_offset_in_source();
    }
    loop
        invariant_except_break
            iterator.wf(),
            iterator.source() == s,
            0 <= iterator.offset() <= s.len(),
            skip_blank(s, iterator.offset()) == skip_blank(s, start),
        ensures
            iterator.wf(),
            iterator.source() == s,
            iterator.offset() == skip_blank(s, start),
        decreases s.len() - iterator.offset(),
    {
        let ghost at = iterator.offset();
        match iterator.peek() {
            None => {
                break ;
            },
            Some(cp) => {
                if cp.item == '#' {
                    let _ = iterator.next();
                    proof {
                        lemma_after_line_bounds(s, at + 1);
                    }
                    read_to_newline(iterator);
                } else if is_whitespace(cp.item) {
                    let _ = iterator.next();
                } else {
                    break ;
                }
            },
        }
    }
}

/// Reads one expression.
///
/// The result and the place where the cursor is left are those of
/// [`parse_at`], for success and for each error alike.
pub fn parse(iterator: &mut CharPosIterator) -> (r: Result<SyntaxTree, ParseError>)
    requires
        old(iterator).wf(),
    ensures
        final(iterator).wf(),
        final(iterator).source() == old(iterator).source(),
        final(iterator).offset() >= old(iterator).offset(),
        r == parse_at(old(iterator).source(), old(iterator).offset()).result,
        final(iterator).offset() == parse_at(old(iterator).source(), old(iterator).offset()).end,
    decreases old(iterator).source().len() - old(iterator).offset(),
{
    let ghost s = iterator.source();
    let ghost start = iterator.offset();
    proof {
        iterator.lemma_offset_in_source();
        lemma_skip_blank_bounds(s, start);
    }
    consume_whitespace(iterator);
    let token = match iterator.next() {
        None => {
            return Err(ParseError::UnexpectedEof);
        },
        Some(t) => t,
    };
    let c = to_lower(token.item);
    if c == 'k' {
        Ok(SyntaxTree::Combinator(Combinator::K))
    } else if c == 's' {
        Ok(SyntaxTree::Combinator(Combinator::S))
    } else if c == 'i' {
        Ok(SyntaxTree::Combinator(Combinator::I))
    } else if c == 'v' {
        Ok(SyntaxTree::Combinator(Combinator::V))
    } else if c == 'd' {
        Ok(SyntaxTree::Combinator(Combinator::D))
    } else if c == 'c' {
        Ok(SyntaxTree::Combinator(Combinator::C))
    } else if c == 'e' {
        Ok(SyntaxTree::Combinator(Combinator::E))
    } else if c == '@' {
        Ok(SyntaxTree::Combinator(Combinator::Read))
    } else if c == '|' {
        Ok(SyntaxTree::Combinator(Combinator::Reprint))
    } else if c == 'r' {
        Ok(SyntaxTree::Combinator(Combinator::Dot('\n')))
    } else if c == '?' || c == '.' {
        match iterator.next() {
            None => Err(ParseError::UnexpectedEofAfter { position: token.position }),
            Some(x) => {
                if c == '?' {
                    Ok(SyntaxTree::Combinator(Combinator::Compare(x.item)))
                } else {
                    Ok(SyntaxTree::Combinator(Combinator::Dot(x.item)))
                }
            },
        }
    } else if c == '[' || c == '`' {
        let func = match parse(iterator) {
            Err(e) => {
                return Err(e);
            },
            Ok(t) => t,
        };
        proof {
            iterator.lemma_offset_in_source();
        }
        match parse(iterator) {
            Err(e) => Err(e),
            Ok(arg) => Ok(
                SyntaxTree::Application(Application { func: Box::new(func), arg: Box::new(arg) }),
            ),
        }
    } else {
        Err(ParseError::UnexpectedToken { item: c, position: token.position })
    }
}

/// Reads a whole program: one expression, then nothing but white space
/// and comments.
///
/// Succeeds exactly on the texts that [`parse_program`] accepts, and
/// reports each error with the character and position that it names.
pub fn parse_toplevel(iterator: &mut CharPosIterator) -> (r: Result<SyntaxTree, ParseError>)
    requires
        old(iterator).wf(),
    ensures
        final(iterator).wf(),
        final(iterator).source() == old(iterator).source(),
        r == parse_program(old(iterator).source(), old(iterator).offset()).result,
        final(iterator).offset() == parse_program(
            old(iterator).source(),
            old(iterator).offset(),
        ).end,
{
    let ghost s = iterator.source();
    let res = match parse(iterator) {
        Err(e) => {
            return Err(e);
        },
        Ok(t) => t,
    };
    proof {
        iterator.lemma_offset_in_source();
        lemma_skip_blank_bounds(s, iterator.offset());
    }
    consume_whitespace(iterator);
    match iterator.next() {
        Some(cp) => Err(ParseError::UnexpectedCharacter { item: cp.item, position: cp.position }),
        None => Ok(res),
    }
}

} // verus!
