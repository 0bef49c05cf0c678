use vstd::prelude::*;
use vstd::string::StringSliceAdditionalSpecFns;

verus! {

/// The number of line breaks in `s`.
pub open spec fn breaks(s: Seq<u8>) -> nat
    decreases s.len(),
{
    if s.len() == 0 {
        0
    } else if s.last() == 10u8 {
        breaks(s.drop_last()) + 1
    } else {
        breaks(s.drop_last())
    }
}

/// The number of lines in `s` as `str::lines` counts them: one per line
/// break, plus one for text after the last break.
pub open spec fn line_count(s: Seq<u8>) -> nat {
    breaks(s) + if s.len() > 0 && s.last() != 10u8 { 1nat } else { 0nat }
}

/// The text of the last line of `s` as `str::lines` yields it (without its
/// break and one carriage return before it), or `None` where `s` has no
/// line.
pub open spec fn last_line(s: Seq<u8>) -> Option<Seq<u8>> {
    if s.len() == 0 {
        None
    } else {
        let body = if s.last() == 10u8 { s.drop_last() } else { s };
        let start = last_break_end(body);
        let line = body.subrange(start, body.len() as int);
        Some(if line.len() > 0 && line.last() == 13u8 { line.drop_last() } else { line })
    }
}

/// The index just after the last line break of `s` (0 where it has none).
pub open spec fn last_break_end(s: Seq<u8>) -> int
    decreases s.len(),
{
    if s.len() == 0 {
        0
    } else if s.last() == 10u8 {
        s.len() as int
    } else {
        last_break_end(s.drop_last())
    }
}

/// The digit `d` (below ten) as a character.
pub open spec fn digit_char(d: nat) -> char {
    if d == 0 { '0' } else if d == 1 { '1' } else if d == 2 { '2' } else if d == 3 { '3' } else if d == 4 { '4' }
    else if d == 5 { '5' } else if d == 6 { '6' } else if d == 7 { '7' } else if d == 8 { '8' } else { '9' }
}

/// The decimal digits of `n`, most significant first.
pub open spec fn decimal(n: nat) -> Seq<char>
    decreases n,
{
    if n < 10 {
        seq![digit_char(n)]
    } else {
        decimal(n / 10) + seq![digit_char(n % 10)]
    }
}

/// The decimal text of `n`.
pub fn decimal_text(n: usize) -> (res: String)
    ensures
        res@ == decimal(n as nat),
    decreases n,
{
    let d = n % 10;
    let last = if d == 0 { "0" } else if d == 1 { "1" } else if d == 2 { "2" } else if d == 3 { "3" } else if d == 4 {
        "4"
    } else if d == 5 { "5" } else if d == 6 { "6" } else if d == 7 { "7" } else if d == 8 { "8" } else { "9" };
    proof {
        reveal_strlit("0");
        reveal_strlit("1");
        reveal_strlit("2");
        reveal_strlit("3");
        reveal_strlit("4");
        reveal_strlit("5");
        reveal_strlit("6");
        reveal_strlit("7");
        reveal_strlit("8");
        reveal_strlit("9");
        assert(last@ =~= seq![digit_char(d as nat)]);
    }
    if n < 10 {
        String::from_str(last)
    } else {
        let mut res = decimal_text(n / 10);
        res.append(last);
        res
    }
}

/// Where a token stands in a source file: the file, the byte offsets of
/// its start and end, and the line and column of its start.
#[derive(Debug)]
pub struct Position {
    pub path: String,
    pub start: usize,
    pub end: usize,
    pub line: usize,
    pub column: usize,
}

impl Position {
    /// A position made of the parts given.
    pub fn new(path: String, start: usize, end: usize, line: usize, column: usize) -> (res: Self)
        ensures
            res.path@ == path@,
            res.start == start,
            res.end == end,
            res.line == line,
            res.column == column,
    {
        Self { path, start, end, line, column }
    }

    /// The position of the bytes `span` of `input`: its line is the
    /// number of lines before its start, its column one more than the
    /// length of the last of those lines (one where there is none).
    pub fn from_span(path: String, span: (usize, usize), input: &str) -> (res: Self)
        requires
            span.0 <= input.spec_bytes().len(),
            span.0 < usize::MAX,
        ensures
            ({
                let before = input.spec_bytes().take(span.0 as int);
                &&& res.path@ == path@
                &&& res.start == span.0
                &&& res.end == span.1
                &&& res.line == line_count(before)
                &&& res.column == match last_line(before) {
                    Some(l) => l.len() + 1,
                    None => 1,
                }
            }),
    {
        let (start, end) = span;
        let bytes = input.as_bytes();
        let ghost before = bytes@.take(start as int);
        // count the line breaks and find where the last line starts
        let mut nbreaks: usize = 0;
        let mut line_start: usize = 0;
        let mut i: usize = 0;
        while i < start
            invariant
                start <= bytes@.len(),
                i <= start,
                bytes@ == input.spec_bytes(),
                before == bytes@.take(start as int),
                nbreaks as nat == breaks(bytes@.take(i as int)),
                line_start as int == last_break_end(bytes@.take(i as int)),
                nbreaks <= i,
                line_start <= i,
            decreases start - i,
        {
            proof {
                assert(bytes@.take(i + 1).drop_last() =~= bytes@.take(i as int));
                assert(bytes@.take(i + 1).last() == bytes@[i as int]);
            }
            if bytes[i] == 10u8 {
                nbreaks = nbreaks + 1;
                line_start = i + 1;
            }
            i = i + 1;
        }
        let lines = if start > 0 && bytes[start - 1] != 10u8 { nbreaks + 1 } else { nbreaks };
        proof {
            if start > 0 {
                assert(before.last() == bytes@[start - 1]);
            }
        }
        let column = if start == 0 {
            1
        } else {
            // the last line runs from `line_start` to the break or the end
            let line_end = if bytes[start - 1] == 10u8 {
                start - 1
            } else {
                start
            };
            let ls = if bytes[start - 1] == 10u8 {
                last_break_start(bytes, start - 1)
            } else {
                line_start
            };
            let mut len = line_end - ls;
            if len > 0 && bytes[line_end - 1] == 13u8 {
                len = len - 1;
            }
            proof {
                let body = if before.last() == 10u8 { before.drop_last() } else { before };
                assert(before.last() == bytes@[start - 1]);
                assert(body =~= bytes@.take(line_end as int));
                let line = body.subrange(ls as int, body.len() as int);
                if line.len() > 0 {
                    assert(line.last() == bytes@[line_end - 1]);
                }
            }
            len + 1
        };
        Self { path, start, end, line: lines, column }
    }

    /// The byte offsets of the start and the end.
    pub fn span(&self) -> (res: (usize, usize))
        ensures
            res == (self.start, self.end),
    {
        (self.start, self.end)
    }

    /// The text `<path>, Line <line + 1>, Column <column + 1>`.
    pub fn print_line_column(&self) -> (res: String)
        requires
            self.line < usize::MAX,
            self.column < usize::MAX,
        ensures
            res@ == self.path@ + ", Line "@ + decimal((self.line + 1) as nat) + ", Column "@ + decimal((self.column + 1) as nat),
    {
        let mut res = self.path.clone();
        res.append(", Line ");
        let l = decimal_text(self.line + 1);
        res.append(l.as_str());
        res.append(", Column ");
        let c = decimal_text(self.column + 1);
        res.append(c.as_str());
        res
    }
}

/// The index just after the last line break in the first `end` bytes of
/// `bytes`.
fn last_break_start(bytes: &[u8], end: usize) -> (res: usize)
    requires
        end <= bytes@.len(),
    ensures
        res as int == last_break_end(bytes@.take(end as int)),
        res <= end,
    decreases end,
{
    if end == 0 {
        proof {
            assert(bytes@.take(0).len() == 0);
        }
        0
    } else if bytes[end - 1] == 10u8 {
        proof {
            assert(bytes@.take(end as int).last() == bytes@[end - 1]);
        }
        end
    } else {
        proof {
            assert(bytes@.take(end as int).drop_last() =~= bytes@.take(end - 1));
            assert(bytes@.take(end as int).last() == bytes@[end - 1]);
        }
        last_break_start(bytes, end - 1)
    }
}

/// What can go wrong while lexing.
#[derive(Debug, Clone, Copy, PartialEq, Eq, Structural)]
pub enum LexicalError {
    InvalidToken,
}

/// A token with its position; `G` is what the token is.
#[derive(Debug)]
pub struct Token<G> {
    pub t_gut: G,
    pub position: Position,
}

impl<G> Token<G> {
    /// A token made of the parts given.
    pub fn new(t_gut: G, position: Position) -> (res: Self)
        ensures
            res.t_gut == t_gut,
            res.position == position,
    {
        Self { t_gut, position }
    }
}

/// The tokens of a source text and the errors met on the way, in order.
#[derive(Debug)]
pub struct LexResult<G> {
    pub tokens: Vec<Token<G>>,
    pub errors: Vec<(LexicalError, Position)>,
}

impl<G> LexResult<G> {
    /// No token and no error yet.
    pub fn new() -> (res: Self)
        ensures
            res.tokens@.len() == 0,
            res.errors@.len() == 0,
    {
        Self { tokens: Vec::new(), errors: Vec::new() }
    }

    /// Adds a token at the end.
    pub fn add_token(&mut self, token: Token<G>)
        ensures
            final(self).tokens@ == old(self).tokens@.push(token),
            final(self).errors@ == old(self).errors@,
    {
        self.tokens.push(token);
    }

    /// Adds an error at the end.
    pub fn add_error(&mut self, error: LexicalError, position: Position)
        ensures
            final(self).errors@ == old(self).errors@.push((error, position)),
            final(self).tokens@ == old(self).tokens@,
    {
        self.errors.push((error, position));
    }

    /// Whether an error was met.
    pub fn has_errors(&self) -> (res: bool)
        ensures
            res == (self.errors@.len() > 0),
    {
        self.errors.len() > 0
    }

    /// Whether no error was met.
    pub fn is_success(&self) -> (res: bool)
        ensures
            res == (self.errors@.len() == 0),
    {
        self.errors.len() == 0
    }

    /// Takes in what the token recognizer found next: a token `t_gut`
    /// over the bytes `span` of `input`, recorded at its position, after
    /// which the current offset is the token's end; or an error, recorded
    /// over the byte at the current offset `current_pos`, after which the
    /// current offset is one further.  Hands back the new current offset.
    pub fn take_lexeme(
        &mut self,
        lexeme: Result<(G, (usize, usize)), LexicalError>,
        current_pos: usize,
        path: &String,
        input: &str,
    ) -> (res: usize)
        requires
            current_pos < usize::MAX,
            match lexeme {
                Ok((_, span)) => span.0 <= input.spec_bytes().len() && span.0 < usize::MAX,
                Err(_) => true,
            },
        ensures
            match lexeme {
                Ok((g, span)) => {
                    &&& res == span.1
                    &&& final(self).errors@ == old(self).errors@
                    &&& final(self).tokens@.len() == old(self).tokens@.len() + 1
                    &&& final(self).tokens@.take(old(self).tokens@.len() as int) == old(self).tokens@
                    &&& ({
                        let t = final(self).tokens@.last();
                        let before = input.spec_bytes().take(span.0 as int);
                        &&& t.t_gut == g
                        &&& t.position.path@ == path@
                        &&& t.position.start == span.0
                        &&& t.position.end == span.1
                        &&& t.position.line == line_count(before)
                        &&& t.position.column == match last_line(before) {
                            Some(l) => l.len() + 1,
                            None => 1,
                        }
                    })
                },
                Err(e) => {
                    &&& res == current_pos + 1
                    &&& final(self).tokens@ == old(self).tokens@
                    &&& final(self).errors@.len() == old(self).errors@.len() + 1
                    &&& final(self).errors@.take(old(self).errors@.len() as int) == old(self).errors@
                    &&& ({
                        let (e2, p) = final(self).errors@.last();
                        &&& e2 == e
                        &&& p.path@ == path@
                        &&& p.start == current_pos
                        &&& p.end == current_pos + 1
                        &&& p.line == 0
                        &&& p.column == 0
                    })
                },
            },
    {
        match lexeme {
            Ok((g, span)) => {
                let position = Position::from_span(path.clone(), span, input);
                let end = span.1;
                self.add_token(Token::new(g, position));
                proof {
                    assert(self.tokens@.take(old(self).tokens@.len() as int) =~= old(self).tokens@);
                }
                end
            },
            Err(e) => {
                let position = Position::new(path.clone(), current_pos, current_pos + 1, 0, 0);
                self.add_error(e, position);
                proof {
                    assert(self.errors@.take(old(self).errors@.len() as int) =~= old(self).errors@);
                }
                current_pos + 1
            },
        }
    }

    /// Ends the tokens with the end-of-input token `eof`, positioned as
    /// the token recognizer's end marker: start at the input's length, end
    /// 0, line 0, column at the input's length.
    pub fn take_end(&mut self, eof: G, path: &String, input: &str)
        ensures
            final(self).errors@ == old(self).errors@,
            final(self).tokens@.len() == old(self).tokens@.len() + 1,
            final(self).tokens@.take(old(self).tokens@.len() as int) == old(self).tokens@,
            ({
                let t = final(self).tokens@.last();
                &&& t.t_gut == eof
                &&& t.position.path@ == path@
                &&& t.position.start == input.spec_bytes().len() as usize
                &&& t.position.end == 0
                &&& t.position.line == 0
                &&& t.position.column == input.spec_bytes().len() as usize
            }),
    {
        let n = input.len();
        self.add_token(Token::new(eof, Position::new(path.clone(), n, 0, 0, n)));
        proof {
            assert(self.tokens@.take(old(self).tokens@.len() as int) =~= old(self).tokens@);
        }
    }
}

/// The operators of the language.
#[derive(Debug, Clone, Copy, PartialEq, Eq, Structural)]
pub enum Operator {
    Add,
    Sub,
    Mul,
    Div,
    Mod,
    Pow,
    IntDiv,
    BitAnd,
    BitOr,
    BitXor,
    BitNot,
    BitShiftLeft,
    BitShiftRight,
    Assign,
    Eq,
    Teq,
    Neq,
    Gt,
    Lt,
    Gte,
    Lte,
    And,
    Or,
    Question,
    Exclamation,
    Colon,
    DoubleColon,
    Dot,
    Arrow,
    DoubleArrow,
    AddAssign,
    SubAssign,
    MulAssign,
    DivAssign,
    ModAssign,
    BitAndAssign,
    BitOrAssign,
    BitXorAssign,
    BitShiftLeftAssign,
    BitShiftRightAssign,
    Increment,
    Decrement,
    Comma,
}

/// The brackets of the language.
#[derive(Debug, Clone, Copy, PartialEq, Eq, Structural)]
pub enum Paren {
    RoundOpen,
    RoundClose,
    SquareOpen,
    SquareClose,
    CurlyOpen,
    CurlyClose,
}

/// The keywords of the language.
#[derive(Debug, Clone, Copy, PartialEq, Eq, Structural)]
pub enum Keyword {
    If,
    Else,
    Match,
    Case,
    Then,
    Do,
    While,
    For,
    In,
    Break,
    Continue,
    Return,
    As,
    Module,
    Use,
    Export,
    Let,
    And,
    Try,
    Catch,
    Finally,
    Throw,
    Shape,
    BindDef,
    Operation,
    Coerce,
    Prefix,
    Infix,
    Postfix,
}

} // verus!
