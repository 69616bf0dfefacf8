//! A lexer for the textual rule notation.
//!
//! The grammar the notation follows:
//!
//! ```text
//! Rule              = RedexPattern -> ContractumPattern [",", Redirection]
//!                   | RedexPattern -> Redirection;
//! RedexPattern      = Graph;
//! ContractumPattern = Graph;
//! Graph             = [Nodeid ':'] Node {',' NodeDef};
//! Node              = Symbol {Arg}   | EmptyNode;
//! Symbol            = Constant;
//! Arg               = Nodeid
//!                   | [Nodeid ':'] Symbol
//!                   | [Nodeid ':'] '(' Node ')';
//! EmptyNode         = 'nil';
//! NodeDef           = Nodeid ':' Node;
//! Redirection       = Nodeid ':=' Nodeid | Nodeid;
//! ```
//!
//! [`SimpleLexer`] turns a character sequence into [`Token`]s: words
//! that start with an ASCII uppercase letter become symbols, other
//! words become node ids, and the punctuation becomes the operator
//! tokens.  An operator that ends a word is held back and handed out
//! on the following call.

use vstd::prelude::*;

verus! {

/// One token of the rule notation.
#[derive(Debug, PartialEq)]
pub enum Token<Id, Val> {
    ArrowShaft,
    ArrowTip,
    Comma,
    Colon,
    Open,
    Close,
    NodeId(Id),
    Symbol(Val),
    Empty,
    Redirect,
}

/// The token as data: words reduced to their character sequences.
pub open spec fn token_model(t: Token<String, String>) -> Token<Seq<char>, Seq<char>> {
    match t {
        Token::ArrowShaft => Token::ArrowShaft,
        Token::ArrowTip => Token::ArrowTip,
        Token::Comma => Token::Comma,
        Token::Colon => Token::Colon,
        Token::Open => Token::Open,
        Token::Close => Token::Close,
        Token::NodeId(s) => Token::NodeId(s@),
        Token::Symbol(s) => Token::Symbol(s@),
        Token::Empty => Token::Empty,
        Token::Redirect => Token::Redirect,
    }
}

/// Characters that separate words and are otherwise skipped.
pub open spec fn lex_whitespace(c: char) -> bool {
    c == ' ' || c == '\n' || c == '\r' || c == '\t'
}

/// The single-character operator tokens.
pub open spec fn operator_token(c: char) -> Option<Token<Seq<char>, Seq<char>>> {
    if c == '-' {
        Some(Token::ArrowShaft)
    } else if c == '>' {
        Some(Token::ArrowTip)
    } else if c == '(' {
        Some(Token::Open)
    } else if c == ')' {
        Some(Token::Close)
    } else if c == ':' {
        Some(Token::Colon)
    } else if c == '_' {
        Some(Token::Empty)
    } else if c == '=' {
        Some(Token::Redirect)
    } else {
        None
    }
}

/// Characters that open a symbol word rather than a node-id word.
pub open spec fn symbol_start(c: char) -> bool {
    'A' <= c && c <= 'Z'
}

/// The word token for an accumulated character sequence.
pub open spec fn word_token(acc: Seq<char>, is_symbol: bool) -> Token<Seq<char>, Seq<char>> {
    if is_symbol {
        Token::Symbol(acc)
    } else {
        Token::NodeId(acc)
    }
}

/// What scanning a word from position `pos` yields, with `acc` the
/// characters read so far: the word's token, the operator token that
/// ended the word (if one did, to be handed out next), and the
/// position after the scan.
pub open spec fn scan_word_spec(input: Seq<char>, pos: int, acc: Seq<char>, is_symbol: bool)
    -> (Token<Seq<char>, Seq<char>>, Option<Token<Seq<char>, Seq<char>>>, int)
    decreases input.len() - pos,
{
    if pos < 0 || pos >= input.len() {
        (word_token(acc, is_symbol), None, if pos < 0 { pos } else { input.len() as int })
    } else {
        let c = input[pos];
        if lex_whitespace(c) {
            (word_token(acc, is_symbol), None, pos + 1)
        } else if operator_token(c) is Some {
            (word_token(acc, is_symbol), operator_token(c), pos + 1)
        } else {
            scan_word_spec(input, pos + 1, acc.push(c), is_symbol)
        }
    }
}

/// What scanning for the next token from position `pos` yields:
/// `None` at the end of the input, or the token, a possible held-back
/// operator token, and the position after the scan.
pub open spec fn scan_spec(input: Seq<char>, pos: int)
    -> (Option<(Token<Seq<char>, Seq<char>>, Option<Token<Seq<char>, Seq<char>>>)>, int)
    decreases input.len() - pos,
{
    if pos < 0 || pos >= input.len() {
        (None, if pos < 0 { pos } else { input.len() as int })
    } else {
        let c = input[pos];
        if lex_whitespace(c) {
            scan_spec(input, pos + 1)
        } else if operator_token(c) is Some {
            (Some((operator_token(c).unwrap(), None)), pos + 1)
        } else {
            let (t, pend, p2) = scan_word_spec(
                input,
                pos + 1,
                Seq::empty().push(c),
                symbol_start(c),
            );
            (Some((t, pend)), p2)
        }
    }
}

/// How a character steers the lexer.
enum CharType {
    Whitespace,
    Operator(Token<String, String>),
    SymbolStart,
    SymbolChar,
}

/// A lexer over a character sequence.
pub struct SimpleLexer {
    input: Vec<char>,
    pos: usize,
    pending: Option<Token<String, String>>,
}

impl SimpleLexer {
    /// The characters being lexed.
    pub closed spec fn input_view(self) -> Seq<char> {
        self.input@
    }

    /// The position of the next unread character.
    pub closed spec fn pos_of(self) -> int {
        self.pos as int
    }

    /// The held-back operator token, if the previous word was ended
    /// by one.
    pub closed spec fn pending_model(self) -> Option<Token<Seq<char>, Seq<char>>> {
        match self.pending {
            Some(t) => Some(token_model(t)),
            None => None,
        }
    }

    /// A lexer at the start of the given input.
    pub fn new(input: Vec<char>) -> (s: SimpleLexer)
        ensures
            s.input_view() == input@,
            s.pos_of() == 0,
            s.pending_model() is None,
    {
        SimpleLexer { input, pos: 0, pending: None }
    }

    /// Appends one character to an accumulated word.
    /// Relies on `String::push`: appends exactly the one character.
    #[verifier::external_body]
    fn push(s: String, c: char) -> (r: String)
        ensures
            r@ == s@.push(c),
    {
        let mut s = s;
        s.push(c);
        s
    }

    /// Wraps a finished word as a symbol token.
    fn sym(s: String) -> (t: Token<String, String>)
        ensures
            t == Token::<String, String>::Symbol(s),
    {
        Token::Symbol(s)
    }

    /// Wraps a finished word as a node-id token.
    fn id(s: String) -> (t: Token<String, String>)
        ensures
            t == Token::<String, String>::NodeId(s),
    {
        Token::NodeId(s)
    }

    /// Sorts a character into whitespace, an operator, the start of a
    /// symbol word, or an ordinary word character.
    fn classify(c: char) -> (r: CharType)
        ensures
            r is Whitespace <==> lex_whitespace(c),
            r is Operator <==> operator_token(c) is Some,
            r matches CharType::Operator(t) ==> token_model(t) == operator_token(c).unwrap(),
            r is SymbolStart <==> !lex_whitespace(c) && operator_token(c) is None
                && symbol_start(c),
            r is SymbolChar <==> !lex_whitespace(c) && operator_token(c) is None
                && !symbol_start(c),
    {
        match c {
            ' ' => CharType::Whitespace,
            '\n' => CharType::Whitespace,
            '\r' => CharType::Whitespace,
            '\t' => CharType::Whitespace,
            '-' => CharType::Operator(Token::ArrowShaft),
            '>' => CharType::Operator(Token::ArrowTip),
            '(' => CharType::Operator(Token::Open),
            ')' => CharType::Operator(Token::Close),
            ':' => CharType::Operator(Token::Colon),
            '_' => CharType::Operator(Token::Empty),
            '=' => CharType::Operator(Token::Redirect),
            _ => if 'A' <= c && c <= 'Z' {
                CharType::SymbolStart
            } else {
                CharType::SymbolChar
            },
        }
    }

    /// Scans the rest of a word whose characters so far are `acc`,
    /// hands back its token, and holds back the operator token that
    /// ended the word, if one did.
    fn scan_word(&mut self, acc: String, is_symbol: bool) -> (r: Token<String, String>)
        requires
            old(self).pending_model() is None,
            0 <= old(self).pos_of() <= old(self).input_view().len(),
        ensures
            final(self).input_view() == old(self).input_view(),
            0 <= final(self).pos_of() <= final(self).input_view().len(),
            ({
                let (t, pend, p2) = scan_word_spec(
                    old(self).input_view(),
                    old(self).pos_of(),
                    acc@,
                    is_symbol,
                );
                token_model(r) == t && final(self).pending_model() == pend
                    && final(self).pos_of() == p2
            }),
        decreases old(self).input_view().len() - old(self).pos_of(),
    {
        let mut word = acc;
        let n = self.input.len();
        while self.pos < n
            invariant
                n == self.input@.len(),
                self.pos <= n,
                self.input@ == old(self).input_view(),
                self.pending_model() is None,
                scan_word_spec(self.input@, old(self).pos_of(), acc@, is_symbol)
                    == scan_word_spec(self.input@, self.pos as int, word@, is_symbol),
            decreases n - self.pos,
        {
            let c = self.input[self.pos];
            let ghost p0 = self.pos as int;
            let ghost accg = word@;
            match Self::classify(c) {
                CharType::Whitespace => {
                    proof {
                        assert(scan_word_spec(self.input@, p0, accg, is_symbol)
                            == (word_token(accg, is_symbol),
                                None::<Token<Seq<char>, Seq<char>>>, p0 + 1));
                    }
                    self.pos = self.pos + 1;
                    return if is_symbol {
                        Self::sym(word)
                    } else {
                        Self::id(word)
                    };
                },
                CharType::Operator(t) => {
                    proof {
                        assert(scan_word_spec(self.input@, p0, accg, is_symbol)
                            == (word_token(accg, is_symbol), operator_token(c), p0 + 1));
                    }
                    self.pos = self.pos + 1;
                    self.pending = Some(t);
                    return if is_symbol {
                        Self::sym(word)
                    } else {
                        Self::id(word)
                    };
                },
                _ => {
                    proof {
                        assert(scan_word_spec(self.input@, p0, accg, is_symbol)
                            == scan_word_spec(self.input@, p0 + 1, accg.push(c), is_symbol));
                    }
                    word = Self::push(word, c);
                    self.pos = self.pos + 1;
                },
            }
        }
        if is_symbol {
            Self::sym(word)
        } else {
            Self::id(word)
        }
    }

    /// The next token of the input, or `None` once it is exhausted:
    /// first any held-back operator token, then whatever a scan from
    /// the current position finds.
    pub fn next(&mut self) -> (r: Option<Token<String, String>>)
        requires
            0 <= old(self).pos_of() <= old(self).input_view().len(),
        ensures
            final(self).input_view() == old(self).input_view(),
            0 <= final(self).pos_of() <= final(self).input_view().len(),
            match old(self).pending_model() {
                Some(t) => r matches Some(rt) && token_model(rt) == t
                    && final(self).pending_model() is None
                    && final(self).pos_of() == old(self).pos_of(),
                None => ({
                    let (res, p2) = scan_spec(old(self).input_view(), old(self).pos_of());
                    final(self).pos_of() == p2 && match res {
                        Some((t, pend)) => r matches Some(rt) && token_model(rt) == t
                            && final(self).pending_model() == pend,
                        None => r is None && final(self).pending_model() is None,
                    }
                }),
            },
    {
        let held = self.pending.take();
        match held {
            Some(t) => {
                return Some(t);
            },
            None => {},
        }
        let n = self.input.len();
        while self.pos < n
            invariant
                n == self.input@.len(),
                self.pos <= n,
                self.input@ == old(self).input_view(),
                self.pending_model() is None,
                old(self).pending_model() is None,
                scan_spec(self.input@, old(self).pos_of())
                    == scan_spec(self.input@, self.pos as int),
            decreases n - self.pos,
        {
            let c = self.input[self.pos];
            let ghost p0 = self.pos as int;
            match Self::classify(c) {
                CharType::Whitespace => {
                    proof {
                        assert(scan_spec(self.input@, p0) == scan_spec(self.input@, p0 + 1));
                    }
                    self.pos = self.pos + 1;
                },
                CharType::Operator(t) => {
                    proof {
                        assert(scan_spec(self.input@, p0)
                            == (Some((operator_token(c).unwrap(),
                                None::<Token<Seq<char>, Seq<char>>>)), p0 + 1));
                    }
                    self.pos = self.pos + 1;
                    return Some(t);
                },
                CharType::SymbolStart => {
                    proof {
                        assert(scan_spec(self.input@, p0) == ({
                            let (t2, pend, p2) = scan_word_spec(
                                self.input@,
                                p0 + 1,
                                Seq::empty().push(c),
                                true,
                            );
                            (Some((t2, pend)), p2)
                        }));
                    }
                    self.pos = self.pos + 1;
                    let word = Self::push(String::new(), c);
                    proof {
                        assert(word@ == Seq::empty().push(c));
                    }
                    let w = self.scan_word(word, true);
                    return Some(w);
                },
                CharType::SymbolChar => {
                    proof {
                        assert(scan_spec(self.input@, p0) == ({
                            let (t2, pend, p2) = scan_word_spec(
                                self.input@,
                                p0 + 1,
                                Seq::empty().push(c),
                                false,
                            );
                            (Some((t2, pend)), p2)
                        }));
                    }
                    self.pos = self.pos + 1;
                    let word = Self::push(String::new(), c);
                    proof {
                        assert(word@ == Seq::empty().push(c));
                    }
                    let w = self.scan_word(word, false);
                    return Some(w);
                },
            }
        }
        None
    }
}

} // verus!
