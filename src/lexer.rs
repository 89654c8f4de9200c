use vstd::prelude::*;
use vstd::string::{StringExecFns, StringSliceAdditionalSpecFns};
use crate::text::{decimal, push_decimal};

verus! {

/// One scanned symbol and the location just after it.
pub type TokenData = (Token, TokenLoc);

/// The symbols of a source text, in source order.
pub type TokenList = Vec<TokenData>;

/// The eight symbols of the language: `+ - < > [ ] , .`
#[derive(Debug, Clone, Copy, PartialEq, Eq, Structural)]
pub enum Token {
    Plus,
    Minus,
    Less,
    Greater,
    LBracket,
    RBracket,
    Comma,
    Dot,
}

/// The symbol that a byte stands for, if any.
pub open spec fn token_of(ch: u8) -> Option<Token> {
    if ch == 43 {
        Some(Token::Plus)
    } else if ch == 45 {
        Some(Token::Minus)
    } else if ch == 60 {
        Some(Token::Less)
    } else if ch == 62 {
        Some(Token::Greater)
    } else if ch == 91 {
        Some(Token::LBracket)
    } else if ch == 93 {
        Some(Token::RBracket)
    } else if ch == 44 {
        Some(Token::Comma)
    } else if ch == 46 {
        Some(Token::Dot)
    } else {
        None
    }
}

impl Token {
    /// Reads `+ - < > [ ] , .` (bytes 43, 45, 60, 62, 91, 93, 44, 46); any other byte is no symbol.
    pub fn from_u8(ch: u8) -> (r: Option<Self>)
        ensures
            r == token_of(ch),
    {
        match ch {
            43 => Some(Token::Plus),
            45 => Some(Token::Minus),
            60 => Some(Token::Less),
            62 => Some(Token::Greater),
            91 => Some(Token::LBracket),
            93 => Some(Token::RBracket),
            44 => Some(Token::Comma),
            46 => Some(Token::Dot),
            _ => None,
        }
    }

    pub open spec fn is_loop(self) -> bool {
        self == Token::LBracket || self == Token::RBracket
    }

    pub fn is_loop_token(&self) -> (r: bool)
        ensures
            r == self.is_loop(),
    {
        matches!(self, Token::LBracket | Token::RBracket)
    }

    /// Everything but the brackets is folded into counted instructions.
    pub fn is_groupable(&self) -> (r: bool)
        ensures
            r == !self.is_loop(),
    {
        !self.is_loop_token()
    }
}

/// A position in the source: the line (from 1) and the column (from 0).
#[derive(Debug, Clone, Copy, PartialEq, Eq, Structural)]
pub struct TokenLoc {
    pub col: usize,
    pub line: usize,
}

/// The location at the start of a text.
pub open spec fn start_loc() -> TokenLoc {
    TokenLoc { col: 0, line: 1 }
}

/// The location reached after scanning all of `s` from the start.
pub open spec fn loc_after(s: Seq<u8>) -> TokenLoc
    decreases s.len(),
{
    if s.len() == 0 {
        start_loc()
    } else {
        loc_after(s.drop_last()).advance(s.last())
    }
}

/// The tokens of `s`: one per symbol byte, with the location just after that byte.
pub open spec fn lex(s: Seq<u8>) -> Seq<TokenData>
    decreases s.len(),
{
    if s.len() == 0 {
        Seq::empty()
    } else {
        let prev = lex(s.drop_last());
        match token_of(s.last()) {
            Some(t) => prev.push((t, loc_after(s))),
            None => prev,
        }
    }
}

/// The symbols of `s`, in order.
pub open spec fn symbols(s: Seq<u8>) -> Seq<Token>
    decreases s.len(),
{
    if s.len() == 0 {
        Seq::empty()
    } else {
        let prev = symbols(s.drop_last());
        match token_of(s.last()) {
            Some(t) => prev.push(t),
            None => prev,
        }
    }
}

/// The bytes of `s` that are symbols.
pub open spec fn symbol_bytes(s: Seq<u8>) -> Seq<u8> {
    s.filter(|ch: u8| token_of(ch).is_some())
}

/// Line and column grow by at most one per byte scanned.
pub proof fn lemma_loc_bound(s: Seq<u8>)
    requires
        s.len() < usize::MAX,
    ensures
        loc_after(s).line >= 1,
        loc_after(s).line - 1 + loc_after(s).col <= s.len(),
    decreases s.len(),
{
    if s.len() > 0 {
        lemma_loc_bound(s.drop_last());
    }
}

/// The symbols of the tokens, in order.
pub open spec fn token_symbols(d: Seq<TokenData>) -> Seq<Token> {
    d.map_values(|x: TokenData| x.0)
}

/// The symbol of each byte of a sequence of symbol bytes.
pub open spec fn symbols_of_bytes(b: Seq<u8>) -> Seq<Token> {
    b.map_values(|ch: u8| token_of(ch).unwrap())
}

/// Scanning ignores every byte that is no symbol: the symbols of the tokens are the
/// recognised bytes of the text in order, and they are the same whether or not the
/// other bytes are taken out first.
pub proof fn lemma_lex_ignores_other_bytes(s: Seq<u8>)
    ensures
        token_symbols(lex(s)) == symbols_of_bytes(symbol_bytes(s)),
        token_symbols(lex(s)) == token_symbols(lex(symbol_bytes(s))),
{
    lemma_symbols_of_filtered(s);
    lemma_symbols_of_filtered(symbol_bytes(s));
    assert(token_symbols(lex(s)) =~= lex(s).map_values(|d: TokenData| d.0));
    assert(token_symbols(lex(symbol_bytes(s))) =~= lex(symbol_bytes(s)).map_values(
        |d: TokenData| d.0,
    ));
    assert(symbols_of_bytes(symbol_bytes(s)) =~= symbol_bytes(s).map_values(
        |ch: u8| token_of(ch).unwrap(),
    ));
}

proof fn lemma_symbols_of_filtered(s: Seq<u8>)
    ensures
        symbols(s) == symbols(symbol_bytes(s)),
        symbols(symbol_bytes(s)) == symbol_bytes(s).map_values(|ch: u8| token_of(ch).unwrap()),
        lex(s).map_values(|d: TokenData| d.0) == symbols(s),
    decreases s.len(),
{
    reveal_with_fuel(Seq::filter, 1);
    if s.len() > 0 {
        let p = s.drop_last();
        lemma_symbols_of_filtered(p);
        assert(s.filter(|ch: u8| token_of(ch).is_some()) == {
            let f = p.filter(|ch: u8| token_of(ch).is_some());
            if token_of(s.last()).is_some() { f.push(s.last()) } else { f }
        });
        let fp = symbol_bytes(p);
        if token_of(s.last()).is_some() {
            let fs = fp.push(s.last());
            assert(fs.drop_last() == fp);
            assert(fs.map_values(|ch: u8| token_of(ch).unwrap()) =~= fp.map_values(
                |ch: u8| token_of(ch).unwrap(),
            ).push(token_of(s.last()).unwrap()));
            assert(lex(s).map_values(|d: TokenData| d.0) =~= lex(p).map_values(
                |d: TokenData| d.0,
            ).push(token_of(s.last()).unwrap()));
        }
    } else {
        assert(symbol_bytes(s) =~= Seq::<u8>::empty());
        assert(symbols(symbol_bytes(s)).len() == 0);
        assert(lex(s).map_values(|d: TokenData| d.0) =~= Seq::<Token>::empty());
        assert(symbol_bytes(s).map_values(|ch: u8| token_of(ch).unwrap()) =~= Seq::<Token>::empty());
    }
}

impl TokenLoc {
    /// The location after scanning `ch`: a newline starts the next line at column 0,
    /// any other byte moves one column on.
    pub open spec fn advance(self, ch: u8) -> TokenLoc {
        if ch == 10 {
            TokenLoc { col: 0, line: (self.line + 1) as usize }
        } else {
            TokenLoc { col: (self.col + 1) as usize, line: self.line }
        }
    }

    pub fn new() -> (r: Self)
        ensures
            r == start_loc(),
    {
        TokenLoc { col: 0, line: 1 }
    }

    pub fn update_location(&mut self, ch: u8)
        requires
            old(self).line < usize::MAX,
            old(self).col < usize::MAX,
        ensures
            *final(self) == old(self).advance(ch),
    {
        if ch == 10 {
            self.inc_line();
        } else {
            self.inc_col();
        }
    }

    pub fn line(&self) -> (r: usize)
        ensures
            r == self.line,
    {
        self.line
    }

    pub fn col(&self) -> (r: usize)
        ensures
            r == self.col,
    {
        self.col
    }

    pub fn from_col_line(col: usize, line: usize) -> (r: Self)
        ensures
            r.col == col,
            r.line == line,
    {
        TokenLoc { col, line }
    }

    /// The text form of a location: `line:col`.
    pub open spec fn text(self) -> Seq<char> {
        decimal(self.line as nat) + seq![':'] + decimal(self.col as nat)
    }

    pub fn to_string(&self) -> (r: String)
        ensures
            r@ == self.text(),
    {
        let mut s = String::new();
        push_decimal(&mut s, self.line);
        proof {
            reveal_strlit(":");
        }
        s.append(":");
        push_decimal(&mut s, self.col);
        assert(s@ =~= self.text());
        s
    }

    fn inc_line(&mut self)
        requires
            old(self).line < usize::MAX,
        ensures
            final(self).line == old(self).line + 1,
            final(self).col == 0,
    {
        self.line = self.line + 1;
        self.col = 0;
    }

    fn inc_col(&mut self)
        requires
            old(self).col < usize::MAX,
        ensures
            final(self).line == old(self).line,
            final(self).col == old(self).col + 1,
    {
        self.col = self.col + 1;
    }
}

/// A scanner over the bytes of a source text.
#[derive(Debug)]
pub struct Lexer<'a> {
    src: &'a [u8],
    pos: usize,
    loc: TokenLoc,
}

impl<'a> Lexer<'a> {
    /// The bytes being scanned.
    pub closed spec fn source(&self) -> Seq<u8> {
        self.src@
    }

    /// The bytes scanned so far.
    pub closed spec fn scanned(&self) -> Seq<u8> {
        self.src@.subrange(0, self.pos as int)
    }

    /// The location that scanning has reached.
    pub closed spec fn location(&self) -> TokenLoc {
        self.loc
    }

    pub closed spec fn wf(&self) -> bool {
        &&& self.pos <= self.src@.len()
        &&& self.loc == loc_after(self.src@.subrange(0, self.pos as int))
    }

    pub fn from_bytes(src: &'a [u8]) -> (r: Self)
        ensures
            r.wf(),
            r.source() == src@,
            r.scanned() == Seq::<u8>::empty(),
            r.location() == start_loc(),
    {
        let r = Lexer { src, pos: 0, loc: TokenLoc::new() };
        assert(r.src@.subrange(0, 0) =~= Seq::<u8>::empty());
        r
    }

    pub fn new(src: &'a str) -> (r: Self)
        ensures
            r.wf(),
            r.source() == src.spec_bytes(),
            r.scanned() == Seq::<u8>::empty(),
            r.location() == start_loc(),
    {
        Self::from_bytes(src.as_bytes())
    }

    pub fn get_location(&self) -> (r: TokenLoc)
        ensures
            r == self.location(),
    {
        self.loc
    }

    /// Scans the rest of the source; with the tokens of what was scanned before, the
    /// result makes up the tokens of the whole source.
    pub fn parse(self) -> (r: TokenList)
        requires
            self.wf(),
            self.source().len() < usize::MAX,
        ensures
            lex(self.scanned()) + r@ == lex(self.source()),
            self.scanned().len() == 0 ==> token_symbols(r@) == symbols_of_bytes(
                symbol_bytes(self.source()),
            ),
    {
        let mut lx = self;
        let ghost s = lx.src@;
        let ghost before = lex(s.subrange(0, lx.pos as int));
        let mut out: TokenList = Vec::new();
        let n = lx.src.len();
        while lx.pos < n
            invariant
                lx.src@ == s,
                n == s.len(),
                n < usize::MAX,
                lx.wf(),
                before + out@ == lex(s.subrange(0, lx.pos as int)),
            decreases n - lx.pos,
        {
            let ch = lx.src[lx.pos];
            let ghost p0 = s.subrange(0, lx.pos as int);
            let ghost p1 = s.subrange(0, lx.pos + 1);
            proof {
                lemma_loc_bound(p0);
                assert(p1.drop_last() == p0);
                assert(p1.last() == ch);
            }
            let item = lx.get_token_with_location(ch);
            if let Some(d) = item {
                out.push(d);
            }
            proof {
                assert(before + out@ =~= lex(p1));
            }
        }
        assert(s.subrange(0, n as int) == s);
        proof {
            lemma_lex_ignores_other_bytes(s);
            if before.len() == 0 {
                assert(out@ =~= lex(s));
            }
        }
        out
    }

    fn inc_pos(&mut self)
        requires
            old(self).pos < usize::MAX,
        ensures
            final(self).pos == old(self).pos + 1,
            final(self).src == old(self).src,
            final(self).loc == old(self).loc,
    {
        self.pos = self.pos + 1;
    }

    fn get_token_with_location(&mut self, ch: u8) -> (r: Option<TokenData>)
        requires
            old(self).pos < old(self).src@.len(),
            old(self).src@.len() < usize::MAX,
            old(self).loc.line < usize::MAX,
            old(self).loc.col < usize::MAX,
        ensures
            final(self).src == old(self).src,
            final(self).pos == old(self).pos + 1,
            final(self).loc == old(self).loc.advance(ch),
            r == (match token_of(ch) {
                Some(t) => Some((t, final(self).loc)),
                None => None,
            }),
    {
        self.inc_pos();
        self.loc.update_location(ch);
        match Token::from_u8(ch) {
            Some(tok) => Some((tok, self.get_location())),
            None => None,
        }
    }
}

/// Scans a source text into its tokens.
pub fn parse(src: &str) -> (r: TokenList)
    requires
        src.spec_bytes().len() < usize::MAX,
    ensures
        r@ == lex(src.spec_bytes()),
        token_symbols(r@) == symbols_of_bytes(symbol_bytes(src.spec_bytes())),
{
    let lexer = Lexer::new(src);
    let r = lexer.parse();
    assert(lex(Seq::<u8>::empty()) + r@ == r@);
    proof {
        lemma_lex_ignores_other_bytes(src.spec_bytes());
    }
    r
}

} // verus!
