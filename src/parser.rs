use vstd::prelude::*;
use crate::error::BfError;
use crate::lexer::{Token, TokenData, TokenList, TokenLoc};
use crate::opcodes::{op_of, OpCode, OpCodeType};

verus! {

/// A compiled program.
pub type Program = Vec<OpCode>;

/// The symbols of a token list.
pub open spec fn syms(t: Seq<TokenData>) -> Seq<Token> {
    t.map_values(|d: TokenData| d.0)
}

/// How a symbol changes the bracket depth.
pub open spec fn delta(k: Token) -> int {
    if k == Token::LBracket {
        1
    } else if k == Token::RBracket {
        -1
    } else {
        0
    }
}

/// Opening minus closing brackets among the first `n` symbols.
pub open spec fn depth(ks: Seq<Token>, n: int) -> int
    decreases n,
{
    if n <= 0 {
        0
    } else {
        depth(ks, n - 1) + delta(ks[n - 1])
    }
}

/// The `[` at `k` is still open after the first `n` symbols: the depth never falls back.
pub open spec fn open_at(ks: Seq<Token>, k: int, n: int) -> bool {
    forall|m: int| k + 1 <= m <= n ==> #[trigger] depth(ks, m) >= depth(ks, k) + 1
}

/// The `[` at `k` and the `]` at `j` are partners: what lies between them is balanced.
pub open spec fn matched(ks: Seq<Token>, k: int, j: int) -> bool {
    &&& 0 <= k < j < ks.len()
    &&& ks[k] == Token::LBracket
    &&& ks[j] == Token::RBracket
    &&& depth(ks, j) == depth(ks, k + 1)
    &&& forall|m: int| k + 1 <= m <= j ==> #[trigger] depth(ks, m) >= depth(ks, k + 1)
}

/// The end of the run of `tok` that starts at `j`.
pub open spec fn run_from(s: Seq<Token>, tok: Token, j: int) -> int
    decreases s.len() - j,
{
    if 0 <= j < s.len() && s[j] == tok {
        run_from(s, tok, j + 1)
    } else {
        j
    }
}

/// The end of the instruction that starts at `i`: a bracket alone, any other symbol
/// with all that repeat it.
pub open spec fn run_end(s: Seq<Token>, i: int) -> int {
    if s[i].is_loop() {
        i + 1
    } else {
        run_from(s, s[i], i + 1)
    }
}

/// The instructions of the symbols from `i` on: each symbol with its repeat count.
pub open spec fn fold_from(s: Seq<Token>, i: int) -> Seq<(Token, nat)>
    decreases s.len() - i,
{
    if 0 <= i < s.len() && i < run_end(s, i) <= s.len() {
        seq![(s[i], (run_end(s, i) - i) as nat)] + fold_from(s, run_end(s, i))
    } else {
        Seq::empty()
    }
}

/// The folded instructions of a symbol sequence.
pub open spec fn folded(s: Seq<Token>) -> Seq<(Token, nat)> {
    fold_from(s, 0)
}

/// The symbol of each folded instruction.
pub open spec fn fkinds(s: Seq<Token>) -> Seq<Token> {
    folded(s).map_values(|p: (Token, nat)| p.0)
}

/// `p` is the program of `s`: one instruction per run, each count its run's length,
/// each bracket pointing at its partner.
pub open spec fn compiles_to(s: Seq<Token>, p: Seq<OpCode>) -> bool {
    let f = folded(s);
    let ks = fkinds(s);
    &&& p.len() == f.len()
    &&& forall|k: int|
        0 <= k < p.len() ==> {
            &&& (#[trigger] p[k]).ty == op_of(f[k].0)
            &&& !f[k].0.is_loop() ==> p[k].data == f[k].1
            &&& f[k].0 == Token::LBracket ==> matched(ks, k, p[k].data as int)
            &&& f[k].0 == Token::RBracket ==> matched(ks, p[k].data as int, k)
        }
}

/// No prefix of `s` closes more brackets than it opens.
pub open spec fn never_unmatched_close(s: Seq<Token>) -> bool {
    forall|m: int| 0 <= m <= s.len() ==> #[trigger] depth(s, m) >= 0
}

/// The `]` at `i` is the first one with no `[` to close.
pub open spec fn first_unmatched_close(s: Seq<Token>, i: int) -> bool {
    &&& 0 <= i < s.len()
    &&& s[i] == Token::RBracket
    &&& depth(s, i + 1) < 0
    &&& forall|m: int| 0 <= m <= i ==> #[trigger] depth(s, m) >= 0
}

/// The `[` at `i` is the innermost one still open at the end of `s`.
pub open spec fn innermost_open(s: Seq<Token>, i: int) -> bool {
    &&& 0 <= i < s.len()
    &&& s[i] == Token::LBracket
    &&& depth(s, i) == depth(s, s.len() as int) - 1
    &&& open_at(s, i, s.len() as int)
}

/// What compiling the token list `t` gives: its program, or the first bracket error.
pub open spec fn parse_result(t: Seq<TokenData>, r: Result<Program, BfError>) -> bool {
    let s = syms(t);
    &&& (r is Ok <==> never_unmatched_close(s) && depth(s, s.len() as int) == 0)
    &&& r matches Ok(p) ==> compiles_to(s, p@)
    &&& r matches Err(e) ==> match e {
        BfError::UnexpectedClose { at } => exists|i: int|
            first_unmatched_close(s, i) && (#[trigger] t[i]).1 == at,
        BfError::Unclosed { at, count } => {
            &&& never_unmatched_close(s)
            &&& count == depth(s, s.len() as int)
            &&& exists|i: int| innermost_open(s, i) && (#[trigger] t[i]).1 == at
        },
        _ => false,
    }
}

proof fn lemma_run_from(s: Seq<Token>, tok: Token, j: int)
    requires
        0 <= j <= s.len(),
    ensures
        j <= run_from(s, tok, j) <= s.len(),
        !tok.is_loop() ==> depth(s, run_from(s, tok, j)) == depth(s, j),
        !tok.is_loop() ==> forall|m: int|
            j <= m <= run_from(s, tok, j) ==> #[trigger] depth(s, m) == depth(s, j),
    decreases s.len() - j,
{
    if j < s.len() && s[j] == tok {
        lemma_run_from(s, tok, j + 1);
        assert(depth(s, j + 1) == depth(s, j) + delta(s[j]));
    }
}

proof fn lemma_fold_step(s: Seq<Token>, i: int)
    requires
        0 <= i < s.len(),
    ensures
        i < run_end(s, i) <= s.len(),
        fold_from(s, i) == seq![(s[i], (run_end(s, i) - i) as nat)] + fold_from(s, run_end(s, i)),
{
    if !s[i].is_loop() {
        lemma_run_from(s, s[i], i + 1);
    }
}

/// Turns a token list into a program.
pub struct Parser {
    src: TokenList,
    src_pos: usize,
    lbracket_locations: Vec<(TokenLoc, usize)>,
    opcode_count: usize,
    program: Program,
    open_tokens: Ghost<Seq<int>>,
}

impl Parser {
    pub closed spec fn tokens(&self) -> Seq<TokenData> {
        self.src@
    }

    pub closed spec fn position(&self) -> usize {
        self.src_pos
    }

    pub closed spec fn open_brackets(&self) -> Seq<(TokenLoc, usize)> {
        self.lbracket_locations@
    }

    /// Where in the token list each open `[` stands.
    pub closed spec fn open_token_indices(&self) -> Seq<int> {
        self.open_tokens@
    }

    pub closed spec fn emitted(&self) -> usize {
        self.opcode_count
    }

    pub closed spec fn output(&self) -> Seq<OpCode> {
        self.program@
    }

    /// The state of a compilation that has emitted `prog`, with all it needs to go on.
    pub closed spec fn inv(&self, prog: Seq<OpCode>) -> bool {
        let t = self.src@;
        let s = syms(t);
        let f = folded(s);
        let ks = fkinds(s);
        let st = self.lbracket_locations@;
        let ot = self.open_tokens@;
        let count = self.opcode_count as int;
        let pos = self.src_pos as int;
        &&& pos <= t.len()
        &&& count == prog.len()
        &&& count <= pos
        &&& count <= f.len()
        &&& fold_from(s, pos) == f.skip(count)
        &&& depth(ks, count) == st.len()
        &&& depth(s, pos) == st.len()
        &&& forall|m: int| 0 <= m <= pos ==> #[trigger] depth(s, m) >= 0
        &&& forall|m: int| 0 <= m <= count ==> #[trigger] depth(ks, m) >= 0
        &&& forall|k: int|
            0 <= k < count ==> {
                &&& (#[trigger] prog[k]).ty == op_of(f[k].0)
                &&& !f[k].0.is_loop() ==> prog[k].data == f[k].1
                &&& f[k].0 == Token::RBracket ==> matched(ks, prog[k].data as int, k)
                &&& f[k].0 == Token::LBracket ==> matched(ks, k, prog[k].data as int) || open_at(
                    ks,
                    k,
                    count,
                )
            }
        &&& ot.len() == st.len()
        &&& forall|d: int|
            0 <= d < st.len() ==> {
                let k = (#[trigger] st[d]).1 as int;
                let i = ot[d];
                &&& k < count
                &&& ks[k] == Token::LBracket
                &&& depth(ks, k) == d
                &&& open_at(ks, k, count)
                &&& 0 <= i < pos
                &&& s[i] == Token::LBracket
                &&& t[i].1 == st[d].0
                &&& depth(s, i) == d
                &&& open_at(s, i, pos)
            }
    }
}

impl Parser {
    pub fn new(src: TokenList) -> (r: Self)
        ensures
            r.tokens() == src@,
            r.position() == 0,
            r.emitted() == 0,
            r.open_brackets().len() == 0,
            r.output().len() == 0,
            r.inv(r.output()),
    {
        let r = Parser {
            src,
            src_pos: 0,
            lbracket_locations: Vec::new(),
            opcode_count: 0,
            program: Vec::new(),
            open_tokens: Ghost(Seq::empty()),
        };
        proof {
            let s = syms(r.src@);
            assert(folded(s).skip(0) =~= fold_from(s, 0));
        }
        r
    }

    /// Compiles the tokens left; with what was emitted before, this is the program of
    /// the whole token list, or its first bracket error.
    pub fn parse(self) -> (r: Result<Program, BfError>)
        requires
            self.inv(self.output()),
        ensures
            parse_result(self.tokens(), r),
    {
        let ghost t = self.src@;
        let mut p = self;
        loop
            invariant
                p.src@ == t,
                self.src@ == t,
                p.inv(p.program@),
            decreases t.len() - p.src_pos,
        {
            match p.emit_opcode() {
                Ok(Some(op)) => {
                    p.program.push(op);
                },
                Ok(None) => {
                    proof {
                        p.lemma_finished();
                    }
                    return Ok(p.program);
                },
                Err(e) => {
                    return Err(e);
                },
            }
        }
    }

    proof fn lemma_finished(&self)
        requires
            self.inv(self.program@),
            self.src_pos == self.src@.len(),
            self.lbracket_locations@.len() == 0,
        ensures
            parse_result(self.src@, Ok::<Program, BfError>(self.program)),
    {
        let s = syms(self.src@);
        let f = folded(s);
        let ks = fkinds(s);
        let count = self.opcode_count as int;
        assert(fold_from(s, s.len() as int) =~= Seq::<(Token, nat)>::empty());
        assert(f.skip(count).len() == 0);
        assert(count == f.len());
        assert forall|k: int| 0 <= k < count && f[k].0 == Token::LBracket implies matched(
            ks,
            k,
            self.program@[k].data as int,
        ) by {
            let _ = self.program@[k];
            if !matched(ks, k, self.program@[k].data as int) {
                assert(open_at(ks, k, count));
                assert(depth(ks, count) >= depth(ks, k) + 1);
                assert(depth(ks, k) >= 0);
            }
        }
        assert(s.len() == self.src@.len());
        assert(compiles_to(s, self.program@));
    }

    /// Emits the next instruction: `Some` with the instruction (a `[` waits for its
    /// target), `None` at the end, or the first bracket error.
    pub fn emit_opcode(&mut self) -> (r: Result<Option<OpCode>, BfError>)
        requires
            old(self).inv(old(self).output()),
        ensures
            final(self).tokens() == old(self).tokens(),
            r matches Ok(Some(op)) ==> final(self).inv(final(self).output().push(op))
                && final(self).output().len() == old(self).output().len()
                && final(self).position() > old(self).position(),
            r matches Ok(None) ==> final(self).inv(final(self).output()) && final(self).output()
                == old(self).output() && final(self).position() == final(self).tokens().len()
                && final(self).open_brackets().len() == 0,
            r matches Err(e) ==> parse_result(old(self).tokens(), Err(e)),
            ({
                let t = old(self).tokens();
                let s = syms(t);
                let p = old(self).position() as int;
                let st = old(self).open_brackets();
                let out = old(self).output();
                let n = old(self).emitted();
                &&& p < t.len() && !s[p].is_loop() ==> {
                    &&& r == Ok::<Option<OpCode>, BfError>(
                        Some(OpCode { ty: op_of(s[p]), data: (run_from(s, s[p], p + 1) - p) as usize }),
                    )
                    &&& final(self).position() == run_from(s, s[p], p + 1)
                    &&& final(self).emitted() == n + 1
                    &&& final(self).open_brackets() == st
                    &&& final(self).output() == out
                }
                &&& p < t.len() && s[p] == Token::LBracket ==> {
                    &&& r == Ok::<Option<OpCode>, BfError>(
                        Some(OpCode { ty: OpCodeType::JmpZero, data: usize::MAX }),
                    )
                    &&& final(self).position() == p + 1
                    &&& final(self).emitted() == n + 1
                    &&& final(self).open_brackets() == st.push((t[p].1, n))
                    &&& final(self).output() == out
                }
                &&& p < t.len() && s[p] == Token::RBracket && st.len() == 0 ==> {
                    &&& r == Err::<Option<OpCode>, BfError>(BfError::UnexpectedClose { at: t[p].1 })
                    &&& final(self).position() == p + 1
                    &&& final(self).emitted() == n
                    &&& final(self).open_brackets() == st
                    &&& final(self).output() == out
                }
                &&& p < t.len() && s[p] == Token::RBracket && st.len() > 0 ==> {
                    let k = st.last().1;
                    &&& r == Ok::<Option<OpCode>, BfError>(
                        Some(OpCode { ty: OpCodeType::JmpNotZero, data: k }),
                    )
                    &&& final(self).position() == p + 1
                    &&& final(self).emitted() == n + 1
                    &&& final(self).open_brackets() == st.drop_last()
                    &&& final(self).output() == out.update(
                        k as int,
                        OpCode { ty: out[k as int].ty, data: n },
                    )
                }
                &&& p >= t.len() ==> {
                    &&& final(self).position() == p
                    &&& final(self).emitted() == n
                    &&& final(self).open_brackets() == st
                    &&& final(self).output() == out
                }
                &&& p >= t.len() && st.len() == 0 ==> r == Ok::<Option<OpCode>, BfError>(None)
                &&& p >= t.len() && st.len() > 0 ==> r == Err::<Option<OpCode>, BfError>(
                    BfError::Unclosed { at: st.last().0, count: st.len() as usize },
                )
            }),
    {
        let ghost t = self.src@;
        let ghost s = syms(t);
        let ghost f = folded(s);
        let ghost ks = fkinds(s);
        let ghost pos = self.src_pos as int;
        let ghost count = self.opcode_count as int;
        let ghost prog = self.program@;
        let ghost st = self.lbracket_locations@;
        let ghost ot = self.open_tokens@;
        let ghost d0 = st.len() as int;
        assert(s.len() == t.len());
        match self.next_token() {
            Some((token, location)) => {
                proof {
                    assert(s[pos] == token);
                    lemma_fold_step(s, pos);
                    assert(f.skip(count).len() > 0);
                    assert(f.skip(count)[0] == f[count]);
                    assert(f[count] == (token, (run_end(s, pos) - pos) as nat));
                    assert(f.skip(count + 1) =~= f.skip(count).skip(1));
                    assert(fold_from(s, pos).skip(1) =~= fold_from(s, run_end(s, pos)));
                    assert(ks[count] == token);
                    assert(depth(ks, count + 1) == depth(ks, count) + delta(token));
                    assert(depth(s, pos + 1) == depth(s, pos) + delta(token));
                }
                let data = match token {
                    Token::LBracket => self.register_jump_not_zero_data(location),
                    Token::RBracket => {
                        match self.emit_jump_not_zero_data(location) {
                            Ok(k) => k,
                            Err(e) => {
                                proof {
                                    assert(first_unmatched_close(s, pos));
                                    assert(t[pos].1 == location);
                                }
                                return Err(e);
                            },
                        }
                    },
                    _ => self.count_current_token(token),
                };
                self.opcode_count = self.opcode_count + 1;
                let op = OpCode::from_token(token, data);
                proof {
                    self.lemma_emitted(op, token, pos, count, prog, st, ot);
                }
                Ok(Some(op))
            },
            None => {
                if self.lbracket_locations.len() > 0 {
                    let last = self.lbracket_locations.len() - 1;
                    let (last_lbracket_location, _) = self.lbracket_locations[last];
                    proof {
                        let i = ot[d0 - 1];
                        let _ = st[d0 - 1];
                        assert(innermost_open(s, i));
                        assert(t[i].1 == last_lbracket_location);
                    }
                    Err(self.emit_error_no_rbracket(&last_lbracket_location))
                } else {
                    Ok(None)
                }
            },
        }
    }

    proof fn lemma_emitted(
        &self,
        op: OpCode,
        token: Token,
        pos: int,
        count: int,
        prog: Seq<OpCode>,
        st: Seq<(TokenLoc, usize)>,
        ot: Seq<int>,
    )
        requires
            ({
                let t = self.src@;
                let s = syms(t);
                let f = folded(s);
                let ks = fkinds(s);
                let e = run_end(s, pos);
                let d0 = st.len() as int;
                let old_inv_stack = forall|d: int|
                    0 <= d < st.len() ==> {
                        let k = (#[trigger] st[d]).1 as int;
                        let i = ot[d];
                        &&& k < count
                        &&& ks[k] == Token::LBracket
                        &&& depth(ks, k) == d
                        &&& open_at(ks, k, count)
                        &&& 0 <= i < pos
                        &&& s[i] == Token::LBracket
                        &&& t[i].1 == st[d].0
                        &&& depth(s, i) == d
                        &&& open_at(s, i, pos)
                    };
                &&& 0 <= pos < t.len()
                &&& s.len() == t.len()
                &&& s[pos] == token
                &&& count == prog.len()
                &&& count <= pos
                &&& count < f.len()
                &&& pos < e <= s.len()
                &&& f[count] == (token, (e - pos) as nat)
                &&& f.skip(count + 1) == fold_from(s, e)
                &&& ks[count] == token
                &&& depth(ks, count) == d0
                &&& depth(s, pos) == d0
                &&& depth(ks, count + 1) == d0 + delta(token)
                &&& depth(s, pos + 1) == d0 + delta(token)
                &&& forall|m: int| 0 <= m <= pos ==> #[trigger] depth(s, m) >= 0
                &&& forall|m: int| 0 <= m <= count ==> #[trigger] depth(ks, m) >= 0
                &&& forall|k: int|
                    0 <= k < count ==> {
                        &&& (#[trigger] prog[k]).ty == op_of(f[k].0)
                        &&& !f[k].0.is_loop() ==> prog[k].data == f[k].1
                        &&& f[k].0 == Token::RBracket ==> matched(ks, prog[k].data as int, k)
                        &&& f[k].0 == Token::LBracket ==> matched(ks, k, prog[k].data as int)
                            || open_at(ks, k, count)
                    }
                &&& ot.len() == st.len()
                &&& old_inv_stack
                &&& self.opcode_count == count + 1
                &&& op.ty == op_of(token)
                &&& token == Token::LBracket ==> {
                    &&& self.lbracket_locations@ == st.push((t[pos].1, count as usize))
                    &&& self.open_tokens@ == ot.push(pos)
                    &&& self.program@ == prog
                    &&& self.src_pos == pos + 1
                }
                &&& token == Token::RBracket ==> {
                    &&& d0 > 0
                    &&& op.data == st.last().1
                    &&& self.lbracket_locations@ == st.drop_last()
                    &&& self.open_tokens@ == ot.drop_last()
                    &&& self.program@ == prog.update(
                        st.last().1 as int,
                        OpCode { ty: prog[st.last().1 as int].ty, data: count as usize },
                    )
                    &&& self.src_pos == pos + 1
                }
                &&& !token.is_loop() ==> {
                    &&& self.lbracket_locations@ == st
                    &&& self.open_tokens@ == ot
                    &&& self.program@ == prog
                    &&& self.src_pos == e
                    &&& op.data == e - pos
                }
            }),
        ensures
            self.inv(self.program@.push(op)),
    {
        let t = self.src@;
        let s = syms(t);
        let f = folded(s);
        let ks = fkinds(s);
        let e = run_end(s, pos);
        let d0 = st.len() as int;
        let np = self.program@.push(op);
        let n = count + 1;
        let npos = self.src_pos as int;
        let nst = self.lbracket_locations@;
        let not = self.open_tokens@;
        if !token.is_loop() {
            lemma_run_from(s, token, pos + 1);
            assert(e == run_from(s, token, pos + 1));
            assert(depth(s, npos) == d0);
            assert forall|m: int| pos <= m <= npos implies #[trigger] depth(s, m) == d0 by {
                if m > pos {
                    assert(depth(s, m) == depth(s, pos + 1));
                }
            }
        }
        assert(forall|m: int| 0 <= m <= npos ==> #[trigger] depth(s, m) >= 0);
        assert(forall|m: int| 0 <= m <= n ==> #[trigger] depth(ks, m) >= 0);
        assert(fold_from(s, npos) == f.skip(n));
        if token == Token::RBracket {
            let k = st.last().1 as int;
            let _ = st[d0 - 1];
            assert(matched(ks, k, count));
            assert forall|k2: int|
                0 <= k2 < count && k2 != k && open_at(ks, k2, count) implies open_at(
                ks,
                k2,
                n,
            ) by {
                assert(depth(ks, count) >= depth(ks, k2) + 1);
                if k2 > k {
                    assert(depth(ks, k2) >= depth(ks, k) + 1);
                } else {
                    assert(depth(ks, k) >= depth(ks, k2) + 1);
                }
            }
            assert forall|d: int| 0 <= d < nst.len() implies ({
                let k1 = (#[trigger] nst[d]).1 as int;
                open_at(ks, k1, n) && open_at(s, not[d], npos)
            }) by {
                let _ = st[d];
                assert(depth(ks, n) >= d + 1);
            }
        }
        if token == Token::LBracket {
            assert forall|k2: int| 0 <= k2 < count && open_at(ks, k2, count) implies open_at(
                ks,
                k2,
                n,
            ) by {
                assert(depth(ks, count) >= depth(ks, k2) + 1);
            }
            assert forall|d: int| 0 <= d < nst.len() implies ({
                let k1 = (#[trigger] nst[d]).1 as int;
                open_at(ks, k1, n) && open_at(s, not[d], npos)
            }) by {
                if d < d0 {
                    let _ = st[d];
                }
            }
        }
        if !token.is_loop() {
            assert forall|k2: int| 0 <= k2 < count && open_at(ks, k2, count) implies open_at(
                ks,
                k2,
                n,
            ) by {
                assert(depth(ks, count) >= depth(ks, k2) + 1);
            }
            assert forall|d: int| 0 <= d < nst.len() implies ({
                let k1 = (#[trigger] nst[d]).1 as int;
                open_at(ks, k1, n) && open_at(s, not[d], npos)
            }) by {
                let _ = st[d];
                assert forall|m: int| not[d] + 1 <= m <= npos implies #[trigger] depth(s, m)
                    >= depth(s, not[d]) + 1 by {
                    if m > pos {
                        assert(depth(s, m) == d0);
                    }
                }
            }
        }
        assert forall|k2: int|
            0 <= k2 < n implies {
            &&& (#[trigger] np[k2]).ty == op_of(f[k2].0)
            &&& !f[k2].0.is_loop() ==> np[k2].data == f[k2].1
            &&& f[k2].0 == Token::RBracket ==> matched(ks, np[k2].data as int, k2)
            &&& f[k2].0 == Token::LBracket ==> matched(ks, k2, np[k2].data as int) || open_at(
                ks,
                k2,
                n,
            )
        } by {
            if k2 < count {
                let _ = prog[k2];
            }
        }
        assert forall|d: int| 0 <= d < nst.len() implies ({
            let k1 = (#[trigger] nst[d]).1 as int;
            let i = not[d];
            &&& k1 < n
            &&& ks[k1] == Token::LBracket
            &&& depth(ks, k1) == d
            &&& 0 <= i < npos
            &&& s[i] == Token::LBracket
            &&& t[i].1 == nst[d].0
            &&& depth(s, i) == d
        }) by {
            if d < st.len() {
                let _ = st[d];
            }
        }
    }

    pub fn next_token(&mut self) -> (r: Option<TokenData>)
        ensures
            final(self).tokens() == old(self).tokens(),
            final(self).open_brackets() == old(self).open_brackets(),
            final(self).emitted() == old(self).emitted(),
            final(self).output() == old(self).output(),
            final(self).open_token_indices() == old(self).open_token_indices(),
            old(self).position() < old(self).tokens().len() ==> r == Some(
                old(self).tokens()[old(self).position() as int],
            ) && final(self).position() == old(self).position() + 1,
            old(self).position() >= old(self).tokens().len() ==> r is None && final(self).position()
                == old(self).position(),
    {
        if self.src_pos < self.src.len() {
            let d = self.src[self.src_pos];
            self.increase_src_pos();
            Some(d)
        } else {
            None
        }
    }

    pub fn peek_token(&self) -> (r: Option<TokenData>)
        ensures
            r == (if self.position() < self.tokens().len() {
                Some(self.tokens()[self.position() as int])
            } else {
                None
            }),
    {
        if self.src_pos < self.src.len() {
            Some(self.src[self.src_pos])
        } else {
            None
        }
    }

    pub fn increase_src_pos(&mut self)
        requires
            old(self).position() < usize::MAX,
        ensures
            final(self).position() == old(self).position() + 1,
            final(self).tokens() == old(self).tokens(),
            final(self).open_brackets() == old(self).open_brackets(),
            final(self).emitted() == old(self).emitted(),
            final(self).output() == old(self).output(),
            final(self).open_token_indices() == old(self).open_token_indices(),
    {
        self.src_pos = self.src_pos + 1;
    }

    /// Counts the token just taken together with the copies of it that follow, and
    /// moves past them; a bracket counts one.
    pub fn count_current_token(&mut self, current_token: Token) -> (r: usize)
        requires
            old(self).position() >= 1 || old(self).tokens().len() < usize::MAX,
        ensures
            final(self).tokens() == old(self).tokens(),
            final(self).open_brackets() == old(self).open_brackets(),
            final(self).emitted() == old(self).emitted(),
            final(self).output() == old(self).output(),
            final(self).open_token_indices() == old(self).open_token_indices(),
            current_token.is_loop() ==> r == 1 && final(self).position() == old(self).position(),
            !current_token.is_loop() ==> final(self).position() == run_from(
                syms(old(self).tokens()),
                current_token,
                old(self).position() as int,
            ) && r == 1 + final(self).position() - old(self).position(),
    {
        let ghost s = syms(self.src@);
        let ghost start = self.src_pos as int;
        let mut counter: usize = 1;
        let n = self.src.len();
        if current_token.is_groupable() {
            loop
                invariant
                    n == self.src@.len(),
                    s == syms(self.src@),
                    0 <= start <= self.src_pos,
                    self.src_pos <= self.src@.len() || self.src_pos == start,
                    run_from(s, current_token, self.src_pos as int) == run_from(
                        s,
                        current_token,
                        start,
                    ),
                    counter == 1 + self.src_pos - start,
                    start >= 1 || n < usize::MAX,
                    self.tokens() == old(self).tokens(),
                    self.open_brackets() == old(self).open_brackets(),
                    self.emitted() == old(self).emitted(),
                    self.output() == old(self).output(),
                    self.open_token_indices() == old(self).open_token_indices(),
                ensures
                    s == syms(self.src@),
                    run_from(s, current_token, self.src_pos as int) == self.src_pos,
                    run_from(s, current_token, self.src_pos as int) == run_from(
                        s,
                        current_token,
                        start,
                    ),
                    counter == 1 + self.src_pos - start,
                    self.tokens() == old(self).tokens(),
                    self.open_brackets() == old(self).open_brackets(),
                    self.emitted() == old(self).emitted(),
                    self.output() == old(self).output(),
                    self.open_token_indices() == old(self).open_token_indices(),
                decreases self.src@.len() - self.src_pos,
            {
                match self.peek_token() {
                    Some((token, _)) => {
                        if token == current_token {
                            assert(self.src_pos < n);
                            counter = counter + 1;
                            self.increase_src_pos();
                        } else {
                            assert(s[self.src_pos as int] == token);
                            break ;
                        }
                    },
                    None => {
                        assert(run_from(s, current_token, self.src_pos as int) == self.src_pos);
                        break ;
                    },
                }
            }
        }
        counter
    }

    /// Records a `[` at `location` as the next instruction, open until its `]` comes;
    /// its jump target is not known yet.
    pub fn register_jump_not_zero_data(&mut self, location: TokenLoc) -> (r: usize)
        ensures
            r == usize::MAX,
            final(self).open_brackets() == old(self).open_brackets().push(
                (location, old(self).emitted()),
            ),
            final(self).open_token_indices() == old(self).open_token_indices().push(
                old(self).position() - 1,
            ),
            final(self).tokens() == old(self).tokens(),
            final(self).position() == old(self).position(),
            final(self).emitted() == old(self).emitted(),
            final(self).output() == old(self).output(),
    {
        self.lbracket_locations.push((location, self.opcode_count));
        proof {
            self.open_tokens@ = self.open_tokens@.push(self.src_pos - 1);
        }
        usize::MAX
    }

    /// Closes the innermost open `[` with a `]` at `location`: points the `[` at the
    /// next instruction and gives the `[`'s index as the `]`'s target. With no `[`
    /// open, the `]` is an error.
    pub fn emit_jump_not_zero_data(&mut self, location: TokenLoc) -> (r: Result<usize, BfError>)
        requires
            forall|d: int|
                0 <= d < old(self).open_brackets().len() ==> (#[trigger] old(
                    self,
                ).open_brackets()[d]).1 < old(self).output().len(),
        ensures
            final(self).tokens() == old(self).tokens(),
            final(self).position() == old(self).position(),
            final(self).emitted() == old(self).emitted(),
            old(self).open_brackets().len() == 0 ==> r == Err::<usize, BfError>(
                BfError::UnexpectedClose { at: location },
            ) && final(self).output() == old(self).output() && final(self).open_brackets()
                == old(self).open_brackets(),
            old(self).open_brackets().len() > 0 ==> {
                let k = old(self).open_brackets().last().1;
                &&& r == Ok::<usize, BfError>(k)
                &&& final(self).open_brackets() == old(self).open_brackets().drop_last()
                &&& final(self).open_token_indices() == old(self).open_token_indices().drop_last()
                &&& final(self).output() == old(self).output().update(
                    k as int,
                    OpCode { ty: old(self).output()[k as int].ty, data: old(self).emitted() },
                )
            },
    {
        match self.lbracket_locations.pop() {
            Some((_, lbracket_idx)) => {
                let ty = self.program[lbracket_idx].ty;
                self.program.set(lbracket_idx, OpCode { ty, data: self.opcode_count });
                proof {
                    self.open_tokens@ = self.open_tokens@.drop_last();
                }
                Ok(lbracket_idx)
            },
            None => Err(BfError::UnexpectedClose { at: location }),
        }
    }

    /// The error for `[` still open at the end, the innermost at `last_lbracket_location`.
    pub fn emit_error_no_rbracket(&self, last_lbracket_location: &TokenLoc) -> (r: BfError)
        ensures
            r == (BfError::Unclosed {
                at: *last_lbracket_location,
                count: self.open_brackets().len() as usize,
            }),
    {
        BfError::Unclosed {
            at: *last_lbracket_location,
            count: self.lbracket_locations.len(),
        }
    }
}

/// Compiles a token list into a program, or reports its first bracket error.
pub fn parse(token_list: TokenList) -> (r: Result<Program, BfError>)
    ensures
        parse_result(token_list@, r),
{
    let parser = Parser::new(token_list);
    parser.parse()
}

proof fn lemma_left_partner_unique(ks: Seq<Token>, k1: int, k2: int, j: int)
    requires
        matched(ks, k1, j),
        matched(ks, k2, j),
    ensures
        k1 == k2,
{
    if k1 < k2 {
        assert(depth(ks, k2 + 1) == depth(ks, k2) + delta(ks[k2]));
        assert(depth(ks, k2) >= depth(ks, k1 + 1));
    } else if k2 < k1 {
        assert(depth(ks, k1 + 1) == depth(ks, k1) + delta(ks[k1]));
        assert(depth(ks, k1) >= depth(ks, k2 + 1));
    }
}

proof fn lemma_right_partner_unique(ks: Seq<Token>, k: int, j1: int, j2: int)
    requires
        matched(ks, k, j1),
        matched(ks, k, j2),
    ensures
        j1 == j2,
{
    if j1 < j2 {
        assert(depth(ks, j1 + 1) == depth(ks, j1) + delta(ks[j1]));
        assert(depth(ks, j1 + 1) >= depth(ks, k + 1));
    } else if j2 < j1 {
        assert(depth(ks, j2 + 1) == depth(ks, j2) + delta(ks[j2]));
        assert(depth(ks, j2 + 1) >= depth(ks, k + 1));
    }
}

proof fn lemma_partner_of_open(s: Seq<Token>, p: Seq<OpCode>, k: int)
    requires
        compiles_to(s, p),
        0 <= k < p.len(),
        p[k].ty == OpCodeType::JmpZero,
    ensures
        k < p[k].data < p.len(),
        p[p[k].data as int].ty == OpCodeType::JmpNotZero,
        p[p[k].data as int].data == k,
{
    let f = folded(s);
    let ks = fkinds(s);
    let _ = p[k];
    assert(f[k].0 == Token::LBracket);
    let j = p[k].data as int;
    assert(matched(ks, k, j));
    assert(ks[j] == f[j].0);
    let _ = p[j];
    lemma_left_partner_unique(ks, k, p[j].data as int, j);
}

proof fn lemma_partner_of_close(s: Seq<Token>, p: Seq<OpCode>, j: int)
    requires
        compiles_to(s, p),
        0 <= j < p.len(),
        p[j].ty == OpCodeType::JmpNotZero,
    ensures
        0 <= p[j].data < j,
        p[p[j].data as int].ty == OpCodeType::JmpZero,
        p[p[j].data as int].data == j,
{
    let f = folded(s);
    let ks = fkinds(s);
    let _ = p[j];
    assert(f[j].0 == Token::RBracket);
    let k = p[j].data as int;
    assert(matched(ks, k, j));
    assert(ks[k] == f[k].0);
    let _ = p[k];
    lemma_right_partner_unique(ks, k, j, p[k].data as int);
}

/// In a compiled program each jump points at its partner, and the partner points back:
/// a `JmpZero` at `k` targets a `JmpNotZero` whose target is `k`, and the other way round.
pub proof fn lemma_jumps_are_partners(s: Seq<Token>, p: Seq<OpCode>)
    requires
        compiles_to(s, p),
    ensures
        forall|k: int|
            0 <= k < p.len() && (#[trigger] p[k]).ty == OpCodeType::JmpZero ==> {
                let j = p[k].data as int;
                &&& k < j < p.len()
                &&& p[j].ty == OpCodeType::JmpNotZero
                &&& p[j].data == k
            },
        forall|j: int|
            0 <= j < p.len() && (#[trigger] p[j]).ty == OpCodeType::JmpNotZero ==> {
                let k = p[j].data as int;
                &&& 0 <= k < j
                &&& p[k].ty == OpCodeType::JmpZero
                &&& p[k].data == j
            },
{
    assert forall|k: int| 0 <= k < p.len() && (#[trigger] p[k]).ty == OpCodeType::JmpZero implies {
        let j = p[k].data as int;
        &&& k < j < p.len()
        &&& p[j].ty == OpCodeType::JmpNotZero
        &&& p[j].data == k
    } by {
        lemma_partner_of_open(s, p, k);
    }
    assert forall|j: int|
        0 <= j < p.len() && (#[trigger] p[j]).ty == OpCodeType::JmpNotZero implies {
        let k = p[j].data as int;
        &&& 0 <= k < j
        &&& p[k].ty == OpCodeType::JmpZero
        &&& p[k].data == j
    } by {
        lemma_partner_of_close(s, p, j);
    }
}

} // verus!
