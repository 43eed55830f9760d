//! Single-pass compiler: consumes tokens, resolves names against the
//! declared locals, deduplicates constants into a pool, and emits a flat
//! instruction sequence — no intermediate syntax tree.
//!
//! The whole pass is specified by [`compile_src`], a spec function that
//! maps the source bytes to the exact constant pool and instruction
//! sequence (or the exact error); [`ParseProto::load`] is proved to
//! return precisely that.

use crate::bytecode::ByteCode;
use crate::error::{CompileErrV, CompileError, RtErrV, RuntimeError};
use crate::lex::{lemma_next_token_advances, next_token_spec, ByteStream, Lex, LexStep, Token, TokenV};
use crate::value::{bytes_equal, str_bytes_of, str_view_of, Value, ValueV};
use vstd::prelude::*;

verus! {

/// The models of a pool of constants.
pub open spec fn const_views(cs: Seq<Value>) -> Seq<ValueV> {
    cs.map_values(|v: Value| v@)
}

/// The byte contents of the declared local names.
pub open spec fn local_views(ls: Seq<Vec<u8>>) -> Seq<Seq<u8>> {
    ls.map_values(|v: Vec<u8>| v@)
}

/// No two constants of the pool are structurally equal.
pub open spec fn no_dup_constants(vs: Seq<ValueV>) -> bool {
    forall|i: int, j: int| 0 <= i < j < vs.len() ==> vs[i] != vs[j]
}

/// First index holding `v` at or after `from`, if any.
pub open spec fn find_from(vs: Seq<ValueV>, v: ValueV, from: int) -> Option<int>
    decreases vs.len() - from,
{
    if from < 0 || from >= vs.len() {
        None
    } else if vs[from] == v {
        Some(from)
    } else {
        find_from(vs, v, from + 1)
    }
}

proof fn lemma_find_from(vs: Seq<ValueV>, v: ValueV, from: int)
    requires
        0 <= from,
    ensures
        match find_from(vs, v, from) {
            Some(i) => from <= i < vs.len() && vs[i] == v,
            None => forall|j: int| from <= j < vs.len() ==> vs[j] != v,
        },
    decreases vs.len() - from,
{
    if from < vs.len() && vs[from] != v {
        lemma_find_from(vs, v, from + 1);
    }
}

/// What interning a constant does: an existing structurally-equal entry
/// is reused, otherwise the value is appended — provided an 8-bit index
/// remains for it.
pub open spec fn add_const_spec(pool: Seq<ValueV>, v: ValueV) -> Option<(Seq<ValueV>, int)> {
    match find_from(pool, v, 0) {
        Some(i) => Some((pool, i)),
        None => if pool.len() < 256 {
            Some((pool.push(v), pool.len() as int))
        } else {
            None
        },
    }
}

/// Interning always yields a valid index holding exactly the value asked
/// for.
pub proof fn lemma_add_const_spec_found(pool: Seq<ValueV>, v: ValueV)
    ensures
        match add_const_spec(pool, v) {
            Some((pool2, k)) => 0 <= k < pool2.len() && pool2[k] == v && pool.len()
                <= pool2.len(),
            None => true,
        },
{
    lemma_find_from(pool, v, 0);
}

/// Interning never disturbs existing entries: a constant keeps its slot
/// for the whole compilation, so indices follow first-use order.
pub proof fn lemma_pool_grows_by_append(pool: Seq<ValueV>, v: ValueV)
    ensures
        match add_const_spec(pool, v) {
            Some((pool2, k)) => pool.len() <= pool2.len() && pool2.subrange(
                0,
                pool.len() as int,
            ) == pool,
            None => true,
        },
{
    match add_const_spec(pool, v) {
        Some((pool2, k)) => {
            assert(pool2.subrange(0, pool.len() as int) =~= pool);
        }
        None => {}
    }
}

/// The most recently declared local with this name, if any: later
/// declarations shadow earlier ones.
pub open spec fn find_local(locals: Seq<Seq<u8>>, name: Seq<u8>) -> Option<int>
    decreases locals.len(),
{
    if locals.len() == 0 {
        None
    } else if locals.last() == name {
        Some(locals.len() - 1)
    } else {
        find_local(locals.drop_last(), name)
    }
}

pub proof fn lemma_find_local_bounds(locals: Seq<Seq<u8>>, name: Seq<u8>)
    ensures
        match find_local(locals, name) {
            Some(i) => 0 <= i < locals.len(),
            None => true,
        },
    decreases locals.len(),
{
    if locals.len() > 0 && locals.last() != name {
        lemma_find_local_bounds(locals.drop_last(), name);
    }
}

/// Loading a variable into a register: a register move for a local, else
/// a global load through an interned name constant. `None` means the pool
/// is full.
pub open spec fn load_var_spec(
    pool: Seq<ValueV>,
    locals: Seq<Seq<u8>>,
    name: Seq<u8>,
    dst: u8,
) -> Option<(ByteCode, Seq<ValueV>)> {
    match find_local(locals, name) {
        Some(i) => Some((ByteCode::Move(dst, i as u8), pool)),
        None => match add_const_spec(pool, str_view_of(name)) {
            Some((pool2, k)) => Some((ByteCode::GetGlobal(dst, k as u8), pool2)),
            None => None,
        },
    }
}

/// What one expression token compiles to.
pub enum ExpOut {
    /// The emitted instruction and the pool after it.
    Emit(ByteCode, Seq<ValueV>),
    /// The token opens no expression form.
    Invalid,
    /// The pool outgrew its 8-bit index space.
    PoolFull,
}

/// The single instruction an expression token compiles to, loading into
/// register `dst`: nil, booleans, an integer small enough for an
/// immediate, any other literal through the pool, a name as a local move
/// or a global load.
pub open spec fn exp_step(t: TokenV, dst: u8, pool: Seq<ValueV>, locals: Seq<Seq<u8>>) -> ExpOut {
    match t {
        TokenV::Nil => ExpOut::Emit(ByteCode::LoadNil(dst), pool),
        TokenV::True => ExpOut::Emit(ByteCode::LoadBool(dst, true), pool),
        TokenV::False => ExpOut::Emit(ByteCode::LoadBool(dst, false), pool),
        TokenV::Integer(i) => if i16::MIN <= i <= i16::MAX {
            ExpOut::Emit(ByteCode::LoadInt(dst, i as i16), pool)
        } else {
            match add_const_spec(pool, ValueV::Integer(i)) {
                Some((pool2, k)) => ExpOut::Emit(ByteCode::LoadConst(dst, k as u8), pool2),
                None => ExpOut::PoolFull,
            }
        },
        TokenV::Float(text) => match add_const_spec(pool, ValueV::Float(text)) {
            Some((pool2, k)) => ExpOut::Emit(ByteCode::LoadConst(dst, k as u8), pool2),
            None => ExpOut::PoolFull,
        },
        TokenV::String(s) => match add_const_spec(pool, str_view_of(s)) {
            Some((pool2, k)) => ExpOut::Emit(ByteCode::LoadConst(dst, k as u8), pool2),
            None => ExpOut::PoolFull,
        },
        TokenV::Name(name) => match load_var_spec(pool, locals, name, dst) {
            Some((code, pool2)) => ExpOut::Emit(code, pool2),
            None => ExpOut::PoolFull,
        },
        _ => ExpOut::Invalid,
    }
}

/// What one statement does to the compiler state.
pub enum StmtOut {
    /// Position after the statement, then pool, instructions and locals.
    Next(int, Seq<ValueV>, Seq<ByteCode>, Seq<Seq<u8>>),
    Fail(CompileErrV),
}

/// An assignment statement, after its `name =` has been read: `pos` is the
/// position after the `=`. A known local takes the right-hand side straight
/// into its register; otherwise the name is interned and the store picks
/// the global-store form that matches the right-hand token.
#[verifier::opaque]
pub open spec fn assignment_spec(
    src: Seq<u8>,
    pos: int,
    var: Seq<u8>,
    pool: Seq<ValueV>,
    codes: Seq<ByteCode>,
    locals: Seq<Seq<u8>>,
) -> StmtOut {
    match find_local(locals, var) {
        Some(i) => match next_token_spec(src, pos) {
            LexStep::Fail(k, p) => StmtOut::Fail(CompileErrV::Lex(k, p)),
            LexStep::Tok(t, np) => match exp_step(t, i as u8, pool, locals) {
                ExpOut::Emit(code, pool2) => StmtOut::Next(np, pool2, codes.push(code), locals),
                ExpOut::Invalid => StmtOut::Fail(CompileErrV::InvalidArgument(t)),
                ExpOut::PoolFull => StmtOut::Fail(CompileErrV::TooManyConstants),
            },
        },
        None => match add_const_spec(pool, str_view_of(var)) {
            None => StmtOut::Fail(CompileErrV::TooManyConstants),
            Some((pool1, dst)) => match next_token_spec(src, pos) {
                LexStep::Fail(k, p) => StmtOut::Fail(CompileErrV::Lex(k, p)),
                LexStep::Tok(t, np) => match t {
                    TokenV::Nil => match add_const_spec(pool1, ValueV::Nil) {
                        Some((pool2, k)) => StmtOut::Next(
                            np,
                            pool2,
                            codes.push(ByteCode::SetGlobalConst(dst as u8, k as u8)),
                            locals,
                        ),
                        None => StmtOut::Fail(CompileErrV::TooManyConstants),
                    },
                    TokenV::True => match add_const_spec(pool1, ValueV::Boolean(true)) {
                        Some((pool2, k)) => StmtOut::Next(
                            np,
                            pool2,
                            codes.push(ByteCode::SetGlobalConst(dst as u8, k as u8)),
                            locals,
                        ),
                        None => StmtOut::Fail(CompileErrV::TooManyConstants),
                    },
                    TokenV::False => match add_const_spec(pool1, ValueV::Boolean(false)) {
                        Some((pool2, k)) => StmtOut::Next(
                            np,
                            pool2,
                            codes.push(ByteCode::SetGlobalConst(dst as u8, k as u8)),
                            locals,
                        ),
                        None => StmtOut::Fail(CompileErrV::TooManyConstants),
                    },
                    TokenV::Integer(i) => match add_const_spec(pool1, ValueV::Integer(i)) {
                        Some((pool2, k)) => StmtOut::Next(
                            np,
                            pool2,
                            codes.push(ByteCode::SetGlobalConst(dst as u8, k as u8)),
                            locals,
                        ),
                        None => StmtOut::Fail(CompileErrV::TooManyConstants),
                    },
                    TokenV::Float(text) => match add_const_spec(pool1, ValueV::Float(text)) {
                        Some((pool2, k)) => StmtOut::Next(
                            np,
                            pool2,
                            codes.push(ByteCode::SetGlobalConst(dst as u8, k as u8)),
                            locals,
                        ),
                        None => StmtOut::Fail(CompileErrV::TooManyConstants),
                    },
                    TokenV::String(s) => match add_const_spec(pool1, str_view_of(s)) {
                        Some((pool2, k)) => StmtOut::Next(
                            np,
                            pool2,
                            codes.push(ByteCode::SetGlobalConst(dst as u8, k as u8)),
                            locals,
                        ),
                        None => StmtOut::Fail(CompileErrV::TooManyConstants),
                    },
                    TokenV::Name(var2) => match find_local(locals, var2) {
                        Some(j) => StmtOut::Next(
                            np,
                            pool1,
                            codes.push(ByteCode::SetGlobal(dst as u8, j as u8)),
                            locals,
                        ),
                        None => match add_const_spec(pool1, str_view_of(var2)) {
                            Some((pool2, k)) => StmtOut::Next(
                                np,
                                pool2,
                                codes.push(ByteCode::SetGlobalGlobal(dst as u8, k as u8)),
                                locals,
                            ),
                            None => StmtOut::Fail(CompileErrV::TooManyConstants),
                        },
                    },
                    _ => StmtOut::Fail(CompileErrV::InvalidArgument(t)),
                },
            },
        },
    }
}

/// A call statement, after the callee name has been read: `first` is the
/// token after the name and `after_first` the position after that token.
/// The callee lands in the next free register, the single argument in the
/// one after it, and the call covers that two-register window.
#[verifier::opaque]
pub open spec fn call_spec(
    src: Seq<u8>,
    first: TokenV,
    after_first: int,
    name: Seq<u8>,
    pool: Seq<ValueV>,
    codes: Seq<ByteCode>,
    locals: Seq<Seq<u8>>,
) -> StmtOut {
    if locals.len() + 1 > 255 {
        StmtOut::Fail(CompileErrV::TooManyLocals)
    } else {
        let base = locals.len() as u8;
        match load_var_spec(pool, locals, name, base) {
            None => StmtOut::Fail(CompileErrV::TooManyConstants),
            Some((code1, pool1)) => {
                let codes1 = codes.push(code1);
                match first {
                    TokenV::ParL => match next_token_spec(src, after_first) {
                        LexStep::Fail(k, p) => StmtOut::Fail(CompileErrV::Lex(k, p)),
                        LexStep::Tok(t2, np2) => match exp_step(
                            t2,
                            (base + 1) as u8,
                            pool1,
                            locals,
                        ) {
                            ExpOut::Emit(code2, pool2) => match next_token_spec(src, np2) {
                                LexStep::Fail(k, p) => StmtOut::Fail(CompileErrV::Lex(k, p)),
                                LexStep::Tok(TokenV::ParR, np3) => StmtOut::Next(
                                    np3,
                                    pool2,
                                    codes1.push(code2).push(ByteCode::Call(base, 1)),
                                    locals,
                                ),
                                LexStep::Tok(t3, _) => StmtOut::Fail(CompileErrV::ExpectedParR(t3)),
                            },
                            ExpOut::Invalid => StmtOut::Fail(CompileErrV::InvalidArgument(t2)),
                            ExpOut::PoolFull => StmtOut::Fail(CompileErrV::TooManyConstants),
                        },
                    },
                    TokenV::String(s) => match add_const_spec(pool1, str_view_of(s)) {
                        Some((pool2, k)) => StmtOut::Next(
                            after_first,
                            pool2,
                            codes1.push(ByteCode::LoadConst((base + 1) as u8, k as u8)).push(
                                ByteCode::Call(base, 1),
                            ),
                            locals,
                        ),
                        None => StmtOut::Fail(CompileErrV::TooManyConstants),
                    },
                    _ => StmtOut::Fail(CompileErrV::ExpectedString(first)),
                }
            },
        }
    }
}

/// A local declaration, after the `local` keyword has been read: `pos` is
/// the position after the keyword. The initializer compiles into the new
/// local's register before the name is appended, so the new name is not
/// visible to its own initializer.
#[verifier::opaque]
pub open spec fn local_spec(
    src: Seq<u8>,
    pos: int,
    pool: Seq<ValueV>,
    codes: Seq<ByteCode>,
    locals: Seq<Seq<u8>>,
) -> StmtOut {
    match next_token_spec(src, pos) {
        LexStep::Fail(k, p) => StmtOut::Fail(CompileErrV::Lex(k, p)),
        LexStep::Tok(t, np) => match t {
            TokenV::Name(var) => match next_token_spec(src, np) {
                LexStep::Fail(k, p) => StmtOut::Fail(CompileErrV::Lex(k, p)),
                LexStep::Tok(TokenV::Assign, np2) => if locals.len() > 255 {
                    StmtOut::Fail(CompileErrV::TooManyLocals)
                } else {
                    match next_token_spec(src, np2) {
                        LexStep::Fail(k, p) => StmtOut::Fail(CompileErrV::Lex(k, p)),
                        LexStep::Tok(t3, np3) => match exp_step(
                            t3,
                            locals.len() as u8,
                            pool,
                            locals,
                        ) {
                            ExpOut::Emit(code, pool2) => StmtOut::Next(
                                np3,
                                pool2,
                                codes.push(code),
                                locals.push(var),
                            ),
                            ExpOut::Invalid => StmtOut::Fail(CompileErrV::InvalidArgument(t3)),
                            ExpOut::PoolFull => StmtOut::Fail(CompileErrV::TooManyConstants),
                        },
                    }
                },
                LexStep::Tok(t2, _) => StmtOut::Fail(CompileErrV::ExpectedAssign(t2)),
            },
            _ => StmtOut::Fail(CompileErrV::ExpectedVariable(t)),
        },
    }
}

/// The outcome of compiling a whole source buffer.
pub enum CompileOut {
    /// The deduplicated constant pool and the instruction sequence.
    Finish(Seq<ValueV>, Seq<ByteCode>),
    Fail(CompileErrV),
}

/// Compilation from `pos` with the state accumulated so far: one statement
/// at a time until the end of the stream. Every statement strictly
/// advances the position (see [`lemma_stmt_advances`]), so the guard on
/// the recursion is always true; it makes termination structural.
pub open spec fn compile_from(
    src: Seq<u8>,
    pos: int,
    pool: Seq<ValueV>,
    codes: Seq<ByteCode>,
    locals: Seq<Seq<u8>>,
) -> CompileOut
    decreases src.len() - pos,
{
    match next_token_spec(src, pos) {
        LexStep::Fail(k, p) => CompileOut::Fail(CompileErrV::Lex(k, p)),
        LexStep::Tok(t, np) => match t {
            TokenV::Eos => CompileOut::Finish(pool, codes),
            TokenV::Name(name) => match next_token_spec(src, np) {
                LexStep::Fail(k, p) => CompileOut::Fail(CompileErrV::Lex(k, p)),
                LexStep::Tok(t2, np2) => {
                    let stmt = if t2 is Assign {
                        assignment_spec(src, np2, name, pool, codes, locals)
                    } else {
                        call_spec(src, t2, np2, name, pool, codes, locals)
                    };
                    match stmt {
                        StmtOut::Fail(e) => CompileOut::Fail(e),
                        StmtOut::Next(pos2, pool2, codes2, locals2) => if pos < pos2
                            <= src.len() {
                            compile_from(src, pos2, pool2, codes2, locals2)
                        } else {
                            CompileOut::Fail(CompileErrV::UnexpectedToken(t))
                        },
                    }
                },
            },
            TokenV::Local => match local_spec(src, np, pool, codes, locals) {
                StmtOut::Fail(e) => CompileOut::Fail(e),
                StmtOut::Next(pos2, pool2, codes2, locals2) => if pos < pos2 <= src.len() {
                    compile_from(src, pos2, pool2, codes2, locals2)
                } else {
                    CompileOut::Fail(CompileErrV::UnexpectedToken(t))
                },
            },
            _ => CompileOut::Fail(CompileErrV::UnexpectedToken(t)),
        },
    }
}

/// The whole compilation of a source buffer, from empty state.
pub open spec fn compile_src(src: Seq<u8>) -> CompileOut {
    compile_from(src, 0, Seq::empty(), Seq::empty(), Seq::empty())
}

/// An assignment statement that compiles always moves the position forward
/// and stays inside the buffer.
proof fn lemma_assignment_advances(
    src: Seq<u8>,
    pos: int,
    var: Seq<u8>,
    pool: Seq<ValueV>,
    codes: Seq<ByteCode>,
    locals: Seq<Seq<u8>>,
)
    requires
        0 <= pos <= src.len(),
    ensures
        match assignment_spec(src, pos, var, pool, codes, locals) {
            StmtOut::Next(pos2, _, _, _) => pos < pos2 <= src.len(),
            StmtOut::Fail(_) => true,
        },
{
    reveal(assignment_spec);
    lemma_next_token_advances(src, pos);
}

/// A call statement that compiles never moves the position backwards past
/// the already-peeked token, and stays inside the buffer.
proof fn lemma_call_advances(
    src: Seq<u8>,
    first: TokenV,
    after_first: int,
    name: Seq<u8>,
    pool: Seq<ValueV>,
    codes: Seq<ByteCode>,
    locals: Seq<Seq<u8>>,
)
    requires
        0 <= after_first <= src.len(),
    ensures
        match call_spec(src, first, after_first, name, pool, codes, locals) {
            StmtOut::Next(pos2, _, _, _) => after_first <= pos2 <= src.len(),
            StmtOut::Fail(_) => true,
        },
{
    reveal(call_spec);
    lemma_next_token_advances(src, after_first);
    match next_token_spec(src, after_first) {
        LexStep::Tok(t2, np2) => {
            lemma_next_token_advances(src, np2);
        }
        LexStep::Fail(_, _) => {}
    }
}

/// A local declaration that compiles always moves the position forward and
/// stays inside the buffer.
proof fn lemma_local_advances(
    src: Seq<u8>,
    pos: int,
    pool: Seq<ValueV>,
    codes: Seq<ByteCode>,
    locals: Seq<Seq<u8>>,
)
    requires
        0 <= pos <= src.len(),
    ensures
        match local_spec(src, pos, pool, codes, locals) {
            StmtOut::Next(pos2, _, _, _) => pos < pos2 <= src.len(),
            StmtOut::Fail(_) => true,
        },
{
    reveal(local_spec);
    lemma_next_token_advances(src, pos);
    match next_token_spec(src, pos) {
        LexStep::Tok(t, np) => {
            lemma_next_token_advances(src, np);
            match next_token_spec(src, np) {
                LexStep::Tok(t2, np2) => {
                    lemma_next_token_advances(src, np2);
                }
                LexStep::Fail(_, _) => {}
            }
        }
        LexStep::Fail(_, _) => {}
    }
}

/// The compiler's working state: the pool and instructions built so far,
/// the declared locals (their position is their register), and the lexer.
struct ParseProtoBuilder {
    constants: Vec<Value>,
    byte_codes: Vec<ByteCode>,
    locals: Vec<Vec<u8>>,
    lex: Lex,
}

impl ParseProtoBuilder {
    /// The models of the pooled constants.
    spec fn pool(&self) -> Seq<ValueV> {
        const_views(self.constants@)
    }

    /// The emitted instructions.
    spec fn codes(&self) -> Seq<ByteCode> {
        self.byte_codes@
    }

    /// The declared local names.
    spec fn locs(&self) -> Seq<Seq<u8>> {
        local_views(self.locals@)
    }

    /// The source bytes.
    spec fn src(&self) -> Seq<u8> {
        self.lex.src()
    }

    /// The pool is deduplicated and 8-bit addressable, every constant is a
    /// well-formed value, and registers stay 8-bit addressable.
    spec fn wf_b(&self) -> bool {
        &&& self.lex.wf()
        &&& self.constants@.len() <= 256
        &&& self.locals@.len() <= 256
        &&& no_dup_constants(self.pool())
        &&& forall|i: int| 0 <= i < self.constants@.len() ==> (#[trigger] self.constants@[i]).wf()
    }

    fn new<S: ByteStream>(input: S) -> (r: ParseProtoBuilder)
        ensures
            r.wf_b(),
            r.src() == input.stream_bytes(),
            r.lex.cur() == 0,
            r.lex.ahead_view() is None,
            r.pool() == Seq::<ValueV>::empty(),
            r.codes() == Seq::<ByteCode>::empty(),
            r.locs() == Seq::<Seq<u8>>::empty(),
    {
        let r = ParseProtoBuilder {
            constants: Vec::new(),
            byte_codes: Vec::new(),
            locals: Vec::new(),
            lex: Lex::new(input),
        };
        proof {
            assert(const_views(r.constants@) =~= Seq::<ValueV>::empty());
            assert(local_views(r.locals@) =~= Seq::<Seq<u8>>::empty());
        }
        r
    }

    /// Interns a constant: an existing structurally-equal entry is reused,
    /// otherwise the value is appended — so the pool never holds the same
    /// constant twice.
    #[verifier::loop_isolation(false)]
    fn add_const(&mut self, c: Value) -> (r: Result<u8, CompileError>)
        requires
            old(self).wf_b(),
            c.wf(),
        ensures
            final(self).wf_b(),
            final(self).codes() == old(self).codes(),
            final(self).locs() == old(self).locs(),
            final(self).lex == old(self).lex,
            match r {
                Ok(k) => {
                    &&& add_const_spec(old(self).pool(), c@) matches Some(pr)
                    &&& final(self).pool() == pr.0
                    &&& k as int == pr.1
                },
                Err(e) => {
                    &&& e@ == CompileErrV::TooManyConstants
                    &&& add_const_spec(old(self).pool(), c@) is None
                    &&& final(self).pool() == old(self).pool()
                },
            },
    {
        let ghost pool = self.pool();
        let n = self.constants.len();
        let mut i: usize = 0;
        while i < n
            invariant
                i <= n,
                n == self.constants@.len(),
                pool == self.pool(),
                find_from(pool, c@, 0) == find_from(pool, c@, i as int),
            decreases n - i,
        {
            if self.constants[i] == c {
                proof {
                    assert(pool[i as int] == self.constants@[i as int]@);
                }
                return Ok(i as u8);
            }
            proof {
                assert(pool[i as int] == self.constants@[i as int]@);
            }
            i += 1;
        }
        if n == 256 {
            return Err(CompileError::TooManyConstants);
        }
        self.constants.push(c);
        proof {
            assert(self.pool() =~= pool.push(c@));
            lemma_find_from(pool, c@, 0);
        }
        Ok(n as u8)
    }

    /// Register of the most recently declared local with this name.
    fn get_local(&self, name: &Vec<u8>) -> (r: Option<usize>)
        ensures
            match find_local(self.locs(), name@) {
                Some(i) => r == Some(i as usize),
                None => r is None,
            },
    {
        let ghost locs = self.locs();
        let mut i = self.locals.len();
        proof {
            assert(locs.take(i as int) =~= locs);
        }
        while i > 0
            invariant
                i <= self.locals@.len(),
                locs == self.locs(),
                find_local(locs, name@) == find_local(locs.take(i as int), name@),
            decreases i,
        {
            i -= 1;
            proof {
                let tk = locs.take((i + 1) as int);
                assert(tk.last() == locs[i as int]);
                assert(locs[i as int] == self.locals@[i as int]@);
            }
            if bytes_equal(&self.locals[i], name) {
                return Some(i);
            }
            proof {
                let tk = locs.take((i + 1) as int);
                assert(tk.drop_last() =~= locs.take(i as int));
            }
        }
        None
    }

    /// Loads a variable into `dst`: a register move for a local, else a
    /// global load through the interned name.
    fn load_var(&mut self, dst: u8, name: Vec<u8>) -> (r: Result<ByteCode, CompileError>)
        requires
            old(self).wf_b(),
        ensures
            final(self).wf_b(),
            final(self).codes() == old(self).codes(),
            final(self).locs() == old(self).locs(),
            final(self).lex == old(self).lex,
            match load_var_spec(old(self).pool(), old(self).locs(), name@, dst) {
                Some((code, pool2)) => {
                    &&& r matches Ok(c)
                    &&& c == code
                    &&& final(self).pool() == pool2
                },
                None => {
                    &&& r matches Err(e)
                    &&& e@ == CompileErrV::TooManyConstants
                    &&& final(self).pool() == old(self).pool()
                },
            },
    {
        match self.get_local(&name) {
            Some(i) => {
                proof {
                    lemma_find_local_bounds(self.locs(), name@);
                }
                Ok(ByteCode::Move(dst, i as u8))
            }
            None => match self.add_const(Value::from_bytes(name)) {
                Ok(k) => Ok(ByteCode::GetGlobal(dst, k)),
                Err(e) => Err(e),
            },
        }
    }

    /// Interns a constant and forms the instruction loading it into `dst`.
    fn load_const(&mut self, dst: u8, c: Value) -> (r: Result<ByteCode, CompileError>)
        requires
            old(self).wf_b(),
            c.wf(),
        ensures
            final(self).wf_b(),
            final(self).codes() == old(self).codes(),
            final(self).locs() == old(self).locs(),
            final(self).lex == old(self).lex,
            match add_const_spec(old(self).pool(), c@) {
                Some((pool2, k)) => {
                    &&& r matches Ok(code)
                    &&& code == ByteCode::LoadConst(dst, k as u8)
                    &&& final(self).pool() == pool2
                },
                None => {
                    &&& r matches Err(e)
                    &&& e@ == CompileErrV::TooManyConstants
                    &&& final(self).pool() == old(self).pool()
                },
            },
    {
        match self.add_const(c) {
            Ok(k) => Ok(ByteCode::LoadConst(dst, k)),
            Err(e) => Err(e),
        }
    }

    /// Compiles one expression token into register `dst` and emits the
    /// instruction.
    fn load_exp(&mut self, dst: u8) -> (r: Result<(), CompileError>)
        requires
            old(self).wf_b(),
        ensures
            final(self).wf_b(),
            final(self).src() == old(self).src(),
            final(self).locs() == old(self).locs(),
            match old(self).lex.upcoming() {
                LexStep::Fail(k, p) => {
                    &&& r matches Err(e)
                    &&& e@ == CompileErrV::Lex(k, p)
                },
                LexStep::Tok(t, np) => match exp_step(t, dst, old(self).pool(), old(self).locs()) {
                    ExpOut::Emit(code, pool2) => {
                        &&& r is Ok
                        &&& final(self).pool() == pool2
                        &&& final(self).codes() == old(self).codes().push(code)
                        &&& final(self).lex.cur() == np
                        &&& final(self).lex.ahead_view() is None
                    },
                    ExpOut::Invalid => {
                        &&& r matches Err(e)
                        &&& e@ == CompileErrV::InvalidArgument(t)
                    },
                    ExpOut::PoolFull => {
                        &&& r matches Err(e)
                        &&& e@ == CompileErrV::TooManyConstants
                    },
                },
            },
    {
        let t = match self.lex.next() {
            Ok(t) => t,
            Err(e) => return Err(CompileError::Lex(e)),
        };
        let code = match t {
            Token::Nil => ByteCode::LoadNil(dst),
            Token::True => ByteCode::LoadBool(dst, true),
            Token::False => ByteCode::LoadBool(dst, false),
            Token::Integer(i) => if -32768 <= i && i <= 32767 {
                ByteCode::LoadInt(dst, i as i16)
            } else {
                match self.add_const(Value::Integer(i)) {
                    Ok(k) => ByteCode::LoadConst(dst, k),
                    Err(e) => return Err(e),
                }
            },
            Token::Float(text) => match self.add_const(Value::Float(text)) {
                Ok(k) => ByteCode::LoadConst(dst, k),
                Err(e) => return Err(e),
            },
            Token::String(s) => match self.add_const(Value::from_bytes(s)) {
                Ok(k) => ByteCode::LoadConst(dst, k),
                Err(e) => return Err(e),
            },
            Token::Name(name) => match self.load_var(dst, name) {
                Ok(code) => code,
                Err(e) => return Err(e),
            },
            other => return Err(CompileError::InvalidArgument(other)),
        };
        self.byte_codes.push(code);
        Ok(())
    }

    /// Compiles an assignment statement; the `=` after the name is still
    /// unconsumed (it has been peeked at).
    fn assignment(&mut self, var: Vec<u8>) -> (r: Result<(), CompileError>)
        requires
            old(self).wf_b(),
            old(self).lex.upcoming() matches LexStep::Tok(TokenV::Assign, _),
        ensures
            final(self).wf_b(),
            final(self).src() == old(self).src(),
            match assignment_spec(
                old(self).src(),
                old(self).lex.upcoming_end(),
                var@,
                old(self).pool(),
                old(self).codes(),
                old(self).locs(),
            ) {
                StmtOut::Next(pos2, pool2, codes2, locals2) => {
                    &&& r is Ok
                    &&& final(self).pool() == pool2
                    &&& final(self).codes() == codes2
                    &&& final(self).locs() == locals2
                    &&& final(self).lex.cur() == pos2
                    &&& final(self).lex.ahead_view() is None
                },
                StmtOut::Fail(e) => r matches Err(er) && er@ == e,
            },
    {
        proof {
            reveal(assignment_spec);
        }
        // consume the peeked `=`
        match self.lex.next() {
            Ok(_) => {}
            Err(_) => {
                proof {
                    assert(false);
                }
                return Err(CompileError::TooManyConstants);
            }
        }
        match self.get_local(&var) {
            Some(i) => {
                // a known local: compile the right-hand side into its register
                proof {
                    lemma_find_local_bounds(self.locs(), var@);
                }
                match self.load_exp(i as u8) {
                    Ok(()) => Ok(()),
                    Err(e) => Err(e),
                }
            }
            None => {
                // a global: intern the name, then store by the right-hand form
                let dst = match self.add_const(Value::from_bytes(var)) {
                    Ok(k) => k,
                    Err(e) => return Err(e),
                };
                let t2 = match self.lex.next() {
                    Ok(t) => t,
                    Err(e) => return Err(CompileError::Lex(e)),
                };
                let code = match t2 {
                    Token::Nil => match self.add_const(Value::Nil) {
                        Ok(k) => ByteCode::SetGlobalConst(dst, k),
                        Err(e) => return Err(e),
                    },
                    Token::True => match self.add_const(Value::Boolean(true)) {
                        Ok(k) => ByteCode::SetGlobalConst(dst, k),
                        Err(e) => return Err(e),
                    },
                    Token::False => match self.add_const(Value::Boolean(false)) {
                        Ok(k) => ByteCode::SetGlobalConst(dst, k),
                        Err(e) => return Err(e),
                    },
                    Token::Integer(i) => match self.add_const(Value::Integer(i)) {
                        Ok(k) => ByteCode::SetGlobalConst(dst, k),
                        Err(e) => return Err(e),
                    },
                    Token::Float(text) => match self.add_const(Value::Float(text)) {
                        Ok(k) => ByteCode::SetGlobalConst(dst, k),
                        Err(e) => return Err(e),
                    },
                    Token::String(s) => match self.add_const(Value::from_bytes(s)) {
                        Ok(k) => ByteCode::SetGlobalConst(dst, k),
                        Err(e) => return Err(e),
                    },
                    Token::Name(var2) => match self.get_local(&var2) {
                        Some(j) => {
                            proof {
                                lemma_find_local_bounds(self.locs(), var2@);
                            }
                            ByteCode::SetGlobal(dst, j as u8)
                        }
                        None => match self.add_const(Value::from_bytes(var2)) {
                            Ok(k) => ByteCode::SetGlobalGlobal(dst, k),
                            Err(e) => return Err(e),
                        },
                    },
                    other => return Err(CompileError::InvalidArgument(other)),
                };
                self.byte_codes.push(code);
                Ok(())
            }
        }
    }

    /// Compiles a call statement; the token after the callee name is still
    /// unconsumed (it has been peeked at).
    fn function_call(&mut self, name: Vec<u8>) -> (r: Result<(), CompileError>)
        requires
            old(self).wf_b(),
            old(self).lex.upcoming() matches LexStep::Tok(_, _),
        ensures
            final(self).wf_b(),
            final(self).src() == old(self).src(),
            match call_spec(
                old(self).src(),
                old(self).lex.upcoming_tok(),
                old(self).lex.upcoming_end(),
                name@,
                old(self).pool(),
                old(self).codes(),
                old(self).locs(),
            ) {
                StmtOut::Next(pos2, pool2, codes2, locals2) => {
                    &&& r is Ok
                    &&& final(self).pool() == pool2
                    &&& final(self).codes() == codes2
                    &&& final(self).locs() == locals2
                    &&& final(self).lex.cur() == pos2
                    &&& final(self).lex.ahead_view() is None
                },
                StmtOut::Fail(e) => r matches Err(er) && er@ == e,
            },
    {
        proof {
            reveal(call_spec);
        }
        let base_idx = self.locals.len();
        if base_idx + 1 > 255 {
            return Err(CompileError::TooManyLocals);
        }
        let base = base_idx as u8;
        // load the callee into the next free register
        let code1 = match self.load_var(base, name) {
            Ok(c) => c,
            Err(e) => return Err(e),
        };
        self.byte_codes.push(code1);
        let t = match self.lex.next() {
            Ok(t) => t,
            Err(_) => {
                proof {
                    assert(false);
                }
                return Err(CompileError::TooManyConstants);
            }
        };
        match t {
            Token::ParL => {
                // the single argument goes into the register after the callee
                match self.load_exp(base + 1) {
                    Ok(()) => {}
                    Err(e) => return Err(e),
                }
                let t3 = match self.lex.next() {
                    Ok(t) => t,
                    Err(e) => return Err(CompileError::Lex(e)),
                };
                if !(matches!(t3, Token::ParR)) {
                    return Err(CompileError::ExpectedParR(t3));
                }
                self.byte_codes.push(ByteCode::Call(base, 1));
                Ok(())
            }
            Token::String(s) => {
                let code2 = match self.load_const(base + 1, Value::from_bytes(s)) {
                    Ok(c) => c,
                    Err(e) => return Err(e),
                };
                self.byte_codes.push(code2);
                self.byte_codes.push(ByteCode::Call(base, 1));
                Ok(())
            }
            other => Err(CompileError::ExpectedString(other)),
        }
    }

    /// Compiles a local declaration; the `local` keyword has just been
    /// consumed. The initializer is compiled before the name is appended,
    /// so the new local is not visible to its own initializer.
    fn local(&mut self) -> (r: Result<(), CompileError>)
        requires
            old(self).wf_b(),
            old(self).lex.ahead_view() is None,
        ensures
            final(self).wf_b(),
            final(self).src() == old(self).src(),
            match local_spec(
                old(self).src(),
                old(self).lex.cur(),
                old(self).pool(),
                old(self).codes(),
                old(self).locs(),
            ) {
                StmtOut::Next(pos2, pool2, codes2, locals2) => {
                    &&& r is Ok
                    &&& final(self).pool() == pool2
                    &&& final(self).codes() == codes2
                    &&& final(self).locs() == locals2
                    &&& final(self).lex.cur() == pos2
                    &&& final(self).lex.ahead_view() is None
                },
                StmtOut::Fail(e) => r matches Err(er) && er@ == e,
            },
    {
        proof {
            reveal(local_spec);
        }
        let t = match self.lex.next() {
            Ok(t) => t,
            Err(e) => return Err(CompileError::Lex(e)),
        };
        let var = match t {
            Token::Name(v) => v,
            other => return Err(CompileError::ExpectedVariable(other)),
        };
        let t2 = match self.lex.next() {
            Ok(t) => t,
            Err(e) => return Err(CompileError::Lex(e)),
        };
        if !(matches!(t2, Token::Assign)) {
            return Err(CompileError::ExpectedAssign(t2));
        }
        let n = self.locals.len();
        if n > 255 {
            return Err(CompileError::TooManyLocals);
        }
        let ghost locs_before = self.locs();
        match self.load_exp(n as u8) {
            Ok(()) => {}
            Err(e) => return Err(e),
        }
        self.locals.push(var);
        proof {
            assert(self.locs() =~= locs_before.push(self.locals@.last()@));
        }
        Ok(())
    }

    /// Drives the statement loop to the end of the stream: afterwards the
    /// pool and instructions are exactly what [`compile_from`] gives from
    /// the starting state.
    #[verifier::rlimit(100)]
    #[verifier::spinoff_prover]
    fn run(&mut self) -> (r: Result<(), CompileError>)
        requires
            old(self).wf_b(),
            old(self).lex.ahead_view() is None,
        ensures
            final(self).wf_b(),
            match compile_from(
                old(self).src(),
                old(self).lex.cur(),
                old(self).pool(),
                old(self).codes(),
                old(self).locs(),
            ) {
                CompileOut::Finish(pool, codes) => {
                    &&& r is Ok
                    &&& final(self).pool() == pool
                    &&& final(self).codes() == codes
                },
                CompileOut::Fail(e) => r matches Err(er) && er@ == e,
            },
    {
        let ghost g_src = old(self).src();
        loop
            invariant
                self.wf_b(),
                self.lex.ahead_view() is None,
                self.src() == g_src,
                g_src == old(self).src(),
                compile_from(g_src, self.lex.cur(), self.pool(), self.codes(), self.locs())
                    == compile_from(
                    g_src,
                    old(self).lex.cur(),
                    old(self).pool(),
                    old(self).codes(),
                    old(self).locs(),
                ),
            decreases g_src.len() - self.lex.cur(),
        {
            let ghost pos0 = self.lex.cur();
            let ghost pool0 = self.pool();
            let ghost codes0 = self.codes();
            let ghost locs0 = self.locs();
            proof {
                lemma_next_token_advances(g_src, pos0);
            }
            let t = match self.lex.next() {
                Ok(t) => t,
                Err(e) => return Err(CompileError::Lex(e)),
            };
            match t {
                Token::Eos => {
                    return Ok(());
                }
                Token::Name(name) => {
                    let ghost np = self.lex.cur();
                    let is_assign = match self.lex.peek() {
                        Ok(tk) => matches!(tk, Token::Assign),
                        Err(e) => return Err(CompileError::Lex(e)),
                    };
                    proof {
                        lemma_next_token_advances(g_src, np);
                    }
                    let ghost np2 = self.lex.upcoming_end();
                    if is_assign {
                        proof {
                            lemma_assignment_advances(g_src, np2, name@, pool0, codes0, locs0);
                        }
                        match self.assignment(name) {
                            Ok(()) => {}
                            Err(e) => return Err(e),
                        }
                    } else {
                        proof {
                            lemma_call_advances(
                                g_src,
                                self.lex.upcoming_tok(),
                                np2,
                                name@,
                                pool0,
                                codes0,
                                locs0,
                            );
                        }
                        match self.function_call(name) {
                            Ok(()) => {}
                            Err(e) => return Err(e),
                        }
                    }
                }
                Token::Local => {
                    proof {
                        lemma_local_advances(g_src, self.lex.cur(), pool0, codes0, locs0);
                    }
                    match self.local() {
                        Ok(()) => {}
                        Err(e) => return Err(e),
                    }
                }
                other => {
                    return Err(CompileError::UnexpectedToken(other));
                }
            }
        }
    }
}

/// A compiled program: the deduplicated constant pool and the instruction
/// sequence. Immutable once compilation is done.
#[derive(Debug)]
pub struct ParseProto {
    pub constants: Vec<Value>,
    pub byte_codes: Vec<ByteCode>,
}

impl ParseProto {
    /// Compiles a whole source buffer into a program: exactly the pool and
    /// instructions that [`compile_src`] gives, or exactly its error. The
    /// pool holds no duplicate and only well-formed values.
    pub fn load<S: ByteStream>(input: S) -> (r: Result<ParseProto, CompileError>)
        ensures
            match compile_src(input.stream_bytes()) {
                CompileOut::Finish(pool, codes) => {
                    &&& r matches Ok(p)
                    &&& const_views(p.constants@) == pool
                    &&& p.byte_codes@ == codes
                    &&& no_dup_constants(pool)
                    &&& forall|i: int|
                        0 <= i < p.constants@.len() ==> (#[trigger] p.constants@[i]).wf()
                },
                CompileOut::Fail(e) => r matches Err(er) && er@ == e,
            },
    {
        let mut builder = ParseProtoBuilder::new(input);
        match builder.run() {
            Ok(()) => Ok(ParseProto { constants: builder.constants, byte_codes: builder.byte_codes }),
            Err(e) => Err(e),
        }
    }

    /// The byte content of the string constant at `index`: the name an
    /// instruction uses to address a global.
    pub fn get_global(&self, index: usize) -> (r: Result<Vec<u8>, RuntimeError>)
        ensures
            if index < self.constants@.len() {
                match str_bytes_of(self.constants@[index as int]@) {
                    Some(bytes) => r matches Ok(b) && b@ == bytes,
                    None => r matches Err(e) && e@ == RtErrV::GlobalKeyNotString(index as int),
                }
            } else {
                r matches Err(e) && e@ == RtErrV::ConstIndexOutOfBounds(index as int)
            },
    {
        if index >= self.constants.len() {
            return Err(RuntimeError::ConstIndexOutOfBounds(index));
        }
        match self.constants[index].as_str_bytes() {
            Some(b) => Ok(b),
            None => Err(RuntimeError::GlobalKeyNotString(index)),
        }
    }
}

} // verus!
