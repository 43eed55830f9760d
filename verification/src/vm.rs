//! Virtual machine: executes a compiled program's instruction sequence top
//! to bottom against a register stack and a global-name table. The effect
//! of every instruction is given by the spec function [`step`]; running a
//! whole program is [`run`], and [`ExeState::execute`] is proved to realize
//! it exactly.
//!
//! The machine validates constant and stack indices defensively, but for
//! programs the compiler produced those checks never fire:
//! [`lemma_compiled_program_runs_safely`] shows the only runtime error a
//! compiled program can raise is a call of a non-callable value.

use crate::bytecode::ByteCode;
use crate::error::{RtErrV, RuntimeError};
use crate::lex::{next_token_spec, LexStep, TokenV};
use crate::parse::{
    add_const_spec, assignment_spec, call_spec, compile_from, compile_src, const_views, exp_step,
    find_local, lemma_add_const_spec_found, lemma_find_local_bounds, lemma_pool_grows_by_append,
    load_var_spec, local_spec, CompileOut, ExpOut, ParseProto, StmtOut,
};
use crate::value::{
    bytes_equal, copy_bytes, display_of, str_bytes_of, str_view_of, NativeFn, Value, ValueV,
};
use vstd::prelude::*;

verus! {

/// Model of the machine: the globals, the register stack, the base
/// register of the current call, and everything printed so far.
pub struct StateV {
    pub globals: Map<Seq<u8>, ValueV>,
    pub stack: Seq<ValueV>,
    pub func_index: int,
    pub output: Seq<u8>,
}

/// No two global entries carry the same name.
pub open spec fn unique_keys(gs: Seq<(Vec<u8>, Value)>) -> bool {
    forall|i: int, j: int| 0 <= i < j < gs.len() ==> gs[i].0@ != gs[j].0@
}

/// The name-to-value map an association list holds; a later entry for the
/// same name would win, and unique keys make that moot.
pub open spec fn globals_map(gs: Seq<(Vec<u8>, Value)>) -> Map<Seq<u8>, ValueV>
    decreases gs.len(),
{
    if gs.len() == 0 {
        Map::empty()
    } else {
        globals_map(gs.drop_last()).insert(gs.last().0@, gs.last().1@)
    }
}

proof fn lemma_unique_drop_last(gs: Seq<(Vec<u8>, Value)>)
    requires
        unique_keys(gs),
        gs.len() > 0,
    ensures
        unique_keys(gs.drop_last()),
{
    assert forall|i: int, j: int|
        0 <= i < j < gs.drop_last().len() implies gs.drop_last()[i].0@ != gs.drop_last()[j].0@ by {
        assert(gs[i].0@ != gs[j].0@);
    }
}

proof fn lemma_globals_map_get(gs: Seq<(Vec<u8>, Value)>, i: int)
    requires
        unique_keys(gs),
        0 <= i < gs.len(),
    ensures
        globals_map(gs).contains_key(gs[i].0@),
        globals_map(gs)[gs[i].0@] == gs[i].1@,
    decreases gs.len(),
{
    if i < gs.len() - 1 {
        lemma_unique_drop_last(gs);
        lemma_globals_map_get(gs.drop_last(), i);
        assert(gs.last().0@ != gs[i].0@);
    }
}

proof fn lemma_globals_map_absent(gs: Seq<(Vec<u8>, Value)>, k: Seq<u8>)
    requires
        forall|i: int| 0 <= i < gs.len() ==> (#[trigger] gs[i]).0@ != k,
    ensures
        !globals_map(gs).contains_key(k),
    decreases gs.len(),
{
    if gs.len() > 0 {
        lemma_globals_map_absent(gs.drop_last(), k);
    }
}

proof fn lemma_globals_map_update(gs: Seq<(Vec<u8>, Value)>, i: int, p: (Vec<u8>, Value))
    requires
        unique_keys(gs),
        0 <= i < gs.len(),
        p.0@ == gs[i].0@,
    ensures
        globals_map(gs.update(i, p)) == globals_map(gs).insert(p.0@, p.1@),
        unique_keys(gs.update(i, p)),
    decreases gs.len(),
{
    let gs2 = gs.update(i, p);
    lemma_unique_drop_last(gs);
    if i == gs.len() - 1 {
        assert(gs2.drop_last() =~= gs.drop_last());
        assert(globals_map(gs.drop_last()).insert(gs[i].0@, gs[i].1@).insert(p.0@, p.1@)
            =~= globals_map(gs.drop_last()).insert(p.0@, p.1@));
    } else {
        assert(gs2.drop_last() =~= gs.drop_last().update(i, p));
        lemma_globals_map_update(gs.drop_last(), i, p);
        assert(gs.last().0@ != p.0@);
        assert(globals_map(gs.drop_last()).insert(p.0@, p.1@).insert(gs.last().0@, gs.last().1@)
            =~= globals_map(gs.drop_last()).insert(gs.last().0@, gs.last().1@).insert(
            p.0@,
            p.1@,
        ));
    }
}

proof fn lemma_globals_map_push(gs: Seq<(Vec<u8>, Value)>, p: (Vec<u8>, Value))
    requires
        unique_keys(gs),
        forall|i: int| 0 <= i < gs.len() ==> (#[trigger] gs[i]).0@ != p.0@,
    ensures
        globals_map(gs.push(p)) == globals_map(gs).insert(p.0@, p.1@),
        unique_keys(gs.push(p)),
{
    assert(gs.push(p).drop_last() =~= gs);
}

/// Writing to a register: in place inside the stack, else the stack grows
/// with nil up to the register and the value lands in it — a write never
/// fails for the stack's size.
pub open spec fn set_stack_spec(stack: Seq<ValueV>, dst: int, v: ValueV) -> Seq<ValueV> {
    if dst < stack.len() {
        stack.update(dst, v)
    } else {
        stack + Seq::new((dst - stack.len()) as nat, |i: int| ValueV::Nil) + seq![v]
    }
}

/// The effect of one instruction on the machine state, or the exact
/// runtime error it stops on. Constant and stack indices are validated
/// defensively; a call demands a callable value at the base register.
pub open spec fn step(s: StateV, consts: Seq<ValueV>, code: ByteCode) -> Result<StateV, RtErrV> {
    match code {
        ByteCode::LoadNil(dst) => Ok(
            StateV { stack: set_stack_spec(s.stack, dst as int, ValueV::Nil), ..s },
        ),
        ByteCode::LoadBool(dst, b) => Ok(
            StateV { stack: set_stack_spec(s.stack, dst as int, ValueV::Boolean(b)), ..s },
        ),
        ByteCode::LoadInt(dst, i) => Ok(
            StateV {
                stack: set_stack_spec(s.stack, dst as int, ValueV::Integer(i as i64)),
                ..s
            },
        ),
        ByteCode::LoadConst(dst, k) => if k < consts.len() {
            Ok(StateV { stack: set_stack_spec(s.stack, dst as int, consts[k as int]), ..s })
        } else {
            Err(RtErrV::ConstIndexOutOfBounds(k as int))
        },
        ByteCode::Move(dst, src) => if src < s.stack.len() {
            Ok(StateV { stack: set_stack_spec(s.stack, dst as int, s.stack[src as int]), ..s })
        } else {
            Err(RtErrV::StackIndexOutOfBounds(src as int))
        },
        ByteCode::GetGlobal(dst, k) => if k < consts.len() {
            match str_bytes_of(consts[k as int]) {
                Some(name) => {
                    let v = if s.globals.contains_key(name) {
                        s.globals[name]
                    } else {
                        ValueV::Nil
                    };
                    Ok(StateV { stack: set_stack_spec(s.stack, dst as int, v), ..s })
                },
                None => Err(RtErrV::GlobalKeyNotString(k as int)),
            }
        } else {
            Err(RtErrV::ConstIndexOutOfBounds(k as int))
        },
        ByteCode::SetGlobalConst(kn, kv) => if kn < consts.len() {
            match str_bytes_of(consts[kn as int]) {
                Some(name) => if kv < consts.len() {
                    Ok(StateV { globals: s.globals.insert(name, consts[kv as int]), ..s })
                } else {
                    Err(RtErrV::ConstIndexOutOfBounds(kv as int))
                },
                None => Err(RtErrV::GlobalKeyNotString(kn as int)),
            }
        } else {
            Err(RtErrV::ConstIndexOutOfBounds(kn as int))
        },
        ByteCode::SetGlobal(kn, src) => if kn < consts.len() {
            match str_bytes_of(consts[kn as int]) {
                Some(name) => if src < s.stack.len() {
                    Ok(StateV { globals: s.globals.insert(name, s.stack[src as int]), ..s })
                } else {
                    Err(RtErrV::StackIndexOutOfBounds(src as int))
                },
                None => Err(RtErrV::GlobalKeyNotString(kn as int)),
            }
        } else {
            Err(RtErrV::ConstIndexOutOfBounds(kn as int))
        },
        ByteCode::SetGlobalGlobal(kn, ks) => if kn < consts.len() {
            match str_bytes_of(consts[kn as int]) {
                Some(name) => if ks < consts.len() {
                    match str_bytes_of(consts[ks as int]) {
                        Some(name2) => {
                            let v = if s.globals.contains_key(name2) {
                                s.globals[name2]
                            } else {
                                ValueV::Nil
                            };
                            Ok(StateV { globals: s.globals.insert(name, v), ..s })
                        },
                        None => Err(RtErrV::GlobalKeyNotString(ks as int)),
                    }
                } else {
                    Err(RtErrV::ConstIndexOutOfBounds(ks as int))
                },
                None => Err(RtErrV::GlobalKeyNotString(kn as int)),
            }
        } else {
            Err(RtErrV::ConstIndexOutOfBounds(kn as int))
        },
        ByteCode::Call(base, _argc) => if base < s.stack.len() {
            match s.stack[base as int] {
                ValueV::Function(NativeFn::Print) => if base + 1 < s.stack.len() {
                    Ok(
                        StateV {
                            func_index: base as int,
                            output: s.output + display_of(s.stack[base + 1]) + seq![10u8],
                            ..s
                        },
                    )
                } else {
                    Err(RtErrV::StackIndexOutOfBounds(base + 1))
                },
                v => Err(RtErrV::NotCallable(v)),
            }
        } else {
            Err(RtErrV::StackIndexOutOfBounds(base as int))
        },
    }
}

/// Running a program: the instructions in sequence, stopping at the first
/// error.
pub open spec fn run(s: StateV, consts: Seq<ValueV>, codes: Seq<ByteCode>) -> Result<
    StateV,
    RtErrV,
>
    decreases codes.len(),
{
    if codes.len() == 0 {
        Ok(s)
    } else {
        match step(s, consts, codes[0]) {
            Ok(s2) => run(s2, consts, codes.subrange(1, codes.len() as int)),
            Err(e) => Err(e),
        }
    }
}

/// The name of the one built-in: `print`.
pub open spec fn print_name() -> Seq<u8> {
    seq![112u8, 114u8, 105u8, 110u8, 116u8]
}

/// The machine state execution starts from: `print` bound, an empty
/// stack, and nothing printed.
pub open spec fn initial_state() -> StateV {
    StateV {
        globals: Map::empty().insert(print_name(), ValueV::Function(NativeFn::Print)),
        stack: Seq::empty(),
        func_index: 0,
        output: Seq::empty(),
    }
}

/// The virtual machine's mutable runtime: the global-name table, the
/// register stack, the current call's base register, and the bytes the
/// built-in `print` has written.
#[derive(Debug)]
pub struct ExeState {
    globals: Vec<(Vec<u8>, Value)>,
    stack: Vec<Value>,
    func_index: usize,
    output: Vec<u8>,
}

impl ExeState {
    /// The global-name table.
    pub closed spec fn glb(&self) -> Map<Seq<u8>, ValueV> {
        globals_map(self.globals@)
    }

    /// The register stack.
    pub closed spec fn stk(&self) -> Seq<ValueV> {
        self.stack@.map_values(|v: Value| v@)
    }

    /// Everything printed so far.
    pub closed spec fn out(&self) -> Seq<u8> {
        self.output@
    }

    /// The current call's base register.
    pub closed spec fn fidx(&self) -> int {
        self.func_index as int
    }

    /// The whole machine state.
    pub open spec fn state(&self) -> StateV {
        StateV {
            globals: self.glb(),
            stack: self.stk(),
            func_index: self.fidx(),
            output: self.out(),
        }
    }

    /// The global table holds each name once.
    pub closed spec fn wf_s(&self) -> bool {
        unique_keys(self.globals@)
    }

    /// A fresh machine: `print` bound, empty stack, empty output.
    pub fn new() -> (r: ExeState)
        ensures
            r.wf_s(),
            r.state() == initial_state(),
    {
        let name = vec![112u8, 114u8, 105u8, 110u8, 116u8];
        let mut globals: Vec<(Vec<u8>, Value)> = Vec::new();
        globals.push((name, Value::Function(NativeFn::Print)));
        let r = ExeState { globals, stack: Vec::new(), func_index: 0, output: Vec::new() };
        proof {
            reveal_with_fuel(globals_map, 2);
            assert(r.globals@.drop_last() =~= Seq::<(Vec<u8>, Value)>::empty());
            assert(r.globals@.last().0@ =~= print_name());
            assert(r.state().globals =~= initial_state().globals);
            assert(r.state().stack =~= initial_state().stack);
            assert(r.state().output =~= initial_state().output);
        }
        r
    }

    /// A copy of everything the program printed.
    pub fn output(&self) -> (r: Vec<u8>)
        ensures
            r@ == self.out(),
    {
        copy_bytes(&self.output)
    }

    /// Index of the global entry with this name, if one exists.
    fn find_global(&self, key: &Vec<u8>) -> (r: Option<usize>)
        ensures
            match r {
                Some(i) => i < self.globals@.len() && self.globals@[i as int].0@ == key@,
                None => forall|i: int|
                    0 <= i < self.globals@.len() ==> (#[trigger] self.globals@[i]).0@ != key@,
            },
    {
        let n = self.globals.len();
        let mut i: usize = 0;
        while i < n
            invariant
                i <= n,
                n == self.globals@.len(),
                forall|j: int| 0 <= j < i ==> (#[trigger] self.globals@[j]).0@ != key@,
            decreases n - i,
        {
            if bytes_equal(&self.globals[i].0, key) {
                return Some(i);
            }
            i += 1;
        }
        None
    }

    /// The current value of a global, if it was ever assigned.
    fn get_global_val(&self, key: &Vec<u8>) -> (r: Option<Value>)
        requires
            self.wf_s(),
        ensures
            match r {
                Some(v) => self.glb().contains_key(key@) && v@ == self.glb()[key@],
                None => !self.glb().contains_key(key@),
            },
    {
        match self.find_global(key) {
            Some(i) => {
                proof {
                    lemma_globals_map_get(self.globals@, i as int);
                }
                Some(self.globals[i].1.clone())
            }
            None => {
                proof {
                    lemma_globals_map_absent(self.globals@, key@);
                }
                None
            }
        }
    }

    /// Binds a global name to a value, replacing any earlier binding.
    fn set_global_val(&mut self, key: Vec<u8>, v: Value)
        requires
            old(self).wf_s(),
        ensures
            final(self).wf_s(),
            final(self).glb() == old(self).glb().insert(key@, v@),
            final(self).stk() == old(self).stk(),
            final(self).out() == old(self).out(),
            final(self).fidx() == old(self).fidx(),
    {
        match self.find_global(&key) {
            Some(i) => {
                proof {
                    lemma_globals_map_update(self.globals@, i as int, (key, v));
                }
                self.globals.set(i, (key, v));
            }
            None => {
                proof {
                    lemma_globals_map_push(self.globals@, (key, v));
                }
                self.globals.push((key, v));
            }
        }
    }

    /// Writes a register, growing the stack with nil as far as needed: a
    /// write never fails for the stack's size.
    fn set_stack(&mut self, dst: u8, v: Value)
        requires
            old(self).wf_s(),
        ensures
            final(self).wf_s(),
            final(self).stk() == set_stack_spec(old(self).stk(), dst as int, v@),
            final(self).glb() == old(self).glb(),
            final(self).out() == old(self).out(),
            final(self).fidx() == old(self).fidx(),
    {
        let d = dst as usize;
        let ghost stk0 = self.stk();
        if d < self.stack.len() {
            self.stack.set(d, v);
            proof {
                assert(self.stk() =~= set_stack_spec(stk0, d as int, v@));
            }
        } else {
            let ghost n0 = self.stack@.len();
            self.stack.resize(d + 1, Value::Nil);
            self.stack.set(d, v);
            proof {
                assert forall|i: int| 0 <= i < d + 1 implies self.stk()[i] == set_stack_spec(
                    stk0,
                    d as int,
                    v@,
                )[i] by {
                    if i < n0 {
                        assert(self.stack@[i] == old(self).stack@[i]);
                    }
                }
                assert(self.stk() =~= set_stack_spec(stk0, d as int, v@));
            }
        }
    }

    /// Runs a program's instructions in sequence against this state:
    /// exactly the state transition that [`run`] gives, or exactly its
    /// first runtime error.
    pub fn execute(&mut self, proto: &ParseProto) -> (r: Result<(), RuntimeError>)
        requires
            old(self).wf_s(),
        ensures
            final(self).wf_s(),
            match run(old(self).state(), const_views(proto.constants@), proto.byte_codes@) {
                Ok(s2) => r is Ok && final(self).state() == s2,
                Err(e) => r matches Err(er) && er@ == e,
            },
    {
        let ghost cv = const_views(proto.constants@);
        let n = proto.byte_codes.len();
        proof {
            assert(proto.byte_codes@.subrange(0, n as int) =~= proto.byte_codes@);
        }
        let mut pc: usize = 0;
        while pc < n
            invariant
                self.wf_s(),
                n == proto.byte_codes@.len(),
                pc <= n,
                run(self.state(), cv, proto.byte_codes@.subrange(pc as int, n as int)) == run(
                    old(self).state(),
                    cv,
                    proto.byte_codes@,
                ),
                cv == const_views(proto.constants@),
            decreases n - pc,
        {
            let ghost s0 = self.state();
            let ghost rest = proto.byte_codes@.subrange(pc as int, n as int);
            let code = proto.byte_codes[pc];
            proof {
                assert(rest[0] == proto.byte_codes@[pc as int]);
                assert(rest.subrange(1, rest.len() as int) =~= proto.byte_codes@.subrange(
                    pc as int + 1,
                    n as int,
                ));
            }
            match code {
                ByteCode::LoadNil(dst) => {
                    self.set_stack(dst, Value::Nil);
                }
                ByteCode::LoadBool(dst, b) => {
                    self.set_stack(dst, Value::Boolean(b));
                }
                ByteCode::LoadInt(dst, i) => {
                    self.set_stack(dst, Value::Integer(i as i64));
                }
                ByteCode::LoadConst(dst, k) => {
                    if k as usize >= proto.constants.len() {
                        return Err(RuntimeError::ConstIndexOutOfBounds(k as usize));
                    }
                    let v = proto.constants[k as usize].clone();
                    proof {
                        assert(v@ == cv[k as int]);
                    }
                    self.set_stack(dst, v);
                }
                ByteCode::Move(dst, src) => {
                    if src as usize >= self.stack.len() {
                        return Err(RuntimeError::StackIndexOutOfBounds(src as usize));
                    }
                    let v = self.stack[src as usize].clone();
                    proof {
                        assert(v@ == self.stk()[src as int]);
                    }
                    self.set_stack(dst, v);
                }
                ByteCode::GetGlobal(dst, k) => {
                    let name = match proto.get_global(k as usize) {
                        Ok(b) => b,
                        Err(e) => return Err(e),
                    };
                    proof {
                        assert(cv[k as int] == proto.constants@[k as int]@);
                    }
                    let v = match self.get_global_val(&name) {
                        Some(v) => v,
                        None => Value::Nil,
                    };
                    self.set_stack(dst, v);
                }
                ByteCode::SetGlobalConst(kn, kv) => {
                    let name = match proto.get_global(kn as usize) {
                        Ok(b) => b,
                        Err(e) => return Err(e),
                    };
                    proof {
                        assert(cv[kn as int] == proto.constants@[kn as int]@);
                    }
                    if kv as usize >= proto.constants.len() {
                        return Err(RuntimeError::ConstIndexOutOfBounds(kv as usize));
                    }
                    let v = proto.constants[kv as usize].clone();
                    proof {
                        assert(v@ == cv[kv as int]);
                    }
                    self.set_global_val(name, v);
                }
                ByteCode::SetGlobal(kn, src) => {
                    let name = match proto.get_global(kn as usize) {
                        Ok(b) => b,
                        Err(e) => return Err(e),
                    };
                    proof {
                        assert(cv[kn as int] == proto.constants@[kn as int]@);
                    }
                    if src as usize >= self.stack.len() {
                        return Err(RuntimeError::StackIndexOutOfBounds(src as usize));
                    }
                    let v = self.stack[src as usize].clone();
                    proof {
                        assert(v@ == self.stk()[src as int]);
                    }
                    self.set_global_val(name, v);
                }
                ByteCode::SetGlobalGlobal(kn, ks) => {
                    let name = match proto.get_global(kn as usize) {
                        Ok(b) => b,
                        Err(e) => return Err(e),
                    };
                    let name2 = match proto.get_global(ks as usize) {
                        Ok(b) => b,
                        Err(e) => return Err(e),
                    };
                    proof {
                        assert(cv[kn as int] == proto.constants@[kn as int]@);
                        assert(cv[ks as int] == proto.constants@[ks as int]@);
                    }
                    let v = match self.get_global_val(&name2) {
                        Some(v) => v,
                        None => Value::Nil,
                    };
                    self.set_global_val(name, v);
                }
                ByteCode::Call(base, _argc) => {
                    self.func_index = base as usize;
                    if base as usize >= self.stack.len() {
                        return Err(RuntimeError::StackIndexOutOfBounds(base as usize));
                    }
                    let callable = matches!(&self.stack[base as usize], Value::Function(_));
                    if !callable {
                        let v = self.stack[base as usize].clone();
                        proof {
                            assert(v@ == self.stk()[base as int]);
                        }
                        return Err(RuntimeError::NotCallable(v));
                    }
                    // the one native function is `print`
                    if base as usize + 1 >= self.stack.len() {
                        return Err(RuntimeError::StackIndexOutOfBounds(base as usize + 1));
                    }
                    let _ = lib_print(self);
                }
            }
            pc += 1;
        }
        proof {
            assert(proto.byte_codes@.subrange(n as int, n as int) =~= Seq::<ByteCode>::empty());
        }
        Ok(())
    }
}

impl Default for ExeState {
    /// Same as [`ExeState::new`].
    fn default() -> (r: Self)
        ensures
            r.wf_s(),
            r.state() == initial_state(),
    {
        ExeState::new()
    }
}

/// An integer literal compiles to an immediate load when it fits the
/// signed 16-bit range and to a constant-pool load otherwise — and either
/// instruction leaves exactly that integer in the target register when run
/// against the pool the expression compiled with.
pub proof fn lemma_int_literal_loads_value(
    i: i64,
    dst: u8,
    pool: Seq<ValueV>,
    locals: Seq<Seq<u8>>,
    s: StateV,
)
    requires
        pool.len() <= 256,
    ensures
        (i16::MIN <= i <= i16::MAX) ==> crate::parse::exp_step(
            TokenV::Integer(i),
            dst,
            pool,
            locals,
        ) == crate::parse::ExpOut::Emit(ByteCode::LoadInt(dst, i as i16), pool),
        match crate::parse::exp_step(TokenV::Integer(i), dst, pool, locals) {
            crate::parse::ExpOut::Emit(code, pool2) => {
                &&& !(i16::MIN <= i <= i16::MAX) ==> (code matches ByteCode::LoadConst(d, _) && d
                    == dst)
                &&& step(s, pool2, code) matches Ok(s2) && s2 == StateV {
                    stack: set_stack_spec(s.stack, dst as int, ValueV::Integer(i)),
                    ..s
                }
            },
            crate::parse::ExpOut::PoolFull => !(i16::MIN <= i <= i16::MAX),
            crate::parse::ExpOut::Invalid => false,
        },
{
    if i16::MIN <= i <= i16::MAX {
    } else {
        match crate::parse::add_const_spec(pool, ValueV::Integer(i)) {
            Some((pool2, k)) => {
                crate::parse::lemma_add_const_spec_found(pool, ValueV::Integer(i));
            }
            None => {}
        }
    }
}

/// Calling a global that was never assigned fails with a runtime error
/// naming the non-callable value (nil): the global load leaves nil in the
/// base register and the call stops on it — never an out-of-bounds access.
pub proof fn lemma_undefined_global_call_fails(
    s: StateV,
    consts: Seq<ValueV>,
    base: u8,
    k: u8,
    name: Seq<u8>,
)
    requires
        k < consts.len(),
        str_bytes_of(consts[k as int]) == Some(name),
        !s.globals.contains_key(name),
    ensures
        run(s, consts, seq![ByteCode::GetGlobal(base, k), ByteCode::Call(base, 1)]) == Result::<
            StateV,
            RtErrV,
        >::Err(RtErrV::NotCallable(ValueV::Nil)),
{
    reveal_with_fuel(run, 3);
    let codes = seq![ByteCode::GetGlobal(base, k), ByteCode::Call(base, 1)];
    let stack2 = set_stack_spec(s.stack, base as int, ValueV::Nil);
    let s2 = StateV { stack: stack2, ..s };
    assert(step(s, consts, codes[0]) == Result::<StateV, RtErrV>::Ok(s2));
    assert(stack2[base as int] == ValueV::Nil) by {
        if (base as int) < s.stack.len() {
        } else {
            assert(stack2.len() == base + 1);
        }
    }
    assert(base < stack2.len());
    assert(codes.subrange(1, 2)[0] == ByteCode::Call(base, 1));
    assert(step(s2, consts, ByteCode::Call(base, 1)) == Result::<StateV, RtErrV>::Err(
        RtErrV::NotCallable(ValueV::Nil),
    ));
    assert(codes.subrange(1, 2).subrange(1, 1) =~= Seq::<ByteCode>::empty());
}

proof fn lemma_prefix_trans<T>(a: Seq<T>, b: Seq<T>, c: Seq<T>)
    requires
        a.is_prefix_of(b),
        b.is_prefix_of(c),
    ensures
        a.is_prefix_of(c),
{
    assert(c.subrange(0, a.len() as int) =~= a);
}

proof fn lemma_set_stack_len(stack: Seq<ValueV>, dst: int, v: ValueV)
    requires
        0 <= dst,
    ensures
        set_stack_spec(stack, dst, v).len() >= stack.len(),
        set_stack_spec(stack, dst, v).len() > dst,
{
}

/// Running a concatenation runs the first part, then the second from
/// wherever the first ended.
proof fn lemma_run_append(s: StateV, consts: Seq<ValueV>, a: Seq<ByteCode>, b: Seq<ByteCode>)
    ensures
        run(s, consts, a + b) == (match run(s, consts, a) {
            Ok(s2) => run(s2, consts, b),
            Err(e) => Err::<StateV, RtErrV>(e),
        }),
    decreases a.len(),
{
    if a.len() == 0 {
        assert(a + b =~= b);
    } else {
        assert((a + b)[0] == a[0]);
        match step(s, consts, a[0]) {
            Ok(s2) => {
                assert((a + b).subrange(1, (a + b).len() as int) =~= a.subrange(
                    1,
                    a.len() as int,
                ) + b);
                lemma_run_append(s2, consts, a.subrange(1, a.len() as int), b);
            }
            Err(_) => {}
        }
    }
}

/// A variable load emitted by the compiler steps without error: the move
/// reads a register the locals occupy, and the global load goes through a
/// string constant that keeps its slot.
proof fn lemma_load_var_safe(
    name: Seq<u8>,
    dst: u8,
    pool: Seq<ValueV>,
    locals: Seq<Seq<u8>>,
    code: ByteCode,
    pool2: Seq<ValueV>,
    consts: Seq<ValueV>,
    s: StateV,
)
    requires
        load_var_spec(pool, locals, name, dst) == Some((code, pool2)),
        pool.len() <= 256,
        locals.len() <= 256,
        pool2.is_prefix_of(consts),
        locals.len() <= s.stack.len(),
    ensures
        pool.is_prefix_of(pool2),
        pool2.len() <= 256,
        match step(s, consts, code) {
            Ok(s2) => s2 == (StateV { stack: s2.stack, ..s }) && s2.stack.len() >= s.stack.len()
                && s2.stack.len() > dst,
            Err(_) => false,
        },
{
    lemma_find_local_bounds(locals, name);
    match find_local(locals, name) {
        Some(i) => {
            assert(pool.is_prefix_of(pool2)) by {
                assert(pool.subrange(0, pool.len() as int) =~= pool);
            }
            lemma_set_stack_len(s.stack, dst as int, s.stack[i as int]);
        }
        None => {
            lemma_add_const_spec_found(pool, str_view_of(name));
            lemma_pool_grows_by_append(pool, str_view_of(name));
            let k = (add_const_spec(pool, str_view_of(name))->Some_0).1;
            assert(consts[k] == pool2[k]) by {
                assert(consts.subrange(0, pool2.len() as int)[k] == consts[k]);
            }
            lemma_set_stack_len(s.stack, dst as int, ValueV::Nil);
            match step(s, consts, code) {
                Ok(s2) => {
                    lemma_set_stack_len(s.stack, dst as int, s2.stack[dst as int]);
                }
                Err(_) => {}
            }
        }
    }
}

/// An instruction an expression compiles to steps without error and only
/// writes its target register.
proof fn lemma_exp_step_safe(
    t: TokenV,
    dst: u8,
    pool: Seq<ValueV>,
    locals: Seq<Seq<u8>>,
    code: ByteCode,
    pool2: Seq<ValueV>,
    consts: Seq<ValueV>,
    s: StateV,
)
    requires
        exp_step(t, dst, pool, locals) == ExpOut::Emit(code, pool2),
        pool.len() <= 256,
        locals.len() <= 256,
        pool2.is_prefix_of(consts),
        locals.len() <= s.stack.len(),
    ensures
        pool.is_prefix_of(pool2),
        pool2.len() <= 256,
        match step(s, consts, code) {
            Ok(s2) => s2 == (StateV { stack: s2.stack, ..s }) && s2.stack.len() >= s.stack.len()
                && s2.stack.len() > dst,
            Err(_) => false,
        },
{
    match t {
        TokenV::Name(name) => {
            lemma_load_var_safe(name, dst, pool, locals, code, pool2, consts, s);
        }
        TokenV::Nil => {
            assert(pool.subrange(0, pool.len() as int) =~= pool);
            lemma_set_stack_len(s.stack, dst as int, ValueV::Nil);
        }
        TokenV::True | TokenV::False => {
            assert(pool.subrange(0, pool.len() as int) =~= pool);
            lemma_set_stack_len(s.stack, dst as int, ValueV::Nil);
        }
        TokenV::Integer(i) => {
            if i16::MIN <= i <= i16::MAX {
                assert(pool.subrange(0, pool.len() as int) =~= pool);
                lemma_set_stack_len(s.stack, dst as int, ValueV::Integer(i));
            } else {
                lemma_add_const_spec_found(pool, ValueV::Integer(i));
                lemma_pool_grows_by_append(pool, ValueV::Integer(i));
                let k = (add_const_spec(pool, ValueV::Integer(i))->Some_0).1;
                assert(consts.subrange(0, pool2.len() as int)[k] == consts[k]);
                lemma_set_stack_len(s.stack, dst as int, consts[k]);
            }
        }
        TokenV::Float(text) => {
            lemma_add_const_spec_found(pool, ValueV::Float(text));
            lemma_pool_grows_by_append(pool, ValueV::Float(text));
            let k = (add_const_spec(pool, ValueV::Float(text))->Some_0).1;
            assert(consts.subrange(0, pool2.len() as int)[k] == consts[k]);
            lemma_set_stack_len(s.stack, dst as int, consts[k]);
        }
        TokenV::String(str_content) => {
            lemma_add_const_spec_found(pool, str_view_of(str_content));
            lemma_pool_grows_by_append(pool, str_view_of(str_content));
            let k = (add_const_spec(pool, str_view_of(str_content))->Some_0).1;
            assert(consts.subrange(0, pool2.len() as int)[k] == consts[k]);
            lemma_set_stack_len(s.stack, dst as int, consts[k]);
        }
        _ => {}
    }
}

proof fn lemma_run_one(s: StateV, consts: Seq<ValueV>, code: ByteCode)
    ensures
        run(s, consts, seq![code]) == (match step(s, consts, code) {
            Ok(s2) => Ok::<StateV, RtErrV>(s2),
            Err(e) => Err::<StateV, RtErrV>(e),
        }),
{
    reveal_with_fuel(run, 2);
    assert(seq![code][0] == code);
    assert(seq![code].subrange(1, 1) =~= Seq::<ByteCode>::empty());
}

proof fn lemma_load_var_extends(name: Seq<u8>, dst: u8, pool: Seq<ValueV>, locals: Seq<Seq<u8>>)
    requires
        pool.len() <= 256,
    ensures
        match load_var_spec(pool, locals, name, dst) {
            Some((_, p2)) => pool.is_prefix_of(p2) && p2.len() <= 256,
            None => true,
        },
{
    match find_local(locals, name) {
        Some(_) => {
            assert(pool.subrange(0, pool.len() as int) =~= pool);
        }
        None => {
            lemma_pool_grows_by_append(pool, str_view_of(name));
        }
    }
}

proof fn lemma_exp_step_extends(t: TokenV, dst: u8, pool: Seq<ValueV>, locals: Seq<Seq<u8>>)
    requires
        pool.len() <= 256,
    ensures
        match exp_step(t, dst, pool, locals) {
            ExpOut::Emit(_, p2) => pool.is_prefix_of(p2) && p2.len() <= 256,
            _ => true,
        },
{
    assert(pool.subrange(0, pool.len() as int) =~= pool);
    match t {
        TokenV::Integer(i) => {
            lemma_pool_grows_by_append(pool, ValueV::Integer(i));
        }
        TokenV::Float(text) => {
            lemma_pool_grows_by_append(pool, ValueV::Float(text));
        }
        TokenV::String(str_content) => {
            lemma_pool_grows_by_append(pool, str_view_of(str_content));
        }
        TokenV::Name(name) => {
            lemma_load_var_extends(name, dst, pool, locals);
        }
        _ => {}
    }
}

proof fn lemma_assignment_extends(
    src: Seq<u8>,
    pos: int,
    var: Seq<u8>,
    pool: Seq<ValueV>,
    codes: Seq<ByteCode>,
    locals: Seq<Seq<u8>>,
)
    requires
        pool.len() <= 256,
    ensures
        match assignment_spec(src, pos, var, pool, codes, locals) {
            StmtOut::Next(_, pool2, codes2, locals2) => pool.is_prefix_of(pool2) && pool2.len()
                <= 256 && codes.is_prefix_of(codes2) && locals2 == locals,
            StmtOut::Fail(_) => true,
        },
{
    reveal(assignment_spec);
    assert(pool.subrange(0, pool.len() as int) =~= pool);
    match find_local(locals, var) {
        Some(i) => {
            match next_token_spec(src, pos) {
                LexStep::Tok(t, _) => {
                    lemma_exp_step_extends(t, i as u8, pool, locals);
                    match exp_step(t, i as u8, pool, locals) {
                        ExpOut::Emit(code, _) => {
                            assert(codes.push(code).subrange(0, codes.len() as int) =~= codes);
                        }
                        _ => {}
                    }
                }
                LexStep::Fail(_, _) => {}
            }
        }
        None => {
            lemma_pool_grows_by_append(pool, str_view_of(var));
            match add_const_spec(pool, str_view_of(var)) {
                Some((pool1, _)) => {
                    match next_token_spec(src, pos) {
                        LexStep::Tok(t, _) => {
                            match t {
                                TokenV::Name(var2) => {
                                    lemma_pool_grows_by_append(pool1, str_view_of(var2));
                                }
                                TokenV::Nil => {
                                    lemma_pool_grows_by_append(pool1, ValueV::Nil);
                                }
                                TokenV::True => {
                                    lemma_pool_grows_by_append(pool1, ValueV::Boolean(true));
                                }
                                TokenV::False => {
                                    lemma_pool_grows_by_append(pool1, ValueV::Boolean(false));
                                }
                                TokenV::Integer(i) => {
                                    lemma_pool_grows_by_append(pool1, ValueV::Integer(i));
                                }
                                TokenV::Float(text) => {
                                    lemma_pool_grows_by_append(pool1, ValueV::Float(text));
                                }
                                TokenV::String(str_content) => {
                                    lemma_pool_grows_by_append(pool1, str_view_of(str_content));
                                }
                                _ => {}
                            }
                            match assignment_spec(src, pos, var, pool, codes, locals) {
                                StmtOut::Next(_, pool2, codes2, _) => {
                                    assert(pool.is_prefix_of(pool2)) by {
                                        assert(pool2.subrange(0, pool.len() as int) =~= pool);
                                    }
                                    assert(codes2.subrange(0, codes.len() as int) =~= codes);
                                }
                                StmtOut::Fail(_) => {}
                            }
                        }
                        LexStep::Fail(_, _) => {}
                    }
                }
                None => {}
            }
        }
    }
}

proof fn lemma_call_extends(
    src: Seq<u8>,
    first: TokenV,
    after_first: int,
    name: Seq<u8>,
    pool: Seq<ValueV>,
    codes: Seq<ByteCode>,
    locals: Seq<Seq<u8>>,
)
    requires
        pool.len() <= 256,
    ensures
        match call_spec(src, first, after_first, name, pool, codes, locals) {
            StmtOut::Next(_, pool2, codes2, locals2) => pool.is_prefix_of(pool2) && pool2.len()
                <= 256 && codes.is_prefix_of(codes2) && locals2 == locals,
            StmtOut::Fail(_) => true,
        },
{
    reveal(call_spec);
    if locals.len() + 1 <= 255 {
        let base = locals.len() as u8;
        lemma_load_var_extends(name, base, pool, locals);
        match load_var_spec(pool, locals, name, base) {
            Some((code1, pool1)) => {
                match first {
                    TokenV::ParL => {
                        match next_token_spec(src, after_first) {
                            LexStep::Tok(t2, _) => {
                                lemma_exp_step_extends(t2, (base + 1) as u8, pool1, locals);
                            }
                            LexStep::Fail(_, _) => {}
                        }
                    }
                    TokenV::String(str_content) => {
                        lemma_pool_grows_by_append(pool1, str_view_of(str_content));
                    }
                    _ => {}
                }
                match call_spec(src, first, after_first, name, pool, codes, locals) {
                    StmtOut::Next(_, pool2, codes2, _) => {
                        assert(pool.is_prefix_of(pool2)) by {
                            assert(pool2.subrange(0, pool.len() as int) =~= pool);
                        }
                        assert(codes2.subrange(0, codes.len() as int) =~= codes);
                    }
                    StmtOut::Fail(_) => {}
                }
            }
            None => {}
        }
    }
}

proof fn lemma_local_extends(
    src: Seq<u8>,
    pos: int,
    pool: Seq<ValueV>,
    codes: Seq<ByteCode>,
    locals: Seq<Seq<u8>>,
)
    requires
        pool.len() <= 256,
        locals.len() <= 256,
    ensures
        match local_spec(src, pos, pool, codes, locals) {
            StmtOut::Next(_, pool2, codes2, locals2) => pool.is_prefix_of(pool2) && pool2.len()
                <= 256 && codes.is_prefix_of(codes2) && locals2.len() <= 256,
            StmtOut::Fail(_) => true,
        },
{
    reveal(local_spec);
    match next_token_spec(src, pos) {
        LexStep::Tok(t, np) => {
            match t {
                TokenV::Name(_) => {
                    match next_token_spec(src, np) {
                        LexStep::Tok(TokenV::Assign, np2) => {
                            if locals.len() <= 255 {
                                match next_token_spec(src, np2) {
                                    LexStep::Tok(t3, _) => {
                                        lemma_exp_step_extends(t3, locals.len() as u8, pool, locals);
                                        match exp_step(t3, locals.len() as u8, pool, locals) {
                                            ExpOut::Emit(code, _) => {
                                                assert(codes.push(code).subrange(
                                                    0,
                                                    codes.len() as int,
                                                ) =~= codes);
                                            }
                                            _ => {}
                                        }
                                    }
                                    LexStep::Fail(_, _) => {}
                                }
                            }
                        }
                        _ => {}
                    }
                }
                _ => {}
            }
        }
        LexStep::Fail(_, _) => {}
    }
}

/// The single store instruction an assignment to a global compiles to
/// steps without error: both constants it addresses keep their slots, and
/// the name slot holds a string.
proof fn lemma_assignment_runs_safely(
    src: Seq<u8>,
    pos: int,
    var: Seq<u8>,
    pool: Seq<ValueV>,
    codes: Seq<ByteCode>,
    locals: Seq<Seq<u8>>,
    pos2: int,
    pool2: Seq<ValueV>,
    codes2: Seq<ByteCode>,
    locals2: Seq<Seq<u8>>,
    consts: Seq<ValueV>,
    s: StateV,
)
    requires
        assignment_spec(src, pos, var, pool, codes, locals) == StmtOut::Next(
            pos2,
            pool2,
            codes2,
            locals2,
        ),
        pool.len() <= 256,
        locals.len() <= 256,
        pool2.is_prefix_of(consts),
        locals.len() <= s.stack.len(),
    ensures
        pool.is_prefix_of(pool2),
        pool2.len() <= 256,
        locals2 == locals,
        codes.is_prefix_of(codes2),
        match run(s, consts, codes2.skip(codes.len() as int)) {
            Ok(s2) => locals2.len() <= s2.stack.len(),
            Err(e) => e matches RtErrV::NotCallable(_),
        },
{
    reveal(assignment_spec);
    lemma_find_local_bounds(locals, var);
    match find_local(locals, var) {
        Some(i) => {
            match next_token_spec(src, pos) {
                LexStep::Tok(t, np) => match exp_step(t, i as u8, pool, locals) {
                    ExpOut::Emit(code, p2) => {
                        lemma_exp_step_safe(t, i as u8, pool, locals, code, p2, consts, s);
                        assert(codes2.skip(codes.len() as int) =~= seq![code]);
                        assert(codes2.subrange(0, codes.len() as int) =~= codes);
                        lemma_run_one(s, consts, code);
                    }
                    _ => {}
                },
                LexStep::Fail(_, _) => {}
            }
        }
        None => {
            lemma_add_const_spec_found(pool, str_view_of(var));
            lemma_pool_grows_by_append(pool, str_view_of(var));
            match add_const_spec(pool, str_view_of(var)) {
                Some((pool1, dstk)) => {
                    match next_token_spec(src, pos) {
                        LexStep::Tok(t, np) => {
                            match t {
                                TokenV::Name(var2) => {
                                    lemma_find_local_bounds(locals, var2);
                                    match find_local(locals, var2) {
                                        Some(j) => {
                                            assert(pool.is_prefix_of(pool2));
                                            assert(consts.subrange(0, pool2.len() as int)[dstk]
                                                == consts[dstk]);
                                            assert(codes2.skip(codes.len() as int) =~= seq![
                                                ByteCode::SetGlobal(dstk as u8, j as u8),
                                            ]);
                                            assert(codes2.subrange(0, codes.len() as int)
                                                =~= codes);
                                            lemma_run_one(
                                                s,
                                                consts,
                                                ByteCode::SetGlobal(dstk as u8, j as u8),
                                            );
                                        }
                                        None => {
                                            lemma_add_const_spec_found(pool1, str_view_of(var2));
                                            lemma_pool_grows_by_append(pool1, str_view_of(var2));
                                            let k = (add_const_spec(
                                                pool1,
                                                str_view_of(var2),
                                            )->Some_0).1;
                                            assert(pool.is_prefix_of(pool2)) by {
                                                assert(pool2.subrange(0, pool.len() as int)
                                                    =~= pool);
                                            }
                                            assert(consts.subrange(0, pool2.len() as int)[dstk]
                                                == consts[dstk]);
                                            assert(consts.subrange(0, pool2.len() as int)[k]
                                                == consts[k]);
                                            assert(codes2.skip(codes.len() as int) =~= seq![
                                                ByteCode::SetGlobalGlobal(dstk as u8, k as u8),
                                            ]);
                                            assert(codes2.subrange(0, codes.len() as int)
                                                =~= codes);
                                            lemma_run_one(
                                                s,
                                                consts,
                                                ByteCode::SetGlobalGlobal(dstk as u8, k as u8),
                                            );
                                        }
                                    }
                                }
                                _ => {
                                    let cv = match t {
                                        TokenV::Nil => ValueV::Nil,
                                        TokenV::True => ValueV::Boolean(true),
                                        TokenV::False => ValueV::Boolean(false),
                                        TokenV::Integer(i) => ValueV::Integer(i),
                                        TokenV::Float(text) => ValueV::Float(text),
                                        TokenV::String(str_content) => str_view_of(str_content),
                                        _ => ValueV::Nil,
                                    };
                                    lemma_add_const_spec_found(pool1, cv);
                                    lemma_pool_grows_by_append(pool1, cv);
                                    match add_const_spec(pool1, cv) {
                                        Some((p2, k)) => {
                                            assert(pool.is_prefix_of(pool2)) by {
                                                assert(pool2.subrange(0, pool.len() as int)
                                                    =~= pool);
                                            }
                                            assert(consts.subrange(0, pool2.len() as int)[dstk]
                                                == consts[dstk]);
                                            assert(consts.subrange(0, pool2.len() as int)[k]
                                                == consts[k]);
                                            assert(codes2.skip(codes.len() as int) =~= seq![
                                                ByteCode::SetGlobalConst(dstk as u8, k as u8),
                                            ]);
                                            assert(codes2.subrange(0, codes.len() as int)
                                                =~= codes);
                                            lemma_run_one(
                                                s,
                                                consts,
                                                ByteCode::SetGlobalConst(dstk as u8, k as u8),
                                            );
                                        }
                                        None => {}
                                    }
                                }
                            }
                        }
                        LexStep::Fail(_, _) => {}
                    }
                }
                None => {}
            }
        }
    }
}

/// The three instructions a call statement compiles to can stop only on a
/// non-callable callee: the loads land in registers just past the locals,
/// so by the time the call runs, its base and argument registers exist.
proof fn lemma_call_runs_safely(
    src: Seq<u8>,
    first: TokenV,
    after_first: int,
    name: Seq<u8>,
    pool: Seq<ValueV>,
    codes: Seq<ByteCode>,
    locals: Seq<Seq<u8>>,
    pos2: int,
    pool2: Seq<ValueV>,
    codes2: Seq<ByteCode>,
    locals2: Seq<Seq<u8>>,
    consts: Seq<ValueV>,
    s: StateV,
)
    requires
        call_spec(src, first, after_first, name, pool, codes, locals) == StmtOut::Next(
            pos2,
            pool2,
            codes2,
            locals2,
        ),
        pool.len() <= 256,
        locals.len() <= 256,
        pool2.is_prefix_of(consts),
        locals.len() <= s.stack.len(),
    ensures
        match run(s, consts, codes2.skip(codes.len() as int)) {
            Ok(s2) => locals2.len() <= s2.stack.len(),
            Err(e) => e matches RtErrV::NotCallable(_),
        },
{
    reveal(call_spec);
    let base = locals.len() as u8;
    match load_var_spec(pool, locals, name, base) {
        Some((code1, pool1)) => {
            lemma_load_var_extends(name, base, pool, locals);
            match first {
                TokenV::ParL => {
                    match next_token_spec(src, after_first) {
                        LexStep::Tok(t2, np2) => {
                            lemma_exp_step_extends(t2, (base + 1) as u8, pool1, locals);
                            match exp_step(t2, (base + 1) as u8, pool1, locals) {
                                ExpOut::Emit(code_b, pool_b) => {
                                    match next_token_spec(src, np2) {
                                        LexStep::Tok(TokenV::ParR, _) => {
                                            // pool1 stays a prefix of the final pool
                                            lemma_prefix_trans(pool1, pool_b, consts);
                                            lemma_load_var_safe(
                                                name,
                                                base,
                                                pool,
                                                locals,
                                                code1,
                                                pool1,
                                                consts,
                                                s,
                                            );
                                            let s1 = step(s, consts, code1)->Ok_0;
                                            lemma_exp_step_safe(
                                                t2,
                                                (base + 1) as u8,
                                                pool1,
                                                locals,
                                                code_b,
                                                pool_b,
                                                consts,
                                                s1,
                                            );
                                            let s_b = step(s1, consts, code_b)->Ok_0;
                                            let call = ByteCode::Call(base, 1);
                                            assert(codes2.skip(codes.len() as int) =~= seq![
                                                code1,
                                                code_b,
                                                call,
                                            ]);
                                            assert(seq![code1] + (seq![code_b] + seq![call]) =~= seq![
                                                code1,
                                                code_b,
                                                call,
                                            ]);
                                            lemma_run_append(
                                                s,
                                                consts,
                                                seq![code1],
                                                seq![code_b] + seq![call],
                                            );
                                            lemma_run_one(s, consts, code1);
                                            lemma_run_append(s1, consts, seq![code_b], seq![call]);
                                            lemma_run_one(s1, consts, code_b);
                                            lemma_run_one(s_b, consts, call);
                                        }
                                        _ => {}
                                    }
                                }
                                _ => {}
                            }
                        }
                        LexStep::Fail(_, _) => {}
                    }
                }
                TokenV::String(str_content) => {
                    lemma_pool_grows_by_append(pool1, str_view_of(str_content));
                    match add_const_spec(pool1, str_view_of(str_content)) {
                        Some((pool_b, k)) => {
                            lemma_add_const_spec_found(pool1, str_view_of(str_content));
                            lemma_prefix_trans(pool1, pool_b, consts);
                            lemma_load_var_safe(name, base, pool, locals, code1, pool1, consts, s);
                            let s1 = step(s, consts, code1)->Ok_0;
                            let code_b = ByteCode::LoadConst((base + 1) as u8, k as u8);
                            assert(step(s1, consts, code_b) is Ok) by {
                                assert(consts.subrange(0, pool_b.len() as int)[k] == consts[k]);
                            }
                            let s_b = step(s1, consts, code_b)->Ok_0;
                            lemma_set_stack_len(s1.stack, (base + 1) as int, consts[k as int]);
                            let call = ByteCode::Call(base, 1);
                            assert(codes2.skip(codes.len() as int) =~= seq![code1, code_b, call]);
                            assert(seq![code1] + (seq![code_b] + seq![call]) =~= seq![
                                code1,
                                code_b,
                                call,
                            ]);
                            lemma_run_append(s, consts, seq![code1], seq![code_b] + seq![call]);
                            lemma_run_one(s, consts, code1);
                            lemma_run_append(s1, consts, seq![code_b], seq![call]);
                            lemma_run_one(s1, consts, code_b);
                            lemma_run_one(s_b, consts, call);
                        }
                        None => {}
                    }
                }
                _ => {}
            }
        }
        None => {}
    }
}

/// The one instruction a local declaration compiles to writes the new
/// local's register, so afterwards the stack covers every declared local.
proof fn lemma_local_runs_safely(
    src: Seq<u8>,
    pos: int,
    pool: Seq<ValueV>,
    codes: Seq<ByteCode>,
    locals: Seq<Seq<u8>>,
    pos2: int,
    pool2: Seq<ValueV>,
    codes2: Seq<ByteCode>,
    locals2: Seq<Seq<u8>>,
    consts: Seq<ValueV>,
    s: StateV,
)
    requires
        local_spec(src, pos, pool, codes, locals) == StmtOut::Next(pos2, pool2, codes2, locals2),
        pool.len() <= 256,
        locals.len() <= 256,
        pool2.is_prefix_of(consts),
        locals.len() <= s.stack.len(),
    ensures
        match run(s, consts, codes2.skip(codes.len() as int)) {
            Ok(s2) => locals2.len() <= s2.stack.len(),
            Err(e) => e matches RtErrV::NotCallable(_),
        },
{
    reveal(local_spec);
    match next_token_spec(src, pos) {
        LexStep::Tok(t, np) => {
            match t {
                TokenV::Name(_) => {
                    match next_token_spec(src, np) {
                        LexStep::Tok(TokenV::Assign, np2) => {
                            if locals.len() <= 255 {
                                match next_token_spec(src, np2) {
                                    LexStep::Tok(t3, _) => {
                                        match exp_step(t3, locals.len() as u8, pool, locals) {
                                            ExpOut::Emit(code, p2) => {
                                                lemma_exp_step_safe(
                                                    t3,
                                                    locals.len() as u8,
                                                    pool,
                                                    locals,
                                                    code,
                                                    p2,
                                                    consts,
                                                    s,
                                                );
                                                assert(codes2.skip(codes.len() as int) =~= seq![
                                                    code,
                                                ]);
                                                lemma_run_one(s, consts, code);
                                            }
                                            _ => {}
                                        }
                                    }
                                    LexStep::Fail(_, _) => {}
                                }
                            }
                        }
                        _ => {}
                    }
                }
                _ => {}
            }
        }
        LexStep::Fail(_, _) => {}
    }
}

/// Compilation only ever appends: the pool and the instructions at the
/// start of any statement stay a prefix of the finished program's.
proof fn lemma_compile_from_extends(
    src: Seq<u8>,
    pos: int,
    pool: Seq<ValueV>,
    codes: Seq<ByteCode>,
    locals: Seq<Seq<u8>>,
)
    requires
        pool.len() <= 256,
        locals.len() <= 256,
    ensures
        match compile_from(src, pos, pool, codes, locals) {
            CompileOut::Finish(pool_f, codes_f) => pool.is_prefix_of(pool_f) && codes.is_prefix_of(
                codes_f,
            ) && pool_f.len() <= 256,
            CompileOut::Fail(_) => true,
        },
    decreases src.len() - pos,
{
    assert(pool.subrange(0, pool.len() as int) =~= pool);
    assert(codes.subrange(0, codes.len() as int) =~= codes);
    match next_token_spec(src, pos) {
        LexStep::Tok(t, np) => {
            match t {
                TokenV::Eos => {}
                TokenV::Name(name) => {
                    match next_token_spec(src, np) {
                        LexStep::Tok(t2, np2) => {
                            let stmt = if t2 is Assign {
                                assignment_spec(src, np2, name, pool, codes, locals)
                            } else {
                                call_spec(src, t2, np2, name, pool, codes, locals)
                            };
                            if t2 is Assign {
                                lemma_assignment_extends(src, np2, name, pool, codes, locals);
                            } else {
                                lemma_call_extends(src, t2, np2, name, pool, codes, locals);
                            }
                            match stmt {
                                StmtOut::Next(pos2, pool2, codes2, locals2) => {
                                    if pos < pos2 <= src.len() {
                                        lemma_compile_from_extends(
                                            src,
                                            pos2,
                                            pool2,
                                            codes2,
                                            locals2,
                                        );
                                        match compile_from(src, pos2, pool2, codes2, locals2) {
                                            CompileOut::Finish(pool_f, codes_f) => {
                                                lemma_prefix_trans(pool, pool2, pool_f);
                                                lemma_prefix_trans(codes, codes2, codes_f);
                                            }
                                            CompileOut::Fail(_) => {}
                                        }
                                    }
                                }
                                StmtOut::Fail(_) => {}
                            }
                        }
                        LexStep::Fail(_, _) => {}
                    }
                }
                TokenV::Local => {
                    lemma_local_extends(src, np, pool, codes, locals);
                    match local_spec(src, np, pool, codes, locals) {
                        StmtOut::Next(pos2, pool2, codes2, locals2) => {
                            if pos < pos2 <= src.len() {
                                lemma_compile_from_extends(src, pos2, pool2, codes2, locals2);
                                match compile_from(src, pos2, pool2, codes2, locals2) {
                                    CompileOut::Finish(pool_f, codes_f) => {
                                        lemma_prefix_trans(pool, pool2, pool_f);
                                        lemma_prefix_trans(codes, codes2, codes_f);
                                    }
                                    CompileOut::Fail(_) => {}
                                }
                            }
                        }
                        StmtOut::Fail(_) => {}
                    }
                }
                _ => {}
            }
        }
        LexStep::Fail(_, _) => {}
    }
}

/// Running the rest of a compiled program from the state a statement left
/// behind can stop only on a non-callable call target.
proof fn lemma_compile_from_safe(
    src: Seq<u8>,
    pos: int,
    pool: Seq<ValueV>,
    codes: Seq<ByteCode>,
    locals: Seq<Seq<u8>>,
    s: StateV,
)
    requires
        pool.len() <= 256,
        locals.len() <= 256,
        locals.len() <= s.stack.len(),
    ensures
        match compile_from(src, pos, pool, codes, locals) {
            CompileOut::Finish(pool_f, codes_f) => match run(
                s,
                pool_f,
                codes_f.skip(codes.len() as int),
            ) {
                Ok(_) => true,
                Err(e) => e matches RtErrV::NotCallable(_),
            },
            CompileOut::Fail(_) => true,
        },
    decreases src.len() - pos,
{
    match compile_from(src, pos, pool, codes, locals) {
        CompileOut::Fail(_) => {}
        CompileOut::Finish(pool_f, codes_f) => {
            match next_token_spec(src, pos) {
                LexStep::Fail(_, _) => {}
                LexStep::Tok(t, np) => {
                    match t {
                        TokenV::Eos => {
                            assert(codes_f.skip(codes.len() as int) =~= Seq::<ByteCode>::empty());
                        }
                        TokenV::Name(name) => {
                            match next_token_spec(src, np) {
                                LexStep::Fail(_, _) => {}
                                LexStep::Tok(t2, np2) => {
                                    let stmt = if t2 is Assign {
                                        assignment_spec(src, np2, name, pool, codes, locals)
                                    } else {
                                        call_spec(src, t2, np2, name, pool, codes, locals)
                                    };
                                    if t2 is Assign {
                                        lemma_assignment_extends(
                                            src,
                                            np2,
                                            name,
                                            pool,
                                            codes,
                                            locals,
                                        );
                                    } else {
                                        lemma_call_extends(src, t2, np2, name, pool, codes, locals);
                                    }
                                    match stmt {
                                        StmtOut::Fail(_) => {}
                                        StmtOut::Next(pos2, pool2, codes2, locals2) => {
                                            if pos < pos2 <= src.len() {
                                                lemma_compile_from_extends(
                                                    src,
                                                    pos2,
                                                    pool2,
                                                    codes2,
                                                    locals2,
                                                );
                                                assert(codes_f.skip(codes.len() as int)
                                                    =~= codes2.skip(codes.len() as int)
                                                    + codes_f.skip(codes2.len() as int)) by {
                                                    assert(forall|j: int|
                                                        0 <= j < codes2.len()
                                                            ==> codes_f.subrange(
                                                            0,
                                                            codes2.len() as int,
                                                        )[j] == #[trigger] codes_f[j]);
                                                }
                                                if t2 is Assign {
                                                    lemma_assignment_runs_safely(
                                                        src,
                                                        np2,
                                                        name,
                                                        pool,
                                                        codes,
                                                        locals,
                                                        pos2,
                                                        pool2,
                                                        codes2,
                                                        locals2,
                                                        pool_f,
                                                        s,
                                                    );
                                                } else {
                                                    lemma_call_runs_safely(
                                                        src,
                                                        t2,
                                                        np2,
                                                        name,
                                                        pool,
                                                        codes,
                                                        locals,
                                                        pos2,
                                                        pool2,
                                                        codes2,
                                                        locals2,
                                                        pool_f,
                                                        s,
                                                    );
                                                }
                                                lemma_run_append(
                                                    s,
                                                    pool_f,
                                                    codes2.skip(codes.len() as int),
                                                    codes_f.skip(codes2.len() as int),
                                                );
                                                match run(
                                                    s,
                                                    pool_f,
                                                    codes2.skip(codes.len() as int),
                                                ) {
                                                    Ok(s_mid) => {
                                                        lemma_compile_from_safe(
                                                            src,
                                                            pos2,
                                                            pool2,
                                                            codes2,
                                                            locals2,
                                                            s_mid,
                                                        );
                                                    }
                                                    Err(_) => {}
                                                }
                                            }
                                        }
                                    }
                                }
                            }
                        }
                        TokenV::Local => {
                            lemma_local_extends(src, np, pool, codes, locals);
                            match local_spec(src, np, pool, codes, locals) {
                                StmtOut::Fail(_) => {}
                                StmtOut::Next(pos2, pool2, codes2, locals2) => {
                                    if pos < pos2 <= src.len() {
                                        lemma_compile_from_extends(
                                            src,
                                            pos2,
                                            pool2,
                                            codes2,
                                            locals2,
                                        );
                                        assert(codes_f.skip(codes.len() as int) =~= codes2.skip(
                                            codes.len() as int,
                                        ) + codes_f.skip(codes2.len() as int)) by {
                                            assert(forall|j: int|
                                                0 <= j < codes2.len() ==> codes_f.subrange(
                                                    0,
                                                    codes2.len() as int,
                                                )[j] == #[trigger] codes_f[j]);
                                        }
                                        lemma_local_runs_safely(
                                            src,
                                            np,
                                            pool,
                                            codes,
                                            locals,
                                            pos2,
                                            pool2,
                                            codes2,
                                            locals2,
                                            pool_f,
                                            s,
                                        );
                                        lemma_run_append(
                                            s,
                                            pool_f,
                                            codes2.skip(codes.len() as int),
                                            codes_f.skip(codes2.len() as int),
                                        );
                                        match run(s, pool_f, codes2.skip(codes.len() as int)) {
                                            Ok(s_mid) => {
                                                lemma_compile_from_safe(
                                                    src,
                                                    pos2,
                                                    pool2,
                                                    codes2,
                                                    locals2,
                                                    s_mid,
                                                );
                                            }
                                            Err(_) => {}
                                        }
                                    }
                                }
                            }
                        }
                        _ => {}
                    }
                }
            }
        }
    }
}

/// A compiled program is never the cause of an out-of-bounds or bad-key
/// stop: run from a fresh machine, it either finishes or stops on a call
/// of a non-callable value — the defensive index checks never fire.
pub proof fn lemma_compiled_program_runs_safely(
    src: Seq<u8>,
    pool: Seq<ValueV>,
    codes: Seq<ByteCode>,
)
    requires
        compile_src(src) == CompileOut::Finish(pool, codes),
    ensures
        match run(initial_state(), pool, codes) {
            Ok(_) => true,
            Err(e) => e matches RtErrV::NotCallable(_),
        },
{
    lemma_compile_from_safe(
        src,
        0,
        Seq::empty(),
        Seq::empty(),
        Seq::empty(),
        initial_state(),
    );
    assert(codes.skip(0) =~= codes);
}

/// The built-in `print`: writes the display form of the single argument —
/// found just above the call's base register — and a newline; its result
/// count is zero.
fn lib_print(state: &mut ExeState) -> (r: i32)
    requires
        old(state).wf_s(),
        0 <= old(state).fidx(),
        old(state).fidx() + 1 < old(state).stk().len(),
    ensures
        final(state).wf_s(),
        final(state).glb() == old(state).glb(),
        final(state).stk() == old(state).stk(),
        final(state).fidx() == old(state).fidx(),
        final(state).out() == old(state).out() + display_of(
            old(state).stk()[old(state).fidx() + 1],
        ) + seq![10u8],
        r == 0,
{
    let _len = state.stack.len();
    let i = state.func_index + 1;
    let v = state.stack[i].clone();
    proof {
        assert(v@ == state.stk()[i as int]);
    }
    let mut text = v.display_bytes();
    state.output.append(&mut text);
    state.output.push(10);
    proof {
        assert(state.out() =~= old(state).out() + display_of(old(state).stk()[
            old(state).fidx() + 1
        ]) + seq![10u8]);
    }
    0
}

} // verus!
