//! What lowering produces, as mathematical functions of the expression and
//! of the translator's state before it.

use crate::ast::{Atom, BindingModel, CaseModel, Expr};
use crate::ir::{BlockModel, FunctionPointerModel, Instr, ScopeModel};
use crate::names::{anon_block_name, entry_name, register_name, static_name};
use crate::static_data::{StaticRefModel, StaticValue};
use vstd::prelude::*;

verus! {

/// The state of a translator: three counters and two tables.
pub struct TranslatorState {
    /// How many registers have been allocated.
    pub registers: nat,
    /// How many static names have been allocated.
    pub statics: nat,
    /// How many anonymous block names have been allocated.
    pub lambdas: nat,
    /// The static data interned so far, by name.
    pub static_table: Map<Seq<char>, StaticValue>,
    /// The blocks registered so far, by name.
    pub blocks: Map<Seq<char>, BlockModel>,
}

/// The instructions that a lowering emits and the state it leaves.
pub struct Lowered {
    pub code: Seq<Instr>,
    pub state: TranslatorState,
}

impl TranslatorState {
    /// The state of a new translator.
    pub open spec fn initial() -> TranslatorState {
        TranslatorState {
            registers: 0,
            statics: 0,
            lambdas: 0,
            static_table: Map::empty(),
            blocks: Map::empty(),
        }
    }

    /// The state after `count` more registers were allocated.
    pub open spec fn with_registers(self, count: nat) -> TranslatorState {
        TranslatorState { registers: self.registers + count, ..self }
    }

    /// The reference that interning `value` yields in this state.
    pub open spec fn next_static(self, value: StaticValue) -> StaticRefModel {
        StaticRefModel { name: static_name(self.statics), value }
    }

    /// The state after `value` was interned.
    pub open spec fn interned(self, value: StaticValue) -> TranslatorState {
        TranslatorState {
            statics: self.statics + 1,
            static_table: self.static_table.insert(static_name(self.statics), value),
            ..self
        }
    }

    /// All three counters fit the machine's word.
    pub open spec fn within_limits(self) -> bool {
        &&& self.registers <= usize::MAX
        &&& self.statics <= usize::MAX
        &&& self.lambdas <= usize::MAX
    }

    /// No counter of `self` is ahead of the same counter of `later`.
    pub open spec fn not_after(self, later: TranslatorState) -> bool {
        &&& self.registers <= later.registers
        &&& self.statics <= later.statics
        &&& self.lambdas <= later.lambdas
    }
}

/// The static data that a literal denotes: symbols become identifiers,
/// lists are converted element by element.
pub open spec fn atom_static(atom: Atom) -> StaticValue
    decreases atom,
{
    match atom {
        Atom::Integer(i) => StaticValue::Integer(i),
        Atom::Symbol(s) => StaticValue::Identifier(s),
        Atom::Text(s) => StaticValue::Text(s),
        Atom::Boolean(b) => StaticValue::Bool(b),
        Atom::List(items) => StaticValue::List(
            Seq::new(
                items.len(),
                |i: int|
                    if 0 <= i < items.len() {
                        atom_static(items[i])
                    } else {
                        StaticValue::Bool(false)
                    },
            ),
        ),
    }
}

/// The static list of a lambda's formals: one identifier per formal, in order.
pub open spec fn formals_static(formals: Seq<Seq<char>>) -> StaticValue {
    StaticValue::List(Seq::new(formals.len(), |i: int| StaticValue::Identifier(formals[i])))
}

/// A literal: intern it, materialise it into a fresh register, push.
pub open spec fn lower_literal(value: StaticValue, st: TranslatorState) -> Lowered {
    let register = register_name(st.registers);
    Lowered {
        code: seq![
            Instr::StaticRefToRegister { static_ref: st.next_static(value), to_reg: register },
            Instr::Push { register },
        ],
        state: st.interned(value).with_registers(1),
    }
}

/// A name used as a value: look it up in the current scope, push.
pub open spec fn lower_lookup(name: Seq<char>, st: TranslatorState) -> Lowered {
    let register = register_name(st.registers);
    let value = StaticValue::Identifier(name);
    Lowered {
        code: seq![
            Instr::Lookup {
                identifier: st.next_static(value),
                to_reg: register,
                scope: ScopeModel::Current,
            },
            Instr::Push { register },
        ],
        state: st.interned(value).with_registers(1),
    }
}

/// What follows a definition's body: pop the value, assign it, push it again.
pub open spec fn define_tail(name: Seq<char>, st: TranslatorState) -> Lowered {
    let register = register_name(st.registers);
    let value = StaticValue::Text(name);
    Lowered {
        code: seq![
            Instr::Pop { register },
            Instr::Assign {
                identifier: st.next_static(value),
                from_reg: register,
                scope: ScopeModel::Current,
            },
            Instr::Push { register },
        ],
        state: st.interned(value).with_registers(1),
    }
}

/// What follows a binding's initializer: pop the value and assign it.
pub open spec fn binding_tail(name: Seq<char>, st: TranslatorState) -> Lowered {
    let register = register_name(st.registers);
    let value = StaticValue::Text(name);
    Lowered {
        code: seq![
            Instr::Pop { register },
            Instr::Assign {
                identifier: st.next_static(value),
                from_reg: register,
                scope: ScopeModel::Current,
            },
        ],
        state: st.interned(value).with_registers(1),
    }
}

/// What follows an argument: pop it, build a fresh list that holds it, push the list.
pub open spec fn argument_tail(st: TranslatorState) -> Lowered {
    let value = register_name(st.registers);
    let list = register_name(st.registers + 1);
    Lowered {
        code: seq![
            Instr::Pop { register: value },
            Instr::ListInit { output_reg: list },
            Instr::ListAdd { list_reg: list, input_reg: value },
            Instr::Push { register: list },
        ],
        state: st.with_registers(2),
    }
}

/// What follows the arguments of a call: pop them, call, push the result.
pub open spec fn call_tail(st: TranslatorState) -> Lowered {
    let arguments = register_name(st.registers);
    let function_pointer = register_name(st.registers + 1);
    let output_reg = register_name(st.registers + 2);
    Lowered {
        code: seq![
            Instr::Pop { register: arguments },
            Instr::ListInit { output_reg: function_pointer },
            Instr::Call { output_reg, function_pointer, arguments },
            Instr::Push { register: output_reg },
        ],
        state: st.with_registers(3),
    }
}

/// The reference to a lambda's formals, under the block name that the state gives next.
pub open spec fn lambda_formals(formals: Seq<Seq<char>>, st: TranslatorState) -> StaticRefModel {
    StaticRefModel { name: anon_block_name(st.lambdas), value: formals_static(formals) }
}

/// The state in which a lambda's body is lowered: the block name is taken
/// and the formals are interned under it.
pub open spec fn lambda_entered(formals: Seq<Seq<char>>, st: TranslatorState) -> TranslatorState {
    TranslatorState {
        lambdas: st.lambdas + 1,
        static_table: st.static_table.insert(
            anon_block_name(st.lambdas),
            formals_static(formals),
        ),
        ..st
    }
}

/// A lambda's block: accept the formals, run the body, pop and return the last value.
pub open spec fn lambda_block(formals_ref: StaticRefModel, body: Lowered) -> BlockModel {
    let result = register_name(body.state.registers);
    BlockModel {
        ident: formals_ref.name,
        program: seq![Instr::AcceptToFormals { formals: formals_ref }] + body.code + seq![
            Instr::Pop { register: result },
            Instr::Return { value: result },
        ],
    }
}

/// What a lambda leaves in the enclosing stream once its body is lowered:
/// the block is registered, a function pointer is initialised and pushed.
pub open spec fn lambda_close(formals_ref: StaticRefModel, body: Lowered) -> Lowered {
    let output_reg = register_name(body.state.registers + 1);
    Lowered {
        code: seq![
            Instr::InitializeFunctionPointer {
                function: FunctionPointerModel { block: formals_ref.name, formals: formals_ref },
                from_scope: ScopeModel::Current,
                output_reg,
            },
            Instr::Push { register: output_reg },
        ],
        state: TranslatorState {
            registers: body.state.registers + 2,
            blocks: body.state.blocks.insert(formals_ref.name, lambda_block(formals_ref, body)),
            ..body.state
        },
    }
}

/// The lowering of one expression from state `st`.
pub open spec fn lower(e: Expr, st: TranslatorState) -> Lowered
    decreases e, 0nat,
{
    match e {
        Expr::Quote(atom) => lower_literal(atom_static(atom), st),
        Expr::Atom(atom) => lower_literal(atom_static(atom), st),
        Expr::Identifier(name) => lower_lookup(name, st),
        Expr::Lambda(formals, body) => {
            let inner = lower_all(body, body.len(), lambda_entered(formals, st));
            lambda_close(lambda_formals(formals, st), inner)
        },
        Expr::Cond(cases) => lower_cases(cases, cases.len(), st),
        Expr::Define(name, body) => {
            let inner = lower(*body, st);
            let tail = define_tail(name, inner.state);
            Lowered { code: inner.code + tail.code, state: tail.state }
        },
        Expr::Let(bindings, body) => {
            let bound = lower_bindings(bindings, bindings.len(), st);
            let result = register_name(bound.state.registers);
            let inner = lower_bodies(body, body.len(), result, bound.state.with_registers(1));
            Lowered {
                code: seq![Instr::OpenScope] + bound.code + inner.code + seq![
                    Instr::Push { register: result },
                    Instr::CloseScope,
                ],
                state: inner.state,
            }
        },
        Expr::Call(callee, arguments) => {
            let target = lower(*callee, st);
            let built = lower_args(arguments, arguments.len(), target.state);
            let tail = call_tail(built.state);
            Lowered { code: target.code + built.code + tail.code, state: tail.state }
        },
    }
}

/// The first `k` expressions of `exprs`, lowered one after the other.
pub open spec fn lower_all(exprs: Seq<Expr>, k: nat, st: TranslatorState) -> Lowered
    decreases exprs, k,
{
    if k == 0 || k > exprs.len() {
        Lowered { code: Seq::empty(), state: st }
    } else {
        let before = lower_all(exprs, (k - 1) as nat, st);
        let current = lower(exprs[k - 1], before.state);
        Lowered { code: before.code + current.code, state: current.state }
    }
}

/// The first `k` body expressions of a `let`, each popped into `result`.
pub open spec fn lower_bodies(
    exprs: Seq<Expr>,
    k: nat,
    result: Seq<char>,
    st: TranslatorState,
) -> Lowered
    decreases exprs, k,
{
    if k == 0 || k > exprs.len() {
        Lowered { code: Seq::empty(), state: st }
    } else {
        let before = lower_bodies(exprs, (k - 1) as nat, result, st);
        let current = lower(exprs[k - 1], before.state);
        Lowered {
            code: before.code + current.code + seq![Instr::Pop { register: result }],
            state: current.state,
        }
    }
}

/// The first `k` arguments of a call, each turned into a list of its own.
pub open spec fn lower_args(exprs: Seq<Expr>, k: nat, st: TranslatorState) -> Lowered
    decreases exprs, k,
{
    if k == 0 || k > exprs.len() {
        Lowered { code: Seq::empty(), state: st }
    } else {
        let before = lower_args(exprs, (k - 1) as nat, st);
        let current = lower(exprs[k - 1], before.state);
        let tail = argument_tail(current.state);
        Lowered { code: before.code + current.code + tail.code, state: tail.state }
    }
}

/// The first `k` bindings of a `let`, in textual order: each initializer is
/// lowered in the state that the bindings before it left.
pub open spec fn lower_bindings(bindings: Seq<BindingModel>, k: nat, st: TranslatorState) -> Lowered
    decreases bindings, k,
{
    if k == 0 || k > bindings.len() {
        Lowered { code: Seq::empty(), state: st }
    } else {
        let before = lower_bindings(bindings, (k - 1) as nat, st);
        let current = lower(bindings[k - 1].value, before.state);
        let tail = binding_tail(bindings[k - 1].name, current.state);
        Lowered { code: before.code + current.code + tail.code, state: tail.state }
    }
}

/// The first `k` cases of a conditional: each test is lowered and popped
/// into a register that guards a branch with the lowered consequent.
pub open spec fn lower_cases(cases: Seq<CaseModel>, k: nat, st: TranslatorState) -> Lowered
    decreases cases, k,
{
    if k == 0 || k > cases.len() {
        Lowered { code: Seq::empty(), state: st }
    } else {
        let before = lower_cases(cases, (k - 1) as nat, st);
        let test = lower(cases[k - 1].test, before.state);
        let condition = register_name(test.state.registers);
        let branch = lower(cases[k - 1].consequent, test.state.with_registers(1));
        Lowered {
            code: before.code + test.code + seq![
                Instr::Pop { register: condition },
                Instr::Cond { condition, branch: branch.code },
            ],
            state: branch.state,
        }
    }
}

/// The entry block of a program: its top-level expressions lowered in order.
pub open spec fn entry_block(exprs: Seq<Expr>, st: TranslatorState) -> BlockModel {
    BlockModel { ident: entry_name(), program: lower_all(exprs, exprs.len(), st).code }
}

/// The state after a program was lowered: the entry block is registered.
pub open spec fn program_state(exprs: Seq<Expr>, st: TranslatorState) -> TranslatorState {
    let after = lower_all(exprs, exprs.len(), st).state;
    TranslatorState { blocks: after.blocks.insert(entry_name(), entry_block(exprs, st)), ..after }
}

/// Whether the callee of every call in `e` has one of the three shapes that
/// can be lowered: a name, a lambda, or a call.
pub open spec fn supported(e: Expr) -> bool
    decreases e,
{
    match e {
        Expr::Quote(_) => true,
        Expr::Atom(_) => true,
        Expr::Identifier(_) => true,
        Expr::Lambda(_, body) => forall|i: int| 0 <= i < body.len() ==> supported(#[trigger] body[i]),
        Expr::Cond(cases) => forall|i: int|
            0 <= i < cases.len() ==> supported((#[trigger] cases[i]).test) && supported(
                cases[i].consequent,
            ),
        Expr::Define(_, body) => supported(*body),
        Expr::Let(bindings, body) => {
            &&& forall|i: int| 0 <= i < bindings.len() ==> supported((#[trigger] bindings[i]).value)
            &&& forall|i: int| 0 <= i < body.len() ==> supported(#[trigger] body[i])
        },
        Expr::Call(callee, arguments) => {
            &&& *callee is Identifier || *callee is Lambda || *callee is Call
            &&& supported(*callee)
            &&& forall|i: int| 0 <= i < arguments.len() ==> supported(#[trigger] arguments[i])
        },
    }
}

/// Whether every expression of a list is supported.
pub open spec fn all_supported(exprs: Seq<Expr>) -> bool {
    forall|i: int| 0 <= i < exprs.len() ==> supported(#[trigger] exprs[i])
}

} // verus!
