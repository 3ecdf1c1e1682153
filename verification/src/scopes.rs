//! The scope protocol: every scope that a lowering opens, it closes.

use crate::ast::{BindingModel, CaseModel, Expr};
use crate::ir::Instr;
use crate::model::{
    argument_tail, binding_tail, call_tail, define_tail, entry_block, lambda_block, lambda_entered,
    lambda_formals, lower, lower_all, lower_args, lower_bindings, lower_bodies, lower_cases,
    TranslatorState,
};
use crate::names::register_name;
use vstd::prelude::*;

verus! {

/// The number of open scopes after `code` has run from `depth` open scopes,
/// or a negative number where `code` does not keep the protocol: where it
/// closes a scope that it found none open for, or where the branch of a
/// conditional does not itself close exactly the scopes it opens.
pub open spec fn scope_depth_after(code: Seq<Instr>, depth: int) -> int
    decreases code,
{
    if code.len() == 0 {
        depth
    } else {
        let before = scope_depth_after(code.drop_last(), depth);
        if before < 0 {
            -1
        } else {
            match code.last() {
                Instr::OpenScope => before + 1,
                Instr::CloseScope => before - 1,
                Instr::Cond { branch, .. } => if scope_depth_after(branch, 0) == 0 {
                    before
                } else {
                    -1
                },
                _ => before,
            }
        }
    }
}

/// Every scope that `code` opens it closes again, in order, and it closes
/// no other; the same holds inside every branch.
pub open spec fn scopes_paired(code: Seq<Instr>) -> bool {
    scope_depth_after(code, 0) == 0
}

/// Whether an instruction leaves the scopes as they are.
pub open spec fn scope_neutral(instr: Instr) -> bool {
    match instr {
        Instr::OpenScope => false,
        Instr::CloseScope => false,
        Instr::Cond { branch, .. } => scopes_paired(branch),
        _ => true,
    }
}

/// One more instruction, after a sequence that kept the protocol.
pub proof fn lemma_depth_push(code: Seq<Instr>, instr: Instr, depth: int)
    requires
        scope_depth_after(code, depth) >= 0,
    ensures
        scope_neutral(instr) ==> scope_depth_after(code.push(instr), depth) == scope_depth_after(
            code,
            depth,
        ),
        instr is OpenScope ==> scope_depth_after(code.push(instr), depth) == scope_depth_after(
            code,
            depth,
        ) + 1,
        instr is CloseScope ==> scope_depth_after(code.push(instr), depth) == scope_depth_after(
            code,
            depth,
        ) - 1,
{
    assert(code.push(instr).drop_last() =~= code);
    assert(code.push(instr).last() == instr);
}

/// A sequence that keeps the protocol, followed by another: the second
/// runs from the depth that the first left.
pub proof fn lemma_depth_concat(a: Seq<Instr>, b: Seq<Instr>, depth: int)
    requires
        scope_depth_after(a, depth) >= 0,
    ensures
        scope_depth_after(a + b, depth) == scope_depth_after(b, scope_depth_after(a, depth)),
    decreases b.len(),
{
    if b.len() == 0 {
        assert(a + b =~= a);
    } else {
        assert((a + b).drop_last() =~= a + b.drop_last());
        assert((a + b).last() == b.last());
        lemma_depth_concat(a, b.drop_last(), depth);
    }
}

/// A sequence of scope-neutral instructions leaves the depth as it was.
pub proof fn lemma_depth_neutral(code: Seq<Instr>, depth: int)
    requires
        depth >= 0,
        forall|i: int| 0 <= i < code.len() ==> scope_neutral(#[trigger] code[i]),
    ensures
        scope_depth_after(code, depth) == depth,
    decreases code.len(),
{
    if code.len() > 0 {
        lemma_depth_neutral(code.drop_last(), depth);
    }
}

/// From any depth, the instructions that an expression is lowered to
/// return to that depth without ever closing a scope they did not open.
pub proof fn lemma_lowering_keeps_depth(e: Expr, st: TranslatorState, depth: int)
    requires
        depth >= 0,
    ensures
        scope_depth_after(lower(e, st).code, depth) == depth,
    decreases e, 0nat,
{
    match e {
        Expr::Quote(_) => {
            lemma_depth_neutral(lower(e, st).code, depth);
        },
        Expr::Atom(_) => {
            lemma_depth_neutral(lower(e, st).code, depth);
        },
        Expr::Identifier(_) => {
            lemma_depth_neutral(lower(e, st).code, depth);
        },
        Expr::Lambda(_, _) => {
            lemma_depth_neutral(lower(e, st).code, depth);
        },
        Expr::Cond(cases) => {
            lemma_cases_keep_depth(cases, cases.len(), st, depth);
        },
        Expr::Define(name, body) => {
            let inner = lower(*body, st);
            lemma_lowering_keeps_depth(*body, st, depth);
            lemma_depth_neutral(define_tail(name, inner.state).code, depth);
            lemma_depth_concat(inner.code, define_tail(name, inner.state).code, depth);
        },
        Expr::Let(bindings, body) => {
            let bound = lower_bindings(bindings, bindings.len(), st);
            let result = register_name(bound.state.registers);
            let inner = lower_bodies(body, body.len(), result, bound.state.with_registers(1));
            let open = seq![Instr::OpenScope];
            let push = Instr::Push { register: result };
            lemma_depth_push(Seq::empty(), Instr::OpenScope, depth);
            assert(open =~= Seq::<Instr>::empty().push(Instr::OpenScope));
            lemma_bindings_keep_depth(bindings, bindings.len(), st, depth + 1);
            lemma_depth_concat(open, bound.code, depth);
            lemma_bodies_keep_depth(
                body,
                body.len(),
                result,
                bound.state.with_registers(1),
                depth + 1,
            );
            lemma_depth_concat(open + bound.code, inner.code, depth);
            let most = open + bound.code + inner.code;
            lemma_depth_push(most, push, depth);
            lemma_depth_push(most.push(push), Instr::CloseScope, depth);
            assert(lower(e, st).code =~= most.push(push).push(Instr::CloseScope));
        },
        Expr::Call(callee, arguments) => {
            let target = lower(*callee, st);
            let built = lower_args(arguments, arguments.len(), target.state);
            lemma_lowering_keeps_depth(*callee, st, depth);
            lemma_args_keep_depth(arguments, arguments.len(), target.state, depth);
            lemma_depth_neutral(call_tail(built.state).code, depth);
            lemma_depth_concat(target.code, built.code, depth);
            lemma_depth_concat(target.code + built.code, call_tail(built.state).code, depth);
        },
    }
}

/// A list of expressions lowered one after the other returns to the depth it started from.
pub proof fn lemma_all_keep_depth(exprs: Seq<Expr>, k: nat, st: TranslatorState, depth: int)
    requires
        k <= exprs.len(),
        depth >= 0,
    ensures
        scope_depth_after(lower_all(exprs, k, st).code, depth) == depth,
    decreases exprs, k,
{
    if k > 0 {
        let before = lower_all(exprs, (k - 1) as nat, st);
        lemma_all_keep_depth(exprs, (k - 1) as nat, st, depth);
        lemma_lowering_keeps_depth(exprs[k - 1], before.state, depth);
        lemma_depth_concat(before.code, lower(exprs[k - 1], before.state).code, depth);
    }
}

/// The body of a `let` returns to the depth it started from.
pub proof fn lemma_bodies_keep_depth(
    exprs: Seq<Expr>,
    k: nat,
    result: Seq<char>,
    st: TranslatorState,
    depth: int,
)
    requires
        k <= exprs.len(),
        depth >= 0,
    ensures
        scope_depth_after(lower_bodies(exprs, k, result, st).code, depth) == depth,
    decreases exprs, k,
{
    if k > 0 {
        let before = lower_bodies(exprs, (k - 1) as nat, result, st);
        let current = lower(exprs[k - 1], before.state);
        lemma_bodies_keep_depth(exprs, (k - 1) as nat, result, st, depth);
        lemma_lowering_keeps_depth(exprs[k - 1], before.state, depth);
        lemma_depth_concat(before.code, current.code, depth);
        lemma_depth_push(before.code + current.code, Instr::Pop { register: result }, depth);
        assert(lower_bodies(exprs, k, result, st).code =~= (before.code + current.code).push(
            Instr::Pop { register: result },
        ));
    }
}

/// The arguments of a call return to the depth they started from.
pub proof fn lemma_args_keep_depth(exprs: Seq<Expr>, k: nat, st: TranslatorState, depth: int)
    requires
        k <= exprs.len(),
        depth >= 0,
    ensures
        scope_depth_after(lower_args(exprs, k, st).code, depth) == depth,
    decreases exprs, k,
{
    if k > 0 {
        let before = lower_args(exprs, (k - 1) as nat, st);
        let current = lower(exprs[k - 1], before.state);
        lemma_args_keep_depth(exprs, (k - 1) as nat, st, depth);
        lemma_lowering_keeps_depth(exprs[k - 1], before.state, depth);
        lemma_depth_neutral(argument_tail(current.state).code, depth);
        lemma_depth_concat(before.code, current.code, depth);
        lemma_depth_concat(before.code + current.code, argument_tail(current.state).code, depth);
    }
}

/// The bindings of a `let` return to the depth they started from.
pub proof fn lemma_bindings_keep_depth(
    bindings: Seq<BindingModel>,
    k: nat,
    st: TranslatorState,
    depth: int,
)
    requires
        k <= bindings.len(),
        depth >= 0,
    ensures
        scope_depth_after(lower_bindings(bindings, k, st).code, depth) == depth,
    decreases bindings, k,
{
    if k > 0 {
        let before = lower_bindings(bindings, (k - 1) as nat, st);
        let current = lower(bindings[k - 1].value, before.state);
        let tail = binding_tail(bindings[k - 1].name, current.state);
        lemma_bindings_keep_depth(bindings, (k - 1) as nat, st, depth);
        lemma_lowering_keeps_depth(bindings[k - 1].value, before.state, depth);
        lemma_depth_neutral(tail.code, depth);
        lemma_depth_concat(before.code, current.code, depth);
        lemma_depth_concat(before.code + current.code, tail.code, depth);
    }
}

/// The cases of a conditional return to the depth they started from, and
/// every branch closes the scopes that it opens.
pub proof fn lemma_cases_keep_depth(cases: Seq<CaseModel>, k: nat, st: TranslatorState, depth: int)
    requires
        k <= cases.len(),
        depth >= 0,
    ensures
        scope_depth_after(lower_cases(cases, k, st).code, depth) == depth,
    decreases cases, k,
{
    if k > 0 {
        let before = lower_cases(cases, (k - 1) as nat, st);
        let test = lower(cases[k - 1].test, before.state);
        let condition = register_name(test.state.registers);
        let branch = lower(cases[k - 1].consequent, test.state.with_registers(1));
        let tail = seq![
            Instr::Pop { register: condition },
            Instr::Cond { condition, branch: branch.code },
        ];
        lemma_cases_keep_depth(cases, (k - 1) as nat, st, depth);
        lemma_lowering_keeps_depth(cases[k - 1].test, before.state, depth);
        lemma_lowering_keeps_depth(cases[k - 1].consequent, test.state.with_registers(1), 0);
        lemma_depth_neutral(tail, depth);
        lemma_depth_concat(before.code, test.code, depth);
        lemma_depth_concat(before.code + test.code, tail, depth);
    }
}

/// Scope pairing: in the instructions that an expression is lowered to,
/// every scope that is opened is closed again before the instructions end,
/// and no scope is closed that they did not open.
pub proof fn lemma_scope_pairing(e: Expr, st: TranslatorState)
    ensures
        scopes_paired(lower(e, st).code),
{
    lemma_lowering_keeps_depth(e, st, 0);
}

/// The block of a lambda and the entry block of a program keep the scope
/// protocol as well.
pub proof fn lemma_blocks_pair_scopes(
    formals: Seq<Seq<char>>,
    body: Seq<Expr>,
    program: Seq<Expr>,
    st: TranslatorState,
)
    ensures
        scopes_paired(
            lambda_block(
                lambda_formals(formals, st),
                lower_all(body, body.len(), lambda_entered(formals, st)),
            ).program,
        ),
        scopes_paired(entry_block(program, st).program),
{
    let formals_ref = lambda_formals(formals, st);
    let inner = lower_all(body, body.len(), lambda_entered(formals, st));
    let result = register_name(inner.state.registers);
    let head = seq![Instr::AcceptToFormals { formals: formals_ref }];
    let tail = seq![Instr::Pop { register: result }, Instr::Return { value: result }];
    lemma_depth_neutral(head, 0);
    lemma_depth_neutral(tail, 0);
    lemma_all_keep_depth(body, body.len(), lambda_entered(formals, st), 0);
    lemma_depth_concat(head, inner.code, 0);
    lemma_depth_concat(head + inner.code, tail, 0);
    lemma_all_keep_depth(program, program.len(), st, 0);
}

} // verus!
