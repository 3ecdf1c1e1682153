//! The counters of a translator never go back: every name that a lowering
//! allocates has an index at or after the state it started from.

use crate::ast::{BindingModel, CaseModel, Expr};
use crate::model::{
    lambda_entered, lower, lower_all, lower_args, lower_bindings, lower_bodies, lower_cases, TranslatorState,
};
use crate::names::{lemma_register_names_distinct, lemma_static_names_distinct, register_name};
use crate::static_data::StaticValue;
use vstd::prelude::*;

verus! {

/// Lowering an expression moves no counter back.
pub proof fn lemma_lower_grows(e: Expr, st: TranslatorState)
    ensures
        st.not_after(lower(e, st).state),
    decreases e, 0nat,
{
    match e {
        Expr::Quote(_) => {},
        Expr::Atom(_) => {},
        Expr::Identifier(_) => {},
        Expr::Lambda(formals, body) => {
            lemma_lower_all_grows(body, 0, body.len(), lambda_entered(formals, st));
        },
        Expr::Cond(cases) => {
            lemma_lower_cases_grows(cases, 0, cases.len(), st);
        },
        Expr::Define(_, body) => {
            lemma_lower_grows(*body, st);
        },
        Expr::Let(bindings, body) => {
            lemma_lower_bindings_grows(bindings, 0, bindings.len(), st);
            let bound = lower_bindings(bindings, bindings.len(), st);
            lemma_lower_bodies_grows(
                body,
                0,
                body.len(),
                register_name(bound.state.registers),
                bound.state.with_registers(1),
            );
        },
        Expr::Call(callee, arguments) => {
            lemma_lower_grows(*callee, st);
            lemma_lower_args_grows(arguments, 0, arguments.len(), lower(*callee, st).state);
        },
    }
}

/// A longer prefix of a list of expressions leaves the counters no further back.
pub proof fn lemma_lower_all_grows(exprs: Seq<Expr>, j: nat, k: nat, st: TranslatorState)
    requires
        j <= k <= exprs.len(),
    ensures
        lower_all(exprs, j, st).state.not_after(lower_all(exprs, k, st).state),
        lower_all(exprs, 0, st).state == st,
    decreases exprs, k,
{
    if j < k {
        lemma_lower_all_grows(exprs, j, (k - 1) as nat, st);
        lemma_lower_grows(exprs[k - 1], lower_all(exprs, (k - 1) as nat, st).state);
    }
}

/// A longer prefix of a `let` body leaves the counters no further back.
pub proof fn lemma_lower_bodies_grows(
    exprs: Seq<Expr>,
    j: nat,
    k: nat,
    result: Seq<char>,
    st: TranslatorState,
)
    requires
        j <= k <= exprs.len(),
    ensures
        lower_bodies(exprs, j, result, st).state.not_after(lower_bodies(exprs, k, result, st).state),
        lower_bodies(exprs, 0, result, st).state == st,
    decreases exprs, k,
{
    if j < k {
        lemma_lower_bodies_grows(exprs, j, (k - 1) as nat, result, st);
        lemma_lower_grows(exprs[k - 1], lower_bodies(exprs, (k - 1) as nat, result, st).state);
    }
}

/// A longer prefix of an argument list leaves the counters no further back.
pub proof fn lemma_lower_args_grows(exprs: Seq<Expr>, j: nat, k: nat, st: TranslatorState)
    requires
        j <= k <= exprs.len(),
    ensures
        lower_args(exprs, j, st).state.not_after(lower_args(exprs, k, st).state),
        lower_args(exprs, 0, st).state == st,
    decreases exprs, k,
{
    if j < k {
        lemma_lower_args_grows(exprs, j, (k - 1) as nat, st);
        lemma_lower_grows(exprs[k - 1], lower_args(exprs, (k - 1) as nat, st).state);
    }
}

/// A longer prefix of a list of bindings leaves the counters no further back.
pub proof fn lemma_lower_bindings_grows(
    bindings: Seq<BindingModel>,
    j: nat,
    k: nat,
    st: TranslatorState,
)
    requires
        j <= k <= bindings.len(),
    ensures
        lower_bindings(bindings, j, st).state.not_after(lower_bindings(bindings, k, st).state),
        lower_bindings(bindings, 0, st).state == st,
    decreases bindings, k,
{
    if j < k {
        lemma_lower_bindings_grows(bindings, j, (k - 1) as nat, st);
        lemma_lower_grows(
            bindings[k - 1].value,
            lower_bindings(bindings, (k - 1) as nat, st).state,
        );
    }
}

/// A longer prefix of a list of cases leaves the counters no further back.
pub proof fn lemma_lower_cases_grows(cases: Seq<CaseModel>, j: nat, k: nat, st: TranslatorState)
    requires
        j <= k <= cases.len(),
    ensures
        lower_cases(cases, j, st).state.not_after(lower_cases(cases, k, st).state),
        lower_cases(cases, 0, st).state == st,
    decreases cases, k,
{
    if j < k {
        lemma_lower_cases_grows(cases, j, (k - 1) as nat, st);
        let before = lower_cases(cases, (k - 1) as nat, st).state;
        lemma_lower_grows(cases[k - 1].test, before);
        lemma_lower_grows(
            cases[k - 1].consequent,
            lower(cases[k - 1].test, before).state.with_registers(1),
        );
    }
}

/// Register uniqueness: a register that was allocated before an expression
/// is lowered is none of the registers that are allocated afterwards,
/// however many allocations lie between.
pub proof fn lemma_registers_never_reused(e: Expr, st: TranslatorState, later: nat)
    requires
        later >= lower(e, st.with_registers(1)).state.registers,
    ensures
        register_name(st.registers) != register_name(later),
{
    lemma_lower_grows(e, st.with_registers(1));
    lemma_register_names_distinct(st.registers, later);
}

/// Static-name uniqueness: two values that are interned in one translator,
/// be they equal, get different names, whatever is lowered between them.
pub proof fn lemma_interned_names_differ(
    first: StaticValue,
    between: Expr,
    second: StaticValue,
    st: TranslatorState,
)
    ensures
        st.next_static(first).name != lower(between, st.interned(first)).state.next_static(
            second,
        ).name,
        st.next_static(first).name != st.interned(first).next_static(second).name,
{
    lemma_lower_grows(between, st.interned(first));
    lemma_static_names_distinct(st.statics, lower(between, st.interned(first)).state.statics);
    lemma_static_names_distinct(st.statics, st.statics + 1);
}

} // verus!
