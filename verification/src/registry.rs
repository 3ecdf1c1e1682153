//! The two tables of a translator: what is registered stays registered,
//! unchanged, and every new entry comes under a name that was not in use.

use crate::ast::{BindingModel, CaseModel, Expr};
use crate::growth::{lemma_lower_all_grows, lemma_lower_grows};
use crate::model::{
    atom_static, lambda_close, lambda_entered, lambda_formals, lower, lower_all, lower_args, lower_bindings,
    lower_bodies, lower_cases, program_state, Lowered, TranslatorState,
};
use crate::names::{
    anon_block_name, entry_name, lemma_block_names_distinct, lemma_name_kinds_disjoint,
    lemma_static_names_distinct, register_name, static_name,
};
use crate::static_data::StaticValue;
use vstd::prelude::*;

verus! {

/// `name` is the name of an anonymous block with an index from `from` up to, not including, `to`.
pub open spec fn block_name_in(name: Seq<char>, from: nat, to: nat) -> bool {
    exists|i: nat| from <= i < to && name == #[trigger] anon_block_name(i)
}

/// `name` is a static name with an index from `from` up to, not including, `to`.
pub open spec fn static_name_in(name: Seq<char>, from: nat, to: nat) -> bool {
    exists|i: nat| from <= i < to && name == #[trigger] static_name(i)
}

/// Every entry of the tables stands under a name that the counters have
/// passed: a block under the entry name or the name of an anonymous block,
/// static data under a static name or the name of an anonymous block.
pub open spec fn well_formed(st: TranslatorState) -> bool {
    &&& forall|name: Seq<char>| #[trigger]
        st.blocks.contains_key(name) ==> name == entry_name() || block_name_in(
            name,
            0,
            st.lambdas,
        )
    &&& forall|name: Seq<char>| #[trigger]
        st.static_table.contains_key(name) ==> static_name_in(name, 0, st.statics)
            || block_name_in(name, 0, st.lambdas)
}

/// `after` holds every entry of `before` unchanged, its counters are not
/// behind, and each entry that is new in it stands under a name that the
/// counters passed between the two states.
pub open spec fn extends(before: TranslatorState, after: TranslatorState) -> bool {
    &&& before.not_after(after)
    &&& forall|name: Seq<char>| #[trigger]
        before.blocks.contains_key(name) ==> after.blocks.contains_key(name) && after.blocks[name]
            == before.blocks[name]
    &&& forall|name: Seq<char>| #[trigger]
        before.static_table.contains_key(name) ==> after.static_table.contains_key(name)
            && after.static_table[name] == before.static_table[name]
    &&& forall|name: Seq<char>| #[trigger]
        after.blocks.contains_key(name) ==> before.blocks.contains_key(name) || block_name_in(
            name,
            before.lambdas,
            after.lambdas,
        )
    &&& forall|name: Seq<char>| #[trigger]
        after.static_table.contains_key(name) ==> before.static_table.contains_key(name)
            || static_name_in(name, before.statics, after.statics) || block_name_in(
            name,
            before.lambdas,
            after.lambdas,
        )
}

/// A new translator is well formed.
pub proof fn lemma_initial_well_formed()
    ensures
        well_formed(TranslatorState::initial()),
{
}

/// What extends a state that extends another extends that one too.
pub proof fn lemma_extends_transitive(a: TranslatorState, b: TranslatorState, c: TranslatorState)
    requires
        extends(a, b),
        extends(b, c),
    ensures
        extends(a, c),
{
    assert forall|name: Seq<char>| #[trigger] c.blocks.contains_key(name) implies a.blocks.contains_key(
        name,
    ) || block_name_in(name, a.lambdas, c.lambdas) by {
        if !b.blocks.contains_key(name) {
            let i = choose|i: nat| b.lambdas <= i < c.lambdas && name == #[trigger] anon_block_name(i);
            assert(a.lambdas <= i < c.lambdas && name == anon_block_name(i));
        } else if !a.blocks.contains_key(name) {
            let i = choose|i: nat| a.lambdas <= i < b.lambdas && name == #[trigger] anon_block_name(i);
            assert(a.lambdas <= i < c.lambdas && name == anon_block_name(i));
        }
    }
    assert forall|name: Seq<char>| #[trigger]
        c.static_table.contains_key(name) implies a.static_table.contains_key(name)
        || static_name_in(name, a.statics, c.statics) || block_name_in(
        name,
        a.lambdas,
        c.lambdas,
    ) by {
        if !b.static_table.contains_key(name) {
            if static_name_in(name, b.statics, c.statics) {
                let i = choose|i: nat| b.statics <= i < c.statics && name == #[trigger] static_name(i);
                assert(a.statics <= i < c.statics && name == static_name(i));
            } else {
                let i = choose|i: nat|
                    b.lambdas <= i < c.lambdas && name == #[trigger] anon_block_name(i);
                assert(a.lambdas <= i < c.lambdas && name == anon_block_name(i));
            }
        } else if !a.static_table.contains_key(name) {
            if static_name_in(name, a.statics, b.statics) {
                let i = choose|i: nat| a.statics <= i < b.statics && name == #[trigger] static_name(i);
                assert(a.statics <= i < c.statics && name == static_name(i));
            } else {
                let i = choose|i: nat|
                    a.lambdas <= i < b.lambdas && name == #[trigger] anon_block_name(i);
                assert(a.lambdas <= i < c.lambdas && name == anon_block_name(i));
            }
        }
    }
}

/// What extends a well-formed state is well formed.
pub proof fn lemma_extension_well_formed(before: TranslatorState, after: TranslatorState)
    requires
        well_formed(before),
        extends(before, after),
    ensures
        well_formed(after),
{
    assert forall|name: Seq<char>| #[trigger] after.blocks.contains_key(name) implies name
        == entry_name() || block_name_in(name, 0, after.lambdas) by {
        if before.blocks.contains_key(name) {
            if name != entry_name() {
                let i = choose|i: nat| 0 <= i < before.lambdas && name == #[trigger] anon_block_name(i);
                assert(0 <= i < after.lambdas && name == anon_block_name(i));
            }
        } else {
            let i = choose|i: nat|
                before.lambdas <= i < after.lambdas && name == #[trigger] anon_block_name(i);
            assert(0 <= i < after.lambdas && name == anon_block_name(i));
        }
    }
    assert forall|name: Seq<char>| #[trigger] after.static_table.contains_key(name) implies static_name_in(
        name,
        0,
        after.statics,
    ) || block_name_in(name, 0, after.lambdas) by {
        if before.static_table.contains_key(name) {
            if static_name_in(name, 0, before.statics) {
                let i = choose|i: nat| 0 <= i < before.statics && name == #[trigger] static_name(i);
                assert(0 <= i < after.statics && name == static_name(i));
            } else {
                let i = choose|i: nat| 0 <= i < before.lambdas && name == #[trigger] anon_block_name(i);
                assert(0 <= i < after.lambdas && name == anon_block_name(i));
            }
        } else if static_name_in(name, before.statics, after.statics) {
            let i = choose|i: nat|
                before.statics <= i < after.statics && name == #[trigger] static_name(i);
            assert(0 <= i < after.statics && name == static_name(i));
        } else {
            let i = choose|i: nat|
                before.lambdas <= i < after.lambdas && name == #[trigger] anon_block_name(i);
            assert(0 <= i < after.lambdas && name == anon_block_name(i));
        }
    }
}

/// In a well-formed state the next static name is in use in neither table.
pub proof fn lemma_next_static_name_fresh(st: TranslatorState)
    requires
        well_formed(st),
    ensures
        !st.static_table.contains_key(static_name(st.statics)),
        !st.blocks.contains_key(static_name(st.statics)),
{
    let name = static_name(st.statics);
    lemma_name_kinds_disjoint(st.statics, 0);
    if st.static_table.contains_key(name) {
        if static_name_in(name, 0, st.statics) {
            let i = choose|i: nat| 0 <= i < st.statics && name == #[trigger] static_name(i);
            lemma_static_names_distinct(i, st.statics);
        } else {
            let i = choose|i: nat| 0 <= i < st.lambdas && name == #[trigger] anon_block_name(i);
            lemma_name_kinds_disjoint(st.statics, i);
        }
    }
    if st.blocks.contains_key(name) {
        let i = choose|i: nat| 0 <= i < st.lambdas && name == #[trigger] anon_block_name(i);
        lemma_name_kinds_disjoint(st.statics, i);
    }
}

/// In a well-formed state the next name of an anonymous block is in use in neither table.
pub proof fn lemma_next_block_name_fresh(st: TranslatorState)
    requires
        well_formed(st),
    ensures
        !st.static_table.contains_key(anon_block_name(st.lambdas)),
        !st.blocks.contains_key(anon_block_name(st.lambdas)),
{
    let name = anon_block_name(st.lambdas);
    lemma_name_kinds_disjoint(0, st.lambdas);
    if st.static_table.contains_key(name) {
        if static_name_in(name, 0, st.statics) {
            let i = choose|i: nat| 0 <= i < st.statics && name == #[trigger] static_name(i);
            lemma_name_kinds_disjoint(i, st.lambdas);
        } else {
            let i = choose|i: nat| 0 <= i < st.lambdas && name == #[trigger] anon_block_name(i);
            lemma_block_names_distinct(i, st.lambdas);
        }
    }
    if st.blocks.contains_key(name) {
        let i = choose|i: nat| 0 <= i < st.lambdas && name == #[trigger] anon_block_name(i);
        lemma_block_names_distinct(i, st.lambdas);
    }
}

/// Allocating registers changes no entry of the tables.
pub proof fn lemma_allocation_extends(st: TranslatorState, count: nat)
    ensures
        extends(st, st.with_registers(count)),
{
}

/// Interning in a well-formed state overwrites nothing: the state after
/// extends the state before.
pub proof fn lemma_interning_extends(st: TranslatorState, value: StaticValue)
    requires
        well_formed(st),
    ensures
        extends(st, st.interned(value)),
        extends(st, st.interned(value).with_registers(1)),
        well_formed(st.interned(value).with_registers(1)),
{
    lemma_next_static_name_fresh(st);
    let after = st.interned(value);
    assert(st.statics <= st.statics < after.statics && static_name(st.statics) == static_name(
        st.statics,
    ));
    assert(static_name_in(static_name(st.statics), st.statics, after.statics));
    lemma_extension_well_formed(st, st.interned(value).with_registers(1));
}

/// Entering a lambda in a well-formed state overwrites nothing.
pub proof fn lemma_entering_extends(formals: Seq<Seq<char>>, st: TranslatorState)
    requires
        well_formed(st),
    ensures
        extends(st, lambda_entered(formals, st)),
        well_formed(lambda_entered(formals, st)),
{
    lemma_next_block_name_fresh(st);
    let after = lambda_entered(formals, st);
    assert(st.lambdas <= st.lambdas < after.lambdas && anon_block_name(st.lambdas)
        == anon_block_name(st.lambdas));
    assert(block_name_in(anon_block_name(st.lambdas), st.lambdas, after.lambdas));
    lemma_extension_well_formed(st, after);
}

/// Registering the block of a lambda overwrites nothing: no block that
/// was registered while its body was lowered has its name.
pub proof fn lemma_closing_extends(formals: Seq<Seq<char>>, st: TranslatorState, body: Lowered)
    requires
        well_formed(st),
        extends(lambda_entered(formals, st), body.state),
    ensures
        extends(st, lambda_close(lambda_formals(formals, st), body).state),
        !body.state.blocks.contains_key(anon_block_name(st.lambdas)),
{
    let entered = lambda_entered(formals, st);
    let name = anon_block_name(st.lambdas);
    let after = lambda_close(lambda_formals(formals, st), body).state;
    lemma_next_block_name_fresh(st);
    lemma_entering_extends(formals, st);
    if body.state.blocks.contains_key(name) {
        assert(!entered.blocks.contains_key(name));
        let i = choose|i: nat|
            entered.lambdas <= i < body.state.lambdas && name == #[trigger] anon_block_name(i);
        lemma_block_names_distinct(i, st.lambdas);
    }
    lemma_extends_transitive(st, entered, body.state);
    assert(st.lambdas <= st.lambdas < after.lambdas && name == anon_block_name(st.lambdas));
    assert(block_name_in(name, st.lambdas, after.lambdas));
    assert forall|other: Seq<char>| #[trigger] after.blocks.contains_key(other) implies st.blocks.contains_key(
        other,
    ) || block_name_in(other, st.lambdas, after.lambdas) by {
        if other != name {
            assert(body.state.blocks.contains_key(other));
        }
    }
}

/// Lowering an expression in a well-formed state changes no entry of the
/// tables: every block and every static value is registered under a name
/// that was free, and the state stays well formed.
pub proof fn lemma_lower_extends(e: Expr, st: TranslatorState)
    requires
        well_formed(st),
    ensures
        extends(st, lower(e, st).state),
        well_formed(lower(e, st).state),
    decreases e, 0nat,
{
    match e {
        Expr::Quote(atom) => {
            lemma_interning_extends(st, atom_static(atom));
        },
        Expr::Atom(atom) => {
            lemma_interning_extends(st, atom_static(atom));
        },
        Expr::Identifier(name) => {
            lemma_interning_extends(st, StaticValue::Identifier(name));
        },
        Expr::Lambda(formals, body) => {
            lemma_entering_extends(formals, st);
            lemma_lower_all_extends(body, body.len(), lambda_entered(formals, st));
            lemma_closing_extends(
                formals,
                st,
                lower_all(body, body.len(), lambda_entered(formals, st)),
            );
        },
        Expr::Cond(cases) => {
            lemma_lower_cases_extends(cases, cases.len(), st);
        },
        Expr::Define(name, body) => {
            lemma_lower_extends(*body, st);
            let inner = lower(*body, st).state;
            lemma_interning_extends(inner, StaticValue::Text(name));
            lemma_extends_transitive(st, inner, lower(e, st).state);
        },
        Expr::Let(bindings, body) => {
            lemma_lower_bindings_extends(bindings, bindings.len(), st);
            let bound = lower_bindings(bindings, bindings.len(), st).state;
            lemma_allocation_extends(bound, 1);
            lemma_extension_well_formed(bound, bound.with_registers(1));
            lemma_lower_bodies_extends(
                body,
                body.len(),
                register_name(bound.registers),
                bound.with_registers(1),
            );
            lemma_extends_transitive(st, bound, bound.with_registers(1));
            lemma_extends_transitive(st, bound.with_registers(1), lower(e, st).state);
        },
        Expr::Call(callee, arguments) => {
            lemma_lower_extends(*callee, st);
            let target = lower(*callee, st).state;
            lemma_lower_args_extends(arguments, arguments.len(), target);
            let built = lower_args(arguments, arguments.len(), target).state;
            lemma_allocation_extends(built, 3);
            lemma_extends_transitive(st, target, built);
            lemma_extends_transitive(st, built, built.with_registers(3));
        },
    }
    lemma_extension_well_formed(st, lower(e, st).state);
}

/// A list of expressions lowered in a well-formed state changes no entry of the tables.
pub proof fn lemma_lower_all_extends(exprs: Seq<Expr>, k: nat, st: TranslatorState)
    requires
        well_formed(st),
        k <= exprs.len(),
    ensures
        extends(st, lower_all(exprs, k, st).state),
        well_formed(lower_all(exprs, k, st).state),
    decreases exprs, k,
{
    if k > 0 {
        lemma_lower_all_extends(exprs, (k - 1) as nat, st);
        let before = lower_all(exprs, (k - 1) as nat, st).state;
        lemma_lower_extends(exprs[k - 1], before);
        lemma_extends_transitive(st, before, lower_all(exprs, k, st).state);
    }
}

/// The body of a `let` lowered in a well-formed state changes no entry of the tables.
pub proof fn lemma_lower_bodies_extends(
    exprs: Seq<Expr>,
    k: nat,
    result: Seq<char>,
    st: TranslatorState,
)
    requires
        well_formed(st),
        k <= exprs.len(),
    ensures
        extends(st, lower_bodies(exprs, k, result, st).state),
        well_formed(lower_bodies(exprs, k, result, st).state),
    decreases exprs, k,
{
    if k > 0 {
        lemma_lower_bodies_extends(exprs, (k - 1) as nat, result, st);
        let before = lower_bodies(exprs, (k - 1) as nat, result, st).state;
        lemma_lower_extends(exprs[k - 1], before);
        lemma_extends_transitive(st, before, lower_bodies(exprs, k, result, st).state);
    }
}

/// The arguments of a call lowered in a well-formed state change no entry of the tables.
pub proof fn lemma_lower_args_extends(exprs: Seq<Expr>, k: nat, st: TranslatorState)
    requires
        well_formed(st),
        k <= exprs.len(),
    ensures
        extends(st, lower_args(exprs, k, st).state),
        well_formed(lower_args(exprs, k, st).state),
    decreases exprs, k,
{
    if k > 0 {
        lemma_lower_args_extends(exprs, (k - 1) as nat, st);
        let before = lower_args(exprs, (k - 1) as nat, st).state;
        lemma_lower_extends(exprs[k - 1], before);
        let current = lower(exprs[k - 1], before).state;
        lemma_allocation_extends(current, 2);
        lemma_extends_transitive(st, before, current);
        lemma_extends_transitive(st, current, current.with_registers(2));
        lemma_extension_well_formed(st, lower_args(exprs, k, st).state);
    }
}

/// The bindings of a `let` lowered in a well-formed state change no entry of the tables.
pub proof fn lemma_lower_bindings_extends(bindings: Seq<BindingModel>, k: nat, st: TranslatorState)
    requires
        well_formed(st),
        k <= bindings.len(),
    ensures
        extends(st, lower_bindings(bindings, k, st).state),
        well_formed(lower_bindings(bindings, k, st).state),
    decreases bindings, k,
{
    if k > 0 {
        lemma_lower_bindings_extends(bindings, (k - 1) as nat, st);
        let before = lower_bindings(bindings, (k - 1) as nat, st).state;
        lemma_lower_extends(bindings[k - 1].value, before);
        let current = lower(bindings[k - 1].value, before).state;
        lemma_interning_extends(current, StaticValue::Text(bindings[k - 1].name));
        lemma_extends_transitive(st, before, current);
        lemma_extends_transitive(st, current, lower_bindings(bindings, k, st).state);
    }
}

/// The cases of a conditional lowered in a well-formed state change no entry of the tables.
pub proof fn lemma_lower_cases_extends(cases: Seq<CaseModel>, k: nat, st: TranslatorState)
    requires
        well_formed(st),
        k <= cases.len(),
    ensures
        extends(st, lower_cases(cases, k, st).state),
        well_formed(lower_cases(cases, k, st).state),
    decreases cases, k,
{
    if k > 0 {
        lemma_lower_cases_extends(cases, (k - 1) as nat, st);
        let before = lower_cases(cases, (k - 1) as nat, st).state;
        lemma_lower_extends(cases[k - 1].test, before);
        let tested = lower(cases[k - 1].test, before).state;
        lemma_allocation_extends(tested, 1);
        lemma_extension_well_formed(tested, tested.with_registers(1));
        lemma_lower_extends(cases[k - 1].consequent, tested.with_registers(1));
        lemma_extends_transitive(st, before, tested);
        lemma_extends_transitive(st, tested, tested.with_registers(1));
        lemma_extends_transitive(st, tested.with_registers(1), lower_cases(cases, k, st).state);
    }
}

/// Lowering a program in a well-formed state keeps every static value
/// and every block but the entry block, which is registered anew.
pub proof fn lemma_program_extends(exprs: Seq<Expr>, st: TranslatorState)
    requires
        well_formed(st),
    ensures
        well_formed(program_state(exprs, st)),
        program_state(exprs, st).blocks.contains_key(entry_name()),
        forall|name: Seq<char>| #[trigger]
            st.static_table.contains_key(name) ==> program_state(
                exprs,
                st,
            ).static_table.contains_key(name) && program_state(exprs, st).static_table[name]
                == st.static_table[name],
        forall|name: Seq<char>| #[trigger]
            st.blocks.contains_key(name) && name != entry_name() ==> program_state(
                exprs,
                st,
            ).blocks.contains_key(name) && program_state(exprs, st).blocks[name] == st.blocks[name],
{
    lemma_lower_all_extends(exprs, exprs.len(), st);
}

/// Closure non-aliasing: a lambda that is lowered twice, with anything
/// lowered in between, gets two different block names, each of which its
/// function pointer carries. Afterwards both blocks are registered, each
/// under its own name, and the first is as it was registered.
pub proof fn lemma_closures_do_not_alias(
    formals: Seq<Seq<char>>,
    body: Seq<Expr>,
    between: Expr,
    st: TranslatorState,
)
    requires
        well_formed(st),
    ensures
        ({
            let lambda = Expr::Lambda(formals, body);
            let first = lower(lambda, st);
            let middle = lower(between, first.state);
            let second = lower(lambda, middle.state);
            let first_name = anon_block_name(st.lambdas);
            let second_name = anon_block_name(middle.state.lambdas);
            &&& first_name != second_name
            &&& first.code[0] is InitializeFunctionPointer
            &&& second.code[0] is InitializeFunctionPointer
            &&& first.code[0]->function.block == first_name
            &&& second.code[0]->function.block == second_name
            &&& first.state.blocks.contains_key(first_name)
            &&& first.state.blocks[first_name].ident == first_name
            &&& second.state.blocks.contains_key(first_name)
            &&& second.state.blocks[first_name] == first.state.blocks[first_name]
            &&& second.state.blocks.contains_key(second_name)
            &&& second.state.blocks[second_name].ident == second_name
        }),
{
    let lambda = Expr::Lambda(formals, body);
    let first = lower(lambda, st);
    let middle = lower(between, first.state);
    let second = lower(lambda, middle.state);
    lemma_lower_extends(lambda, st);
    lemma_lower_extends(between, first.state);
    lemma_lower_extends(lambda, middle.state);
    lemma_extends_transitive(first.state, middle.state, second.state);
    lemma_lower_grows(lambda, st);
    lemma_lower_all_grows(body, 0, body.len(), lambda_entered(formals, st));
    lemma_block_names_distinct(st.lambdas, middle.state.lambdas);
}

} // verus!
