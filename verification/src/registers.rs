//! Which registers lowered code names: only those that the lowering
//! itself allocated, so that no two lowerings share a register.

use crate::ast::{BindingModel, CaseModel, Expr};
use crate::growth::{lemma_lower_all_grows, lemma_lower_bodies_grows, lemma_lower_grows};
use crate::ir::{Instr, ScopeModel};
use crate::model::{
    argument_tail, binding_tail, call_tail, define_tail, lambda_block, lambda_entered,
    lambda_formals, lower, lower_all, lower_args, lower_bindings, lower_bodies, lower_cases,
    TranslatorState,
};
use crate::names::{lemma_register_names_distinct, register_name};
use vstd::prelude::*;

verus! {

/// `name` is the name of a register with an index from `from` up to, not including, `to`.
pub open spec fn register_in(name: Seq<char>, from: nat, to: nat) -> bool {
    exists|i: nat| from <= i < to && name == #[trigger] register_name(i)
}

/// The register that a scope selector names, if any, has an index in the range.
pub open spec fn scope_registers_in(scope: ScopeModel, from: nat, to: nat) -> bool {
    match scope {
        ScopeModel::Custom(register) => register_in(register, from, to),
        _ => true,
    }
}

/// Every register that the instruction names, in its branch too, has an index in the range.
pub open spec fn instr_registers_in(instr: Instr, from: nat, to: nat) -> bool
    decreases instr,
{
    match instr {
        Instr::AcceptToFormals { .. } => true,
        Instr::OpenScope => true,
        Instr::CloseScope => true,
        Instr::StaticRefToRegister { to_reg, .. } => register_in(to_reg, from, to),
        Instr::Push { register } => register_in(register, from, to),
        Instr::Pop { register } => register_in(register, from, to),
        Instr::ListInit { output_reg } => register_in(output_reg, from, to),
        Instr::ListAdd { list_reg, input_reg } => register_in(list_reg, from, to) && register_in(
            input_reg,
            from,
            to,
        ),
        Instr::Assign { from_reg, scope, .. } => register_in(from_reg, from, to)
            && scope_registers_in(scope, from, to),
        Instr::Call { output_reg, function_pointer, arguments } => register_in(
            output_reg,
            from,
            to,
        ) && register_in(function_pointer, from, to) && register_in(arguments, from, to),
        Instr::Lookup { to_reg, scope, .. } => register_in(to_reg, from, to)
            && scope_registers_in(scope, from, to),
        Instr::Cond { condition, branch } => register_in(condition, from, to) && forall|i: int|
            0 <= i < branch.len() ==> instr_registers_in(#[trigger] branch[i], from, to),
        Instr::Return { value } => register_in(value, from, to),
        Instr::InitializeFunctionPointer { from_scope, output_reg, .. } => register_in(
            output_reg,
            from,
            to,
        ) && scope_registers_in(from_scope, from, to),
    }
}

/// Every register that the code names has an index in the range.
pub open spec fn code_registers_in(code: Seq<Instr>, from: nat, to: nat) -> bool {
    forall|i: int| 0 <= i < code.len() ==> instr_registers_in(#[trigger] code[i], from, to)
}

/// A register of a range is a register of every wider range.
pub proof fn lemma_register_in_wider(name: Seq<char>, from: nat, to: nat, low: nat, high: nat)
    requires
        register_in(name, from, to),
        low <= from,
        to <= high,
    ensures
        register_in(name, low, high),
{
    let i = choose|i: nat| from <= i < to && name == #[trigger] register_name(i);
    assert(low <= i < high && name == register_name(i));
}

/// An instruction whose registers lie in a range has them in every wider range.
pub proof fn lemma_instr_in_wider(instr: Instr, from: nat, to: nat, low: nat, high: nat)
    requires
        instr_registers_in(instr, from, to),
        low <= from,
        to <= high,
    ensures
        instr_registers_in(instr, low, high),
    decreases instr,
{
    match instr {
        Instr::AcceptToFormals { .. } => {},
        Instr::OpenScope => {},
        Instr::CloseScope => {},
        Instr::StaticRefToRegister { to_reg, .. } => {
            lemma_register_in_wider(to_reg, from, to, low, high);
        },
        Instr::Push { register } => {
            lemma_register_in_wider(register, from, to, low, high);
        },
        Instr::Pop { register } => {
            lemma_register_in_wider(register, from, to, low, high);
        },
        Instr::ListInit { output_reg } => {
            lemma_register_in_wider(output_reg, from, to, low, high);
        },
        Instr::ListAdd { list_reg, input_reg } => {
            lemma_register_in_wider(list_reg, from, to, low, high);
            lemma_register_in_wider(input_reg, from, to, low, high);
        },
        Instr::Assign { from_reg, scope, .. } => {
            lemma_register_in_wider(from_reg, from, to, low, high);
            if let ScopeModel::Custom(register) = scope {
                lemma_register_in_wider(register, from, to, low, high);
            }
        },
        Instr::Call { output_reg, function_pointer, arguments } => {
            lemma_register_in_wider(output_reg, from, to, low, high);
            lemma_register_in_wider(function_pointer, from, to, low, high);
            lemma_register_in_wider(arguments, from, to, low, high);
        },
        Instr::Lookup { to_reg, scope, .. } => {
            lemma_register_in_wider(to_reg, from, to, low, high);
            if let ScopeModel::Custom(register) = scope {
                lemma_register_in_wider(register, from, to, low, high);
            }
        },
        Instr::Cond { condition, branch } => {
            lemma_register_in_wider(condition, from, to, low, high);
            assert forall|i: int| 0 <= i < branch.len() implies instr_registers_in(
                #[trigger] branch[i],
                low,
                high,
            ) by {
                lemma_instr_in_wider(branch[i], from, to, low, high);
            }
        },
        Instr::Return { value } => {
            lemma_register_in_wider(value, from, to, low, high);
        },
        Instr::InitializeFunctionPointer { from_scope, output_reg, .. } => {
            lemma_register_in_wider(output_reg, from, to, low, high);
            if let ScopeModel::Custom(register) = from_scope {
                lemma_register_in_wider(register, from, to, low, high);
            }
        },
    }
}

/// Code whose registers lie in a range has them in every wider range.
pub proof fn lemma_code_in_wider(code: Seq<Instr>, from: nat, to: nat, low: nat, high: nat)
    requires
        code_registers_in(code, from, to),
        low <= from,
        to <= high,
    ensures
        code_registers_in(code, low, high),
{
    assert forall|i: int| 0 <= i < code.len() implies instr_registers_in(
        #[trigger] code[i],
        low,
        high,
    ) by {
        lemma_instr_in_wider(code[i], from, to, low, high);
    }
}

/// Two pieces of code with their registers in a range have them in the
/// range when they stand one after the other.
pub proof fn lemma_code_in_concat(a: Seq<Instr>, b: Seq<Instr>, from: nat, to: nat)
    requires
        code_registers_in(a, from, to),
        code_registers_in(b, from, to),
    ensures
        code_registers_in(a + b, from, to),
{
    assert forall|i: int| 0 <= i < (a + b).len() implies instr_registers_in(
        #[trigger] (a + b)[i],
        from,
        to,
    ) by {
        if i < a.len() {
            assert((a + b)[i] == a[i]);
        } else {
            assert((a + b)[i] == b[i - a.len()]);
        }
    }
}

/// Two pieces of code, the first with its registers in the lower part of a
/// range and the second in the upper part, have them in the range when
/// they stand one after the other.
pub proof fn lemma_code_in_parts(a: Seq<Instr>, b: Seq<Instr>, from: nat, middle: nat, to: nat)
    requires
        from <= middle <= to,
        code_registers_in(a, from, middle),
        code_registers_in(b, middle, to),
    ensures
        code_registers_in(a + b, from, to),
{
    lemma_code_in_wider(a, from, middle, from, to);
    lemma_code_in_wider(b, middle, to, from, to);
    lemma_code_in_concat(a, b, from, to);
}

/// The register with index `i` lies in every range that holds `i`.
pub proof fn lemma_register_in_range(i: nat, from: nat, to: nat)
    requires
        from <= i < to,
    ensures
        register_in(register_name(i), from, to),
{
}

/// The fixed instruction groups name only the registers that they allocate.
pub proof fn lemma_groups_registers(st: TranslatorState, name: Seq<char>)
    ensures
        code_registers_in(define_tail(name, st).code, st.registers, st.registers + 1),
        code_registers_in(binding_tail(name, st).code, st.registers, st.registers + 1),
        code_registers_in(argument_tail(st).code, st.registers, st.registers + 2),
        code_registers_in(call_tail(st).code, st.registers, st.registers + 3),
{
    lemma_register_in_range(st.registers, st.registers, st.registers + 1);
    lemma_register_in_range(st.registers, st.registers, st.registers + 2);
    lemma_register_in_range(st.registers + 1, st.registers, st.registers + 2);
    lemma_register_in_range(st.registers, st.registers, st.registers + 3);
    lemma_register_in_range(st.registers + 1, st.registers, st.registers + 3);
    lemma_register_in_range(st.registers + 2, st.registers, st.registers + 3);
}

/// The code that an expression is lowered to names only registers that
/// the lowering allocated: those from the counter before it up to the
/// counter after it.
pub proof fn lemma_lower_registers(e: Expr, st: TranslatorState)
    ensures
        code_registers_in(lower(e, st).code, st.registers, lower(e, st).state.registers),
    decreases e, 0nat,
{
    let after = lower(e, st).state.registers;
    lemma_lower_grows(e, st);
    match e {
        Expr::Quote(_) => {
            lemma_register_in_range(st.registers, st.registers, after);
        },
        Expr::Atom(_) => {
            lemma_register_in_range(st.registers, st.registers, after);
        },
        Expr::Identifier(_) => {
            lemma_register_in_range(st.registers, st.registers, after);
        },
        Expr::Lambda(formals, body) => {
            lemma_lower_all_grows(body, 0, body.len(), lambda_entered(formals, st));
            lemma_register_in_range((after - 1) as nat, st.registers, after);
        },
        Expr::Cond(cases) => {
            lemma_cases_registers(cases, cases.len(), st);
        },
        Expr::Define(name, body) => {
            let inner = lower(*body, st);
            lemma_lower_registers(*body, st);
            lemma_lower_grows(*body, st);
            lemma_groups_registers(inner.state, name);
            lemma_code_in_parts(
                inner.code,
                define_tail(name, inner.state).code,
                st.registers,
                inner.state.registers,
                after,
            );
        },
        Expr::Let(bindings, body) => {
            let bound = lower_bindings(bindings, bindings.len(), st);
            let result = register_name(bound.state.registers);
            let entered = bound.state.with_registers(1);
            let inner = lower_bodies(body, body.len(), result, entered);
            lemma_bindings_registers(bindings, bindings.len(), st);
            lemma_bodies_registers(body, body.len(), result, entered);
            lemma_lower_bodies_grows(body, 0, body.len(), result, entered);
            lemma_register_in_range(bound.state.registers, st.registers, after);
            let open = seq![Instr::OpenScope];
            let close = seq![Instr::Push { register: result }, Instr::CloseScope];
            assert(code_registers_in(open, st.registers, after));
            assert(code_registers_in(close, st.registers, after));
            lemma_code_in_wider(bound.code, st.registers, bound.state.registers, st.registers, after);
            lemma_code_in_wider(inner.code, bound.state.registers, after, st.registers, after);
            lemma_code_in_concat(open, bound.code, st.registers, after);
            lemma_code_in_concat(open + bound.code, inner.code, st.registers, after);
            lemma_code_in_concat(open + bound.code + inner.code, close, st.registers, after);
        },
        Expr::Call(callee, arguments) => {
            let target = lower(*callee, st);
            let built = lower_args(arguments, arguments.len(), target.state);
            lemma_lower_registers(*callee, st);
            lemma_lower_grows(*callee, st);
            lemma_args_registers(arguments, arguments.len(), target.state);
            lemma_groups_registers(built.state, Seq::empty());
            lemma_code_in_parts(
                target.code,
                built.code,
                st.registers,
                target.state.registers,
                built.state.registers,
            );
            lemma_code_in_parts(
                target.code + built.code,
                call_tail(built.state).code,
                st.registers,
                built.state.registers,
                after,
            );
        },
    }
}

/// A list of expressions lowered one after the other names only the
/// registers that its lowering allocated.
pub proof fn lemma_all_registers(exprs: Seq<Expr>, k: nat, st: TranslatorState)
    requires
        k <= exprs.len(),
    ensures
        st.registers <= lower_all(exprs, k, st).state.registers,
        code_registers_in(
            lower_all(exprs, k, st).code,
            st.registers,
            lower_all(exprs, k, st).state.registers,
        ),
    decreases exprs, k,
{
    if k > 0 {
        let before = lower_all(exprs, (k - 1) as nat, st);
        let current = lower(exprs[k - 1], before.state);
        lemma_all_registers(exprs, (k - 1) as nat, st);
        lemma_lower_registers(exprs[k - 1], before.state);
        lemma_lower_grows(exprs[k - 1], before.state);
        lemma_code_in_parts(
            before.code,
            current.code,
            st.registers,
            before.state.registers,
            current.state.registers,
        );
    }
}

/// The body of a `let` names only the registers that its lowering
/// allocated and the result register, which is the one allocated just
/// before it.
pub proof fn lemma_bodies_registers(
    exprs: Seq<Expr>,
    k: nat,
    result: Seq<char>,
    st: TranslatorState,
)
    requires
        k <= exprs.len(),
        st.registers >= 1,
        result == register_name((st.registers - 1) as nat),
    ensures
        st.registers <= lower_bodies(exprs, k, result, st).state.registers,
        code_registers_in(
            lower_bodies(exprs, k, result, st).code,
            (st.registers - 1) as nat,
            lower_bodies(exprs, k, result, st).state.registers,
        ),
    decreases exprs, k,
{
    if k > 0 {
        let low = (st.registers - 1) as nat;
        let before = lower_bodies(exprs, (k - 1) as nat, result, st);
        let current = lower(exprs[k - 1], before.state);
        let pop = seq![Instr::Pop { register: result }];
        lemma_bodies_registers(exprs, (k - 1) as nat, result, st);
        lemma_lower_registers(exprs[k - 1], before.state);
        lemma_lower_grows(exprs[k - 1], before.state);
        lemma_register_in_range(low, low, current.state.registers);
        assert(code_registers_in(pop, low, current.state.registers));
        lemma_code_in_parts(
            before.code,
            current.code,
            low,
            before.state.registers,
            current.state.registers,
        );
        lemma_code_in_concat(before.code + current.code, pop, low, current.state.registers);
    }
}

/// The arguments of a call name only the registers that their lowering allocated.
pub proof fn lemma_args_registers(exprs: Seq<Expr>, k: nat, st: TranslatorState)
    requires
        k <= exprs.len(),
    ensures
        st.registers <= lower_args(exprs, k, st).state.registers,
        code_registers_in(
            lower_args(exprs, k, st).code,
            st.registers,
            lower_args(exprs, k, st).state.registers,
        ),
    decreases exprs, k,
{
    if k > 0 {
        let before = lower_args(exprs, (k - 1) as nat, st);
        let current = lower(exprs[k - 1], before.state);
        let tail = argument_tail(current.state);
        lemma_args_registers(exprs, (k - 1) as nat, st);
        lemma_lower_registers(exprs[k - 1], before.state);
        lemma_lower_grows(exprs[k - 1], before.state);
        lemma_groups_registers(current.state, Seq::empty());
        lemma_code_in_parts(
            before.code,
            current.code,
            st.registers,
            before.state.registers,
            current.state.registers,
        );
        lemma_code_in_parts(
            before.code + current.code,
            tail.code,
            st.registers,
            current.state.registers,
            tail.state.registers,
        );
    }
}

/// The bindings of a `let` name only the registers that their lowering allocated.
pub proof fn lemma_bindings_registers(bindings: Seq<BindingModel>, k: nat, st: TranslatorState)
    requires
        k <= bindings.len(),
    ensures
        st.registers <= lower_bindings(bindings, k, st).state.registers,
        code_registers_in(
            lower_bindings(bindings, k, st).code,
            st.registers,
            lower_bindings(bindings, k, st).state.registers,
        ),
    decreases bindings, k,
{
    if k > 0 {
        let before = lower_bindings(bindings, (k - 1) as nat, st);
        let current = lower(bindings[k - 1].value, before.state);
        let tail = binding_tail(bindings[k - 1].name, current.state);
        lemma_bindings_registers(bindings, (k - 1) as nat, st);
        lemma_lower_registers(bindings[k - 1].value, before.state);
        lemma_lower_grows(bindings[k - 1].value, before.state);
        lemma_groups_registers(current.state, bindings[k - 1].name);
        lemma_code_in_parts(
            before.code,
            current.code,
            st.registers,
            before.state.registers,
            current.state.registers,
        );
        lemma_code_in_parts(
            before.code + current.code,
            tail.code,
            st.registers,
            current.state.registers,
            tail.state.registers,
        );
    }
}

/// The cases of a conditional name only the registers that their
/// lowering allocated, in the branches too.
pub proof fn lemma_cases_registers(cases: Seq<CaseModel>, k: nat, st: TranslatorState)
    requires
        k <= cases.len(),
    ensures
        st.registers <= lower_cases(cases, k, st).state.registers,
        code_registers_in(
            lower_cases(cases, k, st).code,
            st.registers,
            lower_cases(cases, k, st).state.registers,
        ),
    decreases cases, k,
{
    if k > 0 {
        let before = lower_cases(cases, (k - 1) as nat, st);
        let test = lower(cases[k - 1].test, before.state);
        let condition = register_name(test.state.registers);
        let entered = test.state.with_registers(1);
        let branch = lower(cases[k - 1].consequent, entered);
        let after = branch.state.registers;
        let tail = seq![
            Instr::Pop { register: condition },
            Instr::Cond { condition, branch: branch.code },
        ];
        lemma_cases_registers(cases, (k - 1) as nat, st);
        lemma_lower_registers(cases[k - 1].test, before.state);
        lemma_lower_grows(cases[k - 1].test, before.state);
        lemma_lower_registers(cases[k - 1].consequent, entered);
        lemma_lower_grows(cases[k - 1].consequent, entered);
        lemma_register_in_range(test.state.registers, test.state.registers, after);
        lemma_code_in_wider(branch.code, entered.registers, after, test.state.registers, after);
        assert(instr_registers_in(tail[1], test.state.registers, after));
        assert(code_registers_in(tail, test.state.registers, after));
        lemma_code_in_parts(
            before.code,
            test.code,
            st.registers,
            before.state.registers,
            test.state.registers,
        );
        lemma_code_in_parts(
            before.code + test.code,
            tail,
            st.registers,
            test.state.registers,
            after,
        );
    }
}

/// The block of a lambda names only registers that the lowering of the
/// lambda allocated.
pub proof fn lemma_lambda_block_registers(
    formals: Seq<Seq<char>>,
    body: Seq<Expr>,
    st: TranslatorState,
)
    ensures
        code_registers_in(
            lambda_block(
                lambda_formals(formals, st),
                lower_all(body, body.len(), lambda_entered(formals, st)),
            ).program,
            st.registers,
            lower(Expr::Lambda(formals, body), st).state.registers,
        ),
{
    let inner = lower_all(body, body.len(), lambda_entered(formals, st));
    let after = lower(Expr::Lambda(formals, body), st).state.registers;
    let result = register_name(inner.state.registers);
    let head = seq![Instr::AcceptToFormals { formals: lambda_formals(formals, st) }];
    let tail = seq![Instr::Pop { register: result }, Instr::Return { value: result }];
    lemma_all_registers(body, body.len(), lambda_entered(formals, st));
    lemma_register_in_range(inner.state.registers, st.registers, after);
    assert(code_registers_in(head, st.registers, after));
    assert(code_registers_in(tail, st.registers, after));
    lemma_code_in_wider(inner.code, st.registers, inner.state.registers, st.registers, after);
    lemma_code_in_concat(head, inner.code, st.registers, after);
    lemma_code_in_concat(head + inner.code, tail, st.registers, after);
}

/// No register lies in two ranges that do not overlap.
pub proof fn lemma_ranges_share_no_register(
    name: Seq<char>,
    from: nat,
    middle: nat,
    to: nat,
)
    requires
        register_in(name, from, middle),
    ensures
        !register_in(name, middle, to),
{
    let i = choose|i: nat| from <= i < middle && name == #[trigger] register_name(i);
    if register_in(name, middle, to) {
        let j = choose|j: nat| middle <= j < to && name == #[trigger] register_name(j);
        lemma_register_names_distinct(i, j);
    }
}

/// Register uniqueness: when two expressions are lowered one after the
/// other, with anything lowered between them, every register that the code
/// of the first names has an index before the counter that the first left,
/// and every register that the code of the second names has an index at or
/// after it. So no register occurs in both.
pub proof fn lemma_lowerings_share_no_register(
    first: Expr,
    between: Expr,
    second: Expr,
    st: TranslatorState,
)
    ensures
        ({
            let a = lower(first, st);
            let m = lower(between, a.state);
            let b = lower(second, m.state);
            &&& code_registers_in(a.code, st.registers, a.state.registers)
            &&& code_registers_in(b.code, a.state.registers, b.state.registers)
            &&& forall|name: Seq<char>|
                #![trigger register_in(name, st.registers, a.state.registers)]
                register_in(name, st.registers, a.state.registers) ==> !register_in(
                    name,
                    a.state.registers,
                    b.state.registers,
                )
        }),
{
    let a = lower(first, st);
    let m = lower(between, a.state);
    let b = lower(second, m.state);
    lemma_lower_registers(first, st);
    lemma_lower_registers(second, m.state);
    lemma_lower_grows(between, a.state);
    lemma_lower_grows(second, m.state);
    lemma_code_in_wider(
        b.code,
        m.state.registers,
        b.state.registers,
        a.state.registers,
        b.state.registers,
    );
    assert forall|name: Seq<char>|
        #![trigger register_in(name, st.registers, a.state.registers)]
        register_in(name, st.registers, a.state.registers) implies !register_in(
        name,
        a.state.registers,
        b.state.registers,
    ) by {
        lemma_ranges_share_no_register(name, st.registers, a.state.registers, b.state.registers);
    }
}

} // verus!
