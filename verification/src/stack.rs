//! The operand stack: how many values an instruction sequence leaves pushed.

use crate::ast::{BindingModel, CaseModel, Expr};
use crate::ir::Instr;
use crate::model::{
    argument_tail, binding_tail, call_tail, define_tail, entry_block, lambda_block,
    lambda_entered, lambda_formals, lower, lower_all, lower_args, lower_bindings, lower_bodies,
    lower_cases, lower_lookup, TranslatorState,
};
use crate::names::register_name;
use vstd::prelude::*;

verus! {

/// What one instruction does to the height of the operand stack. The
/// instructions inside a branch are not counted: they run only where the
/// guard holds.
pub open spec fn instr_effect(instr: Instr) -> int {
    match instr {
        Instr::Push { .. } => 1,
        Instr::Pop { .. } => -1,
        _ => 0,
    }
}

/// Pushes minus pops over an instruction sequence.
pub open spec fn stack_effect(code: Seq<Instr>) -> int
    decreases code.len(),
{
    if code.len() == 0 {
        0
    } else {
        stack_effect(code.drop_last()) + instr_effect(code.last())
    }
}

/// The effect of a sequence followed by one more instruction.
pub proof fn lemma_effect_push(code: Seq<Instr>, instr: Instr)
    ensures
        stack_effect(code.push(instr)) == stack_effect(code) + instr_effect(instr),
{
    assert(code.push(instr).drop_last() =~= code);
}

/// The effect of two sequences, one after the other, is the sum of their effects.
pub proof fn lemma_effect_concat(a: Seq<Instr>, b: Seq<Instr>)
    ensures
        stack_effect(a + b) == stack_effect(a) + stack_effect(b),
    decreases b.len(),
{
    if b.len() == 0 {
        assert(a + b =~= a);
    } else {
        assert((a + b).drop_last() =~= a + b.drop_last());
        lemma_effect_concat(a, b.drop_last());
    }
}

/// The effects of the fixed instruction groups that lowering emits.
pub proof fn lemma_effect_of_groups(st: TranslatorState, name: Seq<char>)
    ensures
        stack_effect(Seq::<Instr>::empty()) == 0,
        stack_effect(define_tail(name, st).code) == 0,
        stack_effect(binding_tail(name, st).code) == -1,
        stack_effect(argument_tail(st).code) == 0,
        stack_effect(call_tail(st).code) == 0,
        stack_effect(lower_lookup(name, st).code) == 1,
{
    let empty = Seq::<Instr>::empty();
    let d = define_tail(name, st).code;
    lemma_effect_push(empty, d[0]);
    lemma_effect_push(empty.push(d[0]), d[1]);
    lemma_effect_push(empty.push(d[0]).push(d[1]), d[2]);
    assert(d =~= empty.push(d[0]).push(d[1]).push(d[2]));
    let b = binding_tail(name, st).code;
    lemma_effect_push(empty, b[0]);
    lemma_effect_push(empty.push(b[0]), b[1]);
    assert(b =~= empty.push(b[0]).push(b[1]));
    let a = argument_tail(st).code;
    lemma_effect_push(empty, a[0]);
    lemma_effect_push(empty.push(a[0]), a[1]);
    lemma_effect_push(empty.push(a[0]).push(a[1]), a[2]);
    lemma_effect_push(empty.push(a[0]).push(a[1]).push(a[2]), a[3]);
    assert(a =~= empty.push(a[0]).push(a[1]).push(a[2]).push(a[3]));
    let c = call_tail(st).code;
    lemma_effect_push(empty, c[0]);
    lemma_effect_push(empty.push(c[0]), c[1]);
    lemma_effect_push(empty.push(c[0]).push(c[1]), c[2]);
    lemma_effect_push(empty.push(c[0]).push(c[1]).push(c[2]), c[3]);
    assert(c =~= empty.push(c[0]).push(c[1]).push(c[2]).push(c[3]));
    let l = lower_lookup(name, st).code;
    lemma_effect_push(empty, l[0]);
    lemma_effect_push(empty.push(l[0]), l[1]);
    assert(l =~= empty.push(l[0]).push(l[1]));
}

/// A single instruction has its own effect.
pub proof fn lemma_effect_single(instr: Instr)
    ensures
        stack_effect(seq![instr]) == instr_effect(instr),
{
    let empty = Seq::<Instr>::empty();
    lemma_effect_push(empty, instr);
    assert(seq![instr] =~= empty.push(instr));
}

/// A sequence of two instructions has the sum of their effects.
pub proof fn lemma_effect_pair(first: Instr, second: Instr)
    ensures
        stack_effect(seq![first, second]) == instr_effect(first) + instr_effect(second),
{
    let empty = Seq::<Instr>::empty();
    lemma_effect_push(empty, first);
    lemma_effect_push(empty.push(first), second);
    assert(seq![first, second] =~= empty.push(first).push(second));
}

/// How many values the lowering of `e` leaves on the operand stack.
///
/// A literal, a name and a lambda leave one. A definition leaves what its
/// body leaves. A conditional leaves what its tests leave beyond the one
/// value that each guard takes. A `let` leaves one, and what its
/// initializers and body expressions leave beyond the one value that is
/// taken from each. A call leaves what its callee and its arguments leave.
pub open spec fn pushed_values(e: Expr) -> int
    decreases e, 0nat,
{
    match e {
        Expr::Quote(_) => 1,
        Expr::Atom(_) => 1,
        Expr::Identifier(_) => 1,
        Expr::Lambda(_, _) => 1,
        Expr::Cond(cases) => pushed_by_tests(cases, cases.len()) - cases.len(),
        Expr::Define(_, body) => pushed_values(*body),
        Expr::Let(bindings, body) => 1 + pushed_by_bindings(bindings, bindings.len())
            - bindings.len() + pushed_by_all(body, body.len()) - body.len(),
        Expr::Call(callee, arguments) => pushed_values(*callee) + pushed_by_all(
            arguments,
            arguments.len(),
        ),
    }
}

/// The values that the first `k` expressions of a list leave, together.
pub open spec fn pushed_by_all(exprs: Seq<Expr>, k: nat) -> int
    decreases exprs, k,
{
    if k == 0 || k > exprs.len() {
        0
    } else {
        pushed_by_all(exprs, (k - 1) as nat) + pushed_values(exprs[k - 1])
    }
}

/// The values that the initializers of the first `k` bindings leave, together.
pub open spec fn pushed_by_bindings(bindings: Seq<BindingModel>, k: nat) -> int
    decreases bindings, k,
{
    if k == 0 || k > bindings.len() {
        0
    } else {
        pushed_by_bindings(bindings, (k - 1) as nat) + pushed_values(bindings[k - 1].value)
    }
}

/// The values that the tests of the first `k` cases leave, together.
pub open spec fn pushed_by_tests(cases: Seq<CaseModel>, k: nat) -> int
    decreases cases, k,
{
    if k == 0 || k > cases.len() {
        0
    } else {
        pushed_by_tests(cases, (k - 1) as nat) + pushed_values(cases[k - 1].test)
    }
}

/// The instructions that an expression is lowered to leave exactly
/// `pushed_values` of it on the operand stack, whatever the state of the
/// translator.
pub proof fn lemma_lowering_stack_effect(e: Expr, st: TranslatorState)
    ensures
        stack_effect(lower(e, st).code) == pushed_values(e),
    decreases e, 0nat,
{
    match e {
        Expr::Quote(atom) => {
            let code = lower(e, st).code;
            lemma_effect_pair(code[0], code[1]);
            assert(code =~= seq![code[0], code[1]]);
        },
        Expr::Atom(atom) => {
            let code = lower(e, st).code;
            lemma_effect_pair(code[0], code[1]);
            assert(code =~= seq![code[0], code[1]]);
        },
        Expr::Identifier(name) => {
            lemma_effect_of_groups(st, name);
        },
        Expr::Lambda(formals, body) => {
            let code = lower(e, st).code;
            lemma_effect_pair(code[0], code[1]);
            assert(code =~= seq![code[0], code[1]]);
        },
        Expr::Cond(cases) => {
            lemma_cases_stack_effect(cases, cases.len(), st);
        },
        Expr::Define(name, body) => {
            let inner = lower(*body, st);
            lemma_lowering_stack_effect(*body, st);
            lemma_effect_of_groups(inner.state, name);
            lemma_effect_concat(inner.code, define_tail(name, inner.state).code);
        },
        Expr::Let(bindings, body) => {
            let bound = lower_bindings(bindings, bindings.len(), st);
            let result = register_name(bound.state.registers);
            let inner = lower_bodies(body, body.len(), result, bound.state.with_registers(1));
            lemma_bindings_stack_effect(bindings, bindings.len(), st);
            lemma_bodies_stack_effect(body, body.len(), result, bound.state.with_registers(1));
            let open = seq![Instr::OpenScope];
            let close = seq![Instr::Push { register: result }, Instr::CloseScope];
            lemma_effect_single(Instr::OpenScope);
            lemma_effect_pair(Instr::Push { register: result }, Instr::CloseScope);
            lemma_effect_concat(open, bound.code);
            lemma_effect_concat(open + bound.code, inner.code);
            lemma_effect_concat(open + bound.code + inner.code, close);
        },
        Expr::Call(callee, arguments) => {
            let target = lower(*callee, st);
            let built = lower_args(arguments, arguments.len(), target.state);
            lemma_lowering_stack_effect(*callee, st);
            lemma_args_stack_effect(arguments, arguments.len(), target.state);
            lemma_effect_of_groups(built.state, Seq::empty());
            lemma_effect_concat(target.code, built.code);
            lemma_effect_concat(target.code + built.code, call_tail(built.state).code);
        },
    }
}

/// A list of expressions lowered one after the other leaves what its
/// expressions leave, together.
pub proof fn lemma_all_stack_effect(exprs: Seq<Expr>, k: nat, st: TranslatorState)
    requires
        k <= exprs.len(),
    ensures
        stack_effect(lower_all(exprs, k, st).code) == pushed_by_all(exprs, k),
    decreases exprs, k,
{
    if k > 0 {
        let before = lower_all(exprs, (k - 1) as nat, st);
        lemma_all_stack_effect(exprs, (k - 1) as nat, st);
        lemma_lowering_stack_effect(exprs[k - 1], before.state);
        lemma_effect_concat(before.code, lower(exprs[k - 1], before.state).code);
    }
}

/// The body of a `let` takes one value from what each of its expressions leaves.
pub proof fn lemma_bodies_stack_effect(
    exprs: Seq<Expr>,
    k: nat,
    result: Seq<char>,
    st: TranslatorState,
)
    requires
        k <= exprs.len(),
    ensures
        stack_effect(lower_bodies(exprs, k, result, st).code) == pushed_by_all(exprs, k) - k,
    decreases exprs, k,
{
    if k > 0 {
        let before = lower_bodies(exprs, (k - 1) as nat, result, st);
        let current = lower(exprs[k - 1], before.state);
        lemma_bodies_stack_effect(exprs, (k - 1) as nat, result, st);
        lemma_lowering_stack_effect(exprs[k - 1], before.state);
        lemma_effect_concat(before.code, current.code);
        lemma_effect_single(Instr::Pop { register: result });
        lemma_effect_concat(before.code + current.code, seq![Instr::Pop { register: result }]);
    }
}

/// The arguments of a call leave what their expressions leave, together:
/// each value that is taken comes back as a list.
pub proof fn lemma_args_stack_effect(exprs: Seq<Expr>, k: nat, st: TranslatorState)
    requires
        k <= exprs.len(),
    ensures
        stack_effect(lower_args(exprs, k, st).code) == pushed_by_all(exprs, k),
    decreases exprs, k,
{
    if k > 0 {
        let before = lower_args(exprs, (k - 1) as nat, st);
        let current = lower(exprs[k - 1], before.state);
        lemma_args_stack_effect(exprs, (k - 1) as nat, st);
        lemma_lowering_stack_effect(exprs[k - 1], before.state);
        lemma_effect_of_groups(current.state, Seq::empty());
        lemma_effect_concat(before.code, current.code);
        lemma_effect_concat(before.code + current.code, argument_tail(current.state).code);
    }
}

/// The bindings of a `let` take one value from what each initializer leaves.
pub proof fn lemma_bindings_stack_effect(bindings: Seq<BindingModel>, k: nat, st: TranslatorState)
    requires
        k <= bindings.len(),
    ensures
        stack_effect(lower_bindings(bindings, k, st).code) == pushed_by_bindings(bindings, k) - k,
    decreases bindings, k,
{
    if k > 0 {
        let before = lower_bindings(bindings, (k - 1) as nat, st);
        let current = lower(bindings[k - 1].value, before.state);
        lemma_bindings_stack_effect(bindings, (k - 1) as nat, st);
        lemma_lowering_stack_effect(bindings[k - 1].value, before.state);
        lemma_effect_of_groups(current.state, bindings[k - 1].name);
        lemma_effect_concat(before.code, current.code);
        lemma_effect_concat(
            before.code + current.code,
            binding_tail(bindings[k - 1].name, current.state).code,
        );
    }
}

/// The cases of a conditional take one value from what each test leaves.
pub proof fn lemma_cases_stack_effect(cases: Seq<CaseModel>, k: nat, st: TranslatorState)
    requires
        k <= cases.len(),
    ensures
        stack_effect(lower_cases(cases, k, st).code) == pushed_by_tests(cases, k) - k,
    decreases cases, k,
{
    if k > 0 {
        let before = lower_cases(cases, (k - 1) as nat, st);
        let test = lower(cases[k - 1].test, before.state);
        let condition = register_name(test.state.registers);
        let branch = lower(cases[k - 1].consequent, test.state.with_registers(1));
        lemma_cases_stack_effect(cases, (k - 1) as nat, st);
        lemma_lowering_stack_effect(cases[k - 1].test, before.state);
        lemma_effect_concat(before.code, test.code);
        lemma_effect_pair(
            Instr::Pop { register: condition },
            Instr::Cond { condition, branch: branch.code },
        );
        lemma_effect_concat(
            before.code + test.code,
            seq![Instr::Pop { register: condition }, Instr::Cond { condition, branch: branch.code }],
        );
    }
}

/// Stack balance: where the expression is one that leaves one value, the
/// instructions it is lowered to push exactly one value more than they pop.
pub proof fn lemma_stack_balance(e: Expr, st: TranslatorState)
    requires
        pushed_values(e) == 1,
    ensures
        stack_effect(lower(e, st).code) == 1,
{
    lemma_lowering_stack_effect(e, st);
}

/// A definition leaves exactly what its body leaves: the popped value is pushed again.
pub proof fn lemma_define_yields_value(name: Seq<char>, body: Expr, st: TranslatorState)
    ensures
        stack_effect(lower(Expr::Define(name, Box::new(body)), st).code) == stack_effect(
            lower(body, st).code,
        ),
        lower(Expr::Define(name, Box::new(body)), st).code.last() == (Instr::Push {
            register: register_name(lower(body, st).state.registers),
        }),
{
    lemma_lowering_stack_effect(Expr::Define(name, Box::new(body)), st);
    lemma_lowering_stack_effect(body, st);
}

/// The entry block of a program leaves what its top-level expressions
/// leave, together: each of them leaves its value where it is. The block
/// of a lambda leaves one value less than its body expressions leave: the
/// one that it returns.
pub proof fn lemma_block_stack_effects(
    formals: Seq<Seq<char>>,
    body: Seq<Expr>,
    program: Seq<Expr>,
    st: TranslatorState,
)
    ensures
        stack_effect(entry_block(program, st).program) == pushed_by_all(program, program.len()),
        stack_effect(
            lambda_block(
                lambda_formals(formals, st),
                lower_all(body, body.len(), lambda_entered(formals, st)),
            ).program,
        ) == pushed_by_all(body, body.len()) - 1,
{
    let formals_ref = lambda_formals(formals, st);
    let inner = lower_all(body, body.len(), lambda_entered(formals, st));
    let result = register_name(inner.state.registers);
    let accept = Instr::AcceptToFormals { formals: formals_ref };
    let pop = Instr::Pop { register: result };
    let ret = Instr::Return { value: result };
    lemma_all_stack_effect(program, program.len(), st);
    lemma_all_stack_effect(body, body.len(), lambda_entered(formals, st));
    lemma_effect_single(accept);
    lemma_effect_pair(pop, ret);
    lemma_effect_concat(seq![accept], inner.code);
    lemma_effect_concat(seq![accept] + inner.code, seq![pop, ret]);
}

} // verus!
