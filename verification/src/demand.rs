//! How many names the lowering of an expression allocates, and whether a
//! translator has room for them.

use crate::ast::{
    bindings_view, cases_view, exprs_view, lemma_expression_view, Binding, BindingModel, CaseModel,
    CondCase, Expr, Expression,
};
use crate::model::{
    lambda_entered, lower, lower_all, lower_args, lower_bindings, lower_bodies, lower_cases,
    TranslatorState,
};
use crate::names::register_name;
use vstd::prelude::*;

verus! {

/// A number of registers, of static names and of anonymous block names.
pub struct DemandModel {
    pub registers: nat,
    pub statics: nat,
    pub lambdas: nat,
}

impl DemandModel {
    /// Both demands together.
    pub open spec fn plus(self, other: DemandModel) -> DemandModel {
        DemandModel {
            registers: self.registers + other.registers,
            statics: self.statics + other.statics,
            lambdas: self.lambdas + other.lambdas,
        }
    }

    /// Each number fits the machine's word.
    pub open spec fn fits(self) -> bool {
        &&& self.registers <= usize::MAX
        &&& self.statics <= usize::MAX
        &&& self.lambdas <= usize::MAX
    }

    /// No number of `self` is above the same number of `other`.
    pub open spec fn at_most(self, other: DemandModel) -> bool {
        &&& self.registers <= other.registers
        &&& self.statics <= other.statics
        &&& self.lambdas <= other.lambdas
    }
}

/// A demand of given numbers.
pub open spec fn demand_of(registers: nat, statics: nat, lambdas: nat) -> DemandModel {
    DemandModel { registers, statics, lambdas }
}

/// What the lowering of `e` allocates.
pub open spec fn demand(e: Expr) -> DemandModel
    decreases e, 0nat,
{
    match e {
        Expr::Quote(_) => demand_of(1, 1, 0),
        Expr::Atom(_) => demand_of(1, 1, 0),
        Expr::Identifier(_) => demand_of(1, 1, 0),
        Expr::Lambda(_, body) => demand_all(body, body.len()).plus(demand_of(2, 0, 1)),
        Expr::Cond(cases) => demand_cases(cases, cases.len()),
        Expr::Define(_, body) => demand(*body).plus(demand_of(1, 1, 0)),
        Expr::Let(bindings, body) => demand_bindings(bindings, bindings.len()).plus(
            demand_of(1, 0, 0),
        ).plus(demand_all(body, body.len())),
        Expr::Call(callee, arguments) => demand(*callee).plus(
            demand_args(arguments, arguments.len()),
        ).plus(demand_of(3, 0, 0)),
    }
}

/// What the first `k` expressions of a list allocate.
pub open spec fn demand_all(exprs: Seq<Expr>, k: nat) -> DemandModel
    decreases exprs, k,
{
    if k == 0 || k > exprs.len() {
        demand_of(0, 0, 0)
    } else {
        demand_all(exprs, (k - 1) as nat).plus(demand(exprs[k - 1]))
    }
}

/// What the first `k` arguments of a call allocate: two registers each
/// beside what the argument itself allocates.
pub open spec fn demand_args(exprs: Seq<Expr>, k: nat) -> DemandModel
    decreases exprs, k,
{
    if k == 0 || k > exprs.len() {
        demand_of(0, 0, 0)
    } else {
        demand_args(exprs, (k - 1) as nat).plus(demand(exprs[k - 1])).plus(demand_of(2, 0, 0))
    }
}

/// What the first `k` bindings allocate: a register and a static name
/// each beside what the initializer allocates.
pub open spec fn demand_bindings(bindings: Seq<BindingModel>, k: nat) -> DemandModel
    decreases bindings, k,
{
    if k == 0 || k > bindings.len() {
        demand_of(0, 0, 0)
    } else {
        demand_bindings(bindings, (k - 1) as nat).plus(demand(bindings[k - 1].value)).plus(
            demand_of(1, 1, 0),
        )
    }
}

/// What the first `k` cases allocate: a register each beside what the
/// test and the consequent allocate.
pub open spec fn demand_cases(cases: Seq<CaseModel>, k: nat) -> DemandModel
    decreases cases, k,
{
    if k == 0 || k > cases.len() {
        demand_of(0, 0, 0)
    } else {
        demand_cases(cases, (k - 1) as nat).plus(demand(cases[k - 1].test)).plus(
            demand_of(1, 0, 0),
        ).plus(demand(cases[k - 1].consequent))
    }
}

/// The counters of `after` are those of `before` advanced by `by`.
pub open spec fn advanced(before: TranslatorState, by: DemandModel, after: TranslatorState) -> bool {
    &&& after.registers == before.registers + by.registers
    &&& after.statics == before.statics + by.statics
    &&& after.lambdas == before.lambdas + by.lambdas
}

/// Lowering an expression advances the counters by exactly its demand,
/// whatever the state it starts from.
pub proof fn lemma_lower_demand(e: Expr, st: TranslatorState)
    ensures
        advanced(st, demand(e), lower(e, st).state),
    decreases e, 0nat,
{
    match e {
        Expr::Quote(_) => {},
        Expr::Atom(_) => {},
        Expr::Identifier(_) => {},
        Expr::Lambda(formals, body) => {
            lemma_lower_all_demand(body, body.len(), lambda_entered(formals, st));
        },
        Expr::Cond(cases) => {
            lemma_lower_cases_demand(cases, cases.len(), st);
        },
        Expr::Define(_, body) => {
            lemma_lower_demand(*body, st);
        },
        Expr::Let(bindings, body) => {
            lemma_lower_bindings_demand(bindings, bindings.len(), st);
            let bound = lower_bindings(bindings, bindings.len(), st);
            lemma_lower_bodies_demand(
                body,
                body.len(),
                register_name(bound.state.registers),
                bound.state.with_registers(1),
            );
        },
        Expr::Call(callee, arguments) => {
            lemma_lower_demand(*callee, st);
            lemma_lower_args_demand(arguments, arguments.len(), lower(*callee, st).state);
        },
    }
}

/// A list of expressions advances the counters by the demand of its expressions.
pub proof fn lemma_lower_all_demand(exprs: Seq<Expr>, k: nat, st: TranslatorState)
    requires
        k <= exprs.len(),
    ensures
        advanced(st, demand_all(exprs, k), lower_all(exprs, k, st).state),
    decreases exprs, k,
{
    if k > 0 {
        lemma_lower_all_demand(exprs, (k - 1) as nat, st);
        lemma_lower_demand(exprs[k - 1], lower_all(exprs, (k - 1) as nat, st).state);
    }
}

/// The body of a `let` advances the counters by the demand of its expressions.
pub proof fn lemma_lower_bodies_demand(
    exprs: Seq<Expr>,
    k: nat,
    result: Seq<char>,
    st: TranslatorState,
)
    requires
        k <= exprs.len(),
    ensures
        advanced(st, demand_all(exprs, k), lower_bodies(exprs, k, result, st).state),
    decreases exprs, k,
{
    if k > 0 {
        lemma_lower_bodies_demand(exprs, (k - 1) as nat, result, st);
        lemma_lower_demand(exprs[k - 1], lower_bodies(exprs, (k - 1) as nat, result, st).state);
    }
}

/// The arguments of a call advance the counters by their demand.
pub proof fn lemma_lower_args_demand(exprs: Seq<Expr>, k: nat, st: TranslatorState)
    requires
        k <= exprs.len(),
    ensures
        advanced(st, demand_args(exprs, k), lower_args(exprs, k, st).state),
    decreases exprs, k,
{
    if k > 0 {
        lemma_lower_args_demand(exprs, (k - 1) as nat, st);
        lemma_lower_demand(exprs[k - 1], lower_args(exprs, (k - 1) as nat, st).state);
    }
}

/// The bindings of a `let` advance the counters by their demand.
pub proof fn lemma_lower_bindings_demand(bindings: Seq<BindingModel>, k: nat, st: TranslatorState)
    requires
        k <= bindings.len(),
    ensures
        advanced(st, demand_bindings(bindings, k), lower_bindings(bindings, k, st).state),
    decreases bindings, k,
{
    if k > 0 {
        lemma_lower_bindings_demand(bindings, (k - 1) as nat, st);
        lemma_lower_demand(
            bindings[k - 1].value,
            lower_bindings(bindings, (k - 1) as nat, st).state,
        );
    }
}

/// The cases of a conditional advance the counters by their demand.
pub proof fn lemma_lower_cases_demand(cases: Seq<CaseModel>, k: nat, st: TranslatorState)
    requires
        k <= cases.len(),
    ensures
        advanced(st, demand_cases(cases, k), lower_cases(cases, k, st).state),
    decreases cases, k,
{
    if k > 0 {
        lemma_lower_cases_demand(cases, (k - 1) as nat, st);
        let before = lower_cases(cases, (k - 1) as nat, st).state;
        lemma_lower_demand(cases[k - 1].test, before);
        lemma_lower_demand(
            cases[k - 1].consequent,
            lower(cases[k - 1].test, before).state.with_registers(1),
        );
    }
}

/// A shorter prefix of a list demands no more than a longer one.
pub proof fn lemma_demand_all_monotone(exprs: Seq<Expr>, j: nat, k: nat)
    requires
        j <= k <= exprs.len(),
    ensures
        demand_all(exprs, j).at_most(demand_all(exprs, k)),
    decreases k,
{
    if j < k {
        lemma_demand_all_monotone(exprs, j, (k - 1) as nat);
    }
}

/// A shorter prefix of an argument list demands no more than a longer one.
pub proof fn lemma_demand_args_monotone(exprs: Seq<Expr>, j: nat, k: nat)
    requires
        j <= k <= exprs.len(),
    ensures
        demand_args(exprs, j).at_most(demand_args(exprs, k)),
    decreases k,
{
    if j < k {
        lemma_demand_args_monotone(exprs, j, (k - 1) as nat);
    }
}

/// A shorter prefix of a list of bindings demands no more than a longer one.
pub proof fn lemma_demand_bindings_monotone(bindings: Seq<BindingModel>, j: nat, k: nat)
    requires
        j <= k <= bindings.len(),
    ensures
        demand_bindings(bindings, j).at_most(demand_bindings(bindings, k)),
    decreases k,
{
    if j < k {
        lemma_demand_bindings_monotone(bindings, j, (k - 1) as nat);
    }
}

/// A shorter prefix of a list of cases demands no more than a longer one.
pub proof fn lemma_demand_cases_monotone(cases: Seq<CaseModel>, j: nat, k: nat)
    requires
        j <= k <= cases.len(),
    ensures
        demand_cases(cases, j).at_most(demand_cases(cases, k)),
    decreases k,
{
    if j < k {
        lemma_demand_cases_monotone(cases, j, (k - 1) as nat);
    }
}

/// A number of registers, of static names and of anonymous block names,
/// each within the machine's word.
#[derive(Debug, Clone, Copy, PartialEq, Eq)]
pub struct Demand {
    pub registers: usize,
    pub statics: usize,
    pub lambdas: usize,
}

impl View for Demand {
    type V = DemandModel;

    open spec fn view(&self) -> DemandModel {
        DemandModel {
            registers: self.registers as nat,
            statics: self.statics as nat,
            lambdas: self.lambdas as nat,
        }
    }
}

impl Demand {
    /// A demand of given numbers.
    pub fn new(registers: usize, statics: usize, lambdas: usize) -> (demand: Demand)
        ensures
            demand@ == demand_of(registers as nat, statics as nat, lambdas as nat),
    {
        Demand { registers, statics, lambdas }
    }

    /// Both demands together, where the sums fit the machine's word.
    pub fn plus(&self, other: &Demand) -> (sum: Option<Demand>)
        ensures
            sum is Some <==> self@.plus(other@).fits(),
            sum is Some ==> sum->0@ == self@.plus(other@),
    {
        let registers = match self.registers.checked_add(other.registers) {
            Some(n) => n,
            None => {
                return None;
            },
        };
        let statics = match self.statics.checked_add(other.statics) {
            Some(n) => n,
            None => {
                return None;
            },
        };
        let lambdas = match self.lambdas.checked_add(other.lambdas) {
            Some(n) => n,
            None => {
                return None;
            },
        };
        Some(Demand { registers, statics, lambdas })
    }
}

/// What a list of expressions allocates, where it fits the machine's word.
pub fn demand_of_all(exprs: &Vec<Expression>) -> (total: Option<Demand>)
    ensures
        total is Some <==> demand_all(exprs_view(exprs@), exprs@.len()).fits(),
        total is Some ==> total->0@ == demand_all(exprs_view(exprs@), exprs@.len()),
    decreases exprs, 0nat,
{
    let ghost models = exprs_view(exprs@);
    let mut total = Demand::new(0, 0, 0);
    let mut i: usize = 0;
    while i < exprs.len()
        invariant
            i <= exprs.len(),
            models == exprs_view(exprs@),
            total@ == demand_all(models, i as nat),
        decreases exprs.len() - i,
    {
        proof {
            assert(models[i as int] == exprs[i as int]@);
            lemma_demand_all_monotone(models, (i + 1) as nat, exprs@.len());
        }
        let step = match exprs[i].demand() {
            Some(step) => step,
            None => {
                return None;
            },
        };
        total = match total.plus(&step) {
            Some(sum) => sum,
            None => {
                return None;
            },
        };
        i += 1;
    }
    Some(total)
}

/// What the arguments of a call allocate, where it fits the machine's word.
pub fn demand_of_args(exprs: &Vec<Expression>) -> (total: Option<Demand>)
    ensures
        total is Some <==> demand_args(exprs_view(exprs@), exprs@.len()).fits(),
        total is Some ==> total->0@ == demand_args(exprs_view(exprs@), exprs@.len()),
    decreases exprs, 0nat,
{
    let ghost models = exprs_view(exprs@);
    let mut total = Demand::new(0, 0, 0);
    let mut i: usize = 0;
    while i < exprs.len()
        invariant
            i <= exprs.len(),
            models == exprs_view(exprs@),
            total@ == demand_args(models, i as nat),
        decreases exprs.len() - i,
    {
        proof {
            assert(models[i as int] == exprs[i as int]@);
            lemma_demand_args_monotone(models, (i + 1) as nat, exprs@.len());
        }
        let step = match exprs[i].demand() {
            Some(step) => step,
            None => {
                return None;
            },
        };
        let with_step = match total.plus(&step) {
            Some(sum) => sum,
            None => {
                return None;
            },
        };
        total = match with_step.plus(&Demand::new(2, 0, 0)) {
            Some(sum) => sum,
            None => {
                return None;
            },
        };
        i += 1;
    }
    Some(total)
}

/// What the bindings of a `let` allocate, where it fits the machine's word.
pub fn demand_of_bindings(bindings: &Vec<Binding>) -> (total: Option<Demand>)
    ensures
        total is Some <==> demand_bindings(bindings_view(bindings@), bindings@.len()).fits(),
        total is Some ==> total->0@ == demand_bindings(bindings_view(bindings@), bindings@.len()),
    decreases bindings, 0nat,
{
    let ghost models = bindings_view(bindings@);
    let mut total = Demand::new(0, 0, 0);
    let mut i: usize = 0;
    while i < bindings.len()
        invariant
            i <= bindings.len(),
            models == bindings_view(bindings@),
            total@ == demand_bindings(models, i as nat),
        decreases bindings.len() - i,
    {
        proof {
            assert(models[i as int].value == bindings[i as int].value@);
            assert(decreases_to!(bindings[i as int] => bindings[i as int].value));
            lemma_demand_bindings_monotone(models, (i + 1) as nat, bindings@.len());
        }
        let step = match bindings[i].value.demand() {
            Some(step) => step,
            None => {
                return None;
            },
        };
        let with_step = match total.plus(&step) {
            Some(sum) => sum,
            None => {
                return None;
            },
        };
        total = match with_step.plus(&Demand::new(1, 1, 0)) {
            Some(sum) => sum,
            None => {
                return None;
            },
        };
        i += 1;
    }
    Some(total)
}

/// What the cases of a conditional allocate, where it fits the machine's word.
pub fn demand_of_cases(cases: &Vec<CondCase>) -> (total: Option<Demand>)
    ensures
        total is Some <==> demand_cases(cases_view(cases@), cases@.len()).fits(),
        total is Some ==> total->0@ == demand_cases(cases_view(cases@), cases@.len()),
    decreases cases, 0nat,
{
    let ghost models = cases_view(cases@);
    let mut total = Demand::new(0, 0, 0);
    let mut i: usize = 0;
    while i < cases.len()
        invariant
            i <= cases.len(),
            models == cases_view(cases@),
            total@ == demand_cases(models, i as nat),
        decreases cases.len() - i,
    {
        proof {
            assert(models[i as int].test == cases[i as int].test@);
            assert(models[i as int].consequent == cases[i as int].consequent@);
            assert(decreases_to!(cases[i as int] => cases[i as int].test));
            assert(decreases_to!(cases[i as int] => cases[i as int].consequent));
            lemma_demand_cases_monotone(models, (i + 1) as nat, cases@.len());
        }
        let test = match cases[i].test.demand() {
            Some(step) => step,
            None => {
                return None;
            },
        };
        let with_test = match total.plus(&test) {
            Some(sum) => sum,
            None => {
                return None;
            },
        };
        let with_guard = match with_test.plus(&Demand::new(1, 0, 0)) {
            Some(sum) => sum,
            None => {
                return None;
            },
        };
        let consequent = match cases[i].consequent.demand() {
            Some(step) => step,
            None => {
                return None;
            },
        };
        total = match with_guard.plus(&consequent) {
            Some(sum) => sum,
            None => {
                return None;
            },
        };
        i += 1;
    }
    Some(total)
}

impl Expression {
    /// What the lowering of the expression allocates, where each number
    /// fits the machine's word.
    pub fn demand(&self) -> (total: Option<Demand>)
        ensures
            total is Some <==> demand(self@).fits(),
            total is Some ==> total->0@ == demand(self@),
        decreases self, 1nat,
    {
        proof {
            lemma_expression_view(self);
        }
        match self {
            Expression::Quote(_) => Some(Demand::new(1, 1, 0)),
            Expression::Atom(_) => Some(Demand::new(1, 1, 0)),
            Expression::Identifier(_) => Some(Demand::new(1, 1, 0)),
            Expression::Lambda(_, body) => {
                match demand_of_all(body) {
                    Some(inner) => inner.plus(&Demand::new(2, 0, 1)),
                    None => None,
                }
            },
            Expression::Cond(cases) => demand_of_cases(cases),
            Expression::Define(_, body) => {
                match body.demand() {
                    Some(inner) => inner.plus(&Demand::new(1, 1, 0)),
                    None => None,
                }
            },
            Expression::Let(bindings, body) => {
                let bound = match demand_of_bindings(bindings) {
                    Some(bound) => bound,
                    None => {
                        return None;
                    },
                };
                let with_result = match bound.plus(&Demand::new(1, 0, 0)) {
                    Some(sum) => sum,
                    None => {
                        return None;
                    },
                };
                match demand_of_all(body) {
                    Some(inner) => with_result.plus(&inner),
                    None => None,
                }
            },
            Expression::Call(callee, arguments) => {
                proof {
                    lemma_expression_view(callee);
                }
                let target = match callee.demand() {
                    Some(target) => target,
                    None => {
                        return None;
                    },
                };
                let built = match demand_of_args(arguments) {
                    Some(built) => built,
                    None => {
                        return None;
                    },
                };
                match target.plus(&built) {
                    Some(sum) => sum.plus(&Demand::new(3, 0, 0)),
                    None => None,
                }
            },
        }
    }
}

} // verus!
