//! Which expressions can be lowered: the test on the shape of callees.

use crate::ast::{
    bindings_view, cases_view, exprs_view, lemma_expression_view, Binding, CondCase, Expression,
};
use crate::model::{all_supported, supported};
use vstd::prelude::*;

verus! {

/// Whether every expression of a list is supported.
pub fn all_are_supported(exprs: &Vec<Expression>) -> (ok: bool)
    ensures
        ok == all_supported(exprs_view(exprs@)),
    decreases exprs, 0nat,
{
    let ghost models = exprs_view(exprs@);
    let mut i: usize = 0;
    while i < exprs.len()
        invariant
            i <= exprs.len(),
            models == exprs_view(exprs@),
            forall|j: int| 0 <= j < i ==> supported(#[trigger] models[j]),
        decreases exprs.len() - i,
    {
        assert(models[i as int] == exprs[i as int]@);
        if !exprs[i].is_supported() {
            return false;
        }
        i += 1;
    }
    true
}

/// Whether the test and the consequent of every case are supported.
fn cases_are_supported(cases: &Vec<CondCase>) -> (ok: bool)
    ensures
        ok == (forall|i: int|
            0 <= i < cases@.len() ==> supported((#[trigger] cases_view(cases@)[i]).test)
                && supported(cases_view(cases@)[i].consequent)),
    decreases cases, 0nat,
{
    let ghost models = cases_view(cases@);
    let mut i: usize = 0;
    while i < cases.len()
        invariant
            i <= cases.len(),
            models == cases_view(cases@),
            forall|j: int|
                0 <= j < i ==> supported((#[trigger] models[j]).test) && supported(
                    models[j].consequent,
                ),
        decreases cases.len() - i,
    {
        assert(models[i as int].test == cases[i as int].test@);
        assert(models[i as int].consequent == cases[i as int].consequent@);
        assert(decreases_to!(cases[i as int] => cases[i as int].test));
        assert(decreases_to!(cases[i as int] => cases[i as int].consequent));
        if !cases[i].test.is_supported() {
            return false;
        }
        if !cases[i].consequent.is_supported() {
            return false;
        }
        i += 1;
    }
    true
}

/// Whether the initializer of every binding is supported.
fn bindings_are_supported(bindings: &Vec<Binding>) -> (ok: bool)
    ensures
        ok == (forall|i: int|
            0 <= i < bindings@.len() ==> supported((#[trigger] bindings_view(bindings@)[i]).value)),
    decreases bindings, 0nat,
{
    let ghost models = bindings_view(bindings@);
    let mut i: usize = 0;
    while i < bindings.len()
        invariant
            i <= bindings.len(),
            models == bindings_view(bindings@),
            forall|j: int| 0 <= j < i ==> supported((#[trigger] models[j]).value),
        decreases bindings.len() - i,
    {
        assert(models[i as int].value == bindings[i as int].value@);
        assert(decreases_to!(bindings[i as int] => bindings[i as int].value));
        if !bindings[i].value.is_supported() {
            return false;
        }
        i += 1;
    }
    true
}

impl Expression {
    /// Whether the expression can be lowered: whether the callee of every
    /// call in it is a name, a lambda or another call.
    pub fn is_supported(&self) -> (ok: bool)
        ensures
            ok == supported(self@),
        decreases self, 1nat,
    {
        proof {
            lemma_expression_view(self);
        }
        match self {
            Expression::Quote(_) => true,
            Expression::Atom(_) => true,
            Expression::Identifier(_) => true,
            Expression::Lambda(_, body) => {
                let ok = all_are_supported(body);
                assert(self@->Lambda_1 == exprs_view(body@));
                assert(supported(self@) ==> ok);
                assert(ok ==> supported(self@));
                ok
            },
            Expression::Cond(cases) => {
                let ok = cases_are_supported(cases);
                assert(self@->Cond_0 == cases_view(cases@));
                ok
            },
            Expression::Define(_, body) => {
body.is_supported()
            },
            Expression::Let(bindings, body) => {
                let ok = bindings_are_supported(bindings) && all_are_supported(body);
                assert(self@->Let_0 == bindings_view(bindings@));
                assert(self@->Let_1 == exprs_view(body@));
                assert(supported(self@) ==> ok);
                assert(ok ==> supported(self@));
                ok
            },
            Expression::Call(callee, arguments) => {
                let shape = match &**callee {
                    Expression::Identifier(_) => true,
                    Expression::Lambda(_, _) => true,
                    Expression::Call(_, _) => true,
                    _ => false,
                };
                let ok = shape && callee.is_supported() && all_are_supported(arguments);
                proof {
                    lemma_expression_view(callee);
                    assert(*self@->Call_0 == (**callee)@);
                    assert(self@->Call_1 == exprs_view(arguments@));
                    assert(supported(self@) ==> ok);
                    assert(ok ==> supported(self@));
                }
                ok
            },
        }
    }
}

} // verus!
