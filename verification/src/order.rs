//! What stands before what in lowered code: bindings are sequential, and
//! the callee of a call comes first.

use crate::ast::{BindingModel, Expr};
use crate::ir::{Instr, ScopeModel};
use crate::model::{
    all_supported, binding_tail, call_tail, lower, lower_args, lower_bindings, supported,
    TranslatorState,
};
use crate::static_data::StaticValue;
use vstd::prelude::*;

verus! {

/// Sequential binding: the code of the first `k + 1` bindings is the code
/// of the first `k`, then the initializer of the next, lowered in the state
/// that those `k` left, then the assignment of its value to its name in the
/// current scope. So the assignment of every earlier binding stands before
/// a later initializer.
pub proof fn lemma_bindings_are_sequential(
    bindings: Seq<BindingModel>,
    k: nat,
    st: TranslatorState,
)
    requires
        k < bindings.len(),
    ensures
        ({
            let earlier = lower_bindings(bindings, k, st);
            let initializer = lower(bindings[k as int].value, earlier.state);
            let code = lower_bindings(bindings, k + 1, st).code;
            let assign = code.last();
            &&& code == earlier.code + initializer.code + binding_tail(
                bindings[k as int].name,
                initializer.state,
            ).code
            &&& assign is Assign
            &&& assign->Assign_identifier.value == StaticValue::Text(bindings[k as int].name)
            &&& assign->Assign_scope == ScopeModel::Current
            &&& code[code.len() - 2] == (Instr::Pop { register: assign->Assign_from_reg })
        }),
{
}

/// A call whose callee is itself a call is lowered where the inner call
/// and the arguments can be lowered, and its code begins with the code of
/// the inner call, which yields the callable.
pub proof fn lemma_call_of_call(inner: Expr, arguments: Seq<Expr>, st: TranslatorState)
    requires
        inner is Call,
        supported(inner),
        all_supported(arguments),
    ensures
        supported(Expr::Call(Box::new(inner), arguments)),
        ({
            let callee = lower(inner, st);
            let built = lower_args(arguments, arguments.len(), callee.state);
            lower(Expr::Call(Box::new(inner), arguments), st).code == callee.code + built.code
                + call_tail(built.state).code
        }),
{
}

} // verus!
