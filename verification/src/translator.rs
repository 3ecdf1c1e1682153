//! The translator: counters, tables, and the lowering of expressions into
//! instructions.

use crate::ast::{
    bindings_view, cases_view, exprs_view, lemma_expression_view, names_view, AtomTypes, Expr,
    Expression, Programm,
};
use crate::demand::{demand_of_all, lemma_lower_all_demand, lemma_lower_demand, Demand};
use crate::growth::{
    lemma_lower_all_grows, lemma_lower_args_grows, lemma_lower_bindings_grows,
    lemma_lower_bodies_grows, lemma_lower_cases_grows, lemma_lower_grows,
};
use crate::ir::{
    code_view, conditional, emit, emit_all, FunctionPointer, Instr, LinearBlock,
    LinearInstruction, Register, Scope,
};
use crate::model::{
    all_supported, atom_static, entry_block, formals_static, lambda_block, lambda_close,
    lambda_entered, lambda_formals, lower, lower_all, lower_args, lower_bindings, lower_bodies,
    lower_cases, lower_literal, lower_lookup, program_state, supported, TranslatorState,
};
use crate::names::{anon_block_name, entry_name, numbered_name, register_name, static_name};
use crate::static_data::{StaticData, StaticRef, StaticValue};
use crate::support::all_are_supported;
use vstd::hash_map::StringHashMap;
use vstd::prelude::*;
use vstd::string::*;

verus! {

/// The context of one lowering run.
pub struct Translator {
    register_counter: usize,
    anon_lambda_counter: usize,
    static_data_counter: usize,
    static_data: StringHashMap<StaticData>,
    lambda_map: StringHashMap<LinearBlock>,
}

impl View for Translator {
    type V = TranslatorState;

    closed spec fn view(&self) -> TranslatorState {
        TranslatorState {
            registers: self.register_counter as nat,
            statics: self.static_data_counter as nat,
            lambdas: self.anon_lambda_counter as nat,
            static_table: self.static_data@.map_values(|data: StaticData| data@),
            blocks: self.lambda_map@.map_values(|block: LinearBlock| block@),
        }
    }
}

/// Converts a literal into static data: symbols become identifiers, lists
/// are converted element by element.
pub fn atomtype_to_static_data(atom: &AtomTypes) -> (data: StaticData)
    ensures
        data@ == atom_static(atom@),
    decreases atom,
{
    match atom {
        AtomTypes::Integer(i) => StaticData::Integer(*i),
        AtomTypes::Symbol(symbol) => StaticData::Identifier(symbol.clone()),
        AtomTypes::String(string) => StaticData::String(string.clone()),
        AtomTypes::Boolean(boolean) => StaticData::Bool(*boolean),
        AtomTypes::List(items) => {
            let mut converted: Vec<StaticData> = Vec::new();
            let mut i: usize = 0;
            while i < items.len()
                invariant
                    *atom == AtomTypes::List(*items),
                    i <= items.len(),
                    converted.len() == i,
                    forall|j: int| 0 <= j < i ==> converted[j]@ == atom_static(items[j]@),
                decreases items.len() - i,
            {
                assert(decreases_to!(*atom => atom->List_0));
                converted.push(atomtype_to_static_data(&items[i]));
                i += 1;
            }
            let data = StaticData::List(converted);
            assert(data@->List_0 =~= atom_static(atom@)->List_0);
            data
        },
    }
}

/// Builds the static list of a lambda's formals: one identifier per name, in order.
pub fn formals_to_static_data(formals: &Vec<String>) -> (data: StaticData)
    ensures
        data@ == formals_static(names_view(formals@)),
{
    let mut identifiers: Vec<StaticData> = Vec::new();
    let mut i: usize = 0;
    while i < formals.len()
        invariant
            i <= formals.len(),
            identifiers.len() == i,
            forall|j: int|
                0 <= j < i ==> identifiers[j]@ == StaticValue::Identifier(
                    formals[j]@,
                ),
        decreases formals.len() - i,
    {
        identifiers.push(StaticData::Identifier(formals[i].clone()));
        i += 1;
    }
    let data = StaticData::List(identifiers);
    assert(data@->List_0 =~= formals_static(names_view(formals@))->List_0);
    data
}

impl Translator {
    /// A translator that has allocated nothing yet.
    pub fn default() -> (translator: Translator)
        ensures
            translator@ == TranslatorState::initial(),
    {
        let translator = Translator {
            register_counter: 0,
            static_data_counter: 0,
            anon_lambda_counter: 0,
            lambda_map: StringHashMap::new(),
            static_data: StringHashMap::new(),
        };
        assert(translator@.static_table =~= Map::empty());
        assert(translator@.blocks =~= Map::empty());
        translator
    }

    /// How many registers have been allocated.
    pub fn register_count(&self) -> (count: usize)
        ensures
            count == self@.registers,
    {
        self.register_counter
    }

    /// How many static names have been allocated.
    pub fn static_count(&self) -> (count: usize)
        ensures
            count == self@.statics,
    {
        self.static_data_counter
    }

    /// How many anonymous block names have been allocated.
    pub fn lambda_count(&self) -> (count: usize)
        ensures
            count == self@.lambdas,
    {
        self.anon_lambda_counter
    }

    /// The static data interned under `name`, if any.
    pub fn static_entry(&self, name: &str) -> (entry: Option<&StaticData>)
        ensures
            entry is Some <==> self@.static_table.contains_key(name@),
            entry is Some ==> entry->0@ == self@.static_table[name@],
    {
        self.static_data.get(name)
    }

    /// The block registered under `name`, if any.
    pub fn block(&self, name: &str) -> (entry: Option<&LinearBlock>)
        ensures
            entry is Some <==> self@.blocks.contains_key(name@),
            entry is Some ==> entry->0@ == self@.blocks[name@],
    {
        self.lambda_map.get(name)
    }

    /// Allocates the next register.
    pub fn make_reg_name(&mut self) -> (register: Register)
        requires
            old(self)@.registers < usize::MAX,
        ensures
            register@ == register_name(old(self)@.registers),
            final(self)@ == old(self)@.with_registers(1),
    {
        proof {
            reveal_strlit("r");
        }
        let name = numbered_name("r", self.register_counter);
        assert(name@ =~= register_name(self@.registers));
        self.register_counter += 1;
        Register { virtual_ident: name }
    }

    /// Allocates the next anonymous block name.
    pub fn make_anon_lambda_name(&mut self) -> (name: String)
        requires
            old(self)@.lambdas < usize::MAX,
        ensures
            name@ == anon_block_name(old(self)@.lambdas),
            final(self)@ == (TranslatorState { lambdas: old(self)@.lambdas + 1, ..old(self)@ }),
    {
        proof {
            reveal_strlit("_");
        }
        let name = numbered_name("_", self.anon_lambda_counter);
        assert(name@ =~= anon_block_name(self@.lambdas));
        self.anon_lambda_counter += 1;
        name
    }

    /// Allocates the next static name.
    pub fn make_static_name(&mut self) -> (name: String)
        requires
            old(self)@.statics < usize::MAX,
        ensures
            name@ == static_name(old(self)@.statics),
            final(self)@ == (TranslatorState { statics: old(self)@.statics + 1, ..old(self)@ }),
    {
        proof {
            reveal_strlit("static");
        }
        let name = numbered_name("static", self.static_data_counter);
        assert(name@ =~= static_name(self@.statics));
        self.static_data_counter += 1;
        name
    }

    /// Interns `value` under the next static name and returns the reference.
    /// Equal values interned twice get two names.
    pub fn intern(&mut self, value: StaticData) -> (reference: StaticRef)
        requires
            old(self)@.statics < usize::MAX,
        ensures
            reference@ == old(self)@.next_static(value@),
            final(self)@ == old(self)@.interned(value@),
    {
        let name = self.make_static_name();
        self.static_data.insert(name.clone(), value.clone());
        assert(self@.static_table =~= old(self)@.static_table.insert(name@, value@));
        StaticRef { refname: name, reftype: value }
    }

    /// Lowers a literal: interns it, materialises it into a fresh register
    /// and pushes that register.
    fn lower_literal(&mut self, value: StaticData) -> (code: Vec<LinearInstruction>)
        requires
            lower_literal(value@, old(self)@).state.within_limits(),
        ensures
            code_view(code@) == lower_literal(value@, old(self)@).code,
            final(self)@ == lower_literal(value@, old(self)@).state,
    {
        let static_ref = self.intern(value);
        let register = self.make_reg_name();
        let mut code: Vec<LinearInstruction> = Vec::new();
        emit(
            &mut code,
            LinearInstruction::StaticRefToRegister { static_ref, to_reg: register.clone() },
        );
        emit(&mut code, LinearInstruction::PushToStack { register });
        assert(code_view(code@) =~= lower_literal(value@, old(self)@).code);
        code
    }

    /// Lowers a name used as a value: looks it up in the current scope into
    /// a fresh register and pushes that register.
    fn lower_lookup(&mut self, name: &String) -> (code: Vec<LinearInstruction>)
        requires
            lower_lookup(name@, old(self)@).state.within_limits(),
        ensures
            code_view(code@) == lower_lookup(name@, old(self)@).code,
            final(self)@ == lower_lookup(name@, old(self)@).state,
    {
        let register = self.make_reg_name();
        let identifier = self.intern(StaticData::Identifier(name.clone()));
        let mut code: Vec<LinearInstruction> = Vec::new();
        emit(
            &mut code,
            LinearInstruction::Lookup {
                identifier,
                to_reg: register.clone(),
                scope: Scope::Current,
            },
        );
        emit(&mut code, LinearInstruction::PushToStack { register });
        assert(code_view(code@) =~= lower_lookup(name@, old(self)@).code);
        code
    }

    /// Whether the counters can advance by `demand` within the machine's word.
    pub fn has_room_for(&self, demand: &Demand) -> (ok: bool)
        ensures
            ok == (TranslatorState {
                registers: self@.registers + demand@.registers,
                statics: self@.statics + demand@.statics,
                lambdas: self@.lambdas + demand@.lambdas,
                ..self@
            }).within_limits(),
    {
        self.register_counter.checked_add(demand.registers).is_some()
            && self.static_data_counter.checked_add(demand.statics).is_some()
            && self.anon_lambda_counter.checked_add(demand.lambdas).is_some()
    }

    /// Whether `expr` can be lowered in this translator: whether every
    /// callee in it has a shape that can be lowered and the counters have
    /// room for the names that the lowering allocates.
    pub fn can_lower(&self, expr: &Expression) -> (ok: bool)
        ensures
            ok == (supported(expr@) && lower(expr@, self@).state.within_limits()),
    {
        proof {
            lemma_lower_demand(expr@, self@);
        }
        if !expr.is_supported() {
            return false;
        }
        match expr.demand() {
            Some(demand) => self.has_room_for(&demand),
            None => false,
        }
    }

    /// Whether a program can be lowered in this translator.
    pub fn can_lower_program(&self, ast: &Programm) -> (ok: bool)
        ensures
            ok == (all_supported(ast@) && lower_all(
                ast@,
                ast@.len(),
                self@,
            ).state.within_limits()),
    {
        proof {
            lemma_lower_all_demand(ast@, ast@.len(), self@);
        }
        match ast {
            Programm::Expression(inner) => {
                if !all_are_supported(inner) {
                    return false;
                }
                match demand_of_all(inner) {
                    Some(demand) => self.has_room_for(&demand),
                    None => false,
                }
            },
        }
    }

    /// Lowers `expr` where it can be lowered in this translator, and
    /// leaves the translator as it is where it cannot.
    pub fn try_expr_to_instructions(&mut self, expr: &Expression) -> (code: Option<
        Vec<LinearInstruction>,
    >)
        ensures
            code is Some <==> supported(expr@) && lower(expr@, old(self)@).state.within_limits(),
            code is Some ==> code_view(code->0@) == lower(expr@, old(self)@).code && final(self)@
                == lower(expr@, old(self)@).state,
            code is None ==> final(self)@ == old(self)@,
    {
        if self.can_lower(expr) {
            Some(self.expr_to_instructions(expr))
        } else {
            None
        }
    }

    /// Lowers a program where it can be lowered in this translator, and
    /// leaves the translator as it is where it cannot.
    pub fn try_ast_to_intermediate_representation(&mut self, ast: &Programm) -> (main: Option<
        LinearBlock,
    >)
        ensures
            main is Some <==> all_supported(ast@) && lower_all(
                ast@,
                ast@.len(),
                old(self)@,
            ).state.within_limits(),
            main is Some ==> main->0@ == entry_block(ast@, old(self)@) && final(self)@
                == program_state(ast@, old(self)@),
            main is None ==> final(self)@ == old(self)@,
    {
        if self.can_lower_program(ast) {
            Some(self.ast_to_intermediate_representation(ast))
        } else {
            None
        }
    }

    /// Lowers a program: its expressions in order into the entry block,
    /// which is registered under its name and returned.
    pub fn ast_to_intermediate_representation(&mut self, ast: &Programm) -> (main: LinearBlock)
        requires
            all_supported(ast@),
            lower_all(ast@, ast@.len(), old(self)@).state.within_limits(),
        ensures
            main@ == entry_block(ast@, old(self)@),
            final(self)@ == program_state(ast@, old(self)@),
    {
        proof {
            reveal_strlit("main");
        }
        match ast {
            Programm::Expression(inner) => {
                let program = self.lower_sequence(inner);
                let main = LinearBlock { ident: String::from_str("main"), program };
                assert(main.ident@ =~= entry_name());
                self.lambda_map.insert(String::from_str("main"), main.clone());
                assert(self@.blocks =~= program_state(ast@, old(self)@).blocks);
                main
            },
        }
    }

    /// Lowers one expression. The instructions leave its value pushed.
    pub fn expr_to_instructions(&mut self, expr: &Expression) -> (code: Vec<LinearInstruction>)
        requires
            supported(expr@),
            lower(expr@, old(self)@).state.within_limits(),
        ensures
            code_view(code@) == lower(expr@, old(self)@).code,
            final(self)@ == lower(expr@, old(self)@).state,
        decreases expr, 1nat,
    {
        proof {
            lemma_expression_view(expr);
        }
        match expr {
            Expression::Quote(quoted) => {
                let value = atomtype_to_static_data(quoted);
                self.lower_literal(value)
            },
            Expression::Atom(atom) => {
                let value = atomtype_to_static_data(atom);
                self.lower_literal(value)
            },
            Expression::Identifier(name) => self.lower_lookup(name),
            Expression::Lambda(_, _) => self.lower_lambda(expr),
            Expression::Cond(_) => self.lower_cond(expr),
            Expression::Define(name, body) => {
                let mut code = self.expr_to_instructions(body);
                let register = self.make_reg_name();
                let identifier = self.intern(StaticData::String(name.clone()));
                emit(&mut code, LinearInstruction::PopFromStack { register: register.clone() });
                emit(
                    &mut code,
                    LinearInstruction::Assign {
                        identifier,
                        from_reg: register.clone(),
                        scope: Scope::Current,
                    },
                );
                emit(&mut code, LinearInstruction::PushToStack { register });
                assert(code_view(code@) =~= lower(expr@, old(self)@).code);
                code
            },
            Expression::Let(_, _) => self.lower_let(expr),
            Expression::Call(_, _) => self.lower_call(expr),
        }
    }

    /// Lowers a lambda: registers its block under a fresh name, then
    /// initialises a function pointer to it and pushes that.
    fn lower_lambda(&mut self, expr: &Expression) -> (code: Vec<LinearInstruction>)
        requires
            expr is Lambda,
            supported(expr@),
            lower(expr@, old(self)@).state.within_limits(),
        ensures
            code_view(code@) == lower(expr@, old(self)@).code,
            final(self)@ == lower(expr@, old(self)@).state,
        decreases expr, 0nat,
    {
        let (formals, body) = match expr {
            Expression::Lambda(formals, body) => (formals, body),
            _ => unreached(),
        };
        let ghost names = names_view(formals@);
        let ghost exprs = exprs_view(body@);
        let ghost start = self@;
        proof {
            lemma_expression_view(expr);
            assert(decreases_to!(*expr => expr->Lambda_1));
            assert(all_supported(exprs));
            lemma_lower_all_grows(exprs, 0, exprs.len(), lambda_entered(names, start));
        }
        let formals_vec = formals_to_static_data(formals);
        let anon_lambda_name = self.make_anon_lambda_name();
        self.static_data.insert(anon_lambda_name.clone(), formals_vec.clone());
        assert(self@.static_table =~= lambda_entered(names, start).static_table);
        assert(self@ == lambda_entered(names, start));
        let formals_vec_ref = StaticRef { refname: anon_lambda_name.clone(), reftype: formals_vec };
        assert(formals_vec_ref@ == lambda_formals(names, start));

        let mut program: Vec<LinearInstruction> = Vec::new();
        emit(
            &mut program,
            LinearInstruction::AcceptToFormals { static_formals_list: formals_vec_ref.clone() },
        );
        let body_code = self.lower_sequence(body);
        let ghost inner = lower_all(exprs, exprs.len(), lambda_entered(names, start));
        emit_all(&mut program, body_code);
        let return_reg = self.make_reg_name();
        emit(&mut program, LinearInstruction::PopFromStack { register: return_reg.clone() });
        emit(&mut program, LinearInstruction::Return { value: return_reg });
        let block = LinearBlock { ident: anon_lambda_name.clone(), program };
        assert(block@.program =~= lambda_block(
            lambda_formals(names, start),
            inner,
        ).program);
        self.lambda_map.insert(anon_lambda_name.clone(), block);

        let reg = self.make_reg_name();
        assert(self@.blocks =~= lambda_close(lambda_formals(names, start), inner).state.blocks);
        let mut code: Vec<LinearInstruction> = Vec::new();
        emit(
            &mut code,
            LinearInstruction::InitializeFunctionPointer {
                function: FunctionPointer {
                    actual_func: anon_lambda_name,
                    formals_list: formals_vec_ref,
                },
                from_scope: Scope::Current,
                outpu_reg: reg.clone(),
            },
        );
        emit(&mut code, LinearInstruction::PushToStack { register: reg });
        assert(code_view(code@) =~= lambda_close(lambda_formals(names, start), inner).code);
        code
    }

    /// Lowers expressions one after the other into one instruction sequence.
    fn lower_sequence(&mut self, exprs: &Vec<Expression>) -> (code: Vec<LinearInstruction>)
        requires
            all_supported(exprs_view(exprs@)),
            lower_all(exprs_view(exprs@), exprs@.len(), old(self)@).state.within_limits(),
        ensures
            code_view(code@) == lower_all(exprs_view(exprs@), exprs@.len(), old(self)@).code,
            final(self)@ == lower_all(exprs_view(exprs@), exprs@.len(), old(self)@).state,
        decreases exprs, 0nat,
    {
        let ghost models = exprs_view(exprs@);
        let ghost start = self@;
        let mut code: Vec<LinearInstruction> = Vec::new();
        let mut i: usize = 0;
        assert(code_view(code@) =~= lower_all(models, 0, start).code);
        while i < exprs.len()
            invariant
                i <= exprs.len(),
                models == exprs_view(exprs@),
                all_supported(models),
                lower_all(models, exprs@.len(), start).state.within_limits(),
                code_view(code@) == lower_all(models, i as nat, start).code,
                self@ == lower_all(models, i as nat, start).state,
            decreases exprs.len() - i,
        {
            proof {
                lemma_lower_all_grows(models, (i + 1) as nat, exprs@.len(), start);
                assert(models[i as int] == exprs[i as int]@);
            }
            let part = self.expr_to_instructions(&exprs[i]);
            emit_all(&mut code, part);
            i += 1;
        }
        code
    }

    /// Lowers the cases of a conditional in order: each test is popped into
    /// a register that guards a branch with the lowered consequent.
    fn lower_cond(&mut self, expr: &Expression) -> (code: Vec<LinearInstruction>)
        requires
            expr is Cond,
            supported(expr@),
            lower(expr@, old(self)@).state.within_limits(),
        ensures
            code_view(code@) == lower(expr@, old(self)@).code,
            final(self)@ == lower(expr@, old(self)@).state,
        decreases expr, 0nat,
    {
        let cases = match expr {
            Expression::Cond(cases) => cases,
            _ => unreached(),
        };
        proof {
            lemma_expression_view(expr);
        }
        let ghost models = cases_view(cases@);
        let ghost start = self@;
        let mut code: Vec<LinearInstruction> = Vec::new();
        let mut i: usize = 0;
        assert(code_view(code@) =~= lower_cases(models, 0, start).code);
        while i < cases.len()
            invariant
                i <= cases.len(),
                expr is Cond,
                expr->Cond_0 == *cases,
                models == cases_view(cases@),
                supported(Expr::Cond(models)),
                lower_cases(models, cases@.len(), start).state.within_limits(),
                code_view(code@) == lower_cases(models, i as nat, start).code,
                self@ == lower_cases(models, i as nat, start).state,
            decreases cases.len() - i,
        {
            let ghost before = self@;
            let ghost prefix = code_view(code@);
            proof {
                lemma_lower_cases_grows(models, (i + 1) as nat, cases@.len(), start);
                assert(models[i as int].test == cases[i as int].test@);
                assert(models[i as int].consequent == cases[i as int].consequent@);
                lemma_lower_grows(
                    models[i as int].consequent,
                    lower(models[i as int].test, before).state.with_registers(1),
                );
                assert(decreases_to!(*expr => expr->Cond_0));
                assert(decreases_to!(*cases => cases[i as int]));
                assert(decreases_to!(cases[i as int] => cases[i as int].test));
                assert(decreases_to!(cases[i as int] => cases[i as int].consequent));
            }
            let test = self.expr_to_instructions(&cases[i].test);
            emit_all(&mut code, test);
            let reg_to_check = self.make_reg_name();
            emit(&mut code, LinearInstruction::PopFromStack { register: reg_to_check.clone() });
            let branch = self.expr_to_instructions(&cases[i].consequent);
            emit(&mut code, conditional(reg_to_check, branch));
            i += 1;
            assert(code_view(code@) =~= lower_cases(models, i as nat, start).code);
        }
        code
    }

    /// Lowers a `let`: a new scope, the bindings in textual order, the body
    /// expressions into one shared result register, which is pushed before
    /// the scope is closed.
    fn lower_let(&mut self, expr: &Expression) -> (code: Vec<LinearInstruction>)
        requires
            expr is Let,
            supported(expr@),
            lower(expr@, old(self)@).state.within_limits(),
        ensures
            code_view(code@) == lower(expr@, old(self)@).code,
            final(self)@ == lower(expr@, old(self)@).state,
        decreases expr, 0nat,
    {
        let (bindings, body) = match expr {
            Expression::Let(bindings, body) => (bindings, body),
            _ => unreached(),
        };
        proof {
            lemma_expression_view(expr);
        }
        let ghost bound_models = bindings_view(bindings@);
        let ghost body_models = exprs_view(body@);
        let ghost start = self@;
        let ghost bound = lower_bindings(bound_models, bound_models.len(), start);
        let ghost result = register_name(bound.state.registers);
        proof {
            lemma_lower_bodies_grows(
                body_models,
                0,
                body_models.len(),
                result,
                bound.state.with_registers(1),
            );
        }
        let mut code: Vec<LinearInstruction> = Vec::new();
        emit(&mut code, LinearInstruction::NewScopeAttachedToAndReplacingCurrent);

        let mut i: usize = 0;
        assert(code_view(code@) =~= seq![Instr::OpenScope] + lower_bindings(
            bound_models,
            0,
            start,
        ).code);
        while i < bindings.len()
            invariant
                i <= bindings.len(),
                expr is Let,
                expr->Let_0 == *bindings,
                bound_models == bindings_view(bindings@),
                supported(Expr::Let(bound_models, body_models)),
                lower_bindings(bound_models, bindings@.len(), start).state.within_limits(),
                code_view(code@) == seq![Instr::OpenScope] + lower_bindings(
                    bound_models,
                    i as nat,
                    start,
                ).code,
                self@ == lower_bindings(bound_models, i as nat, start).state,
            decreases bindings.len() - i,
        {
            proof {
                lemma_lower_bindings_grows(bound_models, (i + 1) as nat, bindings@.len(), start);
                assert(bound_models[i as int].value == bindings[i as int].value@);
                assert(bound_models[i as int].name == bindings[i as int].name@);
                assert(decreases_to!(*expr => expr->Let_0));
                assert(decreases_to!(*bindings => bindings[i as int]));
                assert(decreases_to!(bindings[i as int] => bindings[i as int].value));
            }
            let init = self.expr_to_instructions(&bindings[i].value);
            emit_all(&mut code, init);
            let data_reg = self.make_reg_name();
            emit(&mut code, LinearInstruction::PopFromStack { register: data_reg.clone() });
            let identifier = self.intern(StaticData::String(bindings[i].name.clone()));
            emit(
                &mut code,
                LinearInstruction::Assign { identifier, from_reg: data_reg, scope: Scope::Current },
            );
            i += 1;
            assert(code_view(code@) =~= seq![Instr::OpenScope] + lower_bindings(
                bound_models,
                i as nat,
                start,
            ).code);
        }

        let body_res_reg = self.make_reg_name();
        assert(all_supported(body_models));
        let ghost entered = self@;
        let ghost head = code_view(code@);
        let mut j: usize = 0;
        assert(code_view(code@) =~= head + lower_bodies(body_models, 0, result, entered).code);
        while j < body.len()
            invariant
                j <= body.len(),
                expr is Let,
                expr->Let_1 == *body,
                body_models == exprs_view(body@),
                all_supported(body_models),
                body_res_reg@ == result,
                lower_bodies(body_models, body@.len(), result, entered).state.within_limits(),
                code_view(code@) == head + lower_bodies(body_models, j as nat, result, entered).code,
                self@ == lower_bodies(body_models, j as nat, result, entered).state,
            decreases body.len() - j,
        {
            proof {
                lemma_lower_bodies_grows(
                    body_models,
                    (j + 1) as nat,
                    body@.len(),
                    result,
                    entered,
                );
                assert(body_models[j as int] == body[j as int]@);
                assert(all_supported(body_models));
                assert(decreases_to!(*expr => expr->Let_1));
            }
            let part = self.expr_to_instructions(&body[j]);
            emit_all(&mut code, part);
            emit(&mut code, LinearInstruction::PopFromStack { register: body_res_reg.clone() });
            j += 1;
            assert(code_view(code@) =~= head + lower_bodies(
                body_models,
                j as nat,
                result,
                entered,
            ).code);
        }
        emit(&mut code, LinearInstruction::PushToStack { register: body_res_reg });
        emit(&mut code, LinearInstruction::PopScopeAndReplaceWithUpper);
        assert(code_view(code@) =~= lower(expr@, start).code);
        code
    }

    /// Lowers a call: the callee, which is a name, a lambda or another call,
    /// then the arguments, then the call itself, whose result is pushed.
    fn lower_call(&mut self, expr: &Expression) -> (code: Vec<LinearInstruction>)
        requires
            expr is Call,
            supported(expr@),
            lower(expr@, old(self)@).state.within_limits(),
        ensures
            code_view(code@) == lower(expr@, old(self)@).code,
            final(self)@ == lower(expr@, old(self)@).state,
        decreases expr, 0nat,
    {
        let (callee, arguments) = match expr {
            Expression::Call(callee, arguments) => (callee, arguments),
            _ => unreached(),
        };
        let ghost models = exprs_view(arguments@);
        let ghost start = self@;
        let ghost target = lower((**callee)@, start);
        proof {
            lemma_expression_view(expr);
            lemma_expression_view(callee);
            assert(decreases_to!(*expr => expr->Call_0));
            assert(decreases_to!(*expr => expr->Call_1));
            assert(all_supported(models));
            lemma_lower_args_grows(models, 0, models.len(), target.state);
        }
        let mut code = match &**callee {
            Expression::Identifier(ident) => self.lower_lookup(ident),
            Expression::Lambda(_, _) => self.lower_lambda(callee),
            Expression::Call(_, _) => self.lower_call(callee),
            _ => unreached(),
        };
        let built =
            self.body_to_instruction_list_with_list_to_pop_from_stack_first_in_stack_is_linked_list(
            arguments,
        );
        emit_all(&mut code, built);

        let args_list = self.make_reg_name();
        emit(&mut code, LinearInstruction::PopFromStack { register: args_list.clone() });
        let function_pointer = self.make_reg_name();
        emit(&mut code, LinearInstruction::LinkedListInit { output_reg: function_pointer.clone() });
        let output_reg = self.make_reg_name();
        emit(
            &mut code,
            LinearInstruction::Call {
                output_reg: output_reg.clone(),
                function_pointer,
                arguments: args_list,
            },
        );
        emit(&mut code, LinearInstruction::PushToStack { register: output_reg });
        assert(code_view(code@) =~= lower(expr@, start).code);
        code
    }

    /// Lowers the arguments of a call in order. Each argument is popped
    /// into a register, put into a fresh list as its only element, and that
    /// list is pushed.
    fn body_to_instruction_list_with_list_to_pop_from_stack_first_in_stack_is_linked_list(
        &mut self,
        body: &Vec<Expression>,
    ) -> (code: Vec<LinearInstruction>)
        requires
            all_supported(exprs_view(body@)),
            lower_args(exprs_view(body@), body@.len(), old(self)@).state.within_limits(),
        ensures
            code_view(code@) == lower_args(exprs_view(body@), body@.len(), old(self)@).code,
            final(self)@ == lower_args(exprs_view(body@), body@.len(), old(self)@).state,
        decreases body, 0nat,
    {
        let ghost models = exprs_view(body@);
        let ghost start = self@;
        let mut code: Vec<LinearInstruction> = Vec::new();
        let mut i: usize = 0;
        assert(code_view(code@) =~= lower_args(models, 0, start).code);
        while i < body.len()
            invariant
                i <= body.len(),
                models == exprs_view(body@),
                all_supported(models),
                lower_args(models, body@.len(), start).state.within_limits(),
                code_view(code@) == lower_args(models, i as nat, start).code,
                self@ == lower_args(models, i as nat, start).state,
            decreases body.len() - i,
        {
            proof {
                lemma_lower_args_grows(models, (i + 1) as nat, body@.len(), start);
                assert(models[i as int] == body[i as int]@);
            }
            let part = self.expr_to_instructions(&body[i]);
            emit_all(&mut code, part);
            let to_add_reg = self.make_reg_name();
            emit(&mut code, LinearInstruction::PopFromStack { register: to_add_reg.clone() });
            let args_list = self.make_reg_name();
            emit(&mut code, LinearInstruction::LinkedListInit { output_reg: args_list.clone() });
            emit(
                &mut code,
                LinearInstruction::LinkedListAdd {
                    linked_list_reg: args_list.clone(),
                    input_reg: to_add_reg,
                },
            );
            emit(&mut code, LinearInstruction::PushToStack { register: args_list });
            i += 1;
            assert(code_view(code@) =~= lower_args(models, i as nat, start).code);
        }
        code
    }
}

} // verus!
