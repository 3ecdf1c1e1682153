//! The instruction vocabulary of the linear intermediate representation.

use crate::static_data::{StaticRef, StaticRefModel};
use vstd::prelude::*;

verus! {

/// A virtual register, identified by its name.
#[derive(Debug, PartialEq, Eq)]
pub struct Register {
    pub virtual_ident: String,
}

impl View for Register {
    type V = Seq<char>;

    open spec fn view(&self) -> Seq<char> {
        self.virtual_ident@
    }
}

impl Clone for Register {
    fn clone(&self) -> (copy: Self)
        ensures
            copy@ == self@,
    {
        Register { virtual_ident: self.virtual_ident.clone() }
    }
}

/// The mathematical value of a scope selector.
pub enum ScopeModel {
    Global,
    Current,
    Custom(Seq<char>),
}

/// Selects the binding frame that an assignment or a lookup targets.
#[derive(Debug, PartialEq, Eq)]
pub enum Scope {
    Global,
    Current,
    Custom(Register),
}

impl View for Scope {
    type V = ScopeModel;

    open spec fn view(&self) -> ScopeModel {
        match self {
            Scope::Global => ScopeModel::Global,
            Scope::Current => ScopeModel::Current,
            Scope::Custom(register) => ScopeModel::Custom(register@),
        }
    }
}

impl Clone for Scope {
    fn clone(&self) -> (copy: Self)
        ensures
            copy@ == self@,
    {
        match self {
            Scope::Global => Scope::Global,
            Scope::Current => Scope::Current,
            Scope::Custom(register) => Scope::Custom(register.clone()),
        }
    }
}

/// The mathematical value of a function pointer.
pub struct FunctionPointerModel {
    pub block: Seq<char>,
    pub formals: StaticRefModel,
}

/// Pairs the name of a block with the static list of its formals.
#[derive(Debug, PartialEq, Eq)]
pub struct FunctionPointer {
    pub actual_func: String,
    pub formals_list: StaticRef,
}

impl View for FunctionPointer {
    type V = FunctionPointerModel;

    open spec fn view(&self) -> FunctionPointerModel {
        FunctionPointerModel { block: self.actual_func@, formals: self.formals_list@ }
    }
}

impl Clone for FunctionPointer {
    fn clone(&self) -> (copy: Self)
        ensures
            copy@ == self@,
    {
        FunctionPointer {
            actual_func: self.actual_func.clone(),
            formals_list: self.formals_list.clone(),
        }
    }
}

/// What a runtime value may point at.
#[derive(Debug, Clone, PartialEq, Eq)]
pub enum Pointer {
    StaticData(StaticRef),
    DynamicPointer,
}

/// The mathematical value of an instruction. Registers appear by name.
pub enum Instr {
    AcceptToFormals { formals: StaticRefModel },
    OpenScope,
    CloseScope,
    StaticRefToRegister { static_ref: StaticRefModel, to_reg: Seq<char> },
    Push { register: Seq<char> },
    Pop { register: Seq<char> },
    ListInit { output_reg: Seq<char> },
    ListAdd { list_reg: Seq<char>, input_reg: Seq<char> },
    Assign { identifier: StaticRefModel, from_reg: Seq<char>, scope: ScopeModel },
    Call { output_reg: Seq<char>, function_pointer: Seq<char>, arguments: Seq<char> },
    Lookup { identifier: StaticRefModel, to_reg: Seq<char>, scope: ScopeModel },
    Cond { condition: Seq<char>, branch: Seq<Instr> },
    Return { value: Seq<char> },
    InitializeFunctionPointer {
        function: FunctionPointerModel,
        from_scope: ScopeModel,
        output_reg: Seq<char>,
    },
}

/// An instruction sequence that a conditional instruction guards.
#[derive(Debug, PartialEq, Eq)]
pub struct Branch {
    pub program: Vec<LinearInstruction>,
}

/// One instruction of the linear intermediate representation.
#[derive(Debug, PartialEq, Eq)]
pub enum LinearInstruction {
    AcceptToFormals { static_formals_list: StaticRef },
    NewScopeAttachedToAndReplacingCurrent,
    PopScopeAndReplaceWithUpper,
    StaticRefToRegister { static_ref: StaticRef, to_reg: Register },
    PushToStack { register: Register },
    PopFromStack { register: Register },
    LinkedListInit { output_reg: Register },
    LinkedListAdd { linked_list_reg: Register, input_reg: Register },
    Assign { identifier: StaticRef, from_reg: Register, scope: Scope },
    Call { output_reg: Register, function_pointer: Register, arguments: Register },
    Lookup { identifier: StaticRef, to_reg: Register, scope: Scope },
    Cond { condition: Register, branc_if_true: Branch },
    Return { value: Register },
    InitializeFunctionPointer { function: FunctionPointer, from_scope: Scope, outpu_reg: Register },
}

impl View for LinearInstruction {
    type V = Instr;

    open spec fn view(&self) -> Instr
        decreases self,
    {
        match self {
            LinearInstruction::AcceptToFormals { static_formals_list } => Instr::AcceptToFormals {
                formals: static_formals_list@,
            },
            LinearInstruction::NewScopeAttachedToAndReplacingCurrent => Instr::OpenScope,
            LinearInstruction::PopScopeAndReplaceWithUpper => Instr::CloseScope,
            LinearInstruction::StaticRefToRegister { static_ref, to_reg } => {
                Instr::StaticRefToRegister { static_ref: static_ref@, to_reg: to_reg@ }
            },
            LinearInstruction::PushToStack { register } => Instr::Push { register: register@ },
            LinearInstruction::PopFromStack { register } => Instr::Pop { register: register@ },
            LinearInstruction::LinkedListInit { output_reg } => Instr::ListInit {
                output_reg: output_reg@,
            },
            LinearInstruction::LinkedListAdd { linked_list_reg, input_reg } => Instr::ListAdd {
                list_reg: linked_list_reg@,
                input_reg: input_reg@,
            },
            LinearInstruction::Assign { identifier, from_reg, scope } => Instr::Assign {
                identifier: identifier@,
                from_reg: from_reg@,
                scope: scope@,
            },
            LinearInstruction::Call { output_reg, function_pointer, arguments } => Instr::Call {
                output_reg: output_reg@,
                function_pointer: function_pointer@,
                arguments: arguments@,
            },
            LinearInstruction::Lookup { identifier, to_reg, scope } => Instr::Lookup {
                identifier: identifier@,
                to_reg: to_reg@,
                scope: scope@,
            },
            LinearInstruction::Cond { condition, branc_if_true } => Instr::Cond {
                condition: condition@,
                branch: Seq::new(
                    branc_if_true.program.len() as nat,
                    |i: int|
                        if 0 <= i < branc_if_true.program.len() {
                            branc_if_true.program[i]@
                        } else {
                            Instr::OpenScope
                        },
                ),
            },
            LinearInstruction::Return { value } => Instr::Return { value: value@ },
            LinearInstruction::InitializeFunctionPointer { function, from_scope, outpu_reg } => {
                Instr::InitializeFunctionPointer {
                    function: function@,
                    from_scope: from_scope@,
                    output_reg: outpu_reg@,
                }
            },
        }
    }
}

/// The mathematical value of an instruction sequence.
pub open spec fn code_view(program: Seq<LinearInstruction>) -> Seq<Instr> {
    Seq::new(program.len(), |i: int| program[i]@)
}

impl View for Branch {
    type V = Seq<Instr>;

    open spec fn view(&self) -> Seq<Instr> {
        code_view(self.program@)
    }
}

impl Clone for LinearInstruction {
    fn clone(&self) -> (copy: Self)
        ensures
            copy@ == self@,
        decreases self,
    {
        match self {
            LinearInstruction::AcceptToFormals { static_formals_list } => {
                LinearInstruction::AcceptToFormals {
                    static_formals_list: static_formals_list.clone(),
                }
            },
            LinearInstruction::NewScopeAttachedToAndReplacingCurrent => {
                LinearInstruction::NewScopeAttachedToAndReplacingCurrent
            },
            LinearInstruction::PopScopeAndReplaceWithUpper => {
                LinearInstruction::PopScopeAndReplaceWithUpper
            },
            LinearInstruction::StaticRefToRegister { static_ref, to_reg } => {
                LinearInstruction::StaticRefToRegister {
                    static_ref: static_ref.clone(),
                    to_reg: to_reg.clone(),
                }
            },
            LinearInstruction::PushToStack { register } => LinearInstruction::PushToStack {
                register: register.clone(),
            },
            LinearInstruction::PopFromStack { register } => LinearInstruction::PopFromStack {
                register: register.clone(),
            },
            LinearInstruction::LinkedListInit { output_reg } => LinearInstruction::LinkedListInit {
                output_reg: output_reg.clone(),
            },
            LinearInstruction::LinkedListAdd { linked_list_reg, input_reg } => {
                LinearInstruction::LinkedListAdd {
                    linked_list_reg: linked_list_reg.clone(),
                    input_reg: input_reg.clone(),
                }
            },
            LinearInstruction::Assign { identifier, from_reg, scope } => LinearInstruction::Assign {
                identifier: identifier.clone(),
                from_reg: from_reg.clone(),
                scope: scope.clone(),
            },
            LinearInstruction::Call { output_reg, function_pointer, arguments } => {
                LinearInstruction::Call {
                    output_reg: output_reg.clone(),
                    function_pointer: function_pointer.clone(),
                    arguments: arguments.clone(),
                }
            },
            LinearInstruction::Lookup { identifier, to_reg, scope } => LinearInstruction::Lookup {
                identifier: identifier.clone(),
                to_reg: to_reg.clone(),
                scope: scope.clone(),
            },
            LinearInstruction::Cond { condition, branc_if_true } => {
                let mut copies: Vec<LinearInstruction> = Vec::new();
                let mut i: usize = 0;
                while i < branc_if_true.program.len()
                    invariant
                        *self == (LinearInstruction::Cond {
                            condition: *condition,
                            branc_if_true: *branc_if_true,
                        }),
                        i <= branc_if_true.program.len(),
                        copies.len() == i,
                        forall|j: int| 0 <= j < i ==> copies[j]@ == branc_if_true.program[j]@,
                    decreases branc_if_true.program.len() - i,
                {
                    assert(decreases_to!(*self => self->Cond_branc_if_true));
                    assert(decreases_to!(*branc_if_true => branc_if_true.program));
                    copies.push(branc_if_true.program[i].clone());
                    i += 1;
                }
                let copy = LinearInstruction::Cond {
                    condition: condition.clone(),
                    branc_if_true: Branch { program: copies },
                };
                assert(copy@->Cond_branch =~= self@->Cond_branch);
                copy
            },
            LinearInstruction::Return { value } => LinearInstruction::Return {
                value: value.clone(),
            },
            LinearInstruction::InitializeFunctionPointer { function, from_scope, outpu_reg } => {
                LinearInstruction::InitializeFunctionPointer {
                    function: function.clone(),
                    from_scope: from_scope.clone(),
                    outpu_reg: outpu_reg.clone(),
                }
            },
        }
    }
}

/// Copies an instruction sequence.
pub fn clone_program(program: &Vec<LinearInstruction>) -> (copy: Vec<LinearInstruction>)
    ensures
        code_view(copy@) == code_view(program@),
{
    let mut copy: Vec<LinearInstruction> = Vec::new();
    let mut i: usize = 0;
    while i < program.len()
        invariant
            i <= program.len(),
            copy.len() == i,
            forall|j: int| 0 <= j < i ==> copy[j]@ == program[j]@,
        decreases program.len() - i,
    {
        copy.push(program[i].clone());
        i += 1;
    }
    assert(code_view(copy@) =~= code_view(program@));
    copy
}

impl Clone for Branch {
    fn clone(&self) -> (copy: Self)
        ensures
            copy@ == self@,
    {
        Branch { program: clone_program(&self.program) }
    }
}

/// The mathematical value of a block: its name and its instructions.
pub struct BlockModel {
    pub ident: Seq<char>,
    pub program: Seq<Instr>,
}

/// A named, flat instruction sequence: one callable unit.
#[derive(Debug, PartialEq, Eq)]
pub struct LinearBlock {
    pub ident: String,
    pub program: Vec<LinearInstruction>,
}

impl View for LinearBlock {
    type V = BlockModel;

    open spec fn view(&self) -> BlockModel {
        BlockModel { ident: self.ident@, program: code_view(self.program@) }
    }
}

impl Clone for LinearBlock {
    fn clone(&self) -> (copy: Self)
        ensures
            copy@ == self@,
    {
        LinearBlock { ident: self.ident.clone(), program: clone_program(&self.program) }
    }
}

/// The conditional instruction that runs `program` where `condition` holds.
pub fn conditional(condition: Register, program: Vec<LinearInstruction>) -> (instruction:
    LinearInstruction)
    ensures
        instruction@ == (Instr::Cond { condition: condition@, branch: code_view(program@) }),
{
    let instruction = LinearInstruction::Cond {
        condition,
        branc_if_true: Branch { program },
    };
    assert(instruction@->Cond_branch =~= code_view(program@));
    instruction
}

/// Appends one instruction to a buffer.
pub fn emit(buffer: &mut Vec<LinearInstruction>, instruction: LinearInstruction)
    ensures
        code_view(final(buffer)@) == code_view(old(buffer)@).push(instruction@),
{
    buffer.push(instruction);
    assert(code_view(buffer@) =~= code_view(old(buffer)@).push(instruction@));
}

/// Appends a whole instruction sequence to a buffer.
pub fn emit_all(buffer: &mut Vec<LinearInstruction>, instructions: Vec<LinearInstruction>)
    ensures
        code_view(final(buffer)@) == code_view(old(buffer)@) + code_view(instructions@),
{
    let mut rest = instructions;
    buffer.append(&mut rest);
    assert(code_view(buffer@) =~= code_view(old(buffer)@) + code_view(instructions@));
}

} // verus!
