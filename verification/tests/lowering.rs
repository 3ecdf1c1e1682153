use little_ir::ast::{AtomTypes, Binding, CondCase, Expression, Programm};
use little_ir::demand::Demand;
use little_ir::ir::{
    Branch, FunctionPointer, LinearBlock, LinearInstruction, Register, Scope,
};
use little_ir::static_data::{StaticData, StaticRef};
use little_ir::translator::{atomtype_to_static_data, formals_to_static_data, Translator};

fn reg(name: &str) -> Register {
    Register { virtual_ident: name.into() }
}

fn sref(name: &str, value: StaticData) -> StaticRef {
    StaticRef { refname: name.into(), reftype: value }
}

fn push(name: &str) -> LinearInstruction {
    LinearInstruction::PushToStack { register: reg(name) }
}

fn pop(name: &str) -> LinearInstruction {
    LinearInstruction::PopFromStack { register: reg(name) }
}

fn materialize(static_name: &str, value: StaticData, register: &str) -> LinearInstruction {
    LinearInstruction::StaticRefToRegister {
        static_ref: sref(static_name, value),
        to_reg: reg(register),
    }
}

fn lookup(static_name: &str, ident: &str, register: &str) -> LinearInstruction {
    LinearInstruction::Lookup {
        identifier: sref(static_name, StaticData::Identifier(ident.into())),
        to_reg: reg(register),
        scope: Scope::Current,
    }
}

fn assign(static_name: &str, ident: &str, register: &str) -> LinearInstruction {
    LinearInstruction::Assign {
        identifier: sref(static_name, StaticData::String(ident.into())),
        from_reg: reg(register),
        scope: Scope::Current,
    }
}

fn integer(value: i32) -> Expression {
    Expression::Atom(AtomTypes::Integer(value))
}

fn ident(name: &str) -> Expression {
    Expression::Identifier(name.into())
}

/// Pushes minus pops over the instructions of the stream itself.
fn net_pushes(code: &[LinearInstruction]) -> i64 {
    let mut depth = 0;
    for instruction in code {
        match instruction {
            LinearInstruction::PushToStack { .. } => depth += 1,
            LinearInstruction::PopFromStack { .. } => depth -= 1,
            _ => {}
        }
    }
    depth
}

/// Whether every scope that is opened is closed again, in every branch too.
fn scopes_pair(code: &[LinearInstruction]) -> bool {
    let mut depth = 0;
    for instruction in code {
        match instruction {
            LinearInstruction::NewScopeAttachedToAndReplacingCurrent => depth += 1,
            LinearInstruction::PopScopeAndReplaceWithUpper => {
                if depth == 0 {
                    return false;
                }
                depth -= 1;
            }
            LinearInstruction::Cond { branc_if_true, .. } => {
                if !scopes_pair(&branc_if_true.program) {
                    return false;
                }
            }
            _ => {}
        }
    }
    depth == 0
}

/// The registers that the instructions write a value into, in order.
fn written_registers(code: &[LinearInstruction], into: &mut Vec<String>) {
    for instruction in code {
        match instruction {
            LinearInstruction::StaticRefToRegister { to_reg, .. } => {
                into.push(to_reg.virtual_ident.clone())
            }
            LinearInstruction::Lookup { to_reg, .. } => into.push(to_reg.virtual_ident.clone()),
            LinearInstruction::LinkedListInit { output_reg } => {
                into.push(output_reg.virtual_ident.clone())
            }
            LinearInstruction::Call { output_reg, .. } => {
                into.push(output_reg.virtual_ident.clone())
            }
            LinearInstruction::InitializeFunctionPointer { outpu_reg, .. } => {
                into.push(outpu_reg.virtual_ident.clone())
            }
            LinearInstruction::Cond { branc_if_true, .. } => {
                written_registers(&branc_if_true.program, into)
            }
            _ => {}
        }
    }
}

#[test]
fn it_works_init_1() {
    let ast = Programm::Expression(vec![Expression::Quote(AtomTypes::Integer(5))]);

    let mut translator = Translator::default();

    let incomplete_res = translator.ast_to_intermediate_representation(&ast);

    assert_eq!(
        incomplete_res,
        LinearBlock {
            ident: "main".into(),
            program: [
                LinearInstruction::StaticRefToRegister {
                    static_ref: StaticRef {
                        refname: "static0".into(),
                        reftype: StaticData::Integer(5,),
                    },
                    to_reg: Register {
                        virtual_ident: "r0".into(),
                    },
                },
                LinearInstruction::PushToStack {
                    register: Register {
                        virtual_ident: "r0".into(),
                    },
                },
            ]
            .into(),
        }
    );
}

#[test]
fn new_translator_is_empty() {
    let translator = Translator::default();
    assert_eq!(translator.register_count(), 0);
    assert_eq!(translator.static_count(), 0);
    assert_eq!(translator.lambda_count(), 0);
    assert_eq!(translator.block("main"), None);
    assert_eq!(translator.static_entry("static0"), None);
}

#[test]
fn program_registers_entry_block_and_statics() {
    let ast = Programm::Expression(vec![Expression::Quote(AtomTypes::Integer(5))]);
    let mut translator = Translator::default();
    let main = translator.ast_to_intermediate_representation(&ast);
    assert_eq!(translator.block("main"), Some(&main));
    assert_eq!(translator.static_entry("static0"), Some(&StaticData::Integer(5)));
    assert_eq!(translator.static_entry("static1"), None);
    assert_eq!(translator.register_count(), 1);
    assert_eq!(translator.static_count(), 1);
    assert_eq!(translator.lambda_count(), 0);
}

#[test]
fn empty_program_gives_empty_entry_block() {
    let mut translator = Translator::default();
    let main = translator.ast_to_intermediate_representation(&Programm::Expression(vec![]));
    assert_eq!(main, LinearBlock { ident: "main".into(), program: vec![] });
    assert_eq!(translator.block("main"), Some(&main));
    assert_eq!(translator.register_count(), 0);
}

#[test]
fn program_concatenates_top_level_expressions() {
    let ast = Programm::Expression(vec![
        Expression::Quote(AtomTypes::Integer(1)),
        Expression::Quote(AtomTypes::Boolean(true)),
    ]);
    let mut translator = Translator::default();
    let main = translator.ast_to_intermediate_representation(&ast);
    assert_eq!(
        main.program,
        vec![
            materialize("static0", StaticData::Integer(1), "r0"),
            push("r0"),
            materialize("static1", StaticData::Bool(true), "r1"),
            push("r1"),
        ]
    );
}

#[test]
fn quote_converts_literals_recursively() {
    let literal = AtomTypes::List(vec![
        AtomTypes::Integer(-3),
        AtomTypes::Symbol("sym".into()),
        AtomTypes::String("text".into()),
        AtomTypes::Boolean(false),
        AtomTypes::List(vec![AtomTypes::Symbol("inner".into())]),
    ]);
    let expected = StaticData::List(vec![
        StaticData::Integer(-3),
        StaticData::Identifier("sym".into()),
        StaticData::String("text".into()),
        StaticData::Bool(false),
        StaticData::List(vec![StaticData::Identifier("inner".into())]),
    ]);
    assert_eq!(atomtype_to_static_data(&literal), expected);

    let mut translator = Translator::default();
    let code = translator.expr_to_instructions(&Expression::Quote(literal));
    assert_eq!(code, vec![materialize("static0", expected.clone(), "r0"), push("r0")]);
    assert_eq!(translator.static_entry("static0"), Some(&expected));
}

#[test]
fn atom_lowers_like_quote() {
    let mut first = Translator::default();
    let mut second = Translator::default();
    let quoted = first.expr_to_instructions(&Expression::Quote(AtomTypes::String("s".into())));
    let bare = second.expr_to_instructions(&Expression::Atom(AtomTypes::String("s".into())));
    assert_eq!(quoted, bare);
    assert_eq!(
        bare,
        vec![materialize("static0", StaticData::String("s".into()), "r0"), push("r0")]
    );
}

#[test]
fn bare_identifier_is_a_lookup() {
    let mut translator = Translator::default();
    let code = translator.expr_to_instructions(&ident("x"));
    assert_eq!(code, vec![lookup("static0", "x", "r0"), push("r0")]);
    assert_eq!(
        translator.static_entry("static0"),
        Some(&StaticData::Identifier("x".into()))
    );
}

#[test]
fn let_sequential_visibility() {
    let expr = Expression::Let(
        vec![
            Binding { name: "x".into(), value: integer(1) },
            Binding { name: "y".into(), value: ident("x") },
        ],
        vec![ident("y")],
    );
    let mut translator = Translator::default();
    let code = translator.expr_to_instructions(&expr);
    assert_eq!(
        code,
        vec![
            LinearInstruction::NewScopeAttachedToAndReplacingCurrent,
            materialize("static0", StaticData::Integer(1), "r0"),
            push("r0"),
            pop("r1"),
            assign("static1", "x", "r1"),
            lookup("static2", "x", "r2"),
            push("r2"),
            pop("r3"),
            assign("static3", "y", "r3"),
            lookup("static4", "y", "r5"),
            push("r5"),
            pop("r4"),
            push("r4"),
            LinearInstruction::PopScopeAndReplaceWithUpper,
        ]
    );
    // The assignment of `x` stands before the lookup in `y`'s initializer.
    let assigned = code.iter().position(|i| *i == assign("static1", "x", "r1")).unwrap();
    let looked_up = code.iter().position(|i| *i == lookup("static2", "x", "r2")).unwrap();
    assert!(assigned < looked_up);
    assert_eq!(net_pushes(&code), 1);
    assert!(scopes_pair(&code));
}

#[test]
fn let_without_body_pushes_the_result_register() {
    let mut translator = Translator::default();
    let code = translator.expr_to_instructions(&Expression::Let(vec![], vec![]));
    assert_eq!(
        code,
        vec![
            LinearInstruction::NewScopeAttachedToAndReplacingCurrent,
            push("r0"),
            LinearInstruction::PopScopeAndReplaceWithUpper,
        ]
    );
}

#[test]
fn let_keeps_only_the_last_body_value() {
    let expr = Expression::Let(vec![], vec![integer(1), integer(2)]);
    let mut translator = Translator::default();
    let code = translator.expr_to_instructions(&expr);
    assert_eq!(
        code,
        vec![
            LinearInstruction::NewScopeAttachedToAndReplacingCurrent,
            materialize("static0", StaticData::Integer(1), "r1"),
            push("r1"),
            pop("r0"),
            materialize("static1", StaticData::Integer(2), "r2"),
            push("r2"),
            pop("r0"),
            push("r0"),
            LinearInstruction::PopScopeAndReplaceWithUpper,
        ]
    );
    assert_eq!(net_pushes(&code), 1);
}

#[test]
fn define_yields_a_value() {
    let expr = Expression::Define("x".into(), Box::new(integer(5)));
    let mut translator = Translator::default();
    let code = translator.expr_to_instructions(&expr);
    assert_eq!(
        code,
        vec![
            materialize("static0", StaticData::Integer(5), "r0"),
            push("r0"),
            pop("r1"),
            assign("static1", "x", "r1"),
            push("r1"),
        ]
    );
    assert_eq!(net_pushes(&code), 1);
    assert_eq!(code.last(), Some(&push("r1")));
    assert_eq!(translator.static_entry("static1"), Some(&StaticData::String("x".into())));
}

#[test]
fn repeated_define_interns_the_name_anew() {
    let expr = Expression::Define("x".into(), Box::new(integer(5)));
    let mut translator = Translator::default();
    translator.expr_to_instructions(&expr);
    let second = translator.expr_to_instructions(&expr);
    assert_eq!(second[3], assign("static3", "x", "r3"));
    assert_eq!(translator.static_entry("static1"), Some(&StaticData::String("x".into())));
    assert_eq!(translator.static_entry("static3"), Some(&StaticData::String("x".into())));
}

#[test]
fn lambda_registers_block_and_pushes_function_pointer() {
    let expr = Expression::Lambda(vec!["a".into(), "b".into(), "a".into()], vec![ident("a")]);
    let formals = StaticData::List(vec![
        StaticData::Identifier("a".into()),
        StaticData::Identifier("b".into()),
        StaticData::Identifier("a".into()),
    ]);
    assert_eq!(
        formals_to_static_data(&vec!["a".into(), "b".into(), "a".into()]),
        formals
    );
    let mut translator = Translator::default();
    let code = translator.expr_to_instructions(&expr);
    assert_eq!(
        code,
        vec![
            LinearInstruction::InitializeFunctionPointer {
                function: FunctionPointer {
                    actual_func: "_0".into(),
                    formals_list: sref("_0", formals.clone()),
                },
                from_scope: Scope::Current,
                outpu_reg: reg("r2"),
            },
            push("r2"),
        ]
    );
    assert_eq!(
        translator.block("_0"),
        Some(&LinearBlock {
            ident: "_0".into(),
            program: vec![
                LinearInstruction::AcceptToFormals {
                    static_formals_list: sref("_0", formals.clone()),
                },
                lookup("static0", "a", "r0"),
                push("r0"),
                pop("r1"),
                LinearInstruction::Return { value: reg("r1") },
            ],
        })
    );
    assert_eq!(translator.static_entry("_0"), Some(&formals));
    assert_eq!(translator.lambda_count(), 1);
    assert_eq!(net_pushes(&code), 1);
}

#[test]
fn lambda_without_formals_or_body() {
    let mut translator = Translator::default();
    let code = translator.expr_to_instructions(&Expression::Lambda(vec![], vec![]));
    assert_eq!(code.len(), 2);
    assert_eq!(
        translator.block("_0").unwrap().program,
        vec![
            LinearInstruction::AcceptToFormals {
                static_formals_list: sref("_0", StaticData::List(vec![])),
            },
            pop("r0"),
            LinearInstruction::Return { value: reg("r0") },
        ]
    );
}

#[test]
fn closure_non_aliasing() {
    let make = || Expression::Lambda(vec!["a".into()], vec![ident("a")]);
    let mut translator = Translator::default();
    let first = translator.expr_to_instructions(&make());
    let second = translator.expr_to_instructions(&make());
    let name_of = |code: &Vec<LinearInstruction>| match &code[0] {
        LinearInstruction::InitializeFunctionPointer { function, .. } => {
            function.actual_func.clone()
        }
        other => panic!("no function pointer: {:?}", other),
    };
    assert_eq!(name_of(&first), "_0");
    assert_eq!(name_of(&second), "_1");
    assert_ne!(name_of(&first), name_of(&second));
    let first_block = translator.block("_0").unwrap();
    let second_block = translator.block("_1").unwrap();
    assert_eq!(first_block.ident, "_0");
    assert_eq!(second_block.ident, "_1");
    assert_ne!(first_block, second_block);
    assert_eq!(translator.lambda_count(), 2);
}

#[test]
fn cond_guards_each_consequent() {
    let expr = Expression::Cond(vec![
        CondCase { test: ident("p"), consequent: integer(1) },
        CondCase { test: ident("q"), consequent: integer(2) },
    ]);
    let mut translator = Translator::default();
    let code = translator.expr_to_instructions(&expr);
    assert_eq!(
        code,
        vec![
            lookup("static0", "p", "r0"),
            push("r0"),
            pop("r1"),
            LinearInstruction::Cond {
                condition: reg("r1"),
                branc_if_true: Branch {
                    program: vec![
                        materialize("static1", StaticData::Integer(1), "r2"),
                        push("r2"),
                    ],
                },
            },
            lookup("static2", "q", "r3"),
            push("r3"),
            pop("r4"),
            LinearInstruction::Cond {
                condition: reg("r4"),
                branc_if_true: Branch {
                    program: vec![
                        materialize("static3", StaticData::Integer(2), "r5"),
                        push("r5"),
                    ],
                },
            },
        ]
    );
    // The guards take what the tests push; a branch pushes one value where it runs.
    assert_eq!(net_pushes(&code), 0);
    match &code[3] {
        LinearInstruction::Cond { branc_if_true, .. } => {
            assert_eq!(net_pushes(&branc_if_true.program), 1)
        }
        other => panic!("no conditional: {:?}", other),
    }
}

#[test]
fn cond_without_cases_emits_nothing() {
    let mut translator = Translator::default();
    let code = translator.expr_to_instructions(&Expression::Cond(vec![]));
    assert_eq!(code, vec![]);
    assert_eq!(translator.register_count(), 0);
}

#[test]
fn call_of_identifier_builds_one_list_per_argument() {
    let expr = Expression::Call(Box::new(ident("f")), vec![integer(1), integer(2)]);
    let mut translator = Translator::default();
    let code = translator.expr_to_instructions(&expr);
    assert_eq!(
        code,
        vec![
            lookup("static0", "f", "r0"),
            push("r0"),
            materialize("static1", StaticData::Integer(1), "r1"),
            push("r1"),
            pop("r2"),
            LinearInstruction::LinkedListInit { output_reg: reg("r3") },
            LinearInstruction::LinkedListAdd { linked_list_reg: reg("r3"), input_reg: reg("r2") },
            push("r3"),
            materialize("static2", StaticData::Integer(2), "r4"),
            push("r4"),
            pop("r5"),
            LinearInstruction::LinkedListInit { output_reg: reg("r6") },
            LinearInstruction::LinkedListAdd { linked_list_reg: reg("r6"), input_reg: reg("r5") },
            push("r6"),
            pop("r7"),
            LinearInstruction::LinkedListInit { output_reg: reg("r8") },
            LinearInstruction::Call {
                output_reg: reg("r9"),
                function_pointer: reg("r8"),
                arguments: reg("r7"),
            },
            push("r9"),
        ]
    );
    // One fresh list per argument, each with one element: not one shared list.
    let lists = code
        .iter()
        .filter(|i| matches!(i, LinearInstruction::LinkedListAdd { .. }))
        .count();
    assert_eq!(lists, 2);
    assert_eq!(net_pushes(&code), 3);
}

#[test]
fn call_without_arguments_is_balanced() {
    let expr = Expression::Call(Box::new(ident("f")), vec![]);
    let mut translator = Translator::default();
    let code = translator.expr_to_instructions(&expr);
    assert_eq!(
        code,
        vec![
            lookup("static0", "f", "r0"),
            push("r0"),
            pop("r1"),
            LinearInstruction::LinkedListInit { output_reg: reg("r2") },
            LinearInstruction::Call {
                output_reg: reg("r3"),
                function_pointer: reg("r2"),
                arguments: reg("r1"),
            },
            push("r3"),
        ]
    );
    assert_eq!(net_pushes(&code), 1);
}

#[test]
fn call_of_inline_lambda() {
    let expr = Expression::Call(
        Box::new(Expression::Lambda(vec!["a".into()], vec![ident("a")])),
        vec![],
    );
    let mut translator = Translator::default();
    let code = translator.expr_to_instructions(&expr);
    assert!(matches!(code[0], LinearInstruction::InitializeFunctionPointer { .. }));
    assert_eq!(code[1], push("r2"));
    assert_eq!(code[2], pop("r3"));
    assert_eq!(code.last(), Some(&push("r5")));
    assert!(translator.block("_0").is_some());
}

#[test]
fn callable_producing_call() {
    let inner = Expression::Call(Box::new(ident("f")), vec![integer(1)]);
    let expr = Expression::Call(Box::new(inner), vec![integer(2)]);
    assert!(expr.is_supported());
    let mut translator = Translator::default();
    let code = translator.expr_to_instructions(&expr);
    assert_eq!(
        code,
        vec![
            lookup("static0", "f", "r0"),
            push("r0"),
            materialize("static1", StaticData::Integer(1), "r1"),
            push("r1"),
            pop("r2"),
            LinearInstruction::LinkedListInit { output_reg: reg("r3") },
            LinearInstruction::LinkedListAdd { linked_list_reg: reg("r3"), input_reg: reg("r2") },
            push("r3"),
            pop("r4"),
            LinearInstruction::LinkedListInit { output_reg: reg("r5") },
            LinearInstruction::Call {
                output_reg: reg("r6"),
                function_pointer: reg("r5"),
                arguments: reg("r4"),
            },
            push("r6"),
            materialize("static2", StaticData::Integer(2), "r7"),
            push("r7"),
            pop("r8"),
            LinearInstruction::LinkedListInit { output_reg: reg("r9") },
            LinearInstruction::LinkedListAdd { linked_list_reg: reg("r9"), input_reg: reg("r8") },
            push("r9"),
            pop("r10"),
            LinearInstruction::LinkedListInit { output_reg: reg("r11") },
            LinearInstruction::Call {
                output_reg: reg("r12"),
                function_pointer: reg("r11"),
                arguments: reg("r10"),
            },
            push("r12"),
        ]
    );
}

#[test]
fn unsupported_callee_shapes_are_recognised() {
    let quoted = Expression::Call(Box::new(Expression::Quote(AtomTypes::Integer(1))), vec![]);
    assert!(!quoted.is_supported());
    let atom = Expression::Call(Box::new(integer(1)), vec![]);
    assert!(!atom.is_supported());
    let nested = Expression::Define(
        "x".into(),
        Box::new(Expression::Let(
            vec![Binding { name: "y".into(), value: integer(1) }],
            vec![Expression::Cond(vec![CondCase {
                test: ident("y"),
                consequent: Expression::Call(
                    Box::new(Expression::Define("z".into(), Box::new(integer(1)))),
                    vec![],
                ),
            }])],
        )),
    );
    assert!(!nested.is_supported());
    let in_argument = Expression::Call(
        Box::new(ident("f")),
        vec![Expression::Lambda(vec![], vec![Expression::Call(Box::new(integer(1)), vec![])])],
    );
    assert!(!in_argument.is_supported());
    let fine = Expression::Call(
        Box::new(Expression::Lambda(vec![], vec![])),
        vec![Expression::Call(Box::new(ident("g")), vec![])],
    );
    assert!(fine.is_supported());
}

#[test]
fn register_names_count_in_decimal() {
    let mut translator = Translator::default();
    let mut names = Vec::new();
    for _ in 0..102 {
        names.push(translator.make_reg_name().virtual_ident);
    }
    assert_eq!(names[0], "r0");
    assert_eq!(names[9], "r9");
    assert_eq!(names[10], "r10");
    assert_eq!(names[99], "r99");
    assert_eq!(names[100], "r100");
    assert_eq!(names[101], "r101");
    assert_eq!(translator.register_count(), 102);
    let mut sorted = names.clone();
    sorted.sort();
    sorted.dedup();
    assert_eq!(sorted.len(), names.len());
}

#[test]
fn name_counters_are_disjoint() {
    let mut translator = Translator::default();
    assert_eq!(translator.make_static_name(), "static0");
    assert_eq!(translator.make_anon_lambda_name(), "_0");
    assert_eq!(translator.make_static_name(), "static1");
    assert_eq!(translator.make_reg_name(), reg("r0"));
    assert_eq!(translator.make_anon_lambda_name(), "_1");
    assert_eq!(translator.static_count(), 2);
    assert_eq!(translator.lambda_count(), 2);
    assert_eq!(translator.register_count(), 1);
}

#[test]
fn interning_does_not_deduplicate() {
    let mut translator = Translator::default();
    let first = translator.intern(StaticData::Integer(7));
    let second = translator.intern(StaticData::Integer(7));
    assert_eq!(first, sref("static0", StaticData::Integer(7)));
    assert_eq!(second, sref("static1", StaticData::Integer(7)));
    assert_ne!(first.refname, second.refname);
    assert_eq!(translator.static_entry("static0"), Some(&StaticData::Integer(7)));
    assert_eq!(translator.static_entry("static1"), Some(&StaticData::Integer(7)));
}

#[test]
fn written_registers_are_unique_across_a_program() {
    let ast = Programm::Expression(vec![
        Expression::Define("f".into(), Box::new(Expression::Lambda(vec!["a".into()], vec![ident("a")]))),
        Expression::Let(
            vec![Binding { name: "x".into(), value: integer(1) }],
            vec![Expression::Cond(vec![CondCase {
                test: ident("x"),
                consequent: Expression::Call(Box::new(ident("f")), vec![ident("x"), integer(2)]),
            }])],
        ),
    ]);
    let mut translator = Translator::default();
    let main = translator.ast_to_intermediate_representation(&ast);
    let mut written = Vec::new();
    written_registers(&main.program, &mut written);
    written_registers(&translator.block("_0").unwrap().program, &mut written);
    let mut distinct = written.clone();
    distinct.sort();
    distinct.dedup();
    assert_eq!(distinct.len(), written.len());
    assert!(scopes_pair(&main.program));
    assert!(scopes_pair(&translator.block("_0").unwrap().program));
}

#[test]
fn stack_balance_of_balanced_kinds() {
    let exprs = vec![
        Expression::Quote(AtomTypes::Symbol("s".into())),
        integer(3),
        ident("x"),
        Expression::Lambda(vec![], vec![integer(1), integer(2)]),
        Expression::Define("d".into(), Box::new(ident("x"))),
        Expression::Let(
            vec![Binding { name: "x".into(), value: integer(1) }],
            vec![ident("x"), ident("x")],
        ),
        Expression::Call(Box::new(ident("f")), vec![]),
    ];
    let mut translator = Translator::default();
    for expr in &exprs {
        let code = translator.expr_to_instructions(expr);
        assert_eq!(net_pushes(&code), 1, "{:?}", expr);
        assert!(scopes_pair(&code));
    }
}

#[test]
fn copies_are_equal_to_what_was_copied() {
    let expr = Expression::Cond(vec![CondCase {
        test: ident("p"),
        consequent: Expression::Lambda(vec!["a".into()], vec![]),
    }]);
    let mut translator = Translator::default();
    let code = translator.expr_to_instructions(&expr);
    let copy: Vec<LinearInstruction> = code.iter().map(|i| i.clone()).collect();
    assert_eq!(copy, code);
    let block = translator.block("_0").unwrap();
    assert_eq!(&block.clone(), block);
    let data = StaticData::List(vec![StaticData::String("a".into()), StaticData::List(vec![])]);
    assert_eq!(data.clone(), data);
}

#[test]
fn demand_counts_what_lowering_allocates() {
    let exprs = vec![
        (Expression::Quote(AtomTypes::Integer(1)), Demand { registers: 1, statics: 1, lambdas: 0 }),
        (integer(1), Demand { registers: 1, statics: 1, lambdas: 0 }),
        (ident("x"), Demand { registers: 1, statics: 1, lambdas: 0 }),
        (
            Expression::Lambda(vec!["a".into()], vec![ident("a"), integer(2)]),
            Demand { registers: 4, statics: 2, lambdas: 1 },
        ),
        (
            Expression::Define("d".into(), Box::new(integer(1))),
            Demand { registers: 2, statics: 2, lambdas: 0 },
        ),
        (
            Expression::Let(
                vec![Binding { name: "x".into(), value: integer(1) }],
                vec![ident("x"), ident("x")],
            ),
            Demand { registers: 5, statics: 4, lambdas: 0 },
        ),
        (
            Expression::Cond(vec![CondCase { test: ident("p"), consequent: integer(1) }]),
            Demand { registers: 3, statics: 2, lambdas: 0 },
        ),
        (
            Expression::Call(Box::new(ident("f")), vec![integer(1), integer(2)]),
            Demand { registers: 10, statics: 3, lambdas: 0 },
        ),
        (Expression::Cond(vec![]), Demand { registers: 0, statics: 0, lambdas: 0 }),
    ];
    for (expr, expected) in &exprs {
        assert_eq!(expr.demand(), Some(*expected), "{:?}", expr);
        let mut translator = Translator::default();
        assert!(translator.can_lower(expr));
        translator.expr_to_instructions(expr);
        assert_eq!(translator.register_count(), expected.registers);
        assert_eq!(translator.static_count(), expected.statics);
        assert_eq!(translator.lambda_count(), expected.lambdas);
    }
}

#[test]
fn demands_add_up_within_the_word() {
    let one = Demand::new(1, 2, 3);
    let two = Demand::new(10, 20, 30);
    assert_eq!(one.plus(&two), Some(Demand { registers: 11, statics: 22, lambdas: 33 }));
    let most = Demand::new(usize::MAX, 0, 0);
    assert_eq!(most.plus(&Demand::new(0, 5, 5)), Some(Demand::new(usize::MAX, 5, 5)));
    assert_eq!(most.plus(&one), None);
    assert_eq!(Demand::new(0, usize::MAX, 0).plus(&one), None);
    assert_eq!(Demand::new(0, 0, usize::MAX - 2).plus(&one), None);
}

#[test]
fn room_is_measured_against_the_counters() {
    let mut translator = Translator::default();
    assert!(translator.has_room_for(&Demand::new(usize::MAX, usize::MAX, usize::MAX)));
    translator.make_reg_name();
    assert!(!translator.has_room_for(&Demand::new(usize::MAX, 0, 0)));
    assert!(translator.has_room_for(&Demand::new(usize::MAX - 1, usize::MAX, usize::MAX)));
    translator.make_static_name();
    assert!(!translator.has_room_for(&Demand::new(0, usize::MAX, 0)));
    translator.make_anon_lambda_name();
    assert!(!translator.has_room_for(&Demand::new(0, 0, usize::MAX)));
    assert!(translator.has_room_for(&Demand::new(0, 0, 0)));
}

#[test]
fn can_lower_rejects_unsupported_callees() {
    let translator = Translator::default();
    let bad = Expression::Call(Box::new(integer(1)), vec![]);
    assert!(!translator.can_lower(&bad));
    assert!(!translator.can_lower_program(&Programm::Expression(vec![integer(1), bad])));
    let good = Expression::Call(Box::new(ident("f")), vec![integer(1)]);
    assert!(translator.can_lower(&good));
    assert!(translator.can_lower_program(&Programm::Expression(vec![integer(1), good])));
    assert!(translator.can_lower_program(&Programm::Expression(vec![])));
}

#[test]
fn second_program_keeps_earlier_entries() {
    let mut translator = Translator::default();
    let first = Programm::Expression(vec![Expression::Lambda(vec![], vec![integer(1)])]);
    let second = Programm::Expression(vec![Expression::Lambda(vec![], vec![integer(2)])]);
    let first_main = translator.ast_to_intermediate_representation(&first);
    let first_block = translator.block("_0").unwrap().clone();
    let second_main = translator.ast_to_intermediate_representation(&second);
    assert_ne!(first_main, second_main);
    assert_eq!(translator.block("main"), Some(&second_main));
    assert_eq!(translator.block("_0"), Some(&first_block));
    assert!(translator.block("_1").is_some());
    assert_eq!(translator.static_entry("static0"), Some(&StaticData::Integer(1)));
    assert_eq!(translator.static_entry("static1"), Some(&StaticData::Integer(2)));
    assert_eq!(translator.static_entry("_0"), Some(&StaticData::List(vec![])));
    assert_eq!(translator.static_entry("_1"), Some(&StaticData::List(vec![])));
}

#[test]
fn lambda_block_returns_one_of_its_values() {
    let mut translator = Translator::default();
    translator.expr_to_instructions(&Expression::Lambda(vec![], vec![integer(1), integer(2)]));
    let block = translator.block("_0").unwrap();
    // Two body values are pushed, the last is popped and returned.
    assert_eq!(net_pushes(&block.program), 1);
    assert_eq!(block.program.last(), Some(&LinearInstruction::Return { value: reg("r2") }));
}

#[test]
fn top_level_defines_each_leave_a_value() {
    let ast = Programm::Expression(vec![
        Expression::Define("x".into(), Box::new(integer(1))),
        Expression::Define("y".into(), Box::new(ident("x"))),
    ]);
    let mut translator = Translator::default();
    let main = translator.ast_to_intermediate_representation(&ast);
    assert_eq!(net_pushes(&main.program), 2);
    assert_eq!(main.program.last(), Some(&push("r3")));
}

#[test]
fn syntax_trees_can_be_copied() {
    let expr = Expression::Let(
        vec![Binding {
            name: "f".into(),
            value: Expression::Lambda(
                vec!["a".into()],
                vec![Expression::Cond(vec![CondCase {
                    test: ident("a"),
                    consequent: Expression::Quote(AtomTypes::List(vec![
                        AtomTypes::Symbol("s".into()),
                        AtomTypes::String("t".into()),
                        AtomTypes::Boolean(true),
                        AtomTypes::Integer(4),
                    ])),
                }])],
            ),
        }],
        vec![
            Expression::Call(Box::new(ident("f")), vec![integer(1)]),
            Expression::Define("d".into(), Box::new(integer(2))),
        ],
    );
    let copy = expr.clone();
    assert_eq!(copy, expr);
    let program = Programm::Expression(vec![expr, copy]);
    assert_eq!(program.clone(), program);
}

#[test]
fn try_lowering_refuses_and_leaves_the_translator() {
    let mut translator = Translator::default();
    let bad = Expression::Call(Box::new(Expression::Quote(AtomTypes::Integer(1))), vec![]);
    assert_eq!(translator.try_expr_to_instructions(&bad), None);
    assert_eq!(translator.register_count(), 0);
    assert_eq!(translator.static_count(), 0);
    assert_eq!(
        translator.try_ast_to_intermediate_representation(&Programm::Expression(vec![bad])),
        None
    );
    assert_eq!(translator.block("main"), None);
    let good = Expression::Quote(AtomTypes::Integer(5));
    assert_eq!(
        translator.try_expr_to_instructions(&good),
        Some(vec![materialize("static0", StaticData::Integer(5), "r0"), push("r0")])
    );
    let main = translator
        .try_ast_to_intermediate_representation(&Programm::Expression(vec![good]))
        .unwrap();
    assert_eq!(
        main.program,
        vec![materialize("static1", StaticData::Integer(5), "r1"), push("r1")]
    );
    assert_eq!(translator.block("main"), Some(&main));
}
