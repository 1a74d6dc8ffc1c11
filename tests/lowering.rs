use beast::ir::{Argument, Const, Export, If, Import, Instruction, IntegerType, IfCond, Module, Register, While};
use beast::lower::{
    lower_constant, lower_export, lower_import, lower_instr, lower_module, LowerError, Node, Rule,
};

fn leaf(rule: Rule, text: &str) -> Node {
    Node { rule, text: text.to_string(), children: Vec::new() }
}

fn node(rule: Rule, children: Vec<Node>) -> Node {
    Node { rule, text: String::new(), children }
}

fn ty(t: &str) -> Node {
    leaf(Rule::IntType, t)
}

fn lit(t: &str) -> Node {
    leaf(Rule::Literal, t)
}

#[test]
fn import_without_alias_defaults_to_origin() {
    let n = node(Rule::Import, vec![leaf(Rule::Ident, "add"), leaf(Rule::ModulePath, "[math]")]);
    assert_eq!(
        lower_import(&n),
        Ok(Import {
            origin_name: "add".to_string(),
            alias: "add".to_string(),
            module: "math".to_string()
        })
    );
}

#[test]
fn import_with_alias() {
    let n = node(
        Rule::Import,
        vec![
            leaf(Rule::Ident, "add"),
            leaf(Rule::FuncAlias, "plus"),
            leaf(Rule::ModulePath, "\"lib/math\""),
        ],
    );
    assert_eq!(
        lower_import(&n),
        Ok(Import {
            origin_name: "add".to_string(),
            alias: "plus".to_string(),
            module: "lib/math".to_string()
        })
    );
}

#[test]
fn import_with_short_path_token_is_an_internal_fault() {
    let n = node(Rule::Import, vec![leaf(Rule::Ident, "add"), leaf(Rule::ModulePath, "x")]);
    assert_eq!(
        lower_import(&n),
        Err(LowerError::MalformedModulePath { token: "x".to_string() })
    );
}

#[test]
fn export_without_alias_defaults_to_origin() {
    let n = node(Rule::Export, vec![leaf(Rule::Ident, "add")]);
    assert_eq!(
        lower_export(&n),
        Ok(Export { origin_name: "add".to_string(), alias: "add".to_string() })
    );
}

#[test]
fn export_with_alias() {
    let n = node(Rule::Export, vec![leaf(Rule::Ident, "add"), leaf(Rule::Ident, "plus")]);
    assert_eq!(
        lower_export(&n),
        Ok(Export { origin_name: "add".to_string(), alias: "plus".to_string() })
    );
}

#[test]
fn constant_is_decimal_only() {
    let ok = node(Rule::Constant, vec![leaf(Rule::Ident, "SIZE"), lit("-42")]);
    assert_eq!(lower_constant(&ok), Ok(Const { name: "SIZE".to_string(), value: -42 }));
    let hex = node(Rule::Constant, vec![leaf(Rule::Ident, "SIZE"), lit("0x10")]);
    assert_eq!(
        lower_constant(&hex),
        Err(LowerError::MalformedLiteral { literal: "0x10".to_string() })
    );
}

#[test]
fn push_u8_decimal_and_hex() {
    let dec = node(Rule::Push, vec![ty("u8"), lit("10")]);
    assert_eq!(lower_instr(&dec), Ok(Instruction::PushConstU8(Argument::Literal(10))));
    let hex = node(Rule::Push, vec![ty("u8"), lit("0xFF")]);
    assert_eq!(lower_instr(&hex), Ok(Instruction::PushConstU8(Argument::Literal(255))));
}

#[test]
fn push_out_of_range_is_malformed() {
    let n = node(Rule::Push, vec![ty("u8"), lit("0x100")]);
    assert_eq!(
        lower_instr(&n),
        Err(LowerError::MalformedLiteral { literal: "0x100".to_string() })
    );
    let n = node(Rule::Push, vec![ty("i8"), lit("0x80")]);
    assert_eq!(
        lower_instr(&n),
        Err(LowerError::MalformedLiteral { literal: "0x80".to_string() })
    );
}

#[test]
fn push_signed_and_constant() {
    let n = node(Rule::Push, vec![ty("i16"), lit("-300")]);
    assert_eq!(lower_instr(&n), Ok(Instruction::PushConstI16(Argument::Literal(-300))));
    let n = node(Rule::Push, vec![ty("u16"), leaf(Rule::ConstantId, "SIZE")]);
    assert_eq!(
        lower_instr(&n),
        Ok(Instruction::PushConstU16(Argument::Constant("SIZE".to_string())))
    );
}

#[test]
fn typed_and_plain_ops() {
    assert_eq!(lower_instr(&node(Rule::Add, vec![ty("i16")])), Ok(Instruction::Add(IntegerType::I16)));
    assert_eq!(lower_instr(&node(Rule::Dup, vec![ty("u8")])), Ok(Instruction::Dup(IntegerType::U8)));
    assert_eq!(lower_instr(&node(Rule::U8Promote, vec![])), Ok(Instruction::U8Promote));
    assert_eq!(lower_instr(&node(Rule::Ret, vec![])), Ok(Instruction::Ret));
}

#[test]
fn unknown_integer_type_is_an_internal_fault() {
    assert_eq!(
        lower_instr(&node(Rule::Add, vec![ty("u32")])),
        Err(LowerError::UnknownIntegerType { token: "u32".to_string() })
    );
}

#[test]
fn load_direct_and_indirect() {
    let direct = node(Rule::Load, vec![ty("u16"), lit("0x10")]);
    assert_eq!(
        lower_instr(&direct),
        Ok(Instruction::Load(IntegerType::U16, Argument::Literal(16)))
    );
    let indirect = node(Rule::Load, vec![ty("u16")]);
    assert_eq!(lower_instr(&indirect), Ok(Instruction::LoadIndirect(IntegerType::U16)));
    let store = node(Rule::Store, vec![ty("i8"), leaf(Rule::ConstantId, "ADDR")]);
    assert_eq!(
        lower_instr(&store),
        Ok(Instruction::Store(IntegerType::I8, Argument::Constant("ADDR".to_string())))
    );
    assert_eq!(
        lower_instr(&node(Rule::Store, vec![ty("i8")])),
        Ok(Instruction::StoreIndirect(IntegerType::I8))
    );
}

#[test]
fn registers() {
    assert_eq!(
        lower_instr(&node(Rule::Reg, vec![leaf(Rule::Ident, ":sp")])),
        Ok(Instruction::LoadReg(Register::StackPtr))
    );
    assert_eq!(
        lower_instr(&node(Rule::Reg, vec![leaf(Rule::Ident, ":bp")])),
        Ok(Instruction::LoadReg(Register::BasePtr))
    );
    assert_eq!(
        lower_instr(&node(Rule::Reg, vec![leaf(Rule::Ident, ":ip")])),
        Err(LowerError::UnrecognizedRegister { register: ":ip".to_string() })
    );
}

#[test]
fn sys_call_alloc_free() {
    assert_eq!(
        lower_instr(&node(Rule::Sys, vec![leaf(Rule::Ident, "#print")])),
        Ok(Instruction::Sys("#print".to_string()))
    );
    assert_eq!(
        lower_instr(&node(Rule::Call, vec![leaf(Rule::Ident, "add")])),
        Ok(Instruction::Call("add".to_string()))
    );
    assert_eq!(
        lower_instr(&node(Rule::Alloc, vec![lit("512")])),
        Ok(Instruction::Alloc(Argument::Literal(512)))
    );
    assert_eq!(lower_instr(&node(Rule::Free, vec![])), Ok(Instruction::Free));
}

#[test]
fn while_lowers_its_body_in_order() {
    let n = node(
        Rule::WhileLoop,
        vec![
            leaf(Rule::Unequal, "unequal"),
            ty("u8"),
            node(Rule::Dec, vec![ty("u8")]),
            node(Rule::Dup, vec![ty("u8")]),
        ],
    );
    assert_eq!(
        lower_instr(&n),
        Ok(Instruction::While(While(
            IfCond::NotZero,
            IntegerType::U8,
            vec![Instruction::Dec(IntegerType::U8), Instruction::Dup(IntegerType::U8)]
        )))
    );
}

#[test]
fn if_else_splits_at_the_marker() {
    let n = node(
        Rule::IfCond,
        vec![
            leaf(Rule::Greater, "greater"),
            ty("i8"),
            node(Rule::Inc, vec![ty("i8")]),
            node(Rule::Neg, vec![ty("i8")]),
            node(Rule::ElseCond, vec![node(Rule::Ret, vec![])]),
        ],
    );
    assert_eq!(
        lower_instr(&n),
        Ok(Instruction::If(If(
            IfCond::Positive,
            IntegerType::I8,
            vec![Instruction::Inc(IntegerType::I8), Instruction::Neg(IntegerType::I8)],
            Some(vec![Instruction::Ret])
        )))
    );
}

#[test]
fn if_without_else() {
    let n = node(
        Rule::IfCond,
        vec![leaf(Rule::Equal, "equal"), ty("u16"), node(Rule::Free, vec![])],
    );
    assert_eq!(
        lower_instr(&n),
        Ok(Instruction::If(If(IfCond::Zero, IntegerType::U16, vec![Instruction::Free], None)))
    );
    let n = node(Rule::IfCond, vec![leaf(Rule::Less, "less"), ty("u16")]);
    assert_eq!(
        lower_instr(&n),
        Ok(Instruction::If(If(IfCond::Negative, IntegerType::U16, vec![], None)))
    );
}

#[test]
fn nested_error_propagates() {
    let n = node(
        Rule::WhileLoop,
        vec![leaf(Rule::Equal, "equal"), ty("u8"), node(Rule::Reg, vec![leaf(Rule::Ident, "sp")])],
    );
    assert_eq!(
        lower_instr(&n),
        Err(LowerError::UnrecognizedRegister { register: "sp".to_string() })
    );
}

#[test]
fn unexpected_rule_is_an_internal_fault() {
    assert_eq!(
        lower_instr(&node(Rule::Import, vec![])),
        Err(LowerError::UnexpectedNode { rule: Rule::Import })
    );
    assert_eq!(
        lower_instr(&node(Rule::Push, vec![ty("u8")])),
        Err(LowerError::MissingNode { rule: Rule::Push })
    );
}

#[test]
fn module_collects_items_by_kind_in_order() {
    let items = vec![
        node(Rule::Import, vec![leaf(Rule::Ident, "add"), leaf(Rule::ModulePath, "\"math\"")]),
        node(Rule::Constant, vec![leaf(Rule::Ident, "N"), lit("3")]),
        node(
            Rule::Func,
            vec![leaf(Rule::Ident, "$main"), node(Rule::Call, vec![leaf(Rule::Ident, "add")])],
        ),
        node(Rule::Import, vec![leaf(Rule::Ident, "id"), leaf(Rule::ModulePath, "\"util\"")]),
        node(Rule::Export, vec![leaf(Rule::Ident, "$main")]),
    ];
    match lower_module("main".to_string(), &items).unwrap() {
        Module::Source { path, imports, exports, constants, funcs } => {
            assert_eq!(path, "main");
            let paths: Vec<&str> = imports.iter().map(|i| i.module.as_str()).collect();
            assert_eq!(paths, vec!["math", "util"]);
            assert_eq!(exports.len(), 1);
            assert_eq!(constants, vec![Const { name: "N".to_string(), value: 3 }]);
            assert_eq!(funcs.len(), 1);
            assert_eq!(funcs[0].name, "$main");
            assert_eq!(funcs[0].instr, vec![Instruction::Call("add".to_string())]);
        }
        Module::Lib { .. } => panic!("expected a source module"),
    }
}

#[test]
fn module_rejects_instruction_at_top_level() {
    let items = vec![node(Rule::Ret, vec![])];
    assert_eq!(
        lower_module("main".to_string(), &items),
        Err(LowerError::UnexpectedNode { rule: Rule::Ret })
    );
}

#[test]
fn first_failing_instruction_error_is_reported() {
    let f = node(
        Rule::Func,
        vec![
            leaf(Rule::Ident, "f"),
            node(Rule::Ret, vec![]),
            node(Rule::Reg, vec![leaf(Rule::Ident, ":xx")]),
            node(Rule::Push, vec![ty("u8"), lit("0x100")]),
        ],
    );
    assert_eq!(
        beast::lower::lower_func(&f),
        Err(LowerError::UnrecognizedRegister { register: ":xx".to_string() })
    );
}

#[test]
fn first_failing_item_error_is_reported() {
    let items = vec![
        node(Rule::Constant, vec![leaf(Rule::Ident, "N"), lit("7")]),
        node(Rule::Constant, vec![leaf(Rule::Ident, "M"), lit("x1")]),
        node(Rule::Func, vec![leaf(Rule::Ident, "f"), node(Rule::Add, vec![ty("u9")])]),
    ];
    assert_eq!(
        lower_module("m".to_string(), &items),
        Err(LowerError::MalformedLiteral { literal: "x1".to_string() })
    );
}

#[test]
fn else_branch_error_after_then_branch() {
    let n = node(
        Rule::IfCond,
        vec![
            leaf(Rule::Equal, "equal"),
            ty("u8"),
            node(Rule::Ret, vec![]),
            node(Rule::ElseCond, vec![node(Rule::Add, vec![ty("x8")])]),
        ],
    );
    assert_eq!(
        lower_instr(&n),
        Err(LowerError::UnknownIntegerType { token: "x8".to_string() })
    );
}
