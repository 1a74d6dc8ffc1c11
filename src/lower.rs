//! Lowering of a parsed source module into the program representation.
//!
//! The parser hands over a tree of `Node`s, each tagged with the grammar rule
//! it matched, the text it spans and its children. Lowering dispatches on the
//! rule; a tree whose shape the grammar could not have produced is reported as
//! an internal fault rather than accepted.

use crate::ir::{Argument, Const, Export, Func, If, Import, Module, IntegerType, IfCond, Instruction, Register, While};
use crate::literal::{literal_in, parse_in, parse_integer, parse_literal, MAGNITUDE_CAP};
use vstd::prelude::*;

verus! {

/// The grammar rules that lowering distinguishes.
#[derive(Clone, Copy, Debug, PartialEq, Eq, Structural)]
pub enum Rule {
    Import,
    Export,
    Constant,
    Func,
    FuncAlias,
    Ident,
    ModulePath,
    Literal,
    ConstantId,
    IntType,
    Push,
    Add,
    Sub,
    Mul,
    Div,
    Shr,
    Shl,
    And,
    Or,
    Xor,
    Not,
    Neg,
    Inc,
    Dec,
    U8Promote,
    U16Demote,
    I8Promote,
    I16Demote,
    Reg,
    Load,
    Store,
    Dup,
    Drop,
    Sys,
    Call,
    Ret,
    Alloc,
    Free,
    WhileLoop,
    IfCond,
    ElseCond,
    Greater,
    Less,
    Equal,
    Unequal,
}

/// One node of the parse tree.
#[derive(Debug, PartialEq, Eq)]
pub struct Node {
    pub rule: Rule,
    pub text: String,
    pub children: Vec<Node>,
}

/// Why a module could not be lowered.
#[derive(Clone, Debug, PartialEq, Eq)]
pub enum LowerError {
    /// A literal operand that is neither decimal nor hexadecimal in range.
    MalformedLiteral { literal: String },
    /// A register name other than `:sp` and `:bp`.
    UnrecognizedRegister { register: String },
    /// Internal fault: an integer kind token other than `u8`, `u16`, `i8`, `i16`.
    UnknownIntegerType { token: String },
    /// Internal fault: a node of a rule that cannot stand where it was found.
    UnexpectedNode { rule: Rule },
    /// Internal fault: a node of this rule lacks a child it must have.
    MissingNode { rule: Rule },
    /// Internal fault: a module path token too short to carry its delimiters.
    MalformedModulePath { token: String },
}

pub open spec fn int_type_of(s: Seq<char>) -> Option<IntegerType> {
    if s == "u8"@ {
        Some(IntegerType::U8)
    } else if s == "u16"@ {
        Some(IntegerType::U16)
    } else if s == "i8"@ {
        Some(IntegerType::I8)
    } else if s == "i16"@ {
        Some(IntegerType::I16)
    } else {
        None
    }
}

pub open spec fn type_min(t: IntegerType) -> int {
    match t {
        IntegerType::U8 => 0,
        IntegerType::U16 => 0,
        IntegerType::I8 => -128,
        IntegerType::I16 => -32768,
    }
}

pub open spec fn type_max(t: IntegerType) -> int {
    match t {
        IntegerType::U8 => 255,
        IntegerType::U16 => 65535,
        IntegerType::I8 => 127,
        IntegerType::I16 => 32767,
    }
}

pub open spec fn register_of(s: Seq<char>) -> Option<Register> {
    if s == ":sp"@ {
        Some(Register::StackPtr)
    } else if s == ":bp"@ {
        Some(Register::BasePtr)
    } else {
        None
    }
}

pub open spec fn cond_of(r: Rule) -> Option<IfCond> {
    match r {
        Rule::Greater => Some(IfCond::Positive),
        Rule::Less => Some(IfCond::Negative),
        Rule::Equal => Some(IfCond::Zero),
        Rule::Unequal => Some(IfCond::NotZero),
        _ => None,
    }
}

/// The instructions that take an integer kind and nothing else.
pub open spec fn typed_op(r: Rule, t: IntegerType) -> Option<Instruction> {
    match r {
        Rule::Add => Some(Instruction::Add(t)),
        Rule::Sub => Some(Instruction::Sub(t)),
        Rule::Mul => Some(Instruction::Mul(t)),
        Rule::Div => Some(Instruction::Div(t)),
        Rule::Shr => Some(Instruction::Shr(t)),
        Rule::Shl => Some(Instruction::Shl(t)),
        Rule::And => Some(Instruction::And(t)),
        Rule::Or => Some(Instruction::Or(t)),
        Rule::Xor => Some(Instruction::Xor(t)),
        Rule::Not => Some(Instruction::Not(t)),
        Rule::Neg => Some(Instruction::Neg(t)),
        Rule::Inc => Some(Instruction::Inc(t)),
        Rule::Dec => Some(Instruction::Dec(t)),
        Rule::Dup => Some(Instruction::Dup(t)),
        Rule::Drop => Some(Instruction::Drop(t)),
        _ => None,
    }
}

/// The instructions without operands.
pub open spec fn plain_op(r: Rule) -> Option<Instruction> {
    match r {
        Rule::U8Promote => Some(Instruction::U8Promote),
        Rule::U16Demote => Some(Instruction::U16Demote),
        Rule::I8Promote => Some(Instruction::I8Promote),
        Rule::I16Demote => Some(Instruction::I16Demote),
        Rule::Ret => Some(Instruction::Ret),
        Rule::Free => Some(Instruction::Free),
        _ => None,
    }
}

/// The integer kind named by child `k` of `n`.
pub open spec fn kind_of(n: Node, k: int) -> Option<IntegerType> {
    if 0 <= k < n.children@.len() {
        int_type_of(n.children@[k].text@)
    } else {
        None
    }
}

/// `n` is an operand that lowers within `lo..=hi`.
pub open spec fn arg_ok(n: Node, lo: int, hi: int) -> bool {
    n.rule == Rule::ConstantId || (n.rule == Rule::Literal && literal_in(n.text@, lo, hi) is Some)
}

/// `n` lowers to the operand that names `name` (when `is_const`) or holds `value`.
pub open spec fn arg_rel(n: Node, is_const: bool, name: Seq<char>, value: int, lo: int, hi: int) -> bool {
    if is_const {
        n.rule == Rule::ConstantId && name == n.text@
    } else {
        n.rule == Rule::Literal && literal_in(n.text@, lo, hi) == Some(value)
    }
}

pub open spec fn arg_u8(n: Node, a: Argument<u8>) -> bool {
    match a {
        Argument::Constant(c) => arg_rel(n, true, c@, 0, 0, 255),
        Argument::Literal(v) => arg_rel(n, false, seq![], v as int, 0, 255),
    }
}

pub open spec fn arg_u16(n: Node, a: Argument<u16>) -> bool {
    match a {
        Argument::Constant(c) => arg_rel(n, true, c@, 0, 0, 65535),
        Argument::Literal(v) => arg_rel(n, false, seq![], v as int, 0, 65535),
    }
}

pub open spec fn arg_i8(n: Node, a: Argument<i8>) -> bool {
    match a {
        Argument::Constant(c) => arg_rel(n, true, c@, 0, -128, 127),
        Argument::Literal(v) => arg_rel(n, false, seq![], v as int, -128, 127),
    }
}

pub open spec fn arg_i16(n: Node, a: Argument<i16>) -> bool {
    match a {
        Argument::Constant(c) => arg_rel(n, true, c@, 0, -32768, 32767),
        Argument::Literal(v) => arg_rel(n, false, seq![], v as int, -32768, 32767),
    }
}

/// Index of the first else marker among `ch[k..]`, or `ch.len()` if there is none.
pub open spec fn else_from(ch: Seq<Node>, k: int) -> int
    decreases ch.len() - k,
{
    if k >= ch.len() {
        ch.len() as int
    } else if ch[k].rule == Rule::ElseCond {
        k
    } else {
        else_from(ch, k + 1)
    }
}

/// Where the then-branch of an `if` node ends.
pub open spec fn else_index(n: Node) -> int {
    else_from(n.children@, 2)
}

/// The rules of instruction nodes.
pub open spec fn is_instr_rule(r: Rule) -> bool {
    typed_op(r, IntegerType::U8) is Some || plain_op(r) is Some || r == Rule::Push || r == Rule::Load
        || r == Rule::Store || r == Rule::Alloc || r == Rule::Reg || r == Rule::Sys || r == Rule::Call
        || r == Rule::WhileLoop || r == Rule::IfCond
}

/// The instruction rules whose first child names an integer kind.
pub open spec fn kinded_rule(r: Rule) -> bool {
    typed_op(r, IntegerType::U8) is Some || r == Rule::Push || r == Rule::Load || r == Rule::Store
}

/// Lowering the instruction node `n` succeeds.
pub open spec fn lower_ok(n: Node) -> bool
    decreases n,
{
    let ch = n.children@;
    match n.rule {
        Rule::Push => ch.len() >= 2 && kind_of(n, 0) is Some && arg_ok(
            ch[1],
            type_min(kind_of(n, 0)->0),
            type_max(kind_of(n, 0)->0),
        ),
        Rule::Load | Rule::Store => ch.len() >= 1 && kind_of(n, 0) is Some && (ch.len() >= 2
            ==> arg_ok(ch[1], 0, 65535)),
        Rule::Alloc => ch.len() >= 1 && arg_ok(ch[0], 0, 65535),
        Rule::Reg => ch.len() >= 1 && register_of(ch[0].text@) is Some,
        Rule::Sys | Rule::Call => ch.len() >= 1,
        Rule::WhileLoop => ch.len() >= 2 && cond_of(ch[0].rule) is Some && kind_of(n, 1) is Some
            && forall|k: int| 2 <= k < ch.len() ==> lower_ok(#[trigger] ch[k]),
        Rule::IfCond => ch.len() >= 2 && cond_of(ch[0].rule) is Some && kind_of(n, 1) is Some
            && (forall|k: int| 2 <= k < else_index(n) && k < ch.len() ==> lower_ok(#[trigger] ch[k]))
            && (2 <= else_index(n) < ch.len() ==> forall|k: int|
                0 <= k < ch[else_index(n)].children@.len() ==> lower_ok(
                #[trigger] ch[else_index(n)].children@[k],
            )),
        _ => if typed_op(n.rule, IntegerType::U8) is Some {
            kind_of(n, 0) is Some
        } else {
            plain_op(n.rule) is Some
        },
    }
}

/// The instruction node `n` lowers to `i`.
pub open spec fn lowers_to(n: Node, i: Instruction) -> bool
    decreases n,
{
    let ch = n.children@;
    match i {
        Instruction::PushConstU8(a) => n.rule == Rule::Push && ch.len() >= 2 && kind_of(n, 0) == Some(
            IntegerType::U8,
        ) && arg_u8(ch[1], a),
        Instruction::PushConstU16(a) => n.rule == Rule::Push && ch.len() >= 2 && kind_of(n, 0)
            == Some(IntegerType::U16) && arg_u16(ch[1], a),
        Instruction::PushConstI8(a) => n.rule == Rule::Push && ch.len() >= 2 && kind_of(n, 0) == Some(
            IntegerType::I8,
        ) && arg_i8(ch[1], a),
        Instruction::PushConstI16(a) => n.rule == Rule::Push && ch.len() >= 2 && kind_of(n, 0)
            == Some(IntegerType::I16) && arg_i16(ch[1], a),
        Instruction::Load(t, a) => n.rule == Rule::Load && ch.len() >= 2 && kind_of(n, 0) == Some(t)
            && arg_u16(ch[1], a),
        Instruction::LoadIndirect(t) => n.rule == Rule::Load && ch.len() == 1 && kind_of(n, 0) == Some(
            t,
        ),
        Instruction::Store(t, a) => n.rule == Rule::Store && ch.len() >= 2 && kind_of(n, 0) == Some(t)
            && arg_u16(ch[1], a),
        Instruction::StoreIndirect(t) => n.rule == Rule::Store && ch.len() == 1 && kind_of(n, 0)
            == Some(t),
        Instruction::Alloc(a) => n.rule == Rule::Alloc && ch.len() >= 1 && arg_u16(ch[0], a),
        Instruction::LoadReg(r) => n.rule == Rule::Reg && ch.len() >= 1 && register_of(ch[0].text@)
            == Some(r),
        Instruction::Sys(s) => n.rule == Rule::Sys && ch.len() >= 1 && s@ == ch[0].text@,
        Instruction::Call(s) => n.rule == Rule::Call && ch.len() >= 1 && s@ == ch[0].text@,
        Instruction::While(While(c, t, body)) => n.rule == Rule::WhileLoop && ch.len() >= 2
            && cond_of(ch[0].rule) == Some(c) && kind_of(n, 1) == Some(t) && body@.len() == ch.len()
            - 2 && forall|k: int| 0 <= k < body@.len() ==> lowers_to(ch[k + 2], #[trigger] body@[k]),
        Instruction::If(If(c, t, th, el)) => n.rule == Rule::IfCond && ch.len() >= 2 && cond_of(
            ch[0].rule,
        ) == Some(c) && kind_of(n, 1) == Some(t) && 2 <= else_index(n) <= ch.len() && th@.len()
            == else_index(n) - 2 && (forall|k: int|
            0 <= k < th@.len() ==> lowers_to(ch[k + 2], #[trigger] th@[k])) && match el {
            None => else_index(n) == ch.len(),
            Some(ev) => else_index(n) < ch.len() && ev@.len() == ch[else_index(n)].children@.len()
                && forall|k: int|
                0 <= k < ev@.len() ==> lowers_to(
                    ch[else_index(n)].children@[k],
                    #[trigger] ev@[k],
                ),
        },
        _ => (kind_of(n, 0) matches Some(t) && typed_op(n.rule, t) == Some(i)) || plain_op(n.rule)
            == Some(i),
    }
}

/// Index of the first child among `ch[k..to]` that does not lower, or `to`.
pub open spec fn first_failing(ch: Seq<Node>, k: int, to: int) -> int
    decreases to - k,
{
    if k >= to {
        to
    } else if !lower_ok(ch[k]) {
        k
    } else {
        first_failing(ch, k + 1, to)
    }
}

proof fn lemma_first_failing_none(ch: Seq<Node>, k: int, to: int)
    requires
        forall|x: int| k <= x < to ==> lower_ok(#[trigger] ch[x]),
    ensures
        first_failing(ch, k, to) == to,
    decreases to - k,
{
    if k < to {
        lemma_first_failing_none(ch, k + 1, to);
    }
}

/// The fault of a kind token expected at child `k` of `n`.
pub open spec fn kind_error(n: Node, k: int) -> LowerError {
    if n.children@.len() <= k {
        LowerError::MissingNode { rule: n.rule }
    } else {
        LowerError::UnknownIntegerType { token: n.children@[k].text }
    }
}

/// The fault of an operand node that does not lower.
pub open spec fn arg_error(a: Node) -> LowerError {
    if a.rule == Rule::Literal {
        LowerError::MalformedLiteral { literal: a.text }
    } else {
        LowerError::UnexpectedNode { rule: a.rule }
    }
}

/// The error that lowering the instruction node `n` reports when `n` does not
/// lower: the first fault met, checking the node's own parts before its body,
/// and a body's instructions in order.
pub open spec fn instr_error(n: Node) -> LowerError
    decreases n,
{
    let ch = n.children@;
    let missing = LowerError::MissingNode { rule: n.rule };
    match n.rule {
        Rule::Push => if kind_of(n, 0) is None {
            kind_error(n, 0)
        } else if ch.len() < 2 {
            missing
        } else {
            arg_error(ch[1])
        },
        Rule::Load | Rule::Store => if kind_of(n, 0) is None {
            kind_error(n, 0)
        } else {
            arg_error(ch[1])
        },
        Rule::Alloc => if ch.len() < 1 {
            missing
        } else {
            arg_error(ch[0])
        },
        Rule::Reg => if ch.len() < 1 {
            missing
        } else {
            LowerError::UnrecognizedRegister { register: ch[0].text }
        },
        Rule::Sys | Rule::Call => missing,
        Rule::WhileLoop => if ch.len() < 2 {
            missing
        } else if cond_of(ch[0].rule) is None {
            LowerError::UnexpectedNode { rule: ch[0].rule }
        } else if kind_of(n, 1) is None {
            kind_error(n, 1)
        } else {
            let f = first_failing(ch, 2, ch.len() as int);
            if 2 <= f < ch.len() {
                instr_error(ch[f])
            } else {
                missing
            }
        },
        Rule::IfCond => if ch.len() < 2 {
            missing
        } else if cond_of(ch[0].rule) is None {
            LowerError::UnexpectedNode { rule: ch[0].rule }
        } else if kind_of(n, 1) is None {
            kind_error(n, 1)
        } else {
            let e = else_index(n);
            let f = first_failing(ch, 2, e);
            if 2 <= f < e && e <= ch.len() {
                instr_error(ch[f])
            } else if 2 <= e < ch.len() {
                let g = first_failing(ch[e].children@, 0, ch[e].children@.len() as int);
                if 0 <= g < ch[e].children@.len() {
                    instr_error(ch[e].children@[g])
                } else {
                    missing
                }
            } else {
                missing
            }
        },
        _ => if typed_op(n.rule, IntegerType::U8) is None {
            LowerError::UnexpectedNode { rule: n.rule }
        } else {
            kind_error(n, 0)
        },
    }
}

/// `s` spells `lit`.
fn text_is(s: &str, lit: &str) -> (r: bool)
    ensures
        r == (s@ == lit@),
{
    let n = s.unicode_len();
    if n != lit.unicode_len() {
        return false;
    }
    let mut i: usize = 0;
    while i < n
        invariant
            n == s@.len(),
            n == lit@.len(),
            i <= n,
            forall|j: int| 0 <= j < i ==> s@[j] == lit@[j],
        decreases n - i,
    {
        if s.get_char(i) != lit.get_char(i) {
            return false;
        }
        i = i + 1;
    }
    assert(s@ =~= lit@);
    true
}

/// The integer kind a type token names.
pub fn integer_type(s: &str) -> (r: Option<IntegerType>)
    ensures
        r == int_type_of(s@),
{
    if text_is(s, "u8") {
        Some(IntegerType::U8)
    } else if text_is(s, "u16") {
        Some(IntegerType::U16)
    } else if text_is(s, "i8") {
        Some(IntegerType::I8)
    } else if text_is(s, "i16") {
        Some(IntegerType::I16)
    } else {
        None
    }
}

/// The register a register token names.
pub fn register(s: &str) -> (r: Option<Register>)
    ensures
        r == register_of(s@),
{
    if text_is(s, ":sp") {
        Some(Register::StackPtr)
    } else if text_is(s, ":bp") {
        Some(Register::BasePtr)
    } else {
        None
    }
}

fn condition(r: Rule) -> (c: Option<IfCond>)
    ensures
        c == cond_of(r),
{
    match r {
        Rule::Greater => Some(IfCond::Positive),
        Rule::Less => Some(IfCond::Negative),
        Rule::Equal => Some(IfCond::Zero),
        Rule::Unequal => Some(IfCond::NotZero),
        _ => None,
    }
}

fn typed_instr(r: Rule, t: IntegerType) -> (i: Option<Instruction>)
    ensures
        i == typed_op(r, t),
{
    match r {
        Rule::Add => Some(Instruction::Add(t)),
        Rule::Sub => Some(Instruction::Sub(t)),
        Rule::Mul => Some(Instruction::Mul(t)),
        Rule::Div => Some(Instruction::Div(t)),
        Rule::Shr => Some(Instruction::Shr(t)),
        Rule::Shl => Some(Instruction::Shl(t)),
        Rule::And => Some(Instruction::And(t)),
        Rule::Or => Some(Instruction::Or(t)),
        Rule::Xor => Some(Instruction::Xor(t)),
        Rule::Not => Some(Instruction::Not(t)),
        Rule::Neg => Some(Instruction::Neg(t)),
        Rule::Inc => Some(Instruction::Inc(t)),
        Rule::Dec => Some(Instruction::Dec(t)),
        Rule::Dup => Some(Instruction::Dup(t)),
        Rule::Drop => Some(Instruction::Drop(t)),
        _ => None,
    }
}

fn plain_instr(r: Rule) -> (i: Option<Instruction>)
    ensures
        i == plain_op(r),
{
    match r {
        Rule::U8Promote => Some(Instruction::U8Promote),
        Rule::U16Demote => Some(Instruction::U16Demote),
        Rule::I8Promote => Some(Instruction::I8Promote),
        Rule::I16Demote => Some(Instruction::I16Demote),
        Rule::Ret => Some(Instruction::Ret),
        Rule::Free => Some(Instruction::Free),
        _ => None,
    }
}

/// The integer kind named by child `k` of `n`.
fn kind(n: &Node, k: usize) -> (r: Result<IntegerType, LowerError>)
    ensures
        r matches Ok(t) ==> kind_of(*n, k as int) == Some(t),
        r is Err ==> kind_of(*n, k as int) is None,
        r matches Err(e) ==> e == kind_error(*n, k as int),
{
    if n.children.len() <= k {
        return Err(LowerError::MissingNode { rule: n.rule });
    }
    match integer_type(n.children[k].text.as_str()) {
        Some(t) => Ok(t),
        None => Err(LowerError::UnknownIntegerType { token: n.children[k].text.clone() }),
    }
}

/// Lowers an operand node into `lo..=hi`.
fn lower_arg(n: &Node, lo: i64, hi: i64) -> (r: Result<Argument<i64>, LowerError>)
    requires
        -MAGNITUDE_CAP < lo,
        hi < MAGNITUDE_CAP,
    ensures
        r is Ok <==> arg_ok(*n, lo as int, hi as int),
        r matches Ok(Argument::Constant(c)) ==> arg_rel(*n, true, c@, 0, lo as int, hi as int),
        r matches Ok(Argument::Literal(v)) ==> arg_rel(*n, false, seq![], v as int, lo as int, hi as int)
            && lo <= v <= hi,
        r matches Err(e) ==> e == arg_error(*n),
{
    match n.rule {
        Rule::ConstantId => Ok(Argument::Constant(n.text.clone())),
        Rule::Literal => match parse_literal(n.text.as_str(), lo, hi) {
            Some(v) => Ok(Argument::Literal(v)),
            None => Err(LowerError::MalformedLiteral { literal: n.text.clone() }),
        },
        _ => Err(LowerError::UnexpectedNode { rule: n.rule }),
    }
}

fn to_u8(a: Argument<i64>) -> (r: Argument<u8>)
    requires
        a matches Argument::Literal(v) ==> 0 <= v <= 255,
    ensures
        a matches Argument::Constant(c) ==> r == Argument::<u8>::Constant(c),
        a matches Argument::Literal(v) ==> r == Argument::<u8>::Literal(v as u8),
{
    match a {
        Argument::Constant(c) => Argument::Constant(c),
        Argument::Literal(v) => Argument::Literal(v as u8),
    }
}

fn to_u16(a: Argument<i64>) -> (r: Argument<u16>)
    requires
        a matches Argument::Literal(v) ==> 0 <= v <= 65535,
    ensures
        a matches Argument::Constant(c) ==> r == Argument::<u16>::Constant(c),
        a matches Argument::Literal(v) ==> r == Argument::<u16>::Literal(v as u16),
{
    match a {
        Argument::Constant(c) => Argument::Constant(c),
        Argument::Literal(v) => Argument::Literal(v as u16),
    }
}

fn to_i8(a: Argument<i64>) -> (r: Argument<i8>)
    requires
        a matches Argument::Literal(v) ==> -128 <= v <= 127,
    ensures
        a matches Argument::Constant(c) ==> r == Argument::<i8>::Constant(c),
        a matches Argument::Literal(v) ==> r == Argument::<i8>::Literal(v as i8),
{
    match a {
        Argument::Constant(c) => Argument::Constant(c),
        Argument::Literal(v) => Argument::Literal(v as i8),
    }
}

fn to_i16(a: Argument<i64>) -> (r: Argument<i16>)
    requires
        a matches Argument::Literal(v) ==> -32768 <= v <= 32767,
    ensures
        a matches Argument::Constant(c) ==> r == Argument::<i16>::Constant(c),
        a matches Argument::Literal(v) ==> r == Argument::<i16>::Literal(v as i16),
{
    match a {
        Argument::Constant(c) => Argument::Constant(c),
        Argument::Literal(v) => Argument::Literal(v as i16),
    }
}

/// Lowers one instruction node, nested bodies included.
pub fn lower_instr(n: &Node) -> (r: Result<Instruction, LowerError>)
    ensures
        r is Ok <==> lower_ok(*n),
        r matches Ok(i) ==> lowers_to(*n, i),
        r matches Err(e) ==> e == instr_error(*n),
        !is_instr_rule(n.rule) ==> r == Err::<Instruction, LowerError>(
            LowerError::UnexpectedNode { rule: n.rule },
        ),
        n.rule == Rule::Reg && n.children@.len() >= 1 && register_of(n.children@[0].text@) is None
            ==> r == Err::<Instruction, LowerError>(
            LowerError::UnrecognizedRegister { register: n.children@[0].text },
        ),
        n.rule == Rule::Push && n.children@.len() >= 2 && kind_of(*n, 0) is Some
            && n.children@[1].rule == Rule::Literal && literal_in(
            n.children@[1].text@,
            type_min(kind_of(*n, 0)->0),
            type_max(kind_of(*n, 0)->0),
        ) is None ==> r == Err::<Instruction, LowerError>(
            LowerError::MalformedLiteral { literal: n.children@[1].text },
        ),
        kinded_rule(n.rule) && n.children@.len() >= 1 && int_type_of(n.children@[0].text@) is None
            ==> r == Err::<Instruction, LowerError>(
            LowerError::UnknownIntegerType { token: n.children@[0].text },
        ),
    decreases n, 1usize,
{
    let len = n.children.len();
    match n.rule {
        Rule::Push => {
            let t = kind(n, 0)?;
            if len < 2 {
                return Err(LowerError::MissingNode { rule: n.rule });
            }
            let arg = &n.children[1];
            match t {
                IntegerType::U8 => Ok(Instruction::PushConstU8(to_u8(lower_arg(arg, 0, 255)?))),
                IntegerType::U16 => Ok(
                    Instruction::PushConstU16(to_u16(lower_arg(arg, 0, 65535)?)),
                ),
                IntegerType::I8 => Ok(Instruction::PushConstI8(to_i8(lower_arg(arg, -128, 127)?))),
                IntegerType::I16 => Ok(
                    Instruction::PushConstI16(to_i16(lower_arg(arg, -32768, 32767)?)),
                ),
            }
        },
        Rule::Load | Rule::Store => {
            let t = kind(n, 0)?;
            if len >= 2 {
                let a = to_u16(lower_arg(&n.children[1], 0, 65535)?);
                if n.rule == Rule::Load {
                    Ok(Instruction::Load(t, a))
                } else {
                    Ok(Instruction::Store(t, a))
                }
            } else if n.rule == Rule::Load {
                Ok(Instruction::LoadIndirect(t))
            } else {
                Ok(Instruction::StoreIndirect(t))
            }
        },
        Rule::Alloc => {
            if len < 1 {
                return Err(LowerError::MissingNode { rule: n.rule });
            }
            Ok(Instruction::Alloc(to_u16(lower_arg(&n.children[0], 0, 65535)?)))
        },
        Rule::Reg => {
            if len < 1 {
                return Err(LowerError::MissingNode { rule: n.rule });
            }
            match register(n.children[0].text.as_str()) {
                Some(r) => Ok(Instruction::LoadReg(r)),
                None => Err(LowerError::UnrecognizedRegister { register: n.children[0].text.clone() }),
            }
        },
        Rule::Sys | Rule::Call => {
            if len < 1 {
                return Err(LowerError::MissingNode { rule: n.rule });
            }
            let name = n.children[0].text.clone();
            if n.rule == Rule::Sys {
                Ok(Instruction::Sys(name))
            } else {
                Ok(Instruction::Call(name))
            }
        },
        Rule::WhileLoop => {
            if len < 2 {
                return Err(LowerError::MissingNode { rule: n.rule });
            }
            let c = match condition(n.children[0].rule) {
                Some(c) => c,
                None => return Err(LowerError::UnexpectedNode { rule: n.children[0].rule }),
            };
            let t = kind(n, 1)?;
            let body = lower_children(n, 2, len)?;
            Ok(Instruction::While(While(c, t, body)))
        },
        Rule::IfCond => {
            if len < 2 {
                return Err(LowerError::MissingNode { rule: n.rule });
            }
            let c = match condition(n.children[0].rule) {
                Some(c) => c,
                None => return Err(LowerError::UnexpectedNode { rule: n.children[0].rule }),
            };
            let t = kind(n, 1)?;
            let e = find_else(n);
            let then_branch = lower_children(n, 2, e)?;
            proof {
                lemma_first_failing_none(n.children@, 2, e as int);
            }
            let else_branch = if e < len {
                let marker = &n.children[e];
                Some(lower_children(marker, 0, marker.children.len())?)
            } else {
                None
            };
            Ok(Instruction::If(If(c, t, then_branch, else_branch)))
        },
        _ => {
            if let Some(i) = plain_instr(n.rule) {
                return Ok(i);
            }
            if typed_instr(n.rule, IntegerType::U8).is_none() {
                return Err(LowerError::UnexpectedNode { rule: n.rule });
            }
            let t = kind(n, 0)?;
            match typed_instr(n.rule, t) {
                Some(i) => Ok(i),
                None => Err(LowerError::UnexpectedNode { rule: n.rule }),
            }
        },
    }
}

/// Position of the else marker among the children of an `if` node, or their count.
fn find_else(n: &Node) -> (e: usize)
    requires
        n.children@.len() >= 2,
    ensures
        e == else_index(*n),
        2 <= e <= n.children@.len(),
        e < n.children@.len() ==> n.children@[e as int].rule == Rule::ElseCond,
{
    let mut i: usize = 2;
    while i < n.children.len()
        invariant
            2 <= i <= n.children@.len(),
            else_from(n.children@, 2) == else_from(n.children@, i as int),
        decreases n.children@.len() - i,
    {
        if n.children[i].rule == Rule::ElseCond {
            return i;
        }
        i = i + 1;
    }
    i
}

/// Lowers `parent`'s children `from..to`, in order.
pub fn lower_children(parent: &Node, from: usize, to: usize) -> (r: Result<
    Vec<Instruction>,
    LowerError,
>)
    requires
        from <= to <= parent.children@.len(),
    ensures
        r is Ok <==> forall|k: int| from <= k < to ==> lower_ok(#[trigger] parent.children@[k]),
        r matches Ok(v) ==> v@.len() == to - from && forall|k: int|
            0 <= k < v@.len() ==> lowers_to(parent.children@[from + k], #[trigger] v@[k]),
        r matches Err(e) ==> from <= first_failing(parent.children@, from as int, to as int) < to
            && e == instr_error(parent.children@[first_failing(parent.children@, from as int, to as int)]),
    decreases parent, 0usize,
{
    let mut out: Vec<Instruction> = Vec::new();
    let mut i: usize = from;
    while i < to
        invariant
            from <= i <= to <= parent.children@.len(),
            forall|k: int| from <= k < i ==> lower_ok(#[trigger] parent.children@[k]),
            first_failing(parent.children@, from as int, to as int) == first_failing(
                parent.children@,
                i as int,
                to as int,
            ),
            out@.len() == i - from,
            forall|k: int|
                0 <= k < out@.len() ==> lowers_to(parent.children@[from + k], #[trigger] out@[k]),
        decreases to - i,
    {
        let ins = lower_instr(&parent.children[i])?;
        out.push(ins);
        i = i + 1;
    }
    Ok(out)
}

/// The module path token of an import node.
pub open spec fn import_path_token(n: Node) -> Seq<char> {
    if n.children@[1].rule == Rule::FuncAlias {
        n.children@[2].text@
    } else {
        n.children@[1].text@
    }
}

/// A delimited token without its first and last characters.
pub open spec fn unquote(s: Seq<char>) -> Seq<char> {
    s.subrange(1, s.len() - 1)
}

pub open spec fn import_ok(n: Node) -> bool {
    let ch = n.children@;
    ch.len() >= 2 && (ch[1].rule == Rule::FuncAlias ==> ch.len() >= 3) && import_path_token(n).len()
        >= 2
}

/// `import name [as alias] "path"`: the alias falls back to the name.
pub open spec fn import_lowers(n: Node, imp: Import) -> bool {
    let ch = n.children@;
    &&& imp.origin_name@ == ch[0].text@
    &&& imp.alias@ == (if ch[1].rule == Rule::FuncAlias {
        ch[1].text@
    } else {
        ch[0].text@
    })
    &&& imp.module@ == unquote(import_path_token(n))
}

pub open spec fn export_ok(n: Node) -> bool {
    n.children@.len() >= 1
}

/// `export name [alias]`: the alias falls back to the name.
pub open spec fn export_lowers(n: Node, e: Export) -> bool {
    let ch = n.children@;
    &&& e.origin_name@ == ch[0].text@
    &&& e.alias@ == (if ch.len() >= 2 {
        ch[1].text@
    } else {
        ch[0].text@
    })
}

/// The value of a constant's literal: always decimal.
pub open spec fn const_value(s: Seq<char>) -> Option<int> {
    parse_in(s, 10, i32::MIN as int, i32::MAX as int)
}

pub open spec fn const_ok(n: Node) -> bool {
    n.children@.len() >= 2 && const_value(n.children@[1].text@) is Some
}

pub open spec fn const_lowers(n: Node, c: Const) -> bool {
    c.name@ == n.children@[0].text@ && const_value(n.children@[1].text@) == Some(c.value as int)
}

pub open spec fn func_ok(n: Node) -> bool {
    let ch = n.children@;
    ch.len() >= 1 && forall|k: int| 1 <= k < ch.len() ==> lower_ok(#[trigger] ch[k])
}

/// A function: its name, then its instructions in order.
pub open spec fn func_lowers(n: Node, f: Func) -> bool {
    let ch = n.children@;
    &&& f.name@ == ch[0].text@
    &&& f.instr@.len() == ch.len() - 1
    &&& forall|k: int| 0 <= k < f.instr@.len() ==> lowers_to(ch[k + 1], #[trigger] f.instr@[k])
}

/// The nodes of `s` that matched rule `r`, in order.
pub open spec fn of_rule(s: Seq<Node>, r: Rule) -> Seq<Node>
    decreases s.len(),
{
    if s.len() == 0 {
        s
    } else if s.last().rule == r {
        of_rule(s.drop_last(), r).push(s.last())
    } else {
        of_rule(s.drop_last(), r)
    }
}

pub open spec fn item_ok(n: Node) -> bool {
    match n.rule {
        Rule::Import => import_ok(n),
        Rule::Export => export_ok(n),
        Rule::Constant => const_ok(n),
        Rule::Func => func_ok(n),
        _ => false,
    }
}

pub open spec fn module_ok(items: Seq<Node>) -> bool {
    forall|k: int| 0 <= k < items.len() ==> item_ok(#[trigger] items[k])
}

/// `m` is the source module `path` whose top-level items are `items`: each list
/// holds the items of its rule, lowered, in source order.
pub open spec fn module_lowers(path: Seq<char>, items: Seq<Node>, m: Module) -> bool {
    match m {
        Module::Source { path: p, imports, exports, constants, funcs } => {
            let is = of_rule(items, Rule::Import);
            let es = of_rule(items, Rule::Export);
            let cs = of_rule(items, Rule::Constant);
            let fs = of_rule(items, Rule::Func);
            &&& p@ == path
            &&& imports@.len() == is.len()
            &&& forall|k: int| 0 <= k < is.len() ==> import_lowers(is[k], #[trigger] imports@[k])
            &&& exports@.len() == es.len()
            &&& forall|k: int| 0 <= k < es.len() ==> export_lowers(es[k], #[trigger] exports@[k])
            &&& constants@.len() == cs.len()
            &&& forall|k: int| 0 <= k < cs.len() ==> const_lowers(cs[k], #[trigger] constants@[k])
            &&& funcs@.len() == fs.len()
            &&& forall|k: int| 0 <= k < fs.len() ==> func_lowers(fs[k], #[trigger] funcs@[k])
        },
        Module::Lib { .. } => false,
    }
}

/// The error of an import node that does not lower.
pub open spec fn import_error(n: Node) -> LowerError {
    if n.children@.len() < 2 || (n.children@[1].rule == Rule::FuncAlias && n.children@.len() < 3) {
        LowerError::MissingNode { rule: n.rule }
    } else {
        LowerError::MalformedModulePath { token: if n.children@[1].rule == Rule::FuncAlias {
            n.children@[2].text
        } else {
            n.children@[1].text
        } }
    }
}

/// The error of a constant node that does not lower.
pub open spec fn const_error(n: Node) -> LowerError {
    if n.children@.len() < 2 {
        LowerError::MissingNode { rule: n.rule }
    } else {
        LowerError::MalformedLiteral { literal: n.children@[1].text }
    }
}

/// The error of a function node that does not lower: that of its first
/// instruction that does not lower.
pub open spec fn func_error(n: Node) -> LowerError {
    let ch = n.children@;
    if ch.len() < 1 {
        LowerError::MissingNode { rule: n.rule }
    } else {
        instr_error(ch[first_failing(ch, 1, ch.len() as int)])
    }
}

/// The error of a top-level item that does not lower.
pub open spec fn item_error(n: Node) -> LowerError {
    match n.rule {
        Rule::Import => import_error(n),
        Rule::Export => LowerError::MissingNode { rule: n.rule },
        Rule::Constant => const_error(n),
        Rule::Func => func_error(n),
        _ => LowerError::UnexpectedNode { rule: n.rule },
    }
}

/// Index of the first item among `items[k..]` that does not lower, or `items.len()`.
pub open spec fn first_bad_item(items: Seq<Node>, k: int) -> int
    decreases items.len() - k,
{
    if k >= items.len() {
        items.len() as int
    } else if !item_ok(items[k]) {
        k
    } else {
        first_bad_item(items, k + 1)
    }
}

/// Lowers an import node.
pub fn lower_import(n: &Node) -> (r: Result<Import, LowerError>)
    ensures
        r is Ok <==> import_ok(*n),
        r matches Ok(imp) ==> import_lowers(*n, imp),
        r matches Err(e) ==> e == import_error(*n),
{
    let len = n.children.len();
    if len < 2 {
        return Err(LowerError::MissingNode { rule: n.rule });
    }
    let name = &n.children[0].text;
    let after = &n.children[1];
    let (alias, token) = if after.rule == Rule::FuncAlias {
        if len < 3 {
            return Err(LowerError::MissingNode { rule: n.rule });
        }
        (after.text.clone(), &n.children[2].text)
    } else {
        (name.clone(), &after.text)
    };
    let tok = token.as_str();
    let tlen = tok.unicode_len();
    if tlen < 2 {
        return Err(LowerError::MalformedModulePath { token: token.clone() });
    }
    let module = tok.substring_char(1, tlen - 1).to_owned();
    Ok(Import { origin_name: name.clone(), alias, module })
}

/// Lowers an export node.
pub fn lower_export(n: &Node) -> (r: Result<Export, LowerError>)
    ensures
        r is Ok <==> export_ok(*n),
        r matches Ok(e) ==> export_lowers(*n, e),
        r is Err ==> r == Err::<Export, LowerError>(LowerError::MissingNode { rule: n.rule }),
{
    let len = n.children.len();
    if len < 1 {
        return Err(LowerError::MissingNode { rule: n.rule });
    }
    let name = n.children[0].text.clone();
    let alias = if len >= 2 {
        n.children[1].text.clone()
    } else {
        name.clone()
    };
    Ok(Export { origin_name: name, alias })
}

/// Lowers a constant node; its literal is read as decimal only.
pub fn lower_constant(n: &Node) -> (r: Result<Const, LowerError>)
    ensures
        r is Ok <==> const_ok(*n),
        r matches Ok(c) ==> const_lowers(*n, c),
        r matches Err(e) ==> e == const_error(*n),
{
    if n.children.len() < 2 {
        return Err(LowerError::MissingNode { rule: n.rule });
    }
    let lit = &n.children[1].text;
    match parse_integer(lit.as_str(), 10, i32::MIN as i64, i32::MAX as i64) {
        Some(v) => Ok(Const { name: n.children[0].text.clone(), value: v as i32 }),
        None => Err(LowerError::MalformedLiteral { literal: lit.clone() }),
    }
}

/// Lowers a function node.
pub fn lower_func(n: &Node) -> (r: Result<Func, LowerError>)
    ensures
        r is Ok <==> func_ok(*n),
        r matches Ok(f) ==> func_lowers(*n, f),
        r matches Err(e) ==> e == func_error(*n),
{
    let len = n.children.len();
    if len < 1 {
        return Err(LowerError::MissingNode { rule: n.rule });
    }
    let instr = lower_children(n, 1, len)?;
    Ok(Func { name: n.children[0].text.clone(), instr })
}

/// Lowers the top-level items of the source module `path`.
pub fn lower_module(path: String, items: &Vec<Node>) -> (r: Result<Module, LowerError>)
    ensures
        r is Ok <==> module_ok(items@),
        r matches Ok(m) ==> module_lowers(path@, items@, m),
        r matches Err(e) ==> 0 <= first_bad_item(items@, 0) < items@.len() && e == item_error(
            items@[first_bad_item(items@, 0)],
        ),
{
    let mut imports: Vec<Import> = Vec::new();
    let mut exports: Vec<Export> = Vec::new();
    let mut constants: Vec<Const> = Vec::new();
    let mut funcs: Vec<Func> = Vec::new();
    let mut i: usize = 0;
    while i < items.len()
        invariant
            i <= items@.len(),
            forall|k: int| 0 <= k < i ==> item_ok(#[trigger] items@[k]),
            first_bad_item(items@, 0) == first_bad_item(items@, i as int),
            imports@.len() == of_rule(items@.subrange(0, i as int), Rule::Import).len(),
            forall|k: int|
                0 <= k < imports@.len() ==> import_lowers(
                    of_rule(items@.subrange(0, i as int), Rule::Import)[k],
                    #[trigger] imports@[k],
                ),
            exports@.len() == of_rule(items@.subrange(0, i as int), Rule::Export).len(),
            forall|k: int|
                0 <= k < exports@.len() ==> export_lowers(
                    of_rule(items@.subrange(0, i as int), Rule::Export)[k],
                    #[trigger] exports@[k],
                ),
            constants@.len() == of_rule(items@.subrange(0, i as int), Rule::Constant).len(),
            forall|k: int|
                0 <= k < constants@.len() ==> const_lowers(
                    of_rule(items@.subrange(0, i as int), Rule::Constant)[k],
                    #[trigger] constants@[k],
                ),
            funcs@.len() == of_rule(items@.subrange(0, i as int), Rule::Func).len(),
            forall|k: int|
                0 <= k < funcs@.len() ==> func_lowers(
                    of_rule(items@.subrange(0, i as int), Rule::Func)[k],
                    #[trigger] funcs@[k],
                ),
        decreases items@.len() - i,
    {
        let ghost pre = items@.subrange(0, i as int);
        let ghost post = items@.subrange(0, i + 1);
        assert(post.drop_last() =~= pre);
        assert(post.last() == items@[i as int]);
        let n = &items[i];
        match n.rule {
            Rule::Import => {
                let imp = lower_import(n)?;
                imports.push(imp);
            },
            Rule::Export => {
                let e = lower_export(n)?;
                exports.push(e);
            },
            Rule::Constant => {
                let c = lower_constant(n)?;
                constants.push(c);
            },
            Rule::Func => {
                let f = lower_func(n)?;
                funcs.push(f);
            },
            _ => {
                return Err(LowerError::UnexpectedNode { rule: n.rule });
            },
        }
        i = i + 1;
    }
    assert(items@.subrange(0, i as int) =~= items@);
    Ok(Module::Source { path, imports, exports, constants, funcs })
}

/// An import without an alias token binds the imported symbol under its own name.
pub proof fn lemma_import_default_alias(n: Node, imp: Import)
    requires
        import_ok(n),
        n.children@[1].rule != Rule::FuncAlias,
        import_lowers(n, imp),
    ensures
        imp.alias@ == imp.origin_name@,
        imp.module@ == unquote(n.children@[1].text@),
{
}

/// An export without an alias token is exported under its own name.
pub proof fn lemma_export_default_alias(n: Node, e: Export)
    requires
        export_ok(n),
        n.children@.len() == 1,
        export_lowers(n, e),
    ensures
        e.alias@ == e.origin_name@,
{
}

/// A `load` or `store` with an operand lowers to the direct form carrying the
/// lowered operand; one without lowers to the indirect form.
pub proof fn lemma_memory_op_form(n: Node, i: Instruction)
    requires
        n.rule == Rule::Load || n.rule == Rule::Store,
        lowers_to(n, i),
    ensures
        n.children@.len() >= 2 && n.rule == Rule::Load ==> (i matches Instruction::Load(t, a)
            && Some(t) == kind_of(n, 0) && arg_u16(n.children@[1], a)),
        n.children@.len() >= 2 && n.rule == Rule::Store ==> (i matches Instruction::Store(t, a)
            && Some(t) == kind_of(n, 0) && arg_u16(n.children@[1], a)),
        n.children@.len() < 2 && n.rule == Rule::Load ==> i == Instruction::LoadIndirect(
            kind_of(n, 0)->0,
        ),
        n.children@.len() < 2 && n.rule == Rule::Store ==> i == Instruction::StoreIndirect(
            kind_of(n, 0)->0,
        ),
{
}

proof fn lemma_else_from_marker(ch: Seq<Node>, k: int, e: int)
    requires
        0 <= k <= e < ch.len(),
        ch[e].rule == Rule::ElseCond,
        forall|x: int| k <= x < e ==> (#[trigger] ch[x]).rule != Rule::ElseCond,
    ensures
        else_from(ch, k) == e,
    decreases e - k,
{
    if k < e {
        lemma_else_from_marker(ch, k + 1, e);
    }
}

/// An `if` whose children after the condition and kind are instructions up to
/// an else marker lowers to a then-branch of exactly those instructions and an
/// else-branch of exactly the marker's children.
pub proof fn lemma_if_else_split(n: Node, i: Instruction, e: int)
    requires
        n.rule == Rule::IfCond,
        2 <= e < n.children@.len(),
        n.children@[e].rule == Rule::ElseCond,
        forall|x: int| 2 <= x < e ==> (#[trigger] n.children@[x]).rule != Rule::ElseCond,
        lowers_to(n, i),
    ensures
        match i {
            Instruction::If(If(_, _, th, Some(ev))) => th@.len() == e - 2 && (forall|x: int|
                0 <= x < th@.len() ==> lowers_to(n.children@[x + 2], #[trigger] th@[x]))
                && ev@.len() == n.children@[e].children@.len() && forall|x: int|
                0 <= x < ev@.len() ==> lowers_to(n.children@[e].children@[x], #[trigger] ev@[x]),
            _ => false,
        },
{
    lemma_else_from_marker(n.children@, 2, e);
}

/// An `if` with no else marker lowers to a then-branch of all its instructions and no else-branch.
pub proof fn lemma_if_without_else(n: Node, i: Instruction)
    requires
        n.rule == Rule::IfCond,
        forall|x: int| 2 <= x < n.children@.len() ==> (#[trigger] n.children@[x]).rule != Rule::ElseCond,
        lowers_to(n, i),
    ensures
        match i {
            Instruction::If(If(_, _, th, None)) => th@.len() == n.children@.len() - 2 && forall|x: int|
                0 <= x < th@.len() ==> lowers_to(n.children@[x + 2], #[trigger] th@[x]),
            _ => false,
        },
{
    lemma_else_from_end(n.children@, 2);
}

proof fn lemma_else_from_end(ch: Seq<Node>, k: int)
    requires
        0 <= k,
        forall|x: int| k <= x < ch.len() ==> (#[trigger] ch[x]).rule != Rule::ElseCond,
    ensures
        else_from(ch, k) == ch.len(),
    decreases ch.len() - k,
{
    if k < ch.len() {
        lemma_else_from_end(ch, k + 1);
    }
}

} // verus!
