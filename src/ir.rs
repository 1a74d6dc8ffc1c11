//! The program representation handed to the code generator.

use vstd::prelude::*;

verus! {

/// Width and signedness of the integers an instruction works on.
#[derive(Clone, Copy, Debug, PartialEq, Eq, Structural)]
pub enum IntegerType {
    U8,
    U16,
    I8,
    I16,
}

/// The registers that can be pushed onto the evaluation stack.
#[derive(Clone, Copy, Debug, PartialEq, Eq, Structural)]
pub enum Register {
    StackPtr,
    BasePtr,
}

/// The flag state that gates a `while` or an `if`.
#[derive(Clone, Copy, Debug, PartialEq, Eq, Structural)]
pub enum IfCond {
    Positive,
    Negative,
    Zero,
    NotZero,
}

/// An operand: a named constant resolved later, or a literal value.
#[derive(Clone, Debug, PartialEq, Eq)]
pub enum Argument<T> {
    Constant(String),
    Literal(T),
}

/// `while (condition, kind) { body }`.
#[derive(Debug, PartialEq, Eq)]
pub struct While(pub IfCond, pub IntegerType, pub Vec<Instruction>);

/// `if (condition, kind) { then } else { else }`; no else branch means fall through.
#[derive(Debug, PartialEq, Eq)]
pub struct If(pub IfCond, pub IntegerType, pub Vec<Instruction>, pub Option<Vec<Instruction>>);

#[derive(Debug, PartialEq, Eq)]
pub enum Instruction {
    PushConstU8(Argument<u8>),
    PushConstU16(Argument<u16>),
    PushConstI8(Argument<i8>),
    PushConstI16(Argument<i16>),
    Add(IntegerType),
    Sub(IntegerType),
    Mul(IntegerType),
    Div(IntegerType),
    Shr(IntegerType),
    Shl(IntegerType),
    And(IntegerType),
    Or(IntegerType),
    Xor(IntegerType),
    Not(IntegerType),
    Neg(IntegerType),
    Inc(IntegerType),
    Dec(IntegerType),
    U8Promote,
    U16Demote,
    I8Promote,
    I16Demote,
    LoadReg(Register),
    Load(IntegerType, Argument<u16>),
    LoadIndirect(IntegerType),
    Store(IntegerType, Argument<u16>),
    StoreIndirect(IntegerType),
    Dup(IntegerType),
    Drop(IntegerType),
    Sys(String),
    Call(String),
    Ret,
    Alloc(Argument<u16>),
    Free,
    While(While),
    If(If),
}

/// `import origin_name [as alias] from "module"`.
#[derive(Clone, Debug, PartialEq, Eq)]
pub struct Import {
    pub origin_name: String,
    pub alias: String,
    pub module: String,
}

/// `export origin_name [as alias]`.
#[derive(Clone, Debug, PartialEq, Eq)]
pub struct Export {
    pub origin_name: String,
    pub alias: String,
}

/// A named numeric constant; its width is decided where it is used.
#[derive(Clone, Debug, PartialEq, Eq)]
pub struct Const {
    pub name: String,
    pub value: i32,
}

#[derive(Debug, PartialEq, Eq)]
pub struct Func {
    pub name: String,
    pub instr: Vec<Instruction>,
}

/// A compiled module: lowered from source text, or a precompiled library,
/// which this layer identifies by the path of its artifact.
#[derive(Debug, PartialEq, Eq)]
pub enum Module {
    Source {
        path: String,
        imports: Vec<Import>,
        exports: Vec<Export>,
        constants: Vec<Const>,
        funcs: Vec<Func>,
    },
    Lib {
        path: String,
    },
}

/// Lexicographic order on paths, character by character (the order of `str`).
pub open spec fn path_lt(a: Seq<char>, b: Seq<char>) -> bool
    decreases a.len(),
{
    if a.len() == 0 {
        b.len() > 0
    } else if b.len() == 0 {
        false
    } else if a[0] != b[0] {
        a[0] < b[0]
    } else {
        path_lt(a.drop_first(), b.drop_first())
    }
}

/// The paths of `s` strictly increase.
pub open spec fn sorted_by_path(s: Seq<(String, Module)>) -> bool {
    forall|i: int, j: int| 0 <= i < j < s.len() ==> path_lt(#[trigger] s[i].0@, #[trigger] s[j].0@)
}

/// Of two different paths, one comes first.
pub proof fn lemma_path_lt_total(a: Seq<char>, b: Seq<char>)
    requires
        a != b,
    ensures
        path_lt(a, b) || path_lt(b, a),
    decreases a.len(),
{
    if a.len() > 0 && b.len() > 0 && a[0] == b[0] {
        assert(a.drop_first() != b.drop_first()) by {
            if a.drop_first() == b.drop_first() {
                assert(a =~= seq![a[0]] + a.drop_first());
                assert(b =~= seq![b[0]] + b.drop_first());
            }
        }
        lemma_path_lt_total(a.drop_first(), b.drop_first());
    } else if a.len() > 0 && b.len() > 0 {
    } else if a.len() == 0 && b.len() == 0 {
        assert(a =~= b);
    }
}

pub proof fn lemma_path_lt_trans(a: Seq<char>, b: Seq<char>, c: Seq<char>)
    requires
        path_lt(a, b),
        path_lt(b, c),
    ensures
        path_lt(a, c),
    decreases a.len(),
{
    if a.len() > 0 && b.len() > 0 && c.len() > 0 && a[0] == b[0] && b[0] == c[0] {
        lemma_path_lt_trans(a.drop_first(), b.drop_first(), c.drop_first());
    }
}

pub proof fn lemma_path_lt_irreflexive(a: Seq<char>)
    ensures
        !path_lt(a, a),
    decreases a.len(),
{
    if a.len() > 0 {
        lemma_path_lt_irreflexive(a.drop_first());
    }
}

/// `a` comes before `b` in path order.
pub fn path_less(a: &String, b: &String) -> (r: bool)
    ensures
        r == path_lt(a@, b@),
{
    let sa = a.as_str();
    let sb = b.as_str();
    let na = sa.unicode_len();
    let nb = sb.unicode_len();
    let mut i: usize = 0;
    assert(a@.subrange(0, na as int) =~= a@);
    assert(b@.subrange(0, nb as int) =~= b@);
    while i < na && i < nb
        invariant
            sa@ == a@,
            sb@ == b@,
            na == a@.len(),
            nb == b@.len(),
            i <= na,
            i <= nb,
            path_lt(a@, b@) == path_lt(
                a@.subrange(i as int, na as int),
                b@.subrange(i as int, nb as int),
            ),
        decreases na - i,
    {
        let ca = sa.get_char(i);
        let cb = sb.get_char(i);
        let ghost ra = a@.subrange(i as int, na as int);
        let ghost rb = b@.subrange(i as int, nb as int);
        assert(ra[0] == ca && rb[0] == cb);
        if ca != cb {
            return ca < cb;
        }
        assert(ra.drop_first() =~= a@.subrange(i + 1, na as int));
        assert(rb.drop_first() =~= b@.subrange(i + 1, nb as int));
        i = i + 1;
    }
    assert(a@.subrange(i as int, na as int).len() == na - i);
    i == na && i < nb
}

/// The whole program: each compiled module under the path it was requested by,
/// in path order.
#[derive(Debug, PartialEq, Eq)]
pub struct Ast {
    pub modules: Vec<(String, Module)>,
}

impl Ast {
    /// The paths the modules are held under.
    pub open spec fn paths(&self) -> Seq<Seq<char>> {
        self.modules@.map_values(|e: (String, Module)| e.0@)
    }

    /// The modules are in strictly increasing path order.
    pub open spec fn is_sorted(&self) -> bool {
        sorted_by_path(self.modules@)
    }

    /// The module held under `path`, if any.
    pub fn get(&self, path: &String) -> (r: Option<&Module>)
        ensures
            r is None <==> !self.paths().contains(path@),
            r matches Some(m) ==> exists|i: int|
                0 <= i < self.modules@.len() && self.modules@[i].0@ == path@
                    && self.modules@[i].1 == *m,
    {
        let mut i: usize = 0;
        while i < self.modules.len()
            invariant
                0 <= i <= self.modules@.len(),
                forall|j: int| 0 <= j < i ==> self.modules@[j].0@ != path@,
            decreases self.modules@.len() - i,
        {
            if self.modules[i].0 == *path {
                assert(self.paths()[i as int] == path@);
                return Some(&self.modules[i].1);
            }
            i = i + 1;
        }
        proof {
            if self.paths().contains(path@) {
                let k = choose|k: int| 0 <= k < self.paths().len() && self.paths()[k] == path@;
                assert(self.modules@[k].0@ == path@);
            }
        }
        None
    }
}

} // verus!
