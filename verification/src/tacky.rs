//! Lowering from the syntax tree to three-address code.
//!
//! `sp_lower_expr` is the specification-level lowering: it flattens a
//! nested expression into a straight-line instruction sequence in which
//! every operand is a literal constant or a previously assigned
//! temporary, threading a counter that names fresh temporaries
//! `__tmp.<n>`. The executable `TackyGen` is proven to produce exactly
//! that sequence, and the lemmas at the end establish that the result
//! is in static single assignment form with temporaries numbered in
//! first-definition order.
use crate::ast;
use crate::decimal::dec_nat;
use crate::decimal::lemma_dec_nat_injective;
use crate::decimal::push_dec_u64;
use vstd::prelude::*;
use vstd::string::*;

verus! {

#[derive(Debug, PartialEq, Eq)]
pub struct Program {
    pub function: Function,
}

#[derive(Debug, PartialEq, Eq)]
pub struct Function {
    pub name: String,
    pub body: Vec<Instruction>,
}

#[allow(inconsistent_fields)]
#[derive(Debug, PartialEq, Eq)]
pub enum Instruction {
    Return(Value),
    Unary { operator: UnaryOperator, src: Value, dst: Value },
    Binary { operator: BinaryOperator, left: Value, right: Value, dst: Value },
}

#[derive(Debug, PartialEq, Eq)]
pub enum Value {
    Constant(i32),
    Var(String),
}

#[derive(Clone, Copy, Debug, PartialEq, Eq)]
pub enum UnaryOperator {
    Complement,
    Negate,
}

#[derive(Clone, Copy, Debug, PartialEq, Eq)]
pub enum BinaryOperator {
    Add,
    Subtract,
    Multiply,
    Divide,
    Remainder,
}

impl Clone for Value {
    fn clone(&self) -> (r: Value)
        ensures
            r@ == self@,
    {
        match self {
            Value::Constant(n) => Value::Constant(*n),
            Value::Var(s) => Value::Var(s.clone()),
        }
    }
}

/// The mathematical model of a `Value`.
pub enum ValueView {
    Constant(i32),
    Var(Seq<char>),
}

/// The mathematical model of an `Instruction`.
#[allow(inconsistent_fields)]
pub enum InstructionView {
    Return(ValueView),
    Unary { operator: UnaryOperator, src: ValueView, dst: ValueView },
    Binary { operator: BinaryOperator, left: ValueView, right: ValueView, dst: ValueView },
}

/// The mathematical model of a `Function`.
pub struct FunctionView {
    pub name: Seq<char>,
    pub body: Seq<InstructionView>,
}

/// The mathematical model of a `Program`.
pub struct ProgramView {
    pub function: FunctionView,
}

impl View for Value {
    type V = ValueView;

    open spec fn view(&self) -> ValueView {
        match self {
            Value::Constant(n) => ValueView::Constant(*n),
            Value::Var(s) => ValueView::Var(s@),
        }
    }
}

impl View for Instruction {
    type V = InstructionView;

    open spec fn view(&self) -> InstructionView {
        match self {
            Instruction::Return(v) => InstructionView::Return(v@),
            Instruction::Unary { operator, src, dst } => InstructionView::Unary {
                operator: *operator,
                src: src@,
                dst: dst@,
            },
            Instruction::Binary { operator, left, right, dst } => InstructionView::Binary {
                operator: *operator,
                left: left@,
                right: right@,
                dst: dst@,
            },
        }
    }
}

impl View for Function {
    type V = FunctionView;

    open spec fn view(&self) -> FunctionView {
        FunctionView { name: self.name@, body: instructions_view(self.body@) }
    }
}

impl View for Program {
    type V = ProgramView;

    open spec fn view(&self) -> ProgramView {
        ProgramView { function: self.function@ }
    }
}

/// The view of an executable instruction vector.
pub open spec fn instructions_view(v: Seq<Instruction>) -> Seq<InstructionView> {
    v.map_values(|i: Instruction| i@)
}

/// The unary operator of the intermediate representation for a syntax
/// tree operator.
pub open spec fn spec_unary_op(op: ast::UnaryOperation) -> UnaryOperator {
    match op {
        ast::UnaryOperation::Complement => UnaryOperator::Complement,
        ast::UnaryOperation::Negate => UnaryOperator::Negate,
    }
}

/// The binary operator of the intermediate representation for a syntax
/// tree operator.
pub open spec fn spec_binary_op(op: ast::BinaryOperation) -> BinaryOperator {
    match op {
        ast::BinaryOperation::Add => BinaryOperator::Add,
        ast::BinaryOperation::Subtract => BinaryOperator::Subtract,
        ast::BinaryOperation::Multiply => BinaryOperator::Multiply,
        ast::BinaryOperation::Divide => BinaryOperator::Divide,
        ast::BinaryOperation::Remainder => BinaryOperator::Remainder,
    }
}

impl UnaryOperator {
    /// The intermediate-representation operator for a syntax tree one.
    pub fn from_ast(op: ast::UnaryOperation) -> (r: UnaryOperator)
        ensures
            r == spec_unary_op(op),
    {
        match op {
            ast::UnaryOperation::Complement => UnaryOperator::Complement,
            ast::UnaryOperation::Negate => UnaryOperator::Negate,
        }
    }
}

impl BinaryOperator {
    /// The intermediate-representation operator for a syntax tree one.
    pub fn from_ast(op: ast::BinaryOperation) -> (r: BinaryOperator)
        ensures
            r == spec_binary_op(op),
    {
        match op {
            ast::BinaryOperation::Add => BinaryOperator::Add,
            ast::BinaryOperation::Subtract => BinaryOperator::Subtract,
            ast::BinaryOperation::Multiply => BinaryOperator::Multiply,
            ast::BinaryOperation::Divide => BinaryOperator::Divide,
            ast::BinaryOperation::Remainder => BinaryOperator::Remainder,
        }
    }
}

/// The name of the `n`-th temporary: `__tmp.<n>`.
pub open spec fn temp_name(n: nat) -> Seq<char> {
    seq!['_', '_', 't', 'm', 'p', '.'] + dec_nat(n)
}

pub proof fn lemma_temp_name_injective(a: nat, b: nat)
    requires
        temp_name(a) == temp_name(b),
    ensures
        a == b,
{
    assert(dec_nat(a) =~= temp_name(a).skip(6));
    assert(dec_nat(b) =~= temp_name(b).skip(6));
    lemma_dec_nat_injective(a, b);
}

/// Number of operations in an expression: the number of temporaries
/// its lowering allocates.
pub open spec fn count_ops(e: ast::Expression) -> nat
    decreases e,
{
    match e {
        ast::Expression::Constant(_) => 0,
        ast::Expression::Unary(_, inner) => 1 + count_ops(*inner),
        ast::Expression::Binary(_, l, r) => 1 + count_ops(*l) + count_ops(*r),
    }
}

/// Number of temporaries a statement's lowering allocates.
pub open spec fn count_ops_stmt(s: ast::Statement) -> nat {
    match s {
        ast::Statement::Return(e) => count_ops(e),
    }
}

/// The specification-level lowering of an expression, given the next
/// free temporary number: the emitted instructions, the value holding
/// the result, and the next free temporary number afterwards.
pub open spec fn sp_lower_expr(e: ast::Expression, counter: nat) -> (Seq<InstructionView>, ValueView, nat)
    decreases e,
{
    match e {
        ast::Expression::Constant(n) => (Seq::empty(), ValueView::Constant(n), counter),
        ast::Expression::Unary(op, inner) => {
            let (instrs, src, c1) = sp_lower_expr(*inner, counter);
            let dst = ValueView::Var(temp_name(c1));
            (
                instrs + seq![InstructionView::Unary { operator: spec_unary_op(op), src, dst }],
                dst,
                c1 + 1,
            )
        },
        ast::Expression::Binary(op, l, r) => {
            let (li, lv, c1) = sp_lower_expr(*l, counter);
            let (ri, rv, c2) = sp_lower_expr(*r, c1);
            let dst = ValueView::Var(temp_name(c2));
            (
                li + ri + seq![
                    InstructionView::Binary {
                        operator: spec_binary_op(op),
                        left: lv,
                        right: rv,
                        dst,
                    },
                ],
                dst,
                c2 + 1,
            )
        },
    }
}

/// The specification-level lowering of a statement: the expression's
/// instructions followed by `Return` of its value.
pub open spec fn sp_lower_stmt(s: ast::Statement, counter: nat) -> (Seq<InstructionView>, nat) {
    match s {
        ast::Statement::Return(e) => {
            let (instrs, v, c) = sp_lower_expr(e, counter);
            (instrs + seq![InstructionView::Return(v)], c)
        },
    }
}

/// The specification-level lowering of a function definition, with the
/// temporary counter starting at zero.
pub open spec fn sp_lower_function(f: ast::FunctionDefinitionView) -> FunctionView {
    FunctionView { name: f.name, body: sp_lower_stmt(f.body, 0).0 }
}

/// The specification-level lowering of a whole program.
pub open spec fn sp_lower_program(p: ast::ProgramView) -> ProgramView {
    ProgramView { function: sp_lower_function(p.function_definition) }
}

/// Lowering advances the temporary counter by exactly the number of
/// operations in the expression, and emits one instruction per
/// operation.
pub proof fn lemma_lower_counter(e: ast::Expression, counter: nat)
    ensures
        sp_lower_expr(e, counter).2 == counter + count_ops(e),
        sp_lower_expr(e, counter).0.len() == count_ops(e),
    decreases e,
{
    match e {
        ast::Expression::Constant(_) => {},
        ast::Expression::Unary(_, inner) => {
            lemma_lower_counter(*inner, counter);
        },
        ast::Expression::Binary(_, l, r) => {
            lemma_lower_counter(*l, counter);
            lemma_lower_counter(*r, sp_lower_expr(*l, counter).2);
        },
    }
}

/// Lowers a whole program, naming temporaries from zero.
pub fn tacky(program: ast::Program) -> (r: Program)
    requires
        count_ops_stmt(program.function_definition.body) <= u64::MAX,
    ensures
        r@ == sp_lower_program(program@),
{
    let mut t = TackyGen::new();
    t.program(program)
}

/// The lowering state: the number of the next fresh temporary.
pub struct TackyGen {
    pub counter: u64,
}

impl TackyGen {
    /// A fresh lowering state, starting the temporaries at zero.
    pub fn new() -> (r: TackyGen)
        ensures
            r.counter == 0,
    {
        TackyGen { counter: 0 }
    }

    fn program(&mut self, ast: ast::Program) -> (r: Program)
        requires
            old(self).counter + count_ops_stmt(ast.function_definition.body) <= u64::MAX,
            old(self).counter == 0,
        ensures
            r@ == sp_lower_program(ast@),
    {
        Program { function: self.function(ast.function_definition) }
    }

    fn function(&mut self, f: ast::FunctionDefinition) -> (r: Function)
        requires
            old(self).counter + count_ops_stmt(f.body) <= u64::MAX,
            old(self).counter == 0,
        ensures
            r@ == sp_lower_function(f@),
    {
        Function { name: f.name, body: self.instructions(f.body) }
    }

    /// Lowers one statement to its instruction sequence.
    pub fn instructions(&mut self, stmt: ast::Statement) -> (r: Vec<Instruction>)
        requires
            old(self).counter + count_ops_stmt(stmt) <= u64::MAX,
        ensures
            instructions_view(r@) == sp_lower_stmt(stmt, old(self).counter as nat).0,
            final(self).counter == sp_lower_stmt(stmt, old(self).counter as nat).1,
    {
        match stmt {
            ast::Statement::Return(expr) => {
                let ghost c0 = self.counter as nat;
                let mut instructions: Vec<Instruction> = Vec::new();
                let src = self.expression(expr, &mut instructions);
                let ghost pre = instructions_view(instructions@);
                instructions.push(Instruction::Return(src));
                proof {
                    let (instrs, v, c) = sp_lower_expr(expr, c0);
                    assert(instructions_view(instructions@) =~= pre + seq![
                        InstructionView::Return(v),
                    ]);
                    assert(pre =~= Seq::<InstructionView>::empty() + instrs);
                    assert(pre =~= instrs);
                }
                instructions
            },
        }
    }

    /// Lowers one expression: appends its instructions and returns the
    /// value holding its result.
    pub fn expression(&mut self, expr: ast::Expression, instructions: &mut Vec<Instruction>) -> (r:
        Value)
        requires
            old(self).counter + count_ops(expr) <= u64::MAX,
        ensures
            instructions_view(final(instructions)@) == instructions_view(old(instructions)@)
                + sp_lower_expr(expr, old(self).counter as nat).0,
            r@ == sp_lower_expr(expr, old(self).counter as nat).1,
            final(self).counter == sp_lower_expr(expr, old(self).counter as nat).2,
        decreases expr,
    {
        let ghost c0 = self.counter as nat;
        match expr {
            ast::Expression::Constant(n) => {
                proof {
                    assert(instructions_view(instructions@) =~= instructions_view(instructions@)
                        + Seq::<InstructionView>::empty());
                }
                Value::Constant(n)
            },
            ast::Expression::Unary(op, inner) => {
                proof {
                    lemma_lower_counter(*inner, c0);
                }
                let src = self.expression(*inner, instructions);
                let dst = self.make_temporary();
                let ghost pre = instructions_view(instructions@);
                let instruction = Instruction::Unary {
                    operator: UnaryOperator::from_ast(op),
                    src,
                    dst: dst.clone(),
                };
                let ghost iv = instruction@;
                instructions.push(instruction);
                proof {
                    assert(instructions_view(instructions@) =~= pre + seq![iv]);
                    let (instrs, srcv, c1) = sp_lower_expr(*inner, c0);
                    assert((instructions_view(old(instructions)@) + instrs) + seq![iv]
                        =~= instructions_view(old(instructions)@) + (instrs + seq![iv]));
                }
                dst
            },
            ast::Expression::Binary(op, l, r) => {
                proof {
                    lemma_lower_counter(*l, c0);
                    lemma_lower_counter(*r, sp_lower_expr(*l, c0).2);
                }
                let left = self.expression(*l, instructions);
                let right = self.expression(*r, instructions);
                let dst = self.make_temporary();
                let ghost pre = instructions_view(instructions@);
                let instruction = Instruction::Binary {
                    operator: BinaryOperator::from_ast(op),
                    left,
                    right,
                    dst: dst.clone(),
                };
                let ghost iv = instruction@;
                instructions.push(instruction);
                proof {
                    assert(instructions_view(instructions@) =~= pre + seq![iv]);
                    let (li, lv, c1) = sp_lower_expr(*l, c0);
                    let (ri, rv, c2) = sp_lower_expr(*r, c1);
                    assert(((instructions_view(old(instructions)@) + li) + ri) + seq![iv]
                        =~= instructions_view(old(instructions)@) + (li + ri + seq![iv]));
                }
                dst
            },
        }
    }

    /// Allocates the next temporary, named `__tmp.<counter>`.
    fn make_temporary(&mut self) -> (r: Value)
        requires
            old(self).counter < u64::MAX,
        ensures
            r@ == ValueView::Var(temp_name(old(self).counter as nat)),
            final(self).counter == old(self).counter + 1,
    {
        let c = self.counter;
        self.counter = self.counter + 1;
        let mut name = String::from_str("__tmp.");
        proof {
            reveal_strlit("__tmp.");
            assert("__tmp."@ =~= seq!['_', '_', 't', 'm', 'p', '.']);
        }
        push_dec_u64(&mut name, c);
        Value::Var(name)
    }
}

/// The destination temporary an instruction assigns, if any.
pub open spec fn inst_dst(i: InstructionView) -> Option<Seq<char>> {
    match i {
        InstructionView::Return(_) => None,
        InstructionView::Unary { dst: ValueView::Var(n), .. } => Some(n),
        InstructionView::Binary { dst: ValueView::Var(n), .. } => Some(n),
        _ => None,
    }
}

/// The variable names a value reads.
pub open spec fn val_uses(v: ValueView) -> Set<Seq<char>> {
    match v {
        ValueView::Constant(_) => Set::empty(),
        ValueView::Var(n) => Set::empty().insert(n),
    }
}

/// The variable names an instruction reads.
pub open spec fn inst_uses(i: InstructionView) -> Set<Seq<char>> {
    match i {
        InstructionView::Return(v) => val_uses(v),
        InstructionView::Unary { src, .. } => val_uses(src),
        InstructionView::Binary { left, right, .. } => val_uses(left).union(val_uses(right)),
    }
}

/// A lowered value is a constant, or the most recent temporary.
spec fn value_ok(v: ValueView, c: nat, c2: nat) -> bool {
    match v {
        ValueView::Constant(_) => c2 == c,
        ValueView::Var(n) => c2 > c && n == temp_name((c2 - 1) as nat),
    }
}

/// Every name in `s` is a temporary numbered in `[lo, hi)`.
spec fn uses_in_range(s: Set<Seq<char>>, lo: nat, hi: nat) -> bool {
    forall|n: Seq<char>| s.contains(n) ==> exists|j: nat| lo <= j < hi && n == #[trigger] temp_name(j)
}

proof fn lemma_uses_widen(s: Set<Seq<char>>, lo2: nat, hi2: nat, lo: nat, hi: nat)
    requires
        uses_in_range(s, lo2, hi2),
        lo <= lo2,
        hi2 <= hi,
    ensures
        uses_in_range(s, lo, hi),
{
    assert forall|n: Seq<char>| s.contains(n) implies exists|j: nat|
        lo <= j < hi && n == #[trigger] temp_name(j) by {
        let j = choose|j: nat| lo2 <= j < hi2 && n == #[trigger] temp_name(j);
        assert(lo <= j < hi && n == temp_name(j));
    }
}

/// The shape of a lowered expression: one instruction per operation,
/// the `i`-th defining temporary `counter + i`, every read referring to
/// an earlier temporary, and the result being a constant or the last
/// temporary.
proof fn lemma_lower_structure(e: ast::Expression, c: nat)
    ensures
        ({
            let (instrs, v, c2) = sp_lower_expr(e, c);
            &&& c2 == c + count_ops(e)
            &&& instrs.len() == count_ops(e)
            &&& value_ok(v, c, c2)
            &&& forall|i: int|
                0 <= i < instrs.len() ==> inst_dst(#[trigger] instrs[i]) == Some(
                    temp_name((c + i) as nat),
                )
            &&& forall|i: int|
                0 <= i < instrs.len() ==> uses_in_range(
                    inst_uses(#[trigger] instrs[i]),
                    c,
                    (c + i) as nat,
                )
        }),
    decreases e,
{
    match e {
        ast::Expression::Constant(_) => {},
        ast::Expression::Unary(op, inner) => {
            lemma_lower_structure(*inner, c);
            let (instrs0, src, c1) = sp_lower_expr(*inner, c);
            let u = InstructionView::Unary {
                operator: spec_unary_op(op),
                src,
                dst: ValueView::Var(temp_name(c1)),
            };
            let instrs = instrs0 + seq![u];
            assert(instrs[instrs0.len() as int] == u);
            assert(inst_dst(u) == Some(temp_name(c1)));
            assert forall|i: int| 0 <= i < instrs.len() implies uses_in_range(
                inst_uses(#[trigger] instrs[i]),
                c,
                (c + i) as nat,
            ) by {
                if i < instrs0.len() {
                    assert(instrs[i] == instrs0[i]);
                } else {
                    assert(instrs[i] == u);
                    match src {
                        ValueView::Constant(_) => {},
                        ValueView::Var(n) => {
                            assert(n == temp_name((c1 - 1) as nat));
                            assert(inst_uses(u).contains(n));
                            assert forall|m: Seq<char>| inst_uses(u).contains(m) implies exists|
                                j: nat,
                            |
                                c <= j < (c + i) as nat && m == #[trigger] temp_name(j) by {
                                assert(m == n);
                                let w = (c1 - 1) as nat;
                                assert(c <= w && w < (c + i) as nat && m == temp_name(w));
                            }
                        },
                    }
                }
            }
        },
        ast::Expression::Binary(op, l, r) => {
            lemma_lower_structure(*l, c);
            let (li, lv, c1) = sp_lower_expr(*l, c);
            lemma_lower_structure(*r, c1);
            let (ri, rv, c2) = sp_lower_expr(*r, c1);
            let b = InstructionView::Binary {
                operator: spec_binary_op(op),
                left: lv,
                right: rv,
                dst: ValueView::Var(temp_name(c2)),
            };
            let instrs = li + ri + seq![b];
            let ln = li.len() as int;
            let rn = ri.len() as int;
            assert(instrs[ln + rn] == b);
            assert forall|i: int| 0 <= i < instrs.len() implies inst_dst(#[trigger] instrs[i])
                == Some(temp_name((c + i) as nat)) by {
                if i < ln {
                    assert(instrs[i] == li[i]);
                } else if i < ln + rn {
                    assert(instrs[i] == ri[i - ln]);
                    assert(inst_dst(ri[i - ln]) == Some(temp_name((c1 + (i - ln)) as nat)));
                } else {
                    assert(instrs[i] == b);
                }
            }
            assert forall|i: int| 0 <= i < instrs.len() implies uses_in_range(
                inst_uses(#[trigger] instrs[i]),
                c,
                (c + i) as nat,
            ) by {
                if i < ln {
                    assert(instrs[i] == li[i]);
                } else if i < ln + rn {
                    assert(instrs[i] == ri[i - ln]);
                    assert(uses_in_range(
                        inst_uses(ri[i - ln]),
                        c1,
                        (c1 + (i - ln)) as nat,
                    ));
                    lemma_uses_widen(
                        inst_uses(ri[i - ln]),
                        c1,
                        (c1 + (i - ln)) as nat,
                        c,
                        (c + i) as nat,
                    );
                } else {
                    assert(instrs[i] == b);
                    assert forall|m: Seq<char>| inst_uses(b).contains(m) implies exists|j: nat|
                        c <= j < (c + i) as nat && m == #[trigger] temp_name(j) by {
                        if val_uses(lv).contains(m) {
                            match lv {
                                ValueView::Constant(_) => {
                                    assert(false);
                                },
                                ValueView::Var(n) => {
                                    assert(m == n);
                                    let w = (c1 - 1) as nat;
                                    assert(c <= w && w < (c + i) as nat && m == temp_name(w));
                                },
                            }
                        } else {
                            assert(val_uses(rv).contains(m));
                            match rv {
                                ValueView::Constant(_) => {
                                    assert(false);
                                },
                                ValueView::Var(n) => {
                                    assert(m == n);
                                    let w = (c2 - 1) as nat;
                                    assert(c <= w && w < (c + i) as nat && m == temp_name(w));
                                },
                            }
                        }
                    }
                }
            }
        },
    }
}

/// Across one lowered function, every `dst` temporary is assigned
/// exactly once, and every variable an instruction reads was assigned
/// by an earlier instruction in the list.
pub proof fn lemma_tacky_ssa(p: ast::ProgramView)
    ensures
        ({
            let body = sp_lower_program(p).function.body;
            &&& forall|i: int, j: int|
                0 <= i < j < body.len() && inst_dst(#[trigger] body[i]) is Some && inst_dst(
                    #[trigger] body[j],
                ) is Some ==> inst_dst(body[i]) != inst_dst(body[j])
            &&& forall|i: int, n: Seq<char>|
                0 <= i < body.len() && #[trigger] inst_uses(body[i]).contains(n) ==> exists|j: int|
                    0 <= j < i && inst_dst(#[trigger] body[j]) == Some(n)
        }),
{
    let e = match p.function_definition.body {
        ast::Statement::Return(e) => e,
    };
    lemma_lower_structure(e, 0);
    let (instrs, v, c2) = sp_lower_expr(e, 0);
    let body = sp_lower_program(p).function.body;
    assert(body =~= instrs + seq![InstructionView::Return(v)]);
    let ln = instrs.len() as int;
    assert forall|i: int, j: int|
        0 <= i < j < body.len() && inst_dst(#[trigger] body[i]) is Some && inst_dst(
            #[trigger] body[j],
        ) is Some implies inst_dst(body[i]) != inst_dst(body[j]) by {
        if j < ln {
            assert(body[i] == instrs[i]);
            assert(body[j] == instrs[j]);
            if inst_dst(body[i]) == inst_dst(body[j]) {
                lemma_temp_name_injective(i as nat, j as nat);
            }
        } else {
            assert(body[j] == InstructionView::Return(v));
        }
    }
    assert forall|i: int, n: Seq<char>|
        0 <= i < body.len() && #[trigger] inst_uses(body[i]).contains(n) implies exists|j: int|
        0 <= j < i && inst_dst(#[trigger] body[j]) == Some(n) by {
        if i < ln {
            assert(body[i] == instrs[i]);
            assert(uses_in_range(inst_uses(instrs[i]), 0, i as nat));
            let j = choose|j: nat| 0 <= j < i as nat && n == #[trigger] temp_name(j);
            assert(body[j as int] == instrs[j as int]);
            assert(inst_dst(body[j as int]) == Some(n));
            let w: int = j as int;
            assert(0 <= w && w < i && inst_dst(body[w]) == Some(n));
        } else {
            assert(body[i] == InstructionView::Return(v));
            match v {
                ValueView::Constant(_) => {
                    assert(false);
                },
                ValueView::Var(m) => {
                    assert(n == m);
                    assert(m == temp_name((c2 - 1) as nat));
                    assert(c2 == instrs.len());
                    assert(body[ln - 1] == instrs[ln - 1]);
                    assert(inst_dst(body[ln - 1]) == Some(n));
                    assert(0 <= ln - 1 && ln - 1 < i && inst_dst(body[ln - 1]) == Some(n));
                },
            }
        }
    }
}

/// For a program requiring `k` temporaries, the lowered body consists
/// of `k` defining instructions followed by the `Return`, and the
/// `i`-th instruction defines `__tmp.<i>`: names run `__tmp.0` to
/// `__tmp.<k-1>` in first-definition order.
pub proof fn lemma_tacky_temp_naming(p: ast::ProgramView)
    ensures
        ({
            let body = sp_lower_program(p).function.body;
            let k = count_ops_stmt(p.function_definition.body);
            &&& body.len() == k + 1
            &&& forall|i: int|
                0 <= i < k ==> inst_dst(#[trigger] body[i]) == Some(temp_name(i as nat))
            &&& body[k as int] is Return
        }),
{
    let e = match p.function_definition.body {
        ast::Statement::Return(e) => e,
    };
    lemma_lower_structure(e, 0);
    let (instrs, v, c2) = sp_lower_expr(e, 0);
    let body = sp_lower_program(p).function.body;
    assert(body =~= instrs + seq![InstructionView::Return(v)]);
    assert forall|i: int| 0 <= i < count_ops_stmt(p.function_definition.body) implies inst_dst(
        #[trigger] body[i],
    ) == Some(temp_name(i as nat)) by {
        assert(body[i] == instrs[i]);
    }
}

} // verus!
