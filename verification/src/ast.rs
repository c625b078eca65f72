//! The abstract syntax tree and the locals table.
//!
//! The exec types mirror the grammar; each carries a mathematical image
//! (`ExprModel`, `StmtModel`) over which the parser's and the code
//! generator's contracts are stated. `wf_*` say that every local reference
//! is a valid index into the owning function's locals table, and `cc_*`
//! count the control statements, which bounds how many fresh labels code
//! generation can consume.

use vstd::prelude::*;

verus! {

/// The implicit function body: one compound statement.
#[derive(Debug)]
pub struct Program {
    pub stmt: CompoundStatement,
}

/// An ordered block of statements. It opens no new binding scope: all
/// locals are function-wide.
#[derive(Debug)]
pub struct CompoundStatement {
    pub stmts: Vec<Statement>,
}

#[derive(Debug)]
pub enum Statement {
    Compound(CompoundStatement),
    Expr(Expression),
    Return(Expression),
    If(IfStatement),
    For(ForStatement),
    While(WhileStatement),
    Empty,
}

/// A `while` without a condition loops forever by construction.
#[derive(Debug)]
pub struct WhileStatement {
    pub condition: Option<Expression>,
    pub body: Box<Statement>,
}

/// Each clause of a `for` head is independently optional.
#[derive(Debug)]
pub struct ForStatement {
    pub init: Option<Expression>,
    pub condition: Option<Expression>,
    pub update: Option<Expression>,
    pub body: Box<Statement>,
}

#[derive(Debug)]
pub struct IfStatement {
    pub condition: Expression,
    pub then_branch: Box<Statement>,
    pub else_branch: Option<Box<Statement>>,
}

#[derive(Debug)]
pub struct UnaryExpr {
    pub lhs: Box<Expression>,
    pub op: UnaryOp,
}

#[derive(Debug)]
pub struct BinaryExpr {
    pub lhs: Box<Expression>,
    pub rhs: Box<Expression>,
    pub op: BinOp,
}

#[derive(Debug)]
pub struct AssignmentExpr {
    pub lhs: Box<Expression>,
    pub rhs: Box<Expression>,
    pub op: AssignmentOp,
}

#[derive(Debug)]
pub struct PointerExpr {
    pub arg: Box<Expression>,
    pub op: PointerOp,
}

#[derive(Copy, Clone, Debug)]
pub enum PointerOp {
    Ref,
    Deref,
}

#[derive(Debug)]
pub enum Expression {
    NumberLiteral(usize),
    Identifier(LocalId),
    Binary(BinaryExpr),
    Unary(UnaryExpr),
    Assignment(AssignmentExpr),
    Pointer(PointerExpr),
}

/// `NoOp` is the prefix `+`: it exists only to keep tree-shape parity with
/// prefix `-` and has no effect on generated code. `Addr` and `Deref` are
/// retained variants that the parser never produces; code generation
/// rejects them.
#[derive(Copy, Clone, Debug)]
pub enum UnaryOp {
    Neg,
    Addr,
    Deref,
    NoOp,
}

#[derive(Copy, Clone, Debug)]
pub enum AssignmentOp {
    Eq,
}

#[derive(Copy, Clone, Debug)]
pub enum BinOp {
    Add,
    Sub,
    Mul,
    Div,
    EqCmp,
    NeqCmp,
    LowerCmp,
    LowerEqCmp,
    GreaterCmp,
    GreaterEqCmp,
}

/// A named storage slot. The offset is assigned once, by the layout pass;
/// it stays `0` until then.
#[derive(Debug)]
pub struct Local {
    pub name: String,
    pub offset: usize,
}

impl Local {
    pub fn new(name: String) -> (l: Self)
        ensures
            l.name == name,
            l.offset == 0,
    {
        Self { name, offset: 0 }
    }

    pub fn name(&self) -> (n: &str)
        ensures
            n@ == self.name@,
    {
        self.name.as_str()
    }

    pub fn offset(&self) -> (o: usize)
        ensures
            o == self.offset,
    {
        self.offset
    }
}

impl Clone for Local {
    fn clone(&self) -> (r: Self)
        ensures
            r == *self,
    {
        Local { name: self.name.clone(), offset: self.offset }
    }
}

/// An opaque handle: the index of a local in the owning function's table.
#[derive(Copy, Clone, Debug, PartialEq, Eq, Structural)]
pub struct LocalId(pub usize);

// ---------------------------------------------------------------------------
// Mathematical images
// ---------------------------------------------------------------------------

/// The mathematical image of an expression tree.
pub enum ExprModel {
    Num(usize),
    Var(int),
    Unary(UnaryOp, Box<ExprModel>),
    Pointer(PointerOp, Box<ExprModel>),
    Binary(BinOp, Box<ExprModel>, Box<ExprModel>),
    Assign(AssignmentOp, Box<ExprModel>, Box<ExprModel>),
}

/// The mathematical image of a statement tree.
pub enum StmtModel {
    Compound(Seq<StmtModel>),
    Expr(ExprModel),
    Ret(ExprModel),
    If(ExprModel, Box<StmtModel>, Option<Box<StmtModel>>),
    While(Option<ExprModel>, Box<StmtModel>),
    For(Option<ExprModel>, Option<ExprModel>, Option<ExprModel>, Box<StmtModel>),
    Empty,
}

pub open spec fn expr_view(e: Expression) -> ExprModel
    decreases e,
{
    match e {
        Expression::NumberLiteral(n) => ExprModel::Num(n),
        Expression::Identifier(id) => ExprModel::Var(id.0 as int),
        Expression::Binary(b) => ExprModel::Binary(
            b.op,
            Box::new(expr_view(*b.lhs)),
            Box::new(expr_view(*b.rhs)),
        ),
        Expression::Unary(u) => ExprModel::Unary(u.op, Box::new(expr_view(*u.lhs))),
        Expression::Assignment(a) => ExprModel::Assign(
            a.op,
            Box::new(expr_view(*a.lhs)),
            Box::new(expr_view(*a.rhs)),
        ),
        Expression::Pointer(p) => ExprModel::Pointer(p.op, Box::new(expr_view(*p.arg))),
    }
}

pub open spec fn opt_expr_view(e: Option<Expression>) -> Option<ExprModel> {
    match e {
        None => None,
        Some(e) => Some(expr_view(e)),
    }
}

pub open spec fn stmt_view(st: Statement) -> StmtModel
    decreases st, 0int,
{
    match st {
        Statement::Compound(c) => StmtModel::Compound(stmts_view(c.stmts@, 0)),
        Statement::Expr(e) => StmtModel::Expr(expr_view(e)),
        Statement::Return(e) => StmtModel::Ret(expr_view(e)),
        Statement::If(i) => StmtModel::If(
            expr_view(i.condition),
            Box::new(stmt_view(*i.then_branch)),
            match i.else_branch {
                None => None,
                Some(b) => Some(Box::new(stmt_view(*b))),
            },
        ),
        Statement::While(w) => StmtModel::While(
            opt_expr_view(w.condition),
            Box::new(stmt_view(*w.body)),
        ),
        Statement::For(f) => StmtModel::For(
            opt_expr_view(f.init),
            opt_expr_view(f.condition),
            opt_expr_view(f.update),
            Box::new(stmt_view(*f.body)),
        ),
        Statement::Empty => StmtModel::Empty,
    }
}

pub open spec fn stmts_view(ss: Seq<Statement>, i: int) -> Seq<StmtModel>
    decreases ss, ss.len() - i,
{
    if i < 0 || i >= ss.len() {
        Seq::empty()
    } else {
        seq![stmt_view(ss[i])] + stmts_view(ss, i + 1)
    }
}

impl View for Expression {
    type V = ExprModel;

    open spec fn view(&self) -> ExprModel {
        expr_view(*self)
    }
}

impl View for Statement {
    type V = StmtModel;

    open spec fn view(&self) -> StmtModel {
        stmt_view(*self)
    }
}

impl View for CompoundStatement {
    type V = Seq<StmtModel>;

    open spec fn view(&self) -> Seq<StmtModel> {
        stmts_view(self.stmts@, 0)
    }
}

impl View for Program {
    type V = Seq<StmtModel>;

    open spec fn view(&self) -> Seq<StmtModel> {
        self.stmt@
    }
}

/// The length and elements of a viewed statement list.
pub proof fn lemma_stmts_view_index(ss: Seq<Statement>, i: int)
    requires
        0 <= i <= ss.len(),
    ensures
        stmts_view(ss, i).len() == ss.len() - i,
        forall|k: int|
            i <= k < ss.len() ==> stmts_view(ss, i)[k - i] == stmt_view(#[trigger] ss[k]),
    decreases ss.len() - i,
{
    if i < ss.len() {
        lemma_stmts_view_index(ss, i + 1);
    }
}

// ---------------------------------------------------------------------------
// Well-formedness: every local reference is a valid table index
// ---------------------------------------------------------------------------

pub open spec fn wf_expr(e: ExprModel, n: int) -> bool
    decreases e,
{
    match e {
        ExprModel::Num(_) => true,
        ExprModel::Var(i) => 0 <= i < n,
        ExprModel::Unary(_, a) => wf_expr(*a, n),
        ExprModel::Pointer(_, a) => wf_expr(*a, n),
        ExprModel::Binary(_, l, r) => wf_expr(*l, n) && wf_expr(*r, n),
        ExprModel::Assign(_, l, r) => wf_expr(*l, n) && wf_expr(*r, n),
    }
}

pub open spec fn wf_opt_expr(e: Option<ExprModel>, n: int) -> bool {
    match e {
        None => true,
        Some(e) => wf_expr(e, n),
    }
}

pub open spec fn wf_stmt(s: StmtModel, n: int) -> bool
    decreases s, 0int,
{
    match s {
        StmtModel::Compound(ss) => wf_stmts(ss, 0, n),
        StmtModel::Expr(e) => wf_expr(e, n),
        StmtModel::Ret(e) => wf_expr(e, n),
        StmtModel::If(c, t, e) => wf_expr(c, n) && wf_stmt(*t, n) && (match e {
            None => true,
            Some(e) => wf_stmt(*e, n),
        }),
        StmtModel::While(c, b) => wf_opt_expr(c, n) && wf_stmt(*b, n),
        StmtModel::For(i, c, u, b) => wf_opt_expr(i, n) && wf_opt_expr(c, n) && wf_opt_expr(u, n)
            && wf_stmt(*b, n),
        StmtModel::Empty => true,
    }
}

pub open spec fn wf_stmts(ss: Seq<StmtModel>, i: int, n: int) -> bool
    decreases ss, ss.len() - i,
{
    if i < 0 || i >= ss.len() {
        true
    } else {
        wf_stmt(ss[i], n) && wf_stmts(ss, i + 1, n)
    }
}

/// Well-formedness is monotone in the table length.
pub proof fn lemma_wf_expr_mono(e: ExprModel, n: int, m: int)
    requires
        wf_expr(e, n),
        n <= m,
    ensures
        wf_expr(e, m),
    decreases e,
{
    match e {
        ExprModel::Unary(_, a) => lemma_wf_expr_mono(*a, n, m),
        ExprModel::Pointer(_, a) => lemma_wf_expr_mono(*a, n, m),
        ExprModel::Binary(_, l, r) => {
            lemma_wf_expr_mono(*l, n, m);
            lemma_wf_expr_mono(*r, n, m);
        },
        ExprModel::Assign(_, l, r) => {
            lemma_wf_expr_mono(*l, n, m);
            lemma_wf_expr_mono(*r, n, m);
        },
        _ => {},
    }
}

pub proof fn lemma_wf_stmt_mono(s: StmtModel, n: int, m: int)
    requires
        wf_stmt(s, n),
        n <= m,
    ensures
        wf_stmt(s, m),
    decreases s, 0int,
{
    match s {
        StmtModel::Compound(ss) => lemma_wf_stmts_mono(ss, 0, n, m),
        StmtModel::Expr(e) => lemma_wf_expr_mono(e, n, m),
        StmtModel::Ret(e) => lemma_wf_expr_mono(e, n, m),
        StmtModel::If(c, t, e) => {
            lemma_wf_expr_mono(c, n, m);
            lemma_wf_stmt_mono(*t, n, m);
            match e {
                None => {},
                Some(e) => lemma_wf_stmt_mono(*e, n, m),
            }
        },
        StmtModel::While(c, b) => {
            match c {
                None => {},
                Some(c) => lemma_wf_expr_mono(c, n, m),
            }
            lemma_wf_stmt_mono(*b, n, m);
        },
        StmtModel::For(i, c, u, b) => {
            match i {
                None => {},
                Some(i) => lemma_wf_expr_mono(i, n, m),
            }
            match c {
                None => {},
                Some(c) => lemma_wf_expr_mono(c, n, m),
            }
            match u {
                None => {},
                Some(u) => lemma_wf_expr_mono(u, n, m),
            }
            lemma_wf_stmt_mono(*b, n, m);
        },
        StmtModel::Empty => {},
    }
}

pub proof fn lemma_wf_stmts_mono(ss: Seq<StmtModel>, i: int, n: int, m: int)
    requires
        wf_stmts(ss, i, n),
        n <= m,
    ensures
        wf_stmts(ss, i, m),
    decreases ss, ss.len() - i,
{
    if 0 <= i < ss.len() {
        lemma_wf_stmt_mono(ss[i], n, m);
        lemma_wf_stmts_mono(ss, i + 1, n, m);
    }
}

// ---------------------------------------------------------------------------
// Control-statement count: how many fresh labels code generation needs
// ---------------------------------------------------------------------------

pub open spec fn cc_stmt(s: StmtModel) -> nat
    decreases s, 0int,
{
    match s {
        StmtModel::Compound(ss) => cc_stmts(ss, 0),
        StmtModel::Expr(_) => 0,
        StmtModel::Ret(_) => 0,
        StmtModel::If(_, t, e) => 1 + cc_stmt(*t) + (match e {
            None => 0nat,
            Some(e) => cc_stmt(*e),
        }),
        StmtModel::While(_, b) => 1 + cc_stmt(*b),
        StmtModel::For(_, _, _, b) => 1 + cc_stmt(*b),
        StmtModel::Empty => 0,
    }
}

pub open spec fn cc_stmts(ss: Seq<StmtModel>, i: int) -> nat
    decreases ss, ss.len() - i,
{
    if i < 0 || i >= ss.len() {
        0
    } else {
        cc_stmt(ss[i]) + cc_stmts(ss, i + 1)
    }
}


/// Viewing a statement vector commutes with `push`.
pub proof fn lemma_stmts_view_push(ss: Seq<Statement>, st: Statement, i: int)
    requires
        0 <= i <= ss.len(),
    ensures
        stmts_view(ss.push(st), i) == stmts_view(ss, i) + seq![stmt_view(st)],
    decreases ss.len() - i,
{
    if i < ss.len() {
        lemma_stmts_view_push(ss, st, i + 1);
        assert(ss.push(st)[i] == ss[i]);
        assert(seq![stmt_view(ss[i])] + (stmts_view(ss, i + 1) + seq![stmt_view(st)]) =~= (seq![
            stmt_view(ss[i]),
        ] + stmts_view(ss, i + 1)) + seq![stmt_view(st)]);
    } else {
        assert(ss.push(st)[i] == st);
        assert(stmts_view(ss.push(st), i + 1) =~= Seq::<StmtModel>::empty());
        assert(stmts_view(ss.push(st), i) =~= stmts_view(ss, i) + seq![stmt_view(st)]);
    }
}

/// Appending one statement adds its control count.
pub proof fn lemma_cc_stmts_push(ms: Seq<StmtModel>, m: StmtModel, i: int)
    requires
        0 <= i <= ms.len(),
    ensures
        cc_stmts(ms.push(m), i) == cc_stmts(ms, i) + cc_stmt(m),
    decreases ms.len() - i,
{
    if i < ms.len() {
        lemma_cc_stmts_push(ms, m, i + 1);
        assert(ms.push(m)[i] == ms[i]);
    } else {
        assert(ms.push(m)[i] == m);
        assert(cc_stmts(ms.push(m), i + 1) == 0);
        assert(cc_stmts(ms, i) == 0);
    }
}

/// Appending one well-formed statement keeps the list well-formed.
pub proof fn lemma_wf_stmts_push(ms: Seq<StmtModel>, m: StmtModel, i: int, n: int)
    requires
        0 <= i <= ms.len(),
        wf_stmts(ms, i, n),
        wf_stmt(m, n),
    ensures
        wf_stmts(ms.push(m), i, n),
    decreases ms.len() - i,
{
    if i < ms.len() {
        lemma_wf_stmts_push(ms, m, i + 1, n);
        assert(ms.push(m)[i] == ms[i]);
    } else {
        assert(ms.push(m)[i] == m);
        assert(wf_stmts(ms.push(m), i + 1, n));
    }
}

} // verus!
