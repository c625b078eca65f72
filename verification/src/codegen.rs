//! Code generation: lowering the syntax tree to AT&T-syntax x86-64 text.
//!
//! The convention is a stack machine: `%rax` is the accumulator holding
//! the value of the expression just evaluated; a binary operation first
//! evaluates its right operand, parks it on the machine stack, evaluates
//! the left operand, then pops the right value into `%rdi` and combines.
//! Control flow uses labels numbered by a strictly increasing counter, so
//! no label is ever reused within one compilation.
//!
//! `asm_expr` / `asm_stmt` / `asm_function` are the functional model: they
//! give the exact emitted text (or the semantic error) for every tree.

use vstd::prelude::*;
use vstd::string::StrSliceExecFns;
use vstd::string::StringExecFns;

use crate::ast::cc_stmt;
use crate::ast::lemma_stmts_view_index;
use crate::ast::expr_view;
use crate::ast::opt_expr_view;
use crate::ast::cc_stmts;
use crate::ast::stmts_view;
use crate::ast::wf_expr;
use crate::ast::wf_stmt;
use crate::ast::wf_stmts;
use crate::ast::AssignmentOp;
use crate::ast::BinOp;
use crate::ast::BinaryExpr;
use crate::ast::ExprModel;
use crate::ast::Expression;
use crate::ast::LocalId;
use crate::ast::ForStatement;
use crate::ast::IfStatement;
use crate::ast::WhileStatement;
use crate::ast::PointerOp;
use crate::ast::Statement;
use crate::ast::StmtModel;
use crate::ast::UnaryExpr;
use crate::ast::UnaryOp;
use crate::parser::Function;
use crate::Error;

verus! {

// ---------------------------------------------------------------------------
// Decimal rendering
// ---------------------------------------------------------------------------

pub open spec fn dec_digit(d: int) -> Seq<char> {
    if d == 0 {
        "0"@
    } else if d == 1 {
        "1"@
    } else if d == 2 {
        "2"@
    } else if d == 3 {
        "3"@
    } else if d == 4 {
        "4"@
    } else if d == 5 {
        "5"@
    } else if d == 6 {
        "6"@
    } else if d == 7 {
        "7"@
    } else if d == 8 {
        "8"@
    } else {
        "9"@
    }
}

/// The decimal spelling of `n`, most significant digit first.
pub open spec fn dec_str(n: nat) -> Seq<char>
    decreases n,
{
    if n < 10 {
        dec_digit(n as int)
    } else {
        dec_str(n / 10) + dec_digit((n % 10) as int)
    }
}

fn digit_str_of(d: usize) -> (s: &'static str)
    requires
        d < 10,
    ensures
        s@ == dec_digit(d as int),
{
    match d {
        0 => "0",
        1 => "1",
        2 => "2",
        3 => "3",
        4 => "4",
        5 => "5",
        6 => "6",
        7 => "7",
        8 => "8",
        _ => "9",
    }
}

/// Render `n` in decimal.
pub fn num_string(n: usize) -> (s: String)
    ensures
        s@ == dec_str(n as nat),
    decreases n,
{
    if n < 10 {
        String::from_str(digit_str_of(n))
    } else {
        let mut s = num_string(n / 10);
        s.append(digit_str_of(n % 10));
        s
    }
}

// ---------------------------------------------------------------------------
// Text pieces of the emitted assembly
// ---------------------------------------------------------------------------

pub open spec fn nl() -> Seq<char> {
    "\n"@
}

pub open spec fn push_text() -> Seq<char> {
    "  push %rax"@ + nl()
}

pub open spec fn pop_rdi_text() -> Seq<char> {
    "  pop "@ + "%rdi"@ + nl()
}

pub open spec fn load_text() -> Seq<char> {
    "  mov (%rax), %rax"@ + nl()
}

pub open spec fn store_text() -> Seq<char> {
    "  mov %rax, (%rdi)"@ + nl()
}

pub open spec fn addr_text(off: int) -> Seq<char> {
    "  lea -"@ + dec_str(off as nat) + "(%rbp), %rax"@ + nl()
}

pub open spec fn cmp_zero() -> Seq<char> {
    "  cmp $0, %rax"@ + nl()
}

pub open spec fn je_else(n: nat) -> Seq<char> {
    "  je .L.else."@ + dec_str(n) + nl()
}

pub open spec fn je_end(n: nat) -> Seq<char> {
    "  je .L.end."@ + dec_str(n) + nl()
}

pub open spec fn jmp_end(n: nat) -> Seq<char> {
    "  jmp .L.end."@ + dec_str(n) + nl()
}

pub open spec fn jmp_begin(n: nat) -> Seq<char> {
    "  jmp .L.begin."@ + dec_str(n) + nl()
}

pub open spec fn label_else(n: nat) -> Seq<char> {
    ".L.else."@ + dec_str(n) + ":"@ + nl()
}

pub open spec fn label_begin(n: nat) -> Seq<char> {
    ".L.begin."@ + dec_str(n) + ":"@ + nl()
}

pub open spec fn label_end(n: nat) -> Seq<char> {
    ".L.end."@ + dec_str(n) + ":"@ + nl()
}

/// What each binary operator emits once the right value sits in `%rdi`
/// and the left value in `%rax`.
pub open spec fn bin_tail(op: BinOp) -> Seq<char> {
    match op {
        BinOp::Add => "  add %rdi, %rax"@ + nl(),
        BinOp::Sub => "  sub %rdi, %rax"@ + nl(),
        BinOp::Mul => "  imul %rdi, %rax"@ + nl(),
        BinOp::Div => "  cqo"@ + nl() + "  idiv %rdi"@ + nl(),
        BinOp::GreaterEqCmp => cmp_set("  setge %al"@),
        BinOp::LowerEqCmp => cmp_set("  setle %al"@),
        BinOp::GreaterCmp => cmp_set("  setg %al"@),
        BinOp::LowerCmp => cmp_set("  setl %al"@),
        BinOp::EqCmp => cmp_set("  sete %al"@),
        BinOp::NeqCmp => cmp_set("  setne %al"@),
    }
}

pub open spec fn cmp_set(set_line: Seq<char>) -> Seq<char> {
    "  cmp %rdi, %rax"@ + nl() + set_line + nl() + "  movzb %al, %rax"@ + nl()
}

// ---------------------------------------------------------------------------
// The emission model
// ---------------------------------------------------------------------------

/// The text an expression compiles to, or the semantic error: taking the
/// address of anything but an identifier, assigning through anything but
/// an identifier, or a retained unary operator.
///
/// The right operand of a binary node is emitted before the left one, and
/// an assignment emits the target address before the right-hand side: that
/// order is an observable contract.
pub open spec fn asm_expr(e: ExprModel, offs: Seq<int>) -> Result<Seq<char>, ()>
    decreases e,
{
    match e {
        ExprModel::Num(n) => Ok("  mov $"@ + dec_str(n as nat) + ", %rax"@ + nl()),
        ExprModel::Var(i) => if 0 <= i < offs.len() {
            Ok(addr_text(offs[i]) + load_text())
        } else {
            Err(())
        },
        ExprModel::Unary(op, a) => match op {
            UnaryOp::Neg => match asm_expr(*a, offs) {
                Ok(t) => Ok(t + "  neg %rax"@ + nl()),
                Err(e) => Err(e),
            },
            UnaryOp::NoOp => asm_expr(*a, offs),
            _ => Err(()),
        },
        ExprModel::Pointer(op, a) => match op {
            PointerOp::Ref => match *a {
                ExprModel::Var(i) => if 0 <= i < offs.len() {
                    Ok(addr_text(offs[i]))
                } else {
                    Err(())
                },
                _ => Err(()),
            },
            PointerOp::Deref => match asm_expr(*a, offs) {
                Ok(t) => Ok(t + load_text()),
                Err(e) => Err(e),
            },
        },
        ExprModel::Binary(op, l, r) => match asm_expr(*r, offs) {
            Ok(tr) => match asm_expr(*l, offs) {
                Ok(tl) => Ok(tr + push_text() + tl + pop_rdi_text() + bin_tail(op)),
                Err(e) => Err(e),
            },
            Err(e) => Err(e),
        },
        ExprModel::Assign(_, l, r) => match *l {
            ExprModel::Var(i) => if 0 <= i < offs.len() {
                match asm_expr(*r, offs) {
                    Ok(t) => Ok(
                        addr_text(offs[i]) + push_text() + t + pop_rdi_text() + store_text(),
                    ),
                    Err(e) => Err(e),
                }
            } else {
                Err(())
            },
            _ => Err(()),
        },
    }
}

/// The text a statement compiles to together with the label counter after
/// it, threading the counter `c` left to right through the tree.
pub open spec fn asm_stmt(s: StmtModel, offs: Seq<int>, c: int) -> Result<(Seq<char>, int), ()>
    decreases s, 0int,
{
    match s {
        StmtModel::Expr(e) => match asm_expr(e, offs) {
            Ok(t) => Ok((t, c)),
            Err(_) => Err(()),
        },
        StmtModel::Ret(e) => match asm_expr(e, offs) {
            Ok(t) => Ok((t + "  jmp .L.return"@ + nl(), c)),
            Err(_) => Err(()),
        },
        StmtModel::Compound(ss) => asm_stmts(ss, 0, offs, c),
        StmtModel::Empty => Ok((Seq::empty(), c)),
        StmtModel::If(cond, t, e) => match asm_expr(cond, offs) {
            Err(_) => Err(()),
            Ok(tc) => {
                let n = c + 1;
                match asm_stmt(*t, offs, n) {
                    Err(_) => Err(()),
                    Ok((tt, c2)) => match e {
                        None => Ok(
                            (
                                tc + cmp_zero() + je_else(n as nat) + tt + jmp_end(n as nat)
                                    + label_else(n as nat) + label_end(n as nat),
                                c2,
                            ),
                        ),
                        Some(eb) => match asm_stmt(*eb, offs, c2) {
                            Err(_) => Err(()),
                            Ok((te, c3)) => Ok(
                                (
                                    tc + cmp_zero() + je_else(n as nat) + tt + jmp_end(n as nat)
                                        + label_else(n as nat) + te + label_end(n as nat),
                                    c3,
                                ),
                            ),
                        },
                    },
                }
            },
        },
        StmtModel::While(cond, b) => {
            let n = c + 1;
            let head: Result<Seq<char>, ()> = match cond {
                None => Ok(label_begin(n as nat)),
                Some(ce) => match asm_expr(ce, offs) {
                    Ok(tc) => Ok(label_begin(n as nat) + tc + cmp_zero() + je_end(n as nat)),
                    Err(_) => Err(()),
                },
            };
            match head {
                Err(_) => Err(()),
                Ok(h) => match asm_stmt(*b, offs, n) {
                    Err(_) => Err(()),
                    Ok((tb, c2)) => Ok((h + tb + jmp_begin(n as nat) + label_end(n as nat), c2)),
                },
            }
        },
        StmtModel::For(init, cond, up, b) => {
            let ti: Result<Seq<char>, ()> = match init {
                None => Ok(Seq::empty()),
                Some(e) => asm_expr(e, offs),
            };
            match ti {
                Err(_) => Err(()),
                Ok(t0) => {
                    let n = c + 1;
                    let head: Result<Seq<char>, ()> = match cond {
                        None => Ok(label_begin(n as nat)),
                        Some(ce) => match asm_expr(ce, offs) {
                            Ok(tc) => Ok(
                                label_begin(n as nat) + tc + cmp_zero() + je_end(n as nat),
                            ),
                            Err(_) => Err(()),
                        },
                    };
                    match head {
                        Err(_) => Err(()),
                        Ok(h) => match asm_stmt(*b, offs, n) {
                            Err(_) => Err(()),
                            Ok((tb, c2)) => {
                                let tu: Result<Seq<char>, ()> = match up {
                                    None => Ok(Seq::empty()),
                                    Some(e) => asm_expr(e, offs),
                                };
                                match tu {
                                    Err(_) => Err(()),
                                    Ok(t3) => Ok(
                                        (
                                            t0 + h + tb + t3 + jmp_begin(n as nat) + label_end(
                                                n as nat,
                                            ),
                                            c2,
                                        ),
                                    ),
                                }
                            },
                        },
                    }
                },
            }
        },
    }
}

/// Statement-list emission: text concatenated, counter threaded.
pub open spec fn asm_stmts(ss: Seq<StmtModel>, i: int, offs: Seq<int>, c: int) -> Result<
    (Seq<char>, int),
    (),
>
    decreases ss, ss.len() - i,
{
    if i < 0 || i >= ss.len() {
        Ok((Seq::empty(), c))
    } else {
        match asm_stmt(ss[i], offs, c) {
            Err(e) => Err(e),
            Ok((t, c2)) => match asm_stmts(ss, i + 1, offs, c2) {
                Err(e) => Err(e),
                Ok((t2, c3)) => Ok((t + t2, c3)),
            },
        }
    }
}

/// The fixed skeleton around the body: entry symbol, frame setup with the
/// aligned frame size, the body, then the single shared return path.
pub open spec fn prologue(frame: int) -> Seq<char> {
    "  .globl main"@ + nl() + "main:"@ + nl() + "  push %rbp"@ + nl() + "  mov %rsp, %rbp"@ + nl()
        + "  sub $"@ + dec_str(frame as nat) + ", %rsp"@ + nl()
}

pub open spec fn epilogue() -> Seq<char> {
    ".L.return:"@ + nl() + "  mov %rbp, %rsp"@ + nl() + "  pop %rbp"@ + nl() + "  ret"@ + nl()
}

/// The whole function's text: the label counter starts at zero.
pub open spec fn asm_function(body: Seq<StmtModel>, offs: Seq<int>, frame: int) -> Result<
    Seq<char>,
    (),
> {
    match asm_stmts(body, 0, offs, 0) {
        Ok((t, _)) => Ok(prologue(frame) + t + epilogue()),
        Err(_) => Err(()),
    }
}

// ---------------------------------------------------------------------------
// Counter facts: generation only moves the counter forward, and by at
// most the number of control statements
// ---------------------------------------------------------------------------

pub proof fn lemma_asm_stmt_counter(s: StmtModel, offs: Seq<int>, c: int)
    ensures
        match asm_stmt(s, offs, c) {
            Ok((t, c2)) => c2 == c + cc_stmt(s),
            Err(_) => true,
        },
    decreases s, 0int,
{
    match s {
        StmtModel::Compound(ss) => {
            lemma_asm_stmts_counter(ss, 0, offs, c);
        },
        StmtModel::If(cond, t, e) => {
            lemma_asm_stmt_counter(*t, offs, c + 1);
            match asm_stmt(*t, offs, c + 1) {
                Ok((_, c2)) => match e {
                    Some(eb) => {
                        lemma_asm_stmt_counter(*eb, offs, c2);
                    },
                    None => {},
                },
                Err(_) => {},
            }
        },
        StmtModel::While(_, b) => {
            lemma_asm_stmt_counter(*b, offs, c + 1);
        },
        StmtModel::For(_, _, _, b) => {
            lemma_asm_stmt_counter(*b, offs, c + 1);
        },
        _ => {},
    }
}

pub proof fn lemma_asm_stmts_counter(ss: Seq<StmtModel>, i: int, offs: Seq<int>, c: int)
    ensures
        match asm_stmts(ss, i, offs, c) {
            Ok((t, c2)) => c2 == c + cc_stmts(ss, i),
            Err(_) => true,
        },
    decreases ss, ss.len() - i,
{
    if 0 <= i < ss.len() {
        lemma_asm_stmt_counter(ss[i], offs, c);
        match asm_stmt(ss[i], offs, c) {
            Ok((_, c2)) => {
                lemma_asm_stmts_counter(ss, i + 1, offs, c2);
            },
            Err(_) => {},
        }
    }
}


/// Reassociating one appended piece.
pub proof fn lemma_app2(base: Seq<char>, a: Seq<char>, b: Seq<char>)
    ensures
        (base + a) + b == base + (a + b),
{
    vstd::seq_lib::lemma_concat_associative(base, a, b);
}

/// Reassociating two appended pieces.
pub proof fn lemma_app3(base: Seq<char>, a: Seq<char>, b: Seq<char>, c: Seq<char>)
    ensures
        ((base + a) + b) + c == base + ((a + b) + c),
{
    lemma_app2(base, a, b);
    lemma_app2(base, a + b, c);
}

/// Reassociating three appended pieces.
pub proof fn lemma_app4(base: Seq<char>, a: Seq<char>, b: Seq<char>, c: Seq<char>, d: Seq<char>)
    ensures
        (((base + a) + b) + c) + d == base + (((a + b) + c) + d),
{
    lemma_app3(base, a, b, c);
    lemma_app2(base, (a + b) + c, d);
}

// ---------------------------------------------------------------------------
// The generator
// ---------------------------------------------------------------------------

/// The assembly text under construction, with the label counter and the
/// ghost operand-stack depth (pushes minus pops emitted so far).
pub struct Assembly<'a> {
    counter: usize,
    depth: Ghost<nat>,
    content: String,
    func: &'a Function,
}

impl<'a> Assembly<'a> {
    /// The text emitted so far.
    pub closed spec fn out(&self) -> Seq<char> {
        self.content@
    }

    /// The label counter.
    pub closed spec fn ctr(&self) -> int {
        self.counter as int
    }

    /// The operand-stack discipline: pushes minus pops emitted so far.
    pub closed spec fn stack_depth(&self) -> nat {
        self.depth@
    }

    /// The function being compiled.
    pub closed spec fn fun(&self) -> Function {
        *self.func
    }

    pub fn new(func: &'a Function) -> (a: Self)
        ensures
            a.ctr() == 0,
            a.stack_depth() == 0,
            a.out() == Seq::<char>::empty(),
            a.fun() == *func,
    {
        let a = Self { counter: 0, depth: Ghost(0), content: String::new(), func };
        proof {
            assert(a.out() =~= Seq::<char>::empty());
        }
        a
    }

    /// Hand the finished text over. The operand stack must be balanced:
    /// generation ends with as many pops as pushes.
    pub fn finish(self) -> (s: String)
        requires
            self.stack_depth() == 0,
        ensures
            s@ == self.out(),
    {
        self.content
    }

    pub fn write(&mut self, s: &str)
        ensures
            final(self).out() == old(self).out() + s@,
            final(self).ctr() == old(self).ctr(),
            final(self).stack_depth() == old(self).stack_depth(),
            final(self).fun() == old(self).fun(),
    {
        self.content.append(s);
    }

    pub fn writeln(&mut self, s: &str)
        ensures
            final(self).out() == old(self).out() + (s@ + nl()),
            final(self).ctr() == old(self).ctr(),
            final(self).stack_depth() == old(self).stack_depth(),
            final(self).fun() == old(self).fun(),
    {
        self.content.append(s);
        self.content.append("\n");
        proof {
            assert(final(self).out() =~= old(self).out() + (s@ + nl()));
        }
    }

    /// Park the accumulator on the machine stack.
    pub fn push(&mut self)
        ensures
            final(self).out() == old(self).out() + push_text(),
            final(self).ctr() == old(self).ctr(),
            final(self).stack_depth() == old(self).stack_depth() + 1,
            final(self).fun() == old(self).fun(),
    {
        self.writeln("  push %rax");
        self.depth = Ghost(self.depth@ + 1);
        proof {
            assert(final(self).out() =~= old(self).out() + push_text());
        }
    }

    /// Pop the parked value into the named register.
    pub fn pop(&mut self, s: &str)
        requires
            old(self).stack_depth() >= 1,
        ensures
            final(self).out() == old(self).out() + ("  pop "@ + s@ + nl()),
            final(self).ctr() == old(self).ctr(),
            final(self).stack_depth() == old(self).stack_depth() - 1,
            final(self).fun() == old(self).fun(),
    {
        self.write("  pop ");
        self.writeln(s);
        self.depth = Ghost((self.depth@ - 1) as nat);
        proof {
            assert(final(self).out() =~= old(self).out() + ("  pop "@ + s@ + nl()));
        }
    }

    /// A fresh label number: the counter only ever moves forward.
    fn count_inc(&mut self) -> (r: usize)
        requires
            old(self).ctr() < usize::MAX,
        ensures
            r as int == old(self).ctr() + 1,
            final(self).ctr() == old(self).ctr() + 1,
            final(self).out() == old(self).out(),
            final(self).stack_depth() == old(self).stack_depth(),
            final(self).fun() == old(self).fun(),
    {
        self.counter = self.counter + 1;
        self.counter
    }

    fn emit_num(&mut self, n: usize)
        ensures
            final(self).out() == old(self).out() + dec_str(n as nat),
            final(self).ctr() == old(self).ctr(),
            final(self).stack_depth() == old(self).stack_depth(),
            final(self).fun() == old(self).fun(),
    {
        let s = num_string(n);
        self.write(s.as_str());
    }

    /// Leave the frame address of a local in the accumulator.
    pub fn gen_addr(&mut self, local: LocalId)
        requires
            local.0 < old(self).fun().locals@.len(),
        ensures
            final(self).out() == old(self).out() + addr_text(
                old(self).fun().offs()[local.0 as int],
            ),
            final(self).ctr() == old(self).ctr(),
            final(self).stack_depth() == old(self).stack_depth(),
            final(self).fun() == old(self).fun(),
    {
        let f = self.func;
        let l = f.local(local);
        let off = l.offset();
        self.write("  lea -");
        self.emit_num(off);
        self.writeln("(%rbp), %rax");
        proof {
            assert(final(self).out() =~= old(self).out() + addr_text(
                old(self).fun().offs()[local.0 as int],
            ));
        }
    }

    /// Emit the right operand, park it, emit the left operand, pop the
    /// right value into `%rdi`: the shared front of every binary lowering.
    /// The right-before-left order is an observable contract.
    pub fn recurse_binary(&mut self, bin: &BinaryExpr) -> (r: Result<(), Error>)
        requires
            wf_expr(expr_view(*bin.lhs), old(self).fun().locals@.len() as int),
            wf_expr(expr_view(*bin.rhs), old(self).fun().locals@.len() as int),
        ensures
            final(self).ctr() == old(self).ctr(),
            final(self).fun() == old(self).fun(),
            match r {
                Ok(_) => asm_expr(expr_view(*bin.rhs), old(self).fun().offs()) matches Ok(tr)
                    && asm_expr(expr_view(*bin.lhs), old(self).fun().offs()) matches Ok(tl)
                    && final(self).out() == old(self).out() + (tr + push_text() + tl
                    + pop_rdi_text()) && final(self).stack_depth() == old(self).stack_depth(),
                Err(_) => asm_expr(expr_view(*bin.rhs), old(self).fun().offs()) is Err
                    || asm_expr(expr_view(*bin.lhs), old(self).fun().offs()) is Err,
            },
        decreases *bin, 0int,
    {
        self.gen_expr(&bin.rhs)?;
        self.push();
        self.gen_expr(&bin.lhs)?;
        self.pop("%rdi");
        proof {
            let offs = old(self).fun().offs();
            let tr = asm_expr(expr_view(*bin.rhs), offs)->Ok_0;
            let tl = asm_expr(expr_view(*bin.lhs), offs)->Ok_0;
            assert(final(self).out() =~= old(self).out() + (tr + push_text() + tl
                + pop_rdi_text()));
        }
        Ok(())
    }

    /// Lower a unary node: negation in place, or nothing for the no-op
    /// prefix plus. The retained operators are a semantic error.
    pub fn gen_unary(&mut self, u: &UnaryExpr) -> (r: Result<(), Error>)
        requires
            wf_expr(expr_view(*u.lhs), old(self).fun().locals@.len() as int),
        ensures
            final(self).ctr() == old(self).ctr(),
            final(self).fun() == old(self).fun(),
            ({
                let m = ExprModel::Unary(u.op, Box::new(expr_view(*u.lhs)));
                match r {
                    Ok(_) => asm_expr(m, old(self).fun().offs()) matches Ok(t) && final(self).out() == old(self).out() + t && final(self).stack_depth() == old(self).stack_depth(),
                    Err(_) => asm_expr(m, old(self).fun().offs()) is Err,
                }
            }),
        decreases *u, 0int,
    {
        match u.op {
            UnaryOp::Neg => {
                self.gen_expr(&u.lhs)?;
                self.writeln("  neg %rax");
                proof {
                    let offs = old(self).fun().offs();
                    let t = asm_expr(expr_view(*u.lhs), offs)->Ok_0;
                    assert(final(self).out() =~= old(self).out() + (t + "  neg %rax"@ + nl()));
                }
                Ok(())
            },
            UnaryOp::NoOp => {
                self.gen_expr(&u.lhs)?;
                Ok(())
            },
            _ => Err(Error::new(String::from_str("unsupported unary operator"), None)),
        }
    }

    /// Lower a binary node: the shared front, then the operator tail.
    #[verifier::rlimit(100)]
    pub fn gen_binary(&mut self, node: &BinaryExpr) -> (r: Result<(), Error>)
        requires
            wf_expr(expr_view(*node.lhs), old(self).fun().locals@.len() as int),
            wf_expr(expr_view(*node.rhs), old(self).fun().locals@.len() as int),
        ensures
            final(self).ctr() == old(self).ctr(),
            final(self).fun() == old(self).fun(),
            ({
                let m = ExprModel::Binary(
                    node.op,
                    Box::new(expr_view(*node.lhs)),
                    Box::new(expr_view(*node.rhs)),
                );
                match r {
                    Ok(_) => asm_expr(m, old(self).fun().offs()) matches Ok(t) && final(self).out() == old(self).out() + t && final(self).stack_depth() == old(self).stack_depth(),
                    Err(_) => asm_expr(m, old(self).fun().offs()) is Err,
                }
            }),
        decreases *node, 1int,
    {
        match node.op {
            BinOp::Add => {
                self.recurse_binary(node)?;
                self.writeln("  add %rdi, %rax");
            },
            BinOp::Sub => {
                self.recurse_binary(node)?;
                self.writeln("  sub %rdi, %rax");
            },
            BinOp::Mul => {
                self.recurse_binary(node)?;
                self.writeln("  imul %rdi, %rax");
            },
            BinOp::Div => {
                self.recurse_binary(node)?;
                self.writeln("  cqo");
                self.writeln("  idiv %rdi");
            },
            BinOp::GreaterEqCmp => {
                self.recurse_binary(node)?;
                self.writeln("  cmp %rdi, %rax");
                self.writeln("  setge %al");
                self.writeln("  movzb %al, %rax");
            },
            BinOp::LowerEqCmp => {
                self.recurse_binary(node)?;
                self.writeln("  cmp %rdi, %rax");
                self.writeln("  setle %al");
                self.writeln("  movzb %al, %rax");
            },
            BinOp::GreaterCmp => {
                self.recurse_binary(node)?;
                self.writeln("  cmp %rdi, %rax");
                self.writeln("  setg %al");
                self.writeln("  movzb %al, %rax");
            },
            BinOp::LowerCmp => {
                self.recurse_binary(node)?;
                self.writeln("  cmp %rdi, %rax");
                self.writeln("  setl %al");
                self.writeln("  movzb %al, %rax");
            },
            BinOp::EqCmp => {
                self.recurse_binary(node)?;
                self.writeln("  cmp %rdi, %rax");
                self.writeln("  sete %al");
                self.writeln("  movzb %al, %rax");
            },
            BinOp::NeqCmp => {
                self.recurse_binary(node)?;
                self.writeln("  cmp %rdi, %rax");
                self.writeln("  setne %al");
                self.writeln("  movzb %al, %rax");
            },
        }
        proof {
            let offs = old(self).fun().offs();
            let tr = asm_expr(expr_view(*node.rhs), offs)->Ok_0;
            let tl = asm_expr(expr_view(*node.lhs), offs)->Ok_0;
            assert(final(self).out() =~= old(self).out() + (tr + push_text() + tl
                + pop_rdi_text() + bin_tail(node.op)));
        }
        Ok(())
    }

    /// Lower one expression into the accumulator.
    #[verifier::rlimit(100)]
    pub fn gen_expr(&mut self, e: &Expression) -> (r: Result<(), Error>)
        requires
            wf_expr(e@, old(self).fun().locals@.len() as int),
        ensures
            final(self).ctr() == old(self).ctr(),
            final(self).fun() == old(self).fun(),
            match r {
                Ok(_) => asm_expr(e@, old(self).fun().offs()) matches Ok(t) && final(self).out()
                    == old(self).out() + t && final(self).stack_depth() == old(self).stack_depth(),
                Err(_) => asm_expr(e@, old(self).fun().offs()) is Err,
            },
        decreases *e, 2int,
    {
        match e {
            Expression::Unary(u) => {
                self.gen_unary(u)?;
                Ok(())
            },
            Expression::Assignment(a) => match &*a.lhs {
                Expression::Identifier(local) => {
                    proof {
                        assert(expr_view(*a.lhs) == ExprModel::Var(local.0 as int));
                        assert(wf_expr(
                            expr_view(*a.lhs),
                            old(self).fun().locals@.len() as int,
                        ));
                    }
                    self.gen_addr(*local);
                    self.push();
                    self.gen_expr(&a.rhs)?;
                    self.pop("%rdi");
                    self.writeln("  mov %rax, (%rdi)");
                    proof {
                        let offs = old(self).fun().offs();
                        let t = asm_expr(expr_view(*a.rhs), offs)->Ok_0;
                        assert(final(self).out() =~= old(self).out() + (addr_text(
                            offs[local.0 as int],
                        ) + push_text() + t + pop_rdi_text() + store_text()));
                    }
                    Ok(())
                },
                _ => Err(
                    Error::new(
                        String::from_str("assignment needs an identifier on its left"),
                        None,
                    ),
                ),
            },
            Expression::NumberLiteral(n) => {
                self.write("  mov $");
                self.emit_num(*n);
                self.writeln(", %rax");
                proof {
                    assert(final(self).out() =~= old(self).out() + ("  mov $"@ + dec_str(
                        *n as nat,
                    ) + ", %rax"@ + nl()));
                }
                Ok(())
            },
            Expression::Identifier(local) => {
                self.gen_addr(*local);
                self.writeln("  mov (%rax), %rax");
                proof {
                    let offs = old(self).fun().offs();
                    assert(final(self).out() =~= old(self).out() + (addr_text(
                        offs[local.0 as int],
                    ) + load_text()));
                }
                Ok(())
            },
            Expression::Binary(b) => {
                self.gen_binary(b)?;
                Ok(())
            },
            Expression::Pointer(p) => match p.op {
                PointerOp::Ref => match &*p.arg {
                    Expression::Identifier(local) => {
                        proof {
                            assert(expr_view(*p.arg) == ExprModel::Var(local.0 as int));
                            assert(wf_expr(
                                expr_view(*p.arg),
                                old(self).fun().locals@.len() as int,
                            ));
                        }
                        self.gen_addr(*local);
                        Ok(())
                    },
                    _ => Err(
                        Error::new(
                            String::from_str("cannot take the address of this expression"),
                            None,
                        ),
                    ),
                },
                PointerOp::Deref => {
                    self.gen_expr(&p.arg)?;
                    self.writeln("  mov (%rax), %rax");
                    proof {
                        let offs = old(self).fun().offs();
                        let t = asm_expr(expr_view(*p.arg), offs)->Ok_0;
                        assert(final(self).out() =~= old(self).out() + (t + load_text()));
                    }
                    Ok(())
                },
            },
        }
    }

    /// Lower one statement. The label counter moves forward by exactly the
    /// number of fresh labels the statement's control structure needs.
    #[verifier::rlimit(100)]
    pub fn gen_stmt(&mut self, stmt: &Statement) -> (r: Result<(), Error>)
        requires
            wf_stmt(stmt@, old(self).fun().locals@.len() as int),
            old(self).ctr() + cc_stmt(stmt@) <= usize::MAX,
        ensures
            final(self).fun() == old(self).fun(),
            match r {
                Ok(_) => asm_stmt(stmt@, old(self).fun().offs(), old(self).ctr()) matches Ok(
                    (t, c2),
                ) && final(self).out() == old(self).out() + t && final(self).ctr() == c2 && final(self).stack_depth() == old(self).stack_depth(),
                Err(_) => asm_stmt(stmt@, old(self).fun().offs(), old(self).ctr()) is Err,
            },
        decreases *stmt, 1int,
    {
        match stmt {
            Statement::Expr(e) => {
                self.gen_expr(e)?;
                Ok(())
            },
            Statement::Return(e) => {
                self.gen_expr(e)?;
                self.writeln("  jmp .L.return");
                proof {
                    let offs = old(self).fun().offs();
                    let t = asm_expr(e@, offs)->Ok_0;
                    assert(final(self).out() =~= old(self).out() + (t + "  jmp .L.return"@
                        + nl()));
                }
                Ok(())
            },
            Statement::Compound(c) => {
                let r = self.gen_stmts(&c.stmts);
                r
            },
            Statement::Empty => {
                proof {
                    assert(old(self).out() + Seq::<char>::empty() =~= old(self).out());
                }
                Ok(())
            },
            Statement::If(i) => {
                let r = self.gen_if(i);
                r
            },
            Statement::While(w) => {
                let r = self.gen_while(w);
                r
            },
            Statement::For(f) => {
                let r = self.gen_for(f);
                r
            },
        }
    }


    /// Lower an `if`: test the condition against zero, branch to a fresh
    /// else label, funnel both paths to a fresh end label.
    #[verifier::rlimit(100)]
    fn gen_if(&mut self, i: &IfStatement) -> (r: Result<(), Error>)
        requires
            wf_stmt(if_view(i), old(self).fun().locals@.len() as int),
            old(self).ctr() + cc_stmt(if_view(i)) <= usize::MAX,
        ensures
            final(self).fun() == old(self).fun(),
            match r {
                Ok(_) => asm_stmt(if_view(i), old(self).fun().offs(), old(self).ctr()) matches Ok(
                    (t, c2),
                ) && final(self).out() == old(self).out() + t && final(self).ctr() == c2 && final(self).stack_depth() == old(self).stack_depth(),
                Err(_) => asm_stmt(if_view(i), old(self).fun().offs(), old(self).ctr()) is Err,
            },
        decreases *i, 0int,
    {
        let ghost offs = self.fun().offs();
        let ghost c0 = self.ctr();
        self.gen_expr(&i.condition)?;
        let ghost tc = asm_expr(i.condition@, offs)->Ok_0;
        let ghost mut acc = tc;
        self.writeln("  cmp $0, %rax");
        proof {
            lemma_app2(old(self).out(), acc, cmp_zero());
            acc = acc + cmp_zero();
        }
        let count = self.count_inc();
        let ghost m = count as nat;
        self.emit_je_else(count);
        proof {
            lemma_app2(old(self).out(), acc, je_else(m));
            acc = acc + je_else(m);
        }
        self.gen_stmt(&i.then_branch)?;
        let ghost tt = asm_stmt(i.then_branch@, offs, c0 + 1)->Ok_0.0;
        proof {
            lemma_app2(old(self).out(), acc, tt);
            acc = acc + tt;
        }
        let ghost c2 = self.ctr();
        self.emit_jmp_end(count);
        proof {
            lemma_app2(old(self).out(), acc, jmp_end(m));
            acc = acc + jmp_end(m);
        }
        self.emit_label_else(count);
        proof {
            lemma_app2(old(self).out(), acc, label_else(m));
            acc = acc + label_else(m);
        }
        match &i.else_branch {
            Some(eb) => {
                proof {
                    lemma_asm_stmt_counter(i.then_branch@, offs, c0 + 1);
                }
                self.gen_stmt(eb)?;
                proof {
                    let te = asm_stmt(else_view(i), offs, c2)->Ok_0.0;
                    lemma_app2(old(self).out(), acc, te);
                    acc = acc + te;
                }
            },
            None => {},
        }
        self.emit_label_end(count);
        proof {
            lemma_app2(old(self).out(), acc, label_end(m));
            acc = acc + label_end(m);
        }
        Ok(())
    }

    /// Lower a `while`: a fresh begin label, the optional zero test that
    /// jumps to the matching end label, the body, and the back edge.
    #[verifier::rlimit(100)]
    fn gen_while(&mut self, w: &WhileStatement) -> (r: Result<(), Error>)
        requires
            wf_stmt(while_view(w), old(self).fun().locals@.len() as int),
            old(self).ctr() + cc_stmt(while_view(w)) <= usize::MAX,
        ensures
            final(self).fun() == old(self).fun(),
            match r {
                Ok(_) => asm_stmt(while_view(w), old(self).fun().offs(), old(self).ctr())
                    matches Ok((t, c2)) && final(self).out() == old(self).out() + t && final(self).ctr() == c2 && final(self).stack_depth() == old(self).stack_depth(),
                Err(_) => asm_stmt(while_view(w), old(self).fun().offs(), old(self).ctr()) is Err,
            },
        decreases *w, 0int,
    {
        let ghost offs = self.fun().offs();
        let ghost c0 = self.ctr();
        let count = self.count_inc();
        let ghost m = count as nat;
        self.emit_label_begin(count);
        let ghost mut acc = label_begin(m);
        match &w.condition {
            Some(e) => {
                self.gen_expr(e)?;
                proof {
                    let tc = asm_expr(e@, offs)->Ok_0;
                    lemma_app2(old(self).out(), acc, tc);
                    acc = acc + tc;
                }
                self.writeln("  cmp $0, %rax");
                proof {
                    lemma_app2(old(self).out(), acc, cmp_zero());
                    acc = acc + cmp_zero();
                }
                self.emit_je_end(count);
                proof {
                    lemma_app2(old(self).out(), acc, je_end(m));
                    acc = acc + je_end(m);
                }
            },
            None => {},
        }
        self.gen_stmt(&w.body)?;
        proof {
            let tb = asm_stmt(w.body@, offs, c0 + 1)->Ok_0.0;
            lemma_app2(old(self).out(), acc, tb);
            acc = acc + tb;
        }
        self.emit_jmp_begin(count);
        proof {
            lemma_app2(old(self).out(), acc, jmp_begin(m));
            acc = acc + jmp_begin(m);
        }
        self.emit_label_end(count);
        proof {
            lemma_app2(old(self).out(), acc, label_end(m));
            acc = acc + label_end(m);
        }
        Ok(())
    }

    /// Lower a `for`: the optional init once, then as `while`, with the
    /// optional update before the back edge.
    #[verifier::rlimit(100)]
    fn gen_for(&mut self, f: &ForStatement) -> (r: Result<(), Error>)
        requires
            wf_stmt(for_view(f), old(self).fun().locals@.len() as int),
            old(self).ctr() + cc_stmt(for_view(f)) <= usize::MAX,
        ensures
            final(self).fun() == old(self).fun(),
            match r {
                Ok(_) => asm_stmt(for_view(f), old(self).fun().offs(), old(self).ctr())
                    matches Ok((t, c2)) && final(self).out() == old(self).out() + t && final(self).ctr() == c2 && final(self).stack_depth() == old(self).stack_depth(),
                Err(_) => asm_stmt(for_view(f), old(self).fun().offs(), old(self).ctr()) is Err,
            },
        decreases *f, 0int,
    {
        let ghost offs = self.fun().offs();
        let ghost c0 = self.ctr();
        match &f.init {
            Some(e) => {
                self.gen_expr(e)?;
            },
            None => {},
        }
        let ghost t0 = match f.init {
            None => Seq::<char>::empty(),
            Some(ref e) => asm_expr(e@, offs)->Ok_0,
        };
        proof {
            if f.init is None {
                assert(old(self).out() + t0 =~= old(self).out());
            }
        }
        let count = self.count_inc();
        let ghost m = count as nat;
        self.emit_label_begin(count);
        let ghost mut hacc = label_begin(m);
        proof {
            lemma_app2(old(self).out(), t0, hacc);
        }
        match &f.condition {
            Some(e) => {
                self.gen_expr(e)?;
                proof {
                    let tc = asm_expr(e@, offs)->Ok_0;
                    lemma_app3(old(self).out(), t0, hacc, tc);
                    hacc = hacc + tc;
                }
                self.writeln("  cmp $0, %rax");
                proof {
                    lemma_app3(old(self).out(), t0, hacc, cmp_zero());
                    hacc = hacc + cmp_zero();
                }
                self.emit_je_end(count);
                proof {
                    lemma_app3(old(self).out(), t0, hacc, je_end(m));
                    hacc = hacc + je_end(m);
                }
            },
            None => {},
        }
        let ghost mut acc = t0 + hacc;
        self.gen_stmt(&f.body)?;
        proof {
            let tb = asm_stmt(f.body@, offs, c0 + 1)->Ok_0.0;
            lemma_app2(old(self).out(), acc, tb);
            acc = acc + tb;
        }
        match &f.update {
            Some(e) => {
                self.gen_expr(e)?;
                proof {
                    let t3 = asm_expr(e@, offs)->Ok_0;
                    lemma_app2(old(self).out(), acc, t3);
                    acc = acc + t3;
                }
            },
            None => {},
        }
        proof {
            if f.update is None {
                assert(self.out() + Seq::<char>::empty() =~= self.out());
                acc = acc + Seq::<char>::empty();
            }
        }
        self.emit_jmp_begin(count);
        proof {
            lemma_app2(old(self).out(), acc, jmp_begin(m));
            acc = acc + jmp_begin(m);
        }
        self.emit_label_end(count);
        proof {
            lemma_app2(old(self).out(), acc, label_end(m));
            acc = acc + label_end(m);
        }
        Ok(())
    }

    /// Emit a conditional jump to an else label.
    fn emit_je_else(&mut self, n: usize)
        ensures
            final(self).out() == old(self).out() + je_else(n as nat),
            final(self).ctr() == old(self).ctr(),
            final(self).stack_depth() == old(self).stack_depth(),
            final(self).fun() == old(self).fun(),
    {
        self.write("  je .L.else.");
        self.emit_num(n);
        self.write("\n");
        proof {
            lemma_app3(old(self).out(), "  je .L.else."@, dec_str(n as nat), nl());
        }
    }

    /// Emit a conditional jump to an end label.
    fn emit_je_end(&mut self, n: usize)
        ensures
            final(self).out() == old(self).out() + je_end(n as nat),
            final(self).ctr() == old(self).ctr(),
            final(self).stack_depth() == old(self).stack_depth(),
            final(self).fun() == old(self).fun(),
    {
        self.write("  je .L.end.");
        self.emit_num(n);
        self.write("\n");
        proof {
            lemma_app3(old(self).out(), "  je .L.end."@, dec_str(n as nat), nl());
        }
    }

    /// Emit an unconditional jump to an end label.
    fn emit_jmp_end(&mut self, n: usize)
        ensures
            final(self).out() == old(self).out() + jmp_end(n as nat),
            final(self).ctr() == old(self).ctr(),
            final(self).stack_depth() == old(self).stack_depth(),
            final(self).fun() == old(self).fun(),
    {
        self.write("  jmp .L.end.");
        self.emit_num(n);
        self.write("\n");
        proof {
            lemma_app3(old(self).out(), "  jmp .L.end."@, dec_str(n as nat), nl());
        }
    }

    /// Emit the back edge of a loop.
    fn emit_jmp_begin(&mut self, n: usize)
        ensures
            final(self).out() == old(self).out() + jmp_begin(n as nat),
            final(self).ctr() == old(self).ctr(),
            final(self).stack_depth() == old(self).stack_depth(),
            final(self).fun() == old(self).fun(),
    {
        self.write("  jmp .L.begin.");
        self.emit_num(n);
        self.write("\n");
        proof {
            lemma_app3(old(self).out(), "  jmp .L.begin."@, dec_str(n as nat), nl());
        }
    }

    /// Define an else label.
    fn emit_label_else(&mut self, n: usize)
        ensures
            final(self).out() == old(self).out() + label_else(n as nat),
            final(self).ctr() == old(self).ctr(),
            final(self).stack_depth() == old(self).stack_depth(),
            final(self).fun() == old(self).fun(),
    {
        self.write(".L.else.");
        self.emit_num(n);
        self.write(":");
        self.write("\n");
        proof {
            lemma_app4(old(self).out(), ".L.else."@, dec_str(n as nat), ":"@, nl());
        }
    }

    /// Define a begin label.
    fn emit_label_begin(&mut self, n: usize)
        ensures
            final(self).out() == old(self).out() + label_begin(n as nat),
            final(self).ctr() == old(self).ctr(),
            final(self).stack_depth() == old(self).stack_depth(),
            final(self).fun() == old(self).fun(),
    {
        self.write(".L.begin.");
        self.emit_num(n);
        self.write(":");
        self.write("\n");
        proof {
            lemma_app4(old(self).out(), ".L.begin."@, dec_str(n as nat), ":"@, nl());
        }
    }

    /// Define an end label.
    fn emit_label_end(&mut self, n: usize)
        ensures
            final(self).out() == old(self).out() + label_end(n as nat),
            final(self).ctr() == old(self).ctr(),
            final(self).stack_depth() == old(self).stack_depth(),
            final(self).fun() == old(self).fun(),
    {
        self.write(".L.end.");
        self.emit_num(n);
        self.write(":");
        self.write("\n");
        proof {
            lemma_app4(old(self).out(), ".L.end."@, dec_str(n as nat), ":"@, nl());
        }
    }

    /// Lower a statement list in order, threading the counter through.
    #[verifier::loop_isolation(false)]
    #[verifier::rlimit(100)]
    fn gen_stmts(&mut self, stmts: &Vec<Statement>) -> (r: Result<(), Error>)
        requires
            wf_stmts(stmts_view(stmts@, 0), 0, old(self).fun().locals@.len() as int),
            old(self).ctr() + cc_stmts(stmts_view(stmts@, 0), 0) <= usize::MAX,
        ensures
            final(self).fun() == old(self).fun(),
            match r {
                Ok(_) => asm_stmts(stmts_view(stmts@, 0), 0, old(self).fun().offs(), old(self).ctr()) matches Ok((t, c2)) && final(self).out() == old(self).out() + t && final(self).ctr() == c2 && final(self).stack_depth() == old(self).stack_depth(),
                Err(_) => asm_stmts(stmts_view(stmts@, 0), 0, old(self).fun().offs(), old(self).ctr()) is Err,
            },
        decreases stmts@, 0int,
    {
        let ghost ssm = stmts_view(stmts@, 0);
        let ghost offs = self.fun().offs();
        let ghost c0 = self.ctr();
        let ghost nloc = self.fun().locals@.len() as int;
        let ghost mut emitted: Seq<char> = Seq::empty();
        proof {
            lemma_stmts_view_index(stmts@, 0);
            assert(old(self).out() + emitted =~= old(self).out());
        }
        let m = stmts.len();
        let mut idx: usize = 0;
        while idx < m
            invariant
                idx <= m,
                self.fun() == old(self).fun(),
                self.stack_depth() == old(self).stack_depth(),
                self.out() == old(self).out() + emitted,
                wf_stmts(ssm, idx as int, nloc),
                self.ctr() + cc_stmts(ssm, idx as int) <= usize::MAX,
                (match asm_stmts(ssm, idx as int, offs, self.ctr()) {
                    Ok((t2, c2)) => asm_stmts(ssm, 0, offs, c0) == Ok::<(Seq<char>, int), ()>(
                        (emitted + t2, c2),
                    ),
                    Err(e) => asm_stmts(ssm, 0, offs, c0) == Err::<(Seq<char>, int), ()>(e),
                }),
            decreases m - idx,
        {
            let ghost ci = self.ctr();
            proof {
                assert(stmts[idx as int]@ == ssm[idx as int]);
            }
            match self.gen_stmt(&stmts[idx]) {
                Ok(_) => {},
                Err(e) => {
                    return Err(e);
                },
            }
            proof {
                let em0 = emitted;
                let t = asm_stmt(ssm[idx as int], offs, ci)->Ok_0.0;
                lemma_asm_stmt_counter(ssm[idx as int], offs, ci);
                emitted = em0 + t;
                assert((old(self).out() + em0) + t =~= old(self).out() + (em0 + t));
                match asm_stmts(ssm, idx + 1, offs, self.ctr()) {
                    Ok((t2, c2)) => {
                        assert(em0 + (t + t2) =~= (em0 + t) + t2);
                    },
                    Err(_) => {},
                }
            }
            idx = idx + 1;
        }
        proof {
            assert(emitted + Seq::<char>::empty() =~= emitted);
        }
        Ok(())
    }

    /// Emit the whole function: prologue with the aligned frame size, the
    /// body, then the single shared epilogue behind `.L.return`.
    #[verifier::rlimit(100)]
    pub fn gen(&mut self) -> (r: Result<(), Error>)
        requires
            old(self).ctr() == 0,
            wf_stmts(old(self).fun().body_view(), 0, old(self).fun().locals@.len() as int),
            cc_stmts(old(self).fun().body_view(), 0) <= usize::MAX,
        ensures
            final(self).fun() == old(self).fun(),
            match r {
                Ok(_) => asm_function(
                    old(self).fun().body_view(),
                    old(self).fun().offs(),
                    old(self).fun().spec_stack_size(),
                ) matches Ok(t) && final(self).out() == old(self).out() + t && final(self).stack_depth() == old(self).stack_depth(),
                Err(_) => asm_function(
                    old(self).fun().body_view(),
                    old(self).fun().offs(),
                    old(self).fun().spec_stack_size(),
                ) is Err,
            },
    {
        self.writeln("  .globl main");
        self.writeln("main:");
        self.writeln("  push %rbp");
        self.writeln("  mov %rsp, %rbp");
        self.write("  sub $");
        let f = self.func;
        let fs = f.stack_size();
        self.emit_num(fs);
        self.writeln(", %rsp");
        self.gen_stmts(&f.body().stmts)?;
        self.writeln(".L.return:");
        self.writeln("  mov %rbp, %rsp");
        self.writeln("  pop %rbp");
        self.writeln("  ret");
        proof {
            let body = old(self).fun().body_view();
            let offs = old(self).fun().offs();
            let t = asm_stmts(body, 0, offs, 0)->Ok_0.0;
            assert(final(self).out() =~= old(self).out() + (prologue(
                old(self).fun().spec_stack_size(),
            ) + t + epilogue()));
        }
        Ok(())
    }
}

/// The image of an `if` statement, named so the lowering helpers can
/// speak about it directly.
pub open spec fn if_view(i: &IfStatement) -> StmtModel {
    StmtModel::If(
        i.condition@,
        Box::new(i.then_branch@),
        match i.else_branch {
            None => None,
            Some(b) => Some(Box::new(b@)),
        },
    )
}

/// The image of the else branch of an `if` that has one.
pub open spec fn else_view(i: &IfStatement) -> StmtModel {
    match i.else_branch {
        None => StmtModel::Empty,
        Some(b) => b@,
    }
}

/// The image of a `while` statement.
pub open spec fn while_view(w: &WhileStatement) -> StmtModel {
    StmtModel::While(opt_expr_view(w.condition), Box::new(w.body@))
}

/// The image of a `for` statement.
pub open spec fn for_view(f: &ForStatement) -> StmtModel {
    StmtModel::For(
        opt_expr_view(f.init),
        opt_expr_view(f.condition),
        opt_expr_view(f.update),
        Box::new(f.body@),
    )
}


// ---------------------------------------------------------------------------
// Label uniqueness
// ---------------------------------------------------------------------------

/// The label numbers a statement's lowering consumes, in emission order:
/// each control statement takes the next fresh counter value, its
/// branches continue from there, and (as `lemma_asm_stmt_counter` shows)
/// successful lowering moves the counter by exactly the control count.
pub open spec fn label_nums_stmt(s: StmtModel, c: int) -> Seq<int>
    decreases s, 0int,
{
    match s {
        StmtModel::Compound(ss) => label_nums_stmts(ss, 0, c),
        StmtModel::Expr(_) => Seq::empty(),
        StmtModel::Ret(_) => Seq::empty(),
        StmtModel::Empty => Seq::empty(),
        StmtModel::If(_, t, e) => seq![c + 1] + label_nums_stmt(*t, c + 1) + (match e {
            None => Seq::<int>::empty(),
            Some(eb) => label_nums_stmt(*eb, c + 1 + cc_stmt(*t)),
        }),
        StmtModel::While(_, b) => seq![c + 1] + label_nums_stmt(*b, c + 1),
        StmtModel::For(_, _, _, b) => seq![c + 1] + label_nums_stmt(*b, c + 1),
    }
}

pub open spec fn label_nums_stmts(ss: Seq<StmtModel>, i: int, c: int) -> Seq<int>
    decreases ss, ss.len() - i,
{
    if i < 0 || i >= ss.len() {
        Seq::empty()
    } else {
        label_nums_stmt(ss[i], c) + label_nums_stmts(ss, i + 1, c + cc_stmt(ss[i]))
    }
}

pub open spec fn strictly_increasing(q: Seq<int>) -> bool {
    forall|a: int, b: int| 0 <= a < b < q.len() ==> q[a] < q[b]
}

/// Two strictly increasing runs separated by a bound concatenate to a
/// strictly increasing run.
proof fn lemma_sorted_concat(x: Seq<int>, y: Seq<int>, lo: int)
    requires
        strictly_increasing(x),
        strictly_increasing(y),
        forall|k: int| 0 <= k < x.len() ==> #[trigger] x[k] <= lo,
        forall|k: int| 0 <= k < y.len() ==> #[trigger] y[k] > lo,
    ensures
        strictly_increasing(x + y),
{
    assert forall|a: int, b: int| 0 <= a < b < (x + y).len() implies (x + y)[a] < (x + y)[b] by {
        if b < x.len() {
        } else if a >= x.len() {
        } else {
            assert((x + y)[a] == x[a]);
            assert((x + y)[b] == y[b - x.len()]);
        }
    }
}

/// The numbers a statement consumes lie strictly inside the counter
/// window it moves through, in strictly increasing order.
pub proof fn lemma_label_nums_stmt(s: StmtModel, c: int)
    ensures
        forall|k: int|
            0 <= k < label_nums_stmt(s, c).len() ==> c < #[trigger] label_nums_stmt(s, c)[k] <= c
                + cc_stmt(s),
        strictly_increasing(label_nums_stmt(s, c)),
    decreases s, 0int,
{
    match s {
        StmtModel::Compound(ss) => {
            lemma_label_nums_stmts(ss, 0, c);
        },
        StmtModel::If(_, t, e) => {
            lemma_label_nums_stmt(*t, c + 1);
            let a = seq![c + 1];
            let x = label_nums_stmt(*t, c + 1);
            match e {
                None => {
                    lemma_sorted_concat(a, x, c + 1);
                    assert(a + x + Seq::<int>::empty() =~= a + x);
                },
                Some(eb) => {
                    lemma_label_nums_stmt(*eb, c + 1 + cc_stmt(*t));
                    let y = label_nums_stmt(*eb, c + 1 + cc_stmt(*t));
                    lemma_sorted_concat(a, x, c + 1);
                    lemma_sorted_concat(a + x, y, c + 1 + cc_stmt(*t));
                },
            }
        },
        StmtModel::While(_, b) => {
            lemma_label_nums_stmt(*b, c + 1);
            lemma_sorted_concat(seq![c + 1], label_nums_stmt(*b, c + 1), c + 1);
        },
        StmtModel::For(_, _, _, b) => {
            lemma_label_nums_stmt(*b, c + 1);
            lemma_sorted_concat(seq![c + 1], label_nums_stmt(*b, c + 1), c + 1);
        },
        _ => {},
    }
}

pub proof fn lemma_label_nums_stmts(ss: Seq<StmtModel>, i: int, c: int)
    ensures
        forall|k: int|
            0 <= k < label_nums_stmts(ss, i, c).len() ==> c < #[trigger] label_nums_stmts(
                ss,
                i,
                c,
            )[k] <= c + cc_stmts(ss, i),
        strictly_increasing(label_nums_stmts(ss, i, c)),
    decreases ss, ss.len() - i,
{
    if 0 <= i < ss.len() {
        lemma_label_nums_stmt(ss[i], c);
        lemma_label_nums_stmts(ss, i + 1, c + cc_stmt(ss[i]));
        lemma_sorted_concat(
            label_nums_stmt(ss[i], c),
            label_nums_stmts(ss, i + 1, c + cc_stmt(ss[i])),
            c + cc_stmt(ss[i]),
        );
    }
}

/// Label uniqueness: across one compilation no two control statements
/// receive the same label number. The counter starts at zero, every
/// control statement takes the next value in emission order, and those
/// values are strictly increasing, hence pairwise distinct; the three
/// spellings `.L.else.`, `.L.begin.` and `.L.end.` never mix numbers
/// between statements, and a conditional jump's target label carries the
/// same number as the jump that names it, inside one statement.
pub proof fn lemma_label_uniqueness(body: Seq<StmtModel>)
    ensures
        strictly_increasing(label_nums_stmts(body, 0, 0)),
        forall|a: int, b: int|
            0 <= a < b < label_nums_stmts(body, 0, 0).len() ==> label_nums_stmts(body, 0, 0)[a]
                != label_nums_stmts(body, 0, 0)[b],
        forall|k: int|
            0 <= k < label_nums_stmts(body, 0, 0).len() ==> #[trigger] label_nums_stmts(
                body,
                0,
                0,
            )[k] >= 1,
{
    lemma_label_nums_stmts(body, 0, 0);
}


// ---------------------------------------------------------------------------
// Label names
// ---------------------------------------------------------------------------

/// The three label families of the control-flow lowering.
pub enum LabelKind {
    ElseLabel,
    BeginLabel,
    EndLabel,
}

/// A label's spelled name, without the defining colon.
pub open spec fn label_name(k: LabelKind, n: nat) -> Seq<char> {
    match k {
        LabelKind::ElseLabel => ".L.else."@ + dec_str(n),
        LabelKind::BeginLabel => ".L.begin."@ + dec_str(n),
        LabelKind::EndLabel => ".L.end."@ + dec_str(n),
    }
}

proof fn reveal_digits()
    ensures
        dec_digit(0).len() == 1 && dec_digit(0)[0] == '0',
        dec_digit(1).len() == 1 && dec_digit(1)[0] == '1',
        dec_digit(2).len() == 1 && dec_digit(2)[0] == '2',
        dec_digit(3).len() == 1 && dec_digit(3)[0] == '3',
        dec_digit(4).len() == 1 && dec_digit(4)[0] == '4',
        dec_digit(5).len() == 1 && dec_digit(5)[0] == '5',
        dec_digit(6).len() == 1 && dec_digit(6)[0] == '6',
        dec_digit(7).len() == 1 && dec_digit(7)[0] == '7',
        dec_digit(8).len() == 1 && dec_digit(8)[0] == '8',
        dec_digit(9).len() == 1 && dec_digit(9)[0] == '9',
{
    reveal_strlit("0");
    reveal_strlit("1");
    reveal_strlit("2");
    reveal_strlit("3");
    reveal_strlit("4");
    reveal_strlit("5");
    reveal_strlit("6");
    reveal_strlit("7");
    reveal_strlit("8");
    reveal_strlit("9");
}

/// One digit, one character; distinct digits, distinct characters.
proof fn lemma_dec_digit_injective(a: int, b: int)
    requires
        0 <= a <= 9,
        0 <= b <= 9,
    ensures
        dec_digit(a).len() == 1,
        dec_digit(a) == dec_digit(b) ==> a == b,
{
    reveal_digits();
    if a != b {
        assert(dec_digit(a)[0] != dec_digit(b)[0]);
    }
}

/// A decimal spelling is never empty, and spells two or more characters
/// exactly for the numbers that need them.
pub proof fn lemma_dec_str_len(n: nat)
    ensures
        dec_str(n).len() >= 1,
        n >= 10 ==> dec_str(n).len() >= 2,
    decreases n,
{
    reveal_digits();
    if n >= 10 {
        lemma_dec_str_len(n / 10);
    } else {
        lemma_dec_digit_injective(n as int, n as int);
    }
}

/// Decimal rendering is injective: equal spellings mean equal numbers.
pub proof fn lemma_dec_str_injective(a: nat, b: nat)
    ensures
        dec_str(a) == dec_str(b) ==> a == b,
    decreases a,
{
    if dec_str(a) == dec_str(b) {
        lemma_dec_str_len(a);
        lemma_dec_str_len(b);
        if a < 10 && b < 10 {
            lemma_dec_digit_injective(a as int, b as int);
        } else if a < 10 || b < 10 {
            // One side spells one character, the other at least two.
            if a < 10 {
                lemma_dec_digit_injective(a as int, a as int);
            } else {
                lemma_dec_digit_injective(b as int, b as int);
            }
            assert(false);
        } else {
            let xa = dec_str(a / 10);
            let xb = dec_str(b / 10);
            let da = dec_digit((a % 10) as int);
            let db = dec_digit((b % 10) as int);
            lemma_dec_digit_injective((a % 10) as int, (b % 10) as int);
            lemma_dec_digit_injective((b % 10) as int, (a % 10) as int);
            assert((xa + da).last() == da[0]);
            assert((xb + db).last() == db[0]);
            assert(da =~= db);
            assert((xa + da).drop_last() =~= xa);
            assert((xb + db).drop_last() =~= xb);
            assert(xa == xb);
            lemma_dec_str_injective(a / 10, b / 10);
        }
    }
}

/// Splitting a prefixed name: equal texts with the same prefix length
/// carry equal suffixes.
proof fn lemma_prefix_cancel(p: Seq<char>, x: Seq<char>, y: Seq<char>)
    requires
        p + x == p + y,
    ensures
        x == y,
{
    assert((p + x).len() == p.len() + x.len());
    assert((p + y).len() == p.len() + y.len());
    assert(x.len() == y.len());
    assert forall|i: int| 0 <= i < x.len() implies x[i] == y[i] by {
        assert((p + x)[p.len() + i] == x[i]);
        assert((p + y)[p.len() + i] == y[i]);
    }
    assert(x =~= y);
}

/// Label names never collide across families or numbers: the three
/// spellings differ at a fixed character, and the number spelling is
/// injective.
pub proof fn lemma_label_name_injective(k1: LabelKind, n1: nat, k2: LabelKind, n2: nat)
    ensures
        label_name(k1, n1) == label_name(k2, n2) ==> (k1 == k2 && n1 == n2),
{
    reveal_strlit(".L.else.");
    reveal_strlit(".L.begin.");
    reveal_strlit(".L.end.");
    lemma_dec_str_len(n1);
    lemma_dec_str_len(n2);
    if label_name(k1, n1) == label_name(k2, n2) {
        match (k1, k2) {
            (LabelKind::ElseLabel, LabelKind::ElseLabel) => {
                lemma_prefix_cancel(".L.else."@, dec_str(n1), dec_str(n2));
                lemma_dec_str_injective(n1, n2);
            },
            (LabelKind::BeginLabel, LabelKind::BeginLabel) => {
                lemma_prefix_cancel(".L.begin."@, dec_str(n1), dec_str(n2));
                lemma_dec_str_injective(n1, n2);
            },
            (LabelKind::EndLabel, LabelKind::EndLabel) => {
                lemma_prefix_cancel(".L.end."@, dec_str(n1), dec_str(n2));
                lemma_dec_str_injective(n1, n2);
            },
            (LabelKind::ElseLabel, LabelKind::BeginLabel) => {
                assert(label_name(k1, n1)[3] == 'e');
                assert(label_name(k2, n2)[3] == 'b');
            },
            (LabelKind::BeginLabel, LabelKind::ElseLabel) => {
                assert(label_name(k1, n1)[3] == 'b');
                assert(label_name(k2, n2)[3] == 'e');
            },
            (LabelKind::ElseLabel, LabelKind::EndLabel) => {
                assert(label_name(k1, n1)[4] == 'l');
                assert(label_name(k2, n2)[4] == 'n');
            },
            (LabelKind::EndLabel, LabelKind::ElseLabel) => {
                assert(label_name(k1, n1)[4] == 'n');
                assert(label_name(k2, n2)[4] == 'l');
            },
            (LabelKind::BeginLabel, LabelKind::EndLabel) => {
                assert(label_name(k1, n1)[3] == 'b');
                assert(label_name(k2, n2)[3] == 'e');
            },
            (LabelKind::EndLabel, LabelKind::BeginLabel) => {
                assert(label_name(k1, n1)[3] == 'e');
                assert(label_name(k2, n2)[3] == 'b');
            },
        }
    }
}

/// The label definitions a statement's lowering emits: the family and the
/// number of each defined label.
pub open spec fn label_defs_stmt(s: StmtModel, c: int) -> Seq<(LabelKind, int)>
    decreases s, 0int,
{
    match s {
        StmtModel::Compound(ss) => label_defs_stmts(ss, 0, c),
        StmtModel::Expr(_) => Seq::empty(),
        StmtModel::Ret(_) => Seq::empty(),
        StmtModel::Empty => Seq::empty(),
        StmtModel::If(_, t, e) => seq![
            (LabelKind::ElseLabel, c + 1),
            (LabelKind::EndLabel, c + 1),
        ] + label_defs_stmt(*t, c + 1) + (match e {
            None => Seq::<(LabelKind, int)>::empty(),
            Some(eb) => label_defs_stmt(*eb, c + 1 + cc_stmt(*t)),
        }),
        StmtModel::While(_, b) => seq![
            (LabelKind::BeginLabel, c + 1),
            (LabelKind::EndLabel, c + 1),
        ] + label_defs_stmt(*b, c + 1),
        StmtModel::For(_, _, _, b) => seq![
            (LabelKind::BeginLabel, c + 1),
            (LabelKind::EndLabel, c + 1),
        ] + label_defs_stmt(*b, c + 1),
    }
}

pub open spec fn label_defs_stmts(ss: Seq<StmtModel>, i: int, c: int) -> Seq<(LabelKind, int)>
    decreases ss, ss.len() - i,
{
    if i < 0 || i >= ss.len() {
        Seq::empty()
    } else {
        label_defs_stmt(ss[i], c) + label_defs_stmts(ss, i + 1, c + cc_stmt(ss[i]))
    }
}

/// Definitions are pairwise distinct and numbered inside the counter
/// window the statement moves through.
pub open spec fn defs_ok(q: Seq<(LabelKind, int)>, lo: int, hi: int) -> bool {
    &&& forall|k: int| 0 <= k < q.len() ==> lo < (#[trigger] q[k]).1 <= hi
    &&& forall|k1: int, k2: int| 0 <= k1 < k2 < q.len() ==> q[k1] != q[k2]
}

/// Distinct windows concatenate to distinct definitions.
proof fn lemma_defs_concat(x: Seq<(LabelKind, int)>, y: Seq<(LabelKind, int)>, lo: int, mid: int, hi: int)
    requires
        defs_ok(x, lo, mid),
        defs_ok(y, mid, hi),
        lo <= mid <= hi,
    ensures
        defs_ok(x + y, lo, hi),
{
    assert forall|k: int| 0 <= k < (x + y).len() implies lo < (#[trigger] (x + y)[k]).1 <= hi by {
        if k < x.len() {
            assert((x + y)[k] == x[k]);
        } else {
            assert((x + y)[k] == y[k - x.len()]);
        }
    }
    assert forall|k1: int, k2: int| 0 <= k1 < k2 < (x + y).len() implies (x + y)[k1] != (x
        + y)[k2] by {
        if k2 < x.len() {
        } else if k1 >= x.len() {
        } else {
            assert((x + y)[k1] == x[k1]);
            assert((x + y)[k2] == y[k2 - x.len()]);
            assert(x[k1].1 <= mid);
            assert(y[k2 - x.len()].1 > mid);
        }
    }
}

pub proof fn lemma_label_defs_stmt(s: StmtModel, c: int)
    ensures
        defs_ok(label_defs_stmt(s, c), c, c + cc_stmt(s)),
    decreases s, 0int,
{
    match s {
        StmtModel::Compound(ss) => {
            lemma_label_defs_stmts(ss, 0, c);
        },
        StmtModel::If(_, t, e) => {
            let hd = seq![(LabelKind::ElseLabel, c + 1), (LabelKind::EndLabel, c + 1)];
            assert(defs_ok(hd, c, c + 1));
            lemma_label_defs_stmt(*t, c + 1);
            lemma_defs_concat(hd, label_defs_stmt(*t, c + 1), c, c + 1, c + 1 + cc_stmt(*t));
            match e {
                None => {
                    assert(hd + label_defs_stmt(*t, c + 1) + Seq::<(LabelKind, int)>::empty()
                        =~= hd + label_defs_stmt(*t, c + 1));
                },
                Some(eb) => {
                    lemma_label_defs_stmt(*eb, c + 1 + cc_stmt(*t));
                    lemma_defs_concat(
                        hd + label_defs_stmt(*t, c + 1),
                        label_defs_stmt(*eb, c + 1 + cc_stmt(*t)),
                        c,
                        c + 1 + cc_stmt(*t),
                        c + cc_stmt(s),
                    );
                },
            }
        },
        StmtModel::While(_, b) => {
            let hd = seq![(LabelKind::BeginLabel, c + 1), (LabelKind::EndLabel, c + 1)];
            assert(defs_ok(hd, c, c + 1));
            lemma_label_defs_stmt(*b, c + 1);
            lemma_defs_concat(hd, label_defs_stmt(*b, c + 1), c, c + 1, c + cc_stmt(s));
        },
        StmtModel::For(_, _, _, b) => {
            let hd = seq![(LabelKind::BeginLabel, c + 1), (LabelKind::EndLabel, c + 1)];
            assert(defs_ok(hd, c, c + 1));
            lemma_label_defs_stmt(*b, c + 1);
            lemma_defs_concat(hd, label_defs_stmt(*b, c + 1), c, c + 1, c + cc_stmt(s));
        },
        _ => {},
    }
}

pub proof fn lemma_label_defs_stmts(ss: Seq<StmtModel>, i: int, c: int)
    ensures
        defs_ok(label_defs_stmts(ss, i, c), c, c + cc_stmts(ss, i)),
    decreases ss, ss.len() - i,
{
    if 0 <= i < ss.len() {
        lemma_label_defs_stmt(ss[i], c);
        lemma_label_defs_stmts(ss, i + 1, c + cc_stmt(ss[i]));
        lemma_defs_concat(
            label_defs_stmt(ss[i], c),
            label_defs_stmts(ss, i + 1, c + cc_stmt(ss[i])),
            c,
            c + cc_stmt(ss[i]),
            c + cc_stmts(ss, i),
        );
    }
}

/// Label uniqueness at the level of spelled names: across one
/// compilation, no two label definitions share a name. Each control
/// statement's conditional jump names the very labels that statement
/// defines, so every jump target is defined exactly once.
pub proof fn lemma_label_names_unique(body: Seq<StmtModel>)
    ensures
        forall|a: int, b: int|
            0 <= a < b < label_defs_stmts(body, 0, 0).len() ==> label_name(
                label_defs_stmts(body, 0, 0)[a].0,
                label_defs_stmts(body, 0, 0)[a].1 as nat,
            ) != label_name(
                label_defs_stmts(body, 0, 0)[b].0,
                label_defs_stmts(body, 0, 0)[b].1 as nat,
            ),
{
    let q = label_defs_stmts(body, 0, 0);
    lemma_label_defs_stmts(body, 0, 0);
    assert forall|a: int, b: int| 0 <= a < b < q.len() implies label_name(
        q[a].0,
        q[a].1 as nat,
    ) != label_name(q[b].0, q[b].1 as nat) by {
        lemma_label_name_injective(q[a].0, q[a].1 as nat, q[b].0, q[b].1 as nat);
        assert(q[a] != q[b]);
        assert(q[a].1 > 0 && q[b].1 > 0);
    }
}


// ---------------------------------------------------------------------------
// Evaluation order
// ---------------------------------------------------------------------------

/// The evaluation-order contract for binary expressions: the right
/// operand's code is emitted, and so takes effect, before the left
/// operand's; the pushed right value is then popped into the secondary
/// register and combined.
pub proof fn lemma_evaluation_order(op: BinOp, l: ExprModel, r: ExprModel, offs: Seq<int>)
    requires
        asm_expr(l, offs) is Ok,
        asm_expr(r, offs) is Ok,
    ensures
        asm_expr(ExprModel::Binary(op, Box::new(l), Box::new(r)), offs) == Ok::<Seq<char>, ()>(
            (asm_expr(r, offs)->Ok_0) + push_text() + (asm_expr(l, offs)->Ok_0) + pop_rdi_text()
                + bin_tail(op),
        ),
{
}

/// The evaluation-order contract for assignments: the target's address is
/// computed and parked first, then the right-hand side is evaluated, then
/// the store goes through the popped address.
pub proof fn lemma_assignment_order(i: int, rhs: ExprModel, offs: Seq<int>)
    requires
        0 <= i < offs.len(),
        asm_expr(rhs, offs) is Ok,
    ensures
        asm_expr(
            ExprModel::Assign(AssignmentOp::Eq, Box::new(ExprModel::Var(i)), Box::new(rhs)),
            offs,
        ) == Ok::<Seq<char>, ()>(
            addr_text(offs[i]) + push_text() + (asm_expr(rhs, offs)->Ok_0) + pop_rdi_text()
                + store_text(),
        ),
{
}

} // verus!
