//! Lowering expressions of the source language into a linear list of IR
//! operations, with numbered temporaries for intermediate results.
use crate::diagnostic::CompileError;
use crate::diagnostic::Span;
use crate::lang::{AssignOp, BinOp, DeclKind, Type, UnOp};
use crate::text::{decimal, decimal_string, lemma_decimal_injective};
use vstd::prelude::*;
use vstd::string::*;

verus! {

/// An expression. A number literal is held as the bits of its `f64`
/// value, which lowering carries through unchanged.
pub enum Expr {
    Unary { op: UnOp, expr: Box<Expr> },
    Binary { left: Box<Expr>, op: BinOp, right: Box<Expr> },
    Assign { left: Box<Expr>, right: Box<Expr>, op: AssignOp },
    Number(u64),
    Bool(bool),
    String(String),
    Var(String),
    Array(Vec<Expr>),
    Call { callee: Box<Expr>, args: Vec<Expr> },
    Index { target: Box<Expr>, index: Box<Expr> },
    Member { target: Box<Expr>, field: String },
}

/// An expression with its type and place.
pub struct TypedExpr {
    pub expr: Expr,
    pub ty: Type,
    pub span: Span,
}

/// A statement; only bindings lower to IR.
pub enum Stmt {
    Let { name: String, kind: DeclKind, value: Expr },
    Print { expr: Expr },
    ExprStmt { expr: Expr },
    Return { value: Option<Expr> },
}

/// A parsed program.
pub struct AST {
    pub stmts: Vec<Stmt>,
    pub expr: Option<Expr>,
}

/// A value in IR: a literal, a variable, a temporary, or nothing.
pub enum IRVal {
    Number(u64),
    Bool(bool),
    Str(String),
    Var(String),
    Temp(String),
    Unit,
}

/// An IR operation.
pub enum IROp {
    Assign { name: String, value: IRVal },
    Binary { left: IRVal, op: BinOp, right: IRVal },
    Unary { op: UnOp, value: IRVal },
    Array { values: Vec<IRVal> },
}

/// An IR value as plain values.
pub enum ValView {
    Number(u64),
    Bool(bool),
    Str(Seq<char>),
    Var(Seq<char>),
    Temp(Seq<char>),
    Unit,
}

/// An IR operation as plain values.
pub enum OpView {
    Assign { name: Seq<char>, value: ValView },
    Binary { left: ValView, op: BinOp, right: ValView },
    Unary { op: UnOp, value: ValView },
    Array { values: Seq<ValView> },
}

pub open spec fn val_view(v: IRVal) -> ValView {
    match v {
        IRVal::Number(n) => ValView::Number(n),
        IRVal::Bool(b) => ValView::Bool(b),
        IRVal::Str(s) => ValView::Str(s@),
        IRVal::Var(s) => ValView::Var(s@),
        IRVal::Temp(s) => ValView::Temp(s@),
        IRVal::Unit => ValView::Unit,
    }
}

pub open spec fn val_views(v: Seq<IRVal>) -> Seq<ValView> {
    v.map_values(|x: IRVal| val_view(x))
}

pub open spec fn op_view(o: IROp) -> OpView {
    match o {
        IROp::Assign { name, value } => OpView::Assign { name: name@, value: val_view(value) },
        IROp::Binary { left, op, right } => OpView::Binary {
            left: val_view(left),
            op,
            right: val_view(right),
        },
        IROp::Unary { op, value } => OpView::Unary { op, value: val_view(value) },
        IROp::Array { values } => OpView::Array { values: val_views(values@) },
    }
}

pub open spec fn op_views(v: Seq<IROp>) -> Seq<OpView> {
    v.map_values(|x: IROp| op_view(x))
}

/// The name of temporary number `c`: `__t` and the number.
pub open spec fn temp_name(c: nat) -> Seq<char> {
    "__t"@ + decimal(c)
}

pub open spec fn not_a_variable() -> Seq<char> {
    "assignment target must be variable"@
}

pub open spec fn unsupported() -> Seq<char> {
    "unsupported expression lower_expr_to_ir_inner"@
}

/// Lowering `e` with the temporary counter at `c`: the operations emitted
/// (up to an error, if one comes), the counter after, and the value of
/// `e` or the error. An assignment lowers its right side, then assigns it
/// to its target, which must be a variable; a unary or binary expression
/// lowers its operands left to right and takes the next temporary; an
/// array lowers its items in order and takes the next temporary.
pub open spec fn lower(e: Expr, c: nat) -> (Seq<OpView>, nat, Result<ValView, Seq<char>>)
    decreases e,
{
    match e {
        Expr::Assign { left, right, op } => {
            let r = lower(*right, c);
            match r.2 {
                Err(m) => r,
                Ok(v) => match *left {
                    Expr::Var(name) => (
                        r.0.push(OpView::Assign { name: name@, value: v }),
                        r.1,
                        Ok(ValView::Unit),
                    ),
                    _ => (r.0, r.1, Err(not_a_variable())),
                },
            }
        },
        Expr::Number(n) => (Seq::empty(), c, Ok(ValView::Number(n))),
        Expr::Bool(b) => (Seq::empty(), c, Ok(ValView::Bool(b))),
        Expr::String(s) => (Seq::empty(), c, Ok(ValView::Str(s@))),
        Expr::Var(v) => (Seq::empty(), c, Ok(ValView::Var(v@))),
        Expr::Binary { left, op, right } => {
            let l = lower(*left, c);
            match l.2 {
                Err(m) => l,
                Ok(lv) => {
                    let r = lower(*right, l.1);
                    match r.2 {
                        Err(m) => (l.0 + r.0, r.1, Err(m)),
                        Ok(rv) => (
                            (l.0 + r.0).push(OpView::Binary { left: lv, op, right: rv }),
                            r.1 + 1,
                            Ok(ValView::Temp(temp_name(r.1))),
                        ),
                    }
                },
            }
        },
        Expr::Unary { op, expr } => {
            let a = lower(*expr, c);
            match a.2 {
                Err(m) => a,
                Ok(v) => (
                    a.0.push(OpView::Unary { op, value: v }),
                    a.1 + 1,
                    Ok(ValView::Temp(temp_name(a.1))),
                ),
            }
        },
        Expr::Array(items) => {
            let a = lower_list(items@, c);
            match a.2 {
                Err(m) => (a.0, a.1, Err(m)),
                Ok(vals) => (
                    a.0.push(OpView::Array { values: vals }),
                    a.1 + 1,
                    Ok(ValView::Temp(temp_name(a.1))),
                ),
            }
        },
        _ => (Seq::empty(), c, Err(unsupported())),
    }
}

/// Lowering the expressions `es` in order, stopping at the first error.
pub open spec fn lower_list(es: Seq<Expr>, c: nat) -> (
    Seq<OpView>,
    nat,
    Result<Seq<ValView>, Seq<char>>,
)
    decreases es,
{
    if es.len() == 0 {
        (Seq::empty(), c, Ok(Seq::empty()))
    } else {
        let a = lower_list(es.drop_last(), c);
        match a.2 {
            Err(m) => (a.0, a.1, Err(m)),
            Ok(vs) => {
                let b = lower(es.last(), a.1);
                match b.2 {
                    Err(m) => (a.0 + b.0, b.1, Err(m)),
                    Ok(v) => (a.0 + b.0, b.1, Ok(vs.push(v))),
                }
            },
        }
    }
}

/// The number of nodes of `e`: a bound on the temporaries it takes.
pub open spec fn size(e: Expr) -> nat
    decreases e,
{
    match e {
        Expr::Assign { left, right, op } => 1 + size(*left) + size(*right),
        Expr::Binary { left, op, right } => 1 + size(*left) + size(*right),
        Expr::Unary { op, expr } => 1 + size(*expr),
        Expr::Array(items) => 1 + list_size(items@),
        Expr::Call { callee, args } => 1 + size(*callee) + list_size(args@),
        Expr::Index { target, index } => 1 + size(*target) + size(*index),
        Expr::Member { target, field } => 1 + size(*target),
        _ => 1,
    }
}

pub open spec fn list_size(es: Seq<Expr>) -> nat
    decreases es,
{
    if es.len() == 0 {
        0
    } else {
        list_size(es.drop_last()) + size(es.last())
    }
}

/// Lowering takes at most one temporary per node.
pub proof fn lemma_lower_counter(e: Expr, c: nat)
    ensures
        c <= lower(e, c).1 <= c + size(e),
    decreases e,
{
    match e {
        Expr::Assign { left, right, op } => {
            lemma_lower_counter(*right, c);
        },
        Expr::Binary { left, op, right } => {
            lemma_lower_counter(*left, c);
            lemma_lower_counter(*right, lower(*left, c).1);
        },
        Expr::Unary { op, expr } => {
            lemma_lower_counter(*expr, c);
        },
        Expr::Array(items) => {
            lemma_lower_list_counter(items@, c);
        },
        _ => {},
    }
}

/// Lowering a list takes at most one temporary per node.
pub proof fn lemma_lower_list_counter(es: Seq<Expr>, c: nat)
    ensures
        c <= lower_list(es, c).1 <= c + list_size(es),
    decreases es,
{
    if es.len() > 0 {
        lemma_lower_list_counter(es.drop_last(), c);
        lemma_lower_counter(es.last(), lower_list(es.drop_last(), c).1);
    }
}

/// A lowering whose value is a temporary took it last: the temporary
/// numbered one below the counter after, at or above the counter before.
pub proof fn lemma_lower_temp(e: Expr, c: nat)
    ensures
        lower(e, c).2 matches Ok(ValView::Temp(n)) ==> c + 1 <= lower(e, c).1 && n == temp_name(
            (lower(e, c).1 - 1) as nat,
        ),
    decreases e,
{
    lemma_lower_counter(e, c);
    match e {
        Expr::Binary { left, op, right } => {
            lemma_lower_counter(*left, c);
            lemma_lower_counter(*right, lower(*left, c).1);
        },
        Expr::Unary { op, expr } => {
            lemma_lower_counter(*expr, c);
        },
        Expr::Array(items) => {
            lemma_lower_list_counter(items@, c);
        },
        _ => {},
    }
}

/// Different numbers name different temporaries.
pub proof fn lemma_temp_name_injective(a: nat, b: nat)
    requires
        temp_name(a) == temp_name(b),
    ensures
        a == b,
{
    reveal_strlit("__t");
    assert(temp_name(a).subrange(3, temp_name(a).len() as int) =~= decimal(a));
    assert(temp_name(b).subrange(3, temp_name(b).len() as int) =~= decimal(b));
    lemma_decimal_injective(a, b);
}

/// Temporaries are unique: when two expressions are lowered one after the
/// other, the counter carried from the first to the second, and both give
/// a temporary, the two temporaries differ.
pub proof fn law_temps_unique(e1: Expr, e2: Expr, c: nat)
    ensures
        match (lower(e1, c).2, lower(e2, lower(e1, c).1).2) {
            (Ok(ValView::Temp(n1)), Ok(ValView::Temp(n2))) => n1 != n2,
            _ => true,
        },
{
    let a = lower(e1, c);
    let b = lower(e2, a.1);
    lemma_lower_temp(e1, c);
    lemma_lower_temp(e2, a.1);
    match (a.2, b.2) {
        (Ok(ValView::Temp(n1)), Ok(ValView::Temp(n2))) => {
            if n1 == n2 {
                lemma_temp_name_injective((a.1 - 1) as nat, (b.1 - 1) as nat);
            }
        },
        _ => {},
    }
}

/// Lowering an assignment to a variable: when the right side lowers to a
/// value, the operations are the right side's operations followed by
/// exactly one more, an `Assign` of that value to the variable; the
/// counter is the right side's and the value is unit. When the right side
/// fails, the assignment fails in the same way.
pub proof fn law_assignment_lowers_to_assign(name: String, right: Expr, op: AssignOp, c: nat)
    ensures
        ({
            let r = lower(right, c);
            let a = lower(
                Expr::Assign { left: Box::new(Expr::Var(name)), right: Box::new(right), op },
                c,
            );
            match r.2 {
                Ok(v) => {
                    &&& a.0.len() == r.0.len() + 1
                    &&& a.0.subrange(0, r.0.len() as int) == r.0
                    &&& a.0.last() == OpView::Assign { name: name@, value: v }
                    &&& a.1 == r.1
                    &&& a.2 == Ok::<ValView, Seq<char>>(ValView::Unit)
                },
                Err(m) => a.0 == r.0 && a.1 == r.1 && a.2 == Err::<ValView, Seq<char>>(m),
            }
        }),
{
    let r = lower(right, c);
    let a = lower(
        Expr::Assign { left: Box::new(Expr::Var(name)), right: Box::new(right), op },
        c,
    );
    if r.2 is Ok {
        assert(a.0.subrange(0, r.0.len() as int) =~= r.0);
    }
}

/// The number of assignments in `e` outside calls, indexing and member
/// access.
pub open spec fn assignments(e: Expr) -> nat
    decreases e,
{
    match e {
        Expr::Assign { left, right, op } => 1 + assignments(*right),
        Expr::Binary { left, op, right } => assignments(*left) + assignments(*right),
        Expr::Unary { op, expr } => assignments(*expr),
        Expr::Array(items) => list_assignments(items@),
        _ => 0,
    }
}

/// The number of assignments in the expressions `es`.
pub open spec fn list_assignments(es: Seq<Expr>) -> nat
    decreases es,
{
    if es.len() == 0 {
        0
    } else {
        list_assignments(es.drop_last()) + assignments(es.last())
    }
}

/// The number of `Assign` operations in `ops`.
pub open spec fn assign_ops(ops: Seq<OpView>) -> nat
    decreases ops.len(),
{
    if ops.len() == 0 {
        0
    } else {
        assign_ops(ops.drop_last()) + if ops.last() is Assign {
            1nat
        } else {
            0nat
        }
    }
}

proof fn lemma_assign_ops_concat(a: Seq<OpView>, b: Seq<OpView>)
    ensures
        assign_ops(a + b) == assign_ops(a) + assign_ops(b),
    decreases b.len(),
{
    if b.len() > 0 {
        lemma_assign_ops_concat(a, b.drop_last());
        assert((a + b).drop_last() =~= a + b.drop_last());
    } else {
        assert(a + b =~= a);
    }
}

/// Every assignment is kept: when lowering an expression succeeds, its
/// operations hold one `Assign` for each assignment in the expression.
pub proof fn law_every_assignment_emitted(e: Expr, c: nat)
    ensures
        lower(e, c).2 is Ok ==> assign_ops(lower(e, c).0) == assignments(e),
    decreases e,
{
    match e {
        Expr::Assign { left, right, op } => {
            law_every_assignment_emitted(*right, c);
            let r = lower(*right, c);
            if r.2 is Ok {
                if let Expr::Var(name) = *left {
                    assert(lower(e, c).0.drop_last() =~= r.0);
                }
            }
        },
        Expr::Binary { left, op, right } => {
            law_every_assignment_emitted(*left, c);
            let l = lower(*left, c);
            law_every_assignment_emitted(*right, l.1);
            let r = lower(*right, l.1);
            lemma_assign_ops_concat(l.0, r.0);
            if l.2 is Ok && r.2 is Ok {
                assert(lower(e, c).0.drop_last() =~= l.0 + r.0);
            }
        },
        Expr::Unary { op, expr } => {
            law_every_assignment_emitted(*expr, c);
            let a = lower(*expr, c);
            if a.2 is Ok {
                assert(lower(e, c).0.drop_last() =~= a.0);
            }
        },
        Expr::Array(items) => {
            lemma_list_assignments_emitted(items@, c);
            let a = lower_list(items@, c);
            if a.2 is Ok {
                assert(lower(e, c).0.drop_last() =~= a.0);
            }
        },
        _ => {},
    }
}

proof fn lemma_list_assignments_emitted(es: Seq<Expr>, c: nat)
    ensures
        lower_list(es, c).2 is Ok ==> assign_ops(lower_list(es, c).0) == list_assignments(es),
    decreases es,
{
    if es.len() > 0 {
        lemma_list_assignments_emitted(es.drop_last(), c);
        let a = lower_list(es.drop_last(), c);
        law_every_assignment_emitted(es.last(), a.1);
        let b = lower(es.last(), a.1);
        lemma_assign_ops_concat(a.0, b.0);
    } else {
        assert(assign_ops(Seq::<OpView>::empty()) == 0);
    }
}

/// The name of temporary number `c`.
fn temp(c: usize) -> (r: IRVal)
    ensures
        val_view(r) == ValView::Temp(temp_name(c as nat)),
{
    let mut s = String::from_str("__t");
    let digits = decimal_string(c as u64);
    s.append(digits.as_str());
    proof {
        reveal_strlit("__t");
    }
    IRVal::Temp(s)
}

/// Lowers `expr`, adding its operations to `ops` and taking temporaries
/// from `temp_counter`.
pub fn lower_expr_to_ir_inner(expr: Expr, ops: &mut Vec<IROp>, temp_counter: &mut usize) -> (r:
    Result<IRVal, CompileError>)
    requires
        *old(temp_counter) + size(expr) <= usize::MAX,
    ensures
        op_views(final(ops)@) == op_views(old(ops)@) + lower(expr, *old(temp_counter) as nat).0,
        *final(temp_counter) == lower(expr, *old(temp_counter) as nat).1,
        match (r, lower(expr, *old(temp_counter) as nat).2) {
            (Ok(v), Ok(w)) => val_view(v) == w,
            (Err(CompileError::Middle(m)), Err(w)) => m@ == w,
            _ => false,
        },
    decreases expr,
{
    let ghost e0 = expr;
    let ghost c0 = *temp_counter as nat;
    let ghost ops0 = ops@;
    proof {
        lemma_lower_counter(expr, c0);
    }
    match expr {
        Expr::Assign { left, right, op } => {
            let value = match lower_expr_to_ir_inner(*right, ops, temp_counter) {
                Ok(v) => v,
                Err(e) => {
                    return Err(e);
                },
            };
            match *left {
                Expr::Var(name) => {
                    let ghost before = ops@;
                    ops.push(IROp::Assign { name, value });
                    proof {
                        assert(op_views(ops@) =~= op_views(before).push(op_view(ops@.last())));
                    }
                    Ok(IRVal::Unit)
                },
                _ => Err(CompileError::Middle(String::from_str("assignment target must be variable"))),
            }
        },
        Expr::Number(n) => {
            proof {
                assert(op_views(ops@) =~= op_views(ops0) + Seq::<OpView>::empty());
            }
            Ok(IRVal::Number(n))
        },
        Expr::Bool(b) => {
            proof {
                assert(op_views(ops@) =~= op_views(ops0) + Seq::<OpView>::empty());
            }
            Ok(IRVal::Bool(b))
        },
        Expr::String(s) => {
            proof {
                assert(op_views(ops@) =~= op_views(ops0) + Seq::<OpView>::empty());
            }
            Ok(IRVal::Str(s))
        },
        Expr::Var(v) => {
            proof {
                assert(op_views(ops@) =~= op_views(ops0) + Seq::<OpView>::empty());
            }
            Ok(IRVal::Var(v))
        },
        Expr::Binary { left, op, right } => {
            let ghost lres = lower(*left, c0);
            proof {
                lemma_lower_counter(*left, c0);
                lemma_lower_counter(*right, lres.1);
            }
            let l = match lower_expr_to_ir_inner(*left, ops, temp_counter) {
                Ok(v) => v,
                Err(e) => {
                    return Err(e);
                },
            };
            let ghost mid = ops@;
            let r = match lower_expr_to_ir_inner(*right, ops, temp_counter) {
                Ok(v) => v,
                Err(e) => {
                    proof {
                        assert(op_views(ops@) =~= op_views(ops0) + (lres.0 + lower(
                            *right,
                            lres.1,
                        ).0));
                    }
                    return Err(e);
                },
            };
            let t = temp(*temp_counter);
            *temp_counter = *temp_counter + 1;
            let ghost before = ops@;
            ops.push(IROp::Binary { left: l, op, right: r });
            proof {
                assert(op_views(ops@) =~= op_views(before).push(op_view(ops@.last())));
                assert(op_views(ops@) =~= op_views(ops0) + (lres.0 + lower(*right, lres.1).0).push(
                    op_view(ops@.last()),
                ));
            }
            Ok(t)
        },
        Expr::Unary { op, expr } => {
            let v = match lower_expr_to_ir_inner(*expr, ops, temp_counter) {
                Ok(v) => v,
                Err(e) => {
                    return Err(e);
                },
            };
            let t = temp(*temp_counter);
            *temp_counter = *temp_counter + 1;
            let ghost before = ops@;
            ops.push(IROp::Unary { op, value: v });
            proof {
                assert(op_views(ops@) =~= op_views(before).push(op_view(ops@.last())));
            }
            Ok(t)
        },
        Expr::Array(items) => {
            proof {
                lemma_lower_list_counter(items@, c0);
            }
            let vals = match lower_items(items, ops, temp_counter) {
                Ok(v) => v,
                Err(e) => {
                    return Err(e);
                },
            };
            let t = temp(*temp_counter);
            *temp_counter = *temp_counter + 1;
            let ghost before = ops@;
            ops.push(IROp::Array { values: vals });
            proof {
                assert(op_views(ops@) =~= op_views(before).push(op_view(ops@.last())));
            }
            Ok(t)
        },
        _ => {
            proof {
                assert(op_views(ops@) =~= op_views(ops0) + Seq::<OpView>::empty());
            }
            Err(CompileError::Middle(String::from_str("unsupported expression lower_expr_to_ir_inner")))
        },
    }
}

/// Lowers `items` in order, stopping at the first error.
fn lower_items(items: Vec<Expr>, ops: &mut Vec<IROp>, temp_counter: &mut usize) -> (r: Result<
    Vec<IRVal>,
    CompileError,
>)
    requires
        *old(temp_counter) + list_size(items@) <= usize::MAX,
    ensures
        op_views(final(ops)@) == op_views(old(ops)@) + lower_list(items@, *old(temp_counter) as nat).0,
        *final(temp_counter) == lower_list(items@, *old(temp_counter) as nat).1,
        match (r, lower_list(items@, *old(temp_counter) as nat).2) {
            (Ok(v), Ok(w)) => val_views(v@) == w,
            (Err(CompileError::Middle(m)), Err(w)) => m@ == w,
            _ => false,
        },
    decreases items@,
{
    let ghost es = items@;
    let ghost c0 = *temp_counter as nat;
    let ghost ops0 = ops@;
    if items.len() == 0 {
        proof {
            assert(op_views(ops@) =~= op_views(ops0) + Seq::<OpView>::empty());
            assert(val_views(Seq::<IRVal>::empty()) =~= Seq::<ValView>::empty());
        }
        return Ok(Vec::new());
    }
    let mut rest = items;
    let last = rest.pop().unwrap();
    proof {
        assert(rest@ =~= es.drop_last());
        assert(last == es.last());
        lemma_lower_list_counter(es.drop_last(), c0);
        lemma_lower_counter(es.last(), lower_list(es.drop_last(), c0).1);
    }
    let ghost a = lower_list(es.drop_last(), c0);
    let mut vals = match lower_items(rest, ops, temp_counter) {
        Ok(v) => v,
        Err(e) => {
            return Err(e);
        },
    };
    let v = match lower_expr_to_ir_inner(last, ops, temp_counter) {
        Ok(v) => v,
        Err(e) => {
            proof {
                assert(op_views(ops@) =~= op_views(ops0) + (a.0 + lower(es.last(), a.1).0));
            }
            return Err(e);
        },
    };
    let ghost vs0 = vals@;
    vals.push(v);
    proof {
        assert(op_views(ops@) =~= op_views(ops0) + (a.0 + lower(es.last(), a.1).0));
        assert(val_views(vals@) =~= val_views(vs0).push(val_view(v)));
    }
    Ok(vals)
}

/// `r` is what lowering `expr` on its own gives: the operations, with
/// temporaries counted from 0, or the error.
pub open spec fn whole_lowering(expr: Expr, r: Result<Vec<IROp>, CompileError>) -> bool {
    match (r, lower(expr, 0).2) {
        (Ok(ops), Ok(_)) => op_views(ops@) == lower(expr, 0).0,
        (Err(CompileError::Middle(m)), Err(w)) => m@ == w,
        _ => false,
    }
}

/// Lowering an expression on its own gives what the step-by-step lowering
/// gives when started from no operations and the counter at 0: its
/// operations when it succeeds (its value dropped), its error when it
/// fails. `ops`, `counter` and `r` are what `lower_expr_to_ir_inner` left
/// and returned from that start.
pub proof fn law_whole_lowering_is_inner_from_empty(
    expr: Expr,
    ops: Vec<IROp>,
    counter: usize,
    r: Result<IRVal, CompileError>,
)
    requires
        op_views(ops@) == Seq::<OpView>::empty() + lower(expr, 0).0,
        counter == lower(expr, 0).1,
        match (r, lower(expr, 0).2) {
            (Ok(v), Ok(w)) => val_view(v) == w,
            (Err(CompileError::Middle(m)), Err(w)) => m@ == w,
            _ => false,
        },
    ensures
        whole_lowering(
            expr,
            match r {
                Ok(_) => Ok(ops),
                Err(e) => Err(e),
            },
        ),
{
    assert(Seq::<OpView>::empty() + lower(expr, 0).0 =~= lower(expr, 0).0);
}

/// Lowers one expression from a fresh counter.
pub fn lower_expr_to_ir(expr: Expr) -> (r: Result<Vec<IROp>, CompileError>)
    requires
        size(expr) <= usize::MAX,
    ensures
        whole_lowering(expr, r),
{
    let mut ops: Vec<IROp> = Vec::new();
    let mut temp_counter: usize = 0;
    proof {
        assert(op_views(ops@) =~= Seq::<OpView>::empty());
    }
    match lower_expr_to_ir_inner(expr, &mut ops, &mut temp_counter) {
        Ok(_) => {
            proof {
                assert(op_views(ops@) =~= lower(expr, 0).0);
            }
            Ok(ops)
        },
        Err(e) => Err(e),
    }
}

/// The sizes of the values bound by `stmts`.
pub open spec fn bound_size(stmts: Seq<Stmt>) -> nat
    decreases stmts.len(),
{
    if stmts.len() == 0 {
        0
    } else {
        bound_size(stmts.drop_last()) + match stmts.last() {
            Stmt::Let { value, .. } => size(value),
            _ => 0,
        }
    }
}

/// Lowering a program's statements in order from counter `c`: each
/// binding lowers its value and assigns it to its name; other statements
/// emit nothing. The first error stops it.
pub open spec fn lower_stmts(stmts: Seq<Stmt>, c: nat) -> (Seq<OpView>, nat, Result<(), Seq<char>>)
    decreases stmts.len(),
{
    if stmts.len() == 0 {
        (Seq::empty(), c, Ok(()))
    } else {
        let a = lower_stmts(stmts.drop_last(), c);
        match a.2 {
            Err(m) => a,
            Ok(_) => match stmts.last() {
                Stmt::Let { name, value, .. } => {
                    let b = lower(value, a.1);
                    match b.2 {
                        Err(m) => (a.0 + b.0, b.1, Err(m)),
                        Ok(v) => (
                            (a.0 + b.0).push(OpView::Assign { name: name@, value: v }),
                            b.1,
                            Ok(()),
                        ),
                    }
                },
                _ => a,
            },
        }
    }
}

proof fn lemma_lower_stmts_counter(stmts: Seq<Stmt>, c: nat)
    ensures
        c <= lower_stmts(stmts, c).1 <= c + bound_size(stmts),
    decreases stmts.len(),
{
    if stmts.len() > 0 {
        lemma_lower_stmts_counter(stmts.drop_last(), c);
        match stmts.last() {
            Stmt::Let { value, .. } => {
                lemma_lower_counter(value, lower_stmts(stmts.drop_last(), c).1);
            },
            _ => {},
        }
    }
}

/// Lowers the bindings of a program into one list of operations.
pub fn lower_ast_to_ir(ast: AST) -> (r: Result<Vec<IROp>, CompileError>)
    requires
        bound_size(ast.stmts@) <= usize::MAX,
    ensures
        match (r, lower_stmts(ast.stmts@, 0).2) {
            (Ok(ops), Ok(_)) => op_views(ops@) == lower_stmts(ast.stmts@, 0).0,
            (Err(CompileError::Middle(m)), Err(w)) => m@ == w,
            _ => false,
        },
{
    let ghost all = ast.stmts@;
    let mut ops: Vec<IROp> = Vec::new();
    let mut temp_counter: usize = 0;
    let mut pending = ast.stmts;
    let mut rev: Vec<Stmt> = Vec::new();
    while pending.len() > 0
        invariant
            all == pending@ + rev@.reverse(),
            all == ast.stmts@,
        decreases pending@.len(),
    {
        let ghost p0 = pending@;
        let ghost r0 = rev@;
        let s = pending.pop().unwrap();
        rev.push(s);
        proof {
            assert(p0 =~= pending@.push(s));
            assert(rev@.reverse() =~= seq![s] + r0.reverse());
            assert(all =~= pending@ + rev@.reverse());
        }
    }
    proof {
        assert(all =~= rev@.reverse());
        assert(all.subrange(0, 0) =~= Seq::<Stmt>::empty());
        assert(op_views(ops@) =~= Seq::<OpView>::empty());
        lemma_lower_stmts_counter(all, 0);
    }
    while rev.len() > 0
        invariant
            rev@.len() <= all.len(),
            all == ast.stmts@,
            all == all.subrange(0, all.len() - rev@.len()) + rev@.reverse(),
            bound_size(all) <= usize::MAX,
            lower_stmts(all.subrange(0, all.len() - rev@.len()), 0).2 is Ok,
            op_views(ops@) == lower_stmts(all.subrange(0, all.len() - rev@.len()), 0).0,
            temp_counter == lower_stmts(all.subrange(0, all.len() - rev@.len()), 0).1,
        decreases rev@.len(),
    {
        let ghost k = all.len() - rev@.len();
        let ghost r0 = rev@;
        let ghost a = lower_stmts(all.subrange(0, k), 0);
        let s = rev.pop().unwrap();
        proof {
            assert(r0.reverse() =~= seq![s] + rev@.reverse());
            assert(all[k] == s) by {
                assert(all[k] == (all.subrange(0, k) + r0.reverse())[k]);
            }
            assert(all.subrange(0, k + 1).drop_last() =~= all.subrange(0, k));
            assert(all.subrange(0, k + 1).last() == s);
            assert(all =~= all.subrange(0, k + 1) + rev@.reverse());
            lemma_lower_stmts_counter(all.subrange(0, k + 1), 0);
            lemma_bound_size_prefix(all, k + 1);
            lemma_lower_counter_prefix(all.subrange(0, k + 1), s);
        }
        match s {
            Stmt::Let { name, value, .. } => {
                let ghost before = ops@;
                let ghost gv = value;
                let result = match lower_expr_to_ir_inner(value, &mut ops, &mut temp_counter) {
                    Ok(v) => v,
                    Err(e) => {
                        proof {
                            let sub = all.subrange(0, k + 1);
                            assert(sub.drop_last() =~= all.subrange(0, k));
                            assert(sub.last() == s);
                            assert(lower(gv, a.1).2 is Err);
                            assert(lower_stmts(sub, 0).2 == Err::<(), Seq<char>>(
                                lower(gv, a.1).2->Err_0,
                            ));
                            lemma_lower_stmts_err(all, k + 1);
                            assert(e matches CompileError::Middle(m) && m@ == lower(gv, a.1).2->Err_0);
                            assert(all == ast.stmts@);
                        }
                        return Err(e);
                    },
                };
                let ghost mid = ops@;
                ops.push(IROp::Assign { name, value: result });
                proof {
                    assert(op_views(ops@) =~= op_views(mid).push(op_view(ops@.last())));
                }
            },
            _ => {},
        }
    }
    proof {
        assert(all.subrange(0, all.len() as int) =~= all);
    }
    Ok(ops)
}

/// An error in lowering a prefix of the statements is the error of
/// lowering all of them.
proof fn lemma_lower_stmts_err(stmts: Seq<Stmt>, k: int)
    requires
        0 <= k <= stmts.len(),
        lower_stmts(stmts.subrange(0, k), 0).2 is Err,
    ensures
        lower_stmts(stmts, 0).2 == lower_stmts(stmts.subrange(0, k), 0).2,
    decreases stmts.len(),
{
    if k < stmts.len() {
        assert(stmts.drop_last().subrange(0, k) =~= stmts.subrange(0, k));
        lemma_lower_stmts_err(stmts.drop_last(), k);
    } else {
        assert(stmts.subrange(0, k) =~= stmts);
    }
}

/// The sizes bound by a prefix are at most those of the whole.
proof fn lemma_bound_size_prefix(stmts: Seq<Stmt>, k: int)
    requires
        0 <= k <= stmts.len(),
    ensures
        bound_size(stmts.subrange(0, k)) <= bound_size(stmts),
    decreases stmts.len(),
{
    if k < stmts.len() {
        assert(stmts.drop_last().subrange(0, k) =~= stmts.subrange(0, k));
        lemma_bound_size_prefix(stmts.drop_last(), k);
    } else {
        assert(stmts.subrange(0, k) =~= stmts);
    }
}

/// The counter before the last binding of `stmts`, plus that binding's
/// size, is within the bound of all of them.
proof fn lemma_lower_counter_prefix(stmts: Seq<Stmt>, s: Stmt)
    requires
        stmts.len() > 0,
        stmts.last() == s,
    ensures
        lower_stmts(stmts.drop_last(), 0).1 + match s {
            Stmt::Let { value, .. } => size(value),
            _ => 0,
        } <= bound_size(stmts),
{
    lemma_lower_stmts_counter(stmts.drop_last(), 0);
}

/// An expression that lowers to a value without operations: a number or
/// a variable.
pub open spec fn is_direct(e: Expr) -> bool {
    e is Number || e is Var
}

/// The value of a number or a variable.
pub open spec fn direct_value(e: Expr) -> ValView {
    match e {
        Expr::Number(n) => ValView::Number(n),
        Expr::Var(v) => ValView::Var(v@),
        _ => ValView::Unit,
    }
}

/// The value of a number or a variable, without emitting operations;
/// other expressions have to be lowered first.
pub fn lower_expr_to_ir_value(expr: &Expr) -> (r: IRVal)
    requires
        is_direct(*expr),
    ensures
        val_view(r) == direct_value(*expr),
{
    match expr {
        Expr::Number(n) => IRVal::Number(*n),
        Expr::Var(name) => IRVal::Var(name.clone()),
        _ => IRVal::Unit,
    }
}

/// The value of a typed number or variable.
pub fn lower_typed_expr_to_ir_value(expr: &TypedExpr) -> (r: IRVal)
    requires
        is_direct(expr.expr),
    ensures
        val_view(r) == direct_value(expr.expr),
{
    lower_expr_to_ir_value(&expr.expr)
}

} // verus!
