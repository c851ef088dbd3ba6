//! Values handled by the virtual machine, their equality and the built-in
//! rules for operators on inline values.
use vstd::prelude::*;

use crate::vm::{lookup_protocol, lookup_protocol_fn, ProtocolFn};

verus! {

/// A reference to a host object: its type hash and its slot in the host's
/// object table.
#[derive(Clone, Copy, Debug, PartialEq, Eq, Structural)]
pub struct AnyRef {
    pub type_hash: u64,
    pub slot: usize,
}

/// A value.
#[derive(Debug)]
pub enum Value {
    Unit,
    Bool(bool),
    Char(char),
    Integer(i64),
    Unsigned(u64),
    Byte(u8),
    Option(Option<Box<Value>>),
    Result(Result<Box<Value>, Box<Value>>),
    Any(AnyRef),
}

/// The kind of a value, as errors report it.
#[derive(Clone, Copy, Debug, PartialEq, Eq, Structural)]
pub enum TypeKind {
    Unit,
    Bool,
    Char,
    Integer,
    Unsigned,
    Byte,
    Option,
    Result,
    Any(u64),
}

/// A binary operator.
#[derive(Clone, Copy, Debug, PartialEq, Eq, Structural)]
pub enum BinOp {
    Add,
    Sub,
    Mul,
    Div,
    Rem,
    Lt,
    Le,
    Gt,
    Ge,
    Eq,
    Neq,
    /// Ordering, as the `partial_cmp` protocol; no operator has it inline.
    Cmp,
}

/// A failure while computing on values.
#[derive(Clone, Copy, Debug, PartialEq, Eq, Structural)]
pub enum ValueError {
    /// The operator has no rule for these operands.
    UnsupportedBinaryOperation { op: BinOp, lhs: TypeKind, rhs: TypeKind },
    /// An integer result does not fit its type.
    Overflow,
    /// Division or remainder by zero.
    DivideByZero,
}

/// The kind of `v`.
pub open spec fn kind_of(v: Value) -> TypeKind {
    match v {
        Value::Unit => TypeKind::Unit,
        Value::Bool(_) => TypeKind::Bool,
        Value::Char(_) => TypeKind::Char,
        Value::Integer(_) => TypeKind::Integer,
        Value::Unsigned(_) => TypeKind::Unsigned,
        Value::Byte(_) => TypeKind::Byte,
        Value::Option(_) => TypeKind::Option,
        Value::Result(_) => TypeKind::Result,
        Value::Any(a) => TypeKind::Any(a.type_hash),
    }
}

/// Whether `v` holds no host object, at any depth.
pub open spec fn is_plain(v: Value) -> bool
    decreases v,
{
    match v {
        Value::Option(Some(b)) => is_plain(*b),
        Value::Result(Ok(b)) => is_plain(*b),
        Value::Result(Err(b)) => is_plain(*b),
        Value::Any(_) => false,
        _ => true,
    }
}

/// Structural equality: values of one kind compare by content; values of
/// different kinds, and host objects, have no built-in rule.
pub open spec fn partial_eq_spec(a: Value, b: Value) -> Result<bool, ValueError>
    decreases a,
{
    let unsupported = Err(
        ValueError::UnsupportedBinaryOperation { op: BinOp::Eq, lhs: kind_of(a), rhs: kind_of(b) },
    );
    match (a, b) {
        (Value::Unit, Value::Unit) => Ok(true),
        (Value::Bool(x), Value::Bool(y)) => Ok(x == y),
        (Value::Char(x), Value::Char(y)) => Ok(x == y),
        (Value::Integer(x), Value::Integer(y)) => Ok(x == y),
        (Value::Unsigned(x), Value::Unsigned(y)) => Ok(x == y),
        (Value::Byte(x), Value::Byte(y)) => Ok(x == y),
        (Value::Option(x), Value::Option(y)) => match (x, y) {
            (None, None) => Ok(true),
            (Some(p), Some(q)) => partial_eq_spec(*p, *q),
            _ => Ok(false),
        },
        (Value::Result(x), Value::Result(y)) => match (x, y) {
            (Ok(p), Ok(q)) => partial_eq_spec(*p, *q),
            (Err(p), Err(q)) => partial_eq_spec(*p, *q),
            _ => Ok(false),
        },
        _ => unsupported,
    }
}

/// The kind of `v`.
pub fn type_kind(v: &Value) -> (r: TypeKind)
    ensures
        r == kind_of(*v),
{
    match v {
        Value::Unit => TypeKind::Unit,
        Value::Bool(_) => TypeKind::Bool,
        Value::Char(_) => TypeKind::Char,
        Value::Integer(_) => TypeKind::Integer,
        Value::Unsigned(_) => TypeKind::Unsigned,
        Value::Byte(_) => TypeKind::Byte,
        Value::Option(_) => TypeKind::Option,
        Value::Result(_) => TypeKind::Result,
        Value::Any(a) => TypeKind::Any(a.type_hash),
    }
}

/// A copy of `v`; host objects are shared by handle.
pub fn clone_value(v: &Value) -> (r: Value)
    ensures
        r == *v,
    decreases v,
{
    match v {
        Value::Unit => Value::Unit,
        Value::Bool(b) => Value::Bool(*b),
        Value::Char(c) => Value::Char(*c),
        Value::Integer(n) => Value::Integer(*n),
        Value::Unsigned(n) => Value::Unsigned(*n),
        Value::Byte(n) => Value::Byte(*n),
        Value::Option(None) => Value::Option(None),
        Value::Option(Some(b)) => Value::Option(Some(Box::new(clone_value(b)))),
        Value::Result(Ok(b)) => Value::Result(Ok(Box::new(clone_value(b)))),
        Value::Result(Err(b)) => Value::Result(Err(Box::new(clone_value(b)))),
        Value::Any(a) => Value::Any(*a),
    }
}

/// Structural equality of two values.
pub fn partial_eq(a: &Value, b: &Value) -> (r: Result<bool, ValueError>)
    ensures
        r == partial_eq_spec(*a, *b),
    decreases a,
{
    match (a, b) {
        (Value::Unit, Value::Unit) => Ok(true),
        (Value::Bool(x), Value::Bool(y)) => Ok(*x == *y),
        (Value::Char(x), Value::Char(y)) => Ok(*x == *y),
        (Value::Integer(x), Value::Integer(y)) => Ok(*x == *y),
        (Value::Unsigned(x), Value::Unsigned(y)) => Ok(*x == *y),
        (Value::Byte(x), Value::Byte(y)) => Ok(*x == *y),
        (Value::Option(x), Value::Option(y)) => match (x, y) {
            (None, None) => Ok(true),
            (Some(p), Some(q)) => partial_eq(p, q),
            _ => Ok(false),
        },
        (Value::Result(x), Value::Result(y)) => match (x, y) {
            (Ok(p), Ok(q)) => partial_eq(p, q),
            (Err(p), Err(q)) => partial_eq(p, q),
            _ => Ok(false),
        },
        _ => Err(
            ValueError::UnsupportedBinaryOperation {
                op: BinOp::Eq,
                lhs: type_kind(a),
                rhs: type_kind(b),
            },
        ),
    }
}

/// Every value without host objects equals itself; mixing kinds is
/// reported as an unsupported operation rather than answered.
pub proof fn lemma_partial_eq_reflexive(v: Value)
    requires
        is_plain(v),
    ensures
        partial_eq_spec(v, v) == Ok::<bool, ValueError>(true),
    decreases v,
{
    match v {
        Value::Option(Some(b)) => lemma_partial_eq_reflexive(*b),
        Value::Result(Ok(b)) => lemma_partial_eq_reflexive(*b),
        Value::Result(Err(b)) => lemma_partial_eq_reflexive(*b),
        _ => {},
    }
}

/// Equality on values of different inline kinds is an error, never a panic
/// or an answer.
pub proof fn lemma_partial_eq_mixed_kinds(a: Value, b: Value)
    requires
        is_plain(a),
        is_plain(b),
        kind_of(a) != kind_of(b),
    ensures
        partial_eq_spec(a, b) == Err::<bool, ValueError>(
            ValueError::UnsupportedBinaryOperation { op: BinOp::Eq, lhs: kind_of(a), rhs: kind_of(b) },
        ),
{
}

/// The built-in rule of `op` on inline operands: `None` where there is
/// none, and the protocol of the left operand must answer.
pub open spec fn inline_op_spec(op: BinOp, a: Value, b: Value) -> Option<Result<Value, ValueError>> {
    if op == BinOp::Cmp {
        Option::None
    } else {
    match (a, b) {
        (Value::Integer(x), Value::Integer(y)) => Some(int_op_spec(op, x as int, y as int)),
        (Value::Unsigned(x), Value::Unsigned(y)) => Some(unsigned_op_spec(op, x as int, y as int)),
        (Value::Bool(x), Value::Bool(y)) => match op {
            BinOp::Eq => Some(Ok(Value::Bool(x == y))),
            BinOp::Neq => Some(Ok(Value::Bool(x != y))),
            _ => Option::None,
        },
        (Value::Char(x), Value::Char(y)) => match op {
            BinOp::Eq => Some(Ok(Value::Bool(x == y))),
            BinOp::Neq => Some(Ok(Value::Bool(x != y))),
            _ => Option::None,
        },
        _ => Option::None,
    }
    }
}

/// Comparison results.
pub open spec fn compare_spec(op: BinOp, x: int, y: int) -> bool {
    match op {
        BinOp::Lt => x < y,
        BinOp::Le => x <= y,
        BinOp::Gt => x > y,
        BinOp::Ge => x >= y,
        BinOp::Eq => x == y,
        _ => x != y,
    }
}

/// `|x|`.
pub open spec fn abs(x: int) -> int {
    if x < 0 {
        -x
    } else {
        x
    }
}

/// Division that rounds toward zero, as Rust's integer division does.
pub open spec fn trunc_div(x: int, y: int) -> int {
    if (x < 0) != (y < 0) {
        -(abs(x) / abs(y))
    } else {
        abs(x) / abs(y)
    }
}

/// `op` on signed integers, checked: Rust's truncating division.
pub open spec fn int_op_spec(op: BinOp, x: int, y: int) -> Result<Value, ValueError> {
    let fits = |n: int| i64::MIN <= n <= i64::MAX;
    match op {
        BinOp::Add => if fits(x + y) { Ok(Value::Integer((x + y) as i64)) } else { Err(ValueError::Overflow) },
        BinOp::Sub => if fits(x - y) { Ok(Value::Integer((x - y) as i64)) } else { Err(ValueError::Overflow) },
        BinOp::Mul => if fits(x * y) { Ok(Value::Integer((x * y) as i64)) } else { Err(ValueError::Overflow) },
        BinOp::Div => if y == 0 {
            Err(ValueError::DivideByZero)
        } else if x == i64::MIN && y == -1 {
            Err(ValueError::Overflow)
        } else {
            Ok(Value::Integer(trunc_div(x, y) as i64))
        },
        BinOp::Rem => if y == 0 {
            Err(ValueError::DivideByZero)
        } else if x == i64::MIN && y == -1 {
            Err(ValueError::Overflow)
        } else {
            Ok(Value::Integer((x - y * trunc_div(x, y)) as i64))
        },
        _ => Ok(Value::Bool(compare_spec(op, x, y))),
    }
}

/// `op` on unsigned integers, checked.
pub open spec fn unsigned_op_spec(op: BinOp, x: int, y: int) -> Result<Value, ValueError> {
    let fits = |n: int| 0 <= n <= u64::MAX;
    match op {
        BinOp::Add => if fits(x + y) { Ok(Value::Unsigned((x + y) as u64)) } else { Err(ValueError::Overflow) },
        BinOp::Sub => if fits(x - y) { Ok(Value::Unsigned((x - y) as u64)) } else { Err(ValueError::Overflow) },
        BinOp::Mul => if fits(x * y) { Ok(Value::Unsigned((x * y) as u64)) } else { Err(ValueError::Overflow) },
        BinOp::Div => if y == 0 { Err(ValueError::DivideByZero) } else { Ok(Value::Unsigned((x / y) as u64)) },
        BinOp::Rem => if y == 0 { Err(ValueError::DivideByZero) } else { Ok(Value::Unsigned((x % y) as u64)) },
        _ => Ok(Value::Bool(compare_spec(op, x, y))),
    }
}

fn compare(op: BinOp, lt: bool, eq: bool) -> (r: bool)
    ensures
        r == match op {
            BinOp::Lt => lt,
            BinOp::Le => lt || eq,
            BinOp::Gt => !lt && !eq,
            BinOp::Ge => !lt,
            BinOp::Eq => eq,
            _ => !eq,
        },
{
    match op {
        BinOp::Lt => lt,
        BinOp::Le => lt || eq,
        BinOp::Gt => !lt && !eq,
        BinOp::Ge => !lt,
        BinOp::Eq => eq,
        _ => !eq,
    }
}

fn magnitude(x: i64) -> (r: u64)
    ensures
        r == abs(x as int),
{
    if x < 0 {
        (0i128 - x as i128) as u64
    } else {
        x as u64
    }
}

fn checked_trunc_div(x: i64, y: i64) -> (r: i64)
    requires
        y != 0,
        !(x == i64::MIN && y == -1),
    ensures
        r == trunc_div(x as int, y as int),
{
    let q: u64 = magnitude(x) / magnitude(y);
    proof {
        assert(q <= abs(x as int)) by (nonlinear_arith)
            requires q == abs(x as int) / abs(y as int), abs(y as int) >= 1, abs(x as int) >= 0;
        if abs(y as int) == 1 {
            assert(q == abs(x as int));
        } else {
            assert(q <= abs(x as int) / 2) by (nonlinear_arith)
                requires q == abs(x as int) / abs(y as int), abs(y as int) >= 2, abs(x as int) >= 0;
        }
    }
    if (x < 0) != (y < 0) {
        (0i128 - q as i128) as i64
    } else {
        q as i64
    }
}

fn checked_trunc_rem(x: i64, y: i64) -> (r: i64)
    requires
        y != 0,
        !(x == i64::MIN && y == -1),
    ensures
        r == x - y * trunc_div(x as int, y as int),
{
    let q = checked_trunc_div(x, y);
    let ghost ay = abs(y as int);
    let ghost ax = abs(x as int);
    proof {
        let aq = ax / ay;
        assert(ax - ay * aq >= 0 && ax - ay * aq < ay) by (nonlinear_arith)
            requires aq == ax / ay, ay > 0, ax >= 0;
        assert(y * trunc_div(x as int, y as int) == if x < 0 { -(ay * aq) } else { ay * aq }) by (nonlinear_arith)
            requires aq == ax / ay, ay == abs(y as int), ax == abs(x as int),
                trunc_div(x as int, y as int) == if (x < 0) != (y < 0) { -aq } else { aq },
                ay == if y < 0 { -y } else { y as int };
    }
    ((x as i128) - (y as i128) * (q as i128)) as i64
}

fn int_op(op: BinOp, x: i64, y: i64) -> (r: Result<Value, ValueError>)
    ensures
        r == int_op_spec(op, x as int, y as int),
{
    match op {
        BinOp::Add => match x.checked_add(y) {
            Some(n) => Ok(Value::Integer(n)),
            None => Err(ValueError::Overflow),
        },
        BinOp::Sub => match x.checked_sub(y) {
            Some(n) => Ok(Value::Integer(n)),
            None => Err(ValueError::Overflow),
        },
        BinOp::Mul => match x.checked_mul(y) {
            Some(n) => Ok(Value::Integer(n)),
            None => Err(ValueError::Overflow),
        },
        BinOp::Div => if y == 0 {
            Err(ValueError::DivideByZero)
        } else if x == i64::MIN && y == -1 {
            Err(ValueError::Overflow)
        } else {
            Ok(Value::Integer(checked_trunc_div(x, y)))
        },
        BinOp::Rem => if y == 0 {
            Err(ValueError::DivideByZero)
        } else if x == i64::MIN && y == -1 {
            Err(ValueError::Overflow)
        } else {
            Ok(Value::Integer(checked_trunc_rem(x, y)))
        },
        _ => Ok(Value::Bool(compare(op, x < y, x == y))),
    }
}

fn unsigned_op(op: BinOp, x: u64, y: u64) -> (r: Result<Value, ValueError>)
    ensures
        r == unsigned_op_spec(op, x as int, y as int),
{
    match op {
        BinOp::Add => match x.checked_add(y) {
            Some(n) => Ok(Value::Unsigned(n)),
            None => Err(ValueError::Overflow),
        },
        BinOp::Sub => match x.checked_sub(y) {
            Some(n) => Ok(Value::Unsigned(n)),
            None => Err(ValueError::Overflow),
        },
        BinOp::Mul => match x.checked_mul(y) {
            Some(n) => Ok(Value::Unsigned(n)),
            None => Err(ValueError::Overflow),
        },
        BinOp::Div => if y == 0 {
            Err(ValueError::DivideByZero)
        } else {
            Ok(Value::Unsigned(x / y))
        },
        BinOp::Rem => if y == 0 {
            Err(ValueError::DivideByZero)
        } else {
            Ok(Value::Unsigned(x % y))
        },
        _ => Ok(Value::Bool(compare(op, x < y, x == y))),
    }
}

/// The built-in rule of `op` on `a` and `b`, if there is one.
pub fn inline_op(op: BinOp, a: &Value, b: &Value) -> (r: Option<Result<Value, ValueError>>)
    ensures
        r == inline_op_spec(op, *a, *b),
{
    if op == BinOp::Cmp {
        return None;
    }
    match (a, b) {
        (Value::Integer(x), Value::Integer(y)) => Some(int_op(op, *x, *y)),
        (Value::Unsigned(x), Value::Unsigned(y)) => Some(unsigned_op(op, *x, *y)),
        (Value::Bool(x), Value::Bool(y)) => match op {
            BinOp::Eq => Some(Ok(Value::Bool(*x == *y))),
            BinOp::Neq => Some(Ok(Value::Bool(*x != *y))),
            _ => None,
        },
        (Value::Char(x), Value::Char(y)) => match op {
            BinOp::Eq => Some(Ok(Value::Bool(*x == *y))),
            BinOp::Neq => Some(Ok(Value::Bool(*x != *y))),
            _ => None,
        },
        _ => None,
    }
}


/// How `a` orders against `b`: values of one inline kind compare by
/// content (`false < true`); other pairs have no built-in order.
pub open spec fn partial_cmp_spec(a: Value, b: Value) -> Result<Option<std::cmp::Ordering>, ValueError> {
    match (a, b) {
        (Value::Unit, Value::Unit) => Ok(Some(std::cmp::Ordering::Equal)),
        (Value::Bool(x), Value::Bool(y)) => Ok(Some(order_of(if x { 1 } else { 0 }, if y { 1 } else { 0 }))),
        (Value::Char(x), Value::Char(y)) => Ok(Some(order_of(x as int, y as int))),
        (Value::Integer(x), Value::Integer(y)) => Ok(Some(order_of(x as int, y as int))),
        (Value::Unsigned(x), Value::Unsigned(y)) => Ok(Some(order_of(x as int, y as int))),
        (Value::Byte(x), Value::Byte(y)) => Ok(Some(order_of(x as int, y as int))),
        _ => Err(ValueError::UnsupportedBinaryOperation { op: BinOp::Lt, lhs: kind_of(a), rhs: kind_of(b) }),
    }
}

/// The order of two integers.
pub open spec fn order_of(x: int, y: int) -> std::cmp::Ordering {
    if x < y {
        std::cmp::Ordering::Less
    } else if x == y {
        std::cmp::Ordering::Equal
    } else {
        std::cmp::Ordering::Greater
    }
}

fn order(lt: bool, eq: bool) -> (r: std::cmp::Ordering)
    ensures
        r == (if lt {
            std::cmp::Ordering::Less
        } else if eq {
            std::cmp::Ordering::Equal
        } else {
            std::cmp::Ordering::Greater
        }),
{
    if lt {
        std::cmp::Ordering::Less
    } else if eq {
        std::cmp::Ordering::Equal
    } else {
        std::cmp::Ordering::Greater
    }
}

/// How `a` orders against `b`.
pub fn partial_cmp(a: &Value, b: &Value) -> (r: Result<Option<std::cmp::Ordering>, ValueError>)
    ensures
        r == partial_cmp_spec(*a, *b),
{
    match (a, b) {
        (Value::Unit, Value::Unit) => Ok(Some(std::cmp::Ordering::Equal)),
        (Value::Bool(x), Value::Bool(y)) => Ok(Some(order(!*x && *y, *x == *y))),
        (Value::Char(x), Value::Char(y)) => Ok(Some(order(*x < *y, *x == *y))),
        (Value::Integer(x), Value::Integer(y)) => Ok(Some(order(*x < *y, *x == *y))),
        (Value::Unsigned(x), Value::Unsigned(y)) => Ok(Some(order(*x < *y, *x == *y))),
        (Value::Byte(x), Value::Byte(y)) => Ok(Some(order(*x < *y, *x == *y))),
        _ => Err(
            ValueError::UnsupportedBinaryOperation {
                op: BinOp::Lt,
                lhs: type_kind(a),
                rhs: type_kind(b),
            },
        ),
    }
}

/// The total order of `a` and `b`, for the kinds that have one.
pub fn cmp(a: &Value, b: &Value) -> (r: Result<std::cmp::Ordering, ValueError>)
    ensures
        partial_cmp_spec(*a, *b) matches Ok(Some(o)) ==> r == Ok::<std::cmp::Ordering, ValueError>(o),
        partial_cmp_spec(*a, *b) matches Err(e) ==> r == Err::<std::cmp::Ordering, ValueError>(e),
{
    match partial_cmp(a, b) {
        Ok(Some(o)) => Ok(o),
        Ok(None) => Err(
            ValueError::UnsupportedBinaryOperation {
                op: BinOp::Lt,
                lhs: type_kind(a),
                rhs: type_kind(b),
            },
        ),
        Err(e) => Err(e),
    }
}


/// What a comparison answers: the result, or that the result is what the
/// protocol handler at `offset` answers for the host object `receiver` and
/// `other`, met at position `index` of the values compared.
#[derive(Debug)]
pub enum Answer<T> {
    Done(T),
    Call { offset: usize, receiver: AnyRef, other: Value, index: usize },
}

/// Equality through the protocol table: values without a built-in rule on
/// the receiving side are compared by the `Eq` handler of the host
/// object's type, met wherever the two values hold it.
pub open spec fn partial_eq_answer(a: Value, b: Value, protocols: Seq<ProtocolFn>) -> Result<Answer<bool>, ValueError>
    decreases a,
{
    match (a, b) {
        (Value::Any(r), _) => match lookup_protocol(protocols, r.type_hash, BinOp::Eq) {
            Some(offset) => Ok(Answer::Call { offset, receiver: r, other: b, index: 0 }),
            Option::None => Err(ValueError::UnsupportedBinaryOperation { op: BinOp::Eq, lhs: kind_of(a), rhs: kind_of(b) }),
        },
        (Value::Option(Some(x)), Value::Option(Some(y))) => partial_eq_answer(*x, *y, protocols),
        (Value::Result(Ok(x)), Value::Result(Ok(y))) => partial_eq_answer(*x, *y, protocols),
        (Value::Result(Err(x)), Value::Result(Err(y))) => partial_eq_answer(*x, *y, protocols),
        _ => match partial_eq_spec(a, b) {
            Ok(x) => Ok(Answer::Done(x)),
            Err(e) => Err(e),
        },
    }
}

/// Ordering through the protocol table: a host object as the receiver is
/// ordered by the `Cmp` handler of its type.
pub open spec fn partial_cmp_answer(a: Value, b: Value, protocols: Seq<ProtocolFn>) -> Result<Answer<Option<std::cmp::Ordering>>, ValueError> {
    match a {
        Value::Any(r) => match lookup_protocol(protocols, r.type_hash, BinOp::Cmp) {
            Some(offset) => Ok(Answer::Call { offset, receiver: r, other: b, index: 0 }),
            Option::None => Err(ValueError::UnsupportedBinaryOperation { op: BinOp::Cmp, lhs: kind_of(a), rhs: kind_of(b) }),
        },
        _ => match partial_cmp_spec(a, b) {
            Ok(x) => Ok(Answer::Done(x)),
            Err(e) => Err(e),
        },
    }
}

/// Equality of `a` and `b`, through the protocol table for host objects.
pub fn partial_eq_with(a: &Value, b: &Value, protocols: &Vec<ProtocolFn>) -> (r: Result<Answer<bool>, ValueError>)
    ensures
        r == partial_eq_answer(*a, *b, protocols@),
    decreases a,
{
    match (a, b) {
        (Value::Any(r), _) => match lookup_protocol_fn(protocols, r.type_hash, BinOp::Eq) {
            Some(offset) => Ok(Answer::Call { offset, receiver: *r, other: clone_value(b), index: 0 }),
            None => Err(
                ValueError::UnsupportedBinaryOperation { op: BinOp::Eq, lhs: type_kind(a), rhs: type_kind(b) },
            ),
        },
        (Value::Option(Some(x)), Value::Option(Some(y))) => partial_eq_with(x, y, protocols),
        (Value::Result(Ok(x)), Value::Result(Ok(y))) => partial_eq_with(x, y, protocols),
        (Value::Result(Err(x)), Value::Result(Err(y))) => partial_eq_with(x, y, protocols),
        _ => match partial_eq(a, b) {
            Ok(x) => Ok(Answer::Done(x)),
            Err(e) => Err(e),
        },
    }
}

/// The ordering of `a` and `b`, through the protocol table for host
/// objects.
pub fn partial_cmp_with(a: &Value, b: &Value, protocols: &Vec<ProtocolFn>) -> (r: Result<Answer<Option<std::cmp::Ordering>>, ValueError>)
    ensures
        r == partial_cmp_answer(*a, *b, protocols@),
{
    match a {
        Value::Any(r) => match lookup_protocol_fn(protocols, r.type_hash, BinOp::Cmp) {
            Some(offset) => Ok(Answer::Call { offset, receiver: *r, other: clone_value(b), index: 0 }),
            None => Err(
                ValueError::UnsupportedBinaryOperation { op: BinOp::Cmp, lhs: type_kind(a), rhs: type_kind(b) },
            ),
        },
        _ => match partial_cmp(a, b) {
            Ok(x) => Ok(Answer::Done(x)),
            Err(e) => Err(e),
        },
    }
}

/// Equality is reflexive: a value equals itself outright, or, where it
/// holds a host object, the answer is handed to that object's `Eq` handler
/// comparing the object with itself; it fails only for a host object whose
/// type registers no `Eq` handler.
pub proof fn lemma_partial_eq_reflexive_with(v: Value, protocols: Seq<ProtocolFn>)
    ensures
        is_plain(v) ==> partial_eq_answer(v, v, protocols) == Ok::<Answer<bool>, ValueError>(Answer::Done(true)),
        partial_eq_answer(v, v, protocols) matches Ok(Answer::Done(b)) ==> b,
        partial_eq_answer(v, v, protocols) matches Ok(Answer::Call { receiver, other, .. }) ==> other == Value::Any(receiver),
        partial_eq_answer(v, v, protocols) matches Err(e) ==> exists|h: u64|
            e == (ValueError::UnsupportedBinaryOperation { op: BinOp::Eq, lhs: TypeKind::Any(h), rhs: TypeKind::Any(h) })
                && lookup_protocol(protocols, h, BinOp::Eq) is None,
    decreases v,
{
    lemma_partial_eq_reflexive_plain(v);
    match v {
        Value::Option(Some(b)) => lemma_partial_eq_reflexive_with(*b, protocols),
        Value::Result(Ok(b)) => lemma_partial_eq_reflexive_with(*b, protocols),
        Value::Result(Err(b)) => lemma_partial_eq_reflexive_with(*b, protocols),
        Value::Any(r) => {
            if partial_eq_answer(v, v, protocols) is Err {
                assert(lookup_protocol(protocols, r.type_hash, BinOp::Eq) is None);
            }
        },
        _ => {},
    }
}

/// Plain values answer without the protocol table, as the built-in rule
/// says.
pub proof fn lemma_partial_eq_reflexive_plain(v: Value)
    ensures
        is_plain(v) ==> partial_eq_spec(v, v) == Ok::<bool, ValueError>(true),
{
    if is_plain(v) {
        lemma_partial_eq_reflexive(v);
    }
}

} // verus!
