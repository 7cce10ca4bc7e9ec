//! The binary and unary operator engine: numeric promotion, comparison and
//! bitwise semantics with exact tie-break rules.
//!
//! Dispatch order (load-bearing): equality first (structural `val_eq`), then
//! boolean operators, then string/byte-string ordering and concatenation,
//! then the numeric path (unsigned first, then signed; a numeric pair that
//! fits neither is compared exactly, while its arithmetic falls to the float
//! domain). Division always promotes to a floating-point result, which lies
//! outside this value model: such operations are returned symbolically as
//! [`BinOut::Floating`] and finished by the embedder.

use vstd::prelude::*;
use vstd::string::StringExecFns;

use crate::equal::{lex_cmp, spec_val_eq, string_utf8, utf8_of, val_eq, Cmp};
use crate::error::{rmodels, ErrV, Error};
use crate::value::{duplicate, Val, Value};

verus! {

/// The binary operators of the expression language.
#[derive(Clone, Copy, Debug, PartialEq, Eq, Structural)]
pub enum BinOpKind {
    Or,
    Xor,
    And,
    BitOr,
    BitXor,
    BitAnd,
    Eq,
    NotEq,
    Gte,
    Gt,
    Lte,
    Lt,
    RBitShiftSigned,
    RBitShiftUnsigned,
    LBitShift,
    Add,
    Sub,
    Mul,
    Div,
    Mod,
}

/// The unary operators of the expression language.
#[derive(Clone, Copy, Debug, PartialEq, Eq, Structural)]
pub enum UnaryOpKind {
    Plus,
    Minus,
    Not,
    BitNot,
}

/// Spec-level outcome of a binary operation.
#[verifier::ext_equal]
pub enum BinV {
    /// An ordinary value.
    Value(Val),
    /// A result that only exists as a float: the operation and its operands
    /// are handed back for the embedder to finish.
    Floating { op: BinOpKind, lhs: Val, rhs: Val },
}

/// Outcome of a binary operation. Division of two integers, and arithmetic
/// on a numeric pair that fits neither the unsigned nor the signed path,
/// promote to floats, which this value model cannot carry; the engine
/// returns the operation symbolically instead.
#[derive(Debug, PartialEq)]
pub enum BinOut {
    /// An ordinary value.
    Value(Value),
    /// An operation left for the embedder to finish with float arithmetic.
    Floating { op: BinOpKind, lhs: Value, rhs: Value },
}

impl View for BinOut {
    type V = BinV;

    open spec fn view(&self) -> BinV {
        match self {
            BinOut::Value(v) => BinV::Value(v@),
            BinOut::Floating { op, lhs, rhs } => BinV::Floating {
                op: *op,
                lhs: lhs@,
                rhs: rhs@,
            },
        }
    }
}

/// The unsigned reading of a value, if it has one.
pub open spec fn spec_as_u64(v: Val) -> Option<u64> {
    match v {
        Val::U64(n) => Some(n),
        Val::I64(n) => if n >= 0 {
            Some(n as u64)
        } else {
            None
        },
        _ => None,
    }
}

/// The signed reading of a value, if it has one.
pub open spec fn spec_as_i64(v: Val) -> Option<i64> {
    match v {
        Val::I64(n) => Some(n),
        Val::U64(n) => if n <= i64::MAX as u64 {
            Some(n as i64)
        } else {
            None
        },
        _ => None,
    }
}

/// The unsigned reading, executable.
pub fn val_as_u64(v: &Value) -> (r: Option<u64>)
    ensures
        r == spec_as_u64(v@),
{
    match v {
        Value::U64(n) => Some(*n),
        Value::I64(n) => if *n >= 0 {
            Some(*n as u64)
        } else {
            None
        },
        _ => None,
    }
}

/// The signed reading, executable.
pub fn val_as_i64(v: &Value) -> (r: Option<i64>)
    ensures
        r == spec_as_i64(v@),
{
    match v {
        Value::I64(n) => Some(*n),
        Value::U64(n) => if *n <= (i64::MAX as u64) {
            Some(*n as i64)
        } else {
            None
        },
        _ => None,
    }
}

/// Truncated remainder (the remainder of machine division toward zero).
pub open spec fn trunc_rem(x: int, d: int) -> int {
    if x == 0 {
        0
    } else if x > 0 && d > 0 {
        x % d
    } else if x < 0 && d < 0 {
        ((x * -1) % (d * -1)) * -1
    } else if x < 0 {
        ((x * -1) % d) * -1
    } else {
        x % (d * -1)
    }
}

/// What the numeric path of the binary operator engine returns: try the
/// unsigned pair first, then the signed pair; everything else has no numeric
/// reading and is `InvalidBinary`.
pub open spec fn spec_binary_numeric(op: BinOpKind, a: Val, b: Val) -> Result<BinV, ErrV> {
    if spec_as_u64(a) is Some && spec_as_u64(b) is Some {
        let l = spec_as_u64(a)->0;
        let r = spec_as_u64(b)->0;
        match op {
            BinOpKind::BitAnd => Ok(BinV::Value(Val::U64(l & r))),
            BinOpKind::BitOr => Ok(BinV::Value(Val::U64(l | r))),
            BinOpKind::BitXor => Ok(BinV::Value(Val::U64(l ^ r))),
            BinOpKind::Gt => Ok(BinV::Value(Val::Bool(l > r))),
            BinOpKind::Gte => Ok(BinV::Value(Val::Bool(l >= r))),
            BinOpKind::Lt => Ok(BinV::Value(Val::Bool(l < r))),
            BinOpKind::Lte => Ok(BinV::Value(Val::Bool(l <= r))),
            BinOpKind::Add => if l + r <= u64::MAX {
                Ok(BinV::Value(Val::U64((l + r) as u64)))
            } else {
                Err(ErrV::InvalidBinary)
            },
            BinOpKind::Sub => if l >= r {
                Ok(BinV::Value(Val::U64((l - r) as u64)))
            } else if r - l <= i64::MAX {
                Ok(BinV::Value(Val::I64((-(r - l)) as i64)))
            } else {
                Err(ErrV::InvalidBinary)
            },
            BinOpKind::Mul => if l * r <= u64::MAX {
                Ok(BinV::Value(Val::U64((l * r) as u64)))
            } else {
                Err(ErrV::InvalidBinary)
            },
            BinOpKind::Div => Ok(BinV::Floating { op, lhs: a, rhs: b }),
            BinOpKind::Mod => if r == 0 {
                Err(ErrV::InvalidBinary)
            } else {
                Ok(BinV::Value(Val::U64((l % r) as u64)))
            },
            BinOpKind::RBitShiftSigned => if r < 64 {
                Ok(BinV::Value(Val::U64(l >> r)))
            } else {
                Err(ErrV::InvalidBitshift)
            },
            BinOpKind::RBitShiftUnsigned => if r < 64 {
                Ok(BinV::Value(Val::I64((l >> r) as i64)))
            } else {
                Err(ErrV::InvalidBitshift)
            },
            BinOpKind::LBitShift => if r < 64 {
                Ok(BinV::Value(Val::U64(l << r)))
            } else {
                Err(ErrV::InvalidBitshift)
            },
            _ => Err(ErrV::InvalidBinary),
        }
    } else if spec_as_i64(a) is Some && spec_as_i64(b) is Some {
        let l = spec_as_i64(a)->0;
        let r = spec_as_i64(b)->0;
        match op {
            BinOpKind::BitAnd => Ok(BinV::Value(Val::I64(l & r))),
            BinOpKind::BitOr => Ok(BinV::Value(Val::I64(l | r))),
            BinOpKind::BitXor => Ok(BinV::Value(Val::I64(l ^ r))),
            BinOpKind::Gt => Ok(BinV::Value(Val::Bool(l > r))),
            BinOpKind::Gte => Ok(BinV::Value(Val::Bool(l >= r))),
            BinOpKind::Lt => Ok(BinV::Value(Val::Bool(l < r))),
            BinOpKind::Lte => Ok(BinV::Value(Val::Bool(l <= r))),
            BinOpKind::Add => if i64::MIN <= l + r <= i64::MAX {
                Ok(BinV::Value(Val::I64((l + r) as i64)))
            } else {
                Err(ErrV::InvalidBinary)
            },
            BinOpKind::Sub => if i64::MIN <= l - r <= i64::MAX {
                Ok(BinV::Value(Val::I64((l - r) as i64)))
            } else {
                Err(ErrV::InvalidBinary)
            },
            BinOpKind::Mul => if i64::MIN <= l * r <= i64::MAX {
                Ok(BinV::Value(Val::I64((l * r) as i64)))
            } else {
                Err(ErrV::InvalidBinary)
            },
            BinOpKind::Div => Ok(BinV::Floating { op, lhs: a, rhs: b }),
            BinOpKind::Mod => if r == 0 || (l == i64::MIN && r == -1) {
                Err(ErrV::InvalidBinary)
            } else {
                Ok(BinV::Value(Val::I64(trunc_rem(l as int, r as int) as i64)))
            },
            BinOpKind::RBitShiftSigned => if 0 <= r < 64 {
                Ok(BinV::Value(Val::I64(l >> r)))
            } else {
                Err(ErrV::InvalidBitshift)
            },
            BinOpKind::RBitShiftUnsigned => if 0 <= r < 64 {
                Ok(BinV::Value(Val::I64(((l as u64) >> (r as u64)) as i64)))
            } else {
                Err(ErrV::InvalidBitshift)
            },
            BinOpKind::LBitShift => if 0 <= r < 64 {
                Ok(BinV::Value(Val::I64(l << r)))
            } else {
                Err(ErrV::InvalidBitshift)
            },
            _ => Err(ErrV::InvalidBinary),
        }
    } else if (a is U64 || a is I64) && (b is U64 || b is I64) {
        let ln = crate::equal::num_of(a)->0;
        let rn = crate::equal::num_of(b)->0;
        match op {
            BinOpKind::Gt => Ok(BinV::Value(Val::Bool(ln > rn))),
            BinOpKind::Gte => Ok(BinV::Value(Val::Bool(ln >= rn))),
            BinOpKind::Lt => Ok(BinV::Value(Val::Bool(ln < rn))),
            BinOpKind::Lte => Ok(BinV::Value(Val::Bool(ln <= rn))),
            BinOpKind::Add | BinOpKind::Sub | BinOpKind::Mul | BinOpKind::Div => Ok(
                BinV::Floating { op, lhs: a, rhs: b },
            ),
            _ => Err(ErrV::InvalidBinary),
        }
    } else {
        Err(ErrV::InvalidBinary)
    }
}

/// The byte reading of a string or byte-string operand.
pub open spec fn spec_text_bytes(v: Val) -> Seq<u8> {
    if v is Str {
        utf8_of(v->Str_0)
    } else {
        v->Bytes_0
    }
}

/// What the whole binary operator engine returns; see the module doc for the
/// dispatch order.
pub open spec fn spec_binary(op: BinOpKind, a: Val, b: Val) -> Result<BinV, ErrV> {
    if op is Eq {
        Ok(BinV::Value(Val::Bool(spec_val_eq(a, b))))
    } else if op is NotEq {
        Ok(BinV::Value(Val::Bool(!spec_val_eq(a, b))))
    } else if a is Bool && b is Bool {
        let l = a->Bool_0;
        let r = b->Bool_0;
        if op is And || op is BitAnd {
            Ok(BinV::Value(Val::Bool(l && r)))
        } else if op is Or || op is BitOr {
            Ok(BinV::Value(Val::Bool(l || r)))
        } else if op is Xor || op is BitXor {
            Ok(BinV::Value(Val::Bool(l != r)))
        } else {
            Err(ErrV::InvalidBinary)
        }
    } else if (a is Str || a is Bytes) && (b is Str || b is Bytes) {
        let lb = spec_text_bytes(a);
        let rb = spec_text_bytes(b);
        if op is Gt {
            Ok(BinV::Value(Val::Bool(lex_cmp(lb, rb) is Gt)))
        } else if op is Gte {
            Ok(BinV::Value(Val::Bool(!(lex_cmp(lb, rb) is Lt))))
        } else if op is Lt {
            Ok(BinV::Value(Val::Bool(lex_cmp(lb, rb) is Lt)))
        } else if op is Lte {
            Ok(BinV::Value(Val::Bool(!(lex_cmp(lb, rb) is Gt))))
        } else if op is Add && a is Str && b is Str {
            Ok(BinV::Value(Val::Str(a->Str_0 + b->Str_0)))
        } else {
            Err(ErrV::InvalidBinary)
        }
    } else {
        spec_binary_numeric(op, a, b)
    }
}

/// What the unary operator engine returns: `None` is a type error reported
/// upstream. The operand is read unsigned first, then signed, then boolean.
pub open spec fn spec_unary(op: UnaryOpKind, v: Val) -> Option<Val> {
    if spec_as_u64(v) is Some {
        let x = spec_as_u64(v)->0;
        match op {
            UnaryOpKind::Minus => if x <= i64::MAX {
                Some(Val::I64((-x) as i64))
            } else {
                None
            },
            UnaryOpKind::Plus => Some(Val::U64(x)),
            UnaryOpKind::BitNot => Some(Val::U64((u64::MAX - x) as u64)),
            UnaryOpKind::Not => None,
        }
    } else if spec_as_i64(v) is Some {
        let x = spec_as_i64(v)->0;
        match op {
            UnaryOpKind::Minus => if x == i64::MIN {
                None
            } else {
                Some(Val::I64((-x) as i64))
            },
            UnaryOpKind::Plus => Some(Val::I64(x)),
            UnaryOpKind::BitNot => Some(Val::I64((-1 - x) as i64)),
            UnaryOpKind::Not => None,
        }
    } else if v is Bool {
        match op {
            UnaryOpKind::BitNot | UnaryOpKind::Not => Some(Val::Bool(!v->Bool_0)),
            _ => None,
        }
    } else {
        None
    }
}

/// Numeric path of the binary operator engine.
pub fn exec_binary_numeric(op: BinOpKind, lhs: &Value, rhs: &Value) -> (r: Result<BinOut, Error>)
    ensures
        rmodels(r, spec_binary_numeric(op, lhs@, rhs@)),
{
    if let (Some(l), Some(rr)) = (val_as_u64(lhs), val_as_u64(rhs)) {
        match op {
            BinOpKind::BitAnd => Ok(BinOut::Value(Value::U64(l & rr))),
            BinOpKind::BitOr => Ok(BinOut::Value(Value::U64(l | rr))),
            BinOpKind::BitXor => Ok(BinOut::Value(Value::U64(l ^ rr))),
            BinOpKind::Gt => Ok(BinOut::Value(Value::Bool(l > rr))),
            BinOpKind::Gte => Ok(BinOut::Value(Value::Bool(l >= rr))),
            BinOpKind::Lt => Ok(BinOut::Value(Value::Bool(l < rr))),
            BinOpKind::Lte => Ok(BinOut::Value(Value::Bool(l <= rr))),
            BinOpKind::Add => match l.checked_add(rr) {
                Some(n) => Ok(BinOut::Value(Value::U64(n))),
                None => Err(Error::InvalidBinary),
            },
            BinOpKind::Sub => if l >= rr {
                Ok(BinOut::Value(Value::U64(l - rr)))
            } else {
                let d = rr - l;
                if d <= (i64::MAX as u64) {
                    Ok(BinOut::Value(Value::I64(-(d as i64))))
                } else {
                    Err(Error::InvalidBinary)
                }
            },
            BinOpKind::Mul => match l.checked_mul(rr) {
                Some(n) => Ok(BinOut::Value(Value::U64(n))),
                None => Err(Error::InvalidBinary),
            },
            BinOpKind::Div => Ok(
                BinOut::Floating { op, lhs: duplicate(lhs), rhs: duplicate(rhs) },
            ),
            BinOpKind::Mod => match l.checked_rem(rr) {
                Some(n) => Ok(BinOut::Value(Value::U64(n))),
                None => Err(Error::InvalidBinary),
            },
            BinOpKind::RBitShiftSigned => {
                if rr < 64 {
                    Ok(BinOut::Value(Value::U64(l >> rr)))
                } else {
                    Err(Error::InvalidBitshift)
                }
            },
            BinOpKind::RBitShiftUnsigned => {
                if rr < 64 {
                    Ok(BinOut::Value(Value::I64(#[verifier::truncate] ((l >> rr) as i64))))
                } else {
                    Err(Error::InvalidBitshift)
                }
            },
            BinOpKind::LBitShift => {
                if rr < 64 {
                    Ok(BinOut::Value(Value::U64(l << rr)))
                } else {
                    Err(Error::InvalidBitshift)
                }
            },
            _ => Err(Error::InvalidBinary),
        }
    } else if let (Some(l), Some(rr)) = (val_as_i64(lhs), val_as_i64(rhs)) {
        match op {
            BinOpKind::BitAnd => Ok(BinOut::Value(Value::I64(l & rr))),
            BinOpKind::BitOr => Ok(BinOut::Value(Value::I64(l | rr))),
            BinOpKind::BitXor => Ok(BinOut::Value(Value::I64(l ^ rr))),
            BinOpKind::Gt => Ok(BinOut::Value(Value::Bool(l > rr))),
            BinOpKind::Gte => Ok(BinOut::Value(Value::Bool(l >= rr))),
            BinOpKind::Lt => Ok(BinOut::Value(Value::Bool(l < rr))),
            BinOpKind::Lte => Ok(BinOut::Value(Value::Bool(l <= rr))),
            BinOpKind::Add => match l.checked_add(rr) {
                Some(n) => Ok(BinOut::Value(Value::I64(n))),
                None => Err(Error::InvalidBinary),
            },
            BinOpKind::Sub => match l.checked_sub(rr) {
                Some(n) => Ok(BinOut::Value(Value::I64(n))),
                None => Err(Error::InvalidBinary),
            },
            BinOpKind::Mul => match l.checked_mul(rr) {
                Some(n) => Ok(BinOut::Value(Value::I64(n))),
                None => Err(Error::InvalidBinary),
            },
            BinOpKind::Div => Ok(
                BinOut::Floating { op, lhs: duplicate(lhs), rhs: duplicate(rhs) },
            ),
            BinOpKind::Mod => match l.checked_rem(rr) {
                Some(n) => Ok(BinOut::Value(Value::I64(n))),
                None => Err(Error::InvalidBinary),
            },
            BinOpKind::RBitShiftSigned => {
                if 0 <= rr && rr < 64 {
                    Ok(BinOut::Value(Value::I64(l >> rr)))
                } else {
                    Err(Error::InvalidBitshift)
                }
            },
            BinOpKind::RBitShiftUnsigned => {
                if 0 <= rr && rr < 64 {
                    Ok(BinOut::Value(Value::I64(#[verifier::truncate] (((l as u64) >> (rr
                        as u64)) as i64))))
                } else {
                    Err(Error::InvalidBitshift)
                }
            },
            BinOpKind::LBitShift => {
                if 0 <= rr && rr < 64 {
                    Ok(BinOut::Value(Value::I64(l << rr)))
                } else {
                    Err(Error::InvalidBitshift)
                }
            },
            _ => Err(Error::InvalidBinary),
        }
    } else if (matches!(lhs, Value::U64(_)) || matches!(lhs, Value::I64(_))) && (matches!(
        rhs,
        Value::U64(_),
    ) || matches!(rhs, Value::I64(_))) {
        // one side is a negative signed value, the other an unsigned value
        // above the signed range: orderings are still exact
        let lhs_neg = matches!(lhs, Value::I64(_));
        match op {
            BinOpKind::Gt => Ok(BinOut::Value(Value::Bool(!lhs_neg))),
            BinOpKind::Gte => Ok(BinOut::Value(Value::Bool(!lhs_neg))),
            BinOpKind::Lt => Ok(BinOut::Value(Value::Bool(lhs_neg))),
            BinOpKind::Lte => Ok(BinOut::Value(Value::Bool(lhs_neg))),
            BinOpKind::Add | BinOpKind::Sub | BinOpKind::Mul | BinOpKind::Div => Ok(
                BinOut::Floating { op, lhs: duplicate(lhs), rhs: duplicate(rhs) },
            ),
            _ => Err(Error::InvalidBinary),
        }
    } else {
        Err(Error::InvalidBinary)
    }
}

/// The binary operator engine; decides `spec_binary`.
pub fn exec_binary(op: BinOpKind, lhs: &Value, rhs: &Value) -> (r: Result<BinOut, Error>)
    requires
        lhs.wf(),
        rhs.wf(),
    ensures
        rmodels(r, spec_binary(op, lhs@, rhs@)),
{
    if matches!(op, BinOpKind::Eq) {
        Ok(BinOut::Value(Value::Bool(val_eq(lhs, rhs))))
    } else if matches!(op, BinOpKind::NotEq) {
        Ok(BinOut::Value(Value::Bool(!val_eq(lhs, rhs))))
    } else if matches!(lhs, Value::Bool(_)) && matches!(rhs, Value::Bool(_)) {
        let l = if let Value::Bool(x) = lhs {
            *x
        } else {
            false
        };
        let rr = if let Value::Bool(x) = rhs {
            *x
        } else {
            false
        };
        match op {
            BinOpKind::And | BinOpKind::BitAnd => Ok(BinOut::Value(Value::Bool(l && rr))),
            BinOpKind::Or | BinOpKind::BitOr => Ok(BinOut::Value(Value::Bool(l || rr))),
            BinOpKind::Xor | BinOpKind::BitXor => Ok(BinOut::Value(Value::Bool(l != rr))),
            _ => Err(Error::InvalidBinary),
        }
    } else if (matches!(lhs, Value::Str(_)) || matches!(lhs, Value::Bytes(_))) && (matches!(
        rhs,
        Value::Str(_),
    ) || matches!(rhs, Value::Bytes(_))) {
        if matches!(op, BinOpKind::Add) {
            if let (Value::Str(l), Value::Str(rr)) = (lhs, rhs) {
                return Ok(BinOut::Value(Value::Str(l.clone().concat(rr.as_str()))));
            }
            return Err(Error::InvalidBinary);
        }
        let lb: Vec<u8>;
        let rb: Vec<u8>;
        match lhs {
            Value::Str(s) => {
                lb = string_utf8(s);
            }
            Value::Bytes(b) => {
                lb = b.clone();
            }
            _ => {
                return Err(Error::InvalidBinary);
            }
        }
        match rhs {
            Value::Str(s) => {
                rb = string_utf8(s);
            }
            Value::Bytes(b) => {
                rb = b.clone();
            }
            _ => {
                return Err(Error::InvalidBinary);
            }
        }
        let c = crate::equal::bytes_cmp(&lb, &rb);
        match op {
            BinOpKind::Gt => Ok(BinOut::Value(Value::Bool(matches!(c, Cmp::Gt)))),
            BinOpKind::Gte => Ok(BinOut::Value(Value::Bool(!matches!(c, Cmp::Lt)))),
            BinOpKind::Lt => Ok(BinOut::Value(Value::Bool(matches!(c, Cmp::Lt)))),
            BinOpKind::Lte => Ok(BinOut::Value(Value::Bool(!matches!(c, Cmp::Gt)))),
            _ => Err(Error::InvalidBinary),
        }
    } else {
        exec_binary_numeric(op, lhs, rhs)
    }
}

/// The unary operator engine; decides `spec_unary`. `None` is a type error
/// reported upstream.
#[verifier::rlimit(50)]
pub fn exec_unary(op: UnaryOpKind, val: &Value) -> (r: Option<Value>)
    ensures
        r is Some <==> spec_unary(op, val@) is Some,
        r is Some ==> (r->0)@ == spec_unary(op, val@)->0,
{
    if let Some(x) = val_as_u64(val) {
        match op {
            UnaryOpKind::Minus => {
                if x <= (i64::MAX as u64) {
                    proof {
                        assert(spec_unary(op, val@) == Some(Val::I64((-(x as u64)) as i64)));
                    }
                    return Some(Value::I64(-(x as i64)));
                }
                None
            }
            UnaryOpKind::Plus => {
                proof {
                    assert(spec_unary(op, val@) == Some(Val::U64(x)));
                }
                return Some(Value::U64(x));
            }
            UnaryOpKind::BitNot => {
                return Some(Value::U64(u64::MAX - x));
            }
            UnaryOpKind::Not => None,
        }
    } else if let Some(x) = val_as_i64(val) {
        match op {
            UnaryOpKind::Minus => {
                if x != i64::MIN {
                    proof {
                        assert(spec_unary(op, val@) == Some(Val::I64((-(x as i64)) as i64)));
                    }
                    return Some(Value::I64(-x));
                }
                None
            }
            UnaryOpKind::Plus => {
                proof {
                    assert(spec_unary(op, val@) == Some(Val::I64(x)));
                }
                return Some(Value::I64(x));
            }
            UnaryOpKind::BitNot => {
                return Some(Value::I64(-1 - x));
            }
            UnaryOpKind::Not => None,
        }
    } else if let Value::Bool(b) = val {
        match op {
            UnaryOpKind::BitNot | UnaryOpKind::Not => {
                proof {
                    assert(spec_unary(op, val@) == Some(Val::Bool(!val@->Bool_0)));
                }
                return Some(Value::Bool(!*b));
            }
            _ => None,
        }
    } else {
        None
    }
}

} // verus!
