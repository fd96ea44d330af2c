//! Settable values of a reflected type.

use vstd::prelude::*;

verus! {

#[derive(Clone, Copy, Debug, PartialEq, Eq, Structural)]
pub enum Kind {
    Bool,
    Int,
    Int8,
    Int16,
    Int32,
    Uint,
    Uint8,
    Uint16,
    Uint32,
    Text,
}

/// The type of a value.
pub enum Type {
    Basic(Kind),
    Named(u64, Box<Type>),
    Slice(Kind),
    Pointer(Box<Type>),
}

/// A value. A named value wraps the value of its underlying type.
pub enum Value {
    Bool(bool),
    Int(i64),
    Int8(i8),
    Int16(i16),
    Int32(i32),
    Uint(u64),
    Uint8(u8),
    Uint16(u16),
    Uint32(u32),
    Text(Vec<u8>),
    Slice { elem: Kind, items: Vec<Value> },
    Named { id: u64, inner: Box<Value> },
    Pointer(Box<Value>),
}

/// The value under all names.
pub open spec fn underlying(v: Value) -> Value
    decreases v,
{
    match v {
        Value::Named { id: _, inner } => underlying(*inner),
        _ => v,
    }
}

/// `after` is `before` with the value under its names replaced by one that
/// satisfies `p`.
pub open spec fn set_under(before: Value, after: Value, p: spec_fn(Value) -> bool) -> bool
    decreases before,
{
    match before {
        Value::Named { id, inner } => after matches Value::Named { id: id2, inner: inner2 } && id2
            == id && set_under(*inner, *inner2, p),
        _ => p(after),
    }
}

/// The zero value of a basic kind.
pub open spec fn is_zero_of(k: Kind, v: Value) -> bool {
    match k {
        Kind::Bool => v == Value::Bool(false),
        Kind::Int => v == Value::Int(0),
        Kind::Int8 => v == Value::Int8(0),
        Kind::Int16 => v == Value::Int16(0),
        Kind::Int32 => v == Value::Int32(0),
        Kind::Uint => v == Value::Uint(0),
        Kind::Uint8 => v == Value::Uint8(0),
        Kind::Uint16 => v == Value::Uint16(0),
        Kind::Uint32 => v == Value::Uint32(0),
        Kind::Text => v matches Value::Text(s) && s@ == Seq::<u8>::empty(),
    }
}

/// `v` is the zero value of `t`; the zero pointer points at a zero value.
pub open spec fn is_zero(t: Type, v: Value) -> bool
    decreases t,
{
    match t {
        Type::Basic(k) => is_zero_of(k, v),
        Type::Named(id, under) => v matches Value::Named { id: id2, inner } && id2 == id && is_zero(
            *under,
            *inner,
        ),
        Type::Slice(k) => v matches Value::Slice { elem, items } && elem == k && items@ == Seq::<
            Value,
        >::empty(),
        Type::Pointer(target) => v matches Value::Pointer(inner) && is_zero(*target, *inner),
    }
}

pub fn Zero(t: &Type) -> (r: Value)
    ensures
        is_zero(*t, r),
    decreases t,
{
    match t {
        Type::Basic(k) => match k {
            Kind::Bool => Value::Bool(false),
            Kind::Int => Value::Int(0),
            Kind::Int8 => Value::Int8(0),
            Kind::Int16 => Value::Int16(0),
            Kind::Int32 => Value::Int32(0),
            Kind::Uint => Value::Uint(0),
            Kind::Uint8 => Value::Uint8(0),
            Kind::Uint16 => Value::Uint16(0),
            Kind::Uint32 => Value::Uint32(0),
            Kind::Text => {
                let s: Vec<u8> = Vec::new();
                assert(s@ =~= Seq::empty());
                Value::Text(s)
            },
        },
        Type::Named(id, under) => Value::Named { id: *id, inner: Box::new(Zero(under)) },
        Type::Slice(k) => {
            let items: Vec<Value> = Vec::new();
            assert(items@ =~= Seq::empty());
            Value::Slice { elem: *k, items }
        },
        Type::Pointer(target) => Value::Pointer(Box::new(Zero(target))),
    }
}

/// A pointer to a fresh zero value.
pub fn New(t: &Type) -> (r: Value)
    ensures
        r matches Value::Pointer(v) && is_zero(*t, *v),
{
    Value::Pointer(Box::new(Zero(t)))
}

pub open spec fn takes_int(v: Value) -> bool {
    underlying(v) is Int || underlying(v) is Int8 || underlying(v) is Int16 || underlying(
        v,
    ) is Int32
}

pub open spec fn takes_uint(v: Value) -> bool {
    underlying(v) is Uint || underlying(v) is Uint8 || underlying(v) is Uint16 || underlying(
        v,
    ) is Uint32
}

/// An integer stored in the width that the value has.
pub open spec fn int_like(v: Value, x: i64) -> Value {
    match v {
        Value::Int8(_) => Value::Int8(x as i8),
        Value::Int16(_) => Value::Int16(x as i16),
        Value::Int32(_) => Value::Int32(x as i32),
        _ => Value::Int(x),
    }
}

/// An unsigned integer stored in the width that the value has.
pub open spec fn uint_like(v: Value, x: u64) -> Value {
    match v {
        Value::Uint8(_) => Value::Uint8(x as u8),
        Value::Uint16(_) => Value::Uint16(x as u16),
        Value::Uint32(_) => Value::Uint32(x as u32),
        _ => Value::Uint(x),
    }
}

pub open spec fn is_bytes(v: Value, x: Seq<u8>) -> bool {
    v matches Value::Slice { elem, items } && elem == Kind::Uint8 && items@ == Seq::new(
        x.len(),
        |i: int| Value::Uint8(x[i]),
    )
}

impl Value {
    /// Replaces the value.
    pub fn SetValue(&mut self, x: Value)
        ensures
            *final(self) == x,
    {
        *self = x;
    }

    /// Sets a boolean, under its names.
    pub fn SetBool(&mut self, x: bool)
        requires
            underlying(*old(self)) is Bool,
        ensures
            set_under(*old(self), *final(self), |v: Value| v == Value::Bool(x)),
        decreases *old(self),
    {
        match self {
            Value::Named { id: _, inner } => {
                inner.SetBool(x);
            },
            _ => {
                *self = Value::Bool(x);
            },
        }
    }

    /// Sets a text, under its names.
    pub fn SetString(&mut self, x: Vec<u8>)
        requires
            underlying(*old(self)) is Text,
        ensures
            set_under(*old(self), *final(self), |v: Value| v == Value::Text(x)),
        decreases *old(self),
    {
        match self {
            Value::Named { id: _, inner } => {
                inner.SetString(x);
            },
            _ => {
                *self = Value::Text(x);
            },
        }
    }

    /// Sets an integer, cut to the width of the value.
    pub fn SetInt(&mut self, x: i64)
        requires
            takes_int(*old(self)),
        ensures
            set_under(
                *old(self),
                *final(self),
                |v: Value| v == int_like(underlying(*old(self)), x),
            ),
        decreases *old(self),
    {
        match self {
            Value::Named { id: _, inner } => {
                inner.SetInt(x);
            },
            Value::Int8(_) => {
                *self = Value::Int8(x as i8);
            },
            Value::Int16(_) => {
                *self = Value::Int16(x as i16);
            },
            Value::Int32(_) => {
                *self = Value::Int32(x as i32);
            },
            _ => {
                *self = Value::Int(x);
            },
        }
    }

    /// Sets an unsigned integer, cut to the width of the value.
    pub fn SetUint(&mut self, x: u64)
        requires
            takes_uint(*old(self)),
        ensures
            set_under(
                *old(self),
                *final(self),
                |v: Value| v == uint_like(underlying(*old(self)), x),
            ),
        decreases *old(self),
    {
        match self {
            Value::Named { id: _, inner } => {
                inner.SetUint(x);
            },
            Value::Uint8(_) => {
                *self = Value::Uint8(x as u8);
            },
            Value::Uint16(_) => {
                *self = Value::Uint16(x as u16);
            },
            Value::Uint32(_) => {
                *self = Value::Uint32(x as u32);
            },
            _ => {
                *self = Value::Uint(x);
            },
        }
    }

    /// Sets the items of a slice of bytes.
    pub fn SetBytes(&mut self, x: &Vec<u8>)
        requires
            underlying(*old(self)) matches Value::Slice { elem, items } && elem == Kind::Uint8,
        ensures
            set_under(*old(self), *final(self), |v: Value| is_bytes(v, x@)),
        decreases *old(self),
    {
        match self {
            Value::Named { id: _, inner } => {
                inner.SetBytes(x);
            },
            _ => {
                let mut items: Vec<Value> = Vec::new();
                let mut i: usize = 0;
                while i < x.len()
                    invariant
                        i <= x.len(),
                        items@ == Seq::new(i as nat, |k: int| Value::Uint8(x@[k])),
                    decreases x.len() - i,
                {
                    items.push(Value::Uint8(x[i]));
                    i = i + 1;
                    assert(items@ =~= Seq::new(i as nat, |k: int| Value::Uint8(x@[k])));
                }
                *self = Value::Slice { elem: Kind::Uint8, items };
            },
        }
    }
}

/// Setting keeps the names: they are the same before and after.
pub open spec fn names(v: Value) -> Seq<u64>
    decreases v,
{
    match v {
        Value::Named { id, inner } => seq![id] + names(*inner),
        _ => Seq::empty(),
    }
}

/// A value that was set has the names that it had, and the new value under
/// them.
pub proof fn law_set_keeps_names(before: Value, after: Value, p: spec_fn(Value) -> bool)
    requires
        set_under(before, after, p),
        forall|v: Value| #[trigger] p(v) ==> !(v is Named),
    ensures
        names(after) == names(before),
        p(underlying(after)),
    decreases before,
{
    if let Value::Named { id, inner } = before {
        if let Value::Named { id: id2, inner: inner2 } = after {
            law_set_keeps_names(*inner, *inner2, p);
        }
    }
}

/// `v` is a value of type `t`.
pub open spec fn has_type(t: Type, v: Value) -> bool
    decreases t,
{
    match (t, v) {
        (Type::Basic(Kind::Bool), Value::Bool(_)) => true,
        (Type::Basic(Kind::Int), Value::Int(_)) => true,
        (Type::Basic(Kind::Int8), Value::Int8(_)) => true,
        (Type::Basic(Kind::Int16), Value::Int16(_)) => true,
        (Type::Basic(Kind::Int32), Value::Int32(_)) => true,
        (Type::Basic(Kind::Uint), Value::Uint(_)) => true,
        (Type::Basic(Kind::Uint8), Value::Uint8(_)) => true,
        (Type::Basic(Kind::Uint16), Value::Uint16(_)) => true,
        (Type::Basic(Kind::Uint32), Value::Uint32(_)) => true,
        (Type::Basic(Kind::Text), Value::Text(_)) => true,
        (Type::Slice(k), Value::Slice { elem, items: _ }) => k == elem,
        (Type::Named(id, t2), Value::Named { id: id2, inner }) => id == id2 && has_type(*t2, *inner),
        (Type::Pointer(t2), Value::Pointer(inner)) => has_type(*t2, *inner),
        _ => false,
    }
}

/// The number that a value holds, or the length of a text or a slice; names
/// and pointers are looked through.
pub open spec fn amount(v: Value) -> int
    decreases v,
{
    match v {
        Value::Bool(b) => if b {
            1
        } else {
            0
        },
        Value::Int(x) => x as int,
        Value::Int8(x) => x as int,
        Value::Int16(x) => x as int,
        Value::Int32(x) => x as int,
        Value::Uint(x) => x as int,
        Value::Uint8(x) => x as int,
        Value::Uint16(x) => x as int,
        Value::Uint32(x) => x as int,
        Value::Text(s) => s@.len() as int,
        Value::Slice { elem: _, items } => items@.len() as int,
        Value::Named { id: _, inner } => amount(*inner),
        Value::Pointer(inner) => amount(*inner),
    }
}

/// The zero values of a type are its values that hold nothing: false, zero, or
/// no bytes or items.
pub proof fn law_zero_holds_nothing(t: Type, v: Value)
    ensures
        is_zero(t, v) <==> has_type(t, v) && amount(v) == 0,
    decreases t,
{
    match (t, v) {
        (Type::Named(_, t2), Value::Named { id: _, inner }) => {
            law_zero_holds_nothing(*t2, *inner);
        },
        (Type::Pointer(t2), Value::Pointer(inner)) => {
            law_zero_holds_nothing(*t2, *inner);
        },
        (Type::Slice(_), Value::Slice { elem: _, items }) => {
            assert(items@.len() == 0 ==> items@ =~= Seq::empty());
        },
        (Type::Basic(_), Value::Text(s)) => {
            assert(s@.len() == 0 ==> s@ =~= Seq::empty());
        },
        _ => {},
    }
}

/// A value that takes signed integers keeps its type when it is set, and holds
/// the integer, where its width has room for it; of a wider one it holds the
/// low bits.
pub proof fn law_integer_is_stored(t: Type, v: Value, x: i64)
    requires
        has_type(t, v),
        v is Int || v is Int8 || v is Int16 || v is Int32,
    ensures
        has_type(t, int_like(v, x)),
        v is Int ==> amount(int_like(v, x)) == x,
        v is Int8 && -128 <= x <= 127 ==> amount(int_like(v, x)) == x,
        v is Int16 && -32768 <= x <= 32767 ==> amount(int_like(v, x)) == x,
        v is Int32 && -0x8000_0000 <= x <= 0x7fff_ffff ==> amount(int_like(v, x)) == x,
        v is Int8 ==> ((int_like(v, x)->Int8_0) as i64 ^ x) & 0xff == 0,
        v is Int16 ==> ((int_like(v, x)->Int16_0) as i64 ^ x) & 0xffff == 0,
        v is Int32 ==> ((int_like(v, x)->Int32_0) as i64 ^ x) & 0xffff_ffff == 0,
{
    assert(((x as i8) as i64 ^ x) & 0xff == 0 && ((x as i16) as i64 ^ x) & 0xffff == 0 && ((
    x as i32) as i64 ^ x) & 0xffff_ffff == 0) by (bit_vector);
}

/// The same of values that take unsigned integers.
pub proof fn law_unsigned_is_stored(t: Type, v: Value, x: u64)
    requires
        has_type(t, v),
        v is Uint || v is Uint8 || v is Uint16 || v is Uint32,
    ensures
        has_type(t, uint_like(v, x)),
        v is Uint ==> amount(uint_like(v, x)) == x,
        v is Uint8 ==> amount(uint_like(v, x)) == x % 0x100,
        v is Uint16 ==> amount(uint_like(v, x)) == x % 0x1_0000,
        v is Uint32 ==> amount(uint_like(v, x)) == x % 0x1_0000_0000,
{
    assert(x as u8 == x % 0x100 && x as u16 == x % 0x1_0000 && x as u32 == x % 0x1_0000_0000)
        by (bit_vector);
}

/// A value set to bytes is a slice of bytes with those, in order.
pub proof fn law_bytes_are_stored(v: Value, x: Seq<u8>, i: int)
    requires
        is_bytes(v, x),
        0 <= i < x.len(),
    ensures
        has_type(Type::Slice(Kind::Uint8), v),
        amount(v) == x.len(),
        v->items@[i] == Value::Uint8(x[i]),
{
}

/// A named value is set under its name, and the name stays; another value is
/// replaced.
pub proof fn law_setting_goes_under_the_name(
    id: u64,
    inner: Box<Value>,
    after: Value,
    p: spec_fn(Value) -> bool,
    plain: Value,
)
    requires
        !(plain is Named),
    ensures
        set_under(Value::Named { id, inner }, after, p) <==> (after is Named && after->id == id
            && set_under(*inner, *after->inner, p)),
        set_under(plain, after, p) <==> p(after),
        underlying(Value::Named { id, inner }) == underlying(*inner),
        underlying(plain) == plain,
        names(Value::Named { id, inner }) == seq![id] + names(*inner),
        names(plain).len() == 0,
{
}

} // verus!
