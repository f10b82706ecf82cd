//! Values of the language: the four-way tagged union, heap objects and their handles,
//! string hashing, and the arithmetic-free part of IEEE-754 doubles (sign, order, equality)
//! worked out on bit patterns.

use vstd::prelude::*;
use vstd::std_specs::cmp::PartialEqSpecImpl;

verus! {

/// The sign bit of a double.
pub const SIGN_BIT: u64 = 0x8000_0000_0000_0000;

/// Everything but the sign bit of a double: exponent and fraction.
pub const MAGNITUDE_MASK: u64 = 0x7fff_ffff_ffff_ffff;

/// The magnitude of an infinity; every larger magnitude is a NaN.
pub const INFINITY_BITS: u64 = 0x7ff0_0000_0000_0000;

/// FNV-1a, 32 bits: the offset basis.
pub const FNV_OFFSET_BASIS: u32 = 2166136261;

/// FNV-1a, 32 bits: the prime.
pub const FNV_PRIME: u32 = 16777619;

/// The variant of a [`Value`].
#[derive(Debug, Clone, Copy, PartialEq, Eq, Structural)]
pub enum ValueType {
    Bool,
    Number,
    Nil,
    Object,
}

/// The variant of a [`LoxObject`].
#[derive(Debug, Clone, Copy, PartialEq, Eq, Structural)]
pub enum LoxObjectKind {
    String,
}

/// An object that lives on the heap. Strings are immutable and carry the hash of their text.
#[derive(Debug, Clone)]
pub enum LoxObject {
    String { value: String, hash: u32 },
}

/// Handle of a heap object: its slot in the heap and the hash of the string stored there.
/// Two handles denote the same object exactly when they are equal.
#[derive(Debug, Clone, Copy, PartialEq, Eq, Structural)]
pub struct ObjRef {
    pub index: usize,
    pub hash: u32,
}

/// A value of the language. A number is held as the bit pattern of an IEEE-754 double.
#[derive(Debug, Clone, Copy)]
pub enum Value {
    Bool(bool),
    Number(u64),
    Nil,
    Object(ObjRef),
}

/// One round of FNV-1a: fold the byte in, then multiply by the prime modulo 2^32.
pub open spec fn fnv1a_step(hash: u32, byte: u8) -> u32 {
    (hash ^ (byte as u32)).wrapping_mul(FNV_PRIME)
}

/// FNV-1a over a byte string, first byte first.
pub open spec fn fnv1a(bytes: Seq<u8>) -> u32
    decreases bytes.len(),
{
    if bytes.len() == 0 {
        FNV_OFFSET_BASIS
    } else {
        fnv1a_step(fnv1a(bytes.drop_last()), bytes.last())
    }
}

/// The hash of a text: FNV-1a over its UTF-8 encoding.
pub open spec fn spec_hash_string(text: Seq<char>) -> u32 {
    fnv1a(vstd::utf8::encode_utf8(text))
}

/// Hashes a string with 32-bit FNV-1a over its UTF-8 bytes.
pub fn hash_string(val: &str) -> (hash: u32)
    ensures
        hash == spec_hash_string(val@),
{
    let bytes = val.as_bytes();
    let mut hash: u32 = FNV_OFFSET_BASIS;
    let mut i: usize = 0;
    assert(bytes@.take(0) =~= Seq::<u8>::empty());
    while i < bytes.len()
        invariant
            i <= bytes@.len(),
            bytes@ == vstd::utf8::encode_utf8(val@),
            hash == fnv1a(bytes@.take(i as int)),
        decreases bytes@.len() - i,
    {
        proof {
            let next = bytes@.take(i + 1);
            assert(next.drop_last() =~= bytes@.take(i as int));
            assert(next.last() == bytes@[i as int]);
        }
        hash = (hash ^ (bytes[i] as u32)).wrapping_mul(FNV_PRIME);
        i += 1;
    }
    assert(bytes@.take(i as int) =~= bytes@);
    hash
}

impl LoxObject {
    /// The text of a string object.
    pub open spec fn text(self) -> Seq<char> {
        self->value@
    }

    /// The hash that a string object carries.
    pub open spec fn stored_hash(self) -> u32 {
        self->hash
    }

    /// The hash a string object carries is the hash of its text.
    pub open spec fn wf(self) -> bool {
        self.stored_hash() == spec_hash_string(self.text())
    }

    /// Wraps a text as a string object, hashing it once.
    pub fn new_string(value: String) -> (obj: LoxObject)
        ensures
            obj.text() == value@,
            obj.stored_hash() == spec_hash_string(value@),
            obj.wf(),
    {
        let hash = hash_string(value.as_str());
        LoxObject::String { value, hash }
    }

    /// Which variant this object is.
    pub fn kind(&self) -> (kind: LoxObjectKind)
        ensures
            kind == LoxObjectKind::String,
    {
        match self {
            LoxObject::String { .. } => LoxObjectKind::String,
        }
    }

    /// The text and hash of a string object.
    pub fn as_string(&self) -> (parts: Option<(&String, &u32)>)
        ensures
            parts matches Some((text, hash)) && text@ == self.text() && *hash
                == self.stored_hash(),
    {
        match self {
            LoxObject::String { value, hash } => Some((value, hash)),
        }
    }
}

/// A double is a NaN when its magnitude bits lie above those of infinity.
pub open spec fn spec_number_is_nan(bits: u64) -> bool {
    bits & MAGNITUDE_MASK > INFINITY_BITS
}

/// Where a double that is no NaN stands in the numeric order: its magnitude bits, negated
/// below zero. Both zeros stand at 0.
pub open spec fn number_order_key(bits: u64) -> int {
    if bits & SIGN_BIT != 0 {
        -((bits & MAGNITUDE_MASK) as int)
    } else {
        (bits & MAGNITUDE_MASK) as int
    }
}

/// IEEE-754 equality: a NaN equals nothing, the two zeros are equal.
pub open spec fn spec_numbers_equal(a: u64, b: u64) -> bool {
    !spec_number_is_nan(a) && !spec_number_is_nan(b) && number_order_key(a) == number_order_key(b)
}

/// IEEE-754 `<`: false as soon as one side is a NaN.
pub open spec fn spec_number_less(a: u64, b: u64) -> bool {
    !spec_number_is_nan(a) && !spec_number_is_nan(b) && number_order_key(a) < number_order_key(b)
}

/// IEEE-754 `>`.
pub open spec fn spec_number_greater(a: u64, b: u64) -> bool {
    spec_number_less(b, a)
}

/// IEEE-754 negation flips the sign bit and nothing else.
pub open spec fn spec_number_negate(bits: u64) -> u64 {
    bits ^ SIGN_BIT
}

/// Whether the bit pattern is a NaN.
pub fn number_is_nan(bits: u64) -> (nan: bool)
    ensures
        nan == spec_number_is_nan(bits),
{
    bits & MAGNITUDE_MASK > INFINITY_BITS
}

/// The place of a double in the numeric order, as a signed integer.
fn order_key(bits: u64) -> (key: i64)
    ensures
        key == number_order_key(bits),
{
    let magnitude: u64 = bits & MAGNITUDE_MASK;
    assert(magnitude <= 0x7fff_ffff_ffff_ffff) by (bit_vector)
        requires
            magnitude == bits & 0x7fff_ffff_ffff_ffff,
    ;
    if bits & SIGN_BIT != 0 {
        -(magnitude as i64)
    } else {
        magnitude as i64
    }
}

/// Compares two doubles for equality as IEEE-754 does.
pub fn numbers_equal(a: u64, b: u64) -> (equal: bool)
    ensures
        equal == spec_numbers_equal(a, b),
{
    !number_is_nan(a) && !number_is_nan(b) && order_key(a) == order_key(b)
}

/// Whether `a < b` as doubles.
pub fn number_less(a: u64, b: u64) -> (less: bool)
    ensures
        less == spec_number_less(a, b),
{
    !number_is_nan(a) && !number_is_nan(b) && order_key(a) < order_key(b)
}

/// Whether `a > b` as doubles.
pub fn number_greater(a: u64, b: u64) -> (greater: bool)
    ensures
        greater == spec_number_greater(a, b),
{
    number_less(b, a)
}

/// The double with the opposite sign.
pub fn number_negate(bits: u64) -> (negated: u64)
    ensures
        negated == spec_number_negate(bits),
{
    bits ^ SIGN_BIT
}

/// Equality of values: never across variants; numbers as IEEE-754 does; objects by handle.
pub open spec fn values_equal(a: Value, b: Value) -> bool {
    match (a, b) {
        (Value::Bool(x), Value::Bool(y)) => x == y,
        (Value::Number(x), Value::Number(y)) => spec_numbers_equal(x, y),
        (Value::Nil, Value::Nil) => true,
        (Value::Object(x), Value::Object(y)) => x == y,
        _ => false,
    }
}

/// Only `nil` and `false` are falsey; zero and the empty string are not.
pub open spec fn spec_is_falsey(value: Value) -> bool {
    match value {
        Value::Nil => true,
        Value::Bool(b) => !b,
        _ => false,
    }
}

/// Whether a condition with this value fails.
pub fn is_falsey(value: Value) -> (falsey: bool)
    ensures
        falsey == spec_is_falsey(value),
{
    match value {
        Value::Nil => true,
        Value::Bool(b) => !b,
        _ => false,
    }
}

impl Value {
    /// The variant, as a spec value.
    pub open spec fn spec_get_type(self) -> ValueType {
        match self {
            Value::Bool(_) => ValueType::Bool,
            Value::Number(_) => ValueType::Number,
            Value::Nil => ValueType::Nil,
            Value::Object(_) => ValueType::Object,
        }
    }

    /// Which variant this value is.
    pub fn get_type(&self) -> (ty: ValueType)
        ensures
            ty == self.spec_get_type(),
    {
        match self {
            Value::Bool(_) => ValueType::Bool,
            Value::Number(_) => ValueType::Number,
            Value::Nil => ValueType::Nil,
            Value::Object(_) => ValueType::Object,
        }
    }

    /// Whether the value is `nil`.
    pub fn is_nil(&self) -> (nil: bool)
        ensures
            nil == (*self is Nil),
    {
        match self {
            Value::Nil => true,
            _ => false,
        }
    }

    /// The truth value, if this is a boolean.
    pub fn as_bool(&self) -> (b: Option<bool>)
        ensures
            b == (match *self {
                Value::Bool(x) => Some(x),
                _ => None,
            }),
    {
        match self {
            Value::Bool(x) => Some(*x),
            _ => None,
        }
    }

    /// The bits of the double, if this is a number.
    pub fn as_number(&self) -> (n: Option<u64>)
        ensures
            n == (match *self {
                Value::Number(x) => Some(x),
                _ => None,
            }),
    {
        match self {
            Value::Number(x) => Some(*x),
            _ => None,
        }
    }

    /// The handle, if this is an object.
    pub fn as_object(&self) -> (o: Option<ObjRef>)
        ensures
            o == (match *self {
                Value::Object(x) => Some(x),
                _ => None,
            }),
    {
        match self {
            Value::Object(x) => Some(*x),
            _ => None,
        }
    }
}

impl PartialEq for Value {
    fn eq(&self, other: &Value) -> (equal: bool) {
        match (*self, *other) {
            (Value::Bool(x), Value::Bool(y)) => x == y,
            (Value::Number(x), Value::Number(y)) => numbers_equal(x, y),
            (Value::Nil, Value::Nil) => true,
            (Value::Object(x), Value::Object(y)) => x == y,
            _ => false,
        }
    }
}

impl PartialEqSpecImpl for Value {
    open spec fn obeys_eq_spec() -> bool {
        true
    }

    open spec fn eq_spec(&self, other: &Value) -> bool {
        values_equal(*self, *other)
    }
}

} // verus!
