use vstd::prelude::*;

verus! {

/// Sign bit: set on every boxed heap reference.
pub const OBJ_TAG: u64 = 0x8000000000000000u64;

/// The quiet-NaN bits that every non-number value carries.
pub const QNAN: u64 = 0x7ffc000000000000u64;

/// Low tag of `nil`.
pub const NIL_TAG: u64 = 1u64;

/// Low tag of `false`.
pub const FALSE_TAG: u64 = 2u64;

/// Low tag of `true`.
pub const TRUE_TAG: u64 = 3u64;

/// Largest heap index plus one that a boxed reference can carry.
pub const OBJECT_INDEX_LIMIT: u64 = 0x4000000000000u64;

/// A NaN-boxed Lox value: a 64-bit IEEE double, or a quiet NaN carrying
/// `nil`, a boolean, or the index of a heap object.
#[derive(Clone, Copy, PartialEq, Eq, Structural, Debug)]
pub struct Value {
    bits: u64,
}

/// The bits of `nil`.
pub open spec fn nil_bits() -> u64 {
    QNAN | NIL_TAG
}

/// The bits of a boolean.
pub open spec fn boolean_bits(b: bool) -> u64 {
    if b {
        QNAN | TRUE_TAG
    } else {
        QNAN | FALSE_TAG
    }
}

/// The bits of a reference to heap slot `index`.
pub open spec fn object_bits(index: u64) -> u64 {
    OBJ_TAG | QNAN | index
}

pub open spec fn bits_is_nil(bits: u64) -> bool {
    bits == QNAN | NIL_TAG
}

pub open spec fn bits_is_boolean(bits: u64) -> bool {
    (bits | 1u64) == (QNAN | TRUE_TAG)
}

pub open spec fn bits_as_boolean(bits: u64) -> bool {
    (bits & TRUE_TAG) == TRUE_TAG
}

pub open spec fn bits_is_number(bits: u64) -> bool {
    (bits & QNAN) != QNAN
}

pub open spec fn bits_is_object(bits: u64) -> bool {
    (bits & (QNAN | OBJ_TAG)) == (QNAN | OBJ_TAG)
}

pub open spec fn bits_as_object(bits: u64) -> u64 {
    bits & !(QNAN | OBJ_TAG)
}

/// Lox truthiness: everything but `nil` and `false` is true.
pub open spec fn bits_is_truthy(bits: u64) -> bool {
    !bits_is_nil(bits) && !(bits_is_boolean(bits) && !bits_as_boolean(bits))
}

/// The value whose bits are `bits`.
pub closed spec fn value_of(bits: u64) -> Value {
    Value { bits }
}

/// A value built from bits has those bits.
pub broadcast proof fn lemma_value_of_bits(bits: u64)
    ensures
        #[trigger] value_of(bits).spec_bits() == bits,
{
}

/// A value is determined by its bits.
pub broadcast proof fn lemma_bits_value_of(v: Value)
    ensures
        #[trigger] value_of(v.spec_bits()) == v,
{
}

impl Value {
    /// The raw 64 bits of this value.
    pub closed spec fn spec_bits(self) -> u64 {
        self.bits
    }

    pub open spec fn spec_is_nil(self) -> bool {
        bits_is_nil(self.spec_bits())
    }

    pub open spec fn spec_is_boolean(self) -> bool {
        bits_is_boolean(self.spec_bits())
    }

    pub open spec fn spec_as_boolean(self) -> bool {
        bits_as_boolean(self.spec_bits())
    }

    pub open spec fn spec_is_number(self) -> bool {
        bits_is_number(self.spec_bits())
    }

    pub open spec fn spec_is_object(self) -> bool {
        bits_is_object(self.spec_bits())
    }

    pub open spec fn spec_as_object(self) -> usize {
        bits_as_object(self.spec_bits()) as usize
    }

    pub open spec fn spec_is_truthy(self) -> bool {
        bits_is_truthy(self.spec_bits())
    }

    /// Builds a value from its raw bits (a number is the bits of its `f64`).
    pub fn from_bits(bits: u64) -> (v: Value)
        ensures
            v.spec_bits() == bits,
            v == value_of(bits),
    {
        Value { bits }
    }

    /// The raw bits of this value.
    pub fn bits(&self) -> (b: u64)
        ensures
            b == self.spec_bits(),
    {
        self.bits
    }

    /// The `nil` value.
    pub fn nil() -> (v: Value)
        ensures
            v.spec_bits() == nil_bits(),
            v == value_of(nil_bits()),
    {
        Value { bits: QNAN | NIL_TAG }
    }

    pub fn is_nil(&self) -> (b: bool)
        ensures
            b == self.spec_is_nil(),
    {
        self.bits == (QNAN | NIL_TAG)
    }

    /// The boolean value `b`.
    pub fn boolean(b: bool) -> (v: Value)
        ensures
            v.spec_bits() == boolean_bits(b),
            v == value_of(boolean_bits(b)),
    {
        Value { bits: QNAN | if b { TRUE_TAG } else { FALSE_TAG } }
    }

    pub fn is_boolean(&self) -> (b: bool)
        ensures
            b == self.spec_is_boolean(),
    {
        (self.bits | 1) == (QNAN | TRUE_TAG)
    }

    pub fn as_boolean(&self) -> (b: bool)
        ensures
            b == self.spec_as_boolean(),
    {
        (self.bits & TRUE_TAG) == TRUE_TAG
    }

    pub fn is_number(&self) -> (b: bool)
        ensures
            b == self.spec_is_number(),
    {
        (self.bits & QNAN) != QNAN
    }

    /// A reference to heap slot `ptr`.
    pub fn object(ptr: usize) -> (v: Value)
        ensures
            v.spec_bits() == object_bits(ptr as u64),
            v == value_of(object_bits(ptr as u64)),
    {
        Value { bits: OBJ_TAG | QNAN | ptr as u64 }
    }

    pub fn is_object(&self) -> (b: bool)
        ensures
            b == self.spec_is_object(),
    {
        (self.bits & (QNAN | OBJ_TAG)) == (QNAN | OBJ_TAG)
    }

    pub fn as_object(&self) -> (p: usize)
        ensures
            p == self.spec_as_object(),
    {
        (self.bits & !(QNAN | OBJ_TAG)) as usize
    }

    /// Lox truthiness: `nil` and `false` are false, every other value is true.
    pub fn is_truthy(&self) -> (b: bool)
        ensures
            b == self.spec_is_truthy(),
    {
        !self.is_nil() && !(self.is_boolean() && !self.as_boolean())
    }
}

/// Lox truthiness: exactly `nil` and `false` are falsey; every other value
/// (`true`, every number, every object reference) is truthy.
pub proof fn lemma_falsey_values(bits: u64)
    ensures
        !bits_is_truthy(bits) <==> (bits == nil_bits() || bits == boolean_bits(false)),
{
    assert(!bits_is_truthy(bits) <==> (bits == (QNAN | NIL_TAG) || bits == (QNAN | FALSE_TAG)))
        by (bit_vector);
}

/// `nil` is `nil`, and it is neither a boolean, nor a number, nor an object;
/// it is not truthy.
pub proof fn lemma_nil_kind()
    ensures
        bits_is_nil(nil_bits()),
        !bits_is_boolean(nil_bits()),
        !bits_is_number(nil_bits()),
        !bits_is_object(nil_bits()),
        !bits_is_truthy(nil_bits()),
{
    assert(!bits_is_boolean(nil_bits())) by (bit_vector);
    assert(!bits_is_number(nil_bits())) by (bit_vector);
    assert(!bits_is_object(nil_bits())) by (bit_vector);
}

/// A boolean reads back as itself, is only a boolean, and is truthy exactly
/// when it is `true`.
pub proof fn lemma_boolean_roundtrip(b: bool)
    ensures
        bits_is_boolean(boolean_bits(b)),
        bits_as_boolean(boolean_bits(b)) == b,
        !bits_is_nil(boolean_bits(b)),
        !bits_is_number(boolean_bits(b)),
        !bits_is_object(boolean_bits(b)),
        bits_is_truthy(boolean_bits(b)) == b,
{
    assert(bits_is_boolean(QNAN | TRUE_TAG)) by (bit_vector);
    assert(bits_is_boolean(QNAN | FALSE_TAG)) by (bit_vector);
    assert(bits_as_boolean(QNAN | TRUE_TAG)) by (bit_vector);
    assert(!bits_as_boolean(QNAN | FALSE_TAG)) by (bit_vector);
    assert(!bits_is_nil(QNAN | TRUE_TAG)) by (bit_vector);
    assert(!bits_is_nil(QNAN | FALSE_TAG)) by (bit_vector);
    assert(!bits_is_number(QNAN | TRUE_TAG)) by (bit_vector);
    assert(!bits_is_number(QNAN | FALSE_TAG)) by (bit_vector);
    assert(!bits_is_object(QNAN | TRUE_TAG)) by (bit_vector);
    assert(!bits_is_object(QNAN | FALSE_TAG)) by (bit_vector);
}

/// A reference to a heap slot below the index limit reads back as that slot
/// and is only an object, and it is truthy.
pub proof fn lemma_object_roundtrip(index: u64)
    requires
        index < OBJECT_INDEX_LIMIT,
    ensures
        bits_is_object(object_bits(index)),
        bits_as_object(object_bits(index)) == index,
        !bits_is_nil(object_bits(index)),
        !bits_is_boolean(object_bits(index)),
        !bits_is_number(object_bits(index)),
        bits_is_truthy(object_bits(index)),
{
    assert(bits_is_object(OBJ_TAG | QNAN | index)) by (bit_vector);
    assert(index < 0x4000000000000u64 ==> bits_as_object(OBJ_TAG | QNAN | index) == index)
        by (bit_vector);
    assert(!bits_is_nil(OBJ_TAG | QNAN | index)) by (bit_vector);
    assert(!bits_is_boolean(OBJ_TAG | QNAN | index)) by (bit_vector);
    assert(!bits_is_number(OBJ_TAG | QNAN | index)) by (bit_vector);
}

/// The kinds are disjoint: a number is no `nil`, boolean or object, and an
/// object is no `nil` or boolean.
pub proof fn lemma_kinds_disjoint(bits: u64)
    ensures
        bits_is_number(bits) ==> !bits_is_nil(bits) && !bits_is_boolean(bits) && !bits_is_object(
            bits,
        ),
        bits_is_object(bits) ==> !bits_is_nil(bits) && !bits_is_boolean(bits),
        bits_is_nil(bits) ==> !bits_is_boolean(bits),
{
    assert(bits_is_number(bits) ==> !bits_is_nil(bits)) by (bit_vector);
    assert(bits_is_number(bits) ==> !bits_is_boolean(bits)) by (bit_vector);
    assert(bits_is_number(bits) ==> !bits_is_object(bits)) by (bit_vector);
    assert(bits_is_object(bits) ==> !bits_is_nil(bits)) by (bit_vector);
    assert(bits_is_object(bits) ==> !bits_is_boolean(bits)) by (bit_vector);
    assert(bits_is_nil(bits) ==> !bits_is_boolean(bits)) by (bit_vector);
}

} // verus!
