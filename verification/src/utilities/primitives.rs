use vstd::prelude::*;
use vstd::math::abs;

verus! {

/// The machine integers of the language, each seen as the mathematical
/// integer it holds. The trait is private to the crate and implemented here
/// for the primitive integer types of fixed width: what this module
/// believes of the `num` crate, it believes of these types only.
pub(crate) trait Machine: Sized + Copy {
    /// The integer held.
    spec fn int_of(self) -> int;

    /// The least value of the type.
    spec fn lowest() -> int;

    /// The greatest value of the type.
    spec fn highest() -> int;
}

/// What `Num::from_str_radix` of the `num` crate makes of the text `s` in
/// the given radix for a primitive integer type that reaches from `lowest`
/// to `highest`: the integer parsed, or `None` where it reports an error.
pub uninterp spec fn parsed_integer(s: Seq<char>, radix: u32, lowest: int, highest: int) -> Option<
    int,
>;

/// `num::zero`: for a primitive integer type it returns the literal 0.
#[verifier::external_body]
pub(crate) fn num_zero<T: Machine + num::Zero>() -> (r: T)
    ensures
        r.int_of() == 0,
{
    num::zero()
}

/// `num::one`: for a primitive integer type it returns the literal 1.
#[verifier::external_body]
pub(crate) fn num_one<T: Machine + num::One>() -> (r: T)
    ensures
        r.int_of() == 1,
{
    num::one()
}

/// `num::abs`: for a primitive signed integer it negates a negative
/// argument and returns any other unchanged. The negation overflows on the
/// least value of the type, which the precondition leaves out.
#[verifier::external_body]
pub(crate) fn num_abs<T: Machine + num::Signed>(x: T) -> (r: T)
    requires
        -x.int_of() <= T::highest(),
    ensures
        r.int_of() == abs(x.int_of()),
{
    num::abs(x)
}

/// `num::CheckedMul::checked_mul`: for a primitive integer type it is the
/// type's own `checked_mul`, the product where it is in range and `None`
/// where it is not.
#[verifier::external_body]
pub(crate) fn num_checked_mul<T: Machine + num::CheckedMul>(a: &T, b: &T) -> (r: Option<T>)
    ensures
        match r {
            Some(v) => v.int_of() == a.int_of() * b.int_of(),
            None => !(T::lowest() <= a.int_of() * b.int_of() <= T::highest()),
        },
{
    a.checked_mul(b)
}

/// `num::FromPrimitive::from_i32`: for a primitive integer type it returns
/// the same integer in that type where the type can hold it, else `None`.
#[verifier::external_body]
pub(crate) fn num_from_i32<T: Machine + num::FromPrimitive>(k: i32) -> (r: Option<T>)
    ensures
        match r {
            Some(v) => v.int_of() == k,
            None => !(T::lowest() <= k <= T::highest()),
        },
{
    T::from_i32(k)
}

/// `num::FromPrimitive::from_usize`: for a primitive integer type it
/// returns the same integer in that type where the type can hold it, else
/// `None`.
#[verifier::external_body]
pub(crate) fn num_from_usize<T: Machine + num::FromPrimitive>(k: usize) -> (r: Option<T>)
    ensures
        match r {
            Some(v) => v.int_of() == k,
            None => !(T::lowest() <= k <= T::highest()),
        },
{
    T::from_usize(k)
}

/// `num::ToPrimitive::to_i32`: for a primitive integer it returns the same
/// integer as an `i32` where an `i32` can hold it, else `None`.
#[verifier::external_body]
pub(crate) fn num_to_i32<T: Machine + num::ToPrimitive>(x: &T) -> (r: Option<i32>)
    ensures
        match r {
            Some(k) => k == x.int_of(),
            None => !(i32::MIN <= x.int_of() <= i32::MAX),
        },
{
    x.to_i32()
}

/// `num::ToPrimitive::to_usize`: for a primitive integer it returns the
/// same integer as a `usize` where a `usize` can hold it, else `None`.
#[verifier::external_body]
pub(crate) fn num_to_usize<T: Machine + num::ToPrimitive>(x: &T) -> (r: Option<usize>)
    ensures
        match r {
            Some(k) => k == x.int_of(),
            None => !(0 <= x.int_of() <= usize::MAX),
        },
{
    x.to_usize()
}

/// `num::Num::from_str_radix`: for a primitive integer type it is the
/// type's own `from_str_radix`, which panics unless the radix is between 2
/// and 36. The parse error, which says nothing more here, is dropped.
#[verifier::external_body]
pub(crate) fn num_from_str_radix<T: Machine + num::Num>(s: &str, radix: u32) -> (r: Option<T>)
    requires
        2 <= radix <= 36,
    ensures
        match r {
            Some(v) => parsed_integer(s@, radix, T::lowest(), T::highest()) == Some(v.int_of()),
            None => parsed_integer(s@, radix, T::lowest(), T::highest()) is None,
        },
{
    T::from_str_radix(s, radix).ok()
}

impl Machine for i8 {
    open spec fn int_of(self) -> int {
        self as int
    }

    open spec fn lowest() -> int {
        i8::MIN as int
    }

    open spec fn highest() -> int {
        i8::MAX as int
    }
}

impl Machine for i16 {
    open spec fn int_of(self) -> int {
        self as int
    }

    open spec fn lowest() -> int {
        i16::MIN as int
    }

    open spec fn highest() -> int {
        i16::MAX as int
    }
}

impl Machine for i32 {
    open spec fn int_of(self) -> int {
        self as int
    }

    open spec fn lowest() -> int {
        i32::MIN as int
    }

    open spec fn highest() -> int {
        i32::MAX as int
    }
}

impl Machine for i64 {
    open spec fn int_of(self) -> int {
        self as int
    }

    open spec fn lowest() -> int {
        i64::MIN as int
    }

    open spec fn highest() -> int {
        i64::MAX as int
    }
}

impl Machine for i128 {
    open spec fn int_of(self) -> int {
        self as int
    }

    open spec fn lowest() -> int {
        i128::MIN as int
    }

    open spec fn highest() -> int {
        i128::MAX as int
    }
}

impl Machine for u8 {
    open spec fn int_of(self) -> int {
        self as int
    }

    open spec fn lowest() -> int {
        u8::MIN as int
    }

    open spec fn highest() -> int {
        u8::MAX as int
    }
}

impl Machine for u16 {
    open spec fn int_of(self) -> int {
        self as int
    }

    open spec fn lowest() -> int {
        u16::MIN as int
    }

    open spec fn highest() -> int {
        u16::MAX as int
    }
}

impl Machine for u32 {
    open spec fn int_of(self) -> int {
        self as int
    }

    open spec fn lowest() -> int {
        u32::MIN as int
    }

    open spec fn highest() -> int {
        u32::MAX as int
    }
}

impl Machine for u64 {
    open spec fn int_of(self) -> int {
        self as int
    }

    open spec fn lowest() -> int {
        u64::MIN as int
    }

    open spec fn highest() -> int {
        u64::MAX as int
    }
}

impl Machine for u128 {
    open spec fn int_of(self) -> int {
        self as int
    }

    open spec fn lowest() -> int {
        u128::MIN as int
    }

    open spec fn highest() -> int {
        u128::MAX as int
    }
}

} // verus!
