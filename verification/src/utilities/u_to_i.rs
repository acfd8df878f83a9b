use vstd::prelude::*;
use vstd::arithmetic::power2::pow2;
use vstd::math::abs;
use vstd::std_specs::ops::{
    AddSpecImpl, BitAndSpecImpl, DivSpecImpl, MulSpecImpl, NegSpecImpl, RemSpecImpl, ShlSpecImpl,
    ShrSpecImpl, SubSpecImpl,
};
use core::cmp::Ordering;
use core::ops::{Add, AddAssign, BitAnd, Div, Mul, MulAssign, Neg, Rem, Shl, Shr, Sub};
use crate::math::bits::bit_and;
use crate::math::division::{trunc_div, trunc_rem};
use crate::utilities::decimal::decimal_text;
use vstd::string::StringExecFns;

verus! {

/// An unsigned integer-like value of fixed width: what a [`UToI`] keeps as
/// its magnitude.
///
/// Every value stands for one natural number, its [`value`], of at most
/// [`max_value`]. The arithmetic operations ask that the result is
/// representable, and say over these numbers what they compute.
///
/// [`value`]: UTraits::value
/// [`max_value`]: UTraits::max_value
pub trait UTraits: Sized + Copy {
    /// The number this value stands for.
    spec fn value(self) -> int;

    /// The greatest representable number.
    spec fn max_value() -> int;

    /// The width in bits.
    spec fn bits() -> nat;

    /// What [`from_str_radix`](UTraits::from_str_radix) makes of a text: the
    /// number it denotes in the radix, or `None` where it denotes none that
    /// is representable.
    spec fn parsed(s: Seq<char>, radix: u32) -> Option<int>;

    /// The range holds 1 and fits the width.
    proof fn lemma_limits()
        ensures
            1 <= Self::max_value() < pow2(Self::bits()),
    ;

    /// Every value lies in the range.
    proof fn lemma_in_range(self)
        ensures
            0 <= self.value() <= Self::max_value(),
    ;

    /// Zero.
    fn zero() -> (r: Self)
        ensures
            r.value() == 0,
    ;

    /// One.
    fn one() -> (r: Self)
        ensures
            r.value() == 1,
    ;

    /// The sum.
    fn add(self, rhs: Self) -> (r: Self)
        requires
            self.value() + rhs.value() <= Self::max_value(),
        ensures
            r.value() == self.value() + rhs.value(),
    ;

    /// The difference.
    fn sub(self, rhs: Self) -> (r: Self)
        requires
            rhs.value() <= self.value(),
        ensures
            r.value() == self.value() - rhs.value(),
    ;

    /// The product.
    fn mul(self, rhs: Self) -> (r: Self)
        requires
            self.value() * rhs.value() <= Self::max_value(),
        ensures
            r.value() == self.value() * rhs.value(),
    ;

    /// The quotient.
    fn div(self, rhs: Self) -> (r: Self)
        requires
            rhs.value() != 0,
        ensures
            r.value() == self.value() / rhs.value(),
    ;

    /// The remainder.
    fn rem(self, rhs: Self) -> (r: Self)
        requires
            rhs.value() != 0,
        ensures
            r.value() == self.value() % rhs.value(),
    ;

    /// Whether both stand for the same number.
    fn equals(&self, other: &Self) -> (r: bool)
        ensures
            r == (self.value() == other.value()),
    ;

    /// Whether `self` is the smaller number.
    fn less_than(&self, other: &Self) -> (r: bool)
        ensures
            r == (self.value() < other.value()),
    ;

    /// The bitwise conjunction.
    fn bitand(self, rhs: Self) -> (r: Self)
        ensures
            r.value() == bit_and(self.value() as nat, rhs.value() as nat),
    ;

    /// The value shifted left by `k` bits; bits that leave the width are
    /// lost.
    fn shl(self, k: usize) -> (r: Self)
        requires
            k < Self::bits(),
        ensures
            r.value() == (self.value() * pow2(k as nat)) % (pow2(Self::bits()) as int),
    ;

    /// The value shifted right by `k` bits.
    fn shr(self, k: usize) -> (r: Self)
        requires
            k < Self::bits(),
        ensures
            r.value() == self.value() / (pow2(k as nat) as int),
    ;

    /// The number written in decimal.
    fn decimal(&self) -> (r: String)
        ensures
            r@ == decimal_text(self.value() as nat),
    ;

    /// Reads a number written in the given radix, which is between 2 and
    /// 36.
    fn from_str_radix(s: &str, radix: u32) -> (r: Option<Self>)
        requires
            2 <= radix <= 36,
        ensures
            match r {
                Some(v) => Self::parsed(s@, radix) == Some(v.value()),
                None => Self::parsed(s@, radix) is None,
            },
    ;
}

/// A signed integer made of an unsigned magnitude and a sign flag.
///
/// Zero is meant to carry no sign, and the arithmetic operations never
/// give it one; [`well_formed`](UToI::well_formed) says so of a value. The
/// bitwise conjunction and the left shift copy flags as they find them and
/// can leave a negative flag on a zero magnitude.
#[derive(Debug, Copy, Clone, PartialEq, Eq)]
pub struct UToI<T: UTraits> {
    // is_neg should be false for zero
    is_neg: bool,
    absval: T,
}

impl<T: UTraits> UToI<T> {
    /// The sign flag.
    pub closed spec fn negative(&self) -> bool {
        self.is_neg
    }

    /// The magnitude.
    pub closed spec fn magnitude(&self) -> int {
        self.absval.value()
    }

    /// The integer this value stands for.
    pub open spec fn value(&self) -> int {
        if self.negative() {
            -self.magnitude()
        } else {
            self.magnitude()
        }
    }

    /// Zero carries no sign.
    pub open spec fn well_formed(&self) -> bool {
        self.magnitude() == 0 ==> !self.negative()
    }

    /// Whether `self` comes before `other` in the order of [`cmp`]: by
    /// flag first, a negative flag first, and then by magnitude, turned
    /// round between two negative flags. On well-formed values this is the
    /// order of the integers.
    ///
    /// [`cmp`]: UToI::cmp
    pub open spec fn precedes(&self, other: &Self) -> bool {
        if self.negative() != other.negative() {
            self.negative()
        } else if self.negative() {
            other.magnitude() < self.magnitude()
        } else {
            self.magnitude() < other.magnitude()
        }
    }

    /// The non-negative value of magnitude `n`.
    pub fn new(n: T) -> (r: Self)
        ensures
            !r.negative(),
            r.magnitude() == n.value(),
    {
        UToI { is_neg: false, absval: n }
    }

    /// The sum of `self` and of `other` taken with the sign flag
    /// `other_neg` in place of its own.
    ///
    /// Where the two flags agree the magnitudes are added, and their sum
    /// must be representable.
    pub fn add_help(&self, other: &UToI<T>, other_neg: bool) -> (r: UToI<T>)
        requires
            self.negative() == other_neg ==> self.magnitude() + other.magnitude()
                <= T::max_value(),
        ensures
            r.value() == self.value() + (if other_neg {
                -other.magnitude()
            } else {
                other.magnitude()
            }),
            r.well_formed(),
    {
        let (mgn, mut neg) = if self.is_neg == other_neg {
            (self.absval.add(other.absval), self.is_neg)
        } else {
            if !self.absval.less_than(&other.absval) {
                (self.absval.sub(other.absval), self.is_neg)
            } else {
                (other.absval.sub(self.absval), other_neg)
            }
        };
        if mgn.equals(&T::zero()) {
            neg = false;
        }
        proof {
            self.absval.lemma_in_range();
            other.absval.lemma_in_range();
        }
        UToI { is_neg: neg, absval: mgn }
    }

    /// How `self` stands to `other` in the order that
    /// [`precedes`](UToI::precedes) describes.
    pub fn cmp(&self, other: &Self) -> (r: Ordering)
        ensures
            r is Less <==> self.precedes(other),
            r is Greater <==> other.precedes(self),
    {
        if self.is_neg && !other.is_neg {
            Ordering::Less
        } else if !self.is_neg && other.is_neg {
            Ordering::Greater
        } else if !self.is_neg {
            compare_magnitudes(&self.absval, &other.absval)
        } else {
            compare_magnitudes(&other.absval, &self.absval)
        }
    }

    /// The same as [`cmp`](UToI::cmp): the order is total.
    pub fn partial_cmp(&self, other: &Self) -> (r: Option<Ordering>)
        ensures
            r is Some,
            r->0 is Less <==> self.precedes(other),
            r->0 is Greater <==> other.precedes(self),
    {
        Some(self.cmp(other))
    }

    /// One.
    pub fn one() -> (r: UToI<T>)
        ensures
            !r.negative(),
            r.magnitude() == 1,
    {
        UToI { is_neg: false, absval: T::one() }
    }

    /// Zero.
    pub fn zero() -> (r: Self)
        ensures
            !r.negative(),
            r.magnitude() == 0,
    {
        UToI { is_neg: false, absval: T::zero() }
    }

    /// Whether the magnitude is zero.
    pub fn is_zero(&self) -> (r: bool)
        ensures
            r == (self.magnitude() == 0),
    {
        self.absval.equals(&T::zero())
    }

    /// What a text denotes, given the magnitude that was read from its
    /// digits and whether a minus sign stood before them. A magnitude of
    /// zero takes no sign; where no magnitude could be read, the text is
    /// invalid.
    pub fn from_parsed(negative: bool, digits: Option<T>) -> (r: Result<
        UToI<T>,
        FromStrRadixErrInt,
    >)
        ensures
            match digits {
                Some(val) => r is Ok && r->Ok_0.magnitude() == val.value() && r->Ok_0.negative()
                    == (negative && val.value() != 0),
                None => r is Err && r->Err_0.kind() == IntErrorKind::Invalid,
            },
    {
        match digits {
            None => {
                let err = FromStrRadixErrInt { kind: IntErrorKind::Invalid };
                Err(err)
            },
            Some(val) => {
                let val_ret = UToI {
                    // For the case of "-0"
                    is_neg: if val.equals(&T::zero()) {
                        false
                    } else {
                        negative
                    },
                    absval: val,
                };
                Ok(val_ret)
            },
        }
    }

    /// Reads a signed number written in the given radix, which is between
    /// 2 and 36: an optional minus sign, then what `T` reads as a
    /// magnitude.
    ///
    /// Fails with `Empty` on the empty text and with `Invalid` where `T`
    /// reads no magnitude from what follows the sign.
    pub fn from_str_radix(s: &str, radix: u32) -> (r: Result<UToI<T>, FromStrRadixErrInt>)
        requires
            2 <= radix <= 36,
        ensures
            s@.len() == 0 ==> r is Err && r->Err_0.kind() == IntErrorKind::Empty,
            s@.len() > 0 ==> match T::parsed(signless(s@), radix) {
                Some(v) => r is Ok && r->Ok_0.magnitude() == v && r->Ok_0.negative() == (s@[0]
                    == '-' && v != 0),
                None => r is Err && r->Err_0.kind() == IntErrorKind::Invalid,
            },
    {
        if s.is_empty() {
            let err = FromStrRadixErrInt { kind: IntErrorKind::Empty };
            return Err(err);
        }
        let mut str_copy = s;
        let is_neg_result = if s.get_char(0) == '-' {
            str_copy = s.substring_char(1, s.unicode_len());
            true
        } else {
            false
        };
        Self::from_parsed(is_neg_result, T::from_str_radix(str_copy, radix))
    }

    /// The magnitude.
    pub fn absolute_value(&self) -> (r: T)
        ensures
            r.value() == self.magnitude(),
    {
        self.absval
    }

    /// The value written in decimal: a minus sign where the sign flag is
    /// set, then the magnitude.
    pub fn to_string(&self) -> (r: String)
        ensures
            r@ == (if self.negative() {
                seq!['-']
            } else {
                Seq::<char>::empty()
            }) + decimal_text(self.magnitude() as nat),
    {
        proof {
            reveal_strlit("-");
            reveal_strlit("");
        }
        let mut text = String::from_str(
            if self.is_neg {
                "-"
            } else {
                ""
            },
        );
        let digits = self.absval.decimal();
        text.append(digits.as_str());
        proof {
            assert("-"@ =~= seq!['-']);
            assert(""@ =~= Seq::<char>::empty());
        }
        text
    }

    /// The magnitude, as a value without sign.
    pub fn abs(&self) -> (r: Self)
        ensures
            !r.negative(),
            r.magnitude() == self.magnitude(),
    {
        UToI { is_neg: false, absval: self.absval }
    }

    /// The distance between the two values. Where the flags differ the
    /// magnitudes are added, and their sum must be representable.
    pub fn abs_sub(&self, other: &Self) -> (r: Self)
        requires
            self.negative() != other.negative() ==> self.magnitude() + other.magnitude()
                <= T::max_value(),
        ensures
            !r.negative(),
            r.magnitude() == abs(self.value() - other.value()),
    {
        proof {
            self.absval.lemma_in_range();
            other.absval.lemma_in_range();
        }
        let newval = if self.is_neg == other.is_neg {
            if !self.absval.less_than(&other.absval) {
                self.absval.sub(other.absval)
            } else {
                other.absval.sub(self.absval)
            }
        } else {
            self.absval.add(other.absval)
        };
        UToI::new(newval)
    }

    /// The value of magnitude one with the sign flag of `self`.
    pub fn signum(&self) -> (r: Self)
        ensures
            r.negative() == self.negative(),
            r.magnitude() == 1,
    {
        UToI { absval: T::one(), is_neg: self.is_neg }
    }

    /// Whether the value is above zero.
    pub fn is_positive(&self) -> (r: bool)
        ensures
            r == (!self.negative() && self.magnitude() != 0),
    {
        !self.is_neg && !self.absval.equals(&T::zero())
    }

    /// Whether the sign flag is set.
    pub fn is_negative(&self) -> (r: bool)
        ensures
            r == self.negative(),
    {
        self.is_neg
    }
}

impl<T: UTraits> RemSpecImpl for UToI<T> {
    open spec fn obeys_rem_spec() -> bool {
        false
    }

    open spec fn rem_req(self, rhs: UToI<T>) -> bool {
        rhs.magnitude() != 0
    }

    open spec fn rem_spec(self, rhs: UToI<T>) -> UToI<T> {
        self
    }
}

impl<T: UTraits> Rem for UToI<T> {
    type Output = UToI<T>;

    /// The remainder of the division rounded toward zero: its sign is that
    /// of the dividend. The divisor may not be zero.
    fn rem(self, other: UToI<T>) -> (r: UToI<T>)
        ensures
            r.value() == trunc_rem(self.value(), other.value()),
            r.well_formed(),
    {
        proof {
            self.absval.lemma_in_range();
            other.absval.lemma_in_range();
        }
        let rem = self.absval.rem(other.absval);
        let neg = if rem.equals(&T::zero()) {
            false
        } else {
            self.is_neg
        };
        proof {
            if self.magnitude() == 0 {
                vstd::arithmetic::div_mod::lemma_small_mod(0, other.magnitude() as nat);
            }
        }
        UToI { is_neg: neg, absval: rem }
    }
}

impl<T: UTraits> AddSpecImpl for UToI<T> {
    open spec fn obeys_add_spec() -> bool {
        false
    }

    open spec fn add_req(self, rhs: UToI<T>) -> bool {
        self.negative() == rhs.negative() ==> self.magnitude() + rhs.magnitude() <= T::max_value()
    }

    open spec fn add_spec(self, rhs: UToI<T>) -> UToI<T> {
        self
    }
}

impl<T: UTraits> Add for UToI<T> {
    type Output = UToI<T>;

    /// The sum. Where the flags agree the magnitudes are added, and their
    /// sum must be representable.
    fn add(self, other: UToI<T>) -> (r: UToI<T>)
        ensures
            r.value() == self.value() + other.value(),
            r.well_formed(),
    {
        self.add_help(&other, other.is_neg)
    }
}

impl<T: UTraits> AddAssign for UToI<T> {
    /// Adds `rhs` to `self`, as `+` does.
    fn add_assign(&mut self, rhs: Self)
        requires
            old(self).negative() == rhs.negative() ==> old(self).magnitude() + rhs.magnitude()
                <= T::max_value(),
        ensures
            final(self).value() == old(self).value() + rhs.value(),
            final(self).well_formed(),
    {
        *self = *self + rhs;
    }
}

impl<T: UTraits> SubSpecImpl for UToI<T> {
    open spec fn obeys_sub_spec() -> bool {
        false
    }

    open spec fn sub_req(self, rhs: UToI<T>) -> bool {
        self.negative() != rhs.negative() ==> self.magnitude() + rhs.magnitude() <= T::max_value()
    }

    open spec fn sub_spec(self, rhs: UToI<T>) -> UToI<T> {
        self
    }
}

impl<T: UTraits> Sub for UToI<T> {
    type Output = UToI<T>;

    /// The difference. Where the flags differ the magnitudes are added,
    /// and their sum must be representable.
    fn sub(self, other: UToI<T>) -> (r: UToI<T>)
        ensures
            r.value() == self.value() - other.value(),
            r.well_formed(),
    {
        self.add_help(&other, !other.is_neg)
    }
}

impl<T: UTraits> MulSpecImpl for UToI<T> {
    open spec fn obeys_mul_spec() -> bool {
        false
    }

    open spec fn mul_req(self, rhs: UToI<T>) -> bool {
        self.magnitude() * rhs.magnitude() <= T::max_value()
    }

    open spec fn mul_spec(self, rhs: UToI<T>) -> UToI<T> {
        self
    }
}

impl<T: UTraits> Mul for UToI<T> {
    type Output = UToI<T>;

    /// The product. The product of the magnitudes must be representable.
    fn mul(self, other: UToI<T>) -> (r: UToI<T>)
        ensures
            r.value() == self.value() * other.value(),
            r.well_formed(),
    {
        let mgn = self.absval.mul(other.absval);
        let neg = self.is_neg != other.is_neg && !mgn.equals(&T::zero());
        proof {
            let (a, b) = (self.magnitude(), other.magnitude());
            assert((-a) * b == -(a * b) && a * (-b) == -(a * b) && (-a) * (-b) == a * b)
                by (nonlinear_arith);
        }
        UToI { is_neg: neg, absval: mgn }
    }
}

impl<T: UTraits> MulAssign for UToI<T> {
    /// Multiplies `self` by `rhs`, as `*` does.
    fn mul_assign(&mut self, rhs: Self)
        requires
            old(self).magnitude() * rhs.magnitude() <= T::max_value(),
        ensures
            final(self).value() == old(self).value() * rhs.value(),
            final(self).well_formed(),
    {
        *self = *self * rhs;
    }
}

impl<T: UTraits> DivSpecImpl for UToI<T> {
    open spec fn obeys_div_spec() -> bool {
        false
    }

    open spec fn div_req(self, rhs: UToI<T>) -> bool {
        rhs.magnitude() != 0
    }

    open spec fn div_spec(self, rhs: UToI<T>) -> UToI<T> {
        self
    }
}

impl<T: UTraits> Div for UToI<T> {
    type Output = UToI<T>;

    /// The quotient, rounded toward zero. The divisor may not be zero.
    fn div(self, other: UToI<T>) -> (r: UToI<T>)
        ensures
            r.value() == trunc_div(self.value(), other.value()),
            r.well_formed(),
    {
        proof {
            self.absval.lemma_in_range();
            other.absval.lemma_in_range();
        }
        let mgn = self.absval.div(other.absval);
        let neg = self.is_neg != other.is_neg && !mgn.equals(&T::zero());
        UToI { is_neg: neg, absval: mgn }
    }
}

impl<T: UTraits> NegSpecImpl for UToI<T> {
    open spec fn obeys_neg_spec() -> bool {
        false
    }

    open spec fn neg_req(self) -> bool {
        true
    }

    open spec fn neg_spec(self) -> UToI<T> {
        self
    }
}

impl<T: UTraits> Neg for UToI<T> {
    type Output = UToI<T>;

    /// The additive inverse; zero stays without sign.
    fn neg(self) -> (r: Self)
        ensures
            r.value() == -self.value(),
            r.magnitude() == self.magnitude(),
            r.well_formed(),
    {
        UToI {
            is_neg: if !self.absval.equals(&T::zero()) {
                !self.is_neg
            } else {
                false
            },
            absval: self.absval,
        }
    }
}

impl<T: UTraits> BitAndSpecImpl for UToI<T> {
    open spec fn obeys_bitand_spec() -> bool {
        false
    }

    open spec fn bitand_req(self, rhs: UToI<T>) -> bool {
        true
    }

    open spec fn bitand_spec(self, rhs: UToI<T>) -> UToI<T> {
        self
    }
}

impl<T: UTraits> BitAnd for UToI<T> {
    type Output = UToI<T>;

    /// The conjunction of the magnitudes, negative where both operands
    /// are flagged so.
    fn bitand(self, rhs: Self) -> (r: Self::Output)
        ensures
            r.negative() == (self.negative() && rhs.negative()),
            r.magnitude() == bit_and(self.magnitude() as nat, rhs.magnitude() as nat),
    {
        UToI {
            // Try to emulate 2's complement...
            is_neg: self.is_neg && rhs.is_neg,
            absval: self.absval.bitand(rhs.absval),
        }
    }
}

impl<T: UTraits> ShlSpecImpl<usize> for UToI<T> {
    open spec fn obeys_shl_spec() -> bool {
        false
    }

    open spec fn shl_req(self, rhs: usize) -> bool {
        rhs < T::bits()
    }

    open spec fn shl_spec(self, rhs: usize) -> UToI<T> {
        self
    }
}

impl<T: UTraits> Shl<usize> for UToI<T> {
    type Output = UToI<T>;

    /// The magnitude shifted left by `rhs` bits, which is less than the
    /// width, under the sign flag of `self`. Bits that leave the width are
    /// lost.
    fn shl(self, rhs: usize) -> (r: Self::Output)
        ensures
            r.negative() == self.negative(),
            r.magnitude() == (self.magnitude() * pow2(rhs as nat)) % (pow2(T::bits()) as int),
    {
        UToI {
            // There is no exact 2's complement solution here so just use self.is_neg for sign
            is_neg: self.is_neg,
            absval: self.absval.shl(rhs),
        }
    }
}

impl<T: UTraits> ShrSpecImpl<usize> for UToI<T> {
    open spec fn obeys_shr_spec() -> bool {
        false
    }

    open spec fn shr_req(self, rhs: usize) -> bool {
        rhs < T::bits()
    }

    open spec fn shr_spec(self, rhs: usize) -> UToI<T> {
        self
    }
}

impl<T: UTraits> Shr<usize> for UToI<T> {
    type Output = UToI<T>;

    /// The magnitude shifted right by `rhs` bits, which is less than the
    /// width, without sign.
    fn shr(self, rhs: usize) -> (r: Self::Output)
        ensures
            !r.negative(),
            r.magnitude() == self.magnitude() / (pow2(rhs as nat) as int),
    {
        UToI {
            // Always a logical right shift
            is_neg: false,
            absval: self.absval.shr(rhs),
        }
    }
}

/// A text without the minus sign that may stand at its front.
pub open spec fn signless(s: Seq<char>) -> Seq<char> {
    if s.len() > 0 && s[0] == '-' {
        s.subrange(1, s.len() as int)
    } else {
        s
    }
}

/// How the number `a` stands to the number `b`.
fn compare_magnitudes<T: UTraits>(a: &T, b: &T) -> (r: Ordering)
    ensures
        r is Less <==> a.value() < b.value(),
        r is Greater <==> b.value() < a.value(),
{
    if a.less_than(b) {
        Ordering::Less
    } else if a.equals(b) {
        Ordering::Equal
    } else {
        Ordering::Greater
    }
}

/// Why a text is no number.
#[derive(Debug, Clone, PartialEq, Eq)]
pub struct FromStrRadixErrInt {
    kind: IntErrorKind,
}

impl FromStrRadixErrInt {
    /// The reason.
    pub closed spec fn kind(&self) -> IntErrorKind {
        self.kind
    }

    /// The reason.
    pub fn get_kind(&self) -> (r: IntErrorKind)
        ensures
            r == self.kind(),
    {
        match self.kind {
            IntErrorKind::Empty => IntErrorKind::Empty,
            IntErrorKind::Invalid => IntErrorKind::Invalid,
        }
    }
}

/// The reasons for which a text is no number.
#[derive(Debug, Clone, PartialEq, Eq)]
pub enum IntErrorKind {
    /// The text is empty.
    Empty,
    /// The text holds something other than a number.
    Invalid,
}

} // verus!
