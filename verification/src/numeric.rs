use vstd::prelude::*;
use vstd::string::StrSliceExecFns;

verus! {

/// Decimal digit, `'0'` through `'9'`.
pub open spec fn is_digit_char(c: char) -> bool {
    48 <= c as u32 <= 57
}

/// Numeric value of a decimal digit.
pub open spec fn digit_value(c: char) -> int {
    c as u32 - 48
}

pub open spec fn all_digit_chars(s: Seq<char>) -> bool {
    forall|i: int| 0 <= i < s.len() ==> is_digit_char(#[trigger] s[i])
}

/// Value of a string of decimal digits, most significant first.
pub open spec fn digits_value(s: Seq<char>) -> int
    decreases s.len(),
{
    if s.len() == 0 {
        0
    } else {
        digits_value(s.drop_last()) * 10 + digit_value(s.last())
    }
}

proof fn lemma_digits_value_nonneg(s: Seq<char>)
    requires
        all_digit_chars(s),
    ensures
        digits_value(s) >= 0,
    decreases s.len(),
{
    if s.len() > 0 {
        assert(all_digit_chars(s.drop_last())) by {
            assert(forall|i: int|
                0 <= i < s.len() - 1 ==> s.drop_last()[i] == #[trigger] s[i]);
        }
        lemma_digits_value_nonneg(s.drop_last());
    }
}

/// A digit string is worth at least any of its prefixes.
proof fn lemma_digits_value_prefix_le(s: Seq<char>, j: int)
    requires
        all_digit_chars(s),
        0 <= j <= s.len(),
    ensures
        digits_value(s.take(j)) <= digits_value(s),
    decreases s.len() - j,
{
    if j < s.len() {
        assert(all_digit_chars(s.take(j))) by {
            assert(forall|i: int| 0 <= i < j ==> s.take(j)[i] == #[trigger] s[i]);
        }
        lemma_digits_value_nonneg(s.take(j));
        assert(s.take(j + 1).drop_last() =~= s.take(j));
        assert(s.take(j + 1).last() == s[j]);
        assert(digits_value(s.take(j + 1)) == digits_value(s.take(j)) * 10 + digit_value(s[j]));
        lemma_digits_value_prefix_le(s, j + 1);
    } else {
        assert(s.take(j) =~= s);
    }
}

/// Reads a nonempty, all-digit decimal string as an `i64`; anything else, the
/// empty string and any value above `i64::MAX` included, is `None`.
pub open spec fn parse_i64_spec(s: Seq<char>) -> Option<i64> {
    if s.len() > 0 && all_digit_chars(s) && digits_value(s) <= i64::MAX {
        Some(digits_value(s) as i64)
    } else {
        None
    }
}

/// Parses a run of decimal digits as an `i64`.
pub fn parse_decimal_i64(s: &str) -> (r: Option<i64>)
    ensures
        r == parse_i64_spec(s@),
{
    let n = s.unicode_len();
    if n == 0 {
        return None;
    }
    let mut acc: i64 = 0;
    let mut i: usize = 0;
    while i < n
        invariant
            0 < n == s@.len(),
            0 <= i <= n,
            all_digit_chars(s@.take(i as int)),
            acc == digits_value(s@.take(i as int)),
            0 <= acc,
        decreases n - i,
    {
        let c = s.get_char(i);
        let cv = c as u32;
        if cv < 48 || cv > 57 {
            assert(!is_digit_char(s@[i as int]));
            return None;
        }
        let d = (cv - 48) as i64;
        proof {
            assert(s@.take(i + 1).drop_last() =~= s@.take(i as int));
            assert(s@.take(i + 1).last() == s@[i as int]);
        }
        let next = match acc.checked_mul(10) {
            Some(m) => m.checked_add(d),
            None => None,
        };
        match next {
            Some(v) => {
                acc = v;
            },
            None => {
                // The digits read so far already exceed the representable
                // range, so if the rest are digits the whole string does too;
                // and if they are not, the string does not parse anyway.
                proof {
                    assert(digits_value(s@.take(i + 1)) > i64::MAX);
                    if all_digit_chars(s@) {
                        lemma_digits_value_prefix_le(s@, i + 1);
                    }
                }
                return None;
            },
        }
        i = i + 1;
    }
    proof {
        assert(s@.take(n as int) =~= s@);
    }
    Some(acc)
}

/// Magnitude of an integer.
pub open spec fn abs_int(a: int) -> int {
    if a < 0 {
        -a
    } else {
        a
    }
}

/// Truncating division: the quotient of the magnitudes carrying the usual sign
/// rule. This is the behaviour of `/` on Rust's machine integers, which rounds
/// toward zero, where the mathematical `/` of specifications is Euclidean.
pub open spec fn div_trunc(a: int, b: int) -> int {
    let m = abs_int(a) / abs_int(b);
    if (a < 0) == (b < 0) {
        m
    } else {
        -m
    }
}

/// The arithmetic capability a scalar type must supply to be parsed and
/// evaluated: the four operations, negation, equality, a default value and
/// parsing from text. Each executable method carries a spec-level twin that
/// the contracts of parsing and evaluation are stated over; `*_ok` says on
/// which operands the operation is defined at all (for machine integers:
/// where it neither overflows nor divides by zero).
pub trait Numeric: Sized + Copy {
    /// Whether `self + rhs` is defined; unless overridden, everywhere.
    open spec fn add_ok(self, rhs: Self) -> bool {
        true
    }

    /// What `plus` returns; unspecified unless the implementor overrides it.
    open spec fn add_spec(self, rhs: Self) -> Self {
        arbitrary()
    }

    /// Whether `self - rhs` is defined; unless overridden, everywhere.
    open spec fn sub_ok(self, rhs: Self) -> bool {
        true
    }

    /// What `minus` returns; unspecified unless the implementor overrides it.
    open spec fn sub_spec(self, rhs: Self) -> Self {
        arbitrary()
    }

    /// Whether `self * rhs` is defined; unless overridden, everywhere.
    open spec fn mul_ok(self, rhs: Self) -> bool {
        true
    }

    /// What `times` returns; unspecified unless the implementor overrides it.
    open spec fn mul_spec(self, rhs: Self) -> Self {
        arbitrary()
    }

    /// Whether `self / rhs` is defined; unless overridden, everywhere.
    open spec fn div_ok(self, rhs: Self) -> bool {
        true
    }

    /// What `divided_by` returns; unspecified unless the implementor
    /// overrides it.
    open spec fn div_spec(self, rhs: Self) -> Self {
        arbitrary()
    }

    /// Whether `-self` is defined; unless overridden, everywhere.
    open spec fn neg_ok(self) -> bool {
        true
    }

    /// What `negated` returns; unspecified unless the implementor overrides
    /// it.
    open spec fn neg_spec(self) -> Self {
        arbitrary()
    }

    /// What `equals` returns; by default, equality of the values.
    open spec fn eq_spec(self, rhs: Self) -> bool {
        self == rhs
    }

    /// What `default_value` returns; unspecified unless the implementor
    /// overrides it.
    open spec fn default_spec() -> Self {
        arbitrary()
    }

    /// Which strings `parse_text` accepts, and the value each one denotes;
    /// unspecified unless the implementor overrides it.
    open spec fn parse_spec(s: Seq<char>) -> Option<Self> {
        arbitrary()
    }

    fn plus(self, rhs: Self) -> (r: Self)
        requires
            self.add_ok(rhs),
        ensures
            r == self.add_spec(rhs),
    ;

    fn minus(self, rhs: Self) -> (r: Self)
        requires
            self.sub_ok(rhs),
        ensures
            r == self.sub_spec(rhs),
    ;

    fn times(self, rhs: Self) -> (r: Self)
        requires
            self.mul_ok(rhs),
        ensures
            r == self.mul_spec(rhs),
    ;

    fn divided_by(self, rhs: Self) -> (r: Self)
        requires
            self.div_ok(rhs),
        ensures
            r == self.div_spec(rhs),
    ;

    fn negated(self) -> (r: Self)
        requires
            self.neg_ok(),
        ensures
            r == self.neg_spec(),
    ;

    fn equals(self, rhs: Self) -> (r: bool)
        ensures
            r == self.eq_spec(rhs),
    ;

    fn default_value() -> (r: Self)
        ensures
            r == Self::default_spec(),
    ;

    fn parse_text(s: &str) -> (r: Option<Self>)
        ensures
            r == Self::parse_spec(s@),
    ;
}

impl Numeric for i64 {
    open spec fn add_ok(self, rhs: i64) -> bool {
        i64::MIN <= self + rhs <= i64::MAX
    }

    open spec fn add_spec(self, rhs: i64) -> i64 {
        (self + rhs) as i64
    }

    open spec fn sub_ok(self, rhs: i64) -> bool {
        i64::MIN <= self - rhs <= i64::MAX
    }

    open spec fn sub_spec(self, rhs: i64) -> i64 {
        (self - rhs) as i64
    }

    open spec fn mul_ok(self, rhs: i64) -> bool {
        i64::MIN <= self * rhs <= i64::MAX
    }

    open spec fn mul_spec(self, rhs: i64) -> i64 {
        (self * rhs) as i64
    }

    open spec fn div_ok(self, rhs: i64) -> bool {
        rhs != 0 && !(self == i64::MIN && rhs == -1)
    }

    open spec fn div_spec(self, rhs: i64) -> i64 {
        div_trunc(self as int, rhs as int) as i64
    }

    open spec fn neg_ok(self) -> bool {
        self != i64::MIN
    }

    open spec fn neg_spec(self) -> i64 {
        (-(self as int)) as i64
    }

    open spec fn eq_spec(self, rhs: i64) -> bool {
        self == rhs
    }

    open spec fn default_spec() -> i64 {
        0
    }

    open spec fn parse_spec(s: Seq<char>) -> Option<i64> {
        parse_i64_spec(s)
    }

    fn plus(self, rhs: i64) -> i64 {
        self + rhs
    }

    fn minus(self, rhs: i64) -> i64 {
        self - rhs
    }

    fn times(self, rhs: i64) -> i64 {
        self * rhs
    }

    fn divided_by(self, rhs: i64) -> (r: i64) {
        proof {
            lemma_div_trunc_in_range(self as int, rhs as int, i64::MIN as int, i64::MAX as int);
        }
        match self.checked_div(rhs) {
            Some(q) => q,
            None => unreached(),
        }
    }

    fn negated(self) -> i64 {
        -self
    }

    fn equals(self, rhs: i64) -> bool {
        self == rhs
    }

    fn default_value() -> i64 {
        0
    }

    fn parse_text(s: &str) -> Option<i64> {
        parse_decimal_i64(s)
    }
}

/// Reads a nonempty, all-digit decimal string as an `i32`.
pub open spec fn parse_i32_spec(s: Seq<char>) -> Option<i32> {
    if s.len() > 0 && all_digit_chars(s) && digits_value(s) <= i32::MAX {
        Some(digits_value(s) as i32)
    } else {
        None
    }
}

/// Reads a nonempty, all-digit decimal string as an `isize`.
pub open spec fn parse_isize_spec(s: Seq<char>) -> Option<isize> {
    if s.len() > 0 && all_digit_chars(s) && digits_value(s) <= isize::MAX {
        Some(digits_value(s) as isize)
    } else {
        None
    }
}

impl Numeric for i32 {
    open spec fn add_ok(self, rhs: i32) -> bool {
        i32::MIN <= self + rhs <= i32::MAX
    }

    open spec fn add_spec(self, rhs: i32) -> i32 {
        (self + rhs) as i32
    }

    open spec fn sub_ok(self, rhs: i32) -> bool {
        i32::MIN <= self - rhs <= i32::MAX
    }

    open spec fn sub_spec(self, rhs: i32) -> i32 {
        (self - rhs) as i32
    }

    open spec fn mul_ok(self, rhs: i32) -> bool {
        i32::MIN <= self * rhs <= i32::MAX
    }

    open spec fn mul_spec(self, rhs: i32) -> i32 {
        (self * rhs) as i32
    }

    open spec fn div_ok(self, rhs: i32) -> bool {
        rhs != 0 && !(self == i32::MIN && rhs == -1)
    }

    open spec fn div_spec(self, rhs: i32) -> i32 {
        div_trunc(self as int, rhs as int) as i32
    }

    open spec fn neg_ok(self) -> bool {
        self != i32::MIN
    }

    open spec fn neg_spec(self) -> i32 {
        (-(self as int)) as i32
    }

    open spec fn eq_spec(self, rhs: i32) -> bool {
        self == rhs
    }

    open spec fn default_spec() -> i32 {
        0
    }

    open spec fn parse_spec(s: Seq<char>) -> Option<i32> {
        parse_i32_spec(s)
    }

    fn plus(self, rhs: i32) -> i32 {
        self + rhs
    }

    fn minus(self, rhs: i32) -> i32 {
        self - rhs
    }

    fn times(self, rhs: i32) -> i32 {
        self * rhs
    }

    fn divided_by(self, rhs: i32) -> (r: i32) {
        proof {
            lemma_div_trunc_in_range(self as int, rhs as int, i32::MIN as int, i32::MAX as int);
        }
        match self.checked_div(rhs) {
            Some(q) => q,
            None => unreached(),
        }
    }

    fn negated(self) -> i32 {
        -self
    }

    fn equals(self, rhs: i32) -> bool {
        self == rhs
    }

    fn default_value() -> i32 {
        0
    }

    fn parse_text(s: &str) -> (r: Option<i32>) {
        match parse_decimal_i64(s) {
            Some(v) => {
                proof {
                    lemma_digits_value_nonneg(s@);
                }
                if v <= i32::MAX as i64 {
                    Some(v as i32)
                } else {
                    None
                }
            },
            None => None,
        }
    }
}

impl Numeric for isize {
    open spec fn add_ok(self, rhs: isize) -> bool {
        isize::MIN <= self + rhs <= isize::MAX
    }

    open spec fn add_spec(self, rhs: isize) -> isize {
        (self + rhs) as isize
    }

    open spec fn sub_ok(self, rhs: isize) -> bool {
        isize::MIN <= self - rhs <= isize::MAX
    }

    open spec fn sub_spec(self, rhs: isize) -> isize {
        (self - rhs) as isize
    }

    open spec fn mul_ok(self, rhs: isize) -> bool {
        isize::MIN <= self * rhs <= isize::MAX
    }

    open spec fn mul_spec(self, rhs: isize) -> isize {
        (self * rhs) as isize
    }

    open spec fn div_ok(self, rhs: isize) -> bool {
        rhs != 0 && !(self == isize::MIN && rhs == -1)
    }

    open spec fn div_spec(self, rhs: isize) -> isize {
        div_trunc(self as int, rhs as int) as isize
    }

    open spec fn neg_ok(self) -> bool {
        self != isize::MIN
    }

    open spec fn neg_spec(self) -> isize {
        (-(self as int)) as isize
    }

    open spec fn eq_spec(self, rhs: isize) -> bool {
        self == rhs
    }

    open spec fn default_spec() -> isize {
        0
    }

    open spec fn parse_spec(s: Seq<char>) -> Option<isize> {
        parse_isize_spec(s)
    }

    fn plus(self, rhs: isize) -> isize {
        self + rhs
    }

    fn minus(self, rhs: isize) -> isize {
        self - rhs
    }

    fn times(self, rhs: isize) -> isize {
        self * rhs
    }

    fn divided_by(self, rhs: isize) -> (r: isize) {
        proof {
            lemma_div_trunc_in_range(self as int, rhs as int, isize::MIN as int, isize::MAX as int);
        }
        match self.checked_div(rhs) {
            Some(q) => q,
            None => unreached(),
        }
    }

    fn negated(self) -> isize {
        -self
    }

    fn equals(self, rhs: isize) -> bool {
        self == rhs
    }

    fn default_value() -> isize {
        0
    }

    fn parse_text(s: &str) -> (r: Option<isize>) {
        match parse_decimal_i64(s) {
            Some(v) => {
                proof {
                    lemma_digits_value_nonneg(s@);
                }
                if v <= isize::MAX as i64 {
                    Some(v as isize)
                } else {
                    None
                }
            },
            None => None,
        }
    }
}

/// Truncating division never leaves the range of a two's-complement type,
/// except at `MIN / -1`, which `div_ok` rules out.
proof fn lemma_div_trunc_in_range(a: int, b: int, min: int, max: int)
    requires
        min < 0 < max,
        min + max == -1,
        min <= a <= max,
        min <= b <= max,
        b != 0,
        !(a == min && b == -1),
    ensures
        min <= div_trunc(a, b) <= max,
{
    let m = abs_int(a) / abs_int(b);
    vstd::arithmetic::div_mod::lemma_div_pos_is_pos(abs_int(a), abs_int(b));
    vstd::arithmetic::div_mod::lemma_div_nonincreasing(abs_int(a), abs_int(b));
    assert(0 <= m <= abs_int(a));
    if a == min && b != 1 {
        assert(abs_int(b) >= 2);
        vstd::arithmetic::div_mod::lemma_div_is_ordered_by_denominator(abs_int(a), 2, abs_int(b));
        assert(m <= abs_int(a) / 2);
        vstd::arithmetic::div_mod::lemma_div_is_strictly_smaller(abs_int(a), 2);
    }
}

} // verus!
