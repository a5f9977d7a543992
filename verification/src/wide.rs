//! Whole numbers of any size, for exact arithmetic on figures that outgrow machine
//! integers.

use vstd::arithmetic::div_mod::lemma_fundamental_div_mod_converse;
use vstd::prelude::*;

verus! {

/// What one digit more to the left is worth: digits have 32 bits.
pub open spec fn weight(n: int) -> int
    decreases n,
{
    if n <= 0 {
        1
    } else {
        0x1_0000_0000 * weight(n - 1)
    }
}

/// The digit at a position, counted from the right; zero beyond the last.
pub open spec fn digit_at(digits: Seq<u32>, i: int) -> int {
    if 0 <= i < digits.len() {
        digits[i] as int
    } else {
        0
    }
}

/// What the last `n` digits stand for.
pub open spec fn worth(digits: Seq<u32>, n: int) -> int
    decreases n,
{
    if n <= 0 {
        0
    } else {
        worth(digits, n - 1) + digit_at(digits, n - 1) * weight(n - 1)
    }
}

proof fn lemma_weight(n: int)
    ensures
        weight(n) > 0,
        n >= 0 ==> weight(n + 1) == 0x1_0000_0000 * weight(n),
    decreases n,
{
    if n > 0 {
        lemma_weight(n - 1);
    }
}

proof fn lemma_worth_bounds(digits: Seq<u32>, n: int)
    requires
        n >= 0,
    ensures
        0 <= worth(digits, n) < weight(n),
    decreases n,
{
    if n > 0 {
        lemma_worth_bounds(digits, n - 1);
        lemma_weight(n - 1);
        let d = digit_at(digits, n - 1);
        let w = weight(n - 1);
        assert(0 <= d * w <= 0xffff_ffff * w) by (nonlinear_arith)
            requires
                0 <= d <= 0xffff_ffff,
                w > 0,
        ;
    }
}

proof fn lemma_worth_beyond(digits: Seq<u32>, n: int)
    requires
        n >= digits.len(),
    ensures
        worth(digits, n) == worth(digits, digits.len() as int),
    decreases n,
{
    if n > digits.len() {
        lemma_worth_beyond(digits, n - 1);
        assert(0 * weight(n - 1) == 0) by (nonlinear_arith);
    }
}

proof fn lemma_worth_prefix(digits: Seq<u32>, longer: Seq<u32>, n: int)
    requires
        n <= digits.len() <= longer.len(),
        forall|i: int| 0 <= i < digits.len() ==> digits[i] == #[trigger] longer[i],
    ensures
        worth(digits, n) == worth(longer, n),
    decreases n,
{
    if n > 0 {
        lemma_worth_prefix(digits, longer, n - 1);
        assert(digits[n - 1] == longer[n - 1]);
    }
}

proof fn lemma_worth_push(digits: Seq<u32>, digit: u32)
    ensures
        worth(digits.push(digit), digits.len() as int + 1) == worth(digits, digits.len() as int) + digit
            * weight(digits.len() as int),
{
    lemma_worth_prefix(digits, digits.push(digit), digits.len() as int);
}

/// A number that is not negative.
pub struct Natural {
    digits: Vec<u32>,
}

impl View for Natural {
    type V = int;

    closed spec fn view(&self) -> int {
        worth(self.digits@, self.digits@.len() as int)
    }
}

impl Natural {
    /// A number is never negative.
    pub proof fn lemma_not_negative(&self)
        ensures
            self@ >= 0,
    {
        lemma_worth_bounds(self.digits@, self.digits@.len() as int);
    }

    fn push(&mut self, digit: u32)
        ensures
            final(self).digits@ == old(self).digits@.push(digit),
            final(self)@ == old(self)@ + digit * weight(old(self).digits@.len() as int),
    {
        proof {
            lemma_worth_push(self.digits@, digit);
        }
        self.digits.push(digit);
    }

    /// A number that a machine integer holds.
    pub fn new(n: u64) -> (number: Self)
        ensures
            number@ == n,
    {
        let mut number = Natural { digits: Vec::new() };
        proof {
            lemma_weight(0);
        }
        let low: u32 = (n % 0x1_0000_0000) as u32;
        let high: u32 = (n / 0x1_0000_0000) as u32;
        number.push(low);
        number.push(high);
        proof {
            let w = weight(0);
            assert(low * w + high * (0x1_0000_0000 * w) == low + 0x1_0000_0000 * high)
                by (nonlinear_arith)
                requires
                    w == 1,
            ;
        }
        number
    }

    /// The same number again.
    pub fn copy(&self) -> (number: Self)
        ensures
            number@ == self@,
    {
        Natural { digits: self.digits.clone() }
    }

    fn digit(&self, i: usize) -> (digit: u64)
        ensures
            digit == digit_at(self.digits@, i as int),
            digit <= 0xffff_ffff,
    {
        if i < self.digits.len() {
            self.digits[i] as u64
        } else {
            0
        }
    }

    /// The product with a machine integer.
    pub fn times(&self, factor: u64) -> (product: Self)
        ensures
            product@ == self@ * factor,
    {
        let ghost digits = self.digits@;
        let mut product = Natural { digits: Vec::new() };
        let mut carry: u64 = 0;
        let mut i: usize = 0;
        assert(0 * factor == 0) by (nonlinear_arith);
        while i < self.digits.len()
            invariant
                digits == self.digits@,
                i <= digits.len(),
                product.digits@.len() == i,
                product@ + carry * weight(i as int) == worth(digits, i as int) * factor,
            decreases digits.len() - i,
        {
            let digit: u32 = self.digits[i];
            assert(0 <= digit * factor <= 0xffff_ffff * 0xffff_ffff_ffff_ffff) by (nonlinear_arith)
                requires
                    0 <= digit <= 0xffff_ffff,
                    0 <= factor <= 0xffff_ffff_ffff_ffff,
            ;
            let sum: u128 = digit as u128 * factor as u128 + carry as u128;
            let low: u32 = (sum % 0x1_0000_0000) as u32;
            let next: u64 = (sum / 0x1_0000_0000) as u64;
            let ghost before = product@;
            product.push(low);
            proof {
                lemma_weight(i as int);
                let w = weight(i as int);
                let part = worth(digits, i as int);
                assert(before + low * w + next * (0x1_0000_0000 * w) == (part + digit * w)
                    * factor) by (nonlinear_arith)
                    requires
                        before + carry * w == part * factor,
                        digit * factor + carry == low + 0x1_0000_0000 * next,
                ;
            }
            carry = next;
            i += 1;
        }
        let ghost short = product@;
        let low: u32 = (carry % 0x1_0000_0000) as u32;
        let high: u32 = (carry / 0x1_0000_0000) as u32;
        product.push(low);
        product.push(high);
        proof {
            lemma_weight(i as int);
            let w = weight(i as int);
            assert(low * w + high * (0x1_0000_0000 * w) == carry * w) by (nonlinear_arith)
                requires
                    carry == low + 0x1_0000_0000 * high,
            ;
        }
        product
    }

    /// The sum of two numbers.
    pub fn plus(&self, other: &Natural) -> (sum: Self)
        ensures
            sum@ == self@ + other@,
    {
        let n: usize = if self.digits.len() < other.digits.len() {
            other.digits.len()
        } else {
            self.digits.len()
        };
        let mut sum = Natural { digits: Vec::new() };
        let mut carry: u64 = 0;
        let mut i: usize = 0;
        while i < n
            invariant
                i <= n,
                carry <= 1,
                sum.digits@.len() == i,
                sum@ + carry * weight(i as int) == worth(self.digits@, i as int) + worth(
                    other.digits@,
                    i as int,
                ),
            decreases n - i,
        {
            let a: u64 = self.digit(i);
            let b: u64 = other.digit(i);
            let both: u64 = a + b + carry;
            let low: u32 = (both % 0x1_0000_0000) as u32;
            let next: u64 = both / 0x1_0000_0000;
            let ghost before = sum@;
            sum.push(low);
            proof {
                lemma_weight(i as int);
                let w = weight(i as int);
                assert(low * w + next * (0x1_0000_0000 * w) == carry * w + a * w + b * w)
                    by (nonlinear_arith)
                    requires
                        a + b + carry == low + 0x1_0000_0000 * next,
                ;
            }
            carry = next;
            i += 1;
        }
        proof {
            lemma_worth_beyond(self.digits@, n as int);
            lemma_worth_beyond(other.digits@, n as int);
        }
        sum.push(carry as u32);
        sum
    }

    /// Whether one number is less than another.
    pub fn less(&self, other: &Natural) -> (less: bool)
        ensures
            less == (self@ < other@),
    {
        let n: usize = if self.digits.len() < other.digits.len() {
            other.digits.len()
        } else {
            self.digits.len()
        };
        let mut less = false;
        let mut i: usize = 0;
        while i < n
            invariant
                i <= n,
                less == (worth(self.digits@, i as int) < worth(other.digits@, i as int)),
            decreases n - i,
        {
            let a: u64 = self.digit(i);
            let b: u64 = other.digit(i);
            proof {
                lemma_weight(i as int);
                lemma_worth_bounds(self.digits@, i as int);
                lemma_worth_bounds(other.digits@, i as int);
                let w = weight(i as int);
                if a < b {
                    assert(a * w + w <= b * w) by (nonlinear_arith)
                        requires
                            a + 1 <= b,
                            w > 0,
                    ;
                } else if b < a {
                    assert(b * w + w <= a * w) by (nonlinear_arith)
                        requires
                            b + 1 <= a,
                            w > 0,
                    ;
                }
            }
            if a < b {
                less = true;
            } else if b < a {
                less = false;
            }
            i += 1;
        }
        proof {
            lemma_worth_beyond(self.digits@, n as int);
            lemma_worth_beyond(other.digits@, n as int);
        }
        less
    }

    /// Whether the number is zero.
    pub fn is_zero(&self) -> (zero: bool)
        ensures
            zero == (self@ == 0),
    {
        proof {
            self.lemma_not_negative();
        }
        !Natural::new(0).less(self)
    }

    /// The difference to a number that is no larger.
    pub fn minus(&self, other: &Natural) -> (difference: Self)
        requires
            other@ <= self@,
        ensures
            difference@ == self@ - other@,
    {
        let n: usize = if self.digits.len() < other.digits.len() {
            other.digits.len()
        } else {
            self.digits.len()
        };
        let mut difference = Natural { digits: Vec::new() };
        let mut borrow: u64 = 0;
        let mut i: usize = 0;
        while i < n
            invariant
                i <= n,
                borrow <= 1,
                difference.digits@.len() == i,
                difference@ - borrow * weight(i as int) == worth(self.digits@, i as int) - worth(
                    other.digits@,
                    i as int,
                ),
            decreases n - i,
        {
            let a: u64 = self.digit(i);
            let b: u64 = other.digit(i);
            let lent: u64 = if a < b + borrow {
                1
            } else {
                0
            };
            let low: u32 = (a + lent * 0x1_0000_0000 - b - borrow) as u32;
            difference.push(low);
            proof {
                lemma_weight(i as int);
                let w = weight(i as int);
                assert(low * w - lent * (0x1_0000_0000 * w) == a * w - b * w - borrow * w)
                    by (nonlinear_arith)
                    requires
                        low == a + lent * 0x1_0000_0000 - b - borrow,
                ;
            }
            borrow = lent;
            i += 1;
        }
        proof {
            lemma_worth_beyond(self.digits@, n as int);
            lemma_worth_beyond(other.digits@, n as int);
            lemma_worth_bounds(difference.digits@, n as int);
            lemma_weight(n as int);
            if borrow == 1 {
                assert(borrow * weight(n as int) == weight(n as int)) by (nonlinear_arith)
                    requires
                        borrow == 1,
                ;
            }
            assert(0 * weight(n as int) == 0) by (nonlinear_arith);
        }
        difference
    }

    /// The whole quotient and the remainder; nothing where the quotient does not fit 64
    /// bits.
    pub fn divided_by(&self, divisor: &Natural) -> (result: Option<(u64, Natural)>)
        requires
            divisor@ > 0,
        ensures
            match result {
                Some((quotient, remainder)) => {
                    &&& quotient == self@ / divisor@
                    &&& remainder@ == self@ % divisor@
                },
                None => self@ >= 0x1_0000_0000_0000_0000 * divisor@,
            },
    {
        proof {
            self.lemma_not_negative();
        }
        let ghost d = divisor@;
        let most = divisor.times(0xffff_ffff_ffff_ffff).plus(divisor);
        assert(d * 0xffff_ffff_ffff_ffff + d == 0x1_0000_0000_0000_0000 * d) by (nonlinear_arith);
        if !self.less(&most) {
            return None;
        }
        let mut low: u64 = 0;
        let mut high: u64 = 0xffff_ffff_ffff_ffff;
        assert(d * 0 == 0) by (nonlinear_arith);
        assert(d * (0xffff_ffff_ffff_ffff + 1) == 0x1_0000_0000_0000_0000 * d) by (nonlinear_arith);
        while low < high
            invariant
                low <= high,
                d == divisor@,
                d * low <= self@ < d * (high + 1),
            decreases high - low,
        {
            let middle: u64 = high - (high - low) / 2;
            if self.less(&divisor.times(middle)) {
                high = middle - 1;
            } else {
                low = middle;
            }
        }
        let product = divisor.times(low);
        proof {
            assert(d * (low + 1) == d * low + d) by (nonlinear_arith);
            assert(self@ - d * low < d);
            assert(low * d == d * low) by (nonlinear_arith);
            lemma_fundamental_div_mod_converse(self@, d, low as int, self@ - d * low);
        }
        let remainder = self.minus(&product);
        Some((low, remainder))
    }
}

/// A number with a sign.
pub struct Integer {
    negative: bool,
    size: Natural,
}

impl View for Integer {
    type V = int;

    closed spec fn view(&self) -> int {
        if self.negative {
            -self.size@
        } else {
            self.size@
        }
    }
}

impl Integer {
    /// A number that a machine integer holds.
    pub fn new(n: i64) -> (number: Self)
        ensures
            number@ == n,
    {
        if n < 0 {
            Integer { negative: true, size: Natural::new((-(n as i128)) as u64) }
        } else {
            Integer { negative: false, size: Natural::new(n as u64) }
        }
    }

    /// The same number again.
    pub fn copy(&self) -> (number: Self)
        ensures
            number@ == self@,
    {
        Integer { negative: self.negative, size: self.size.copy() }
    }

    /// The number without its sign.
    pub fn size(&self) -> (size: &Natural)
        ensures
            size@ == if self@ < 0 {
                -self@
            } else {
                self@
            },
    {
        proof {
            self.size.lemma_not_negative();
        }
        &self.size
    }

    /// Whether the number is less than zero.
    pub fn is_negative(&self) -> (negative: bool)
        ensures
            negative == (self@ < 0),
    {
        proof {
            self.size.lemma_not_negative();
        }
        self.negative && !self.size.is_zero()
    }

    /// The product with a machine integer.
    pub fn times(&self, factor: i64) -> (product: Self)
        ensures
            product@ == self@ * factor,
    {
        let ghost s = self.size@;
        if factor < 0 {
            let size: u64 = (-(factor as i128)) as u64;
            proof {
                assert(-(s * size) == s * factor && s * size == (-s) * factor)
                    by (nonlinear_arith)
                    requires
                        size == -factor,
                ;
            }
            Integer { negative: !self.negative, size: self.size.times(size) }
        } else {
            assert(-(s * factor) == (-s) * factor) by (nonlinear_arith);
            Integer { negative: self.negative, size: self.size.times(factor as u64) }
        }
    }

    /// The sum of two numbers.
    pub fn plus(&self, other: &Integer) -> (sum: Self)
        ensures
            sum@ == self@ + other@,
    {
        if self.negative == other.negative {
            Integer { negative: self.negative, size: self.size.plus(&other.size) }
        } else if self.size.less(&other.size) {
            Integer { negative: other.negative, size: other.size.minus(&self.size) }
        } else {
            Integer { negative: self.negative, size: self.size.minus(&other.size) }
        }
    }
}

} // verus!
