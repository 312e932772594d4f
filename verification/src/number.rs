use vstd::prelude::*;
use vstd::string::StringExecFns;

verus! {

/// A tagged union over the fixed-width integer types that numeric
/// constraints are declared with and compared against.  Each variant keeps
/// the original concrete representation; comparisons widen both sides to a
/// common integer domain, so no precision is lost.
#[derive(Debug, Clone, Copy, PartialEq)]
pub enum Number {
    I8(i8),
    I16(i16),
    I32(i32),
    I64(i64),
    Isize(isize),
    U8(u8),
    U16(u16),
    U32(u32),
    U64(u64),
    Usize(usize),
}

impl Number {
    /// The mathematical integer a `Number` stands for, independent of the
    /// concrete variant that carries it.
    pub open spec fn as_int(self) -> int {
        match self {
            Number::I8(n) => n as int,
            Number::I16(n) => n as int,
            Number::I32(n) => n as int,
            Number::I64(n) => n as int,
            Number::Isize(n) => n as int,
            Number::U8(n) => n as int,
            Number::U16(n) => n as int,
            Number::U32(n) => n as int,
            Number::U64(n) => n as int,
            Number::Usize(n) => n as int,
        }
    }

    /// Widen to `i128`, in which every variant's value fits exactly.
    pub fn widen(self) -> (r: i128)
        ensures
            r as int == self.as_int(),
            -0x8000_0000_0000_0000 <= r < 0x1_0000_0000_0000_0000,
    {
        match self {
            Number::I8(n) => n as i128,
            Number::I16(n) => n as i128,
            Number::I32(n) => n as i128,
            Number::I64(n) => n as i128,
            Number::Isize(n) => n as i128,
            Number::U8(n) => n as i128,
            Number::U16(n) => n as i128,
            Number::U32(n) => n as i128,
            Number::U64(n) => n as i128,
            Number::Usize(n) => n as i128,
        }
    }

    /// Ordered comparison on the common integer domain: `self <= other`.
    pub fn le(self, other: Number) -> (r: bool)
        ensures
            r == (self.as_int() <= other.as_int()),
    {
        self.widen() <= other.widen()
    }

    /// Ordered comparison on the common integer domain: `self < other`.
    pub fn lt(self, other: Number) -> (r: bool)
        ensures
            r == (self.as_int() < other.as_int()),
    {
        self.widen() < other.widen()
    }

    /// Equality on the common integer domain.
    pub fn same_value(self, other: Number) -> (r: bool)
        ensures
            r == (self.as_int() == other.as_int()),
    {
        self.widen() == other.widen()
    }

    /// Whether `self` is an exact integer multiple of `divisor`.
    pub fn is_multiple_of(self, divisor: Number) -> (r: bool)
        requires
            divisor.as_int() != 0,
        ensures
            r == spec_is_multiple_of(self.as_int(), divisor.as_int()),
    {
        let a = self.widen();
        let b = divisor.widen();
        let ma: u128 = magnitude(a);
        let mb: u128 = magnitude(b);
        let r = ma % mb == 0;
        proof {
            lemma_magnitude_divisibility(a as int, b as int, ma as nat, mb as nat);
        }
        r
    }

    /// The decimal text of the value, as the carried integer writes itself.
    pub fn to_text(self) -> (s: String)
        ensures
            s@ == spec_decimal(self.as_int()),
    {
        let w = self.widen();
        if w < 0 {
            let mut s = "-".to_owned();
            let t = decimal_digits(magnitude(w));
            s.append(t.as_str());
            proof {
                reveal_strlit("-");
                assert(s@ =~= spec_decimal(w as int));
            }
            s
        } else {
            decimal_digits(w as u128)
        }
    }
}

/// `value` is an exact integer multiple of `divisor`.
pub open spec fn spec_is_multiple_of(value: int, divisor: int) -> bool {
    exists|k: int| value == #[trigger] (k * divisor)
}

/// The magnitude of an `i128`.
fn magnitude(a: i128) -> (r: u128)
    requires
        a != i128::MIN,
    ensures
        r as int == if a >= 0 { a as int } else { -(a as int) },
{
    if a >= 0 {
        a as u128
    } else {
        (-a) as u128
    }
}

proof fn lemma_magnitude_divisibility(a: int, b: int, ma: nat, mb: nat)
    requires
        ma == if a >= 0 { a } else { -a },
        mb == if b >= 0 { b } else { -b },
        b != 0,
    ensures
        (ma % mb == 0) == spec_is_multiple_of(a, b),
{
    if ma % mb == 0 {
        let k = ma as int / mb as int;
        vstd::arithmetic::div_mod::lemma_fundamental_div_mod(ma as int, mb as int);
        assert(ma as int == k * mb);
        if (a >= 0) == (b >= 0) {
            assert(a == k * b) by (nonlinear_arith)
                requires
                    ma as int == k * mb,
                    ma == if a >= 0 { a } else { -a },
                    mb == if b >= 0 { b } else { -b },
                    b != 0,
                    (a >= 0) == (b >= 0),
            ;
        } else {
            assert(a == (-k) * b) by (nonlinear_arith)
                requires
                    ma as int == k * mb,
                    ma == if a >= 0 { a } else { -a },
                    mb == if b >= 0 { b } else { -b },
                    b != 0,
                    (a >= 0) != (b >= 0),
            ;
        }
    }
    if spec_is_multiple_of(a, b) {
        let k = choose|k: int| a == #[trigger] (k * b);
        let km = if k >= 0 { k } else { -k };
        assert(ma == km * mb) by (nonlinear_arith)
            requires
                a == k * b,
                km == if k >= 0 { k } else { -k },
                ma == if a >= 0 { a } else { -a },
                mb == if b >= 0 { b } else { -b },
                b != 0,
        ;
        vstd::arithmetic::div_mod::lemma_mod_multiples_basic(km, mb as int);
    }
}

/// The decimal digit characters of a non-negative integer, most significant
/// first, with no leading zeros (a single `'0'` for zero).
pub closed spec fn spec_digits(n: nat) -> Seq<char>
    decreases n,
{
    if n < 10 {
        seq![digit_char(n)]
    } else {
        spec_digits(n / 10).push(digit_char(n % 10))
    }
}

/// The decimal text of an integer: a minus sign for negative values,
/// then the digits.
pub open spec fn spec_decimal(n: int) -> Seq<char> {
    if n < 0 {
        seq!['-'] + spec_digits((-n) as nat)
    } else {
        spec_digits(n as nat)
    }
}

/// The character for one decimal digit.
pub closed spec fn digit_char(d: nat) -> char {
    ((48 + d) as u8) as char
}

/// One decimal digit as text.
fn digit_str(d: u128) -> (s: &'static str)
    requires
        d < 10,
    ensures
        s@ =~= seq![digit_char(d as nat)],
{
    proof {
        reveal_strlit("0");
        reveal_strlit("1");
        reveal_strlit("2");
        reveal_strlit("3");
        reveal_strlit("4");
        reveal_strlit("5");
        reveal_strlit("6");
        reveal_strlit("7");
        reveal_strlit("8");
        reveal_strlit("9");
    }
    match d {
        0 => "0",
        1 => "1",
        2 => "2",
        3 => "3",
        4 => "4",
        5 => "5",
        6 => "6",
        7 => "7",
        8 => "8",
        _ => "9",
    }
}

/// The characters of a digit list read back to front.
spec fn backwards_chars(ds: Seq<u128>) -> Seq<char>
    decreases ds.len(),
{
    if ds.len() == 0 {
        Seq::empty()
    } else {
        seq![digit_char(ds.last() as nat)] + backwards_chars(ds.drop_last())
    }
}

proof fn lemma_backwards_chars_drop_first(ds: Seq<u128>)
    requires
        ds.len() > 0,
    ensures
        backwards_chars(ds) =~= backwards_chars(ds.drop_first()) + seq![
            digit_char(ds.first() as nat),
        ],
    decreases ds.len(),
{
    if ds.len() == 1 {
        assert(ds.drop_first() =~= Seq::<u128>::empty());
        assert(backwards_chars(ds.drop_first()) =~= Seq::<char>::empty());
        assert(ds.drop_last() =~= Seq::<u128>::empty());
        assert(backwards_chars(ds) =~= seq![digit_char(ds.last() as nat)]);
        assert(ds.first() == ds.last());
        assert(backwards_chars(ds) =~= backwards_chars(ds.drop_first()) + seq![
            digit_char(ds.first() as nat),
        ]);
    } else {
        let tail = ds.drop_first();
        lemma_backwards_chars_drop_first(ds.drop_last());
        assert(ds.drop_last().drop_first() =~= tail.drop_last());
        assert(ds.drop_last().first() == ds.first());
        assert(tail.last() == ds.last());
        assert(tail.len() > 0);
        let cl = seq![digit_char(ds.last() as nat)];
        let cf = seq![digit_char(ds.first() as nat)];
        let mid = backwards_chars(tail.drop_last());
        assert(backwards_chars(ds.drop_last()) =~= mid + cf);
        assert(backwards_chars(ds) =~= cl + (mid + cf));
        assert(backwards_chars(tail) =~= cl + mid);
        assert(cl + (mid + cf) =~= (cl + mid) + cf);
        assert(backwards_chars(ds) =~= backwards_chars(tail) + cf);
    }
}

/// Renders a non-negative integer in decimal.
pub fn decimal_digits(n: u128) -> (s: String)
    ensures
        s@ == spec_digits(n as nat),
{
    let mut rest: u128 = n;
    let mut low_digits: Vec<u128> = Vec::new();
    while rest >= 10
        invariant
            forall|j: int| 0 <= j < low_digits@.len() ==> low_digits@[j] < 10,
            spec_digits(n as nat) =~= spec_digits(rest as nat) + backwards_chars(low_digits@),
        decreases rest,
    {
        let d = rest % 10;
        let ghost old_digits = low_digits@;
        low_digits.push(d);
        proof {
            assert(low_digits@.drop_last() =~= old_digits);
            assert(backwards_chars(low_digits@) =~= seq![digit_char(d as nat)]
                + backwards_chars(old_digits));
        }
        rest = rest / 10;
    }
    let mut s = digit_str(rest).to_owned();
    let mut i: usize = low_digits.len();
    while i > 0
        invariant
            i <= low_digits@.len(),
            forall|j: int| 0 <= j < low_digits@.len() ==> low_digits@[j] < 10,
            rest < 10,
            s@ =~= seq![digit_char(rest as nat)] + backwards_chars(
                low_digits@.subrange(i as int, low_digits@.len() as int),
            ),
            spec_digits(n as nat) =~= spec_digits(rest as nat) + backwards_chars(low_digits@),
        decreases i,
    {
        i = i - 1;
        let d = low_digits[i];
        s.append(digit_str(d));
        proof {
            let tail = low_digits@.subrange(i as int, low_digits@.len() as int);
            lemma_backwards_chars_drop_first(tail);
            assert(tail.drop_first() =~= low_digits@.subrange(
                i as int + 1,
                low_digits@.len() as int,
            ));
        }
    }
    proof {
        assert(low_digits@.subrange(0, low_digits@.len() as int) =~= low_digits@);
        assert(s@ =~= spec_digits(n as nat));
    }
    s
}

// ---------------------------------------------------------------------------
// Construction from each concrete numeric type, tagging the variant
// ---------------------------------------------------------------------------

impl From<i8> for Number {
    fn from(item: i8) -> (r: Number) {
        Number::I8(item)
    }
}

impl vstd::std_specs::convert::FromSpecImpl<i8> for Number {
    open spec fn obeys_from_spec() -> bool {
        true
    }

    open spec fn from_spec(item: i8) -> Number {
        Number::I8(item)
    }
}

impl From<i16> for Number {
    fn from(item: i16) -> (r: Number) {
        Number::I16(item)
    }
}

impl vstd::std_specs::convert::FromSpecImpl<i16> for Number {
    open spec fn obeys_from_spec() -> bool {
        true
    }

    open spec fn from_spec(item: i16) -> Number {
        Number::I16(item)
    }
}

impl From<i32> for Number {
    fn from(item: i32) -> (r: Number) {
        Number::I32(item)
    }
}

impl vstd::std_specs::convert::FromSpecImpl<i32> for Number {
    open spec fn obeys_from_spec() -> bool {
        true
    }

    open spec fn from_spec(item: i32) -> Number {
        Number::I32(item)
    }
}

impl From<i64> for Number {
    fn from(item: i64) -> (r: Number) {
        Number::I64(item)
    }
}

impl vstd::std_specs::convert::FromSpecImpl<i64> for Number {
    open spec fn obeys_from_spec() -> bool {
        true
    }

    open spec fn from_spec(item: i64) -> Number {
        Number::I64(item)
    }
}

impl From<isize> for Number {
    fn from(item: isize) -> (r: Number) {
        Number::Isize(item)
    }
}

impl vstd::std_specs::convert::FromSpecImpl<isize> for Number {
    open spec fn obeys_from_spec() -> bool {
        true
    }

    open spec fn from_spec(item: isize) -> Number {
        Number::Isize(item)
    }
}

impl From<u8> for Number {
    fn from(item: u8) -> (r: Number) {
        Number::U8(item)
    }
}

impl vstd::std_specs::convert::FromSpecImpl<u8> for Number {
    open spec fn obeys_from_spec() -> bool {
        true
    }

    open spec fn from_spec(item: u8) -> Number {
        Number::U8(item)
    }
}

impl From<u16> for Number {
    fn from(item: u16) -> (r: Number) {
        Number::U16(item)
    }
}

impl vstd::std_specs::convert::FromSpecImpl<u16> for Number {
    open spec fn obeys_from_spec() -> bool {
        true
    }

    open spec fn from_spec(item: u16) -> Number {
        Number::U16(item)
    }
}

impl From<u32> for Number {
    fn from(item: u32) -> (r: Number) {
        Number::U32(item)
    }
}

impl vstd::std_specs::convert::FromSpecImpl<u32> for Number {
    open spec fn obeys_from_spec() -> bool {
        true
    }

    open spec fn from_spec(item: u32) -> Number {
        Number::U32(item)
    }
}

impl From<u64> for Number {
    fn from(item: u64) -> (r: Number) {
        Number::U64(item)
    }
}

impl vstd::std_specs::convert::FromSpecImpl<u64> for Number {
    open spec fn obeys_from_spec() -> bool {
        true
    }

    open spec fn from_spec(item: u64) -> Number {
        Number::U64(item)
    }
}

impl From<usize> for Number {
    fn from(item: usize) -> (r: Number) {
        Number::Usize(item)
    }
}

impl vstd::std_specs::convert::FromSpecImpl<usize> for Number {
    open spec fn obeys_from_spec() -> bool {
        true
    }

    open spec fn from_spec(item: usize) -> Number {
        Number::Usize(item)
    }
}

} // verus!
