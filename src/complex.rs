//! The integer-degree complex scalar: a whole-number magnitude and an angle
//! in whole degrees.

use vstd::prelude::*;
use crate::text::{push_wide_decimal, signed_decimal};

verus! {

/// A complex number in polar form with integer magnitude and an angle in
/// whole degrees. A negative magnitude is allowed: it is how negation is
/// written.
#[derive(Clone, Copy, Debug, PartialEq, Eq, Structural)]
pub struct IComplex {
    pub len: i64,
    pub angle_deg: i64,
}

/// The text of an integer scalar: its real cartesian part, followed by
/// `+j` and the lateral part when that part is not zero.
pub open spec fn icomplex_text(c: IComplex) -> Seq<char> {
    if cart_lat(c) != 0 {
        signed_decimal(cart_re(c)) + "+j"@ + signed_decimal(cart_lat(c))
    } else {
        signed_decimal(cart_re(c))
    }
}

/// The quotient of `a` by `b` rounded toward zero, as Rust's `/` gives it.
pub open spec fn trunc_div(a: int, b: int) -> int {
    let q = abs(a) / abs(b);
    if (a >= 0) == (b >= 0) {
        q
    } else {
        -q
    }
}

pub open spec fn abs(a: int) -> int {
    if a < 0 {
        -a
    } else {
        a
    }
}

impl IComplex {
    pub fn new_polar(len: i64, angle_deg: i64) -> (r: Self)
        ensures
            r.len == len,
            r.angle_deg == angle_deg,
    {
        IComplex { len, angle_deg }
    }

    pub fn to_string(&self) -> (r: String)
        ensures
            r@ == icomplex_text(*self),
    {
        let d = norm_deg(self.angle_deg);
        let re = scale_part(self.len, sin_at((d + 90) % 360));
        let lat = scale_part(self.len, sin_at(d));
        let mut out = String::new();
        push_wide_decimal(&mut out, re);
        if lat != 0 {
            out.append("+j");
            push_wide_decimal(&mut out, lat);
        }
        out
    }

    /// The same number with its magnitude negated (wrapping at the bounds of
    /// `i64`, as release builds of Rust do).
    pub fn negated(self) -> (r: Self)
        ensures
            r.len == 0i64.wrapping_sub(self.len),
            r.angle_deg == self.angle_deg,
    {
        IComplex::new_polar(0i64.wrapping_sub(self.len), self.angle_deg)
    }

    /// The product in polar form: magnitudes multiply and angles add
    /// (wrapping at the bounds of `i64`).
    pub fn mul(self, other: Self) -> (r: Self)
        ensures
            r.len == self.len.wrapping_mul(other.len),
            r.angle_deg == self.angle_deg.wrapping_add(other.angle_deg),
    {
        IComplex::new_polar(self.len.wrapping_mul(other.len), self.angle_deg.wrapping_add(other.angle_deg))
    }

    /// The quotient in polar form: magnitudes divide, rounding toward zero,
    /// and angles subtract (wrapping at the bounds of `i64`).
    pub fn div(self, other: Self) -> (r: Self)
        requires
            other.len != 0,
            !(self.len == i64::MIN && other.len == -1),
        ensures
            r.len == trunc_div(self.len as int, other.len as int),
            r.angle_deg == self.angle_deg.wrapping_sub(other.angle_deg),
    {
        let a = self.len as i128;
        let b = other.len as i128;
        let ua: i128 = if a < 0 {
            -a
        } else {
            a
        };
        let ub: i128 = if b < 0 {
            -b
        } else {
            b
        };
        let q = ua / ub;
        proof {
            assert(q <= ua) by (nonlinear_arith)
                requires
                    ub >= 1,
                    ua >= 0,
                    q == ua / ub,
            ;
            if ua == 0x8000_0000_0000_0000 && q == ua {
                assert(ub == 1) by (nonlinear_arith)
                    requires
                        ub >= 1,
                        ua > 0,
                        q == ua / ub,
                        q == ua,
                ;
            }
        }
        let len = if (a >= 0) == (b >= 0) {
            q as i64
        } else {
            (-q) as i64
        };
        IComplex::new_polar(len, self.angle_deg.wrapping_sub(other.angle_deg))
    }
}

/// The scale of the sine table: sines are stored in billionths.
pub const TRIG_SCALE: i64 = 1000000000;

/// The sine of each whole degree from 0 to 90, in billionths, rounded to
/// the nearest.
pub open spec fn sine_table() -> Seq<i64> {
    seq![
        0, 17452406, 34899497, 52335956, 69756474, 87155743,
        104528463, 121869343, 139173101, 156434465, 173648178, 190808995,
        207911691, 224951054, 241921896, 258819045, 275637356, 292371705,
        309016994, 325568154, 342020143, 358367950, 374606593, 390731128,
        406736643, 422618262, 438371147, 453990500, 469471563, 484809620,
        500000000, 515038075, 529919264, 544639035, 559192903, 573576436,
        587785252, 601815023, 615661475, 629320391, 642787610, 656059029,
        669130606, 681998360, 694658370, 707106781, 719339800, 731353702,
        743144825, 754709580, 766044443, 777145961, 788010754, 798635510,
        809016994, 819152044, 829037573, 838670568, 848048096, 857167301,
        866025404, 874619707, 882947593, 891006524, 898794046, 906307787,
        913545458, 920504853, 927183855, 933580426, 939692621, 945518576,
        951056516, 956304756, 961261696, 965925826, 970295726, 974370065,
        978147601, 981627183, 984807753, 987688341, 990268069, 992546152,
        994521895, 996194698, 997564050, 998629535, 999390827, 999847695,
        1000000000
    ]
}

/// For each whole degree `d` from 1 to 89 (at index `d - 1`), the least
/// integer not below the tangent of `d` degrees.
pub open spec fn tan_ceil_table() -> Seq<i64> {
    seq![
        1, 1, 1, 1, 1, 1,
        1, 1, 1, 1, 1, 1,
        1, 1, 1, 1, 1, 1,
        1, 1, 1, 1, 1, 1,
        1, 1, 1, 1, 1, 1,
        1, 1, 1, 1, 1, 1,
        1, 1, 1, 1, 1, 1,
        1, 1, 1, 2, 2, 2,
        2, 2, 2, 2, 2, 2,
        2, 2, 2, 2, 2, 2,
        2, 2, 2, 3, 3, 3,
        3, 3, 3, 3, 3, 4,
        4, 4, 4, 5, 5, 5,
        6, 6, 7, 8, 9, 10,
        12, 15, 20, 29, 58
    ]
}

/// The sine of `d` whole degrees, `0 <= d < 360`, in billionths.
pub open spec fn sin_scaled(d: int) -> int {
    if d <= 90 {
        sine_table()[d] as int
    } else if d <= 180 {
        sine_table()[180 - d] as int
    } else if d <= 270 {
        -(sine_table()[d - 180] as int)
    } else {
        -(sine_table()[360 - d] as int)
    }
}

/// The cosine of `d` whole degrees, `0 <= d < 360`, in billionths.
pub open spec fn cos_scaled(d: int) -> int {
    sin_scaled((d + 90) % 360)
}

/// `len` times a scaled trigonometric value, truncated toward zero.
pub open spec fn scaled_part(len: int, t: int) -> int {
    trunc_div(len * t, TRIG_SCALE as int)
}

/// How many whole degrees from 1 to `k` have a tangent of at most `m`.
pub open spec fn atan_count(m: int, k: nat) -> int
    decreases k,
{
    if k == 0 {
        0
    } else {
        atan_count(m, (k - 1) as nat) + if tan_ceil_table()[k - 1] <= m {
            1int
        } else {
            0int
        }
    }
}

/// The arctangent of the integer `q` in whole degrees, truncated toward zero.
pub open spec fn atan_deg(q: int) -> int {
    if q >= 0 {
        atan_count(q, 89)
    } else {
        -atan_count(-q, 89)
    }
}

/// The angle of the cartesian point (`real`, `lateral`): a half turn on the
/// lateral axis; else the arctangent of the truncated ratio, plus a half turn
/// when `real` is negative.
pub open spec fn cardinal_angle(real_part: int, lateral: int) -> int {
    if real_part == 0 {
        180
    } else if real_part > 0 {
        atan_deg(trunc_div(lateral, real_part))
    } else {
        atan_deg(trunc_div(lateral, real_part)) + 180
    }
}

/// The integer square root: the largest `r` with `r * r <= n`.
pub open spec fn is_isqrt(r: int, n: int) -> bool {
    0 <= r && r * r <= n < (r + 1) * (r + 1)
}

/// The bound on a cartesian part that `new_cardinal` accepts.
pub const CARDINAL_BOUND: i64 = 0x4000_0000_0000_0000;

fn sine_at(d: usize) -> (r: i64)
    requires
        d <= 90,
    ensures
        r == sine_table()[d as int],
        0 <= r <= TRIG_SCALE,
{
    let t: [i64; 91] = [
        0, 17452406, 34899497, 52335956, 69756474, 87155743,
        104528463, 121869343, 139173101, 156434465, 173648178, 190808995,
        207911691, 224951054, 241921896, 258819045, 275637356, 292371705,
        309016994, 325568154, 342020143, 358367950, 374606593, 390731128,
        406736643, 422618262, 438371147, 453990500, 469471563, 484809620,
        500000000, 515038075, 529919264, 544639035, 559192903, 573576436,
        587785252, 601815023, 615661475, 629320391, 642787610, 656059029,
        669130606, 681998360, 694658370, 707106781, 719339800, 731353702,
        743144825, 754709580, 766044443, 777145961, 788010754, 798635510,
        809016994, 819152044, 829037573, 838670568, 848048096, 857167301,
        866025404, 874619707, 882947593, 891006524, 898794046, 906307787,
        913545458, 920504853, 927183855, 933580426, 939692621, 945518576,
        951056516, 956304756, 961261696, 965925826, 970295726, 974370065,
        978147601, 981627183, 984807753, 987688341, 990268069, 992546152,
        994521895, 996194698, 997564050, 998629535, 999390827, 999847695,
        1000000000
    ];
    assert(t@ =~= sine_table());
    t[d]
}

fn atan_of(q: i64) -> (r: i64)
    requires
        q > i64::MIN,
    ensures
        r == atan_deg(q as int),
        -89 <= r <= 89,
{
    let t: [i64; 89] = [
        1, 1, 1, 1, 1, 1,
        1, 1, 1, 1, 1, 1,
        1, 1, 1, 1, 1, 1,
        1, 1, 1, 1, 1, 1,
        1, 1, 1, 1, 1, 1,
        1, 1, 1, 1, 1, 1,
        1, 1, 1, 1, 1, 1,
        1, 1, 1, 2, 2, 2,
        2, 2, 2, 2, 2, 2,
        2, 2, 2, 2, 2, 2,
        2, 2, 2, 3, 3, 3,
        3, 3, 3, 3, 3, 4,
        4, 4, 4, 5, 5, 5,
        6, 6, 7, 8, 9, 10,
        12, 15, 20, 29, 58
    ];
    assert(t@ =~= tan_ceil_table());
    let m: i64 = if q < 0 {
        -q
    } else {
        q
    };
    let mut count: i64 = 0;
    let mut k: usize = 0;
    while k < 89
        invariant
            k <= 89,
            count == atan_count(m as int, k as nat),
            0 <= count <= k,
            t@ == tan_ceil_table(),
        decreases 89 - k,
    {
        if t[k] <= m {
            count += 1;
        }
        k += 1;
    }
    if q < 0 {
        -count
    } else {
        count
    }
}

/// `a` reduced to `0 .. 360`.
fn norm_deg(a: i64) -> (r: i64)
    ensures
        r == (a as int) % 360,
        0 <= r < 360,
{
    if a >= 0 {
        ((a as u64) % 360) as i64
    } else {
        let m = (((0i128 - a as i128) as u128) % 360) as i64;
        assert((a as int) % 360 == (if m == 0 {
            0int
        } else {
            360 - m as int
        })) by (nonlinear_arith)
            requires
                a < 0,
                m as int == (-(a as int)) % 360,
        ;
        if m == 0 {
            0
        } else {
            360 - m
        }
    }
}

fn sin_at(d: i64) -> (r: i64)
    requires
        0 <= d < 360,
    ensures
        r == sin_scaled(d as int),
        -TRIG_SCALE <= r <= TRIG_SCALE,
{
    if d <= 90 {
        sine_at(d as usize)
    } else if d <= 180 {
        sine_at((180 - d) as usize)
    } else if d <= 270 {
        -sine_at((d - 180) as usize)
    } else {
        -sine_at((360 - d) as usize)
    }
}

/// `len * t / TRIG_SCALE`, truncated toward zero.
fn scale_part(len: i64, t: i64) -> (r: i128)
    requires
        -TRIG_SCALE <= t <= TRIG_SCALE,
    ensures
        r == scaled_part(len as int, t as int),
        abs(r as int) <= abs(len as int),
{
    assert(-0x1_0000_0000_0000_0000_0000_0000 < (len as int) * (t as int) < 0x1_0000_0000_0000_0000_0000_0000)
        by (nonlinear_arith)
        requires
            -0x8000_0000_0000_0000 <= len < 0x8000_0000_0000_0000,
            -1000000000 <= t <= 1000000000,
    ;
    let p = (len as i128) * (t as i128);
    let s = TRIG_SCALE as i128;
    let up: i128 = if p < 0 {
        -p
    } else {
        p
    };
    let q = up / s;
    proof {
        assert(abs(p as int) == abs(len as int) * abs(t as int)) by (nonlinear_arith)
            requires
                p == len * t,
        ;
        assert(abs(len as int) * abs(t as int) <= abs(len as int) * s) by (nonlinear_arith)
            requires
                abs(t as int) <= s,
                abs(len as int) >= 0,
        ;
        assert(q <= abs(len as int)) by (nonlinear_arith)
            requires
                q == up / s,
                s > 0,
                0 <= up <= abs(len as int) * s,
        ;
    }
    if p < 0 {
        -q
    } else {
        q
    }
}

/// The integer square root of `n`.
fn isqrt(n: u128) -> (r: u128)
    requires
        n < 0x4000_0000_0000_0000_0000_0000_0000_0000,
    ensures
        is_isqrt(r as int, n as int),
{
    let mut lo: u128 = 0;
    let mut hi: u128 = 0x8000_0000_0000_0000;
    assert(hi * hi > n) by (nonlinear_arith)
        requires
            hi == 0x8000_0000_0000_0000u128,
            n < 0x4000_0000_0000_0000_0000_0000_0000_0000u128,
    ;
    while hi - lo > 1
        invariant
            lo < hi <= 0x8000_0000_0000_0000,
            lo * lo <= n,
            n < hi * hi,
        decreases hi - lo,
    {
        let mid = lo + (hi - lo) / 2;
        assert(mid * mid <= 0x4000_0000_0000_0000_0000_0000_0000_0000) by (nonlinear_arith)
            requires
                mid <= 0x8000_0000_0000_0000u128,
        ;
        if mid * mid <= n {
            lo = mid;
        } else {
            hi = mid;
        }
    }
    assert(hi == lo + 1);
    lo
}

impl IComplex {
    /// The cartesian parts: the magnitude times the cosine and the sine of
    /// the angle, each truncated toward zero.
    pub fn to_cardinal(&self) -> (r: (i64, i64))
        requires
            self.len > i64::MIN,
        ensures
            r.0 == scaled_part(self.len as int, cos_scaled((self.angle_deg as int) % 360)),
            r.1 == scaled_part(self.len as int, sin_scaled((self.angle_deg as int) % 360)),
            abs(r.0 as int) <= abs(self.len as int),
            abs(r.1 as int) <= abs(self.len as int),
    {
        let d = norm_deg(self.angle_deg);
        let c = sin_at((d + 90) % 360);
        let s = sin_at(d);
        (scale_part(self.len, c) as i64, scale_part(self.len, s) as i64)
    }

    /// The scalar at the cartesian point (`real`, `lateral`): the integer
    /// square root of the squared distance, and the angle that
    /// `cardinal_angle` gives.
    pub fn new_cardinal(real_part: i64, lateral: i64) -> (r: Self)
        requires
            -CARDINAL_BOUND <= real_part <= CARDINAL_BOUND,
            -CARDINAL_BOUND <= lateral <= CARDINAL_BOUND,
        ensures
            is_isqrt(r.len as int, real_part * real_part + lateral * lateral),
            r.angle_deg == cardinal_angle(real_part as int, lateral as int),
    {
        let ar = (if real_part < 0 {
            -(real_part as i128)
        } else {
            real_part as i128
        }) as u128;
        let al = (if lateral < 0 {
            -(lateral as i128)
        } else {
            lateral as i128
        }) as u128;
        assert(ar * ar + al * al < 0x4000_0000_0000_0000_0000_0000_0000_0000) by (nonlinear_arith)
            requires
                ar <= 0x4000_0000_0000_0000u128,
                al <= 0x4000_0000_0000_0000u128,
        ;
        assert(ar * ar + al * al == real_part * real_part + lateral * lateral) by (nonlinear_arith)
            requires
                ar == abs(real_part as int),
                al == abs(lateral as int),
        ;
        let n = ar * ar + al * al;
        let len = isqrt(n);
        assert(len < 0x8000_0000_0000_0000) by (nonlinear_arith)
            requires
                len * len <= n,
                n < 0x4000_0000_0000_0000_0000_0000_0000_0000u128,
        ;
        let angle_deg = if real_part == 0 {
            180
        } else {
            let ql = (al / ar) as i64;
            let q = if (lateral >= 0) == (real_part >= 0) {
                ql
            } else {
                -ql
            };
            let a = atan_of(q);
            if real_part > 0 {
                a
            } else {
                a + 180
            }
        };
        IComplex::new_polar(len as i64, angle_deg)
    }

    /// The sum: both operands to cartesian parts, the parts added, and the
    /// result back to polar form.
    pub fn add(self, other: Self) -> (r: Self)
        requires
            -SUM_BOUND <= self.len <= SUM_BOUND,
            -SUM_BOUND <= other.len <= SUM_BOUND,
        ensures
            added(self, other, r),
    {
        let (r1, l1) = self.to_cardinal();
        let (r2, l2) = other.to_cardinal();
        IComplex::new_cardinal(r1 + r2, l1 + l2)
    }

    /// The difference: both operands to cartesian parts, the parts
    /// subtracted, and the result back to polar form.
    pub fn sub(self, other: Self) -> (r: Self)
        requires
            -SUM_BOUND <= self.len <= SUM_BOUND,
            -SUM_BOUND <= other.len <= SUM_BOUND,
        ensures
            subtracted(self, other, r),
    {
        let (r1, l1) = self.to_cardinal();
        let (r2, l2) = other.to_cardinal();
        IComplex::new_cardinal(r1 - r2, l1 - l2)
    }
}

/// The bound on magnitudes that `add` and `sub` accept, so that the
/// cartesian parts of the result stay within `CARDINAL_BOUND`.
pub const SUM_BOUND: i64 = 0x2000_0000_0000_0000;

/// `z` is the sum of `x` and `y` through their cartesian parts.
pub open spec fn added(x: IComplex, y: IComplex, z: IComplex) -> bool {
    &&& is_isqrt(z.len as int, sq(cart_re(x) + cart_re(y)) + sq(cart_lat(x) + cart_lat(y)))
    &&& z.angle_deg == cardinal_angle(cart_re(x) + cart_re(y), cart_lat(x) + cart_lat(y))
}

/// `z` is the difference of `x` and `y` through their cartesian parts.
pub open spec fn subtracted(x: IComplex, y: IComplex, z: IComplex) -> bool {
    &&& is_isqrt(z.len as int, sq(cart_re(x) - cart_re(y)) + sq(cart_lat(x) - cart_lat(y)))
    &&& z.angle_deg == cardinal_angle(cart_re(x) - cart_re(y), cart_lat(x) - cart_lat(y))
}

pub open spec fn sq(x: int) -> int {
    x * x
}

/// The real cartesian part of `c`, as `to_cardinal` gives it.
pub open spec fn cart_re(c: IComplex) -> int {
    scaled_part(c.len as int, cos_scaled((c.angle_deg as int) % 360))
}

/// The lateral cartesian part of `c`, as `to_cardinal` gives it.
pub open spec fn cart_lat(c: IComplex) -> int {
    scaled_part(c.len as int, sin_scaled((c.angle_deg as int) % 360))
}

/// A relational operator of the language: `=`, `=/=`, `>`, `<`, `>=`, `<=`.
#[derive(Clone, Copy, Debug, PartialEq, Eq, Structural)]
pub enum Relation {
    Equal,
    NotEqual,
    Greater,
    Less,
    AtLeast,
    AtMost,
}

/// Integer scalars are ordered by magnitude, then by angle.
pub open spec fn precedes(a: IComplex, b: IComplex) -> bool {
    a.len < b.len || (a.len == b.len && a.angle_deg < b.angle_deg)
}

pub open spec fn holds(rel: Relation, a: IComplex, b: IComplex) -> bool {
    match rel {
        Relation::Equal => a == b,
        Relation::NotEqual => a != b,
        Relation::Greater => precedes(b, a),
        Relation::Less => precedes(a, b),
        Relation::AtLeast => !precedes(a, b),
        Relation::AtMost => !precedes(b, a),
    }
}

/// The scalar a comparison yields: -1 for true, 0 for false.
pub open spec fn truth(t: bool) -> IComplex {
    if t {
        IComplex { len: -1i64, angle_deg: 0i64 }
    } else {
        IComplex { len: 0i64, angle_deg: 0i64 }
    }
}

impl IComplex {
    /// The comparison `self rel other` as a scalar: -1 when it holds, 0 when
    /// it does not.
    pub fn compare(self, other: Self, rel: Relation) -> (r: Self)
        ensures
            r == truth(holds(rel, self, other)),
    {
        let before = self.len < other.len || (self.len == other.len && self.angle_deg < other.angle_deg);
        let after = other.len < self.len || (other.len == self.len && other.angle_deg < self.angle_deg);
        let same = self.len == other.len && self.angle_deg == other.angle_deg;
        let t = match rel {
            Relation::Equal => same,
            Relation::NotEqual => !same,
            Relation::Greater => after,
            Relation::Less => before,
            Relation::AtLeast => !before,
            Relation::AtMost => !after,
        };
        if t {
            IComplex::new_polar(-1, 0)
        } else {
            IComplex::new_polar(0, 0)
        }
    }
}

/// Comparison laws: a scalar equals itself, `a > b` and `b > a` never both
/// hold, and each comparison yields the true scalar (-1) or the false one (0).
pub proof fn lemma_compare_laws(a: IComplex, b: IComplex, rel: Relation)
    ensures
        truth(holds(Relation::Equal, a, a)) == (IComplex { len: -1i64, angle_deg: 0i64 }),
        !(holds(Relation::Greater, a, b) && holds(Relation::Greater, b, a)),
        truth(holds(rel, a, b)).len == -1 || truth(holds(rel, a, b)).len == 0,
        truth(holds(rel, a, b)).angle_deg == 0,
{
}

} // verus!
