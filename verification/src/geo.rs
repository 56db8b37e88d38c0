//! Coordinates, the rectangular work zone and the text form of a location.
//!
//! A coordinate is held as a whole number of units of 10^-18 degree, so that
//! every comparison the zone makes is exact.

use vstd::prelude::*;

verus! {

/// A position, latitude and longitude in units of 10^-18 degree.
#[derive(Clone, Copy, Debug, Default, PartialEq, Eq)]
pub struct Point {
    pub lat: i128,
    pub lng: i128,
}

/// A work zone bounded by two opposite corners: a point lies in it when its
/// latitude lies between the corners' latitudes and its longitude between
/// their longitudes, bounds included, whichever corner holds the larger value.
#[derive(Clone, Copy, Debug, Default, PartialEq, Eq)]
pub struct Square {
    pub top_left: Point,
    pub bottom_right: Point,
}

pub open spec fn min_i128(a: i128, b: i128) -> i128 {
    if a <= b {
        a
    } else {
        b
    }
}

pub open spec fn max_i128(a: i128, b: i128) -> i128 {
    if a <= b {
        b
    } else {
        a
    }
}

impl Square {
    /// The zone holds `p`.
    pub open spec fn holds(self, p: Point) -> bool {
        let (a, b) = (self.top_left, self.bottom_right);
        &&& min_i128(a.lat, b.lat) <= p.lat <= max_i128(a.lat, b.lat)
        &&& min_i128(a.lng, b.lng) <= p.lng <= max_i128(a.lng, b.lng)
    }

    /// Whether `point` lies in the zone.
    pub fn contains(&self, point: &Point) -> (r: bool)
        ensures
            r == self.holds(*point),
    {
        let (a, b) = (self.top_left, self.bottom_right);
        let (lat_lo, lat_hi) = if a.lat <= b.lat {
            (a.lat, b.lat)
        } else {
            (b.lat, a.lat)
        };
        let (lng_lo, lng_hi) = if a.lng <= b.lng {
            (a.lng, b.lng)
        } else {
            (b.lng, a.lng)
        };
        lat_lo <= point.lat && point.lat <= lat_hi && lng_lo <= point.lng && point.lng <= lng_hi
    }
}

/// An ASCII decimal digit.
pub open spec fn is_digit(b: u8) -> bool {
    48 <= b <= 57
}

pub open spec fn all_digits(s: Seq<u8>) -> bool {
    forall|i: int| 0 <= i < s.len() ==> is_digit(#[trigger] s[i])
}

/// The number that a run of decimal digits writes, most significant first.
pub open spec fn digits_value(s: Seq<u8>) -> nat
    decreases s.len(),
{
    if s.len() == 0 {
        0
    } else {
        digits_value(s.drop_last()) * 10 + (s.last() - 48) as nat
    }
}

pub open spec fn pow10(n: nat) -> nat
    decreases n,
{
    if n == 0 {
        1
    } else {
        10 * pow10((n - 1) as nat)
    }
}

/// The length of a leading sign, `-` or `+`.
pub open spec fn sign_len(s: Seq<u8>) -> int {
    if s.len() > 0 && (s[0] == 45u8 || s[0] == 43u8) {
        1
    } else {
        0
    }
}

pub open spec fn is_negative(s: Seq<u8>) -> bool {
    s.len() > 0 && s[0] == 45u8
}

/// The index of the first `b` at or after `i`, or the length when there is none.
pub open spec fn find_from(s: Seq<u8>, i: int, b: u8) -> int
    decreases s.len() - i,
{
    if i >= s.len() {
        s.len() as int
    } else if s[i] == b {
        i
    } else {
        find_from(s, i + 1, b)
    }
}

/// The index of the first exponent mark, `e` or `E`, at or after `i`, or the
/// length when there is none.
pub open spec fn mark_from(s: Seq<u8>, i: int) -> int
    decreases s.len() - i,
{
    if i >= s.len() {
        s.len() as int
    } else if s[i] == 101u8 || s[i] == 69u8 {
        i
    } else {
        mark_from(s, i + 1)
    }
}

/// A run of `n` zero digits.
pub open spec fn zeros(n: nat) -> Seq<u8> {
    Seq::new(n, |i: int| 48u8)
}

/// The whole number left of the decimal point when the point stands after the
/// first `k` of the digits `s`, zeros supplied past their end: nothing where `k`
/// is not positive.
pub open spec fn scaled_value(s: Seq<u8>, k: int) -> nat {
    if k <= 0 {
        0
    } else if k <= s.len() {
        digits_value(s.take(k))
    } else {
        digits_value(s + zeros((k - s.len()) as nat))
    }
}

/// A magnitude, where it fits in an `i128`.
pub open spec fn capped(v: nat) -> Option<u128> {
    if v <= i128::MAX {
        Some(v as u128)
    } else {
        None
    }
}

/// What a coordinate text stands for, in units of 10^-18 degree: an optional
/// sign; digits, optionally with a `.` among or around them, at least one digit
/// in all; then optionally an exponent, `e` or `E`, an optional sign and at
/// least one digit. Digits past the eighteenth place after the point are
/// dropped. `None` where the text has another form or the value does not fit in
/// an `i128`.
#[verifier::opaque]
pub open spec fn coordinate_of(text: Seq<u8>) -> Option<i128> {
    let body = text.skip(sign_len(text));
    let e = mark_from(body, 0);
    let mant = body.take(e);
    let d = find_from(mant, 0, 46u8);
    let frac = if d < mant.len() {
        mant.skip(d + 1)
    } else {
        Seq::<u8>::empty()
    };
    let has_exp = e < body.len();
    let exp_text = if has_exp {
        body.skip(e + 1)
    } else {
        Seq::<u8>::empty()
    };
    coordinate_from_parts(
        is_negative(text),
        mant.take(d),
        frac,
        has_exp,
        is_negative(exp_text),
        exp_text.skip(sign_len(exp_text)),
    )
}

/// What a coordinate written with the sign `neg`, the whole digits
/// `int_digits`, the fractional digits `frac` and, where `has_exp`, an exponent
/// of sign `exp_neg` and digits `exp_digits` stands for.
pub open spec fn coordinate_from_parts(
    neg: bool,
    int_digits: Seq<u8>,
    frac: Seq<u8>,
    has_exp: bool,
    exp_neg: bool,
    exp_digits: Seq<u8>,
) -> Option<i128> {
    let exp: int = if exp_neg {
        -digits_value(exp_digits)
    } else {
        digits_value(exp_digits) as int
    };
    let mag = scaled_value(int_digits + frac, int_digits.len() + exp + 18);
    if all_digits(int_digits) && all_digits(frac) && int_digits.len() + frac.len() >= 1 && (
    has_exp ==> exp_digits.len() >= 1 && all_digits(exp_digits)) && mag <= i128::MAX {
        Some(
            if neg {
                (-mag) as i128
            } else {
                mag as i128
            },
        )
    } else {
        None
    }
}

#[verifier::rlimit(60)]
/// How the runs that a scan of a coordinate text finds give what the text
/// stands for: the text reads as its parts where the last run reaches its end,
/// and as nothing where it does not.
proof fn lemma_coordinate_structure(
    s: Seq<u8>,
    start: int,
    int_end: int,
    has_dot: bool,
    frac_end: int,
    has_exp: bool,
    exp_start: int,
    end: int,
)
    requires
        start == sign_len(s),
        start <= int_end <= s.len(),
        all_digits(s.subrange(start, int_end)),
        int_end < s.len() ==> !is_digit(s[int_end]),
        has_dot == (int_end < s.len() && s[int_end] == 46u8),
        has_dot ==> int_end + 1 <= frac_end <= s.len() && all_digits(
            s.subrange(int_end + 1, frac_end),
        ) && (frac_end < s.len() ==> !is_digit(s[frac_end])),
        !has_dot ==> frac_end == int_end,
        has_exp == (frac_end < s.len() && (s[frac_end] == 101u8 || s[frac_end] == 69u8)),
        has_exp ==> exp_start == frac_end + 1 + sign_len(s.skip(frac_end + 1)),
        !has_exp ==> exp_start == frac_end && end == frac_end,
        has_exp ==> exp_start <= end <= s.len() && all_digits(s.subrange(exp_start, end)) && (end
            < s.len() ==> !is_digit(s[end])),
    ensures
        end < s.len() ==> coordinate_of(s) is None,
        end == s.len() ==> coordinate_of(s) == coordinate_from_parts(
            is_negative(s),
            s.subrange(start, int_end),
            s.subrange(
                if has_dot {
                    int_end + 1
                } else {
                    int_end
                },
                frac_end,
            ),
            has_exp,
            has_exp && frac_end + 1 < s.len() && s[frac_end + 1] == 45u8,
            s.subrange(exp_start, end),
        ),
{
    reveal(coordinate_of);
    let body = s.skip(start);
    let ie = int_end - start;
    let fe = frac_end - start;
    let frac_start = if has_dot {
        int_end + 1
    } else {
        int_end
    };
    assert forall|j: int| 0 <= j < ie implies is_digit(body[j]) by {
        assert(body[j] == s.subrange(start, int_end)[j]);
    }
    assert forall|j: int| ie < j < fe implies is_digit(body[j]) by {
        assert(body[j] == s.subrange(int_end + 1, frac_end)[j - ie - 1]);
    }
    assert forall|j: int| 0 <= j < fe implies body[j] != 101u8 && body[j] != 69u8 by {
        if j < ie {
        } else if j == ie {
            assert(body[j] == s[int_end]);
        } else {
        }
    }
    lemma_mark_from_skip(body, 0, fe);
    lemma_mark_from_bounds(body, fe);
    let e = mark_from(body, 0);
    let mant = body.take(e);
    assert(e >= fe);
    assert forall|j: int| 0 <= j < ie implies mant[j] != 46u8 by {
        assert(mant[j] == body[j]);
    }
    lemma_find_from_skip(mant, 0, ie, 46u8);
    lemma_find_from_bounds(mant, ie, 46u8);
    let d = find_from(mant, 0, 46u8);
    if has_dot {
        assert(mant[ie] == s[int_end]);
        assert(d == ie);
    }
    if end < s.len() {
        if has_exp {
            assert(e == fe);
            let exp_text = body.skip(e + 1);
            let ed = exp_text.skip(sign_len(exp_text));
            assert(exp_text =~= s.skip(frac_end + 1));
            assert(ed[end - exp_start] == s[end]);
        } else if has_dot {
            assert(e > fe);
            assert(mant.skip(d + 1)[fe - ie - 1] == s[frac_end]);
        } else {
            assert(e > ie);
            assert(mant[ie] == s[int_end]);
            assert(d > ie);
            assert(mant.take(d)[ie] == s[int_end]);
        }
    } else {
        if has_exp {
            assert(e == fe);
            let exp_text = body.skip(e + 1);
            assert(exp_text =~= s.skip(frac_end + 1));
            assert(exp_text.skip(sign_len(exp_text)) =~= s.subrange(exp_start, end));
        } else {
            assert(e == body.len());
            assert(mant =~= body);
            assert(s.subrange(exp_start, end) =~= Seq::<u8>::empty());
        }
        assert(mant.take(d) =~= s.subrange(start, int_end));
        if has_dot {
            assert(mant.skip(d + 1) =~= s.subrange(frac_start, frac_end));
        } else {
            assert(d == mant.len());
            assert(s.subrange(frac_start, frac_end) =~= Seq::<u8>::empty());
        }
    }
}

/// Skipping bytes other than `b` does not move the next `b`.
proof fn lemma_find_from_skip(s: Seq<u8>, i: int, k: int, b: u8)
    requires
        0 <= i <= k <= s.len(),
        forall|j: int| i <= j < k ==> s[j] != b,
    ensures
        find_from(s, i, b) == find_from(s, k, b),
    decreases k - i,
{
    if i < k {
        lemma_find_from_skip(s, i + 1, k, b);
    }
}

/// Appending a digit to a run multiplies its value by ten and adds the digit.
proof fn lemma_digits_push(s: Seq<u8>, b: u8)
    ensures
        digits_value(s.push(b)) == digits_value(s) * 10 + (b - 48) as nat,
{
    assert(s.push(b).drop_last() =~= s);
}

/// Skipping bytes other than exponent marks does not move the next mark.
proof fn lemma_mark_from_skip(s: Seq<u8>, i: int, k: int)
    requires
        0 <= i <= k <= s.len(),
        forall|j: int| i <= j < k ==> s[j] != 101u8 && s[j] != 69u8,
    ensures
        mark_from(s, i) == mark_from(s, k),
    decreases k - i,
{
    if i < k {
        lemma_mark_from_skip(s, i + 1, k);
    }
}

/// The next exponent mark lies between the start of the search and the end.
proof fn lemma_mark_from_bounds(s: Seq<u8>, i: int)
    requires
        0 <= i <= s.len(),
    ensures
        i <= mark_from(s, i) <= s.len(),
        mark_from(s, i) < s.len() ==> (s[mark_from(s, i)] == 101u8 || s[mark_from(s, i)]
            == 69u8),
        i < s.len() && s[i] != 101u8 && s[i] != 69u8 ==> mark_from(s, i) > i,
    decreases s.len() - i,
{
    if i < s.len() && s[i] != 101u8 && s[i] != 69u8 {
        lemma_mark_from_bounds(s, i + 1);
    }
}

/// More zeros after the digits never make their value smaller, and zeros after
/// digits worth nothing are worth nothing.
proof fn lemma_pad_monotone(s: Seq<u8>, a: nat, b: nat)
    requires
        a <= b,
    ensures
        digits_value(s + zeros(a)) <= digits_value(s + zeros(b)),
        digits_value(s + zeros(a)) == 0 ==> digits_value(s + zeros(b)) == 0,
    decreases b - a,
{
    if a < b {
        lemma_pad_monotone(s, a, (b - 1) as nat);
        assert(s + zeros(b) =~= (s + zeros((b - 1) as nat)).push(48u8));
        lemma_digits_push(s + zeros((b - 1) as nat), 48u8);
    }
}

/// Zeros after the digits multiply their value by a power of ten.
proof fn lemma_pad_value(s: Seq<u8>, m: nat)
    ensures
        digits_value(s + zeros(m)) == digits_value(s) * pow10(m),
    decreases m,
{
    let v = digits_value(s);
    if m == 0 {
        assert(s + zeros(0) =~= s);
        assert(pow10(0) == 1);
        assert(v * 1 == v) by (nonlinear_arith);
    } else {
        lemma_pad_value(s, (m - 1) as nat);
        assert(s + zeros(m) =~= (s + zeros((m - 1) as nat)).push(48u8));
        lemma_digits_push(s + zeros((m - 1) as nat), 48u8);
        let p = pow10((m - 1) as nat);
        assert(pow10(m) == 10 * p);
        assert(digits_value(s + zeros((m - 1) as nat)) == v * p);
        assert(digits_value(s + zeros(m)) == (v * p) * 10);
        assert((v * p) * 10 == v * (10 * p)) by (nonlinear_arith);
    }
}

/// Powers of ten from the thirty-ninth on exceed `i128::MAX`.
proof fn lemma_pow10_big(m: nat)
    requires
        m >= 39,
    ensures
        pow10(m) > i128::MAX,
    decreases m,
{
    if m == 39 {
        reveal_with_fuel(pow10, 40);
    } else {
        lemma_pow10_big((m - 1) as nat);
    }
}

/// With the point at least thirty-nine places past the last digit, the value
/// fits in an `i128` exactly when every digit is zero, and is then zero.
proof fn lemma_scale_far(s: Seq<u8>, k: int)
    requires
        k >= s.len() + 39,
    ensures
        (scaled_value(s, k) <= i128::MAX) == (digits_value(s) == 0),
        digits_value(s) == 0 ==> scaled_value(s, k) == 0,
{
    let m = (k - s.len()) as nat;
    lemma_pad_value(s, m);
    lemma_pow10_big(m);
    let v = digits_value(s);
    let p = pow10(m);
    if v >= 1 {
        assert(v * p >= p) by (nonlinear_arith)
            requires
                v >= 1,
        ;
    }
}

/// `i128::MAX`, the bound on the magnitude of a coordinate.
pub const MAGNITUDE_CAP: u128 = 170141183460469231731687303715884105727;

/// Appends the decimal digit `b` to the value `val`, or `None` where the
/// result exceeds `MAGNITUDE_CAP`.
fn push_digit(val: u128, b: u8) -> (r: Option<u128>)
    requires
        is_digit(b),
        val <= MAGNITUDE_CAP,
    ensures
        r == capped((val * 10 + (b - 48)) as nat),
{
    match val.checked_mul(10) {
        None => None,
        Some(t) => match t.checked_add((b - 48u8) as u128) {
            None => None,
            Some(u) => if u > MAGNITUDE_CAP {
                None
            } else {
                Some(u)
            },
        },
    }
}

/// The end of the run of digits that starts at `start`.
fn digit_run(text: &[u8], start: usize) -> (end: usize)
    requires
        start <= text@.len(),
    ensures
        start <= end <= text@.len(),
        all_digits(text@.subrange(start as int, end as int)),
        end < text@.len() ==> !is_digit(text@[end as int]),
{
    let n = text.len();
    let mut i = start;
    while i < n && 48u8 <= text[i] && text[i] <= 57u8
        invariant
            n == text@.len(),
            start <= i <= n,
            all_digits(text@.subrange(start as int, i as int)),
        decreases n - i,
    {
        assert(all_digits(text@.subrange(start as int, i + 1))) by {
            assert forall|j: int| 0 <= j < i + 1 - start implies is_digit(
                #[trigger] text@.subrange(start as int, i + 1)[j],
            ) by {
                if j < i - start {
                    assert(text@.subrange(start as int, i + 1)[j] == text@.subrange(
                        start as int,
                        i as int,
                    )[j]);
                }
            }
        }
        i = i + 1;
    }
    i
}

/// The bound past which an exponent is no longer tracked: an exponent beyond it
/// moves any coordinate out of range or down to zero.
pub const EXPONENT_CAP: u128 = 100_000_000_000_000_000_000;

/// Reads the run of digits that starts at `start`: returns where it ends and
/// its value, or `None` for the value when that exceeds `EXPONENT_CAP`.
fn scan_exponent(text: &[u8], start: usize) -> (r: (usize, Option<u128>))
    requires
        start <= text@.len(),
    ensures
        start <= r.0 <= text@.len(),
        all_digits(text@.subrange(start as int, r.0 as int)),
        r.0 < text@.len() ==> !is_digit(text@[r.0 as int]),
        match r.1 {
            Some(v) => v == digits_value(text@.subrange(start as int, r.0 as int)) && v
                <= EXPONENT_CAP,
            None => digits_value(text@.subrange(start as int, r.0 as int)) > EXPONENT_CAP,
        },
{
    let end = digit_run(text, start);
    let ghost s = text@;
    let mut i = start;
    let mut val: u128 = 0;
    let mut too_big = false;
    while i < end
        invariant
            s == text@,
            start <= i <= end <= s.len(),
            all_digits(s.subrange(start as int, end as int)),
            !too_big ==> val == digits_value(s.subrange(start as int, i as int)),
            !too_big ==> val <= EXPONENT_CAP,
            too_big ==> digits_value(s.subrange(start as int, i as int)) > EXPONENT_CAP,
        decreases end - i,
    {
        assert(is_digit(s.subrange(start as int, end as int)[i - start]));
        proof {
            lemma_digits_push(s.subrange(start as int, i as int), s[i as int]);
            assert(s.subrange(start as int, i + 1) =~= s.subrange(start as int, i as int).push(
                s[i as int],
            ));
        }
        if !too_big {
            val = val * 10 + (text[i] - 48u8) as u128;
            if val > EXPONENT_CAP {
                too_big = true;
            }
        }
        i = i + 1;
    }
    if too_big {
        (end, None)
    } else {
        (end, Some(val))
    }
}

/// The value, in units of 10^-18 degree, of the digits of `text` from `start`
/// to `int_end` followed by those from `frac_start` to `frac_end`, with the
/// decimal point after the first `k` of them; `None` where it exceeds
/// `MAGNITUDE_CAP`.
fn scaled_digits(text: &[u8], start: usize, int_end: usize, frac_start: usize, frac_end: usize, k: i128) -> (r: Option<u128>)
    requires
        start <= int_end <= frac_start <= frac_end <= text@.len(),
        all_digits(text@.subrange(start as int, int_end as int)),
        all_digits(text@.subrange(frac_start as int, frac_end as int)),
    ensures
        r == capped(
            scaled_value(
                text@.subrange(start as int, int_end as int) + text@.subrange(
                    frac_start as int,
                    frac_end as int,
                ),
                k as int,
            ),
        ),
{
    let ghost a = text@.subrange(start as int, int_end as int);
    let ghost f = text@.subrange(frac_start as int, frac_end as int);
    let ghost all = a + f;
    let int_len = int_end - start;
    let all_len = int_len + (frac_end - frac_start);
    assert(all.len() == all_len);
    if k <= 0 {
        return Some(0);
    }
    let take: usize = if k < all_len as i128 {
        k as usize
    } else {
        all_len
    };
    let mut val: u128 = 0;
    let mut big = false;
    let mut j: usize = 0;
    assert(all.take(0) =~= Seq::<u8>::empty());
    while j < take
        invariant
            all == a + f,
            a == text@.subrange(start as int, int_end as int),
            f == text@.subrange(frac_start as int, frac_end as int),
            all_digits(a),
            all_digits(f),
            int_len == a.len(),
            all_len == all.len(),
            start <= int_end <= frac_start <= frac_end <= text@.len(),
            int_len == int_end - start,
            j <= take <= all_len,
            !big ==> val == digits_value(all.take(j as int)) && val <= MAGNITUDE_CAP,
            big ==> digits_value(all.take(j as int)) > MAGNITUDE_CAP,
        decreases take - j,
    {
        let b = if j < int_len {
            text[start + j]
        } else {
            text[frac_start + (j - int_len)]
        };
        proof {
            if j < int_len {
                assert(a[j as int] == b);
                assert(is_digit(a[j as int]));
            } else {
                assert(f[j - int_len] == b);
                assert(is_digit(f[j - int_len]));
            }
            assert(all[j as int] == b);
            assert(all.take(j + 1) =~= all.take(j as int).push(b));
            lemma_digits_push(all.take(j as int), b);
        }
        if !big {
            match push_digit(val, b) {
                Some(v) => {
                    val = v;
                },
                None => {
                    big = true;
                },
            }
        }
        j = j + 1;
    }
    if k <= all_len as i128 {
        return if big {
            None
        } else {
            Some(val)
        };
    }
    assert(all.take(all_len as int) =~= all);
    assert(all + zeros(0) =~= all);
    let target: u128 = (k - all_len as i128) as u128;
    let mut m: u128 = 0;
    while m < target && !big && val != 0
        invariant
            m <= target,
            !big ==> val == digits_value(all + zeros(m as nat)) && val <= MAGNITUDE_CAP,
            big ==> digits_value(all + zeros(m as nat)) > MAGNITUDE_CAP,
        decreases target - m,
    {
        proof {
            assert(all + zeros((m + 1) as nat) =~= (all + zeros(m as nat)).push(48u8));
            lemma_digits_push(all + zeros(m as nat), 48u8);
        }
        match push_digit(val, 48u8) {
            Some(v) => {
                val = v;
            },
            None => {
                big = true;
            },
        }
        m = m + 1;
    }
    proof {
        lemma_pad_monotone(all, m as nat, target as nat);
    }
    if big {
        None
    } else if val == 0 {
        Some(0)
    } else {
        Some(val)
    }
}

/// The coordinate that the runs of digits a scan found stand for: the whole
/// digits from `start` to `int_end`, the fractional digits from `frac_start`
/// to `frac_end` and, where `has_exp`, the exponent digits from `exp_start` to
/// `exp_end` with the value `exp_val` read from them.
fn coordinate_from_runs(
    text: &[u8],
    neg: bool,
    start: usize,
    int_end: usize,
    frac_start: usize,
    frac_end: usize,
    has_exp: bool,
    exp_neg: bool,
    exp_start: usize,
    exp_end: usize,
    exp_val: Option<u128>,
) -> (r: Option<i128>)
    requires
        start <= int_end <= frac_start <= frac_end <= text@.len(),
        exp_start <= exp_end <= text@.len(),
        all_digits(text@.subrange(start as int, int_end as int)),
        all_digits(text@.subrange(frac_start as int, frac_end as int)),
        all_digits(text@.subrange(exp_start as int, exp_end as int)),
        match exp_val {
            Some(v) => v == digits_value(text@.subrange(exp_start as int, exp_end as int)) && v
                <= EXPONENT_CAP,
            None => digits_value(text@.subrange(exp_start as int, exp_end as int))
                > EXPONENT_CAP,
        },
        !has_exp ==> exp_start == exp_end && !exp_neg,
    ensures
        r == coordinate_from_parts(
            neg,
            text@.subrange(start as int, int_end as int),
            text@.subrange(frac_start as int, frac_end as int),
            has_exp,
            exp_neg,
            text@.subrange(exp_start as int, exp_end as int),
        ),
{
    let ghost s = text@;
    let int_len = int_end - start;
    let all_len = int_len + (frac_end - frac_start);
    if all_len == 0 || (has_exp && exp_end == exp_start) {
        return None;
    }
    let k: i128 = match exp_val {
        Some(v) => if exp_neg {
            int_len as i128 - v as i128 + 18
        } else {
            int_len as i128 + v as i128 + 18
        },
        None => if exp_neg {
            -1
        } else {
            all_len as i128 + 39
        },
    };
    proof {
        let all = s.subrange(start as int, int_end as int) + s.subrange(
            frac_start as int,
            frac_end as int,
        );
        let ev = digits_value(s.subrange(exp_start as int, exp_end as int));
        let spec_k: int = if exp_neg {
            int_len - ev + 18
        } else {
            int_len + ev + 18
        };
        if exp_val is None {
            if !exp_neg {
                lemma_scale_far(all, spec_k);
                lemma_scale_far(all, k as int);
            }
        }
    }
    match scaled_digits(text, start, int_end, frac_start, frac_end, k) {
        None => None,
        Some(mag) => if neg {
            Some(-(mag as i128))
        } else {
            Some(mag as i128)
        },
    }
}

/// Parses a coordinate written in decimal degrees, as `coordinate_of` reads it,
/// into units of 10^-18 degree.
pub fn parse_coordinate(text: &[u8]) -> (r: Option<i128>)
    ensures
        r == coordinate_of(text@),
{
    let n = text.len();
    let ghost s = text@;
    let neg = n > 0 && text[0] == 45u8;
    let start: usize = if n > 0 && (text[0] == 45u8 || text[0] == 43u8) {
        1
    } else {
        0
    };
    let int_end = digit_run(text, start);
    let has_dot = int_end < n && text[int_end] == 46u8;
    let frac_start = if has_dot {
        int_end + 1
    } else {
        int_end
    };
    let frac_end = if has_dot {
        digit_run(text, frac_start)
    } else {
        int_end
    };
    let has_exp = frac_end < n && (text[frac_end] == 101u8 || text[frac_end] == 69u8);
    let exp_neg = has_exp && frac_end + 1 < n && text[frac_end + 1] == 45u8;
    let exp_start = if has_exp {
        if frac_end + 1 < n && (text[frac_end + 1] == 45u8 || text[frac_end + 1] == 43u8) {
            frac_end + 2
        } else {
            frac_end + 1
        }
    } else {
        frac_end
    };
    let (end, exp_val) = if has_exp {
        scan_exponent(text, exp_start)
    } else {
        proof {
            assert(s.subrange(frac_end as int, frac_end as int) =~= Seq::<u8>::empty());
        }
        (frac_end, Some(0u128))
    };
    proof {
        lemma_coordinate_structure(
            s,
            start as int,
            int_end as int,
            has_dot,
            frac_end as int,
            has_exp,
            exp_start as int,
            end as int,
        );
    }
    if end < n {
        return None;
    }
    coordinate_from_runs(
        text,
        neg,
        start,
        int_end,
        frac_start,
        frac_end,
        has_exp,
        exp_neg,
        exp_start,
        end,
        exp_val,
    )
}

/// The next `b` lies between the start of the search and the end.
proof fn lemma_find_from_bounds(s: Seq<u8>, i: int, b: u8)
    requires
        0 <= i <= s.len(),
    ensures
        i <= find_from(s, i, b) <= s.len(),
        find_from(s, i, b) < s.len() ==> s[find_from(s, i, b)] == b,
        i < s.len() && s[i] != b ==> find_from(s, i, b) > i,
    decreases s.len() - i,
{
    if i < s.len() && s[i] != b {
        lemma_find_from_bounds(s, i + 1, b);
    }
}

/// Why the text of a location could not be read.
#[derive(Clone, Copy, Debug, PartialEq, Eq)]
pub enum LocationError {
    /// The text is not two fields parted by one comma.
    FieldCount,
    /// A field is not a coordinate.
    BadCoordinate,
}

/// How many times `b` occurs in `s`.
pub open spec fn count_byte(s: Seq<u8>, b: u8) -> nat
    decreases s.len(),
{
    if s.len() == 0 {
        0
    } else {
        count_byte(s.drop_last(), b) + if s.last() == b {
            1nat
        } else {
            0nat
        }
    }
}

/// What a location text `latitude,longitude` stands for.
pub open spec fn location_of(text: Seq<u8>) -> Result<Point, LocationError> {
    let c = find_from(text, 0, 44u8);
    if count_byte(text, 44u8) != 1 {
        Err(LocationError::FieldCount)
    } else {
        match (coordinate_of(text.take(c)), coordinate_of(text.skip(c + 1))) {
            (Some(lat), Some(lng)) => Ok(Point { lat, lng }),
            _ => Err(LocationError::BadCoordinate),
        }
    }
}

/// Reads a location written as `latitude,longitude` in decimal degrees, as a
/// location service reports it.
pub fn parse_location(text: &[u8]) -> (r: Result<Point, LocationError>)
    ensures
        r == location_of(text@),
{
    let n = text.len();
    let ghost s = text@;
    let mut count: usize = 0;
    let mut first: usize = n;
    let mut i: usize = 0;
    while i < n
        invariant
            n == s.len(),
            s == text@,
            i <= n,
            count == count_byte(s.take(i as int), 44u8),
            count <= i,
            count == 0 ==> first == n,
            count == 0 ==> forall|j: int| 0 <= j < i ==> s[j] != 44u8,
            count > 0 ==> first < i && s[first as int] == 44u8 && forall|j: int|
                0 <= j < first ==> s[j] != 44u8,
        decreases n - i,
    {
        proof {
            assert(s.take(i + 1).drop_last() =~= s.take(i as int));
        }
        if text[i] == 44u8 {
            if count == 0 {
                first = i;
            }
            count = count + 1;
        }
        i = i + 1;
    }
    proof {
        assert(s.take(n as int) =~= s);
        if count == 0 {
            lemma_find_from_skip(s, 0, n as int, 44u8);
        } else {
            lemma_find_from_skip(s, 0, first as int, 44u8);
        }
    }
    if count != 1 {
        return Err(LocationError::FieldCount);
    }
    let (lat_text, rest) = text.split_at(first);
    let (_, lng_text) = rest.split_at(1);
    proof {
        assert(lat_text@ =~= s.take(first as int));
        assert(lng_text@ =~= s.skip(first + 1));
    }
    match (parse_coordinate(lat_text), parse_coordinate(lng_text)) {
        (Some(lat), Some(lng)) => Ok(Point { lat, lng }),
        _ => Err(LocationError::BadCoordinate),
    }
}

/// A zone holds both of its corners.
pub proof fn lemma_zone_holds_corners(zone: Square)
    ensures
        zone.holds(zone.top_left),
        zone.holds(zone.bottom_right),
{
}

/// Which corner is given first does not matter: swapping the corners gives the
/// same zone.
pub proof fn lemma_zone_corner_order(zone: Square, p: Point)
    ensures
        zone.holds(p) == (Square { top_left: zone.bottom_right, bottom_right: zone.top_left }).holds(
            p,
        ),
{
}

/// A zone entered top-left then bottom-right on a north-up map holds the
/// points north of its bottom edge, south of its top edge, east of its left
/// edge and west of its right edge.
pub proof fn lemma_zone_north_up(zone: Square, p: Point)
    requires
        zone.top_left.lat >= zone.bottom_right.lat,
        zone.top_left.lng <= zone.bottom_right.lng,
    ensures
        zone.holds(p) == (zone.bottom_right.lat <= p.lat <= zone.top_left.lat
            && zone.top_left.lng <= p.lng <= zone.bottom_right.lng),
{
}

/// A leading `-` negates a coordinate, and a leading `+` changes nothing.
pub proof fn lemma_coordinate_sign(t: Seq<u8>)
    requires
        sign_len(t) == 0,
    ensures
        coordinate_of(seq![45u8] + t) == (match coordinate_of(t) {
            Some(v) => Some((-v) as i128),
            None => None,
        }),
        coordinate_of(seq![43u8] + t) == coordinate_of(t),
{
    reveal(coordinate_of);
    assert((seq![45u8] + t).skip(1) =~= t);
    assert((seq![43u8] + t).skip(1) =~= t);
    assert(t.skip(0) =~= t);
}

/// Counting a byte over two texts adds the counts.
proof fn lemma_count_concat(a: Seq<u8>, b: Seq<u8>, x: u8)
    ensures
        count_byte(a + b, x) == count_byte(a, x) + count_byte(b, x),
    decreases b.len(),
{
    if b.len() == 0 {
        assert(a + b =~= a);
    } else {
        assert((a + b).drop_last() =~= a + b.drop_last());
        lemma_count_concat(a, b.drop_last(), x);
    }
}

/// A text in which a byte is not counted does not hold it.
proof fn lemma_count_zero(a: Seq<u8>, x: u8)
    requires
        count_byte(a, x) == 0,
    ensures
        forall|j: int| 0 <= j < a.len() ==> a[j] != x,
    decreases a.len(),
{
    if a.len() > 0 {
        lemma_count_zero(a.drop_last(), x);
        assert forall|j: int| 0 <= j < a.len() implies a[j] != x by {
            if j < a.len() - 1 {
                assert(a.drop_last()[j] == a[j]);
            }
        }
    }
}

/// A location text is its latitude and longitude parted by one comma: where
/// neither holds a comma, it reads as the point of the two coordinates, and
/// as `BadCoordinate` where either is not a coordinate.
pub proof fn lemma_location_fields(lat: Seq<u8>, lng: Seq<u8>)
    requires
        count_byte(lat, 44u8) == 0,
        count_byte(lng, 44u8) == 0,
    ensures
        location_of(lat + seq![44u8] + lng) == (match (coordinate_of(lat), coordinate_of(lng)) {
            (Some(a), Some(b)) => Ok(Point { lat: a, lng: b }),
            _ => Err(LocationError::BadCoordinate),
        }),
{
    let s = lat + seq![44u8] + lng;
    lemma_count_concat(lat, seq![44u8], 44u8);
    lemma_count_concat(lat + seq![44u8], lng, 44u8);
    assert(seq![44u8].drop_last() =~= Seq::<u8>::empty());
    assert(count_byte(Seq::<u8>::empty(), 44u8) == 0);
    assert(seq![44u8].last() == 44u8);
    assert(count_byte(seq![44u8], 44u8) == 1);
    lemma_count_zero(lat, 44u8);
    assert forall|j: int| 0 <= j < lat.len() implies s[j] != 44u8 by {
        assert(s[j] == lat[j]);
    }
    lemma_find_from_skip(s, 0, lat.len() as int, 44u8);
    assert(s.take(lat.len() as int) =~= lat);
    assert(s.skip(lat.len() as int + 1) =~= lng);
}

/// A zone holds a point exactly when the point's latitude lies between the two
/// corners' latitudes and its longitude between their longitudes, bounds
/// included, however the corners are placed.
pub proof fn lemma_zone_between(zone: Square, p: Point)
    ensures
        zone.holds(p) <==> ((zone.top_left.lat <= p.lat <= zone.bottom_right.lat
            || zone.bottom_right.lat <= p.lat <= zone.top_left.lat) && (zone.top_left.lng <= p.lng
            <= zone.bottom_right.lng || zone.bottom_right.lng <= p.lng <= zone.top_left.lng)),
{
}

} // verus!
