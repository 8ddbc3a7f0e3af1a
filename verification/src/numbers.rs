//! Fixed-point decimal arithmetic. Coordinates and elevations are carried as
//! integers in nano-units (billionths of a degree or of a meter): a decimal
//! text is read into nano-units, truncating beyond the ninth decimal place;
//! precision reduction rounds nano-units to centi-units (hundredths);
//! centi-units are rendered back to the shortest decimal text with at least
//! one fractional digit.
use vstd::prelude::*;

verus! {

/// Nano-units per whole unit.
pub const NANO_PER_UNIT: i64 = 1_000_000_000;

/// Largest magnitude, in nano-units, that a coordinate or elevation may
/// have: one billion whole units. This is the representational limit of the
/// fixed-point model (the value must fit an `i64` at nano precision), not a
/// rule of the track-log format. Latitude and longitude are bounded far
/// below it by the document codec itself, so only a non-physical elevation
/// beyond a billion meters, or a non-finite one, falls outside the model;
/// such a coordinate is rejected as a parse failure.
pub const COORD_LIMIT_NANO: i64 = 1_000_000_000_000_000_000;

/// An ASCII decimal digit.
pub open spec fn is_digit(c: char) -> bool {
    0x30 <= c as u32 && c as u32 <= 0x39
}

/// The numeric value of an ASCII decimal digit.
pub open spec fn digit_val(c: char) -> int {
    c as u32 - 0x30
}

/// Every character of the sequence is an ASCII decimal digit.
pub open spec fn all_digits(s: Seq<char>) -> bool {
    forall|i: int| 0 <= i < s.len() ==> is_digit(#[trigger] s[i])
}

/// The value of a digit string read in base ten.
pub open spec fn digits_val(s: Seq<char>) -> int
    decreases s.len(),
{
    if s.len() == 0 {
        0
    } else {
        digits_val(s.drop_last()) * 10 + digit_val(s.last())
    }
}

/// Ten to the power `e` (one for non-positive `e`).
pub open spec fn pow10(e: int) -> int
    decreases e,
{
    if e <= 0 {
        1
    } else {
        10 * pow10(e - 1)
    }
}

proof fn lemma_pow10_values()
    ensures
        pow10(0) == 1,
        pow10(1) == 10,
        pow10(2) == 100,
        pow10(3) == 1000,
        pow10(4) == 10000,
        pow10(5) == 100000,
        pow10(6) == 1000000,
        pow10(7) == 10000000,
        pow10(8) == 100000000,
        pow10(9) == 1_000_000_000,
{
    reveal_with_fuel(pow10, 11);
}

proof fn lemma_digits_val_bounds(s: Seq<char>)
    requires
        all_digits(s),
    ensures
        0 <= digits_val(s) < pow10(s.len() as int),
    decreases s.len(),
{
    if s.len() > 0 {
        assert(all_digits(s.drop_last()));
        lemma_digits_val_bounds(s.drop_last());
        assert(digit_val(s.last()) <= 9);
        assert(pow10(s.len() as int) == 10 * pow10(s.len() - 1));
    }
}

/// Index of the first `.` in the sequence, or its length if there is none.
pub open spec fn dot_index(s: Seq<char>) -> int
    decreases s.len(),
{
    if s.len() == 0 {
        0
    } else if s[0] == '.' {
        0
    } else {
        1 + dot_index(s.drop_first())
    }
}

proof fn lemma_dot_index_at(s: Seq<char>, d: int)
    requires
        0 <= d <= s.len(),
        forall|k: int| 0 <= k < d ==> s[k] != '.',
        d == s.len() || s[d] == '.',
    ensures
        dot_index(s) == d,
    decreases d,
{
    if d > 0 {
        lemma_dot_index_at(s.drop_first(), d - 1);
    }
}

/// The contribution of the fractional digits to the nano-unit value: the
/// first nine digits, padded on the right with zeros, read as an integer.
/// Digits beyond the ninth are truncated.
pub open spec fn frac_nano(fr: Seq<char>) -> int {
    let k = if fr.len() <= 9 {
        fr.len() as int
    } else {
        9
    };
    digits_val(fr.take(k)) * pow10(9 - k)
}

proof fn lemma_frac_nano_bounds(fr: Seq<char>)
    requires
        all_digits(fr),
    ensures
        0 <= frac_nano(fr) < NANO_PER_UNIT as int,
{
    let k = if fr.len() <= 9 {
        fr.len() as int
    } else {
        9
    };
    assert(all_digits(fr.take(k)));
    lemma_digits_val_bounds(fr.take(k));
    lemma_pow10_pos(9 - k);
    lemma_pow10_add(k, 9 - k);
    lemma_pow10_values();
    assert(digits_val(fr.take(k)) * pow10(9 - k) <= (pow10(k) - 1) * pow10(9 - k)) by {
        lemma_mul_le(digits_val(fr.take(k)), pow10(k) - 1, pow10(9 - k));
    }
    assert((pow10(k) - 1) * pow10(9 - k) == pow10(k) * pow10(9 - k) - pow10(9 - k))
        by (nonlinear_arith);
    assert(frac_nano(fr) >= 0) by {
        lemma_mul_nonneg_local(digits_val(fr.take(k)), pow10(9 - k));
    }
}

proof fn lemma_pow10_pos(e: int)
    ensures
        pow10(e) >= 1,
    decreases e,
{
    if e > 0 {
        lemma_pow10_pos(e - 1);
    }
}

proof fn lemma_pow10_add(a: int, b: int)
    requires
        a >= 0,
        b >= 0,
    ensures
        pow10(a) * pow10(b) == pow10(a + b),
    decreases a,
{
    if a == 0 {
    } else {
        lemma_pow10_add(a - 1, b);
        assert(pow10(a) * pow10(b) == 10 * (pow10(a - 1) * pow10(b))) by (nonlinear_arith)
            requires
                pow10(a) == 10 * pow10(a - 1),
        ;
    }
}

proof fn lemma_mul_le(x: int, y: int, m: int)
    requires
        x <= y,
        m >= 0,
    ensures
        x * m <= y * m,
{
    vstd::arithmetic::mul::lemma_mul_inequality(x, y, m);
}

proof fn lemma_mul_nonneg_local(x: int, y: int)
    requires
        x >= 0,
        y >= 0,
    ensures
        x * y >= 0,
{
    vstd::arithmetic::mul::lemma_mul_nonnegative(x, y);
}

/// The nano-unit value of an unsigned decimal text: digits, optionally
/// followed by a dot and at least one more digit. `None` if the text has any
/// other shape, or if the value is over the coordinate magnitude ceiling.
pub open spec fn nano_of_unsigned(s: Seq<char>) -> Option<int> {
    let d = dot_index(s);
    let ip = s.take(d);
    if ip.len() == 0 || !all_digits(ip) {
        None
    } else if d == s.len() {
        let m = digits_val(ip) * NANO_PER_UNIT;
        if m > COORD_LIMIT_NANO as int {
            None
        } else {
            Some(m)
        }
    } else {
        let fr = s.skip(d + 1);
        if fr.len() == 0 || !all_digits(fr) {
            None
        } else {
            let m = digits_val(ip) * NANO_PER_UNIT + frac_nano(fr);
            if m > COORD_LIMIT_NANO as int {
                None
            } else {
                Some(m)
            }
        }
    }
}

/// The nano-unit value of a decimal text with an optional leading minus.
pub open spec fn nano_of_text(s: Seq<char>) -> Option<int> {
    if s.len() > 0 && s[0] == '-' {
        match nano_of_unsigned(s.drop_first()) {
            Some(m) => Some(-m),
            None => None,
        }
    } else {
        nano_of_unsigned(s)
    }
}

/// Executable test for [`is_digit`].
pub(crate) fn is_digit_char(c: char) -> (r: bool)
    ensures
        r == is_digit(c),
{
    let u = c as u32;
    0x30 <= u && u <= 0x39
}

/// The numeric value of an ASCII digit character.
pub(crate) fn digit_val_exec(c: char) -> (r: i64)
    requires
        is_digit(c),
    ensures
        r == digit_val(c),
        0 <= r <= 9,
{
    let u = c as u32;
    (u - 0x30) as i64
}

/// Executable test for [`is_digit`], with the digit's value.
fn digit_of(c: char) -> (r: Option<i64>)
    ensures
        r is Some <==> is_digit(c),
        r matches Some(d) ==> d == digit_val(c) && 0 <= d <= 9,
{
    let u = c as u32;
    if 0x30 <= u && u <= 0x39 {
        Some((u - 0x30) as i64)
    } else {
        None
    }
}

/// Reads the unsigned decimal text `v[start..]` into nano-units.
fn parse_nano_unsigned(v: &Vec<char>, start: usize) -> (r: Option<i64>)
    requires
        start <= v@.len(),
    ensures
        r matches Some(x) ==> nano_of_unsigned(v@.skip(start as int)) == Some(x as int) && 0 <= x
            <= COORD_LIMIT_NANO,
        r is None ==> nano_of_unsigned(v@.skip(start as int)) is None,
{
    let ghost s = v@.skip(start as int);
    let n = v.len();
    // Scan the integer part: digits up to a dot or the end.
    let mut k: usize = start;
    let mut acc: i64 = 0;
    let mut big: bool = false;
    while k < n && v[k] != '.'
        invariant
            start <= k <= n,
            n == v@.len(),
            s == v@.skip(start as int),
            forall|j: int| start <= j < k ==> v@[j] != '.',
            all_digits(v@.subrange(start as int, k as int)),
            !big ==> acc == digits_val(v@.subrange(start as int, k as int)) && 0 <= acc
                <= NANO_PER_UNIT,
            big ==> digits_val(v@.subrange(start as int, k as int)) > NANO_PER_UNIT,
        decreases n - k,
    {
        let ghost pre = v@.subrange(start as int, k as int);
        proof {
            assert(v@.subrange(start as int, k + 1).drop_last() =~= pre);
        }
        match digit_of(v[k]) {
            None => {
                proof {
                    lemma_dot_index_props(s);
                    let di = dot_index(s);
                    if di <= k - start {
                        assert(s[di] == v@[di + start]);
                        assert(false);
                    }
                    assert(!is_digit(s[k - start]));
                    assert(s.take(di)[k - start] == s[k - start]);
                    assert(!is_digit(s.take(di)[k - start]));
                    assert(!all_digits(s.take(di)));
                }
                return None;
            },
            Some(d) => {
                if !big {
                    let next = acc * 10 + d;
                    if next > NANO_PER_UNIT {
                        big = true;
                    } else {
                        acc = next;
                    }
                } else {
                    proof {
                        let cur = digits_val(pre);
                        assert(digits_val(v@.subrange(start as int, k + 1)) == cur * 10
                            + digit_val(v@[k as int]));
                        assert(cur * 10 > NANO_PER_UNIT * 10) by (nonlinear_arith)
                            requires
                                cur > NANO_PER_UNIT,
                        ;
                    }
                }
            },
        }
        k = k + 1;
    }
    let d_end = k;
    proof {
        lemma_dot_index_at(s, d_end - start);
        assert(s.take(d_end - start) =~= v@.subrange(start as int, d_end as int));
    }
    if d_end == start {
        // Empty integer part.
        return None;
    }
    if big {
        proof {
            lemma_int_part_big(s, d_end - start);
        }
        return None;
    }
    if d_end == n {
        // No fractional part.
        proof {
            assert(acc * NANO_PER_UNIT <= COORD_LIMIT_NANO as int) by (nonlinear_arith)
                requires
                    0 <= acc <= NANO_PER_UNIT,
            ;
        }
        return Some(acc * NANO_PER_UNIT);
    }
    // Scan the fractional part: at least one digit, truncated past nine.
    if d_end + 1 == n {
        // A dot with nothing after it.
        assert(s.skip(d_end + 1 - start) =~= Seq::<char>::empty());
        return None;
    }
    let ghost fr = s.skip(d_end + 1 - start);
    let mut facc: i64 = 0;
    let mut fcount: usize = 0;
    let mut k2: usize = d_end + 1;
    while k2 < n
        invariant
            d_end + 1 <= k2 <= n,
            n == v@.len(),
            start <= d_end < n,
            s == v@.skip(start as int),
            fr == s.skip(d_end + 1 - start),
            fr =~= v@.subrange(d_end + 1, n as int),
            all_digits(v@.subrange(d_end + 1, k2 as int)),
            fcount == if k2 - (d_end + 1) <= 9 {
                k2 - (d_end + 1)
            } else {
                9
            },
            facc == digits_val(v@.subrange(d_end + 1, d_end + 1 + fcount)),
            0 <= facc < 1_000_000_000,
        decreases n - k2,
    {
        let ghost pre = v@.subrange(d_end + 1, k2 as int);
        proof {
            assert(v@.subrange(d_end + 1, k2 + 1).drop_last() =~= pre);
        }
        match digit_of(v[k2]) {
            None => {
                proof {
                    assert(!is_digit(fr[k2 - (d_end + 1)]));
                    assert(!all_digits(fr));
                }
                return None;
            },
            Some(d) => {
                if fcount < 9 {
                    proof {
                        assert(v@.subrange(d_end + 1, k2 as int) =~= v@.subrange(
                            d_end + 1,
                            d_end + 1 + fcount,
                        ));
                        assert(all_digits(pre));
                        lemma_digits_val_bounds(pre);
                        lemma_pow10_values();
                        assert(pow10(fcount as int) <= pow10(8)) by {
                            lemma_pow10_increases(fcount as int, 8);
                        }
                    }
                    facc = facc * 10 + d;
                    fcount = fcount + 1;
                    proof {
                        assert(v@.subrange(d_end + 1, d_end + 1 + fcount).drop_last() =~= pre);
                    }
                }
            },
        }
        k2 = k2 + 1;
    }
    proof {
        assert(fr =~= v@.subrange(d_end + 1, n as int));
        assert(all_digits(fr));
        let kk = if fr.len() <= 9 {
            fr.len() as int
        } else {
            9
        };
        assert(fr.take(kk) =~= v@.subrange(d_end + 1, d_end + 1 + fcount));
        lemma_frac_nano_bounds(fr);
    }
    let fpart = facc * pow10_small(9 - fcount as u32);
    proof {
        assert(facc * pow10(9 - fcount) == frac_nano(fr));
        assert(0 <= fpart < NANO_PER_UNIT);
    }
    if acc == NANO_PER_UNIT && fpart > 0 {
        return None;
    }
    proof {
        assert(acc * NANO_PER_UNIT + fpart <= COORD_LIMIT_NANO as int) by (nonlinear_arith)
            requires
                0 <= acc <= NANO_PER_UNIT,
                0 <= fpart < NANO_PER_UNIT,
                !(acc == NANO_PER_UNIT && fpart > 0),
        ;
        assert(acc * NANO_PER_UNIT >= 0) by (nonlinear_arith)
            requires
                acc >= 0,
        ;
    }
    Some(acc * NANO_PER_UNIT + fpart)
}

proof fn lemma_dot_index_props(s: Seq<char>)
    ensures
        0 <= dot_index(s) <= s.len(),
        forall|k: int| 0 <= k < dot_index(s) ==> s[k] != '.',
        dot_index(s) == s.len() || s[dot_index(s)] == '.',
    decreases s.len(),
{
    if s.len() > 0 && s[0] != '.' {
        lemma_dot_index_props(s.drop_first());
        assert forall|k: int| 0 <= k < dot_index(s) implies s[k] != '.' by {
            if k > 0 {
                assert(s.drop_first()[k - 1] == s[k]);
            }
        }
    }
}

proof fn lemma_int_part_big(s: Seq<char>, d: int)
    requires
        dot_index(s) == d,
        0 <= d <= s.len(),
        digits_val(s.take(d)) > NANO_PER_UNIT,
        all_digits(s.take(d)),
    ensures
        nano_of_unsigned(s) is None,
{
    let ip = s.take(d);
    lemma_digits_val_bounds(ip);
    assert(digits_val(ip) * NANO_PER_UNIT > NANO_PER_UNIT as int * NANO_PER_UNIT as int)
        by (nonlinear_arith)
        requires
            digits_val(ip) > NANO_PER_UNIT,
    ;
    if d < s.len() {
        let fr = s.skip(d + 1);
        if fr.len() > 0 && all_digits(fr) {
            lemma_frac_nano_bounds(fr);
        }
    }
}

proof fn lemma_pow10_increases(a: int, b: int)
    requires
        a <= b,
    ensures
        pow10(a) <= pow10(b),
    decreases b,
{
    if a < b && b > 0 {
        lemma_pow10_increases(a, b - 1);
        lemma_pow10_pos(b - 1);
    }
}

/// Ten to the power `e`, for small `e`.
fn pow10_small(e: u32) -> (r: i64)
    requires
        e <= 9,
    ensures
        r == pow10(e as int),
        1 <= r <= 1_000_000_000,
{
    let mut r: i64 = 1;
    let mut i: u32 = 0;
    while i < e
        invariant
            i <= e <= 9,
            r == pow10(i as int),
            1 <= r <= 1_000_000_000,
        decreases e - i,
    {
        proof {
            lemma_pow10_increases(i + 1, 9);
            lemma_pow10_values();
        }
        r = r * 10;
        i = i + 1;
    }
    r
}

/// Reads a decimal text, with an optional leading minus, into nano-units.
pub fn parse_nano(v: &Vec<char>) -> (r: Option<i64>)
    ensures
        r matches Some(x) ==> nano_of_text(v@) == Some(x as int) && -COORD_LIMIT_NANO <= x
            <= COORD_LIMIT_NANO,
        r is None ==> nano_of_text(v@) is None,
{
    if v.len() > 0 && v[0] == '-' {
        assert(v@.skip(1) =~= v@.drop_first());
        match parse_nano_unsigned(v, 1) {
            Some(m) => Some(-m),
            None => None,
        }
    } else {
        assert(v@.skip(0) =~= v@);
        parse_nano_unsigned(v, 0)
    }
}

/// Largest magnitude, in centi-units, of a rounded coordinate.
pub const CENTI_LIMIT: i64 = 100_000_000_000;

/// Rounds a nano-unit value to centi-units (two decimal places), half away
/// from zero.
pub open spec fn round_centi(x: int) -> int {
    if x >= 0 {
        (x + 5_000_000) / 10_000_000
    } else {
        -((-x + 5_000_000) / 10_000_000)
    }
}

/// Executable form of [`round_centi`].
pub fn round_to_centi(x: i64) -> (r: i64)
    requires
        -COORD_LIMIT_NANO <= x <= COORD_LIMIT_NANO,
    ensures
        r == round_centi(x as int),
        -CENTI_LIMIT <= r <= CENTI_LIMIT,
{
    if x >= 0 {
        let m: u64 = (x as u64 + 5_000_000) / 10_000_000;
        proof {
            vstd::arithmetic::div_mod::lemma_div_is_ordered(
                x as int + 5_000_000,
                COORD_LIMIT_NANO as int + 5_000_000,
                10_000_000,
            );
        }
        m as i64
    } else {
        let m: u64 = ((-x) as u64 + 5_000_000) / 10_000_000;
        proof {
            vstd::arithmetic::div_mod::lemma_div_is_ordered(
                -(x as int) + 5_000_000,
                COORD_LIMIT_NANO as int + 5_000_000,
                10_000_000,
            );
        }
        -(m as i64)
    }
}

/// The character for one decimal digit.
pub open spec fn digit_char(d: int) -> char {
    if d == 0 {
        '0'
    } else if d == 1 {
        '1'
    } else if d == 2 {
        '2'
    } else if d == 3 {
        '3'
    } else if d == 4 {
        '4'
    } else if d == 5 {
        '5'
    } else if d == 6 {
        '6'
    } else if d == 7 {
        '7'
    } else if d == 8 {
        '8'
    } else {
        '9'
    }
}

fn digit_char_exec(d: u64) -> (c: char)
    requires
        d <= 9,
    ensures
        c == digit_char(d as int),
{
    if d == 0 {
        '0'
    } else if d == 1 {
        '1'
    } else if d == 2 {
        '2'
    } else if d == 3 {
        '3'
    } else if d == 4 {
        '4'
    } else if d == 5 {
        '5'
    } else if d == 6 {
        '6'
    } else if d == 7 {
        '7'
    } else if d == 8 {
        '8'
    } else {
        '9'
    }
}

/// The decimal digits of a non-negative integer, most significant first.
pub open spec fn digits_of(n: int) -> Seq<char>
    recommends
        n >= 0,
    decreases n,
{
    if n < 10 {
        seq![digit_char(n)]
    } else {
        digits_of(n / 10).push(digit_char(n % 10))
    }
}

/// The text of a non-negative centi-unit value: the whole part, a dot, and
/// one or two fractional digits — two only when the second is not zero.
pub open spec fn render_centi_mag(c: int) -> Seq<char>
    recommends
        c >= 0,
{
    let ip = c / 100;
    let fr = c % 100;
    digits_of(ip) + seq!['.'] + (if fr % 10 == 0 {
        seq![digit_char(fr / 10)]
    } else {
        seq![digit_char(fr / 10), digit_char(fr % 10)]
    })
}

/// The decimal text of a centi-unit value, with a leading minus when it is
/// negative.
pub open spec fn render_centi(c: int) -> Seq<char> {
    if c < 0 {
        seq!['-'] + render_centi_mag(-c)
    } else {
        render_centi_mag(c)
    }
}

fn push_digits(out: &mut Vec<char>, n: u64)
    ensures
        final(out)@ == old(out)@ + digits_of(n as int),
    decreases n,
{
    if n < 10 {
        out.push(digit_char_exec(n));
        assert(out@ =~= old(out)@ + digits_of(n as int));
    } else {
        push_digits(out, n / 10);
        out.push(digit_char_exec(n % 10));
        assert(out@ =~= old(out)@ + digits_of(n as int));
    }
}

fn push_centi_mag(out: &mut Vec<char>, c: u64)
    requires
        c <= CENTI_LIMIT,
    ensures
        final(out)@ == old(out)@ + render_centi_mag(c as int),
{
    let ip = c / 100;
    let fr = c % 100;
    push_digits(out, ip);
    out.push('.');
    if fr % 10 == 0 {
        out.push(digit_char_exec(fr / 10));
    } else {
        out.push(digit_char_exec(fr / 10));
        out.push(digit_char_exec(fr % 10));
    }
    assert(out@ =~= old(out)@ + render_centi_mag(c as int));
}

/// Appends the decimal text of a centi-unit value.
pub fn push_centi_text(out: &mut Vec<char>, c: i64)
    requires
        -CENTI_LIMIT <= c <= CENTI_LIMIT,
    ensures
        final(out)@ == old(out)@ + render_centi(c as int),
{
    if c < 0 {
        out.push('-');
        push_centi_mag(out, (-c) as u64);
        assert(out@ =~= old(out)@ + render_centi(c as int));
    } else {
        push_centi_mag(out, c as u64);
    }
}

} // verus!
