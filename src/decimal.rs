//! Exact decimal numbers in fixed point, with eighteen digits after the point,
//! and the levels (finite, infinite or not a number) that an analysis reports.
use vstd::prelude::*;
use crate::text::{
    chars_of, lemma_digits_bound, lemma_pow10_monotone, lemma_digits_push, all_digits, digit_char, digit_value, digits_value, fraction_text, is_digit, lemma_pow10_add,
    lemma_pow10_positive, nat_text, pow10, power_of_ten, push_char, push_fraction, push_nat,
};

verus! {

/// One whole unit in fixed point: the value of a `Decimal` is `units / UNIT`.
pub const UNIT: u128 = 1_000_000_000_000_000_000;

/// Parsed numbers stay below this many units (a magnitude below 10^18).
pub const PARSE_LIMIT: u128 = 1_000_000_000_000_000_000_000_000_000_000_000_000;

/// Every well-formed `Decimal` stays below this many units.
pub const WF_LIMIT: u128 = 10_000_000_000_000_000_000_000_000_000_000_000_000;

/// A decimal number `±units / 10^18`. The sign is kept apart from the
/// magnitude so that a negative zero written by an operator is kept as such.
#[derive(Clone, Copy, Debug, PartialEq, Eq)]
pub struct Decimal {
    pub negative: bool,
    pub units: u128,
}

/// A reported level: a decimal number, an infinity, or not a number.
#[derive(Clone, Copy, Debug, PartialEq, Eq)]
pub enum Level {
    Finite(Decimal),
    Infinite { negative: bool },
    NotANumber,
}

pub open spec fn unit_nat() -> nat {
    UNIT as nat
}

/// Text without its leading sign, if it has one.
pub open spec fn unsigned_part(s: Seq<char>) -> Seq<char> {
    if s.len() > 0 && (s[0] == '-' || s[0] == '+') {
        s.drop_first()
    } else {
        s
    }
}

pub open spec fn has_minus(s: Seq<char>) -> bool {
    s.len() > 0 && s[0] == '-'
}

/// How many decimal digits the text starts with.
pub open spec fn leading_digits(s: Seq<char>) -> nat
    decreases s.len(),
{
    if s.len() > 0 && is_digit(s[0]) {
        1 + leading_digits(s.drop_first())
    } else {
        0
    }
}

/// The number that decimal text denotes, where it is one this type holds.
/// Accepted: an optional sign, then digits with an optional point, with at
/// least one digit on either side of it; at most eighteen digits after the
/// point and a whole part below 10^18.
pub open spec fn decimal_of(s: Seq<char>) -> Option<Decimal> {
    let b = unsigned_part(s);
    let n = leading_digits(b);
    let whole = b.take(n as int);
    let rest = b.skip(n as int);
    let frac = rest.drop_first();
    if rest.len() == 0 {
        if n > 0 && digits_value(whole) < unit_nat() {
            Some(Decimal { negative: has_minus(s), units: (digits_value(whole) * unit_nat()) as u128 })
        } else {
            None
        }
    } else if rest[0] == '.' && all_digits(frac) && n + frac.len() > 0 && digits_value(whole)
        < unit_nat() && frac.len() <= 18 {
        Some(
            Decimal {
                negative: has_minus(s),
                units: (digits_value(whole) * unit_nat() + digits_value(frac) * pow10(
                    (18 - frac.len()) as nat,
                )) as u128,
            },
        )
    } else {
        None
    }
}

pub open spec fn ascii_lower(c: char) -> char {
    if 'A' <= c && c <= 'Z' {
        ((c as u8) + 32) as char
    } else {
        c
    }
}

/// The level that text denotes: `inf`, `infinity` or `nan` in any case after
/// an optional sign, or a decimal number.
pub open spec fn level_of(s: Seq<char>) -> Option<Level> {
    let b = unsigned_part(s).map_values(|c: char| ascii_lower(c));
    if b == "inf"@ || b == "infinity"@ {
        Some(Level::Infinite { negative: has_minus(s) })
    } else if b == "nan"@ {
        Some(Level::NotANumber)
    } else {
        match decimal_of(s) {
            Some(d) => Some(Level::Finite(d)),
            None => None,
        }
    }
}

/// Shortest decimal notation: the whole part without leading zeros, and the
/// fraction, if any, without trailing zeros.
pub open spec fn decimal_text(d: Decimal) -> Seq<char> {
    (if d.negative {
        seq!['-']
    } else {
        Seq::<char>::empty()
    }) + nat_text((d.units / UNIT) as nat) + if d.units % UNIT == 0 {
        Seq::<char>::empty()
    } else {
        seq!['.'] + fraction_text((d.units % UNIT) as nat, 18)
    }
}

pub open spec fn level_text(l: Level) -> Seq<char> {
    match l {
        Level::Finite(d) => decimal_text(d),
        Level::Infinite { negative } => if negative {
            "-inf"@
        } else {
            "inf"@
        },
        Level::NotANumber => "NaN"@,
    }
}

/// `x` saturated into `[lo, hi]`.
pub open spec fn clamp_spec(x: Decimal, lo: Decimal, hi: Decimal) -> Decimal {
    if x.value() < lo.value() {
        lo
    } else if x.value() > hi.value() {
        hi
    } else {
        x
    }
}

proof fn lemma_unit()
    ensures
        pow10(18) == UNIT,
{
    reveal_with_fuel(pow10, 19);
}

impl Decimal {
    pub open spec fn wf(&self) -> bool {
        self.units < WF_LIMIT
    }

    pub open spec fn value(&self) -> int {
        if self.negative {
            -(self.units as int)
        } else {
            self.units as int
        }
    }

    /// The canonical decimal for a value: negative only below zero.
    pub open spec fn of_value(v: int) -> Decimal {
        Decimal { negative: v < 0, units: (if v < 0 { -v } else { v }) as u128 }
    }

    /// The number `±n`.
    pub fn whole(negative: bool, n: u128) -> (r: Decimal)
        requires
            n <= 1_000_000_000_000_000_000,
        ensures
            r.wf(),
            r.negative == negative,
            r.units == n * UNIT,
    {
        Decimal { negative, units: n * UNIT }
    }

    pub fn signed(&self) -> (r: i128)
        requires
            self.wf(),
        ensures
            r == self.value(),
    {
        if self.negative {
            -(self.units as i128)
        } else {
            self.units as i128
        }
    }

    pub fn from_signed(v: i128) -> (r: Decimal)
        requires
            -(WF_LIMIT as int) < v < WF_LIMIT as int,
        ensures
            r == Decimal::of_value(v as int),
            r.wf(),
            r.value() == v,
    {
        if v < 0 {
            Decimal { negative: true, units: (-v) as u128 }
        } else {
            Decimal { negative: false, units: v as u128 }
        }
    }

    /// Saturates into `[lo, hi]`; a value inside is returned unchanged.
    pub fn clamp(&self, lo: &Decimal, hi: &Decimal) -> (r: Decimal)
        requires
            self.wf(),
            lo.wf(),
            hi.wf(),
            lo.value() <= hi.value(),
        ensures
            r == clamp_spec(*self, *lo, *hi),
            r.wf(),
    {
        let v = self.signed();
        if v < lo.signed() {
            *lo
        } else if v > hi.signed() {
            *hi
        } else {
            *self
        }
    }

    /// Shortest decimal notation of the number.
    pub fn to_text(&self) -> (r: String)
        ensures
            r@ == decimal_text(*self),
    {
        let mut s = String::new();
        if self.negative {
            push_char(&mut s, '-');
        }
        push_nat(&mut s, self.units / UNIT);
        let f = self.units % UNIT;
        if f != 0 {
            push_char(&mut s, '.');
            proof {
                lemma_unit();
            }
            push_fraction(&mut s, f, 18);
        }
        assert(s@ == decimal_text(*self));
        s
    }
}

/// Clamping is total and idempotent: the result lies in `[lo, hi]`, and
/// clamping it again changes nothing.
pub proof fn lemma_clamp_idempotent(x: Decimal, lo: Decimal, hi: Decimal)
    requires
        lo.value() <= hi.value(),
    ensures
        lo.value() <= clamp_spec(x, lo, hi).value() <= hi.value(),
        clamp_spec(clamp_spec(x, lo, hi), lo, hi) == clamp_spec(x, lo, hi),
{
}

proof fn lemma_leading_digits(b: Seq<char>, i: nat)
    requires
        i <= b.len(),
        all_digits(b.take(i as int)),
        i == b.len() || !is_digit(b[i as int]),
    ensures
        leading_digits(b) == i,
    decreases i,
{
    if i > 0 {
        assert(is_digit(b.take(i as int)[0]));
        let t = b.drop_first();
        assert(all_digits(t.take(i - 1))) by {
            assert forall|j: int| 0 <= j < i - 1 implies is_digit(#[trigger] t.take(i - 1)[j]) by {
                assert(t.take(i - 1)[j] == b.take(i as int)[j + 1]);
            }
        }
        lemma_leading_digits(t, (i - 1) as nat);
    }
}

fn lower(c: char) -> (r: char)
    ensures
        r == ascii_lower(c),
{
    if 'A' <= c && c <= 'Z' {
        ((c as u8) + 32) as char
    } else {
        c
    }
}

/// Whether the characters of `cs` from `from` on spell `word`, ignoring the
/// case of ASCII letters in `cs`.
fn rest_is(cs: &Vec<char>, from: usize, word: &str) -> (r: bool)
    requires
        from <= cs@.len(),
    ensures
        r == (cs@.skip(from as int).map_values(|c: char| ascii_lower(c)) == word@),
{
    let n = word.unicode_len();
    if cs.len() - from != n {
        return false;
    }
    let mut j: usize = 0;
    while j < n
        invariant
            j <= n,
            from + n == cs.len(),
            n == word@.len(),
            cs@.len() - from == n,
            forall|k: int| 0 <= k < j ==> ascii_lower(cs@[from + k]) == word@[k],
        decreases n - j,
    {
        if lower(cs[from + j]) != word.get_char(j) {
            assert(cs@.skip(from as int).map_values(|c: char| ascii_lower(c))[j as int] != word@[j as int]);
            return false;
        }
        j = j + 1;
    }
    assert(cs@.skip(from as int).map_values(|c: char| ascii_lower(c)) =~= word@);
    true
}

impl Decimal {
    /// Reads decimal text (see `decimal_of` for what is accepted).
    pub fn parse(s: &str) -> (r: Option<Decimal>)
        ensures
            r == decimal_of(s@),
            r matches Some(d) ==> d.units < PARSE_LIMIT,
    {
        let cs = chars_of(s);
        Self::parse_from(&cs)
    }

    fn parse_from(cs: &Vec<char>) -> (r: Option<Decimal>)
        ensures
            r == decimal_of(cs@),
            r matches Some(d) ==> d.units < PARSE_LIMIT,
    {
        let len = cs.len();
        let mut i: usize = 0;
        let mut negative = false;
        if len > 0 && (cs[0] == '-' || cs[0] == '+') {
            negative = cs[0] == '-';
            i = 1;
        }
        let start = i;
        let ghost b = cs@.skip(start as int);
        assert(b == unsigned_part(cs@));
        let mut whole: u128 = 0;
        while i < len && '0' <= cs[i] && cs[i] <= '9'
            invariant
                start <= i <= len == cs@.len(),
                b == cs@.skip(start as int),
                all_digits(b.take(i - start)),
                digits_value(b.take(i - start)) < UNIT ==> whole == digits_value(b.take(i - start)),
                digits_value(b.take(i - start)) >= UNIT ==> whole >= UNIT,
                whole < 10 * UNIT,
            decreases len - i,
        {
            let ghost pre = b.take(i - start);
            proof {
                assert(b.take(i - start + 1) == pre.push(cs@[i as int]));
                lemma_digits_push(pre, cs@[i as int]);
            }
            if whole < UNIT {
                whole = whole * 10 + (cs[i] as u32 - '0' as u32) as u128;
            }
            i = i + 1;
        }
        let n = i - start;
        proof {
            lemma_leading_digits(b, n as nat);
        }
        let ghost wd = b.take(n as int);
        if i == len {
            assert(b.skip(n as int).len() == 0);
            if n == 0 || whole >= UNIT {
                return None;
            }
            assert(whole * UNIT < PARSE_LIMIT) by (nonlinear_arith)
                requires
                    whole < UNIT,
            ;
            return Some(Decimal { negative, units: whole * UNIT });
        }
        assert(b.skip(n as int)[0] == cs@[i as int]);
        if cs[i] != '.' {
            return None;
        }
        i = i + 1;
        let fstart = i;
        let ghost fr = cs@.skip(fstart as int);
        assert(fr == b.skip(n as int).drop_first());
        let mut frac: u128 = 0;
        while i < len
            invariant
                fstart <= i <= len == cs@.len(),
                fr == cs@.skip(fstart as int),
                b == unsigned_part(cs@),
                leading_digits(b) == n,
                fr == b.skip(n as int).drop_first(),
                b.skip(n as int)[0] == '.',
                b.skip(n as int).len() > 0,
                all_digits(fr.take(i - fstart)),
                i - fstart <= 18 ==> frac == digits_value(fr.take(i - fstart)),
                i - fstart <= 18 ==> frac < pow10((i - fstart) as nat),
            decreases len - i,
        {
            if !('0' <= cs[i] && cs[i] <= '9') {
                assert(!all_digits(fr)) by {
                    assert(fr[i - fstart] == cs@[i as int]);
                    assert(!is_digit(fr[i - fstart]));
                }
                assert(decimal_of(cs@) is None);
                return None;
            }
            let ghost pre = fr.take(i - fstart);
            proof {
                assert(fr.take(i - fstart + 1) == pre.push(cs@[i as int]));
                lemma_digits_push(pre, cs@[i as int]);
                lemma_digits_bound(fr.take(i - fstart + 1));
            }
            if i - fstart < 18 {
                proof {
                    lemma_pow10_monotone((i - fstart) as nat, 17);
                    reveal_with_fuel(pow10, 18);
                }
                frac = frac * 10 + (cs[i] as u32 - '0' as u32) as u128;
            }
            i = i + 1;
        }
        let k = i - fstart;
        assert(fr.take(k as int) == fr);
        if n + k == 0 || whole >= UNIT || k > 18 {
            return None;
        }
        let p = power_of_ten((18 - k) as u32);
        proof {
            lemma_pow10_add(k as nat, (18 - k) as nat);
            lemma_unit();
            assert(frac * p < UNIT) by (nonlinear_arith)
                requires
                    frac < pow10(k as nat),
                    pow10(k as nat) * p == UNIT,
            ;
            assert(whole * UNIT + frac * p < PARSE_LIMIT) by (nonlinear_arith)
                requires
                    whole < UNIT,
                    frac * p < UNIT,
            ;
        }
        Some(Decimal { negative, units: whole * UNIT + frac * p })
    }
}

impl Level {
    /// Reads a reported level (see `level_of` for what is accepted).
    pub fn parse(s: &str) -> (r: Option<Level>)
        ensures
            r == level_of(s@),
            r matches Some(Level::Finite(d)) ==> d.units < PARSE_LIMIT,
    {
        let cs = chars_of(s);
        let mut start: usize = 0;
        let mut negative = false;
        if cs.len() > 0 && (cs[0] == '-' || cs[0] == '+') {
            negative = cs[0] == '-';
            start = 1;
        }
        assert(cs@.skip(start as int) == unsigned_part(s@));
        if rest_is(&cs, start, "inf") || rest_is(&cs, start, "infinity") {
            Some(Level::Infinite { negative })
        } else if rest_is(&cs, start, "nan") {
            Some(Level::NotANumber)
        } else {
            match Decimal::parse_from(&cs) {
                Some(d) => Some(Level::Finite(d)),
                None => None,
            }
        }
    }
}

} // verus!
