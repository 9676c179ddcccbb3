//! Times and durations in whole nanoseconds, and their decimal text.

use crate::decimal::{
    all_digits, decimal, digits_value, is_digit, lemma_decimal_digits, lemma_decimal_len_bound,
    lemma_padded_decimal, lemma_parse_decimal, padded_decimal, parse_decimal, parse_unsigned,
    pow10, push_decimal, push_padded_decimal,
};
use crate::text::{lemma_position_is, split_once, split_once_at};
use vstd::prelude::*;
use vstd::std_specs::iter::IteratorSpec;
use vstd::string::*;

verus! {

broadcast use vstd::string::group_string_axioms;

/// The number of nanoseconds in a second.
pub const NANOS_PER_SEC: u32 = 1_000_000_000;

/// The number of digits behind the point that a nanosecond count takes.
pub const NANO_DIGITS: usize = 9;

/// A number of seconds, in steps of one nanosecond.
#[derive(Debug, Clone, Copy, PartialEq, Eq, PartialOrd, Ord, Structural)]
pub struct Seconds {
    /// The whole seconds.
    pub secs: u64,
    /// The nanoseconds on top of them, fewer than make a second.
    pub nanos: u32,
}

/// A point in time: the time that has passed since the Unix epoch.
#[derive(Debug, Clone, Copy, PartialEq, Eq, PartialOrd, Ord, Structural)]
pub struct UnixTimeWrap(pub Seconds);

/// What the digits behind the point denote in nanoseconds. Digits beyond
/// the ninth are finer than a nanosecond and are cut off.
pub open spec fn fraction_nanos(frac: Seq<char>) -> nat {
    if frac.len() >= NANO_DIGITS {
        digits_value(frac.take(NANO_DIGITS as int))
    } else {
        digits_value(frac) * pow10((NANO_DIGITS - frac.len()) as nat)
    }
}

impl Seconds {
    /// Whether the nanoseconds are fewer than make a second.
    pub open spec fn wf(&self) -> bool {
        self.nanos < NANOS_PER_SEC
    }

    /// The whole in nanoseconds.
    pub open spec fn as_nanos(&self) -> nat {
        (self.secs * NANOS_PER_SEC + self.nanos) as nat
    }

    /// The decimal text: the seconds, a point, and the nanoseconds in nine digits.
    pub open spec fn text(&self) -> Seq<char> {
        decimal(self.secs as nat) + seq!['.'] + padded_decimal(
            self.nanos as nat,
            NANO_DIGITS as nat,
        )
    }

    /// What a decimal text denotes: an unsigned number of seconds that fits
    /// 64 bits, and behind a point, where there is one, digits only.
    pub open spec fn parse(s: Seq<char>) -> Option<Seconds> {
        match split_once(s, '.') {
            None => match parse_unsigned(s, u64::MAX as nat) {
                Some(n) => Some(Seconds { secs: n as u64, nanos: 0 }),
                None => None,
            },
            Some((whole, frac)) => match parse_unsigned(whole, u64::MAX as nat) {
                Some(n) => if all_digits(frac) {
                    Some(Seconds { secs: n as u64, nanos: fraction_nanos(frac) as u32 })
                } else {
                    None
                },
                None => None,
            },
        }
    }

    /// Whether the nanoseconds are fewer than make a second.
    pub fn is_valid(&self) -> (r: bool)
        ensures
            r == self.wf(),
    {
        self.nanos < NANOS_PER_SEC
    }

    /// The seconds and nanoseconds as given, where the nanoseconds are
    /// fewer than make a second.
    pub fn new(secs: u64, nanos: u32) -> (r: Option<Seconds>)
        ensures
            r == if nanos < NANOS_PER_SEC {
                Some(Seconds { secs, nanos })
            } else {
                None
            },
    {
        if nanos < NANOS_PER_SEC {
            Some(Seconds { secs, nanos })
        } else {
            None
        }
    }

    /// The decimal text.
    pub fn to_string(&self) -> (r: String)
        ensures
            r@ == self.text(),
    {
        proof {
            reveal_strlit(".");
        }
        let mut out = String::new();
        push_decimal(&mut out, self.secs);
        out.append(".");
        push_padded_decimal(&mut out, self.nanos as u64, NANO_DIGITS);
        proof {
            assert(out@ =~= self.text());
        }
        out
    }

    /// Reads a decimal text.
    pub fn from_str(s: &str) -> (r: Option<Seconds>)
        ensures
            r == Self::parse(s@),
            r matches Some(x) ==> x.wf(),
    {
        match split_once_at(s, '.') {
            None => match parse_decimal(s, u64::MAX) {
                Some(secs) => Some(Seconds { secs, nanos: 0 }),
                None => None,
            },
            Some((whole, frac)) => match parse_decimal(whole, u64::MAX) {
                Some(secs) => match parse_fraction(frac) {
                    Some(nanos) => Some(Seconds { secs, nanos }),
                    None => None,
                },
                None => None,
            },
        }
    }

    /// The time from `earlier` to `self`, if `earlier` is not the later one.
    pub fn since(&self, earlier: &Seconds) -> (r: Option<Seconds>)
        requires
            self.wf(),
            earlier.wf(),
        ensures
            match r {
                Some(d) => d.wf() && d.as_nanos() == self.as_nanos() - earlier.as_nanos(),
                None => self.as_nanos() < earlier.as_nanos(),
            },
    {
        if self.secs < earlier.secs || (self.secs == earlier.secs && self.nanos < earlier.nanos) {
            proof {
                assert(self.as_nanos() < earlier.as_nanos()) by (nonlinear_arith)
                    requires
                        self.secs < earlier.secs || (self.secs == earlier.secs && self.nanos
                            < earlier.nanos),
                        self.nanos < NANOS_PER_SEC,
                        earlier.nanos < NANOS_PER_SEC,
                        self.as_nanos() == self.secs * NANOS_PER_SEC + self.nanos,
                        earlier.as_nanos() == earlier.secs * NANOS_PER_SEC + earlier.nanos,
                ;
            }
            None
        } else if self.nanos >= earlier.nanos {
            let d = Seconds { secs: self.secs - earlier.secs, nanos: self.nanos - earlier.nanos };
            proof {
                assert(d.as_nanos() == self.as_nanos() - earlier.as_nanos()) by (nonlinear_arith)
                    requires
                        d.secs == self.secs - earlier.secs,
                        d.nanos == self.nanos - earlier.nanos,
                        d.as_nanos() == d.secs * NANOS_PER_SEC + d.nanos,
                        self.as_nanos() == self.secs * NANOS_PER_SEC + self.nanos,
                        earlier.as_nanos() == earlier.secs * NANOS_PER_SEC + earlier.nanos,
                ;
            }
            Some(d)
        } else {
            let d = Seconds {
                secs: self.secs - earlier.secs - 1,
                nanos: self.nanos + (NANOS_PER_SEC - earlier.nanos),
            };
            proof {
                assert(d.as_nanos() == self.as_nanos() - earlier.as_nanos()) by (nonlinear_arith)
                    requires
                        d.secs == self.secs - earlier.secs - 1,
                        d.nanos == self.nanos + NANOS_PER_SEC - earlier.nanos,
                        d.as_nanos() == d.secs * NANOS_PER_SEC + d.nanos,
                        self.as_nanos() == self.secs * NANOS_PER_SEC + self.nanos,
                        earlier.as_nanos() == earlier.secs * NANOS_PER_SEC + earlier.nanos,
                ;
            }
            Some(d)
        }
    }
}

/// The first `taken` digits of a fraction, scaled to nanoseconds.
fn scale_fraction(acc: u32, taken: u32) -> (r: u32)
    requires
        taken <= NANO_DIGITS,
        acc < pow10(taken as nat),
    ensures
        r == acc * pow10((NANO_DIGITS - taken) as nat),
        r < NANOS_PER_SEC,
{
    let mut scaled = acc;
    let mut k = taken;
    proof {
        assert(pow10(0) == 1);
        assert(acc * 1 == acc);
    }
    while k < NANO_DIGITS as u32
        invariant
            taken <= k <= NANO_DIGITS,
            scaled == acc * pow10((k - taken) as nat),
            scaled < pow10(k as nat),
        decreases NANO_DIGITS - k,
    {
        proof {
            lemma_pow10_values();
            lemma_pow10_step(k as nat);
            lemma_pow10_step((k - taken) as nat);
            lemma_pow10_monotonic((k + 1) as nat, NANO_DIGITS as nat);
            assert(acc * (10 * pow10((k - taken) as nat)) == (acc * pow10((k - taken) as nat))
                * 10) by (nonlinear_arith);
        }
        scaled = scaled * 10;
        k = k + 1;
    }
    proof {
        lemma_pow10_values();
    }
    scaled
}

/// The next power of ten is ten times the power.
proof fn lemma_pow10_step(k: nat)
    ensures
        pow10(k + 1) == 10 * pow10(k),
{
    reveal_with_fuel(pow10, 2);
}

/// Powers of ten grow with the exponent.
proof fn lemma_pow10_monotonic(a: nat, b: nat)
    requires
        a <= b,
    ensures
        pow10(a) <= pow10(b),
        pow10(a) >= 1,
    decreases b,
{
    if a == 0 && b == 0 {
    } else if a < b {
        lemma_pow10_monotonic(a, (b - 1) as nat);
    } else {
        lemma_pow10_monotonic((a - 1) as nat, (b - 1) as nat);
    }
}

/// The ninth power of ten is the number of nanoseconds in a second.
proof fn lemma_pow10_values()
    ensures
        pow10(NANO_DIGITS as nat) == NANOS_PER_SEC,
{
    reveal_with_fuel(pow10, 10);
}

/// Reads the digits behind the point.
fn parse_fraction(frac: &str) -> (r: Option<u32>)
    ensures
        match r {
            Some(nanos) => all_digits(frac@) && nanos == fraction_nanos(frac@) && nanos
                < NANOS_PER_SEC,
            None => !all_digits(frac@),
        },
{
    let mut it = frac.chars();
    let mut acc: u32 = 0;
    let mut taken: u32 = 0;
    let ghost mut i: int = 0;
    proof {
        assert(frac@.take(0) =~= Seq::<char>::empty());
    }
    loop
        invariant
            0 <= i <= frac@.len(),
            it.remaining() == frac@.subrange(i, frac@.len() as int),
            all_digits(frac@.take(i)),
            taken == if i < NANO_DIGITS {
                i
            } else {
                NANO_DIGITS as int
            },
            acc == digits_value(frac@.take(taken as int)),
            acc < pow10(taken as nat),
        decreases frac@.len() - i,
    {
        match it.next() {
            None => {
                let nanos = scale_fraction(acc, taken);
                proof {
                    assert(frac@.take(i) =~= frac@);
                    if frac@.len() >= NANO_DIGITS {
                        assert(pow10(0) == 1);
                        assert(acc * 1 == acc);
                    } else {
                        assert(frac@.take(taken as int) =~= frac@);
                    }
                }
                return Some(nanos);
            },
            Some(c) => {
                assert(c == frac@[i]);
                if !(c >= '0' && c <= '9') {
                    assert(!is_digit(frac@[i]));
                    return None;
                }
                proof {
                    assert(frac@.take(i + 1).drop_last() =~= frac@.take(i));
                    assert(frac@.subrange(i, frac@.len() as int).drop_first() =~= frac@.subrange(
                        i + 1,
                        frac@.len() as int,
                    ));
                    assert forall|j: int| 0 <= j < frac@.take(i + 1).len() implies is_digit(
                        #[trigger] frac@.take(i + 1)[j],
                    ) by {
                        if j < i {
                            assert(frac@.take(i)[j] == frac@.take(i + 1)[j]);
                        }
                    }
                }
                if taken < NANO_DIGITS as u32 {
                    proof {
                        lemma_pow10_values();
                        lemma_pow10_step(taken as nat);
                        lemma_pow10_monotonic((taken + 1) as nat, NANO_DIGITS as nat);
                    }
                    acc = acc * 10 + (c as u32 - '0' as u32);
                    taken = taken + 1;
                }
                proof {
                    i = i + 1;
                }
            },
        }
    }
}

/// Reading the text of a number of seconds gives the number back.
pub proof fn lemma_seconds_round_trip(x: Seconds)
    requires
        x.wf(),
    ensures
        Seconds::parse(x.text()) == Some(x),
{
    let whole = decimal(x.secs as nat);
    let frac = padded_decimal(x.nanos as nat, NANO_DIGITS as nat);
    let text = x.text();
    lemma_decimal_digits(x.secs as nat);
    lemma_padded_decimal(x.nanos as nat, NANO_DIGITS as nat);
    lemma_pow10_values();
    lemma_decimal_len_bound(x.nanos as nat, NANO_DIGITS as nat);
    assert(frac.len() == NANO_DIGITS);
    assert(text[whole.len() as int] == '.');
    assert forall|j: int| 0 <= j < whole.len() implies text[j] != '.' by {
        assert(text[j] == whole[j]);
        assert(is_digit(whole[j]));
    }
    lemma_position_is(text, '.', whole.len() as int);
    assert(text.subrange(0, whole.len() as int) =~= whole);
    assert(text.subrange(whole.len() as int + 1, text.len() as int) =~= frac);
    lemma_parse_decimal(x.secs as nat, u64::MAX as nat);
    assert(frac.take(NANO_DIGITS as int) =~= frac);
}

impl UnixTimeWrap {
    /// The decimal text of the seconds since the epoch.
    pub fn to_string(&self) -> (r: String)
        ensures
            r@ == self.0.text(),
    {
        self.0.to_string()
    }

    /// Reads the decimal text of the seconds since the epoch.
    pub fn from_str(s: &str) -> (r: Option<UnixTimeWrap>)
        ensures
            r == match Seconds::parse(s@) {
                Some(x) => Some(UnixTimeWrap(x)),
                None => None,
            },
            r matches Some(t) ==> t.0.wf(),
    {
        match Seconds::from_str(s) {
            Some(x) => Some(UnixTimeWrap(x)),
            None => None,
        }
    }
}

} // verus!
