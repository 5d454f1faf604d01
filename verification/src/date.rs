//! Calendar dates for the simulation.
//!
//! A `Date` is a plain year/month/day triple in the proleptic Gregorian
//! calendar, restricted to the years 1 through 9999 so that the ten-character
//! ISO-8601 rendering is always well defined and ordered like the dates
//! themselves.

use vstd::prelude::*;

verus! {

/// A calendar day, compared lexicographically by (year, month, day).
#[derive(Clone, Copy, PartialEq, Eq, Structural, Debug)]
pub struct Date {
    pub year: u32,
    pub month: u32,
    pub day: u32,
}

pub open spec fn spec_is_leap_year(year: int) -> bool {
    year % 4 == 0 && (year % 100 != 0 || year % 400 == 0)
}

pub open spec fn spec_days_in_month(year: int, month: int) -> int {
    if month == 2 {
        if spec_is_leap_year(year) {
            29
        } else {
            28
        }
    } else if month == 4 || month == 6 || month == 9 || month == 11 {
        30
    } else {
        31
    }
}

impl Date {
    /// A well-formed date: in-range year and a day that exists in its month.
    pub open spec fn valid(self) -> bool {
        &&& 1 <= self.year <= 9999
        &&& 1 <= self.month <= 12
        &&& 1 <= self.day <= spec_days_in_month(self.year as int, self.month as int)
    }

    /// Numeric encoding that orders valid dates chronologically.
    pub open spec fn ymd_num(self) -> int {
        self.year * 10000 + self.month * 100 + self.day
    }

    pub open spec fn spec_le(self, other: Date) -> bool {
        ||| self.year < other.year
        ||| (self.year == other.year && self.month < other.month)
        ||| (self.year == other.year && self.month == other.month && self.day <= other.day)
    }

    pub open spec fn spec_lt(self, other: Date) -> bool {
        self.spec_le(other) && self != other
    }

    pub open spec fn is_min(self) -> bool {
        self.year == 1 && self.month == 1 && self.day == 1
    }

    pub open spec fn is_max(self) -> bool {
        self.year == 9999 && self.month == 12 && self.day == 31
    }

    /// The calendar day immediately before `self` (meaningful for valid,
    /// non-minimal dates).
    pub open spec fn spec_prev(self) -> Date {
        if self.day > 1 {
            Date { year: self.year, month: self.month, day: (self.day - 1) as u32 }
        } else if self.month > 1 {
            Date {
                year: self.year,
                month: (self.month - 1) as u32,
                day: spec_days_in_month(self.year as int, self.month as int - 1) as u32,
            }
        } else {
            Date { year: (self.year - 1) as u32, month: 12, day: 31 }
        }
    }

    /// The calendar day immediately after `self` (meaningful for valid,
    /// non-maximal dates).
    pub open spec fn spec_next(self) -> Date {
        if self.day < spec_days_in_month(self.year as int, self.month as int) {
            Date { year: self.year, month: self.month, day: (self.day + 1) as u32 }
        } else if self.month < 12 {
            Date { year: self.year, month: (self.month + 1) as u32, day: 1 }
        } else {
            Date { year: (self.year + 1) as u32, month: 1, day: 1 }
        }
    }

    /// `self` moved `n` days into the past, or `None` if that walks off the
    /// front of the supported calendar.
    pub open spec fn spec_sub_days(self, n: nat) -> Option<Date>
        decreases n,
    {
        if n == 0 {
            Some(self)
        } else if self.is_min() {
            None
        } else {
            self.spec_prev().spec_sub_days((n - 1) as nat)
        }
    }

    pub fn from_ymd(year: u32, month: u32, day: u32) -> (r: Date)
        requires
            (Date { year, month, day }).valid(),
        ensures
            r == (Date { year, month, day }),
            r.valid(),
    {
        Date { year, month, day }
    }

    pub fn le(&self, other: &Date) -> (r: bool)
        ensures
            r == self.spec_le(*other),
    {
        if self.year != other.year {
            self.year < other.year
        } else if self.month != other.month {
            self.month < other.month
        } else {
            self.day <= other.day
        }
    }

    pub fn lt(&self, other: &Date) -> (r: bool)
        ensures
            r == self.spec_lt(*other),
    {
        if self.year != other.year {
            self.year < other.year
        } else if self.month != other.month {
            self.month < other.month
        } else {
            self.day < other.day
        }
    }

    pub fn next_day(&self) -> (r: Option<Date>)
        requires
            self.valid(),
        ensures
            r == if self.is_max() {
                None::<Date>
            } else {
                Some(self.spec_next())
            },
            r matches Some(d) ==> d.valid() && self.spec_lt(d),
    {
        let dim = days_in_month(self.year, self.month);
        if self.day < dim {
            Some(Date { year: self.year, month: self.month, day: self.day + 1 })
        } else if self.month < 12 {
            Some(Date { year: self.year, month: self.month + 1, day: 1 })
        } else if self.year < 9999 {
            Some(Date { year: self.year + 1, month: 1, day: 1 })
        } else {
            None
        }
    }

    pub fn prev_day(&self) -> (r: Option<Date>)
        requires
            self.valid(),
        ensures
            r == if self.is_min() {
                None::<Date>
            } else {
                Some(self.spec_prev())
            },
            r matches Some(d) ==> d.valid() && d.spec_lt(*self),
    {
        if self.day > 1 {
            Some(Date { year: self.year, month: self.month, day: self.day - 1 })
        } else if self.month > 1 {
            Some(Date { year: self.year, month: self.month - 1, day: days_in_month(self.year, self.month - 1) })
        } else if self.year > 1 {
            Some(Date { year: self.year - 1, month: 12, day: 31 })
        } else {
            None
        }
    }

    /// Walks `n` days into the past, mirroring `spec_sub_days`.
    pub fn sub_days(&self, n: u32) -> (r: Option<Date>)
        requires
            self.valid(),
        ensures
            r == self.spec_sub_days(n as nat),
            r matches Some(d) ==> d.valid(),
    {
        let mut cur: Date = *self;
        let mut i: u32 = 0;
        while i < n
            invariant
                cur.valid(),
                i <= n,
                self.spec_sub_days(n as nat) == cur.spec_sub_days((n - i) as nat),
            decreases n - i,
        {
            match cur.prev_day() {
                Some(d) => {
                    cur = d;
                    i = i + 1;
                }
                None => {
                    assert(cur.is_min());
                    return None;
                }
            }
        }
        Some(cur)
    }
}

pub fn is_leap_year(year: u32) -> (r: bool)
    ensures
        r == spec_is_leap_year(year as int),
{
    year % 4 == 0 && (year % 100 != 0 || year % 400 == 0)
}

pub fn days_in_month(year: u32, month: u32) -> (r: u32)
    ensures
        r == spec_days_in_month(year as int, month as int),
{
    if month == 2 {
        if is_leap_year(year) {
            29
        } else {
            28
        }
    } else if month == 4 || month == 6 || month == 9 || month == 11 {
        30
    } else {
        31
    }
}

/// The decimal digit `d` as a character.
pub open spec fn digit_char(d: int) -> char {
    if d == 0 {
        '0'
    } else if d == 1 {
        '1'
    } else if d == 2 {
        '2'
    } else if d == 3 {
        '3'
    } else if d == 4 {
        '4'
    } else if d == 5 {
        '5'
    } else if d == 6 {
        '6'
    } else if d == 7 {
        '7'
    } else if d == 8 {
        '8'
    } else {
        '9'
    }
}

fn digit_str(d: u32) -> (r: &'static str)
    requires
        d < 10,
    ensures
        r@ == seq![digit_char(d as int)],
{
    proof {
        reveal_strlit("0");
        reveal_strlit("1");
        reveal_strlit("2");
        reveal_strlit("3");
        reveal_strlit("4");
        reveal_strlit("5");
        reveal_strlit("6");
        reveal_strlit("7");
        reveal_strlit("8");
        reveal_strlit("9");
    }
    let r = match d {
        0 => "0",
        1 => "1",
        2 => "2",
        3 => "3",
        4 => "4",
        5 => "5",
        6 => "6",
        7 => "7",
        8 => "8",
        _ => "9",
    };
    proof {
        assert(r@ =~= seq![digit_char(d as int)]);
    }
    r
}

impl Date {
    /// The ten-character ISO-8601 rendering of the date.
    pub open spec fn spec_iso(self) -> Seq<char> {
        seq![
            digit_char(self.year as int / 1000),
            digit_char(self.year as int / 100 % 10),
            digit_char(self.year as int / 10 % 10),
            digit_char(self.year as int % 10),
            '-',
            digit_char(self.month as int / 10),
            digit_char(self.month as int % 10),
            '-',
            digit_char(self.day as int / 10),
            digit_char(self.day as int % 10),
        ]
    }

    /// Renders the date as `YYYY-MM-DD`, exactly as `spec_iso` states it.
    pub fn to_iso_string(&self) -> (r: String)
        requires
            self.valid(),
        ensures
            r@ == self.spec_iso(),
    {
        let mut s = String::new();
        s.append(digit_str(self.year / 1000));
        s.append(digit_str(self.year / 100 % 10));
        s.append(digit_str(self.year / 10 % 10));
        s.append(digit_str(self.year % 10));
        s.append("-");
        s.append(digit_str(self.month / 10));
        s.append(digit_str(self.month % 10));
        s.append("-");
        s.append(digit_str(self.day / 10));
        s.append(digit_str(self.day % 10));
        proof {
            reveal_strlit("-");
            assert(s@ =~= self.spec_iso());
        }
        s
    }
}

/// Strict lexicographic order on character sequences, by code point.
pub open spec fn lex_lt(a: Seq<char>, b: Seq<char>) -> bool
    decreases a.len(),
{
    if b.len() == 0 {
        false
    } else if a.len() == 0 {
        true
    } else if a[0] != b[0] {
        (a[0] as int) < (b[0] as int)
    } else {
        lex_lt(a.drop_first(), b.drop_first())
    }
}

proof fn lemma_digit_code(a: int)
    requires
        0 <= a <= 9,
    ensures
        digit_char(a) as int == 48 + a,
{
}

/// Two-digit zero-padded decimals compare like their values.
proof fn lemma_lex_digits2(x: int, y: int)
    requires
        0 <= x < y < 100,
    ensures
        lex_lt(
            seq![digit_char(x / 10), digit_char(x % 10)],
            seq![digit_char(y / 10), digit_char(y % 10)],
        ),
{
    let a = seq![digit_char(x / 10), digit_char(x % 10)];
    let b = seq![digit_char(y / 10), digit_char(y % 10)];
    lemma_digit_code(x / 10);
    lemma_digit_code(x % 10);
    lemma_digit_code(y / 10);
    lemma_digit_code(y % 10);
    if x / 10 != y / 10 {
        assert(x / 10 < y / 10);
        assert(a[0] != b[0]);
    } else {
        assert(x % 10 < y % 10);
        assert(a[0] == b[0]);
        assert(a.drop_first() =~= seq![digit_char(x % 10)]);
        assert(b.drop_first() =~= seq![digit_char(y % 10)]);
        assert(lex_lt(a.drop_first(), b.drop_first()));
    }
}

/// Four-digit zero-padded decimals compare like their values.
proof fn lemma_lex_digits4(x: int, y: int)
    requires
        0 <= x < y < 10000,
    ensures
        lex_lt(
            seq![
                digit_char(x / 1000),
                digit_char(x / 100 % 10),
                digit_char(x / 10 % 10),
                digit_char(x % 10),
            ],
            seq![
                digit_char(y / 1000),
                digit_char(y / 100 % 10),
                digit_char(y / 10 % 10),
                digit_char(y % 10),
            ],
        ),
{
    let a = seq![
        digit_char(x / 1000),
        digit_char(x / 100 % 10),
        digit_char(x / 10 % 10),
        digit_char(x % 10),
    ];
    let b = seq![
        digit_char(y / 1000),
        digit_char(y / 100 % 10),
        digit_char(y / 10 % 10),
        digit_char(y % 10),
    ];
    lemma_digit_code(x / 1000);
    lemma_digit_code(x / 100 % 10);
    lemma_digit_code(x / 10 % 10);
    lemma_digit_code(x % 10);
    lemma_digit_code(y / 1000);
    lemma_digit_code(y / 100 % 10);
    lemma_digit_code(y / 10 % 10);
    lemma_digit_code(y % 10);
    assert(x == 1000 * (x / 1000) + 100 * (x / 100 % 10) + 10 * (x / 10 % 10) + x % 10)
        by (nonlinear_arith)
        requires
            0 <= x < 10000,
    ;
    assert(y == 1000 * (y / 1000) + 100 * (y / 100 % 10) + 10 * (y / 10 % 10) + y % 10)
        by (nonlinear_arith)
        requires
            0 <= y < 10000,
    ;
    if x / 1000 != y / 1000 {
        assert(x / 1000 < y / 1000);
        assert((a[0] as int) < (b[0] as int));
        assert(a[0] != b[0]);
        assert(lex_lt(a, b));
    } else if x / 100 % 10 != y / 100 % 10 {
        assert(x / 100 % 10 < y / 100 % 10);
        let a1 = a.drop_first();
        let b1 = b.drop_first();
        assert(a1 =~= seq![digit_char(x / 100 % 10), digit_char(x / 10 % 10), digit_char(x % 10)]);
        assert(b1 =~= seq![digit_char(y / 100 % 10), digit_char(y / 10 % 10), digit_char(y % 10)]);
        assert(a1[0] != b1[0] && (a1[0] as int) < (b1[0] as int));
        assert(lex_lt(a1, b1));
        assert(a[0] == b[0]);
        assert(lex_lt(a, b));
    } else if x / 10 % 10 != y / 10 % 10 {
        assert(x / 10 % 10 < y / 10 % 10);
        let a1 = a.drop_first();
        let b1 = b.drop_first();
        assert(a1 =~= seq![digit_char(x / 100 % 10), digit_char(x / 10 % 10), digit_char(x % 10)]);
        assert(b1 =~= seq![digit_char(y / 100 % 10), digit_char(y / 10 % 10), digit_char(y % 10)]);
        let a2 = a1.drop_first();
        let b2 = b1.drop_first();
        assert(a2 =~= seq![digit_char(x / 10 % 10), digit_char(x % 10)]);
        assert(b2 =~= seq![digit_char(y / 10 % 10), digit_char(y % 10)]);
        assert(a2[0] != b2[0] && (a2[0] as int) < (b2[0] as int));
        assert(lex_lt(a2, b2));
        assert(a1[0] == b1[0]);
        assert(lex_lt(a1, b1));
        assert(a[0] == b[0]);
        assert(lex_lt(a, b));
    } else {
        assert(x % 10 < y % 10);
        let a1 = a.drop_first();
        let b1 = b.drop_first();
        assert(a1 =~= seq![digit_char(x / 100 % 10), digit_char(x / 10 % 10), digit_char(x % 10)]);
        assert(b1 =~= seq![digit_char(y / 100 % 10), digit_char(y / 10 % 10), digit_char(y % 10)]);
        let a2 = a1.drop_first();
        let b2 = b1.drop_first();
        assert(a2 =~= seq![digit_char(x / 10 % 10), digit_char(x % 10)]);
        assert(b2 =~= seq![digit_char(y / 10 % 10), digit_char(y % 10)]);
        let a3 = a2.drop_first();
        let b3 = b2.drop_first();
        assert(a3 =~= seq![digit_char(x % 10)]);
        assert(b3 =~= seq![digit_char(y % 10)]);
        assert(a3[0] != b3[0] && (a3[0] as int) < (b3[0] as int));
        assert(lex_lt(a3, b3));
        assert(a2[0] == b2[0]);
        assert(lex_lt(a2, b2));
        assert(a1[0] == b1[0]);
        assert(lex_lt(a1, b1));
        assert(a[0] == b[0]);
        assert(lex_lt(a, b));
    }
}

/// A shared prefix does not disturb the lexicographic order.
pub proof fn lemma_lex_common_prefix(p: Seq<char>, a: Seq<char>, b: Seq<char>)
    requires
        lex_lt(a, b),
    ensures
        lex_lt(p + a, p + b),
    decreases p.len(),
{
    if p.len() == 0 {
        assert(p + a =~= a);
        assert(p + b =~= b);
    } else {
        lemma_lex_common_prefix(p.drop_first(), a, b);
        assert((p + a)[0] == p[0]);
        assert((p + b)[0] == p[0]);
        assert((p + a).drop_first() =~= p.drop_first() + a);
        assert((p + b).drop_first() =~= p.drop_first() + b);
    }
}

/// An order decided inside two equal-length prefixes survives any suffixes.
proof fn lemma_lex_append_right(a1: Seq<char>, a2: Seq<char>, r1: Seq<char>, r2: Seq<char>)
    requires
        a1.len() == a2.len(),
        lex_lt(a1, a2),
    ensures
        lex_lt(a1 + r1, a2 + r2),
    decreases a1.len(),
{
    if a1.len() == 0 {
        assert(false);
    } else if a1[0] != a2[0] {
        assert((a1 + r1)[0] == a1[0]);
        assert((a2 + r2)[0] == a2[0]);
        assert((a2 + r2).len() > 0);
    } else {
        lemma_lex_append_right(a1.drop_first(), a2.drop_first(), r1, r2);
        assert((a1 + r1)[0] == a1[0]);
        assert((a2 + r2)[0] == a2[0]);
        assert((a1 + r1).drop_first() =~= a1.drop_first() + r1);
        assert((a2 + r2).drop_first() =~= a2.drop_first() + r2);
    }
}

/// The ISO-8601 rendering of valid dates orders exactly like the dates:
/// a store keyed by these strings serves its range queries in date order.
pub proof fn lemma_iso_preserves_order(d1: Date, d2: Date)
    requires
        d1.valid(),
        d2.valid(),
        d1.spec_lt(d2),
    ensures
        lex_lt(d1.spec_iso(), d2.spec_iso()),
{
    let y1 = seq![
        digit_char(d1.year as int / 1000),
        digit_char(d1.year as int / 100 % 10),
        digit_char(d1.year as int / 10 % 10),
        digit_char(d1.year as int % 10),
    ];
    let y2 = seq![
        digit_char(d2.year as int / 1000),
        digit_char(d2.year as int / 100 % 10),
        digit_char(d2.year as int / 10 % 10),
        digit_char(d2.year as int % 10),
    ];
    let m1 = seq![digit_char(d1.month as int / 10), digit_char(d1.month as int % 10)];
    let m2 = seq![digit_char(d2.month as int / 10), digit_char(d2.month as int % 10)];
    let t1 = seq![digit_char(d1.day as int / 10), digit_char(d1.day as int % 10)];
    let t2 = seq![digit_char(d2.day as int / 10), digit_char(d2.day as int % 10)];
    let dash = seq!['-'];
    assert(d1.spec_iso() =~= y1 + (dash + (m1 + (dash + t1))));
    assert(d2.spec_iso() =~= y2 + (dash + (m2 + (dash + t2))));
    if d1.year < d2.year {
        lemma_lex_digits4(d1.year as int, d2.year as int);
        lemma_lex_append_right(y1, y2, dash + (m1 + (dash + t1)), dash + (m2 + (dash + t2)));
    } else if d1.month < d2.month {
        assert(d1.year == d2.year);
        assert(y1 =~= y2);
        lemma_lex_digits2(d1.month as int, d2.month as int);
        lemma_lex_append_right(m1, m2, dash + t1, dash + t2);
        lemma_lex_common_prefix(dash, m1 + (dash + t1), m2 + (dash + t2));
        lemma_lex_common_prefix(y1, dash + (m1 + (dash + t1)), dash + (m2 + (dash + t2)));
    } else {
        assert(d1.year == d2.year && d1.month == d2.month && d1.day < d2.day);
        assert(y1 =~= y2);
        assert(m1 =~= m2);
        lemma_lex_digits2(d1.day as int, d2.day as int);
        assert(t1 + Seq::<char>::empty() =~= t1);
        assert(t2 + Seq::<char>::empty() =~= t2);
        lemma_lex_append_right(t1, t2, Seq::empty(), Seq::empty());
        lemma_lex_common_prefix(dash, t1, t2);
        lemma_lex_common_prefix(m1, dash + t1, dash + t2);
        lemma_lex_common_prefix(dash, m1 + (dash + t1), m2 + (dash + t2));
        lemma_lex_common_prefix(y1, dash + (m1 + (dash + t1)), dash + (m2 + (dash + t2)));
    }
}

/// A valid date strictly below another valid date has the smaller numeric
/// encoding, so `ymd_num` can serve as a loop measure over date ranges.
pub proof fn lemma_lt_ymd_num(a: Date, b: Date)
    requires
        a.valid(),
        b.valid(),
        a.spec_lt(b),
    ensures
        a.ymd_num() < b.ymd_num(),
{
}

/// Stepping to the next day moves strictly forward in the date order.
pub proof fn lemma_next_increases(a: Date)
    requires
        a.valid(),
        !a.is_max(),
    ensures
        a.spec_next().valid(),
        a.spec_lt(a.spec_next()),
{
}

} // verus!
