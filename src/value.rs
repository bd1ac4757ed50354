use vstd::prelude::*;
use vstd::string::*;

verus! {

/// How a token is turned into a typed value.
#[derive(Clone, Copy, Debug, PartialEq, Eq, Structural)]
pub enum ValueKind {
    /// Any token is taken verbatim.
    Text,
    /// A decimal integer within `min ..= max`; a leading `-` is allowed only when `min < 0`.
    Integer { min: i128, max: i128 },
}

/// Bound on the magnitude of integer ranges that a `ValueKind` may describe.
pub const RANGE_LIMIT: i128 = 0x1_0000_0000_0000_0000_0000_0000;

pub open spec fn kind_ok(kind: ValueKind) -> bool {
    match kind {
        ValueKind::Text => true,
        ValueKind::Integer { min, max } => -RANGE_LIMIT <= min <= 0 <= max <= RANGE_LIMIT,
    }
}

pub open spec fn is_digit(c: char) -> bool {
    '0' <= c && c <= '9'
}

pub open spec fn digit_value(c: char) -> int {
    (c as int) - ('0' as int)
}

/// A non-empty run of decimal digits.
pub open spec fn all_digits(s: Seq<char>) -> bool {
    s.len() > 0 && forall|i: int| 0 <= i < s.len() ==> is_digit(#[trigger] s[i])
}

/// The number that a run of decimal digits denotes.
pub open spec fn digits_value(s: Seq<char>) -> int
    decreases s.len(),
{
    if s.len() == 0 {
        0
    } else {
        digits_value(s.drop_last()) * 10 + digit_value(s.last())
    }
}

/// A decimal integer: an optional `+` (or `-` when `signed`) followed by at least one digit.
pub open spec fn integer_of(s: Seq<char>, signed: bool) -> Option<int> {
    if s.len() > 0 && s[0] == '+' {
        if all_digits(s.drop_first()) {
            Some(digits_value(s.drop_first()))
        } else {
            None
        }
    } else if s.len() > 0 && s[0] == '-' {
        if signed && all_digits(s.drop_first()) {
            Some(-digits_value(s.drop_first()))
        } else {
            None
        }
    } else if all_digits(s) {
        Some(digits_value(s))
    } else {
        None
    }
}

/// The integer that `s` denotes, if it lies within `min ..= max`.
pub open spec fn integer_in_range(s: Seq<char>, min: int, max: int) -> Option<int> {
    match integer_of(s, min < 0) {
        Some(v) => if min <= v <= max {
            Some(v)
        } else {
            None
        },
        None => None,
    }
}

/// Whether a token converts under `kind`.
pub open spec fn accepts(kind: ValueKind, s: Seq<char>) -> bool {
    match kind {
        ValueKind::Text => true,
        ValueKind::Integer { min, max } => integer_in_range(s, min as int, max as int).is_some(),
    }
}

proof fn lemma_digits_prefix(s: Seq<char>, k: int)
    requires
        0 <= k <= s.len(),
        forall|i: int| 0 <= i < s.len() ==> is_digit(#[trigger] s[i]),
    ensures
        digits_value(s.take(k)) <= digits_value(s),
        0 <= digits_value(s.take(k)),
    decreases s.len(),
{
    if s.len() == 0 {
        assert(s.take(k) =~= s);
    } else if k == s.len() {
        assert(s.take(k) =~= s);
        lemma_digits_nonneg(s);
    } else {
        let t = s.drop_last();
        assert(t.take(k) =~= s.take(k));
        lemma_digits_prefix(t, k);
        assert(is_digit(s[s.len() - 1]));
    }
}

proof fn lemma_digits_nonneg(s: Seq<char>)
    requires
        forall|i: int| 0 <= i < s.len() ==> is_digit(#[trigger] s[i]),
    ensures
        0 <= digits_value(s),
    decreases s.len(),
{
    if s.len() > 0 {
        lemma_digits_nonneg(s.drop_last());
        assert(is_digit(s[s.len() - 1]));
    }
}

/// Reads the integer that `s` denotes, if it lies within `min ..= max`.
pub fn parse_integer(s: &str, min: i128, max: i128) -> (r: Option<i128>)
    requires
        -RANGE_LIMIT <= min <= 0 <= max <= RANGE_LIMIT,
    ensures
        match r {
            Some(v) => integer_in_range(s@, min as int, max as int) == Some(v as int),
            None => integer_in_range(s@, min as int, max as int).is_none(),
        },
{
    let n = s.unicode_len();
    let mut start: usize = 0;
    let mut negative = false;
    if n > 0 {
        let c = s.get_char(0);
        if c == '+' {
            start = 1;
        } else if c == '-' {
            if min < 0 {
                start = 1;
                negative = true;
            } else {
                return None;
            }
        }
    }
    if start == n {
        return None;
    }
    let ghost digits = s@.subrange(start as int, n as int);
    proof {
        if start == 1 {
            assert(digits =~= s@.drop_first());
        } else {
            assert(digits =~= s@);
        }
    }
    let bound: i128 = if negative { -min } else { max };
    let mut acc: i128 = 0;
    let mut j: usize = start;
    while j < n
        invariant
            start <= j <= n,
            start <= 1,
            n == s@.len(),
            start < n,
            digits == s@.subrange(start as int, n as int),
            0 <= bound <= RANGE_LIMIT,
            forall|i: int| start <= i < j ==> is_digit(#[trigger] s@[i]),
            acc as int == digits_value(digits.take(j - start)),
            0 <= acc <= bound,
            bound as int == (if negative { -(min as int) } else { max as int }),
            negative ==> min < 0,
            start == 0 ==> !negative && s@[0] != '+' && s@[0] != '-' && digits == s@,
            start == 1 ==> digits == s@.drop_first() && (if negative { s@[0] == '-' } else { s@[0] == '+' }),
        decreases n - j,
    {
        let c = s.get_char(j);
        if !('0' <= c && c <= '9') {
            proof {
                assert(digits[j - start] == c);
                if start == 0 {
                    assert(!all_digits(s@));
                } else {
                    assert(!all_digits(s@.drop_first()));
                }
            }
            return None;
        }
        let d = (c as u32 - '0' as u32) as i128;
        proof {
            let t = digits.take(j + 1 - start);
            assert(t.drop_last() =~= digits.take(j - start));
            assert(t.last() == c);
        }
        acc = acc * 10 + d;
        j = j + 1;
        if acc > bound {
            proof {
                if all_digits(digits) {
                    lemma_digits_prefix(digits, j - start);
                }
            }
            return None;
        }
    }
    proof {
        assert(digits.take(n - start) =~= digits);
        assert forall|i: int| 0 <= i < digits.len() implies is_digit(#[trigger] digits[i]) by {
            assert(digits[i] == s@[start + i]);
        }
    }
    if negative {
        Some(-acc)
    } else {
        Some(acc)
    }
}

/// Whether `s` converts under `kind`.
pub fn token_converts(kind: ValueKind, s: &str) -> (r: bool)
    requires
        kind_ok(kind),
    ensures
        r == accepts(kind, s@),
{
    match kind {
        ValueKind::Text => true,
        ValueKind::Integer { min, max } => parse_integer(s, min, max).is_some(),
    }
}

/// What a held token, if any, converts to as a `T`.
pub open spec fn converted<T: ArgValue>(tok: Option<Seq<char>>) -> Option<T::V> {
    match tok {
        Some(t) => T::spec_from_token(t),
        None => None,
    }
}

/// A type that an argument's token converts to.
pub trait ArgValue: Sized + View {
    /// The conversion that this type uses.
    spec fn spec_kind() -> ValueKind;

    /// What a token converts to, viewed.
    spec fn spec_from_token(s: Seq<char>) -> Option<Self::V>;

    fn kind() -> (k: ValueKind)
        ensures
            k == Self::spec_kind(),
            kind_ok(k),
    ;

    fn from_token(s: &str) -> (r: Option<Self>)
        ensures
            match r {
                Some(v) => Self::spec_from_token(s@) == Some(v@),
                None => Self::spec_from_token(s@).is_none(),
            },
    ;

    /// A token converts exactly when the type's kind accepts it.
    proof fn lemma_kind_accepts(s: Seq<char>)
        ensures
            Self::spec_from_token(s).is_some() == accepts(Self::spec_kind(), s),
    ;
}

impl ArgValue for String {
    open spec fn spec_kind() -> ValueKind {
        ValueKind::Text
    }

    open spec fn spec_from_token(s: Seq<char>) -> Option<Seq<char>> {
        Some(s)
    }

    fn kind() -> (k: ValueKind) {
        ValueKind::Text
    }

    fn from_token(s: &str) -> (r: Option<String>) {
        Some(s.to_owned())
    }

    proof fn lemma_kind_accepts(s: Seq<char>) {
    }
}

impl ArgValue for i32 {
    open spec fn spec_kind() -> ValueKind {
        ValueKind::Integer { min: -0x8000_0000i128, max: 0x7fff_ffff }
    }

    open spec fn spec_from_token(s: Seq<char>) -> Option<i32> {
        match integer_in_range(s, -0x8000_0000, 0x7fff_ffff) {
            Some(v) => Some(v as i32),
            None => None,
        }
    }

    fn kind() -> (k: ValueKind) {
        ValueKind::Integer { min: -0x8000_0000i128, max: 0x7fff_ffff }
    }

    fn from_token(s: &str) -> (r: Option<i32>) {
        match parse_integer(s, -0x8000_0000, 0x7fff_ffff) {
            Some(v) => Some(v as i32),
            None => None,
        }
    }

    proof fn lemma_kind_accepts(s: Seq<char>) {
    }
}

impl ArgValue for i64 {
    open spec fn spec_kind() -> ValueKind {
        ValueKind::Integer { min: -0x8000_0000_0000_0000i128, max: 0x7fff_ffff_ffff_ffff }
    }

    open spec fn spec_from_token(s: Seq<char>) -> Option<i64> {
        match integer_in_range(s, -0x8000_0000_0000_0000, 0x7fff_ffff_ffff_ffff) {
            Some(v) => Some(v as i64),
            None => None,
        }
    }

    fn kind() -> (k: ValueKind) {
        ValueKind::Integer { min: -0x8000_0000_0000_0000i128, max: 0x7fff_ffff_ffff_ffff }
    }

    fn from_token(s: &str) -> (r: Option<i64>) {
        match parse_integer(s, -0x8000_0000_0000_0000, 0x7fff_ffff_ffff_ffff) {
            Some(v) => Some(v as i64),
            None => None,
        }
    }

    proof fn lemma_kind_accepts(s: Seq<char>) {
    }
}

impl ArgValue for u32 {
    open spec fn spec_kind() -> ValueKind {
        ValueKind::Integer { min: 0, max: 0xffff_ffff }
    }

    open spec fn spec_from_token(s: Seq<char>) -> Option<u32> {
        match integer_in_range(s, 0, 0xffff_ffff) {
            Some(v) => Some(v as u32),
            None => None,
        }
    }

    fn kind() -> (k: ValueKind) {
        ValueKind::Integer { min: 0, max: 0xffff_ffff }
    }

    fn from_token(s: &str) -> (r: Option<u32>) {
        match parse_integer(s, 0, 0xffff_ffff) {
            Some(v) => Some(v as u32),
            None => None,
        }
    }

    proof fn lemma_kind_accepts(s: Seq<char>) {
    }
}

impl ArgValue for u64 {
    open spec fn spec_kind() -> ValueKind {
        ValueKind::Integer { min: 0, max: 0xffff_ffff_ffff_ffff }
    }

    open spec fn spec_from_token(s: Seq<char>) -> Option<u64> {
        match integer_in_range(s, 0, 0xffff_ffff_ffff_ffff) {
            Some(v) => Some(v as u64),
            None => None,
        }
    }

    fn kind() -> (k: ValueKind) {
        ValueKind::Integer { min: 0, max: 0xffff_ffff_ffff_ffff }
    }

    fn from_token(s: &str) -> (r: Option<u64>) {
        match parse_integer(s, 0, 0xffff_ffff_ffff_ffff) {
            Some(v) => Some(v as u64),
            None => None,
        }
    }

    proof fn lemma_kind_accepts(s: Seq<char>) {
    }
}

impl ArgValue for usize {
    open spec fn spec_kind() -> ValueKind {
        ValueKind::Integer { min: 0, max: usize::MAX as i128 }
    }

    open spec fn spec_from_token(s: Seq<char>) -> Option<usize> {
        match integer_in_range(s, 0, usize::MAX as int) {
            Some(v) => Some(v as usize),
            None => None,
        }
    }

    fn kind() -> (k: ValueKind) {
        ValueKind::Integer { min: 0, max: usize::MAX as i128 }
    }

    fn from_token(s: &str) -> (r: Option<usize>) {
        match parse_integer(s, 0, usize::MAX as i128) {
            Some(v) => Some(v as usize),
            None => None,
        }
    }

    proof fn lemma_kind_accepts(s: Seq<char>) {
    }
}

} // verus!
