use crate::error::RegistryError;
use vstd::prelude::*;

verus! {

/// The artifact formats that the registry understands, by compiler major version.
#[derive(Debug, Clone, Copy, PartialEq, Eq, Structural)]
pub enum CairoCompilerVersion {
    Zero,
    Two,
}

/// The format of a compiler major version, or the error for any other number.
pub open spec fn format_of_major(v: int) -> Result<CairoCompilerVersion, RegistryError> {
    if v == 0 {
        Ok(CairoCompilerVersion::Zero)
    } else if v == 2 {
        Ok(CairoCompilerVersion::Two)
    } else {
        Err(RegistryError::UnsupportedCompilerVersion)
    }
}

impl CairoCompilerVersion {
    /// The major version number of the format.
    pub open spec fn major(self) -> int {
        match self {
            CairoCompilerVersion::Zero => 0,
            CairoCompilerVersion::Two => 2,
        }
    }

    /// The format of a compiler major version; other numbers are unsupported.
    pub fn from_major(v: i32) -> (r: Result<CairoCompilerVersion, RegistryError>)
        ensures
            r == format_of_major(v as int),
    {
        if v == 0 {
            Ok(CairoCompilerVersion::Zero)
        } else if v == 2 {
            Ok(CairoCompilerVersion::Two)
        } else {
            Err(RegistryError::UnsupportedCompilerVersion)
        }
    }

    /// The major version number of the format, as stored beside a record.
    pub fn number(&self) -> (r: i32)
        ensures
            r as int == self.major(),
    {
        match self {
            CairoCompilerVersion::Zero => 0,
            CairoCompilerVersion::Two => 2,
        }
    }
}

/// The index of the first '.' in `s` at or after `i`, or the length of `s` where there is none.
pub open spec fn first_dot(s: Seq<char>, i: int) -> int
    decreases s.len() - i,
{
    if i >= s.len() {
        s.len() as int
    } else if s[i] == '.' {
        i
    } else {
        first_dot(s, i + 1)
    }
}

/// The part of a version text before its first '.'.
pub open spec fn leading_component(s: Seq<char>) -> Seq<char> {
    s.subrange(0, first_dot(s, 0))
}

pub open spec fn is_digit(c: char) -> bool {
    '0' <= c && c <= '9'
}

/// Whether every character of `d` is a decimal digit.
pub open spec fn all_digits(d: Seq<char>) -> bool {
    forall|k: int| 0 <= k < d.len() ==> is_digit(#[trigger] d[k])
}

/// The value of a sequence of decimal digits.
pub open spec fn digits_value(d: Seq<char>) -> int
    decreases d.len(),
{
    if d.len() == 0 {
        0
    } else {
        digits_value(d.drop_last()) * 10 + (d.last() as int - '0' as int)
    }
}

/// The `i32` that a text denotes: an optional sign, then one or more decimal digits,
/// with a value in the range of `i32`.
pub open spec fn parsed_i32(s: Seq<char>) -> Option<int> {
    let neg = s.len() > 0 && s[0] == '-';
    let d = if s.len() > 0 && (s[0] == '-' || s[0] == '+') { s.drop_first() } else { s };
    let v = if neg { -digits_value(d) } else { digits_value(d) };
    if d.len() > 0 && all_digits(d) && i32::MIN <= v <= i32::MAX {
        Some(v)
    } else {
        None
    }
}

/// The format that a declared compiler version text names: its leading component must be
/// an integer, and that integer a known major version.
pub open spec fn format_of_text(s: Seq<char>) -> Result<CairoCompilerVersion, RegistryError> {
    match parsed_i32(leading_component(s)) {
        None => Err(RegistryError::MalformedArtifact),
        Some(v) => format_of_major(v),
    }
}

/// The length of the leading component of a version text.
pub fn leading_len(s: &str) -> (r: usize)
    ensures
        r as int == first_dot(s@, 0),
        r <= s@.len(),
{
    let n = s.unicode_len();
    let mut i: usize = 0;
    while i < n && s.get_char(i) != '.'
        invariant
            n == s@.len(),
            i <= n,
            first_dot(s@, 0) == first_dot(s@, i as int),
        decreases n - i,
    {
        i = i + 1;
    }
    i
}

/// The `i32` that the first `len` characters of a text denote (see `parsed_i32`).
pub fn parse_i32_prefix(s: &str, len: usize) -> (r: Option<i32>)
    requires
        len <= s@.len(),
    ensures
        match r {
            Some(v) => parsed_i32(s@.subrange(0, len as int)) == Some(v as int),
            None => parsed_i32(s@.subrange(0, len as int)).is_none(),
        },
{
    let ghost p = s@.subrange(0, len as int);
    let mut start: usize = 0;
    let mut neg = false;
    if len > 0 {
        let c = s.get_char(0);
        if c == '-' {
            neg = true;
            start = 1;
        } else if c == '+' {
            start = 1;
        }
    }
    let ghost d = if p.len() > 0 && (p[0] == '-' || p[0] == '+') { p.drop_first() } else { p };
    assert(d =~= s@.subrange(start as int, len as int));
    assert(neg == (p.len() > 0 && p[0] == '-'));
    if start == len {
        return None;
    }
    let bound: i64 = 2147483648;
    let mut acc: i64 = 0;
    let mut big = false;
    let mut i: usize = start;
    while i < len
        invariant
            start <= i <= len <= s@.len(),
            bound == 2147483648,
            p == s@.subrange(0, len as int),
            d == (if p.len() > 0 && (p[0] == '-' || p[0] == '+') { p.drop_first() } else { p }),
            neg == (p.len() > 0 && p[0] == '-'),
            d =~= s@.subrange(start as int, len as int),
            forall|k: int| 0 <= k < i - start ==> is_digit(#[trigger] d[k]),
            !big ==> acc as int == digits_value(d.subrange(0, i - start)) && 0 <= acc <= bound,
            big ==> digits_value(d.subrange(0, i - start)) > bound,
        decreases len - i,
    {
        let c = s.get_char(i);
        if !('0' <= c && c <= '9') {
            assert(!is_digit(d[i - start]));
            assert(!all_digits(d));
            return None;
        }
        let ghost prefix = d.subrange(0, i - start);
        assert(d.subrange(0, i + 1 - start).drop_last() =~= prefix);
        assert(d.subrange(0, i + 1 - start).last() == c);
        let dig = (c as u32 - '0' as u32) as i64;
        if !big {
            if acc * 10 + dig > bound {
                big = true;
            } else {
                acc = acc * 10 + dig;
            }
        }
        i = i + 1;
    }
    assert(d.subrange(0, len - start) =~= d);
    if big {
        return None;
    }
    if neg {
        Some((-acc) as i32)
    } else if acc < bound {
        Some(acc as i32)
    } else {
        None
    }
}

/// The format that a declared compiler version text names (see `format_of_text`).
pub fn format_from_text(s: &str) -> (r: Result<CairoCompilerVersion, RegistryError>)
    ensures
        r == format_of_text(s@),
{
    let n = leading_len(s);
    match parse_i32_prefix(s, n) {
        None => Err(RegistryError::MalformedArtifact),
        Some(v) => CairoCompilerVersion::from_major(v),
    }
}

} // verus!
