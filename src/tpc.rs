use vstd::prelude::*;
use vstd::string::StrSliceExecFns;

use crate::errors::AniseError;

verus! {

/// A planetary-constant parameter of a text kernel.
#[derive(Clone, Copy, Debug, Hash, PartialEq, Eq, Structural)]
pub enum Parameter {
    NutPrecRa,
    NutPrecDec,
    NutPrecPm,
    NutPrecAngles,
    LongAxis,
    PoleRa,
    PoleDec,
    Radii,
    PrimeMeridian,
    GeoMagNorthPoleCenterDipoleLatitude,
    GeoMagNorthPoleCenterDipoleLongitude,
    GravitationalParameter,
}

/// The parameter that a kernel keyword suffix names, if any.
pub open spec fn parameter_named(s: Seq<char>) -> Option<Parameter> {
    if s == "NUT_PREC_RA"@ {
        Some(Parameter::NutPrecRa)
    } else if s == "NUT_PREC_DEC"@ {
        Some(Parameter::NutPrecDec)
    } else if s == "NUT_PREC_PM"@ {
        Some(Parameter::NutPrecPm)
    } else if s == "LONG_AXIS"@ {
        Some(Parameter::LongAxis)
    } else if s == "POLE_DEC"@ {
        Some(Parameter::PoleDec)
    } else if s == "POLE_RA"@ {
        Some(Parameter::PoleRa)
    } else if s == "RADII"@ {
        Some(Parameter::Radii)
    } else if s == "PM"@ {
        Some(Parameter::PrimeMeridian)
    } else if s == "NUT_PREC_ANGLES"@ {
        Some(Parameter::NutPrecAngles)
    } else if s == "N_GEOMAG_CTR_DIPOLE_LAT"@ {
        Some(Parameter::GeoMagNorthPoleCenterDipoleLatitude)
    } else if s == "N_GEOMAG_CTR_DIPOLE_LON"@ {
        Some(Parameter::GeoMagNorthPoleCenterDipoleLongitude)
    } else if s == "GM"@ {
        Some(Parameter::GravitationalParameter)
    } else {
        None
    }
}

/// Whether two strings hold the same characters.
fn same_chars(a: &str, b: &str) -> (r: bool)
    ensures
        r == (a@ == b@),
{
    let n = a.unicode_len();
    if n != b.unicode_len() {
        return false;
    }
    let mut i: usize = 0;
    while i < n
        invariant
            n == a@.len(),
            n == b@.len(),
            i <= n,
            forall|j: int| 0 <= j < i ==> a@[j] == b@[j],
        decreases n - i,
    {
        if a.get_char(i) != b.get_char(i) {
            return false;
        }
        i = i + 1;
    }
    assert(a@ =~= b@);
    true
}

impl Parameter {
    /// The parameter named by a keyword suffix such as `POLE_RA`, or
    /// `ParameterNotSpecified` for any other text.
    pub fn from_name(s: &str) -> (r: Result<Parameter, AniseError>)
        ensures
            match parameter_named(s@) {
                Some(p) => r == Ok::<Parameter, AniseError>(p),
                None => r == Err::<Parameter, AniseError>(AniseError::ParameterNotSpecified),
            },
    {
        if same_chars(s, "NUT_PREC_RA") {
            Ok(Parameter::NutPrecRa)
        } else if same_chars(s, "NUT_PREC_DEC") {
            Ok(Parameter::NutPrecDec)
        } else if same_chars(s, "NUT_PREC_PM") {
            Ok(Parameter::NutPrecPm)
        } else if same_chars(s, "LONG_AXIS") {
            Ok(Parameter::LongAxis)
        } else if same_chars(s, "POLE_DEC") {
            Ok(Parameter::PoleDec)
        } else if same_chars(s, "POLE_RA") {
            Ok(Parameter::PoleRa)
        } else if same_chars(s, "RADII") {
            Ok(Parameter::Radii)
        } else if same_chars(s, "PM") {
            Ok(Parameter::PrimeMeridian)
        } else if same_chars(s, "NUT_PREC_ANGLES") {
            Ok(Parameter::NutPrecAngles)
        } else if same_chars(s, "N_GEOMAG_CTR_DIPOLE_LAT") {
            Ok(Parameter::GeoMagNorthPoleCenterDipoleLatitude)
        } else if same_chars(s, "N_GEOMAG_CTR_DIPOLE_LON") {
            Ok(Parameter::GeoMagNorthPoleCenterDipoleLongitude)
        } else if same_chars(s, "GM") {
            Ok(Parameter::GravitationalParameter)
        } else {
            Err(AniseError::ParameterNotSpecified)
        }
    }
}

pub open spec fn is_digit(c: char) -> bool {
    '0' <= c <= '9'
}

pub open spec fn all_digits(s: Seq<char>) -> bool {
    forall|i: int| 0 <= i < s.len() ==> is_digit(#[trigger] s[i])
}

/// The value of a run of decimal digits, most significant first.
pub open spec fn digits_value(s: Seq<char>) -> int
    decreases s.len(),
{
    if s.len() == 0 {
        0
    } else {
        digits_value(s.drop_last()) * 10 + (s.last() as int - '0' as int)
    }
}

/// A signed decimal integer as `i32` reads it: an optional `+` or `-`, then one
/// or more digits, with a value in range.
pub open spec fn decimal_i32(s: Seq<char>) -> Option<i32> {
    let neg = s.len() > 0 && s[0] == '-';
    let d = if s.len() > 0 && (s[0] == '-' || s[0] == '+') {
        s.drop_first()
    } else {
        s
    };
    if d.len() == 0 || !all_digits(d) {
        None
    } else if neg {
        if digits_value(d) <= 0x8000_0000 {
            Some((-digits_value(d)) as i32)
        } else {
            None
        }
    } else if digits_value(d) <= 0x7fff_ffff {
        Some(digits_value(d) as i32)
    } else {
        None
    }
}

/// A run of digits is worth at least any of its prefixes.
proof fn lemma_digits_value_prefix(d: Seq<char>, k: int)
    requires
        all_digits(d),
        0 <= k <= d.len(),
    ensures
        0 <= digits_value(d.take(k)) <= digits_value(d),
    decreases d.len(),
{
    if d.len() > 0 {
        let p = d.drop_last();
        assert(all_digits(p)) by {
            assert forall|i: int| 0 <= i < p.len() implies is_digit(#[trigger] p[i]) by {
                assert(p[i] == d[i]);
            }
        }
        if k == d.len() {
            assert(d.take(k) =~= d);
        } else {
            assert(d.take(k) =~= p.take(k));
            lemma_digits_value_prefix(p, k);
        }
        lemma_digits_value_prefix(p, p.len() as int);
        assert(p.take(p.len() as int) =~= p);
        assert(is_digit(d[d.len() - 1]));
    }
}

/// Reads a signed decimal `i32`; `None` on anything else, or out of range.
pub fn parse_decimal_i32(s: &str) -> (r: Option<i32>)
    ensures
        r == decimal_i32(s@),
{
    let n = s.unicode_len();
    if n == 0 {
        return None;
    }
    let c0 = s.get_char(0);
    let neg = c0 == '-';
    let start: usize = if c0 == '-' || c0 == '+' {
        1
    } else {
        0
    };
    let ghost d = if start == 1 {
        s@.drop_first()
    } else {
        s@
    };
    assert(d =~= s@.subrange(start as int, n as int));
    if start == n {
        return None;
    }
    let limit: i64 = if neg {
        0x8000_0000
    } else {
        0x7fff_ffff
    };
    let mut acc: i64 = 0;
    let mut i: usize = start;
    while i < n
        invariant
            n == s@.len(),
            start <= i <= n,
            d == s@.subrange(start as int, n as int),
            d == (if s@.len() > 0 && (s@[0] == '-' || s@[0] == '+') {
                s@.drop_first()
            } else {
                s@
            }),
            neg == (s@.len() > 0 && s@[0] == '-'),
            limit == (if neg {
                0x8000_0000i64
            } else {
                0x7fff_ffffi64
            }),
            all_digits(d.take(i - start)),
            acc == digits_value(d.take(i - start)),
            0 <= acc <= limit,
        decreases n - i,
    {
        let c = s.get_char(i);
        if c < '0' || c > '9' {
            assert(d[i - start] == c);
            assert(!is_digit(d[i - start]));
            return None;
        }
        let next = acc * 10 + (c as u32 - '0' as u32) as i64;
        let ghost k = i - start;
        assert(d.take(k + 1).drop_last() =~= d.take(k));
        assert(d.take(k + 1).last() == c);
        assert(all_digits(d.take(k + 1))) by {
            assert forall|j: int| 0 <= j < k + 1 implies is_digit(#[trigger] d.take(k + 1)[j]) by {
                if j < k {
                    assert(d.take(k + 1)[j] == d.take(k)[j]);
                }
            }
        }
        assert(digits_value(d.take(k + 1)) == next);
        if next > limit {
            proof {
                if all_digits(d) {
                    lemma_digits_value_prefix(d, k + 1);
                }
            }
            return None;
        }
        acc = next;
        i = i + 1;
    }
    assert(d.take(n - start) =~= d);
    if neg {
        Some((-acc) as i32)
    } else {
        Some(acc as i32)
    }
}

/// The position of the first `_` in `s` at or after `i`.
pub open spec fn underscore_from(s: Seq<char>, i: int) -> Option<int>
    decreases s.len() - i,
{
    if i >= s.len() || i < 0 {
        None
    } else if s[i] == '_' {
        Some(i)
    } else {
        underscore_from(s, i + 1)
    }
}

/// Whether the keyword starts with `BODY`.
pub open spec fn is_body_keyword(s: Seq<char>) -> bool {
    s.len() >= 4 && s.take(4) == "BODY"@
}

/// The body identifier of a keyword `BODY<id>_...`: the text between `BODY` and
/// the first `_` (or the end) read as an `i32`; `-1` where the keyword does not
/// start with `BODY` or that text is not an integer.
pub open spec fn body_key(s: Seq<char>) -> i32 {
    if !is_body_keyword(s) {
        -1i32
    } else {
        let end = match underscore_from(s, 4) {
            Some(u) => u,
            None => s.len() as int,
        };
        match decimal_i32(s.subrange(4, end)) {
            Some(v) => v,
            None => -1i32,
        }
    }
}

/// How a keyword `BODY<id>_<PARAMETER>` reads: the body identifier, if its text
/// is an integer, and the parameter, if known. `None` where the keyword does not
/// start with `BODY` or holds no `_`.
pub open spec fn keyword_parts(s: Seq<char>) -> Option<(Option<i32>, Result<Parameter, AniseError>)> {
    if !is_body_keyword(s) {
        None
    } else {
        match underscore_from(s, 0) {
            None => None,
            Some(u) => Some(
                (
                    decimal_i32(s.subrange(4, u)),
                    match parameter_named(s.subrange(u + 1, s.len() as int)) {
                        Some(p) => Ok(p),
                        None => Err(AniseError::ParameterNotSpecified),
                    },
                ),
            ),
        }
    }
}

/// The first `_` at or after `i`, and none before it.
pub proof fn lemma_underscore_from(s: Seq<char>, i: int)
    requires
        0 <= i,
    ensures
        match underscore_from(s, i) {
            Some(u) => i <= u < s.len() && s[u] == '_' && forall|j: int|
                i <= j < u ==> s[j] != '_',
            None => forall|j: int| i <= j < s.len() ==> s[j] != '_',
        },
    decreases s.len() - i,
{
    if i < s.len() && s[i] != '_' {
        lemma_underscore_from(s, i + 1);
    }
}

/// Finds the first `_` in `s` at or after `i`.
fn find_underscore(s: &str, i: usize) -> (r: Option<usize>)
    ensures
        match underscore_from(s@, i as int) {
            Some(u) => r == Some(u as usize),
            None => r == None::<usize>,
        },
{
    let n = s.unicode_len();
    let mut j = i;
    while j < n
        invariant
            n == s@.len(),
            i <= j,
            underscore_from(s@, i as int) == underscore_from(s@, j as int),
        decreases n - j,
    {
        if s.get_char(j) == '_' {
            return Some(j);
        }
        j = j + 1;
    }
    None
}

/// Whether `s` starts with `BODY`.
fn starts_with_body(s: &str) -> (r: bool)
    ensures
        r == is_body_keyword(s@),
{
    if s.unicode_len() < 4 {
        return false;
    }
    same_chars(s.substring_char(0, 4), "BODY")
}

/// The body identifier of a kernel keyword such as `BODY399_POLE_RA`, or `-1`.
pub fn extract_key(keyword: &str) -> (r: i32)
    ensures
        r == body_key(keyword@),
{
    if !starts_with_body(keyword) {
        return -1;
    }
    let n = keyword.unicode_len();
    proof {
        lemma_underscore_from(keyword@, 4);
    }
    let end = match find_underscore(keyword, 4) {
        Some(u) => u,
        None => n,
    };
    match parse_decimal_i32(keyword.substring_char(4, end)) {
        Some(v) => v,
        None => -1,
    }
}

/// Splits a kernel keyword `BODY<id>_<PARAMETER>` into its body identifier and
/// its parameter.
pub fn parse_keyword(keyword: &str) -> (r: Option<(Option<i32>, Result<Parameter, AniseError>)>)
    ensures
        r == keyword_parts(keyword@),
{
    if !starts_with_body(keyword) {
        return None;
    }
    let n = keyword.unicode_len();
    match find_underscore(keyword, 0) {
        None => None,
        Some(u) => {
            proof {
                lemma_underscore_from(keyword@, 0);
                reveal_strlit("BODY");
                if u < 4 {
                    assert(keyword@[u as int] == keyword@.take(4)[u as int]);
                }
            }
            let id = parse_decimal_i32(keyword.substring_char(4, u));
            let param = Parameter::from_name(keyword.substring_char(u + 1, n));
            Some((id, param))
        },
    }
}

/// The body an item belongs to once a keyword names body `seen`: an item with
/// no body, or with that body, takes `seen`; an item with another body keeps
/// its own, and the second component reports the conflict.
pub fn reconcile_body_id(current: Option<i32>, seen: Option<i32>) -> (r: (Option<i32>, bool))
    ensures
        current.is_some() && current != seen ==> r == (current, true),
        !(current.is_some() && current != seen) ==> r == (seen, false),
{
    if current.is_some() && current != seen {
        (current, true)
    } else {
        (seen, false)
    }
}

impl std::str::FromStr for Parameter {
    type Err = AniseError;

    fn from_str(s: &str) -> Result<Parameter, AniseError> {
        Parameter::from_name(s)
    }
}

} // verus!
