//! Environment-variable configuration knobs. Reading the process
//! environment is the embedding shell's business; this module owns the
//! variable names and the exact interpretation of the raw text the shell
//! hands over.
use vstd::prelude::*;
use vstd::string::StringSliceAdditionalSpecFns;

verus! {

/// The configuration variables the engine understands.
#[derive(Clone, Copy, Debug, PartialEq, Eq, Structural)]
pub enum Environment {
    /// Log verbosity; the shell defaults it to `debug`.
    LogLevel,
    /// Coloured log output; default on.
    LogColor,
    /// Millisecond timestamps in the log; default off.
    LogMs,
    /// Banner visibility at start-up; default on.
    ShowBanner,
}

impl Environment {
    /// The variable's name in the process environment.
    pub fn name(self) -> (r: &'static str)
        ensures
            self is LogLevel ==> r@ == "LOG_LEVEL"@,
            self is LogColor ==> r@ == "LOG_COLOR"@,
            self is LogMs ==> r@ == "LOG_MS"@,
            self is ShowBanner ==> r@ == "SHOW_BANNER"@,
    {
        match self {
            Environment::LogLevel => "LOG_LEVEL",
            Environment::LogColor => "LOG_COLOR",
            Environment::LogMs => "LOG_MS",
            Environment::ShowBanner => "SHOW_BANNER",
        }
    }

    /// Reads a boolean knob from the raw variable text: exactly the text
    /// `true` is true, anything else is false, and an unset variable takes
    /// the default.
    pub fn as_bool(self, raw: Option<String>, default: bool) -> (r: bool)
        ensures
            r == match raw {
                Some(v) => v@ == "true"@,
                None => default,
            },
    {
        match raw {
            Some(v) => v == String::from_str("true"),
            None => default,
        }
    }

    /// Reads a signed integer knob: an unset variable takes the default,
    /// text that is no decimal integer answers `None` (where the shell
    /// fails loudly instead of guessing).
    pub fn as_i64(self, raw: Option<String>, default: i64) -> (r: Option<i64>)
        ensures
            r == match raw {
                Some(v) => spec_parse_i64(vstd::utf8::encode_utf8(v@)),
                None => Some(default),
            },
    {
        match raw {
            Some(v) => parse_i64(v.as_str()),
            None => Some(default),
        }
    }

    /// Reads an unsigned size knob, as `as_i64` does.
    pub fn as_usize(self, raw: Option<String>, default: usize) -> (r: Option<usize>)
        ensures
            r == match raw {
                Some(v) => spec_parse_usize(vstd::utf8::encode_utf8(v@)),
                None => Some(default),
            },
    {
        match raw {
            Some(v) => parse_usize(v.as_str()),
            None => Some(default),
        }
    }
}

pub open spec fn is_digit(b: u8) -> bool {
    48 <= b <= 57
}

pub open spec fn all_digits(s: Seq<u8>) -> bool {
    forall|i: int| 0 <= i < s.len() ==> is_digit(#[trigger] s[i])
}

/// The number a string of decimal digits stands for.
pub open spec fn dec_val(s: Seq<u8>) -> int
    decreases s.len(),
{
    if s.len() == 0 {
        0
    } else {
        dec_val(s.drop_last()) * 10 + (s.last() - 48)
    }
}

/// What `str::parse::<i64>` accepts: an optional sign, then at least one
/// digit, the value in range.
pub open spec fn spec_parse_i64(s: Seq<u8>) -> Option<i64> {
    let digits = if s.len() > 0 && (s[0] == 45 || s[0] == 43) {
        s.drop_first()
    } else {
        s
    };
    let neg = s.len() > 0 && s[0] == 45;
    if digits.len() == 0 || !all_digits(digits) {
        None
    } else if neg && -dec_val(digits) >= i64::MIN {
        Some((-dec_val(digits)) as i64)
    } else if !neg && dec_val(digits) <= i64::MAX {
        Some(dec_val(digits) as i64)
    } else {
        None
    }
}

/// What `str::parse::<usize>` accepts: an optional plus, then at least one
/// digit, the value in range.
pub open spec fn spec_parse_usize(s: Seq<u8>) -> Option<usize> {
    let digits = if s.len() > 0 && s[0] == 43 {
        s.drop_first()
    } else {
        s
    };
    if digits.len() == 0 || !all_digits(digits) {
        None
    } else if dec_val(digits) <= usize::MAX {
        Some(dec_val(digits) as usize)
    } else {
        None
    }
}

/// A digit string's value only grows as digits are appended.
proof fn lemma_dec_val_bounds(s: Seq<u8>)
    requires
        all_digits(s),
    ensures
        0 <= dec_val(s),
        s.len() > 0 ==> dec_val(s.drop_last()) <= dec_val(s),
    decreases s.len(),
{
    if s.len() > 0 {
        assert(all_digits(s.drop_last()));
        lemma_dec_val_bounds(s.drop_last());
    }
}

/// Parses the digit block `s[from..]`, all digits, reporting the value or
/// that it exceeds `u64` range.
fn parse_digits(s: &[u8], from: usize) -> (r: Option<u128>)
    requires
        from <= s@.len(),
    ensures
        ({
            let digits = s@.subrange(from as int, s@.len() as int);
            match r {
                Some(v) => all_digits(digits) && digits.len() > 0 && v == dec_val(digits) && v
                    <= u64::MAX,
                None => digits.len() == 0 || !all_digits(digits) || dec_val(digits) > u64::MAX,
            }
        }),
{
    let n = s.len();
    if from == n {
        return None;
    }
    let mut acc: u128 = 0;
    let mut i: usize = from;
    proof {
        assert(s@.subrange(from as int, from as int) =~= Seq::<u8>::empty());
    }
    while i < n
        invariant
            from <= i <= n == s@.len(),
            acc == dec_val(s@.subrange(from as int, i as int)),
            acc <= u64::MAX,
            all_digits(s@.subrange(from as int, i as int)),
        decreases n - i,
    {
        let b = s[i];
        if b < 48 || b > 57 {
            proof {
                let digits = s@.subrange(from as int, s@.len() as int);
                assert(digits[i - from] == s@[i as int]);
                assert(!all_digits(digits));
            }
            return None;
        }
        proof {
            let prefix = s@.subrange(from as int, i as int);
            let ext = s@.subrange(from as int, i + 1);
            assert(ext.drop_last() =~= prefix);
            assert(ext.last() == s@[i as int]);
        }
        let next = acc * 10 + ((b - 48) as u128);
        if next > u64::MAX as u128 {
            proof {
                lemma_dec_val_rest(s@, from as int, i + 1);
            }
            return None;
        }
        acc = next;
        i = i + 1;
    }
    proof {
        assert(s@.subrange(from as int, n as int) =~= s@.subrange(from as int, s@.len() as int));
    }
    Some(acc)
}

/// If a digit prefix already exceeds `u64::MAX`, so does the whole block —
/// or the block is not all digits at all.
proof fn lemma_dec_val_rest(s: Seq<u8>, from: int, upto: int)
    requires
        0 <= from <= upto <= s.len(),
        all_digits(s.subrange(from, upto)),
        dec_val(s.subrange(from, upto)) > u64::MAX,
    ensures
        !all_digits(s.subrange(from, s.len() as int)) || dec_val(s.subrange(from, s.len() as int))
            > u64::MAX,
    decreases s.len() - upto,
{
    if upto < s.len() {
        let cur = s.subrange(from, upto);
        let ext = s.subrange(from, upto + 1);
        if all_digits(s.subrange(from, s.len() as int)) {
            assert forall|i: int| 0 <= i < ext.len() implies is_digit(#[trigger] ext[i]) by {
                assert(ext[i] == s.subrange(from, s.len() as int)[i]);
            }
            assert(ext.drop_last() =~= cur);
            lemma_dec_val_bounds(cur);
            assert(dec_val(ext) == dec_val(cur) * 10 + (ext.last() - 48));
            assert(dec_val(cur) * 10 >= dec_val(cur)) by {
                vstd::arithmetic::mul::lemma_mul_inequality(1, 10, dec_val(cur));
                vstd::arithmetic::mul::lemma_mul_is_commutative(10, dec_val(cur));
                vstd::arithmetic::mul::lemma_mul_basics(dec_val(cur));
            }
            lemma_dec_val_rest(s, from, upto + 1);
        }
    }
}

/// Exact counterpart of `str::parse::<i64>` on the string's bytes.
pub fn parse_i64(s: &str) -> (r: Option<i64>)
    ensures
        r == spec_parse_i64(s.spec_bytes()),
{
    let b = s.as_bytes();
    let n = b.len();
    let ghost whole = s.spec_bytes();
    if n == 0 {
        return None;
    }
    let (from, neg): (usize, bool) = if b[0] == 45 {
        (1, true)
    } else if b[0] == 43 {
        (1, false)
    } else {
        (0, false)
    };
    proof {
        if from == 1 {
            assert(whole.subrange(1, whole.len() as int) =~= whole.drop_first());
        } else {
            assert(whole.subrange(0, whole.len() as int) =~= whole);
        }
    }
    let mag = match parse_digits(b, from) {
        Some(v) => v,
        None => {
            return None;
        },
    };
    if neg {
        if mag > 0x8000_0000_0000_0000u128 {
            return None;
        }
        Some((-(mag as i128)) as i64)
    } else {
        if mag > i64::MAX as u128 {
            return None;
        }
        Some(mag as i64)
    }
}

/// Exact counterpart of `str::parse::<usize>` on the string's bytes.
pub fn parse_usize(s: &str) -> (r: Option<usize>)
    ensures
        r == spec_parse_usize(s.spec_bytes()),
{
    let b = s.as_bytes();
    let n = b.len();
    let ghost whole = s.spec_bytes();
    if n == 0 {
        return None;
    }
    let from: usize = if b[0] == 43 {
        1
    } else {
        0
    };
    proof {
        if from == 1 {
            assert(whole.subrange(1, whole.len() as int) =~= whole.drop_first());
        } else {
            assert(whole.subrange(0, whole.len() as int) =~= whole);
        }
    }
    let mag = match parse_digits(b, from) {
        Some(v) => v,
        None => {
            return None;
        },
    };
    if mag > usize::MAX as u128 {
        return None;
    }
    Some(mag as usize)
}

} // verus!
