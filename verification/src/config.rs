//! Resolution of the run configuration: defaults (five runs, no output
//! echo) merged with the `-runs <integer>` and `-output` flag tokens
//! and the parsed command string. A missing or malformed `-runs` value
//! and a missing command are configuration errors, reported before any
//! run is performed.

use vstd::prelude::*;
use crate::parser::{arguments_of, command_of, parse_command};

verus! {

/// The immutable configuration of one benchmarking session.
#[derive(Debug)]
pub struct Config {
    pub runs: u32,
    pub command: String,
    pub args: Vec<String>,
    pub output: bool,
}

/// Why a configuration could not be resolved.
#[derive(Clone, Copy, Debug, PartialEq, Eq, Structural)]
pub enum ConfigError {
    /// `-runs` was the last token, so no value follows it.
    MissingRunsValue,
    /// The token after `-runs` is not a base-10 integer in range.
    InvalidRunsValue,
    /// The command string names no program.
    MissingCommand,
}

impl ConfigError {
    /// The descriptive message reported for this error.
    pub fn message(&self) -> (r: &'static str)
        ensures
            r@ == self.spec_message(),
    {
        match self {
            ConfigError::MissingRunsValue => "The -runs flag should be used as follows: ... -runs <run count> ...",
            ConfigError::InvalidRunsValue => "The -runs flag should be used as follows: ... -runs <number> ...",
            ConfigError::MissingCommand => "No command was given, so there is nothing to run.",
        }
    }

    pub open spec fn spec_message(self) -> Seq<char> {
        match self {
            ConfigError::MissingRunsValue => "The -runs flag should be used as follows: ... -runs <run count> ..."@,
            ConfigError::InvalidRunsValue => "The -runs flag should be used as follows: ... -runs <number> ..."@,
            ConfigError::MissingCommand => "No command was given, so there is nothing to run."@,
        }
    }
}

/// The character is a decimal digit.
pub open spec fn is_digit(c: char) -> bool {
    48 <= c as int <= 57
}

/// Every character of `s` is a decimal digit.
pub open spec fn all_digits(s: Seq<char>) -> bool {
    forall|i: int| 0 <= i < s.len() ==> is_digit(s[i])
}

/// Value of an all-digit string read in base 10.
pub open spec fn digits_val(s: Seq<char>) -> int
    decreases s.len(),
{
    if s.len() == 0 {
        0
    } else {
        digits_val(s.drop_last()) * 10 + (s.last() as int - 48)
    }
}

/// `s` is a base-10 integer literal: an optional sign followed by at
/// least one digit.
pub open spec fn int_literal(s: Seq<char>) -> bool {
    if s.len() > 0 && (s[0] == '-' || s[0] == '+') {
        s.len() >= 2 && all_digits(s.skip(1))
    } else {
        s.len() >= 1 && all_digits(s)
    }
}

/// Value of a base-10 integer literal.
pub open spec fn literal_val(s: Seq<char>) -> int {
    if s.len() > 0 && s[0] == '-' {
        -digits_val(s.skip(1))
    } else if s.len() > 0 && s[0] == '+' {
        digits_val(s.skip(1))
    } else {
        digits_val(s)
    }
}

/// `s` parses as an `i32`: well-formed and within range.
pub open spec fn valid_i32(s: Seq<char>) -> bool {
    int_literal(s) && i32::MIN <= literal_val(s) <= i32::MAX
}

proof fn lemma_digits_val_nonneg(s: Seq<char>)
    requires
        all_digits(s),
    ensures
        digits_val(s) >= 0,
    decreases s.len(),
{
    if s.len() > 0 {
        lemma_digits_val_nonneg(s.drop_last());
    }
}

proof fn lemma_digits_val_prefix(s: Seq<char>, j: int)
    requires
        all_digits(s),
        0 <= j <= s.len(),
    ensures
        digits_val(s.take(j)) <= digits_val(s),
    decreases s.len(),
{
    if j == s.len() {
        assert(s.take(j) =~= s);
    } else {
        assert(s.drop_last().take(j) =~= s.take(j));
        lemma_digits_val_prefix(s.drop_last(), j);
        lemma_digits_val_nonneg(s.drop_last());
    }
}

/// Parse a base-10 `i32`, accepting an optional leading sign, exactly
/// when the whole string is a well-formed literal whose value fits.
pub fn parse_i32(s: &str) -> (r: Option<i32>)
    ensures
        (r is Some) <==> valid_i32(s@),
        (r matches Some(v) ==> v as int == literal_val(s@)),
{
    let n = s.unicode_len();
    if n == 0 {
        return None;
    }
    let head = s.get_char(0);
    let negative = head == '-';
    let offset: usize = if negative || head == '+' {
        1
    } else {
        0
    };
    if offset == n {
        // a sign alone has no digits
        return None;
    }
    let ghost digits = s@.skip(offset as int);
    let mut idx: usize = offset;
    let mut magnitude: u64 = 0;
    while idx < n
        invariant
            offset <= idx <= n,
            n == s@.len(),
            offset == if s@[0] == '-' || s@[0] == '+' { 1int } else { 0int },
            negative == (s@[0] == '-'),
            digits == s@.skip(offset as int),
            magnitude <= 0x8000_0000,
            magnitude == digits_val(s@.subrange(offset as int, idx as int)),
            all_digits(s@.subrange(offset as int, idx as int)),
        decreases n - idx,
    {
        let c = s.get_char(idx);
        let code = c as u32;
        let ghost scanned = s@.subrange(offset as int, idx as int);
        if code < 48 || code > 57 {
            proof {
                if int_literal(s@) {
                    if offset == 1 {
                        assert(digits =~= s@.skip(1));
                    } else {
                        assert(digits =~= s@);
                    }
                    assert(all_digits(digits));
                    assert(digits[idx - offset] == s@[idx as int]);
                    assert(is_digit(s@[idx as int]));
                }
            }
            return None;
        }
        magnitude = magnitude * 10 + ((code - 48) as u64);
        proof {
            let scanned1 = s@.subrange(offset as int, idx + 1);
            assert(scanned1.drop_last() =~= scanned);
            assert(scanned1.last() == s@[idx as int]);
        }
        idx = idx + 1;
        if magnitude > 0x8000_0000 {
            proof {
                if int_literal(s@) {
                    if offset == 1 {
                        assert(digits =~= s@.skip(1));
                    } else {
                        assert(digits =~= s@);
                    }
                    assert(all_digits(digits));
                    let scanned1 = s@.subrange(offset as int, idx as int);
                    assert(digits.take(idx - offset) =~= scanned1);
                    lemma_digits_val_prefix(digits, idx - offset);
                    assert(digits_val(digits) > 0x8000_0000);
                    if s@[0] == '-' {
                        assert(literal_val(s@) == -digits_val(s@.skip(1)));
                        assert(literal_val(s@) < i32::MIN);
                    } else {
                        assert(literal_val(s@) > i32::MAX);
                    }
                }
                assert(!valid_i32(s@));
            }
            return None;
        }
    }
    proof {
        assert(s@.subrange(offset as int, n as int) =~= digits);
        if offset == 1 {
            assert(digits =~= s@.skip(1));
        } else {
            assert(digits =~= s@);
        }
        assert(all_digits(digits));
        assert(int_literal(s@));
        assert(magnitude == digits_val(digits));
        if s@[0] == '-' {
            assert(literal_val(s@) == -digits_val(digits));
        } else {
            assert(literal_val(s@) == digits_val(digits));
        }
    }
    if negative {
        if magnitude == 0x8000_0000 {
            Some(i32::MIN)
        } else {
            Some(-(magnitude as i32))
        }
    } else {
        if magnitude > 0x7FFF_FFFF {
            None
        } else {
            Some(magnitude as i32)
        }
    }
}

/// Index of the first token of `argv[k..]` equal to `flag`, or the
/// length of `argv` when none is.
pub open spec fn first_flag_pos(argv: Seq<Seq<char>>, flag: Seq<char>, k: int) -> int
    decreases argv.len() - k,
{
    if k >= argv.len() {
        argv.len() as int
    } else if argv[k] == flag {
        k
    } else {
        first_flag_pos(argv, flag, k + 1)
    }
}

/// The flag token occurs somewhere in the argument vector.
pub open spec fn has_flag(argv: Seq<Seq<char>>, flag: Seq<char>) -> bool {
    first_flag_pos(argv, flag, 0) < argv.len()
}

/// Linear search for the first occurrence of `flag`; the result is the
/// vector's length when the flag is absent.
fn find_flag(argv: &Vec<String>, flag: &String) -> (r: usize)
    ensures
        r as int == first_flag_pos(argv@.map_values(|a: String| a@), flag@, 0),
        r <= argv@.len(),
{
    let ghost argvv = argv@.map_values(|a: String| a@);
    let mut k: usize = 0;
    while k < argv.len()
        invariant
            k <= argv@.len(),
            argvv == argv@.map_values(|a: String| a@),
            first_flag_pos(argvv, flag@, 0) == first_flag_pos(argvv, flag@, k as int),
        decreases argv@.len() - k,
    {
        if argv[k] == *flag {
            proof {
                assert(argvv[k as int] == argv@[k as int]@);
            }
            return k;
        }
        proof {
            assert(argvv[k as int] == argv@[k as int]@);
        }
        k = k + 1;
    }
    k
}

/// The `-runs` flag, if present, is followed by a token that parses as
/// a base-10 integer.
pub open spec fn runs_flag_ok(argvv: Seq<Seq<char>>) -> bool {
    let p = first_flag_pos(argvv, "-runs"@, 0);
    p == argvv.len() || (p + 1 < argvv.len() && valid_i32(argvv[p + 1]))
}

/// The configured number of runs: the value after the first `-runs`
/// token, reduced to a `u32` in two's complement, or the default of
/// five runs.
pub open spec fn spec_runs(argvv: Seq<Seq<char>>) -> int {
    let p = first_flag_pos(argvv, "-runs"@, 0);
    if p == argvv.len() {
        5
    } else {
        let v = literal_val(argvv[p + 1]);
        if v < 0 {
            v + 0x1_0000_0000
        } else {
            v
        }
    }
}

/// Merge the defaults with the flag tokens of `argv` and the parsed
/// command string into one run configuration, or report the first
/// configuration error: a `-runs` flag with a missing or malformed
/// value, and otherwise a command string naming no program.
pub fn resolve_config(argv: &Vec<String>, raw_command: &str) -> (r: Result<Config, ConfigError>)
    ensures
        ({
            let argvv = argv@.map_values(|a: String| a@);
            let p = first_flag_pos(argvv, "-runs"@, 0);
            &&& ((r matches Err(e) && e == ConfigError::MissingRunsValue) <==> (p < argvv.len()
                && p + 1 >= argvv.len()))
            &&& ((r matches Err(e) && e == ConfigError::InvalidRunsValue) <==> (p + 1 < argvv.len()
                && !valid_i32(argvv[p + 1])))
            &&& ((r matches Err(e) && e == ConfigError::MissingCommand) <==> (runs_flag_ok(argvv)
                && command_of(raw_command@).len() == 0))
            &&& ((r is Ok) <==> (runs_flag_ok(argvv) && command_of(raw_command@).len() > 0))
            &&& (r matches Ok(c) ==> {
                &&& c.runs as int == spec_runs(argvv)
                &&& c.output == has_flag(argvv, "-output"@)
                &&& c.command@ == command_of(raw_command@)
                &&& c.args@.map_values(|a: String| a@) == arguments_of(raw_command@)
            })
        }),
{
    let runs_flag = String::from_str("-runs");
    let output_flag = String::from_str("-output");
    let mut runs: u32 = 5;
    let p = find_flag(argv, &runs_flag);
    if p < argv.len() {
        if p + 1 >= argv.len() {
            return Err(ConfigError::MissingRunsValue);
        }
        match parse_i32(argv[p + 1].as_str()) {
            None => {
                return Err(ConfigError::InvalidRunsValue);
            },
            Some(v) => {
                // the parsed value is reduced to a u32 in two's
                // complement, so a negative count wraps around
                if v >= 0 {
                    runs = v as u32;
                } else {
                    runs = ((v as i64) + 0x1_0000_0000i64) as u32;
                }
                proof {
                    let argvv = argv@.map_values(|a: String| a@);
                    assert(argvv[p + 1] == argv@[p + 1]@);
                }
            },
        }
    }
    let output = find_flag(argv, &output_flag) < argv.len();
    let (program, args) = parse_command(raw_command);
    if program.as_str().unicode_len() == 0 {
        return Err(ConfigError::MissingCommand);
    }
    Ok(Config { runs, command: program, args, output })
}

} // verus!
