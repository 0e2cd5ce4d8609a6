//! Resolving where generated key pairs go, and the names they are filed
//! under.

use vstd::prelude::*;
use vstd::string::StrSliceExecFns;
use vstd::string::StringExecFns;
use crate::hexcodec::lower_hex_char;

verus! {

/// The destination of a run: the single pair to standard output, the single
/// pair to one file, or a chain of `count` pairs to numbered files inside a
/// directory.
#[derive(Debug)]
pub enum OutputTarget {
    Stdout,
    SingleFile { path: String },
    MultiFile { dir: String, stem: String, count: u32 },
}

/// Why a flag combination was rejected before any derivation.
#[derive(Clone, Copy, Debug, PartialEq, Eq, Structural)]
pub enum ConfigError {
    /// A single-file path was given together with multi-file options.
    ConflictingOptions,
    /// A directory or stem was given without a count.
    MissingCount,
    /// A count of zero key pairs was requested.
    InvalidCount,
}

/// The text of an optional flag, or `default` where the flag is absent.
pub open spec fn flag_or(o: Option<String>, default: Seq<char>) -> Seq<char> {
    match o {
        Some(s) => s@,
        None => default,
    }
}

/// Validates the mutually exclusive command options and picks the output
/// target. `--path` excludes every multi-file option; a directory or stem
/// demands a count; a count must be at least one. The directory defaults to
/// the current one and the stem to `bls_`.
pub fn resolve_target(
    number: Option<u32>,
    output_dir: Option<String>,
    output_stem: Option<String>,
    path: Option<String>,
) -> (r: Result<OutputTarget, ConfigError>)
    ensures
        (path is Some && (number is Some || output_dir is Some || output_stem is Some)) <==> r
            == Err::<OutputTarget, ConfigError>(ConfigError::ConflictingOptions),
        (path is None && number is None && (output_dir is Some || output_stem is Some)) <==> r
            == Err::<OutputTarget, ConfigError>(ConfigError::MissingCount),
        (path is None && number == Some(0u32)) <==> r == Err::<OutputTarget, ConfigError>(
            ConfigError::InvalidCount,
        ),
        (path is Some && number is None && output_dir is None && output_stem is None) ==> (
        r matches Ok(OutputTarget::SingleFile { path: q }) && q@ == flag_or(path, Seq::empty())),
        (path is None && number is None && output_dir is None && output_stem is None) ==> r
            matches Ok(OutputTarget::Stdout),
        (path is None && number is Some && number != Some(0u32)) ==> (r matches Ok(
            OutputTarget::MultiFile { dir, stem, count },
        ) && number == Some(count) && dir@ == flag_or(output_dir, "."@) && stem@ == flag_or(
            output_stem,
            "bls_"@,
        )),
{
    if path.is_some() {
        if number.is_some() || output_dir.is_some() || output_stem.is_some() {
            return Err(ConfigError::ConflictingOptions);
        }
        return Ok(OutputTarget::SingleFile { path: path.unwrap() });
    }
    if number.is_none() {
        if output_dir.is_some() || output_stem.is_some() {
            return Err(ConfigError::MissingCount);
        }
        return Ok(OutputTarget::Stdout);
    }
    let n = number.unwrap();
    if n == 0 {
        return Err(ConfigError::InvalidCount);
    }
    let dir = match output_dir {
        Some(d) => d,
        None => String::from_str("."),
    };
    let stem = match output_stem {
        Some(t) => t,
        None => String::from_str("bls_"),
    };
    Ok(OutputTarget::MultiFile { dir, stem, count: n })
}

/// The decimal digits of `n`, most significant first, with no padding.
pub open spec fn dec_chars_of(n: nat) -> Seq<char>
    decreases n,
{
    if n < 10 {
        seq![lower_hex_char(n as u8)]
    } else {
        dec_chars_of(n / 10).push(lower_hex_char((n % 10) as u8))
    }
}

/// `s` with every trailing `/` removed.
pub open spec fn spec_trim_slashes(s: Seq<char>) -> Seq<char>
    decreases s.len(),
{
    if s.len() > 0 && s[s.len() - 1] == '/' {
        spec_trim_slashes(s.drop_last())
    } else {
        s
    }
}

/// The file a chain element is written to: the directory shorn of trailing
/// slashes, a slash, the stem, the zero-based index in decimal, and the
/// fixed suffix.
pub open spec fn spec_file_path(dir: Seq<char>, stem: Seq<char>, index: nat) -> Seq<char> {
    spec_trim_slashes(dir) + "/"@ + stem + dec_chars_of(index) + ".keys.json"@
}

/// A decimal rendering is never empty, and carries at least two digits from
/// ten upward.
proof fn lemma_dec_len(n: nat)
    ensures
        dec_chars_of(n).len() >= 1,
        n >= 10 ==> dec_chars_of(n).len() >= 2,
    decreases n,
{
    if n >= 10 {
        lemma_dec_len(n / 10);
    }
}

/// Two numbers with the same decimal rendering are the same number.
proof fn lemma_dec_injective(a: nat, b: nat)
    requires
        dec_chars_of(a) == dec_chars_of(b),
    ensures
        a == b,
    decreases a,
{
    lemma_dec_len(a);
    lemma_dec_len(b);
    if a < 10 && b < 10 {
        assert(dec_chars_of(a)[0] == lower_hex_char(a as u8));
        assert(dec_chars_of(b)[0] == lower_hex_char(b as u8));
        assert(dec_chars_of(a)[0] == dec_chars_of(b)[0]);
        crate::hexcodec::lemma_digit_round_trip(a as u8);
        crate::hexcodec::lemma_digit_round_trip(b as u8);
        assert(lower_hex_char(a as u8) == lower_hex_char(b as u8));
        assert(crate::hexcodec::hex_digit_val(lower_hex_char(a as u8)) == a);
        assert(crate::hexcodec::hex_digit_val(lower_hex_char(b as u8)) == b);
    } else if a < 10 {
        assert(dec_chars_of(a).len() == 1 && dec_chars_of(b).len() >= 2);
    } else if b < 10 {
        assert(dec_chars_of(b).len() == 1 && dec_chars_of(a).len() >= 2);
    } else {
        let da = dec_chars_of(a / 10);
        let db = dec_chars_of(b / 10);
        assert(dec_chars_of(a).last() == lower_hex_char((a % 10) as u8));
        assert(dec_chars_of(b).last() == lower_hex_char((b % 10) as u8));
        crate::hexcodec::lemma_digit_round_trip((a % 10) as u8);
        crate::hexcodec::lemma_digit_round_trip((b % 10) as u8);
        assert(crate::hexcodec::hex_digit_val(lower_hex_char((a % 10) as u8)) == a % 10);
        assert(a % 10 == b % 10);
        assert(da.push(lower_hex_char((a % 10) as u8)).drop_last() =~= da);
        assert(db.push(lower_hex_char((b % 10) as u8)).drop_last() =~= db);
        assert(da == db);
        lemma_dec_injective(a / 10, b / 10);
        vstd::arithmetic::div_mod::lemma_fundamental_div_mod(a as int, 10);
        vstd::arithmetic::div_mod::lemma_fundamental_div_mod(b as int, 10);
        assert(a == 10 * (a / 10) + a % 10);
        assert(b == 10 * (b / 10) + b % 10);
    }
}

/// Distinct chain indices are filed under distinct paths: a multi-file run
/// over one directory and stem never writes two elements to the same file.
pub proof fn lemma_paths_distinct(dir: Seq<char>, stem: Seq<char>, i: nat, j: nat)
    requires
        i != j,
    ensures
        spec_file_path(dir, stem, i) != spec_file_path(dir, stem, j),
{
    let base = spec_trim_slashes(dir) + "/"@ + stem;
    let p1 = spec_file_path(dir, stem, i);
    let p2 = spec_file_path(dir, stem, j);
    if p1 == p2 {
        let di = dec_chars_of(i);
        let dj = dec_chars_of(j);
        assert(p1.len() == base.len() + di.len() + ".keys.json"@.len());
        assert(p2.len() == base.len() + dj.len() + ".keys.json"@.len());
        assert(di.len() == dj.len());
        let lo = base.len() as int;
        let hi = lo + di.len() as int;
        assert(p1.subrange(lo, hi) =~= di);
        assert(p2.subrange(lo, hi) =~= dj);
        lemma_dec_injective(i, j);
    }
}

/// The one-character text of a decimal digit.
fn digit_str(d: u32) -> (r: &'static str)
    requires
        d < 10,
    ensures
        r@ == seq![lower_hex_char(d as u8)],
{
    proof {
        reveal_strlit("0");
        reveal_strlit("1");
        reveal_strlit("2");
        reveal_strlit("3");
        reveal_strlit("4");
        reveal_strlit("5");
        reveal_strlit("6");
        reveal_strlit("7");
        reveal_strlit("8");
        reveal_strlit("9");
    }
    let r = if d == 0 {
        "0"
    } else if d == 1 {
        "1"
    } else if d == 2 {
        "2"
    } else if d == 3 {
        "3"
    } else if d == 4 {
        "4"
    } else if d == 5 {
        "5"
    } else if d == 6 {
        "6"
    } else if d == 7 {
        "7"
    } else if d == 8 {
        "8"
    } else {
        "9"
    };
    proof {
        assert(r@ =~= seq![lower_hex_char(d as u8)]);
    }
    r
}

/// Appends the decimal digits of `n` to `out`.
fn push_dec(out: &mut String, n: u32)
    ensures
        final(out)@ == old(out)@ + dec_chars_of(n as nat),
    decreases n,
{
    if n < 10 {
        out.append(digit_str(n));
    } else {
        push_dec(out, n / 10);
        out.append(digit_str(n % 10));
        proof {
            assert(final(out)@ =~= old(out)@ + dec_chars_of(n as nat));
        }
    }
}

/// Builds the destination path for chain element `index`, exactly as the
/// multi-file form names its files.
pub fn file_path(dir: &str, stem: &str, index: u32) -> (r: String)
    ensures
        r@ == spec_file_path(dir@, stem@, index as nat),
{
    let n = dir.unicode_len();
    let mut end: usize = n;
    proof {
        assert(dir@.subrange(0, n as int) =~= dir@);
    }
    while end > 0 && dir.get_char(end - 1) == '/'
        invariant
            end <= n,
            n == dir@.len(),
            spec_trim_slashes(dir@) == spec_trim_slashes(dir@.subrange(0, end as int)),
        decreases end,
    {
        proof {
            let t = dir@.subrange(0, end as int);
            assert(t[t.len() - 1] == '/');
            assert(t.drop_last() =~= dir@.subrange(0, end as int - 1));
        }
        end = end - 1;
    }
    proof {
        let t = dir@.subrange(0, end as int);
        assert(spec_trim_slashes(t) == t);
    }
    let mut out = dir.substring_char(0, end).to_owned();
    out.append("/");
    out.append(stem);
    push_dec(&mut out, index);
    out.append(".keys.json");
    proof {
        assert(out@ =~= spec_file_path(dir@, stem@, index as nat));
    }
    out
}

} // verus!
