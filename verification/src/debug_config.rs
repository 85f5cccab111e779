//! Debug toggles, computed from the values of environment variables.

use vstd::prelude::*;
use vstd::utf8::encode_utf8;
use crate::text::{str_eq, eq_ignore_ascii_case, eq_ascii_case_insensitive};

verus! {

/// All debug toggles.
#[derive(Debug, Clone)]
pub struct DebugConfig {
    pub renderdoc_capture: bool,
    pub renderdoc_max_frames: u32,
    pub dump_frames_headless: bool,
    pub inference_profiling: bool,
    pub gpu_validation: bool,
    pub log_level: LogLevel,
}

#[derive(Debug, Clone, Copy, PartialEq, Eq, Structural)]
pub enum LogLevel {
    Trace,
    Debug,
    Info,
    Warn,
    Error,
}

/// What `str::to_lowercase` returns for a string with characters `s`.
pub uninterp spec fn lowercase_of(s: Seq<char>) -> Seq<char>;

/// True when every character of `s` is ASCII.
pub open spec fn all_ascii(s: Seq<char>) -> bool {
    forall|i: int| 0 <= i < s.len() ==> (#[trigger] s[i] as u32) < 128
}

/// The ASCII lowercase of a character: `A` to `Z` become `a` to `z`.
pub open spec fn ascii_lower_char(c: char) -> char {
    if 65 <= (c as u32) <= 90 { ((c as u32) + 32) as char } else { c }
}

/// Calls `str::to_lowercase`; the result is named `lowercase_of` of the
/// input's characters. The Unicode lowercase mapping is not stated beyond
/// ASCII, where it maps `A` to `Z` to `a` to `z` and keeps the rest.
#[verifier::external_body]
fn to_lowercase_string(s: &str) -> (r: String)
    ensures
        r@ == lowercase_of(s@),
        all_ascii(s@) ==> r@ == s@.map_values(|c: char| ascii_lower_char(c)),
{
    s.to_lowercase()
}

/// True when every character of `s` is an ASCII decimal digit.
pub open spec fn all_digits(s: Seq<char>) -> bool {
    forall|i: int| 0 <= i < s.len() ==> 48 <= (#[trigger] s[i] as u32) <= 57
}

/// The number that the decimal digits `s` denote.
pub open spec fn digits_value(s: Seq<char>) -> int
    decreases s.len(),
{
    if s.len() == 0 {
        0
    } else {
        digits_value(s.drop_last()) * 10 + (s.last() as u32 - 48)
    }
}

/// What `str::parse::<u32>` gives for a string with characters `s`: an
/// optional `+`, then one or more ASCII digits whose value fits in a `u32`;
/// `None` for anything else (empty, a lone sign, another character, or an
/// overflow).
pub open spec fn parsed_u32(s: Seq<char>) -> Option<u32> {
    let d = if s.len() > 0 && s[0] == '+' { s.subrange(1, s.len() as int) } else { s };
    if d.len() > 0 && all_digits(d) && digits_value(d) <= u32::MAX {
        Some(digits_value(d) as u32)
    } else {
        None
    }
}

proof fn lemma_digits_value_nonneg(s: Seq<char>)
    requires
        all_digits(s),
    ensures
        digits_value(s) >= 0,
    decreases s.len(),
{
    if s.len() > 0 {
        assert(all_digits(s.drop_last()));
        lemma_digits_value_nonneg(s.drop_last());
        assert(48 <= (s[s.len() - 1] as u32));
    }
}

/// Digits after a prefix never lower its value.
proof fn lemma_digits_value_prefix(s: Seq<char>, k: int)
    requires
        all_digits(s),
        0 <= k <= s.len(),
    ensures
        digits_value(s.subrange(0, k)) <= digits_value(s),
    decreases s.len(),
{
    if k == s.len() {
        assert(s.subrange(0, k) =~= s);
    } else {
        let p = s.drop_last();
        assert(all_digits(p));
        lemma_digits_value_prefix(p, k);
        assert(p.subrange(0, k) =~= s.subrange(0, k));
        lemma_digits_value_nonneg(p);
        assert(48 <= (s[s.len() - 1] as u32));
    }
}

/// Parses a decimal `u32` the way `str::parse::<u32>` does (see
/// `parsed_u32`): an optional `+`, then one or more ASCII digits whose value
/// fits; `None` for anything else.
fn parse_u32(s: &str) -> (r: Option<u32>)
    ensures
        r == parsed_u32(s@),
{
    let n = s.unicode_len();
    let start: usize = if n > 0 && s.get_char(0) == '+' { 1 } else { 0 };
    let ghost d = if s@.len() > 0 && s@[0] == '+' { s@.subrange(1, s@.len() as int) } else { s@ };
    assert(d =~= s@.subrange(start as int, n as int));
    if start == n {
        return None;
    }
    let mut acc: u64 = 0;
    let mut i: usize = start;
    while i < n
        invariant
            n == s@.len(),
            start <= i <= n,
            start < n,
            d =~= s@.subrange(start as int, n as int),
            d == (if s@.len() > 0 && s@[0] == '+' { s@.subrange(1, s@.len() as int) } else { s@ }),
            all_digits(s@.subrange(start as int, i as int)),
            acc == digits_value(s@.subrange(start as int, i as int)),
            acc <= u32::MAX,
        decreases n - i,
    {
        let c = s.get_char(i);
        let code = c as u32;
        let ghost before = s@.subrange(start as int, i as int);
        let ghost after = s@.subrange(start as int, i as int + 1);
        assert(after.drop_last() =~= before);
        assert(after.last() == c);
        if code < 48 || code > 57 {
            proof {
                assert(d[i - start] == c);
            }
            return None;
        }
        assert(all_digits(after));
        acc = acc * 10 + (code - 48) as u64;
        assert(acc == digits_value(after));
        if acc > 0xffff_ffffu64 {
            proof {
                if all_digits(d) {
                    lemma_digits_value_prefix(d, i + 1 - start);
                    assert(d.subrange(0, i + 1 - start) =~= after);
                }
            }
            return None;
        }
        i = i + 1;
    }
    assert(s@.subrange(start as int, n as int) =~= d);
    Some(acc as u32)
}

/// The flag a variable's value sets: `"1"` or `true` in any ASCII case
/// means on, any other value off, and an unset variable gives `default`.
pub open spec fn flag_value(value: Option<Seq<char>>, default: bool) -> bool {
    match value {
        Some(v) => v == "1"@ || eq_ascii_case_insensitive(encode_utf8(v), encode_utf8("true"@)),
        None => default,
    }
}

/// The boolean that the value of a variable sets (see `flag_value`).
pub fn env_bool(value: Option<&str>, default: bool) -> (r: bool)
    ensures
        r == flag_value(
            match value {
                Some(v) => Some(v@),
                None => None,
            },
            default,
        ),
{
    match value {
        Some(v) => str_eq(v, "1") || eq_ignore_ascii_case(v, "true"),
        None => default,
    }
}

/// The number a variable's value parses to, or `default` when it is unset
/// or does not parse.
pub fn env_parse_u32(value: Option<&str>, default: u32) -> (r: u32)
    ensures
        r == match value {
            Some(v) => match parsed_u32(v@) {
                Some(n) => n,
                None => default,
            },
            None => default,
        },
{
    match value {
        Some(v) => match parse_u32(v) {
            Some(n) => n,
            None => default,
        },
        None => default,
    }
}

/// The log level named by a lowercased value; `Info` for anything else.
pub open spec fn level_named(lower: Seq<char>) -> LogLevel {
    if lower == "trace"@ {
        LogLevel::Trace
    } else if lower == "debug"@ {
        LogLevel::Debug
    } else if lower == "info"@ {
        LogLevel::Info
    } else if lower == "warn"@ {
        LogLevel::Warn
    } else if lower == "error"@ {
        LogLevel::Error
    } else {
        LogLevel::Info
    }
}

/// The characters of a variable's value; an unset variable counts as the
/// empty string.
pub open spec fn value_or_empty(value: Option<&str>) -> Seq<char> {
    match value {
        Some(v) => v@,
        None => ""@,
    }
}

/// The log level a variable's value selects: its lowercase form names the
/// level; an unset variable counts as the empty string.
pub fn parse_log_level(value: Option<&str>) -> (r: LogLevel)
    ensures
        r == level_named(lowercase_of(value_or_empty(value))),
        all_ascii(value_or_empty(value)) ==> r == level_named(
            value_or_empty(value).map_values(|c: char| ascii_lower_char(c)),
        ),
{
    let v = match value {
        Some(v) => v,
        None => "",
    };
    let lower = to_lowercase_string(v);
    let l = lower.as_str();
    if str_eq(l, "trace") {
        LogLevel::Trace
    } else if str_eq(l, "debug") {
        LogLevel::Debug
    } else if str_eq(l, "info") {
        LogLevel::Info
    } else if str_eq(l, "warn") {
        LogLevel::Warn
    } else if str_eq(l, "error") {
        LogLevel::Error
    } else {
        LogLevel::Info
    }
}

/// The values of the variables that configure the debug toggles
/// (`RENDERDOC_CAPTURE`, `RENDERDOC_MAX_FRAMES`, `DUMP_FRAMES_HEADLESS`,
/// `PROFILE_INFERENCE`, `GPU_VALIDATION`, `LOG_LEVEL`), `None` when unset.
pub struct EnvValues<'a> {
    pub renderdoc_capture: Option<&'a str>,
    pub renderdoc_max_frames: Option<&'a str>,
    pub dump_frames_headless: Option<&'a str>,
    pub inference_profiling: Option<&'a str>,
    pub gpu_validation: Option<&'a str>,
    pub log_level: Option<&'a str>,
}

/// The view of an optional string value.
pub open spec fn opt_chars(v: Option<&str>) -> Option<Seq<char>> {
    match v {
        Some(s) => Some(s@),
        None => None,
    }
}

impl DebugConfig {
    /// The configuration the variable values select: flags default to off,
    /// the frame limit to 1 and is at least 1.
    pub fn from_env_values(vars: &EnvValues) -> (r: DebugConfig)
        ensures
            r.renderdoc_capture == flag_value(opt_chars(vars.renderdoc_capture), false),
            r.renderdoc_max_frames == (match vars.renderdoc_max_frames {
                Some(v) => match parsed_u32(v@) {
                    Some(n) => if n >= 1 { n } else { 1 },
                    None => 1,
                },
                None => 1,
            }),
            r.dump_frames_headless == flag_value(opt_chars(vars.dump_frames_headless), false),
            r.inference_profiling == flag_value(opt_chars(vars.inference_profiling), false),
            r.gpu_validation == flag_value(opt_chars(vars.gpu_validation), false),
            r.log_level == level_named(lowercase_of(value_or_empty(vars.log_level))),
            all_ascii(value_or_empty(vars.log_level)) ==> r.log_level == level_named(
                value_or_empty(vars.log_level).map_values(|c: char| ascii_lower_char(c)),
            ),
    {
        let frames = env_parse_u32(vars.renderdoc_max_frames, 1);
        DebugConfig {
            renderdoc_capture: env_bool(vars.renderdoc_capture, false),
            renderdoc_max_frames: if frames >= 1 { frames } else { 1 },
            dump_frames_headless: env_bool(vars.dump_frames_headless, false),
            inference_profiling: env_bool(vars.inference_profiling, false),
            gpu_validation: env_bool(vars.gpu_validation, false),
            log_level: parse_log_level(vars.log_level),
        }
    }

    /// The configuration once it has been set up; it must have been set up
    /// before anyone asks for it.
    pub fn get(slot: &Option<DebugConfig>) -> (r: &DebugConfig)
        requires
            slot.is_some(),
        ensures
            *r == slot.unwrap(),
    {
        slot.as_ref().unwrap()
    }
}

/// The name of each log level.
pub open spec fn level_name(l: LogLevel) -> Seq<char> {
    match l {
        LogLevel::Trace => "trace"@,
        LogLevel::Debug => "debug"@,
        LogLevel::Info => "info"@,
        LogLevel::Warn => "warn"@,
        LogLevel::Error => "error"@,
    }
}

/// Every log level is selected by its own name, and a name that is none of
/// them selects `Info`.
pub proof fn lemma_each_name_selects_its_level(l: LogLevel, other: Seq<char>)
    ensures
        level_named(level_name(l)) == l,
        other != "trace"@ && other != "debug"@ && other != "info"@ && other != "warn"@ && other != "error"@
            ==> level_named(other) == LogLevel::Info,
{
    reveal_strlit("trace");
    reveal_strlit("debug");
    reveal_strlit("info");
    reveal_strlit("warn");
    reveal_strlit("error");
    assert("trace"@ != "debug"@) by {
        assert("trace"@[0] != "debug"@[0]);
    }
    assert("trace"@ != "info"@) by {
        assert("trace"@[0] != "info"@[0]);
    }
    assert("trace"@ != "warn"@) by {
        assert("trace"@[0] != "warn"@[0]);
    }
    assert("trace"@ != "error"@) by {
        assert("trace"@[0] != "error"@[0]);
    }
    assert("debug"@ != "info"@) by {
        assert("debug"@[0] != "info"@[0]);
    }
    assert("debug"@ != "warn"@) by {
        assert("debug"@[0] != "warn"@[0]);
    }
    assert("debug"@ != "error"@) by {
        assert("debug"@[0] != "error"@[0]);
    }
    assert("info"@ != "warn"@) by {
        assert("info"@[0] != "warn"@[0]);
    }
    assert("info"@ != "error"@) by {
        assert("info"@[0] != "error"@[0]);
    }
    assert("warn"@ != "error"@) by {
        assert("warn"@[0] != "error"@[0]);
    }
}

/// How a count parses: the empty text and a lone `+` fail; a lone digit is
/// its value; a leading `+` changes nothing; one more digit multiplies the
/// value by ten and adds the digit, while that fits a `u32`; and a text
/// ending in anything but a digit fails.
pub proof fn lemma_parse_u32_steps(s: Seq<char>, c: char)
    ensures
        parsed_u32(Seq::empty()) is None,
        parsed_u32(seq!['+']) is None,
        48 <= (c as u32) <= 57 ==> parsed_u32(seq![c]) == Some(((c as u32) - 48) as u32),
        s.len() > 0 && s[0] != '+' ==> parsed_u32(seq!['+'] + s) == parsed_u32(s),
        parsed_u32(s) matches Some(n) ==> (s[0] != '+' && 48 <= (c as u32) <= 57 && n * 10 + ((c as u32) - 48)
            <= u32::MAX ==> parsed_u32(s.push(c)) == Some((n * 10 + ((c as u32) - 48)) as u32)),
        !(48 <= (c as u32) <= 57) ==> parsed_u32(s.push(c)) is None,
{
    let single = seq![c];
    assert(single.drop_last() =~= Seq::<char>::empty());
    assert(digits_value(Seq::<char>::empty()) == 0);
    if 48 <= (c as u32) <= 57 {
        assert(single[0] == c);
        assert(single[0] != '+');
        assert(all_digits(single));
        assert(single.last() == c);
        assert(digits_value(single) == (c as u32) - 48);
    }
    if s.len() > 0 && s[0] != '+' {
        let t = seq!['+'] + s;
        assert(t.subrange(1, t.len() as int) =~= s);
    }
    if parsed_u32(s) is Some && s[0] != '+' {
        let t = s.push(c);
        assert(s.len() > 0);
        assert(t[0] == s[0]);
        assert(t.drop_last() =~= s);
        assert(t.last() == c);
        assert(all_digits(s));
        lemma_digits_value_nonneg(s);
        assert(parsed_u32(s) == Some(digits_value(s) as u32));
        if 48 <= (c as u32) <= 57 {
            assert forall|i: int| 0 <= i < t.len() implies 48 <= (#[trigger] t[i] as u32) <= 57 by {
                if i < s.len() {
                    assert(t[i] == s[i]);
                }
            }
            assert(all_digits(t));
            assert(digits_value(t) == digits_value(s) * 10 + ((c as u32) - 48));
        }
    }
    if !(48 <= (c as u32) <= 57) {
        let t = s.push(c);
        let d = if t.len() > 0 && t[0] == '+' { t.subrange(1, t.len() as int) } else { t };
        if t[0] == '+' && t.len() > 1 {
            assert(d[d.len() - 1] == c);
        } else if t[0] != '+' {
            assert(d[d.len() - 1] == c);
        }
    }
}

} // verus!
