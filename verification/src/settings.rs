//! The settings of a render, as a scene file gives them.

use vstd::prelude::*;
use vstd::string::StringSliceAdditionalSpecFns;

verus! {

/// The settings that a scene file must give.
#[derive(Clone, Copy, Debug, PartialEq, Eq, Structural)]
pub enum Setting {
    Width,
    Height,
    Samples,
    MaxDepth,
}

/// Why a scene file gives no settings.
#[derive(Clone, Copy, Debug, PartialEq, Eq, Structural)]
pub enum SettingsError {
    /// The file has more than `MAX_DIGITS` digits in a row, which is more
    /// than the parser can count.
    LongNumber,
    /// The file is not JSON.
    NotJson,
    /// The camera of the file has no whole number for this setting.
    Missing(Setting),
}

/// Size of the image in pixels, samples for each pixel, and depth of
/// recursion.
#[derive(Clone, Copy, Debug, PartialEq, Eq, Structural)]
pub struct Settings {
    pub width: i32,
    pub height: i32,
    pub samples: i32,
    pub max_depth: i32,
}

#[verifier::external_type_specification]
#[verifier::external_body]
pub struct ExJsonError(json::Error);

/// The most digits in a row that a scene file may have. The parser counts
/// the digits of a fraction in 16 bits and fails beyond them.
pub const MAX_DIGITS: usize = 32767;

/// Whether the byte is one of the digits `0` to `9`.
pub open spec fn is_digit(byte: u8) -> bool {
    48 <= byte <= 57
}

/// Number of digits in a row that end right before place `n`.
pub open spec fn digits_before(bytes: Seq<u8>, n: int) -> nat
    decreases n,
{
    if n <= 0 || !is_digit(bytes[n - 1]) {
        0
    } else {
        digits_before(bytes, n - 1) + 1
    }
}

/// The most digits in a row anywhere in the first `n` bytes.
pub open spec fn longest_digits(bytes: Seq<u8>, n: int) -> nat
    decreases n,
{
    if n <= 0 {
        0
    } else {
        let before = longest_digits(bytes, n - 1);
        let run = digits_before(bytes, n);
        if run > before {
            run
        } else {
            before
        }
    }
}

/// Whether the text is one that the parser can be given: nowhere has it
/// more than `MAX_DIGITS` digits in a row.
pub open spec fn digits_bounded(bytes: Seq<u8>) -> bool {
    longest_digits(bytes, bytes.len() as int) <= MAX_DIGITS
}

/// No digits in a row among the first `n` bytes are more than the most
/// that there are: the run that ends before any place `k` is within it.
pub proof fn lemma_runs_within_longest(bytes: Seq<u8>, n: int, k: int)
    requires
        0 <= k <= n,
    ensures
        digits_before(bytes, k) <= longest_digits(bytes, n),
        longest_digits(bytes, n) <= n,
        digits_before(bytes, k) <= k,
    decreases n,
{
    lemma_run_within_place(bytes, k);
    if n > 0 {
        lemma_run_within_place(bytes, n);
        if k < n {
            lemma_runs_within_longest(bytes, n - 1, k);
        } else {
            lemma_runs_within_longest(bytes, n - 1, n - 1);
        }
    }
}

/// The digits in a row before a place are no more than the bytes before it.
pub proof fn lemma_run_within_place(bytes: Seq<u8>, n: int)
    requires
        0 <= n,
    ensures
        digits_before(bytes, n) <= n,
    decreases n,
{
    if n > 0 && is_digit(bytes[n - 1]) {
        lemma_run_within_place(bytes, n - 1);
    }
}

/// The most digits in a row anywhere in the bytes.
pub fn longest_digit_run(bytes: &[u8]) -> (longest: usize)
    ensures
        longest == longest_digits(bytes@, bytes@.len() as int),
{
    let mut longest: usize = 0;
    let mut run: usize = 0;
    let mut i: usize = 0;
    while i < bytes.len()
        invariant
            i <= bytes@.len(),
            run == digits_before(bytes@, i as int),
            longest == longest_digits(bytes@, i as int),
            run <= i,
            longest <= i,
        decreases bytes.len() - i,
    {
        let byte = bytes[i];
        if 48 <= byte && byte <= 57 {
            run = run + 1;
        } else {
            run = 0;
        }
        if run > longest {
            longest = run;
        }
        i = i + 1;
    }
    longest
}

/// What the JSON parser finds in `text` as a number under `key` of the
/// object under `section`: `None` where the text is not JSON, `Some(None)`
/// where it is and there is no number, else the parts of the number: whether
/// it is positive, its digits as one whole number, and its decimal exponent.
pub uninterp spec fn json_number(text: Seq<char>, section: Seq<char>, key: Seq<char>) -> Option<
    Option<(bool, u64, i16)>,
>;

/// Reads a number out of a JSON text.
///
/// Trusted: calls `json::parse` on the text, indexes the value twice, by
/// `section` and by `key`, calls `as_number` on what it finds and
/// `Number::as_parts` on the number. The contract claims that the outcome
/// is a function of the three strings alone, and names it. The parser
/// counts the digits of a fraction down in 16 bits without a test, so
/// `requires` keeps every run of digits within them.
#[verifier::external_body]
fn member_number(text: &str, section: &str, key: &str) -> (r: Result<
    Option<(bool, u64, i16)>,
    json::Error,
>)
    requires
        digits_bounded(text.spec_bytes()),
    ensures
        match r {
            Ok(parts) => json_number(text@, section@, key@) == Some(parts),
            Err(_) => json_number(text@, section@, key@) is None,
        },
{
    match json::parse(text)?[section][key].as_number() {
        Some(number) => Ok(Some(number.as_parts())),
        None => Ok(None),
    }
}

/// The number with these parts as a 32-bit whole number: it must be written
/// without a decimal exponent, and its digits with its sign must lie in the
/// range of `i32`.
pub open spec fn spec_whole_i32(positive: bool, mantissa: u64, exponent: i16) -> Option<i32> {
    if exponent != 0 {
        None
    } else if positive {
        if mantissa <= i32::MAX {
            Some(mantissa as i32)
        } else {
            None
        }
    } else {
        if mantissa <= -(i32::MIN as int) {
            Some((-(mantissa as int)) as i32)
        } else {
            None
        }
    }
}

/// What a reading of a number means for a setting: no JSON stays no JSON,
/// no number stays no number, and a number counts if it is a 32-bit whole
/// number.
pub open spec fn spec_found(number: Option<Option<(bool, u64, i16)>>) -> Option<Option<i32>> {
    match number {
        None => None,
        Some(None) => Some(None),
        Some(Some(parts)) => Some(spec_whole_i32(parts.0, parts.1, parts.2)),
    }
}

/// The number with these parts as a 32-bit whole number, if it is one.
pub fn whole_i32(positive: bool, mantissa: u64, exponent: i16) -> (n: Option<i32>)
    ensures
        n == spec_whole_i32(positive, mantissa, exponent),
{
    if exponent != 0 {
        None
    } else if positive {
        if mantissa <= 0x7fff_ffff {
            Some(mantissa as i32)
        } else {
            None
        }
    } else {
        if mantissa <= 0x8000_0000 {
            Some((0 - mantissa as i64) as i32)
        } else {
            None
        }
    }
}

/// The settings that four readings of a scene file give: the first reading
/// that found no JSON, or else no number, decides the error.
pub open spec fn spec_settings(
    width: Option<Option<i32>>,
    height: Option<Option<i32>>,
    samples: Option<Option<i32>>,
    max_depth: Option<Option<i32>>,
) -> Result<Settings, SettingsError> {
    match width {
        None => Err(SettingsError::NotJson),
        Some(None) => Err(SettingsError::Missing(Setting::Width)),
        Some(Some(width)) => match height {
            None => Err(SettingsError::NotJson),
            Some(None) => Err(SettingsError::Missing(Setting::Height)),
            Some(Some(height)) => match samples {
                None => Err(SettingsError::NotJson),
                Some(None) => Err(SettingsError::Missing(Setting::Samples)),
                Some(Some(samples)) => match max_depth {
                    None => Err(SettingsError::NotJson),
                    Some(None) => Err(SettingsError::Missing(Setting::MaxDepth)),
                    Some(Some(max_depth)) => Ok(Settings { width, height, samples, max_depth }),
                },
            },
        },
    }
}

/// One reading as a result: the number, or why there is none.
pub fn reading(found: Option<Option<i32>>, setting: Setting) -> (r: Result<i32, SettingsError>)
    ensures
        r == match found {
            None => Err::<i32, SettingsError>(SettingsError::NotJson),
            Some(None) => Err(SettingsError::Missing(setting)),
            Some(Some(number)) => Ok(number),
        },
{
    match found {
        None => Err(SettingsError::NotJson),
        Some(None) => Err(SettingsError::Missing(setting)),
        Some(Some(number)) => Ok(number),
    }
}

/// The settings that four readings of a scene file give.
pub fn settings_from(
    width: Option<Option<i32>>,
    height: Option<Option<i32>>,
    samples: Option<Option<i32>>,
    max_depth: Option<Option<i32>>,
) -> (r: Result<Settings, SettingsError>)
    ensures
        r == spec_settings(width, height, samples, max_depth),
{
    let width = reading(width, Setting::Width)?;
    let height = reading(height, Setting::Height)?;
    let samples = reading(samples, Setting::Samples)?;
    let max_depth = reading(max_depth, Setting::MaxDepth)?;
    Ok(Settings { width, height, samples, max_depth })
}

/// What is found in a scene file for one setting of its camera.
fn find(text: &str, key: &str) -> (found: Option<Option<i32>>)
    requires
        digits_bounded(text.spec_bytes()),
    ensures
        found == spec_found(json_number(text@, "camera"@, key@)),
{
    match member_number(text, "camera", key) {
        Ok(Some(parts)) => Some(whole_i32(parts.0, parts.1, parts.2)),
        Ok(None) => Some(None),
        Err(_) => None,
    }
}

/// Reads the settings of a render from the text of a scene file: the
/// whole numbers `width`, `height`, `samples` and `max_depth` of its
/// camera. A number with a decimal exponent or outside the range of `i32`
/// counts as missing. A text with more than `MAX_DIGITS` digits in a row
/// is refused before it is parsed.
pub fn read_settings(text: &str) -> (r: Result<Settings, SettingsError>)
    ensures
        !digits_bounded(text.spec_bytes()) ==> r == Err::<Settings, SettingsError>(
            SettingsError::LongNumber,
        ),
        digits_bounded(text.spec_bytes()) ==> r == spec_settings(
            spec_found(json_number(text@, "camera"@, "width"@)),
            spec_found(json_number(text@, "camera"@, "height"@)),
            spec_found(json_number(text@, "camera"@, "samples"@)),
            spec_found(json_number(text@, "camera"@, "max_depth"@)),
        ),
{
    if longest_digit_run(text.as_bytes()) > MAX_DIGITS {
        return Err(SettingsError::LongNumber);
    }
    let width = find(text, "width");
    let height = find(text, "height");
    let samples = find(text, "samples");
    let max_depth = find(text, "max_depth");
    settings_from(width, height, samples, max_depth)
}

} // verus!
