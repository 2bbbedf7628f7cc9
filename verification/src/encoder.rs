//! What the encoding tool computes around its calls of the transcoder.

use vstd::prelude::*;
use vstd::std_specs::iter::IteratorSpec;
use vstd::string::StringExecFns;

verus! {

/// The value of a decimal digit, none for any other character.
pub open spec fn digit(c: char) -> Option<int> {
    if '0' <= c <= '9' {
        Some(c as int - '0' as int)
    } else {
        None
    }
}

/// The number that a string of decimal digits writes, none where the
/// string holds anything but digits.
pub open spec fn decimal(s: Seq<char>) -> Option<int>
    decreases s.len(),
{
    if s.len() == 0 {
        Some(0)
    } else {
        match (decimal(s.drop_last()), digit(s.last())) {
            (Some(front), Some(d)) => Some(10 * front + d),
            _ => None,
        }
    }
}

/// The number that a string writes as a width or a height: the string is
/// not empty, holds decimal digits alone, and the number fits sixteen
/// bits.
pub open spec fn dimension(s: Seq<char>) -> Option<u16> {
    match decimal(s) {
        Some(n) => if s.len() > 0 && n <= 0xFFFF {
            Some(n as u16)
        } else {
            None
        },
        None => None,
    }
}

/// A number that only grows with further digits stays too large.
proof fn lemma_decimal_grows(s: Seq<char>, n: int)
    requires
        0 <= n <= s.len(),
        decimal(s) is Some,
    ensures
        decimal(s.take(n)) is Some,
        0 <= decimal(s.take(n))->0 <= decimal(s)->0,
    decreases s.len() - n,
{
    if n == s.len() {
        assert(s.take(n) =~= s);
        lemma_decimal_nonnegative(s);
    } else {
        assert(s.drop_last().take(n) =~= s.take(n));
        lemma_decimal_grows(s.drop_last(), n);
        lemma_decimal_nonnegative(s.drop_last());
    }
}

proof fn lemma_decimal_nonnegative(s: Seq<char>)
    requires
        decimal(s) is Some,
    ensures
        decimal(s)->0 >= 0,
    decreases s.len(),
{
    if s.len() > 0 {
        lemma_decimal_nonnegative(s.drop_last());
    }
}

/// Once a character is no digit, no longer string is a number.
proof fn lemma_decimal_fails(s: Seq<char>, n: int)
    requires
        0 <= n <= s.len(),
        decimal(s.take(n)) is None,
    ensures
        decimal(s) is None,
    decreases s.len() - n,
{
    if n == s.len() {
        assert(s.take(n) =~= s);
    } else {
        assert(s.drop_last().take(n) =~= s.take(n));
        lemma_decimal_fails(s.drop_last(), n);
    }
}

/// Reads a width or a height.
pub fn parse_dimension(text: &str) -> (r: Option<u16>)
    ensures
        r == dimension(text@),
{
    let mut value: u32 = 0;
    let mut any = false;
    let mut chars = text.chars();
    let ghost all = text@;
    let ghost mut count: int = 0;
    loop
        invariant
            all == text@,
            0 <= count <= all.len(),
            any == (count > 0),
            IteratorSpec::remaining(&chars) == all.skip(count),
            chars.obeys_prophetic_iter_laws(),
            decimal(all.take(count)) == Some(value as int),
            value <= 0xFFFF,
        ensures
            count == all.len(),
        decreases all.len() - count,
    {
        match chars.next() {
            None => {
                break ;
            },
            Some(c) => {
                proof {
                    assert(all.take(count + 1).drop_last() =~= all.take(count));
                    assert(all.take(count + 1).last() == c);
                    count = count + 1;
                }
                if c < '0' || c > '9' {
                    proof {
                        lemma_decimal_fails(all, count);
                    }
                    return None;
                }
                let d: u32 = c as u32 - '0' as u32;
                value = 10 * value + d;
                any = true;
                if value > 0xFFFF {
                    proof {
                        if decimal(all) is Some {
                            lemma_decimal_grows(all, count);
                        }
                    }
                    return None;
                }
            },
        }
    }
    proof {
        assert(all.take(count) =~= all);
    }
    if any {
        Some(value as u16)
    } else {
        None
    }
}

/// What the transcoder's report is searched for: between two of the
/// separators that it was told to print, a width and a height with an
/// `x` between them and a space on either side.
pub const SIZE_PATTERN: &'static str = " @@!!!!@@ .* (\\d+)x(\\d+) .* @@!!!!@@ ";

/// Why no size was read from the transcoder's report.
#[derive(Debug)]
pub enum OutputError {
    /// The pattern is no regular expression; what is wrong with it.
    Pattern(String),
    /// The report holds nothing that the pattern matches.
    NoMatch,
    /// The match has no first group.
    NoWidth,
    /// The match has no second group.
    NoHeight,
    /// The first group is no number of sixteen bits.
    BadWidth,
    /// The second group is no number of sixteen bits.
    BadHeight,
}

/// What the first match of the regular expression `pattern` in `text`
/// captures in its first and in its second group, as the `regex` crate
/// finds it: nothing at all where the pattern does not compile, nothing
/// where it does not match, and for each group nothing where the group
/// took no part in the match.
pub uninterp spec fn captured(pattern: Seq<char>, text: Seq<char>) -> Option<
    Option<(Option<Seq<char>>, Option<Seq<char>>)>,
>;

/// The text of a group, as a sequence of characters.
pub open spec fn group_view(group: Option<String>) -> Option<Seq<char>> {
    match group {
        Some(text) => Some(text@),
        None => None,
    }
}

/// Compiles `pattern` with `regex::Regex::new` and looks for its first
/// match in `text` with `Regex::captures`; hands out the text of the
/// first and of the second group, or the message of the error that the
/// pattern was refused with. Taken on trust: that the outcome depends on
/// the pattern and the text alone.
#[verifier::external_body]
fn capture(pattern: &str, text: &str) -> (r: Result<
    Option<(Option<String>, Option<String>)>,
    String,
>)
    ensures
        captured(pattern@, text@) == (match r {
            Ok(Some(groups)) => Some(Some((group_view(groups.0), group_view(groups.1)))),
            Ok(None) => Some(None),
            Err(_) => None,
        }),
{
    let re = regex::Regex::new(pattern).map_err(|e| e.to_string())?;
    Ok(
        re.captures(text).map(
            |found|
                (
                    found.get(1).map(|group| group.as_str().to_string()),
                    found.get(2).map(|group| group.as_str().to_string()),
                ),
        ),
    )
}

/// The size that the groups of a match stand for.
pub open spec fn spec_size_of(found: Option<(Option<Seq<char>>, Option<Seq<char>>)>) -> Result<
    (u16, u16),
    OutputError,
> {
    match found {
        None => Err(OutputError::NoMatch),
        Some((None, _)) => Err(OutputError::NoWidth),
        Some((Some(_), None)) => Err(OutputError::NoHeight),
        Some((Some(w), Some(h))) => match (dimension(w), dimension(h)) {
            (None, _) => Err(OutputError::BadWidth),
            (Some(_), None) => Err(OutputError::BadHeight),
            (Some(width), Some(height)) => Ok((width, height)),
        },
    }
}

/// Reads the size from the groups of a match.
pub fn size_of(found: Option<(Option<String>, Option<String>)>) -> (r: Result<
    (u16, u16),
    OutputError,
>)
    ensures
        r == spec_size_of(
            match found {
                Some(groups) => Some((group_view(groups.0), group_view(groups.1))),
                None => None,
            },
        ),
{
    match found {
        None => Err(OutputError::NoMatch),
        Some((None, _)) => Err(OutputError::NoWidth),
        Some((Some(_), None)) => Err(OutputError::NoHeight),
        Some((Some(w), Some(h))) => {
            let width = match parse_dimension(w.as_str()) {
                Some(width) => width,
                None => {
                    return Err(OutputError::BadWidth);
                },
            };
            match parse_dimension(h.as_str()) {
                Some(height) => Ok((width, height)),
                None => Err(OutputError::BadHeight),
            }
        },
    }
}

/// Reads the size of the encoded video from what the transcoder
/// reported, looking for `pattern`.
pub fn parse_size(pattern: &str, report: &str) -> (r: Result<(u16, u16), OutputError>)
    ensures
        match captured(pattern@, report@) {
            Some(found) => r == spec_size_of(found),
            None => r matches Err(OutputError::Pattern(_)),
        },
{
    match capture(pattern, report) {
        Ok(found) => size_of(found),
        Err(e) => Err(OutputError::Pattern(e)),
    }
}

/// Reads the size of the encoded video from what the transcoder
/// reported.
pub fn parse_output(report: &str) -> (r: Result<(u16, u16), OutputError>)
    ensures
        match captured(SIZE_PATTERN@, report@) {
            Some(found) => r == spec_size_of(found),
            None => r matches Err(OutputError::Pattern(_)),
        },
{
    parse_size(SIZE_PATTERN, report)
}

/// The character that writes a digit.
pub open spec fn digit_char(d: nat) -> char
    recommends
        d < 10,
{
    if d == 0 {
        '0'
    } else if d == 1 {
        '1'
    } else if d == 2 {
        '2'
    } else if d == 3 {
        '3'
    } else if d == 4 {
        '4'
    } else if d == 5 {
        '5'
    } else if d == 6 {
        '6'
    } else if d == 7 {
        '7'
    } else if d == 8 {
        '8'
    } else {
        '9'
    }
}

/// A number as it is written in decimal, without leading zeros.
pub open spec fn digits(n: nat) -> Seq<char>
    decreases n,
{
    if n < 10 {
        seq![digit_char(n)]
    } else {
        digits(n / 10).push(digit_char(n % 10))
    }
}

/// What is written is what is read: the digits of a number are a string
/// of digits alone that writes the number.
pub proof fn lemma_digits_round_trip(n: nat)
    ensures
        digits(n).len() > 0,
        decimal(digits(n)) == Some(n as int),
    decreases n,
{
    reveal_with_fuel(decimal, 2);
    if n < 10 {
        assert(digits(n).drop_last() =~= Seq::<char>::empty());
    } else {
        lemma_digits_round_trip(n / 10);
        assert(digits(n).drop_last() =~= digits(n / 10));
    }
}

/// Appends one character with `String::push`.
#[verifier::external_body]
fn push_char(text: &mut String, c: char)
    ensures
        final(text)@ == old(text)@.push(c),
{
    text.push(c);
}

/// Appends one digit.
fn push_digit(text: &mut String, d: u8)
    requires
        d < 10,
    ensures
        final(text)@ == old(text)@.push(digit_char(d as nat)),
{
    let c = if d == 0 {
        '0'
    } else if d == 1 {
        '1'
    } else if d == 2 {
        '2'
    } else if d == 3 {
        '3'
    } else if d == 4 {
        '4'
    } else if d == 5 {
        '5'
    } else if d == 6 {
        '6'
    } else if d == 7 {
        '7'
    } else if d == 8 {
        '8'
    } else {
        '9'
    };
    push_char(text, c);
}

/// Appends a number in decimal.
pub fn push_number(text: &mut String, n: u16)
    ensures
        final(text)@ == old(text)@ + digits(n as nat),
{
    let mut divisor: u16 = 1;
    while n / divisor >= 10
        invariant
            divisor == 1 || divisor == 10 || divisor == 100 || divisor == 1000 || divisor
                == 10000,
            n / divisor >= 1 || divisor == 1,
        decreases n / divisor,
    {
        divisor = divisor * 10;
    }
    proof {
        assert(digits((n / divisor) as nat) =~= seq![digit_char((n / divisor) as nat)]);
    }
    push_digit(text, (n / divisor) as u8);
    while divisor > 1
        invariant
            divisor == 1 || divisor == 10 || divisor == 100 || divisor == 1000 || divisor
                == 10000,
            n / divisor >= 1 || divisor == 1,
            text@ == old(text)@ + digits((n / divisor) as nat),
        decreases divisor,
    {
        let ghost above = (n / divisor) as nat;
        divisor = divisor / 10;
        let d = (n / divisor) % 10;
        proof {
            let upper = (n / divisor) as nat;
            vstd::arithmetic::div_mod::lemma_div_denominator(n as int, divisor as int, 10);
            assert(upper / 10 == above);
            assert(upper >= 10);
            assert(text@.push(digit_char(d as nat)) =~= old(text)@ + digits(upper));
        }
        push_digit(text, d as u8);
    }
}

/// A text with a backslash in front of every single quote.
pub open spec fn escaped(text: Seq<char>) -> Seq<char>
    decreases text.len(),
{
    if text.len() == 0 {
        Seq::empty()
    } else if text.last() == '\'' {
        escaped(text.drop_last()).push('\\').push('\'')
    } else {
        escaped(text.drop_last()).push(text.last())
    }
}

/// Appends a text with a backslash in front of every single quote.
pub fn push_escaped(out: &mut String, text: &str)
    ensures
        final(out)@ == old(out)@ + escaped(text@),
{
    let mut chars = text.chars();
    let ghost all = text@;
    let ghost mut count: int = 0;
    proof {
        assert(out@ =~= old(out)@ + escaped(all.take(0)));
    }
    loop
        invariant
            all == text@,
            0 <= count <= all.len(),
            IteratorSpec::remaining(&chars) == all.skip(count),
            chars.obeys_prophetic_iter_laws(),
            out@ == old(out)@ + escaped(all.take(count)),
        ensures
            count == all.len(),
            out@ == old(out)@ + escaped(all.take(count)),
        decreases all.len() - count,
    {
        match chars.next() {
            None => {
                break ;
            },
            Some(c) => {
                proof {
                    assert(all.take(count + 1).drop_last() =~= all.take(count));
                    assert(all.take(count + 1).last() == c);
                    count = count + 1;
                }
                let ghost before = out@;
                if c == '\'' {
                    push_char(out, '\\');
                }
                push_char(out, c);
                proof {
                    assert(out@ =~= old(out)@ + escaped(all.take(count)));
                }
            },
        }
    }
    proof {
        assert(all.take(count) =~= all);
    }
}

/// The filter chain that the transcoder is given: the subtitles burnt in
/// first where there are any, then the frame rate, then the scaling into
/// `width` by `height` that keeps the picture's proportions, then `tail`.
pub open spec fn spec_filter(
    fps: u8,
    width: u16,
    height: u16,
    tail: Seq<char>,
    subtitles: Option<Seq<char>>,
) -> Seq<char> {
    (match subtitles {
        Some(path) => "subtitles='"@ + escaped(path) + "',"@,
        None => Seq::empty(),
    }) + "framerate="@ + digits(fps as nat) + ",scale=size="@ + digits(width as nat) + "x"@
        + digits(height as nat) + ":force_original_aspect_ratio=decrease:reset_sar=1:"@ + tail
}

/// Writes the filter chain for the transcoder.
pub fn filter(fps: u8, width: u16, height: u16, tail: &str, subtitles: Option<&str>) -> (r:
    String)
    ensures
        r@ == spec_filter(
            fps,
            width,
            height,
            tail@,
            match subtitles {
                Some(path) => Some(path@),
                None => None,
            },
        ),
{
    let mut text = String::new();
    if let Some(path) = subtitles {
        text.append("subtitles='");
        push_escaped(&mut text, path);
        text.append("',");
    }
    text.append("framerate=");
    push_number(&mut text, fps as u16);
    text.append(",scale=size=");
    push_number(&mut text, width);
    text.append("x");
    push_number(&mut text, height);
    text.append(":force_original_aspect_ratio=decrease:reset_sar=1:");
    text.append(tail);
    proof {
        assert(text@ =~= spec_filter(
            fps,
            width,
            height,
            tail@,
            match subtitles {
                Some(path) => Some(path@),
                None => None,
            },
        ));
    }
    text
}

/// What follows the scaling for motion JPEG: the scaling method.
pub const MJPEG_TAIL: &'static str = "flags=lanczos";

/// What follows the scaling for the raw formats: full-range BT.709
/// colours.
pub const RAW_TAIL: &'static str =
    "out_color_matrix=bt709:out_range=full:out_primaries=bt709:out_transfer=bt709";

} // verus!
