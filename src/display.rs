use vstd::prelude::*;
use vstd::string::StringExecFns;
use vstd::string::StrSliceExecFns;
use crate::timestamp::Timestamp;

verus! {

/// `String::push` appends the given character to the end of the string.
pub assume_specification[ String::push ](s: &mut String, ch: char)
    ensures
        final(s)@ == old(s)@.push(ch),
;

/// Text in red, as owo-colors writes it: the red foreground code, the text,
/// and the code that restores the default foreground.
pub open spec fn red_spec(s: Seq<char>) -> Seq<char> {
    seq!['\x1b', '[', '3', '1', 'm'] + s + seq!['\x1b', '[', '3', '9', 'm']
}

/// Bold text, as owo-colors writes it: the bold code, the text, and the reset code.
pub open spec fn bold_spec(s: Seq<char>) -> Seq<char> {
    seq!['\x1b', '[', '1', 'm'] + s + seq!['\x1b', '[', '0', 'm']
}

/// Relies on owo-colors' `OwoColorize::red`, whose `Display` writes
/// `"\x1b[31m"`, the text, then `"\x1b[39m"`.
#[verifier::external_body]
fn red_text(s: &str) -> (r: String)
    ensures
        r@ == red_spec(s@),
{
    owo_colors::OwoColorize::red(&s).to_string()
}

/// Relies on owo-colors' `OwoColorize::bold`, whose `Display` writes
/// `"\x1b[1m"`, the text, then `"\x1b[0m"`.
#[verifier::external_body]
fn bold_text(s: &str) -> (r: String)
    ensures
        r@ == bold_spec(s@),
{
    owo_colors::OwoColorize::bold(&s).to_string()
}

/// What jiff writes for the instant `secs` seconds and `nanos` nanoseconds
/// after the epoch under the pattern `%Y-%m-%d %H:%M:%S`.
pub uninterp spec fn formatted_time(secs: i64, nanos: i32) -> Seq<char>;

/// Relies on jiff's `Timestamp::new` (an error outside jiff's range of
/// instants) and `Timestamp::strftime`, which depend on their arguments alone.
#[verifier::external_body]
fn jiff_format(secs: i64, nanos: i32) -> (r: Option<String>)
    ensures
        r matches Some(s) ==> s@ == formatted_time(secs, nanos),
{
    match jiff::Timestamp::new(secs, nanos) {
        Ok(t) => Some(t.strftime("%Y-%m-%d %H:%M:%S").to_string()),
        Err(_) => None,
    }
}

/// A timestamp as `YYYY-MM-DD HH:MM:SS` in UTC; `None` where it lies outside
/// the range of instants that jiff supports.
pub fn format_timestamp(t: Timestamp) -> (r: Option<String>)
    requires
        t.wf(),
    ensures
        r matches Some(s) ==> s@ == formatted_time(t.secs, t.nanos as i32),
{
    jiff_format(t.secs, t.nanos as i32)
}

/// One character of a diff: as it is where both sides agree, red where not.
pub open spec fn diff_piece(o: char, n: char) -> Seq<char> {
    if o == n {
        seq![n]
    } else {
        red_spec(seq![n])
    }
}

/// The first `i` characters of `new`, each marked against `old`.
pub open spec fn diff_upto(old: Seq<char>, new: Seq<char>, i: nat) -> Seq<char>
    decreases i,
{
    if i == 0 {
        Seq::empty()
    } else {
        diff_upto(old, new, (i - 1) as nat) + diff_piece(old[i - 1], new[i - 1])
    }
}

/// `new` up to the length of the shorter string, with each character that
/// differs from `old` at the same place in red.
pub open spec fn diff_spec(old: Seq<char>, new: Seq<char>) -> Seq<char> {
    diff_upto(old, new, if old.len() < new.len() { old.len() } else { new.len() })
}

/// Marks in red the characters of `new_str` that differ from `old_str` at the
/// same place.
pub fn highlight_changes(old_str: &str, new_str: &str) -> (r: String)
    ensures
        r@ == diff_spec(old_str@, new_str@),
{
    let lo = old_str.unicode_len();
    let ln = new_str.unicode_len();
    let m = if lo < ln { lo } else { ln };
    let mut result = String::new();
    let mut i: usize = 0;
    while i < m
        invariant
            m as int == if old_str@.len() < new_str@.len() { old_str@.len() } else { new_str@.len() },
            i <= m,
            result@ == diff_upto(old_str@, new_str@, i as nat),
        decreases m - i,
    {
        let o = old_str.get_char(i);
        let n = new_str.get_char(i);
        if o == n {
            result.push(n);
        } else {
            let mut piece = String::new();
            piece.push(n);
            let red = red_text(piece.as_str());
            result.append(red.as_str());
        }
        assert(result@ =~= diff_upto(old_str@, new_str@, (i + 1) as nat));
        i = i + 1;
    }
    result
}

/// The new timestamp, with the characters that differ from the old one in red;
/// `None` where either lies outside jiff's range.
pub fn format_timestamp_diff(old: Timestamp, new: Timestamp) -> (r: Option<String>)
    requires
        old.wf(),
        new.wf(),
    ensures
        r matches Some(s) ==> s@ == diff_spec(
            formatted_time(old.secs, old.nanos as i32),
            formatted_time(new.secs, new.nanos as i32),
        ),
{
    match (format_timestamp(old), format_timestamp(new)) {
        (Some(o), Some(n)) => Some(highlight_changes(o.as_str(), n.as_str())),
        _ => None,
    }
}

/// `n` copies of `c`.
pub open spec fn repeat_char(c: char, n: nat) -> Seq<char>
    decreases n,
{
    if n == 0 {
        Seq::empty()
    } else {
        repeat_char(c, (n - 1) as nat).push(c)
    }
}

/// The warning sign (with its emoji presentation selector) and two spaces.
pub open spec fn sign_before() -> Seq<char> {
    seq!['\u{26a0}', '\u{fe0f}', ' ', ' ']
}

/// A space and the warning sign.
pub open spec fn sign_after() -> Seq<char> {
    seq![' ', '\u{26a0}', '\u{fe0f}']
}

/// The three lines of the warning shown when a cache file is unusable: a red
/// rule of 80 `=`, the message in bold red between two warning signs, and the
/// rule again.
pub fn bad_cache_disclaimer(message: &str) -> (r: Vec<String>)
    ensures
        r@.len() == 3,
        r@[0]@ == red_spec(repeat_char('=', 80)),
        r@[1]@ == sign_before() + red_spec(bold_spec(message@)) + sign_after(),
        r@[2]@ == red_spec(repeat_char('=', 80)),
{
    let mut rule = String::new();
    let mut i: usize = 0;
    while i < 80
        invariant
            i <= 80,
            rule@ == repeat_char('=', i as nat),
        decreases 80 - i,
    {
        rule.push('=');
        i = i + 1;
    }
    let top = red_text(rule.as_str());
    let bottom = red_text(rule.as_str());
    let mut middle = String::new();
    middle.push('\u{26a0}');
    middle.push('\u{fe0f}');
    middle.push(' ');
    middle.push(' ');
    let bold = bold_text(message);
    let emphasised = red_text(bold.as_str());
    middle.append(emphasised.as_str());
    middle.push(' ');
    middle.push('\u{26a0}');
    middle.push('\u{fe0f}');
    assert(middle@ =~= sign_before() + red_spec(bold_spec(message@)) + sign_after());
    let mut r: Vec<String> = Vec::new();
    r.push(top);
    r.push(middle);
    r.push(bottom);
    r
}

/// The lowercase hexadecimal digit of `d`.
pub open spec fn hex_char(d: u64) -> char {
    if d < 10 {
        (('0' as u64) + d) as char
    } else {
        (('a' as u64) + d - 10) as char
    }
}

/// The last `n` hexadecimal digits of `v`, most significant first.
pub open spec fn hex_digits(v: u64, n: nat) -> Seq<char>
    decreases n,
{
    if n == 0 {
        Seq::empty()
    } else {
        hex_digits(v / 16, (n - 1) as nat).push(hex_char(v % 16))
    }
}

fn hex_digit(d: u64) -> (c: char)
    requires
        d < 16,
    ensures
        c == hex_char(d),
{
    let digits: [char; 16] = ['0', '1', '2', '3', '4', '5', '6', '7', '8', '9', 'a', 'b', 'c', 'd', 'e', 'f'];
    let c = digits[d as usize];
    assert(c == hex_char(d)) by {
        assert(digits@[d as int] == c);
        assert(d < 10 ==> hex_char(d) == digits@[d as int]);
        assert(d >= 10 ==> hex_char(d) == digits@[d as int]);
    }
    c
}

fn push_hex(v: u64, n: usize, out: &mut String)
    ensures
        final(out)@ == old(out)@ + hex_digits(v, n as nat),
    decreases n,
{
    if n > 0 {
        push_hex(v / 16, n - 1, out);
        out.push(hex_digit(v % 16));
    } else {
        assert(old(out)@ + hex_digits(v, 0) =~= old(out)@);
    }
}

impl crate::snapshot::Hash {
    /// The fingerprint as 16 lowercase hexadecimal digits.
    pub fn to_string(&self) -> (r: String)
        ensures
            r@ == hex_digits(self.0, 16),
    {
        let mut r = String::new();
        push_hex(self.0, 16, &mut r);
        r
    }
}

} // verus!
