//! The configuration and the plain logic of the training runner: its error
//! type, the sinks it writes checkpoints and exported policies to, and the
//! names of what it writes for a step.
use vstd::prelude::*;
use std::path::{Path, PathBuf};

verus! {

/// An owned file-system path, carried through unchanged.
#[verifier::external_type_specification]
#[verifier::external_body]
pub struct ExPathBuf(PathBuf);

/// `PathBuf::clone`, called by the derived `Clone` of `RunnerConfig`.
/// Nothing is stated of the copy.
pub assume_specification[ <PathBuf as Clone>::clone ](path: &PathBuf) -> PathBuf;

/// A borrowed file-system path, carried through unchanged.
#[verifier::external_type_specification]
#[verifier::external_body]
pub struct ExPath(Path);

/// An I/O error, carried through unchanged.
#[verifier::external_type_specification]
#[verifier::external_body]
pub struct ExIoError(std::io::Error);

/// Errors of the runner.
#[derive(Debug)]
pub enum RunnerError {
    /// Preparing the output directory failed.
    Io(std::io::Error),
    /// The checkpoint sink refused to save.
    Checkpoint(String),
    /// The policy exporter failed.
    Export(String),
}

/// Saves policy parameters as a checkpoint in a directory.
pub trait CheckpointSink<P> {
    fn save(&mut self, path: &Path, params: &P) -> Result<(), String>;
}

/// Exports policy parameters as an ONNX model.
pub trait OnnxExporter<P> {
    fn export(&self, params: &P, action_size: usize, obs_size: usize, path: &Path) -> Result<(), String>;
}

/// The configuration of a training run.
#[derive(Debug, Clone)]
pub struct RunnerConfig {
    pub output_dir: PathBuf,
    pub num_timesteps: usize,
    pub action_size: usize,
    pub obs_size: usize,
}

impl RunnerConfig {
    /// A configuration with the given fields; the output directory is
    /// converted with `Into`.
    pub fn new<D: Into<PathBuf>>(output_dir: D, num_timesteps: usize, action_size: usize, obs_size: usize) -> (config: Self)
        ensures
            call_ensures(D::into, (output_dir,), config.output_dir),
            config.num_timesteps == num_timesteps,
            config.action_size == action_size,
            config.obs_size == obs_size,
    {
        RunnerConfig { output_dir: output_dir.into(), num_timesteps, action_size, obs_size }
    }
}

/// The decimal digit character for `d < 10`.
pub open spec fn digit_char(d: nat) -> char {
    if d == 0 {
        '0'
    } else if d == 1 {
        '1'
    } else if d == 2 {
        '2'
    } else if d == 3 {
        '3'
    } else if d == 4 {
        '4'
    } else if d == 5 {
        '5'
    } else if d == 6 {
        '6'
    } else if d == 7 {
        '7'
    } else if d == 8 {
        '8'
    } else {
        '9'
    }
}

/// The decimal notation of `n`, without leading zeros.
pub open spec fn decimal_digits(n: nat) -> Seq<char>
    decreases n,
{
    if n < 10 {
        seq![digit_char(n)]
    } else {
        decimal_digits(n / 10).push(digit_char(n % 10))
    }
}

/// `n` in decimal, padded with leading zeros to at least `width` digits.
pub open spec fn zero_padded(n: nat, width: nat) -> Seq<char> {
    let digits = decimal_digits(n);
    if digits.len() >= width {
        digits
    } else {
        Seq::new((width - digits.len()) as nat, |i: int| '0') + digits
    }
}

/// A year as a timestamp writes it: four digits, zero-padded, for years
/// `0..=9999`; otherwise a sign followed by at least four digits.
pub open spec fn year_text(year: int) -> Seq<char> {
    if 0 <= year <= 9999 {
        zero_padded(year as nat, 4)
    } else if year > 9999 {
        seq!['+'] + zero_padded(year as nat, 4)
    } else {
        seq!['-'] + zero_padded((-year) as nat, 4)
    }
}

/// A local date and time, field by field. `nanosecond` counts from the
/// whole second; `1_000_000_000` and above stand for a leap second.
#[derive(Clone, Copy, Debug, PartialEq, Eq, Structural)]
pub struct LocalTime {
    pub year: i32,
    pub month: u32,
    pub day: u32,
    pub hour: u32,
    pub minute: u32,
    pub second: u32,
    pub nanosecond: u32,
}

/// The fields are in their calendar and clock ranges.
pub open spec fn valid_time(t: LocalTime) -> bool {
    &&& 1 <= t.month <= 12
    &&& 1 <= t.day <= 31
    &&& t.hour < 24
    &&& t.minute < 60
    &&& t.second < 60
    &&& t.nanosecond < 2_000_000_000
}

/// The second as a timestamp shows it: 60 during a leap second.
pub open spec fn shown_second(t: LocalTime) -> nat {
    (t.second + t.nanosecond / 1_000_000_000) as nat
}

/// The timestamp of a time: `YYYY_MM_DD_HHMMSS`.
pub open spec fn timestamp_text(t: LocalTime) -> Seq<char> {
    year_text(t.year as int) + seq!['_'] + zero_padded(t.month as nat, 2) + seq!['_'] + zero_padded(
        t.day as nat,
        2,
    ) + seq!['_'] + zero_padded(t.hour as nat, 2) + zero_padded(t.minute as nat, 2) + zero_padded(
        shown_second(t),
        2,
    )
}

/// Every character is a decimal digit.
pub open spec fn all_digits(s: Seq<char>) -> bool {
    forall|i: int| 0 <= i < s.len() ==> 48 <= #[trigger] (s[i] as int) <= 57
}

/// The number that a string of decimal digits writes.
pub open spec fn digits_value(s: Seq<char>) -> int
    decreases s.len(),
{
    if s.len() == 0 {
        0
    } else {
        digits_value(s.drop_last()) * 10 + (s.last() as int - 48)
    }
}

/// The digit character for `d < 10` has code `48 + d`.
proof fn lemma_digit_char(d: nat)
    requires
        d < 10,
    ensures
        digit_char(d) as int == 48 + d,
{
    assert('0' as int == 48 && '1' as int == 49 && '2' as int == 50 && '3' as int == 51);
    assert('4' as int == 52 && '5' as int == 53 && '6' as int == 54 && '7' as int == 55);
    assert('8' as int == 56 && '9' as int == 57);
}

/// The decimal notation of `n` is made of digits, writes `n`, and starts
/// with a zero only when `n` is zero.
pub proof fn lemma_decimal_digits(n: nat)
    ensures
        all_digits(decimal_digits(n)),
        digits_value(decimal_digits(n)) == n,
        decimal_digits(n).len() >= 1,
        n > 0 ==> decimal_digits(n)[0] != '0',
        n < 10 ==> decimal_digits(n).len() == 1,
        n < 100 ==> decimal_digits(n).len() <= 2,
        n < 1000 ==> decimal_digits(n).len() <= 3,
        n < 10000 ==> decimal_digits(n).len() <= 4,
    decreases n,
{
    let d = decimal_digits(n);
    lemma_digit_char(n % 10);
    if n < 10 {
        assert(d == seq![digit_char(n)]);
        assert(d.drop_last() =~= Seq::<char>::empty());
        assert(digits_value(Seq::<char>::empty()) == 0);
        assert(n % 10 == n);
        assert(d.last() == digit_char(n));
        assert(digits_value(d) == digits_value(d.drop_last()) * 10 + (d.last() as int - 48));
    } else {
        lemma_decimal_digits(n / 10);
        let prefix = decimal_digits(n / 10);
        assert(d == prefix.push(digit_char(n % 10)));
        assert(d.drop_last() =~= prefix);
        assert(d.last() == digit_char(n % 10));
        assert(digits_value(d) == digits_value(prefix) * 10 + (d.last() as int - 48));
        assert((n / 10) * 10 + n % 10 == n);
        assert(d[0] == prefix[0]);
        assert forall|i: int| 0 <= i < d.len() implies 48 <= #[trigger] (d[i] as int) <= 57 by {
            if i < prefix.len() {
                assert(d[i] == prefix[i]);
            }
        }
    }
}

/// Leading zeros do not change the number a string of digits writes.
proof fn lemma_leading_zeros(k: nat, s: Seq<char>)
    ensures
        digits_value(Seq::new(k, |i: int| '0') + s) == digits_value(s),
    decreases s.len() + k,
{
    let z = Seq::new(k, |i: int| '0');
    if s.len() == 0 {
        assert(z + s =~= z);
        if k > 0 {
            assert(z.drop_last() =~= Seq::new((k - 1) as nat, |i: int| '0'));
            lemma_leading_zeros((k - 1) as nat, s);
            assert(Seq::new((k - 1) as nat, |i: int| '0') + s =~= Seq::new((k - 1) as nat, |i: int| '0'));
        }
    } else {
        assert((z + s).drop_last() =~= z + s.drop_last());
        lemma_leading_zeros(k, s.drop_last());
    }
}

/// A zero-padded number is made of digits, writes the number, and is as
/// long as the width or as the number's own notation.
pub proof fn lemma_zero_padded(n: nat, width: nat)
    ensures
        all_digits(zero_padded(n, width)),
        digits_value(zero_padded(n, width)) == n,
        zero_padded(n, width).len() == if decimal_digits(n).len() >= width {
            decimal_digits(n).len()
        } else {
            width
        },
        n < 100 && width == 2 ==> zero_padded(n, width).len() == 2,
        n < 10000 && width == 4 ==> zero_padded(n, width).len() == 4,
{
    lemma_decimal_digits(n);
    let d = decimal_digits(n);
    if d.len() < width {
        let k = (width - d.len()) as nat;
        lemma_leading_zeros(k, d);
        let zp = Seq::new(k, |i: int| '0') + d;
        assert forall|i: int| 0 <= i < zp.len() implies 48 <= #[trigger] (zp[i] as int) <= 57 by {
            if i >= k {
                assert(zp[i] == d[i - k]);
            }
        }
    }
}

/// The layout of a timestamp: the year, then `_`, the month, `_`, the day,
/// `_`, then the hour, minute and second, each written in two digits that
/// read as that field (the second reads 60 during a leap second). The year
/// reads as the year: four digits for years `0..=9999`, after a `+` above
/// and after a `-` (as the year's magnitude) below.
pub proof fn lemma_timestamp_fields(t: LocalTime)
    requires
        valid_time(t),
    ensures
        ({
            let s = timestamp_text(t);
            let y = s.len() - 13;
            &&& s.len() >= 17
            &&& s[y] == '_' && s[y + 3] == '_' && s[y + 6] == '_'
            &&& all_digits(s.subrange(y + 1, y + 3)) && digits_value(s.subrange(y + 1, y + 3)) == t.month
            &&& all_digits(s.subrange(y + 4, y + 6)) && digits_value(s.subrange(y + 4, y + 6)) == t.day
            &&& all_digits(s.subrange(y + 7, y + 9)) && digits_value(s.subrange(y + 7, y + 9)) == t.hour
            &&& all_digits(s.subrange(y + 9, y + 11)) && digits_value(s.subrange(y + 9, y + 11)) == t.minute
            &&& all_digits(s.subrange(y + 11, y + 13)) && digits_value(s.subrange(y + 11, y + 13)) == t.second
                + t.nanosecond / 1_000_000_000
            &&& 0 <= t.year <= 9999 ==> y == 4 && all_digits(s.subrange(0, 4)) && digits_value(
                s.subrange(0, 4),
            ) == t.year
            &&& t.year > 9999 ==> s[0] == '+' && all_digits(s.subrange(1, y)) && digits_value(
                s.subrange(1, y),
            ) == t.year
            &&& t.year < 0 ==> y >= 5 && s[0] == '-' && all_digits(s.subrange(1, y)) && digits_value(
                s.subrange(1, y),
            ) == -t.year
        }),
{
    let sec = shown_second(t);
    assert(sec == t.second + t.nanosecond / 1_000_000_000);
    assert(sec < 100);
    lemma_zero_padded(t.month as nat, 2);
    lemma_zero_padded(t.day as nat, 2);
    lemma_zero_padded(t.hour as nat, 2);
    lemma_zero_padded(t.minute as nat, 2);
    lemma_zero_padded(sec, 2);
    let yt = year_text(t.year as int);
    let mo = zero_padded(t.month as nat, 2);
    let da = zero_padded(t.day as nat, 2);
    let ho = zero_padded(t.hour as nat, 2);
    let mi = zero_padded(t.minute as nat, 2);
    let se = zero_padded(sec, 2);
    if 0 <= t.year <= 9999 {
        lemma_zero_padded(t.year as nat, 4);
    } else if t.year > 9999 {
        lemma_zero_padded(t.year as nat, 4);
        assert(yt.subrange(1, yt.len() as int) =~= zero_padded(t.year as nat, 4));
    } else {
        lemma_zero_padded((-t.year) as nat, 4);
        assert(yt.subrange(1, yt.len() as int) =~= zero_padded((-t.year) as nat, 4));
    }
    let s = timestamp_text(t);
    let y = yt.len() as int;
    assert(s == yt + seq!['_'] + mo + seq!['_'] + da + seq!['_'] + ho + mi + se);
    assert(s.len() == y + 13);
    assert(s.subrange(y + 1, y + 3) =~= mo);
    assert(s.subrange(y + 4, y + 6) =~= da);
    assert(s.subrange(y + 7, y + 9) =~= ho);
    assert(s.subrange(y + 9, y + 11) =~= mi);
    assert(s.subrange(y + 11, y + 13) =~= se);
    assert(s.subrange(0, y) =~= yt);
    assert(s.subrange(1, y) =~= yt.subrange(1, y));
    assert(s[y] == '_' && s[y + 3] == '_' && s[y + 6] == '_');
    assert(s[0] == yt[0]);
}

/// The name of a checkpoint directory is the timestamp, an underscore, and
/// the step written in decimal digits without leading zeros.
pub proof fn lemma_checkpoint_stem_layout(timestamp: Seq<char>, step: nat)
    ensures
        ({
            let s = checkpoint_stem(timestamp, step);
            let k = timestamp.len() as int;
            &&& s.subrange(0, k) == timestamp
            &&& s[k] == '_'
            &&& s.len() > k + 1
            &&& all_digits(s.subrange(k + 1, s.len() as int))
            &&& digits_value(s.subrange(k + 1, s.len() as int)) == step
            &&& step > 0 ==> s[k + 1] != '0'
        }),
{
    lemma_decimal_digits(step);
    let s = checkpoint_stem(timestamp, step);
    let k = timestamp.len() as int;
    assert(s.subrange(0, k) =~= timestamp);
    assert(s.subrange(k + 1, s.len() as int) =~= decimal_digits(step));
    assert(s[k + 1] == decimal_digits(step)[0]);
}

/// The extension of an exported policy file.
pub open spec fn onnx_extension() -> Seq<char> {
    seq!['.', 'o', 'n', 'n', 'x']
}

/// The name of the checkpoint directory for a step: the timestamp, an
/// underscore and the step in decimal.
pub open spec fn checkpoint_stem(timestamp: Seq<char>, step: nat) -> Seq<char> {
    timestamp + seq!['_'] + decimal_digits(step)
}

/// The file names written for one checkpoint: the directory the parameters
/// are saved in, and the exported policy file beside it.
#[derive(Debug)]
pub struct CheckpointNames {
    pub directory: String,
    pub onnx_file: String,
}

/// Appends a character (`String::push`).
#[verifier::external_body]
fn push_char(s: &mut String, c: char)
    ensures
        final(s)@ == old(s)@.push(c),
{
    s.push(c);
}

/// Appends a string (`String::push_str`).
#[verifier::external_body]
fn push_str(s: &mut String, t: &str)
    ensures
        final(s)@ == old(s)@ + t@,
{
    s.push_str(t);
}

/// The local date and time now (`chrono::Local::now`), read through
/// `Datelike::{year, month, day}` and `Timelike::{hour, minute, second,
/// nanosecond}`, whose documented ranges are what `valid_time` states.
/// It depends on the clock; which time it returns is not stated. chrono
/// panics when the clock is set before 1970 or the local time zone cannot
/// be read; no argument can exclude that, and nothing here states it.
#[verifier::external_body]
fn local_time() -> (t: LocalTime)
    ensures
        valid_time(t),
{
    let now = chrono::Local::now();
    LocalTime {
        year: chrono::Datelike::year(&now),
        month: chrono::Datelike::month(&now),
        day: chrono::Datelike::day(&now),
        hour: chrono::Timelike::hour(&now),
        minute: chrono::Timelike::minute(&now),
        second: chrono::Timelike::second(&now),
        nanosecond: chrono::Timelike::nanosecond(&now),
    }
}

fn digit_char_of(d: usize) -> (c: char)
    requires
        d < 10,
    ensures
        c == digit_char(d as nat),
{
    if d == 0 {
        '0'
    } else if d == 1 {
        '1'
    } else if d == 2 {
        '2'
    } else if d == 3 {
        '3'
    } else if d == 4 {
        '4'
    } else if d == 5 {
        '5'
    } else if d == 6 {
        '6'
    } else if d == 7 {
        '7'
    } else if d == 8 {
        '8'
    } else {
        '9'
    }
}

/// The decimal digits of `n`.
fn decimal_chars(n: usize) -> (digits: Vec<char>)
    ensures
        digits@ == decimal_digits(n as nat),
{
    let mut digits: Vec<char> = Vec::new();
    let mut m: usize = n;
    while m >= 10
        invariant
            decimal_digits(n as nat) == decimal_digits(m as nat) + digits@,
        decreases m,
    {
        let c = digit_char_of(m % 10);
        assert(decimal_digits(m as nat) == decimal_digits((m / 10) as nat).push(c));
        assert(decimal_digits((m / 10) as nat).push(c) + digits@ =~= decimal_digits((m / 10) as nat)
            + digits@.insert(0, c));
        digits.insert(0, c);
        m = m / 10;
    }
    let c = digit_char_of(m);
    assert(decimal_digits(m as nat) == seq![c]);
    assert(seq![c] + digits@ =~= digits@.insert(0, c));
    digits.insert(0, c);
    digits
}

/// Appends the listed characters.
fn push_chars(s: &mut String, chars: &Vec<char>)
    ensures
        final(s)@ == old(s)@ + chars@,
{
    let ghost start = s@;
    for i in 0..chars.len()
        invariant
            s@ == start + chars@.subrange(0, i as int),
    {
        push_char(s, chars[i]);
        assert(chars@.subrange(0, i + 1) =~= chars@.subrange(0, i as int).push(chars@[i as int]));
    }
    assert(chars@.subrange(0, chars.len() as int) =~= chars@);
}

/// Appends `n` in decimal, zero-padded to `width` digits.
fn push_padded(s: &mut String, n: usize, width: usize)
    ensures
        final(s)@ == old(s)@ + zero_padded(n as nat, width as nat),
{
    let digits = decimal_chars(n);
    let ghost start = s@;
    if digits.len() < width {
        let pad = width - digits.len();
        for i in 0..pad
            invariant
                s@ == start + Seq::new(i as nat, |k: int| '0'),
        {
            push_char(s, '0');
            assert(Seq::new(i as nat, |k: int| '0').push('0') =~= Seq::new((i + 1) as nat, |k: int| '0'));
        }
    }
    push_chars(s, &digits);
    assert(s@ =~= start + zero_padded(n as nat, width as nat));
}

/// Writes the timestamp of a time (see `timestamp_text`).
pub fn format_timestamp(t: &LocalTime) -> (text: String)
    requires
        valid_time(*t),
    ensures
        text@ == timestamp_text(*t),
{
    let mut text = String::new();
    if 0 <= t.year && t.year <= 9999 {
        push_padded(&mut text, t.year as usize, 4);
    } else if t.year > 9999 {
        push_char(&mut text, '+');
        push_padded(&mut text, t.year as usize, 4);
    } else {
        push_char(&mut text, '-');
        let magnitude = -(t.year as i64);
        assert(magnitude <= 0x8000_0000);
        push_padded(&mut text, magnitude as usize, 4);
    }
    push_char(&mut text, '_');
    push_padded(&mut text, t.month as usize, 2);
    push_char(&mut text, '_');
    push_padded(&mut text, t.day as usize, 2);
    push_char(&mut text, '_');
    push_padded(&mut text, t.hour as usize, 2);
    push_padded(&mut text, t.minute as usize, 2);
    let second = t.second + t.nanosecond / 1_000_000_000;
    push_padded(&mut text, second as usize, 2);
    assert(text@ =~= timestamp_text(*t));
    text
}

/// The names written for a checkpoint taken at `step` at time `time`.
pub fn checkpoint_names_at(time: &LocalTime, step: usize) -> (names: CheckpointNames)
    requires
        valid_time(*time),
    ensures
        names.directory@ == checkpoint_stem(timestamp_text(*time), step as nat),
        names.onnx_file@ == checkpoint_stem(timestamp_text(*time), step as nat) + onnx_extension(),
{
    let mut directory = format_timestamp(time);
    push_char(&mut directory, '_');
    let digits = decimal_chars(step);
    push_chars(&mut directory, &digits);
    let mut onnx_file = String::new();
    push_str(&mut onnx_file, directory.as_str());
    proof {
        reveal_strlit(".onnx");
    }
    push_str(&mut onnx_file, ".onnx");
    assert(directory@ =~= checkpoint_stem(timestamp_text(*time), step as nat));
    assert(onnx_file@ =~= checkpoint_stem(timestamp_text(*time), step as nat) + onnx_extension());
    CheckpointNames { directory, onnx_file }
}

/// The names written for a checkpoint taken now at `step`: the local
/// timestamp of the clock's current reading, followed by the step.
pub fn checkpoint_names(step: usize) -> (names: CheckpointNames)
    ensures
        exists|time: LocalTime|
            {
                &&& valid_time(time)
                &&& names.directory@ == checkpoint_stem(timestamp_text(time), step as nat)
                &&& names.onnx_file@ == checkpoint_stem(timestamp_text(time), step as nat)
                    + onnx_extension()
            },
{
    let time = local_time();
    checkpoint_names_at(&time, step)
}

} // verus!
