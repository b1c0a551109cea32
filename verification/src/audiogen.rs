//! Developer-only audio generation through the ElevenLabs HTTP API: the
//! checks, formats and texts that can be decided without a network. Sending
//! requests, writing files and parsing JSON bodies happen at the edge.
use crate::dotenv::{dotenv_scan, dotenv_value, strs_view, trimmed_nonempty, trimmed_value};
use crate::text::{
    chars_of, decimal, decimal_chars, extend_chars, extend_str, find_char, find_char_in,
    lemma_find_char, owned, parse_u32, parse_u32_chars, split_once, split_once_chars, string_of,
    sub_chars, trim, trim_chars,
};
use serde_json::Value;
use vstd::prelude::*;

verus! {

/// Default API host.
pub const DEFAULT_BASE_URL: &'static str = "https://api.elevenlabs.io";
/// Environment variable both official SDKs read for the key.
pub const API_KEY_ENV: &'static str = "ELEVENLABS_API_KEY";
/// The only sound effects model the API accepts.
pub const SFX_MODEL: &'static str = "eleven_text_to_sound_v2";
/// Newest music model accepted everywhere on the music endpoints.
pub const DEFAULT_MUSIC_MODEL: &'static str = "music_v2_5";
/// 24 kHz PCM is available on every paid tier.
pub const DEFAULT_SFX_FORMAT: &'static str = "pcm_24000";
/// MP3 at 44.1 kHz and 128 kbps is available on every tier.
pub const DEFAULT_MUSIC_FORMAT: &'static str = "mp3_44100_128";
/// Default output directory relative to the repository root.
pub const DEFAULT_OUT_DIR: &'static str = "client/assets/audio";
/// Shortest music track the API accepts, in milliseconds.
pub const MUSIC_LENGTH_MIN_MS: u32 = 3000;
/// Longest music track the API accepts, in milliseconds.
pub const MUSIC_LENGTH_MAX_MS: u32 = 600000;

#[derive(Debug, Clone, Copy, PartialEq, Eq)]
pub enum Method {
    Get,
    Post,
}

/// One HTTP answer, independent of the client library.
#[derive(Debug, Clone, PartialEq, Eq)]
pub struct Response {
    pub status: u16,
    pub body: Vec<u8>,
}

#[derive(Debug)]
pub enum Error {
    MissingApiKey,
    InvalidArgument(String),
    Transport(String),
    Api { status: u16, message: String },
    Io(std::io::Error),
    Spec(String),
}

/// The text of an error of every kind but `Io`, whose text comes from std.
pub open spec fn error_text(e: Error) -> Seq<char> {
    match e {
        Error::MissingApiKey => "no API key: set ELEVENLABS_API_KEY or pass --api-key-file (see tools/audiogen/README.md)"@,
        Error::InvalidArgument(m) => "invalid argument: "@ + m@,
        Error::Transport(m) => "transport error: "@ + m@,
        Error::Api { status, message } => "API error "@ + decimal(status as nat) + ": "@ + message@,
        Error::Io(_) => "io error: "@,
        Error::Spec(m) => "spec error: "@ + m@,
    }
}

impl Error {
    /// The one-line description of this error.
    pub fn message(&self) -> (s: String)
        ensures
            !(self is Io) ==> s@ == error_text(*self),
            self is Io ==> error_text(*self).is_prefix_of(s@),
    {
        let mut out: Vec<char> = Vec::new();
        match self {
            Error::MissingApiKey => {
                extend_str(
                    &mut out,
                    "no API key: set ELEVENLABS_API_KEY or pass --api-key-file (see tools/audiogen/README.md)",
                );
            },
            Error::InvalidArgument(m) => {
                extend_str(&mut out, "invalid argument: ");
                extend_str(&mut out, m.as_str());
            },
            Error::Transport(m) => {
                extend_str(&mut out, "transport error: ");
                extend_str(&mut out, m.as_str());
            },
            Error::Api { status, message } => {
                extend_str(&mut out, "API error ");
                let d = decimal_chars(*status as u64);
                extend_chars(&mut out, &d);
                extend_str(&mut out, ": ");
                extend_str(&mut out, message.as_str());
            },
            Error::Io(err) => {
                extend_str(&mut out, "io error: ");
                let t = err.to_string();
                extend_str(&mut out, t.as_str());
            },
            Error::Spec(m) => {
                extend_str(&mut out, "spec error: ");
                extend_str(&mut out, m.as_str());
            },
        }
        string_of(&out)
    }
}

impl From<std::io::Error> for Error {
    fn from(err: std::io::Error) -> (r: Self) {
        Error::Io(err)
    }
}

impl vstd::std_specs::convert::FromSpecImpl<std::io::Error> for Error {
    open spec fn obeys_from_spec() -> bool {
        true
    }

    open spec fn from_spec(v: std::io::Error) -> Self {
        Error::Io(v)
    }
}

/// How a requested `output_format` lands on disk.
#[derive(Debug, Clone, PartialEq, Eq)]
pub enum Encoding {
    /// Raw signed 16-bit little-endian samples; wrapped in a WAV header on disk.
    Pcm { sample_rate: u32 },
    Mp3,
    Opus,
}

impl Encoding {
    /// File extension for this encoding.
    pub fn extension(&self) -> (ext: &'static str)
        ensures
            ext@ == match self {
                Encoding::Pcm { .. } => "wav"@,
                Encoding::Mp3 => "mp3"@,
                Encoding::Opus => "opus"@,
            },
    {
        match self {
            Encoding::Pcm { .. } => "wav",
            Encoding::Mp3 => "mp3",
            Encoding::Opus => "opus",
        }
    }
}

/// The codec part of an output format: everything before the first `_`.
pub open spec fn format_codec(format: Seq<char>) -> Seq<char> {
    format.take(find_char(format, '_'))
}

/// The sample-rate part of an output format: the text between the first and
/// the second `_`, when there is a first `_`.
pub open spec fn format_rate_text(format: Seq<char>) -> Option<Seq<char>> {
    match split_once(format, '_') {
        None => None,
        Some((_, rest)) => Some(rest.take(find_char(rest, '_'))),
    }
}

/// The refusal of a format without a readable sample rate.
pub open spec fn no_rate_text(format: Seq<char>) -> Seq<char> {
    "output format '"@ + format + "' has no sample rate"@
}

/// The refusal of a codec other than PCM, MP3 or Opus.
pub open spec fn unsupported_format_text(format: Seq<char>) -> Seq<char> {
    "output format '"@ + format + "' is not supported; use pcm_*, mp3_* or opus_*"@
}

/// What `parse_format` gives: the rate must parse as a `u32`, then the codec
/// decides the encoding.
pub open spec fn parsed_format(format: Seq<char>) -> Result<Encoding, Seq<char>> {
    let rate = match format_rate_text(format) {
        Some(t) => parse_u32(t),
        None => None,
    };
    match rate {
        None => Err(no_rate_text(format)),
        Some(r) => {
            let codec = format_codec(format);
            if codec == "pcm"@ {
                Ok(Encoding::Pcm { sample_rate: r })
            } else if codec == "mp3"@ {
                Ok(Encoding::Mp3)
            } else if codec == "opus"@ {
                Ok(Encoding::Opus)
            } else {
                Err(unsupported_format_text(format))
            }
        },
    }
}

/// Whether `v` holds exactly the characters of `s`.
fn chars_are(v: &Vec<char>, s: &str) -> (b: bool)
    ensures
        b == (v@ == s@),
{
    let w = chars_of(s);
    crate::text::chars_eq(v, &w)
}

fn text_error(parts_a: &str, middle: &Vec<char>, parts_b: &str) -> (s: String)
    ensures
        s@ == parts_a@ + middle@ + parts_b@,
{
    let mut out: Vec<char> = Vec::new();
    extend_str(&mut out, parts_a);
    extend_chars(&mut out, middle);
    extend_str(&mut out, parts_b);
    string_of(&out)
}

/// Parse an ElevenLabs `output_format` value such as `pcm_24000` or
/// `mp3_44100_128`.
pub fn parse_format(format: &str) -> (r: Result<Encoding, Error>)
    ensures
        match parsed_format(format@) {
            Ok(e) => r == Ok::<Encoding, Error>(e),
            Err(m) => r matches Err(Error::InvalidArgument(s)) && s@ == m,
        },
{
    let f = chars_of(format);
    let first = find_char_in(&f, '_');
    proof {
        lemma_find_char(f@, '_');
    }
    let rate = match split_once_chars(&f, '_') {
        None => None,
        Some((_, rest)) => {
            let j = find_char_in(&rest, '_');
            proof {
                lemma_find_char(rest@, '_');
            }
            let rate_text = sub_chars(&rest, 0, j);
            assert(rate_text@ =~= rest@.take(j as int));
            parse_u32_chars(&rate_text)
        },
    };
    match rate {
        None => Err(Error::InvalidArgument(text_error("output format '", &f, "' has no sample rate"))),
        Some(r) => {
            let codec = sub_chars(&f, 0, first);
            assert(codec@ =~= format_codec(f@));
            if chars_are(&codec, "pcm") {
                Ok(Encoding::Pcm { sample_rate: r })
            } else if chars_are(&codec, "mp3") {
                Ok(Encoding::Mp3)
            } else if chars_are(&codec, "opus") {
                Ok(Encoding::Opus)
            } else {
                Err(
                    Error::InvalidArgument(
                        text_error(
                            "output format '",
                            &f,
                            "' is not supported; use pcm_*, mp3_* or opus_*",
                        ),
                    ),
                )
            }
        },
    }
}


/// Characters an asset name may hold.
pub open spec fn name_char_ok(c: char) -> bool {
    let x = c as u32;
    ||| 0x61 <= x <= 0x7a
    ||| 0x30 <= x <= 0x39
    ||| c == '_'
    ||| c == '-'
    ||| c == '/'
}

/// A folder or file part of an asset name: not empty, not `.` or `..`.
pub open spec fn segment_ok(seg: Seq<char>) -> bool {
    seg.len() > 0 && seg != seq!['.'] && seg != seq!['.', '.']
}

/// Every `/`-separated part of `s` is a proper segment.
pub open spec fn segments_ok(s: Seq<char>) -> bool
    decreases s.len(),
{
    let i = find_char(s, '/');
    if 0 <= i < s.len() {
        segment_ok(s.take(i)) && segments_ok(s.skip(i + 1))
    } else {
        segment_ok(s)
    }
}

/// Names are relative asset paths without an extension: `fire_rail` or
/// `music/match_01`.
pub open spec fn valid_name(s: Seq<char>) -> bool {
    &&& s.len() > 0
    &&& forall|i: int| 0 <= i < s.len() ==> name_char_ok(#[trigger] s[i])
    &&& s[0] != '/'
    &&& s.last() != '/'
    &&& segments_ok(s)
}

/// The refusal of an asset name.
pub open spec fn bad_name_text(name: Seq<char>) -> Seq<char> {
    "name '"@ + name
        + "' must be lowercase letters, digits, '_', '-', with '/' for folders, and no extension"@
}

fn name_char_is_ok(c: char) -> (b: bool)
    ensures
        b == name_char_ok(c),
{
    let x = c as u32;
    (0x61 <= x && x <= 0x7a) || (0x30 <= x && x <= 0x39) || c == '_' || c == '-' || c == '/'
}

fn segment_is_ok(seg: &Vec<char>) -> (b: bool)
    ensures
        b == segment_ok(seg@),
{
    if seg.len() == 0 {
        return false;
    }
    let one = seg.len() == 1 && seg[0] == '.';
    let two = seg.len() == 2 && seg[0] == '.' && seg[1] == '.';
    assert(one == (seg@ == seq!['.'])) by {
        if seg@ == seq!['.'] {
            assert(seg@[0] == '.');
        }
        if one {
            assert(seg@ =~= seq!['.']);
        }
    }
    assert(two == (seg@ == seq!['.', '.'])) by {
        if seg@ == seq!['.', '.'] {
            assert(seg@[0] == '.' && seg@[1] == '.');
        }
        if two {
            assert(seg@ =~= seq!['.', '.']);
        }
    }
    !one && !two
}

fn all_segments_ok(v: &Vec<char>) -> (b: bool)
    ensures
        b == segments_ok(v@),
{
    let mut rest = sub_chars(v, 0, v.len());
    assert(rest@ =~= v@);
    loop
        invariant
            segments_ok(v@) == segments_ok(rest@),
        decreases rest.len(),
    {
        proof {
            lemma_find_char(rest@, '/');
        }
        match split_once_chars(&rest, '/') {
            None => {
                return segment_is_ok(&rest);
            },
            Some((seg, tail)) => {
                if !segment_is_ok(&seg) {
                    return false;
                }
                rest = tail;
            },
        }
    }
}

/// Check an asset name: lowercase letters, digits, `_`, `-`, and `/` between
/// non-empty folder parts.
pub fn validate_name(name: &str) -> (r: Result<(), Error>)
    ensures
        valid_name(name@) ==> r is Ok,
        !valid_name(name@) ==> (r matches Err(Error::InvalidArgument(m)) && m@ == bad_name_text(
            name@,
        )),
{
    let v = chars_of(name);
    let mut chars_ok = true;
    let mut i: usize = 0;
    while i < v.len()
        invariant
            i <= v.len(),
            chars_ok == (forall|j: int| 0 <= j < i ==> name_char_ok(#[trigger] v@[j])),
        decreases v.len() - i,
    {
        let ghost before = chars_ok;
        if !name_char_is_ok(v[i]) {
            chars_ok = false;
        }
        i += 1;
        proof {
            if before && name_char_ok(v@[i - 1]) {
                assert forall|j: int| 0 <= j < i implies name_char_ok(#[trigger] v@[j]) by {
                    if j < i - 1 {
                    }
                }
            }
        }
    }
    let ok = v.len() > 0 && chars_ok && v[0] != '/' && v[v.len() - 1] != '/' && all_segments_ok(&v);
    if ok {
        Ok(())
    } else {
        Err(
            Error::InvalidArgument(
                text_error(
                    "name '",
                    &v,
                    "' must be lowercase letters, digits, '_', '-', with '/' for folders, and no extension",
                ),
            ),
        )
    }
}


/// Parameters of one music track.
#[derive(Debug, Clone, PartialEq)]
pub struct MusicParams {
    pub prompt: String,
    pub length_ms: Option<u32>,
    pub model: String,
    pub instrumental: bool,
    pub format: String,
}

/// The music models the API accepts.
pub open spec fn known_music_model(model: Seq<char>) -> bool {
    model == "music_v1"@ || model == "music_v2"@ || model == "music_v2_5"@
}

/// What `MusicParams::validate` decides: the first failed check, in order,
/// with its message.
pub open spec fn music_check(prompt: Seq<char>, length_ms: Option<u32>, model: Seq<char>, format: Seq<char>) -> Result<(), Seq<char>> {
    if trim(prompt).len() == 0 {
        Err("music prompt is empty"@)
    } else if length_ms is Some && !(MUSIC_LENGTH_MIN_MS <= length_ms->0 <= MUSIC_LENGTH_MAX_MS) {
        Err("music length "@ + decimal(length_ms->0 as nat) + " ms is outside 3000..=600000"@)
    } else if !known_music_model(model) {
        Err("music model '"@ + model + "' is not one of music_v1, music_v2, music_v2_5"@)
    } else {
        match parsed_format(format) {
            Ok(_) => Ok(()),
            Err(m) => Err(m),
        }
    }
}

/// Each of the three music models, music_v1, music_v2 and music_v2_5, is
/// accepted with a non-blank prompt, a length in 3000..=600000 ms (or none)
/// and a usable format; any other model name is refused, naming it.
pub proof fn lemma_music_models_accepted(prompt: Seq<char>, length_ms: Option<u32>, model: Seq<char>, format: Seq<char>)
    requires
        trim(prompt).len() > 0,
        match length_ms {
            Some(l) => 3000 <= l <= 600000,
            None => true,
        },
        parsed_format(format) is Ok,
    ensures
        (model == "music_v1"@ || model == "music_v2"@ || model == "music_v2_5"@) ==> music_check(
            prompt,
            length_ms,
            model,
            format,
        ) is Ok,
        !(model == "music_v1"@ || model == "music_v2"@ || model == "music_v2_5"@) ==> music_check(
            prompt,
            length_ms,
            model,
            format,
        ) == Err::<(), Seq<char>>("music model '"@ + model + "' is not one of music_v1, music_v2, music_v2_5"@),
{
}

impl MusicParams {
    /// Reject an empty prompt, a length outside 3000..=600000 ms, an unknown
    /// model or an unusable output format.
    pub fn validate(&self) -> (r: Result<(), Error>)
        ensures
            match music_check(self.prompt@, self.length_ms, self.model@, self.format@) {
                Ok(()) => r is Ok,
                Err(m) => r matches Err(Error::InvalidArgument(s)) && s@ == m,
            },
    {
        let p = chars_of(self.prompt.as_str());
        let t = trim_chars(&p);
        if t.len() == 0 {
            return Err(Error::InvalidArgument(owned("music prompt is empty")));
        }
        if let Some(length_ms) = self.length_ms {
            if !(MUSIC_LENGTH_MIN_MS <= length_ms && length_ms <= MUSIC_LENGTH_MAX_MS) {
                let d = decimal_chars(length_ms as u64);
                return Err(
                    Error::InvalidArgument(
                        text_error("music length ", &d, " ms is outside 3000..=600000"),
                    ),
                );
            }
        }
        let m = chars_of(self.model.as_str());
        if !(chars_are(&m, "music_v1") || chars_are(&m, "music_v2") || chars_are(&m, "music_v2_5")) {
            return Err(
                Error::InvalidArgument(
                    text_error("music model '", &m, "' is not one of music_v1, music_v2, music_v2_5"),
                ),
            );
        }
        match parse_format(self.format.as_str()) {
            Ok(_) => Ok(()),
            Err(e) => Err(e),
        }
    }
}

/// Why a batch spec's item names are refused.
pub enum NameProblem {
    NoItems,
    BadName(Seq<char>),
    Duplicate(Seq<char>),
}

/// Check the item names from position `i` on: each must be a valid name
/// and must not repeat an earlier one.
pub open spec fn names_check_from(names: Seq<Seq<char>>, i: int) -> Result<(), NameProblem>
    decreases names.len() - i,
{
    if i < 0 || i >= names.len() {
        Ok(())
    } else if !valid_name(names[i]) {
        Err(NameProblem::BadName(names[i]))
    } else if names.take(i).contains(names[i]) {
        Err(NameProblem::Duplicate(names[i]))
    } else {
        names_check_from(names, i + 1)
    }
}

/// What a batch spec's item names must be: at least one, each valid, no
/// name twice; the first problem in item order is reported.
pub open spec fn spec_names_check(names: Seq<Seq<char>>) -> Result<(), NameProblem> {
    if names.len() == 0 {
        Err(NameProblem::NoItems)
    } else {
        names_check_from(names, 0)
    }
}

/// The characters of each string.
pub open spec fn strings_view(v: Seq<String>) -> Seq<Seq<char>> {
    v.map_values(|s: String| s@)
}

fn seen_before(names: &Vec<String>, i: usize) -> (b: bool)
    requires
        i < names.len(),
    ensures
        b == strings_view(names@).take(i as int).contains(names@[i as int]@),
{
    let ghost nv = strings_view(names@);
    let mut j: usize = 0;
    while j < i
        invariant
            j <= i < names.len(),
            nv == strings_view(names@),
            forall|k: int| 0 <= k < j ==> nv[k] != nv[i as int],
        decreases i - j,
    {
        if names[j] == names[i] {
            assert(nv.take(i as int)[j as int] == nv[i as int]);
            return true;
        }
        j += 1;
    }
    proof {
        if nv.take(i as int).contains(nv[i as int]) {
            let k = choose|k: int| 0 <= k < i && nv.take(i as int)[k] == nv[i as int];
            assert(nv[k] == nv[i as int]);
        }
    }
    false
}

/// The names of a batch spec's items, checked: at least one item, every
/// name valid, no name twice.
pub fn check_spec_names(names: &Vec<String>) -> (r: Result<(), Error>)
    ensures
        match spec_names_check(strings_view(names@)) {
            Ok(()) => r is Ok,
            Err(NameProblem::NoItems) => r matches Err(Error::Spec(m)) && m@ == "spec has no items"@,
            Err(NameProblem::BadName(n)) => r matches Err(Error::InvalidArgument(m)) && m@ == bad_name_text(n),
            Err(NameProblem::Duplicate(n)) => r matches Err(Error::Spec(m)) && m@ == "duplicate item name '"@ + n + "'"@,
        },
{
    let ghost nv = strings_view(names@);
    if names.len() == 0 {
        return Err(Error::Spec(owned("spec has no items")));
    }
    let mut i: usize = 0;
    while i < names.len()
        invariant
            i <= names.len(),
            names.len() > 0,
            nv == strings_view(names@),
            spec_names_check(nv) == names_check_from(nv, i as int),
        decreases names.len() - i,
    {
        assert(nv[i as int] == names@[i as int]@);
        if let Err(e) = validate_name(names[i].as_str()) {
            return Err(e);
        }
        if seen_before(names, i) {
            let n = chars_of(names[i].as_str());
            return Err(Error::Spec(text_error("duplicate item name '", &n, "'")));
        }
        i += 1;
    }
    Ok(())
}

/// Rate limiting and server-side failures are worth another attempt.
pub fn should_retry(status: u16) -> (b: bool)
    ensures
        b == (status == 429 || (500 <= status < 600)),
{
    status == 429 || (500 <= status && status < 600)
}

/// `2^e`.
pub open spec fn doubling(e: nat) -> nat
    decreases e,
{
    if e == 0 {
        1
    } else {
        2 * doubling((e - 1) as nat)
    }
}

/// `2u32.saturating_pow(e)`.
pub open spec fn saturating_pow2(e: nat) -> u32 {
    if doubling(e) > u32::MAX {
        u32::MAX
    } else {
        doubling(e) as u32
    }
}

/// `2^a <= 2^b` for `a <= b`, and every power of two is at least one.
pub proof fn lemma_doubling_grows(a: nat, b: nat)
    requires
        a <= b,
    ensures
        doubling(a) <= doubling(b),
        doubling(a) >= 1,
    decreases b,
{
    if b > 0 && a < b {
        lemma_doubling_grows(a, (b - 1) as nat);
    }
    if a > 0 {
        lemma_doubling_grows(0, (a - 1) as nat);
    }
}

/// `2u32.saturating_pow(e)`.
pub fn saturating_pow2_u32(e: u32) -> (r: u32)
    ensures
        r == saturating_pow2(e as nat),
{
    let mut r: u32 = 1;
    let mut k: u32 = 0;
    while k < e
        invariant
            k <= e,
            r == saturating_pow2(k as nat),
        decreases e - k,
    {
        proof {
            lemma_doubling_grows(k as nat, (k + 1) as nat);
            assert(doubling((k + 1) as nat) == 2 * doubling(k as nat));
        }
        if r > u32::MAX / 2 {
            r = u32::MAX;
        } else {
            r = r * 2;
        }
        k += 1;
    }
    r
}

/// How many times to retry and how long the first wait is.
#[derive(Debug, PartialEq, Eq)]
pub struct RetryPolicy {
    pub attempts: u32,
    pub base_delay: std::time::Duration,
}

impl Clone for RetryPolicy {
    fn clone(&self) -> (p: Self)
        ensures
            p == *self,
    {
        RetryPolicy { attempts: self.attempts, base_delay: self.base_delay }
    }
}

/// The duration `Duration::from_secs(secs)` gives: `secs` whole seconds.
pub uninterp spec fn secs_duration(secs: u64) -> std::time::Duration;

/// `Duration::from_secs`, which gives a duration of `secs` whole seconds;
/// the contract names that duration.
#[verifier::external_body]
fn duration_from_secs(secs: u64) -> (d: std::time::Duration)
    ensures
        d == secs_duration(secs),
{
    std::time::Duration::from_secs(secs)
}

impl Default for RetryPolicy {
    /// Four attempts, starting from a two second wait.
    fn default() -> (p: Self)
        ensures
            p.attempts == 4,
            p.base_delay == secs_duration(2),
    {
        RetryPolicy { attempts: 4, base_delay: duration_from_secs(2) }
    }
}

/// After `attempt` answers (counting from one) of which the last had
/// `status`, whether to send again and by how many times the base delay to
/// wait first: only for a retryable status while attempts are left, the
/// wait doubling each time and saturating.
pub open spec fn retry_plan(status: u16, attempt: u32, attempts: u32) -> Option<u32> {
    let limit = if attempts == 0 { 1 } else { attempts };
    if (status == 429 || (500 <= status < 600)) && attempt < limit {
        Some(saturating_pow2((attempt - 1) as nat))
    } else {
        None
    }
}

/// The retry decision of one failed answer; see `retry_plan`.
pub fn retry_after(status: u16, attempt: u32, policy: &RetryPolicy) -> (r: Option<u32>)
    requires
        attempt >= 1,
    ensures
        r == retry_plan(status, attempt, policy.attempts),
{
    let limit = if policy.attempts == 0 { 1 } else { policy.attempts };
    if should_retry(status) && attempt < limit {
        Some(saturating_pow2_u32(attempt - 1))
    } else {
        None
    }
}


/// A request is sent at most `attempts` times (once when `attempts` is 0):
/// after that many answers no status asks for another try, and only rate
/// limits and server errors ever do.
pub proof fn lemma_retries_are_bounded(status: u16, attempt: u32, attempts: u32)
    ensures
        attempt >= (if attempts == 0 { 1 } else { attempts }) ==> retry_plan(status, attempt, attempts) is None,
        !(status == 429 || (500 <= status < 600)) ==> retry_plan(status, attempt, attempts) is None,
{
}

/// Each retry waits twice as long as the one before, until the factor no
/// longer fits in a `u32`; no retry follows the last allowed attempt.
pub proof fn lemma_retry_waits_double(status: u16, attempt: u32, attempts: u32)
    requires
        1 <= attempt,
        attempt < u32::MAX,
        retry_plan(status, (attempt + 1) as u32, attempts) is Some,
        doubling(attempt as nat) <= u32::MAX,
    ensures
        retry_plan(status, attempt, attempts) is Some,
        retry_plan(status, (attempt + 1) as u32, attempts)->0 == 2 * retry_plan(status, attempt, attempts)->0,
        attempt + 1 < (if attempts == 0 { 1 } else { attempts }),
{
    lemma_doubling_grows((attempt - 1) as nat, attempt as nat);
    assert(doubling(attempt as nat) == 2 * doubling((attempt - 1) as nat));
}

/// `n.to_le_bytes()` for a `u16`.
pub open spec fn le16(n: nat) -> Seq<u8> {
    seq![(n % 256) as u8, ((n / 256) % 256) as u8]
}

/// `n.to_le_bytes()` for a `u32`.
pub open spec fn le32(n: nat) -> Seq<u8> {
    seq![
        (n % 256) as u8,
        ((n / 256) % 256) as u8,
        ((n / 65536) % 256) as u8,
        ((n / 16777216) % 256) as u8,
    ]
}

/// The four ASCII bytes of a chunk tag.
pub open spec fn tag(a: char, b: char, c: char, d: char) -> Seq<u8> {
    seq![a as u8, b as u8, c as u8, d as u8]
}

/// A canonical 44-byte WAV header for 16-bit PCM, followed by the samples.
pub open spec fn wav_bytes(pcm: Seq<u8>, sample_rate: u32, channels: u16) -> Seq<u8> {
    let len = pcm.len();
    let block_align = channels * 2;
    tag('R', 'I', 'F', 'F') + le32(36 + len) + tag('W', 'A', 'V', 'E') + tag('f', 'm', 't', ' ')
        + le32(16) + le16(1) + le16(channels as nat) + le32(sample_rate as nat) + le32(
        (sample_rate * block_align) as nat,
    ) + le16(block_align as nat) + le16(16) + tag('d', 'a', 't', 'a') + le32(len) + pcm
}

fn push_le16(out: &mut Vec<u8>, n: u16)
    ensures
        final(out)@ == old(out)@ + le16(n as nat),
{
    out.push((n % 256) as u8);
    out.push(((n / 256) % 256) as u8);
    assert(final(out)@ =~= old(out)@ + le16(n as nat));
}

fn push_le32(out: &mut Vec<u8>, n: u32)
    ensures
        final(out)@ == old(out)@ + le32(n as nat),
{
    out.push((n % 256) as u8);
    out.push(((n / 256) % 256) as u8);
    out.push(((n / 65536) % 256) as u8);
    out.push(((n / 16777216) % 256) as u8);
    assert(final(out)@ =~= old(out)@ + le32(n as nat));
}

fn push_tag(out: &mut Vec<u8>, a: char, b: char, c: char, d: char)
    requires
        (a as u32) < 128,
        (b as u32) < 128,
        (c as u32) < 128,
        (d as u32) < 128,
    ensures
        final(out)@ == old(out)@ + tag(a, b, c, d),
{
    out.push(a as u8);
    out.push(b as u8);
    out.push(c as u8);
    out.push(d as u8);
    assert(final(out)@ =~= old(out)@ + tag(a, b, c, d));
}

/// Wrap raw S16LE samples in a canonical 44-byte WAV header. The sizes must
/// fit the header's 32-bit fields.
pub fn wav_from_pcm_s16le(pcm: &[u8], sample_rate: u32, channels: u16) -> (out: Vec<u8>)
    requires
        pcm@.len() + 36 <= u32::MAX,
        channels * 2 <= u16::MAX,
        sample_rate * (channels * 2) <= u32::MAX,
    ensures
        out@ == wav_bytes(pcm@, sample_rate, channels),
{
    let data_len = pcm.len() as u32;
    let block_align: u16 = channels * 2;
    let byte_rate: u32 = sample_rate * (block_align as u32);
    let mut out: Vec<u8> = Vec::new();
    push_tag(&mut out, 'R', 'I', 'F', 'F');
    push_le32(&mut out, 36 + data_len);
    push_tag(&mut out, 'W', 'A', 'V', 'E');
    push_tag(&mut out, 'f', 'm', 't', ' ');
    push_le32(&mut out, 16);
    push_le16(&mut out, 1);
    push_le16(&mut out, channels);
    push_le32(&mut out, sample_rate);
    push_le32(&mut out, byte_rate);
    push_le16(&mut out, block_align);
    push_le16(&mut out, 16);
    push_tag(&mut out, 'd', 'a', 't', 'a');
    push_le32(&mut out, data_len);
    let ghost head = out@;
    let mut i: usize = 0;
    while i < pcm.len()
        invariant
            i <= pcm@.len(),
            out@ == head + pcm@.take(i as int),
        decreases pcm@.len() - i,
    {
        out.push(pcm[i]);
        i += 1;
        assert(pcm@.take(i as int) =~= pcm@.take(i - 1).push(pcm@[i - 1]));
    }
    assert(pcm@.take(pcm@.len() as int) =~= pcm@);
    out
}

/// Convert a response body into the bytes that go on disk: PCM is wrapped in
/// a WAV header for `pcm_channels` channels and reports that count, other
/// encodings pass through and report 0. How many channels a PCM body holds
/// is estimated by the caller from its expected duration.
pub fn encode_output(body: Vec<u8>, encoding: &Encoding, pcm_channels: u16) -> (r: (Vec<u8>, u16))
    requires
        encoding is Pcm ==> (body@.len() + 36 <= u32::MAX && pcm_channels * 2 <= u16::MAX
            && encoding->sample_rate * (pcm_channels * 2) <= u32::MAX),
    ensures
        match encoding {
            Encoding::Pcm { sample_rate } => r.0@ == wav_bytes(body@, *sample_rate, pcm_channels)
                && r.1 == pcm_channels,
            _ => r.0@ == body@ && r.1 == 0,
        },
{
    match encoding {
        Encoding::Pcm { sample_rate } => {
            let wav = wav_from_pcm_s16le(body.as_slice(), *sample_rate, pcm_channels);
            (wav, pcm_channels)
        },
        _ => (body, 0),
    }
}

/// Subset of the subscription response that is reported. Credits are exposed
/// under the historical "character" field names.
#[derive(Debug, Clone, Default, PartialEq, Eq)]
pub struct Subscription {
    pub tier: Option<String>,
    pub status: Option<String>,
    pub character_count: Option<u64>,
    pub character_limit: Option<u64>,
    pub next_character_count_reset_unix: Option<u64>,
}

/// The text, or `unknown` when absent.
pub open spec fn or_unknown(v: Option<String>) -> Seq<char> {
    match v {
        Some(s) => s@,
        None => "unknown"@,
    }
}

/// The count, or zero when absent.
pub open spec fn count_or_zero(v: Option<u64>) -> nat {
    match v {
        Some(n) => n as nat,
        None => 0,
    }
}

/// The quota report: tier, status, credits used of the limit with what
/// remains (never below zero), and when the count resets.
pub open spec fn subscription_text(sub: Subscription) -> Seq<char> {
    let used = count_or_zero(sub.character_count);
    let limit = count_or_zero(sub.character_limit);
    let remaining: nat = if limit >= used { (limit - used) as nat } else { 0 };
    let reset = match sub.next_character_count_reset_unix {
        Some(unix) => decimal(unix as nat) + " (unix)"@,
        None => "unknown"@,
    };
    "tier: "@ + or_unknown(sub.tier) + "\nstatus: "@ + or_unknown(sub.status) + "\ncredits used: "@
        + decimal(used) + " of "@ + decimal(limit) + " (remaining "@ + decimal(remaining)
        + ")\nresets at: "@ + reset
}

fn extend_or_unknown(out: &mut Vec<char>, v: &Option<String>)
    ensures
        final(out)@ == old(out)@ + or_unknown(*v),
{
    match v {
        Some(s) => extend_str(out, s.as_str()),
        None => extend_str(out, "unknown"),
    }
}

/// Describe a subscription in four lines.
pub fn describe_subscription(sub: &Subscription) -> (s: String)
    ensures
        s@ == subscription_text(*sub),
{
    let used: u64 = match sub.character_count {
        Some(n) => n,
        None => 0,
    };
    let limit: u64 = match sub.character_limit {
        Some(n) => n,
        None => 0,
    };
    let remaining = limit.saturating_sub(used);
    let mut out: Vec<char> = Vec::new();
    extend_str(&mut out, "tier: ");
    extend_or_unknown(&mut out, &sub.tier);
    extend_str(&mut out, "\nstatus: ");
    extend_or_unknown(&mut out, &sub.status);
    extend_str(&mut out, "\ncredits used: ");
    extend_chars(&mut out, &decimal_chars(used));
    extend_str(&mut out, " of ");
    extend_chars(&mut out, &decimal_chars(limit));
    extend_str(&mut out, " (remaining ");
    extend_chars(&mut out, &decimal_chars(remaining));
    extend_str(&mut out, ")\nresets at: ");
    match sub.next_character_count_reset_unix {
        Some(unix) => {
            extend_chars(&mut out, &decimal_chars(unix));
            extend_str(&mut out, " (unix)");
        },
        None => extend_str(&mut out, "unknown"),
    }
    let r = string_of(&out);
    assert(r@ =~= subscription_text(*sub));
    r
}


/// Key names accepted in a `.env` file, compared ignoring ASCII case.
pub open spec fn dotenv_key_names() -> Seq<Seq<char>> {
    seq!["ELEVENLABS_API_KEY"@, "ELEVENLABS"@, "ELEVENLABS_KEY"@, "XI_API_KEY"@]
}

/// The API key a `.env` style text holds: the first line naming one of the
/// accepted keys with a non-empty value.
pub fn dotenv_key(text: &str) -> (r: Option<String>)
    ensures
        match dotenv_scan(text@, dotenv_key_names()) {
            None => r is None,
            Some(v) => r matches Some(s) && s@ == v,
        },
{
    let names: [&str; 4] = ["ELEVENLABS_API_KEY", "ELEVENLABS", "ELEVENLABS_KEY", "XI_API_KEY"];
    assert(strs_view(names@) =~= dotenv_key_names());
    dotenv_value(text, &names)
}

/// Resolve the API key: the key file's text wins over the environment's
/// value; whitespace is trimmed, and nothing left is a missing key.
pub fn resolve_api_key(env_value: Option<String>, key_file_text: Option<String>) -> (r: Result<String, Error>)
    ensures
        match (match key_file_text {
            Some(t) => Some(t@),
            None => match env_value {
                Some(v) => Some(v@),
                None => None,
            },
        }) {
            Some(raw) => match trimmed_nonempty(raw) {
                Some(k) => r matches Ok(s) && s@ == k,
                None => r matches Err(Error::MissingApiKey),
            },
            None => r matches Err(Error::MissingApiKey),
        },
{
    let raw = match key_file_text {
        Some(t) => Some(t),
        None => env_value,
    };
    match raw {
        Some(value) => match trimmed_value(value.as_str()) {
            Some(k) => Ok(k),
            None => Err(Error::MissingApiKey),
        },
        None => Err(Error::MissingApiKey),
    }
}

/// The voice ids of a comma-separated list, trimmed, empty ones dropped.
pub open spec fn voice_ids(s: Seq<char>) -> Seq<Seq<char>>
    decreases s.len(),
{
    let i = find_char(s, ',');
    let head = trim(s.take(i));
    let tail = if 0 <= i < s.len() {
        voice_ids(s.skip(i + 1))
    } else {
        Seq::<Seq<char>>::empty()
    };
    if head.len() > 0 {
        seq![head] + tail
    } else {
        tail
    }
}

/// The refusal of a malformed voice casting.
pub open spec fn bad_voice_text(raw: Seq<char>) -> Seq<char> {
    "expected speaker=<voice_id>, got '"@ + raw + "'"@
}

/// `speaker=id` or `speaker=id1,id2`: the trimmed speaker and its ids, both
/// required.
pub open spec fn voice_assignment(raw: Seq<char>) -> Result<(Seq<char>, Seq<Seq<char>>), Seq<char>> {
    match split_once(raw, '=') {
        None => Err(bad_voice_text(raw)),
        Some((speaker, ids)) => {
            let sp = trim(speaker);
            let v = voice_ids(ids);
            if sp.len() == 0 || v.len() == 0 {
                Err(bad_voice_text(raw))
            } else {
                Ok((sp, v))
            }
        },
    }
}

fn voice_id_list(ids: &Vec<char>) -> (r: Vec<String>)
    ensures
        strings_view(r@) == voice_ids(ids@),
{
    let mut rest = sub_chars(ids, 0, ids.len());
    assert(rest@ =~= ids@);
    let mut out: Vec<String> = Vec::new();
    loop
        invariant
            voice_ids(ids@) == strings_view(out@) + voice_ids(rest@),
        decreases rest.len(),
    {
        proof {
            lemma_find_char(rest@, ',');
        }
        let i = find_char_in(&rest, ',');
        let head = trim_chars(&sub_chars(&rest, 0, i));
        let ghost old_out = strings_view(out@);
        if head.len() > 0 {
            out.push(string_of(&head));
        }
        assert(strings_view(out@) =~= old_out + (if head@.len() > 0 { seq![head@] } else { Seq::<Seq<char>>::empty() }));
        if i < rest.len() {
            let tail = sub_chars(&rest, i + 1, rest.len());
            assert(tail@ =~= rest@.skip(i + 1));
            rest = tail;
        } else {
            assert(strings_view(out@) =~= voice_ids(ids@));
            return out;
        }
    }
}

/// Parse one `--voice speaker=id1,id2` casting.
pub fn parse_voice_assignment(raw: &str) -> (r: Result<(String, Vec<String>), String>)
    ensures
        match voice_assignment(raw@) {
            Ok((sp, ids)) => r matches Ok((s, v)) && s@ == sp && strings_view(v@) == ids,
            Err(m) => r matches Err(e) && e@ == m,
        },
{
    let v = chars_of(raw);
    match split_once_chars(&v, '=') {
        None => Err(text_error("expected speaker=<voice_id>, got '", &v, "'")),
        Some((speaker, ids)) => {
            let sp = trim_chars(&speaker);
            let list = voice_id_list(&ids);
            if sp.len() == 0 || list.len() == 0 {
                Err(text_error("expected speaker=<voice_id>, got '", &v, "'"))
            } else {
                Ok((string_of(&sp), list))
            }
        },
    }
}

/// Whether the item at `i` is selected by `only`.
pub open spec fn batch_selects(names: Seq<Seq<char>>, only: Option<Seq<char>>, i: int) -> bool {
    match only {
        None => true,
        Some(w) => names[i] == w,
    }
}

/// The indices of the batch items to generate, in item order: every item, or
/// the ones named `only`. Naming no item is an error.
pub fn select_batch(names: &Vec<String>, only: Option<&str>) -> (r: Result<Vec<usize>, Error>)
    ensures
        ({
            let nv = strings_view(names@);
            let ov = match only {
                Some(o) => Some(o@),
                None => None,
            };
            match r {
                Ok(idx) => {
                    &&& idx@.len() > 0
                    &&& forall|k: int| 0 <= k < idx@.len() ==> idx@[k] < names@.len() && batch_selects(nv, ov, #[trigger] idx@[k] as int)
                    &&& forall|k: int, l: int| 0 <= k < l < idx@.len() ==> idx@[k] < idx@[l]
                    &&& forall|i: int| 0 <= i < names@.len() && batch_selects(nv, ov, i) ==> idx@.contains(i as usize)
                },
                Err(e) => {
                    &&& forall|i: int| 0 <= i < names@.len() ==> !batch_selects(nv, ov, i)
                    &&& e matches Error::Spec(m) && m@ == "no spec item named '"@ + match ov {
                        Some(o) => o,
                        None => Seq::<char>::empty(),
                    } + "'"@
                },
            }
        }),
{
    let ghost nv = strings_view(names@);
    let ghost ov = match only {
        Some(o) => Some(o@),
        None => None,
    };
    let wanted: Option<String> = match only {
        Some(o) => Some(owned(o)),
        None => None,
    };
    let mut idx: Vec<usize> = Vec::new();
    let mut i: usize = 0;
    while i < names.len()
        invariant
            i <= names.len(),
            nv == strings_view(names@),
            ov == (match only { Some(o) => Some(o@), None => None::<Seq<char>> }),
            wanted matches Some(w) ==> ov == Some(w@),
            wanted is None ==> ov is None,
            forall|k: int| 0 <= k < idx@.len() ==> idx@[k] < i && batch_selects(nv, ov, #[trigger] idx@[k] as int),
            forall|k: int, l: int| 0 <= k < l < idx@.len() ==> idx@[k] < idx@[l],
            forall|j: int| 0 <= j < i && batch_selects(nv, ov, j) ==> idx@.contains(j as usize),
        decreases names.len() - i,
    {
        let take = match &wanted {
            None => true,
            Some(w) => names[i] == *w,
        };
        assert(nv[i as int] == names@[i as int]@);
        let ghost old_idx = idx@;
        if take {
            idx.push(i);
            assert(idx@[idx@.len() - 1] == i);
        }
        proof {
            assert forall|j: int| 0 <= j < i + 1 && batch_selects(nv, ov, j) implies idx@.contains(j as usize) by {
                if j < i {
                    assert(old_idx.contains(j as usize));
                    let k = choose|k: int| 0 <= k < old_idx.len() && old_idx[k] == j as usize;
                    assert(idx@[k] == old_idx[k]);
                } else {
                    assert(idx@[idx@.len() - 1] == i);
                }
            }
        }
        i += 1;
    }
    if idx.len() == 0 {
        let o = match only {
            Some(o) => chars_of(o),
            None => Vec::new(),
        };
        proof {
            assert forall|j: int| 0 <= j < names@.len() implies !batch_selects(nv, ov, j) by {
                if batch_selects(nv, ov, j) {
                    assert(idx@.contains(j as usize));
                }
            }
        }
        return Err(Error::Spec(text_error("no spec item named '", &o, "'")));
    }
    Ok(idx)
}

/// What the generator does with one job once its request is built.
#[derive(Debug, Clone, Copy, PartialEq, Eq)]
pub enum JobStep {
    /// Report the request; call nothing, write nothing.
    DryRun,
    /// The file is there and may not be replaced.
    Skip,
    /// Call the API and write the file.
    Generate,
}

/// A dry run never calls the API; otherwise an existing file is kept unless
/// overwriting was asked for.
pub fn job_step(dry_run: bool, exists: bool, overwrite: bool) -> (step: JobStep)
    ensures
        step == (if dry_run {
            JobStep::DryRun
        } else if exists && !overwrite {
            JobStep::Skip
        } else {
            JobStep::Generate
        }),
{
    if dry_run {
        JobStep::DryRun
    } else if exists && !overwrite {
        JobStep::Skip
    } else {
        JobStep::Generate
    }
}

/// Where and how the audio files are written.
#[derive(Debug, Clone, Default, PartialEq)]
pub struct RunOptions {
    pub out_dir: Option<std::path::PathBuf>,
    pub overwrite: bool,
    pub dry_run: bool,
}


/// One entry of a validation error list: each part of its `loc` array
/// (none when `loc` is missing or not an array), as its text when it is a
/// string; and its `msg` when that is a string.
#[derive(Debug, Clone, PartialEq, Eq)]
pub struct ValidationItem {
    pub loc: Vec<Option<String>>,
    pub msg: Option<String>,
}

/// The `detail` member of an API error body, by shape.
#[derive(Debug, Clone, PartialEq, Eq)]
pub enum ErrorDetail {
    /// `{"detail": {"code": .., "status": .., "message": ..}}`.
    /// `code` when present (its text when it is a string); `status` and
    /// `message` when they are strings.
    Object { code: Option<Option<String>>, status: Option<String>, message: Option<String> },
    /// `{"detail": [{"loc": [..], "msg": ..}, ..]}`.
    List(Vec<ValidationItem>),
    /// `{"detail": "text"}`.
    Text(String),
}

/// `parts.join(sep)`.
pub open spec fn join(parts: Seq<Seq<char>>, sep: Seq<char>) -> Seq<char>
    decreases parts.len(),
{
    if parts.len() == 0 {
        Seq::<char>::empty()
    } else if parts.len() == 1 {
        parts[0]
    } else {
        join(parts.drop_last(), sep) + sep + parts.last()
    }
}

/// `s.trim_end_matches(pat)` for a non-empty pattern.
pub open spec fn trim_end_matches(s: Seq<char>, pat: Seq<char>) -> Seq<char>
    decreases s.len(),
{
    if pat.len() > 0 && s.len() >= pat.len() && s.skip(s.len() - pat.len()) == pat {
        trim_end_matches(s.take(s.len() - pat.len()), pat)
    } else {
        s
    }
}

/// The code an error object reports: its `code` member when present (when
/// that is not a string, `error`), else its `status` likewise, else `error`.
pub open spec fn detail_code(code: Option<Option<String>>, status: Option<String>) -> Seq<char> {
    match code {
        Some(Some(c)) => c@,
        Some(None) => "error"@,
        None => match status {
            Some(s) => s@,
            None => "error"@,
        },
    }
}

/// The string parts of a location, in order; other parts are skipped.
pub open spec fn text_parts(loc: Seq<Option<String>>) -> Seq<Seq<char>>
    decreases loc.len(),
{
    if loc.len() == 0 {
        Seq::<Seq<char>>::empty()
    } else {
        match loc.last() {
            Some(t) => text_parts(loc.drop_last()).push(t@),
            _ => text_parts(loc.drop_last()),
        }
    }
}

/// A member's text when it is a string, else `default`.
pub open spec fn text_or(v: Option<String>, default: Seq<char>) -> Seq<char> {
    match v {
        Some(t) => t@,
        _ => default,
    }
}

/// One validation entry: `field: msg`, or just the message when no part of
/// its location is a string; a message that is not a string reads `invalid`.
pub open spec fn item_text(item: ValidationItem) -> Seq<char> {
    let field = join(text_parts(item.loc@), "."@);
    let msg = text_or(item.msg, "invalid"@);
    if field.len() == 0 {
        msg
    } else {
        field + ": "@ + msg
    }
}

/// The first 200 characters of the body, or a note that it was empty.
pub open spec fn body_snippet_text(status: u16, text: Seq<char>) -> Seq<char> {
    let snippet = if text.len() <= 200 { text } else { text.take(200) };
    if trim(snippet).len() == 0 {
        "HTTP "@ + decimal(status as nat) + " with empty body"@
    } else {
        snippet
    }
}

/// One readable line for an API error: from the structured, validation or
/// plain `detail` shape when the body has one, else from the body text.
pub open spec fn api_error_text(status: u16, text: Seq<char>, detail: Option<ErrorDetail>) -> Seq<char> {
    match detail {
        Some(ErrorDetail::Object { code, status: st, message }) => trim_end_matches(
            detail_code(code, st) + ": "@ + text_or(message, Seq::<char>::empty()),
            ": "@,
        ),
        Some(ErrorDetail::List(items)) => "validation failed: "@ + join(
            items@.map_values(|i: ValidationItem| item_text(i)),
            "; "@,
        ),
        Some(ErrorDetail::Text(t)) => t@,
        None => body_snippet_text(status, text),
    }
}

/// Join character strings with a separator.
pub fn join_chars(parts: &Vec<Vec<char>>, sep: &str) -> (r: Vec<char>)
    ensures
        r@ == join(parts@.map_values(|p: Vec<char>| p@), sep@),
{
    let ghost pv = parts@.map_values(|p: Vec<char>| p@);
    let mut out: Vec<char> = Vec::new();
    let mut i: usize = 0;
    while i < parts.len()
        invariant
            i <= parts.len(),
            pv == parts@.map_values(|p: Vec<char>| p@),
            out@ == join(pv.take(i as int), sep@),
        decreases parts.len() - i,
    {
        let ghost prev = pv.take(i as int);
        if i > 0 {
            extend_str(&mut out, sep);
        }
        extend_chars(&mut out, &parts[i]);
        i += 1;
        proof {
            let cur = pv.take(i as int);
            assert(cur.drop_last() =~= prev);
            assert(cur.last() == parts@[i - 1]@);
            if i == 1 {
                assert(out@ =~= cur[0]);
            }
        }
    }
    assert(pv.take(parts.len() as int) =~= pv);
    out
}

/// `s.trim_end_matches(pat)` on characters, for a non-empty pattern.
pub fn trim_end_matches_chars(v: &Vec<char>, pat: &Vec<char>) -> (r: Vec<char>)
    requires
        pat@.len() > 0,
    ensures
        r@ == trim_end_matches(v@, pat@),
{
    let mut end = v.len();
    assert(v@.take(v.len() as int) =~= v@);
    loop
        invariant
            end <= v.len(),
            pat@.len() > 0,
            trim_end_matches(v@, pat@) == trim_end_matches(v@.take(end as int), pat@),
        decreases end,
    {
        let ghost cur = v@.take(end as int);
        if end < pat.len() {
            let r = sub_chars(v, 0, end);
            assert(r@ =~= cur);
            return r;
        }
        let tail = sub_chars(v, end - pat.len(), end);
        assert(tail@ =~= cur.skip(cur.len() - pat@.len()));
        if !crate::text::chars_eq(&tail, pat) {
            let r = sub_chars(v, 0, end);
            assert(r@ =~= cur);
            return r;
        }
        assert(cur.take(cur.len() - pat@.len()) =~= v@.take(end - pat@.len()));
        end = end - pat.len();
    }
}

fn item_chars(item: &ValidationItem) -> (r: Vec<char>)
    ensures
        r@ == item_text(*item),
{
    let mut parts: Vec<Vec<char>> = Vec::new();
    let mut i: usize = 0;
    assert(item.loc@.take(0) =~= Seq::<Option<String>>::empty());
    while i < item.loc.len()
        invariant
            i <= item.loc.len(),
            parts@.map_values(|p: Vec<char>| p@) == text_parts(item.loc@.take(i as int)),
        decreases item.loc.len() - i,
    {
        let ghost before = parts@;
        let ghost t = item.loc@.take(i + 1);
        assert(t.drop_last() =~= item.loc@.take(i as int));
        assert(t.last() == item.loc@[i as int]);
        if let Some(part) = &item.loc[i] {
            parts.push(chars_of(part.as_str()));
            assert(parts@.map_values(|p: Vec<char>| p@) =~= before.map_values(|p: Vec<char>| p@).push(
                part@,
            ));
        }
        i += 1;
    }
    assert(item.loc@.take(i as int) =~= item.loc@);
    let field = join_chars(&parts, ".");
    let mut out: Vec<char> = Vec::new();
    if field.len() > 0 {
        extend_chars(&mut out, &field);
        extend_str(&mut out, ": ");
    }
    match &item.msg {
        Some(m) => extend_str(&mut out, m.as_str()),
        None => extend_str(&mut out, "invalid"),
    }
    out
}

/// The readable line for an API error whose body reads as `text` (UTF-8,
/// invalid sequences replaced) and whose `detail` member, when the body is
/// JSON and that member is an object, a list or a string, is `detail`.
pub fn describe_api_error(status: u16, text: &str, detail: Option<&ErrorDetail>) -> (s: String)
    ensures
        s@ == api_error_text(status, text@, match detail {
            Some(d) => Some(*d),
            None => None,
        }),
{
    match detail {
        Some(ErrorDetail::Object { code, status: st, message }) => {
            let mut out: Vec<char> = Vec::new();
            match code {
                Some(Some(c)) => extend_str(&mut out, c.as_str()),
                Some(None) => extend_str(&mut out, "error"),
                None => match st {
                    Some(t) => extend_str(&mut out, t.as_str()),
                    _ => extend_str(&mut out, "error"),
                },
            }
            extend_str(&mut out, ": ");
            if let Some(m) = message {
                extend_str(&mut out, m.as_str());
            }
            let sep = chars_of(": ");
            proof {
                reveal_strlit(": ");
            }
            let trimmed = trim_end_matches_chars(&out, &sep);
            proof {
                match message {
                    Some(m) => {},
                    None => {
                        assert(out@ =~= detail_code(*code, *st) + ": "@ + Seq::<char>::empty());
                    },
                }
            }
            string_of(&trimmed)
        },
        Some(ErrorDetail::List(items)) => {
            let mut parts: Vec<Vec<char>> = Vec::new();
            let mut i: usize = 0;
            while i < items.len()
                invariant
                    i <= items.len(),
                    parts@.len() == i,
                    forall|k: int| 0 <= k < i ==> (#[trigger] parts@[k])@ == item_text(items@[k]),
                decreases items.len() - i,
            {
                parts.push(item_chars(&items[i]));
                i += 1;
            }
            assert(parts@.map_values(|p: Vec<char>| p@) =~= items@.map_values(
                |it: ValidationItem| item_text(it),
            ));
            let joined = join_chars(&parts, "; ");
            let mut out: Vec<char> = Vec::new();
            extend_str(&mut out, "validation failed: ");
            extend_chars(&mut out, &joined);
            string_of(&out)
        },
        Some(ErrorDetail::Text(t)) => owned(t.as_str()),
        None => {
            let v = chars_of(text);
            let snippet = if v.len() <= 200 {
                sub_chars(&v, 0, v.len())
            } else {
                sub_chars(&v, 0, 200)
            };
            assert(snippet@ =~= (if v@.len() <= 200 { v@ } else { v@.take(200) }));
            let t = trim_chars(&snippet);
            if t.len() == 0 {
                let d = decimal_chars(status as u64);
                text_error("HTTP ", &d, " with empty body")
            } else {
                string_of(&snippet)
            }
        },
    }
}

/// What `String::from_utf8_lossy` reads from `bytes`: the UTF-8 text, each
/// invalid sequence replaced by U+FFFD.
pub uninterp spec fn utf8_lossy(bytes: Seq<u8>) -> Seq<char>;

/// `String::from_utf8_lossy`, owned. The contract only names the result: it
/// is a function of the bytes, and what it is is left to std.
#[verifier::external_body]
fn lossy_text(body: &[u8]) -> (s: String)
    ensures
        s@ == utf8_lossy(body@),
{
    String::from_utf8_lossy(body).into_owned()
}

/// The `detail` member of `text` read as JSON by `serde_json::from_str`: none
/// when the text is not JSON, has no `detail` or the member is not an object,
/// a list or a string. Of an object, `code` when present (its text when it
/// is a string) and `status` and `message` when they are strings; of each list entry, every part of its
/// `loc` array and its `msg`, each when it is a string.
pub uninterp spec fn json_error_detail(text: Seq<char>) -> Option<ErrorDetail>;

/// `serde_json::from_str::<Value>`, then the `detail` member converted member
/// by member. The contract only names the result, a function of the text.
#[verifier::external_body]
fn parse_error_detail(text: &str) -> (d: Option<ErrorDetail>)
    ensures
        d == json_error_detail(text@),
{
    let g = |v: &Value| v.as_str().map(String::from);
    let v: Value = serde_json::from_str(text).ok()?;
    let d = &v["detail"];
    Some(match d {
        Value::Object(o) => ErrorDetail::Object { code: o.get("code").map(g), status: g(&d["status"]), message: g(&d["message"]) },
        Value::Array(a) => ErrorDetail::List(a.iter().map(|i| ValidationItem { loc: i["loc"].as_array().into_iter().flatten().map(g).collect(), msg: g(&i["msg"]) }).collect()),
        _ => ErrorDetail::Text(d.as_str()?.into()),
    })
}

/// Turn an error body into one readable line. Handles the structured
/// `{"detail": {...}}` shape, the validation `{"detail": [...]}` shape, and
/// plain text.
pub fn api_error_message(status: u16, body: &[u8]) -> (s: String)
    ensures
        s@ == api_error_text(status, utf8_lossy(body@), json_error_detail(utf8_lossy(body@))),
{
    let text = lossy_text(body);
    let detail = parse_error_detail(text.as_str());
    describe_api_error(status, text.as_str(), detail.as_ref())
}

} // verus!
