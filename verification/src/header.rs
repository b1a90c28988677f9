//! The out-of-band codec header, carried in the artifact's file name.
//!
//! The header has no storage region of its own: at encode time it is
//! serialized into the output file's base name as the suffix
//! `_SR<sampleRate>` followed by `_LOG` or `_LIN` (frequency axis) and
//! `_PHASE` or `_MAG` (phase handling), e.g. `song_SR44100_LOG_PHASE`.  The
//! decode path parses the tokens back out of the name: the digits after the
//! last `_SR` give the sample rate (44100 when absent or unreadable), the
//! presence of `_LOG` selects the logarithmic axis, and the presence of
//! `_MAG` marks the image as magnitude-only.  A name without tokens decodes
//! to the documented defaults rather than failing.
//!
//! Both directions are verified against one pair of specification functions,
//! and `lemma_header_round_trip` proves that a name written by the encoder
//! always parses back to the header it came from.

use vstd::prelude::*;
use vstd::string::*;

verus! {

/// How the frequency axis of the image is spaced.
#[derive(Clone, Copy, Debug, PartialEq, Eq, Structural)]
pub enum ScaleMode {
    /// Bins spaced as the transform produced them.
    Linear,
    /// Bins remapped so equal pixel distances are equal frequency ratios.
    Logarithmic,
}

/// Whether the image's hue channel carries phase.
#[derive(Clone, Copy, Debug, PartialEq, Eq, Structural)]
pub enum PhaseMode {
    /// Hue encodes the wrapped phase of each bin.
    PhaseEncoded,
    /// The image is magnitude-only; decode estimates a phase track.
    MagnitudeOnly,
}

/// The header carried out-of-band in the artifact's name.
#[derive(Clone, Copy, Debug, PartialEq, Eq, Structural)]
pub struct CodecHeader {
    /// Sample rate of the source audio, in Hz.
    pub sample_rate: u32,
    /// Frequency axis of the image.
    pub scale: ScaleMode,
    /// Phase handling of the image.
    pub phase: PhaseMode,
}

/// The sample-rate marker.
pub open spec fn sr_token() -> Seq<char> {
    seq!['_', 'S', 'R']
}

/// Marker of the logarithmic frequency axis.
pub open spec fn log_token() -> Seq<char> {
    seq!['_', 'L', 'O', 'G']
}

/// Marker of the linear frequency axis.
pub open spec fn lin_token() -> Seq<char> {
    seq!['_', 'L', 'I', 'N']
}

/// Marker of a phase-carrying image.
pub open spec fn phase_token() -> Seq<char> {
    seq!['_', 'P', 'H', 'A', 'S', 'E']
}

/// Marker of a magnitude-only image.
pub open spec fn mag_token() -> Seq<char> {
    seq!['_', 'M', 'A', 'G']
}

/// `pat` stands in `s` at position `i`.
pub open spec fn occurs_at(s: Seq<char>, pat: Seq<char>, i: int) -> bool {
    &&& 0 <= i
    &&& i + pat.len() <= s.len()
    &&& s.subrange(i, i + pat.len() as int) == pat
}

/// `pat` stands somewhere in `s`.
pub open spec fn contains_seq(s: Seq<char>, pat: Seq<char>) -> bool {
    exists|i: int| occurs_at(s, pat, i)
}

/// Position of the last stand of `pat` in `s`, or -1 when `pat` does not
/// stand in `s` (or is empty).
pub open spec fn spec_rfind(s: Seq<char>, pat: Seq<char>) -> int
    decreases s.len(),
{
    if pat.len() == 0 || s.len() < pat.len() {
        -1
    } else if occurs_at(s, pat, s.len() - pat.len()) {
        s.len() - pat.len()
    } else {
        spec_rfind(s.drop_last(), pat)
    }
}

/// An ASCII decimal digit.
pub open spec fn is_digit_char(c: char) -> bool {
    '0' as int <= c as int && c as int <= '9' as int
}

/// Numeric value of one digit.
pub open spec fn digit_val(c: char) -> int {
    c as int - '0' as int
}

/// A found position is a real stand of the pattern.
pub proof fn lemma_rfind_occurs(s: Seq<char>, pat: Seq<char>)
    requires
        spec_rfind(s, pat) >= 0,
    ensures
        occurs_at(s, pat, spec_rfind(s, pat)),
    decreases s.len(),
{
    if pat.len() == 0 || s.len() < pat.len() {
    } else if occurs_at(s, pat, s.len() - pat.len()) {
    } else {
        let p = spec_rfind(s.drop_last(), pat);
        lemma_rfind_occurs(s.drop_last(), pat);
        assert(s.subrange(p, p + pat.len()) =~= s.drop_last().subrange(p, p + pat.len()));
    }
}

/// Value of a digit string read most-significant first.
pub open spec fn digits_value(s: Seq<char>) -> int
    decreases s.len(),
{
    if s.len() == 0 {
        0
    } else {
        digits_value(s.drop_last()) * 10 + digit_val(s.last())
    }
}

/// Longest run of digits at the front of `s`.
pub open spec fn digit_prefix(s: Seq<char>) -> Seq<char>
    decreases s.len(),
{
    if s.len() == 0 {
        Seq::empty()
    } else if is_digit_char(s[0]) {
        seq![s[0]] + digit_prefix(s.drop_first())
    } else {
        Seq::empty()
    }
}

/// Sample rate read from a name: the digits after the last `_SR`, or 44100
/// when the marker is absent, the run is empty, or the value does not fit.
pub open spec fn spec_parse_sample_rate(stem: Seq<char>) -> u32 {
    let p = spec_rfind(stem, sr_token());
    if p < 0 {
        44100u32
    } else {
        let run = digit_prefix(stem.skip(p + 3));
        if run.len() == 0 || digits_value(run) > u32::MAX {
            44100u32
        } else {
            digits_value(run) as u32
        }
    }
}

/// The whole header read from a name.
pub open spec fn spec_parse_header(stem: Seq<char>) -> CodecHeader {
    CodecHeader {
        sample_rate: spec_parse_sample_rate(stem),
        scale: if contains_seq(stem, log_token()) {
            ScaleMode::Logarithmic
        } else {
            ScaleMode::Linear
        },
        phase: if contains_seq(stem, mag_token()) {
            PhaseMode::MagnitudeOnly
        } else {
            PhaseMode::PhaseEncoded
        },
    }
}

/// Digit character of one decimal place.
pub open spec fn digit_char_of(d: int) -> char {
    (d + '0' as int) as char
}

/// Decimal rendering of `n`, most significant digit first, no sign and no
/// leading zeros (a lone zero for 0).
pub open spec fn spec_decimal(n: int) -> Seq<char>
    decreases n,
{
    if n < 10 {
        seq![digit_char_of(n)]
    } else {
        spec_decimal(n / 10).push(digit_char_of(n % 10))
    }
}

/// Axis token written for a scale mode.
pub open spec fn scale_mode_token(m: ScaleMode) -> Seq<char> {
    match m {
        ScaleMode::Linear => lin_token(),
        ScaleMode::Logarithmic => log_token(),
    }
}

/// Phase token written for a phase mode.
pub open spec fn phase_mode_token(p: PhaseMode) -> Seq<char> {
    match p {
        PhaseMode::PhaseEncoded => phase_token(),
        PhaseMode::MagnitudeOnly => mag_token(),
    }
}

/// The whole suffix appended to a base name for `h`.
pub open spec fn spec_header_suffix(h: CodecHeader) -> Seq<char> {
    sr_token() + spec_decimal(h.sample_rate as int) + scale_mode_token(h.scale) + phase_mode_token(
        h.phase,
    )
}

/// A rendered number consists of digits only, at least one.
pub proof fn lemma_decimal_digits(n: int)
    requires
        0 <= n,
    ensures
        spec_decimal(n).len() >= 1,
        forall|k: int|
            0 <= k < spec_decimal(n).len() ==> is_digit_char(#[trigger] spec_decimal(n)[k]),
    decreases n,
{
    if n < 10 {
        assert(is_digit_char(digit_char_of(n)));
    } else {
        lemma_decimal_digits(n / 10);
        assert(0 <= n % 10 < 10) by {
            vstd::arithmetic::div_mod::lemma_mod_division_less_than_divisor(n, 10);
        }
        assert(is_digit_char(digit_char_of(n % 10)));
        assert forall|k: int|
            0 <= k < spec_decimal(n).len() implies is_digit_char(
            #[trigger] spec_decimal(n)[k],
        ) by {
            if k < spec_decimal(n / 10).len() {
                assert(spec_decimal(n)[k] == spec_decimal(n / 10)[k]);
            } else {
                assert(spec_decimal(n)[k] == digit_char_of(n % 10));
            }
        }
    }
}

/// Reading a rendered number back gives the number.
pub proof fn lemma_decimal_value(n: int)
    requires
        0 <= n,
    ensures
        digits_value(spec_decimal(n)) == n,
    decreases n,
{
    if n < 10 {
        let s = spec_decimal(n);
        assert(s =~= seq![digit_char_of(n)]);
        assert(s.len() == 1);
        assert(s.drop_last() =~= Seq::<char>::empty());
        assert(s.last() == digit_char_of(n));
        assert(digit_val(digit_char_of(n)) == n);
        assert(digits_value(s) == digits_value(s.drop_last()) * 10 + digit_val(s.last()));
        assert(digits_value(s.drop_last()) == 0);
        assert(digits_value(s) == n);
    } else {
        lemma_decimal_value(n / 10);
        let s = spec_decimal(n);
        assert(s.drop_last() =~= spec_decimal(n / 10));
        assert(s.last() == digit_char_of(n % 10));
        assert(0 <= n % 10 < 10) by {
            vstd::arithmetic::div_mod::lemma_mod_division_less_than_divisor(n, 10);
        }
        assert(digit_val(digit_char_of(n % 10)) == n % 10);
        assert(digits_value(s) == (n / 10) * 10 + n % 10);
        assert(n == 10 * (n / 10) + n % 10) by {
            vstd::arithmetic::div_mod::lemma_fundamental_div_mod(n, 10);
        }
    }
}

/// Appends the decimal rendering of `n` to `s`.
fn push_decimal(s: &mut String, n: u32)
    ensures
        final(s)@ == old(s)@ + spec_decimal(n as int),
    decreases n,
{
    if n >= 10 {
        push_decimal(s, n / 10);
    }
    let d = n % 10;
    let digit: &str = match d {
        0 => "0",
        1 => "1",
        2 => "2",
        3 => "3",
        4 => "4",
        5 => "5",
        6 => "6",
        7 => "7",
        8 => "8",
        _ => "9",
    };
    proof {
        reveal_strlit("0");
        reveal_strlit("1");
        reveal_strlit("2");
        reveal_strlit("3");
        reveal_strlit("4");
        reveal_strlit("5");
        reveal_strlit("6");
        reveal_strlit("7");
        reveal_strlit("8");
        reveal_strlit("9");
        assert(digit@ =~= seq![digit_char_of(n as int % 10)]);
        if n < 10 {
            assert(spec_decimal(n as int) =~= seq![digit_char_of(n as int)]);
        } else {
            assert(spec_decimal(n as int) =~= spec_decimal(n as int / 10).push(
                digit_char_of(n as int % 10),
            ));
        }
    }
    s.append(digit);
    proof {
        assert(final(s)@ =~= old(s)@ + spec_decimal(n as int));
    }
}

/// Writes the header's suffix onto a base name: `_SR`, the sample rate in
/// decimal, the axis token, the phase token.
pub fn output_stem(stem: &str, header: &CodecHeader) -> (r: String)
    ensures
        r@ == stem@ + spec_header_suffix(*header),
{
    proof {
        reveal_strlit("_SR");
        reveal_strlit("_LOG");
        reveal_strlit("_LIN");
        reveal_strlit("_PHASE");
        reveal_strlit("_MAG");
        assert("_SR"@ =~= sr_token());
        assert("_LOG"@ =~= log_token());
        assert("_LIN"@ =~= lin_token());
        assert("_PHASE"@ =~= phase_token());
        assert("_MAG"@ =~= mag_token());
    }
    let mut s = String::from_str(stem);
    s.append("_SR");
    push_decimal(&mut s, header.sample_rate);
    match header.scale {
        ScaleMode::Linear => s.append("_LIN"),
        ScaleMode::Logarithmic => s.append("_LOG"),
    }
    match header.phase {
        PhaseMode::PhaseEncoded => s.append("_PHASE"),
        PhaseMode::MagnitudeOnly => s.append("_MAG"),
    }
    proof {
        assert(s@ =~= stem@ + spec_header_suffix(*header));
    }
    s
}

/// Each character a stand of the pattern pins down.
proof fn lemma_occurs_char(s: Seq<char>, pat: Seq<char>, q: int, j: int)
    requires
        occurs_at(s, pat, q),
        0 <= j < pat.len(),
    ensures
        s[q + j] == pat[j],
{
    assert(s.subrange(q, q + pat.len())[j] == s[q + j]);
}

/// The last stand of a pattern is found exactly where one stands with none
/// after it.
proof fn lemma_rfind_last_occurrence(s: Seq<char>, pat: Seq<char>, p: int)
    requires
        1 <= pat.len(),
        occurs_at(s, pat, p),
        forall|q: int| p < q ==> !occurs_at(s, pat, q),
    ensures
        spec_rfind(s, pat) == p,
    decreases s.len(),
{
    if s.len() - pat.len() == p {
    } else {
        assert(p + pat.len() <= s.len());
        assert(!occurs_at(s, pat, s.len() - pat.len()));
        assert(p < s.len() - pat.len());
        let t = s.drop_last();
        assert(t.subrange(p, p + pat.len()) =~= s.subrange(p, p + pat.len()));
        assert(occurs_at(t, pat, p));
        assert forall|q: int| p < q implies !occurs_at(t, pat, q) by {
            if occurs_at(t, pat, q) {
                assert(t.subrange(q, q + pat.len()) =~= s.subrange(q, q + pat.len()));
                assert(occurs_at(s, pat, q));
            }
        }
        lemma_rfind_last_occurrence(t, pat, p);
    }
}

/// The character map of a written suffix: `_SR`, then at least one digit,
/// then the four-character axis token, then the phase token; underscores
/// stand nowhere else.
proof fn lemma_suffix_chars(h: CodecHeader)
    ensures
        ({
            let sfx = spec_header_suffix(h);
            let num = spec_decimal(h.sample_rate as int);
            let dl = num.len() as int;
            let ptl = phase_mode_token(h.phase).len() as int;
            &&& dl >= 1
            &&& ptl == if h.phase == PhaseMode::PhaseEncoded { 6int } else { 4int }
            &&& sfx.len() == 7 + dl + ptl
            &&& sfx[0] == '_'
            &&& sfx[1] == 'S'
            &&& sfx[2] == 'R'
            &&& forall|j: int| 3 <= j < 3 + dl ==> #[trigger] sfx[j] == num[j - 3]
            &&& forall|j: int| 3 <= j < 3 + dl ==> is_digit_char(#[trigger] sfx[j])
            &&& sfx[3 + dl] == '_'
            &&& sfx[4 + dl] == 'L'
            &&& sfx[5 + dl] == if h.scale == ScaleMode::Logarithmic { 'O' } else { 'I' }
            &&& sfx[6 + dl] == if h.scale == ScaleMode::Logarithmic { 'G' } else { 'N' }
            &&& sfx[7 + dl] == '_'
            &&& sfx[8 + dl] == if h.phase == PhaseMode::PhaseEncoded { 'P' } else { 'M' }
            &&& forall|j: int|
                0 <= j < sfx.len() && #[trigger] sfx[j] == '_' ==> j == 0 || j == 3 + dl || j == 7
                    + dl
        }),
{
    let sfx = spec_header_suffix(h);
    let num = spec_decimal(h.sample_rate as int);
    let dl = num.len() as int;
    let st = scale_mode_token(h.scale);
    let pt = phase_mode_token(h.phase);
    lemma_decimal_digits(h.sample_rate as int);
    assert(sfx =~= sr_token() + num + st + pt);
    assert forall|j: int| 3 <= j < 3 + dl implies #[trigger] sfx[j] == num[j - 3] by {
        assert(sfx[j] == (sr_token() + num)[j]);
    }
    assert forall|j: int| 3 <= j < 3 + dl implies is_digit_char(#[trigger] sfx[j]) by {
        assert(sfx[j] == num[j - 3]);
    }
    assert(sfx[3 + dl] == st[0]);
    assert(sfx[4 + dl] == st[1]);
    assert(sfx[5 + dl] == st[2]);
    assert(sfx[6 + dl] == st[3]);
    assert(sfx[7 + dl] == pt[0]);
    assert(sfx[8 + dl] == pt[1]);
    assert forall|j: int|
        0 <= j < sfx.len() && #[trigger] sfx[j] == '_' implies j == 0 || j == 3 + dl || j == 7
        + dl by {
        if 3 <= j < 3 + dl {
            assert(is_digit_char(sfx[j]));
        } else if 3 + dl <= j < 7 + dl {
            assert(sfx[j] == st[j - (3 + dl)]);
        } else if 7 + dl <= j {
            assert(sfx[j] == pt[j - (7 + dl)]);
        }
    }
}

/// In a name the encoder wrote, the sample-rate marker the decoder picks --
/// the last one -- is exactly the one the encoder appended, whatever the
/// base name holds.
pub proof fn lemma_encoded_sample_rate_marker(stem: Seq<char>, h: CodecHeader)
    ensures
        spec_rfind(stem + spec_header_suffix(h), sr_token()) == stem.len(),
{
    let sfx = spec_header_suffix(h);
    let full = stem + sfx;
    let sl = stem.len() as int;
    let dl = spec_decimal(h.sample_rate as int).len() as int;
    lemma_suffix_chars(h);
    assert(full.subrange(sl, sl + 3) =~= sr_token());
    assert(occurs_at(full, sr_token(), sl));
    assert forall|q: int| sl < q implies !occurs_at(full, sr_token(), q) by {
        if occurs_at(full, sr_token(), q) {
            let o = q - sl;
            lemma_occurs_char(full, sr_token(), q, 0);
            lemma_occurs_char(full, sr_token(), q, 1);
            assert(sfx[o] == '_');
            assert(o == 3 + dl || o == 7 + dl);
            assert(sfx[o + 1] == 'S');
        }
    }
    lemma_rfind_last_occurrence(full, sr_token(), sl);
}

/// In a name the encoder wrote, the axis token stands exactly when the
/// header asked for the logarithmic axis or the base name already carried
/// the token.
pub proof fn lemma_encoded_scale_token(stem: Seq<char>, h: CodecHeader)
    ensures
        contains_seq(stem + spec_header_suffix(h), log_token()) <==> (h.scale
            == ScaleMode::Logarithmic || contains_seq(stem, log_token())),
{
    let sfx = spec_header_suffix(h);
    let full = stem + sfx;
    let sl = stem.len() as int;
    let dl = spec_decimal(h.sample_rate as int).len() as int;
    lemma_suffix_chars(h);
    if h.scale == ScaleMode::Logarithmic {
        assert(full.subrange(sl + 3 + dl, sl + 7 + dl) =~= log_token());
        assert(occurs_at(full, log_token(), sl + 3 + dl));
    }
    if contains_seq(stem, log_token()) {
        let q = choose|q: int| occurs_at(stem, log_token(), q);
        assert(full.subrange(q, q + 4) =~= stem.subrange(q, q + 4));
        assert(occurs_at(full, log_token(), q));
    }
    if contains_seq(full, log_token()) && h.scale != ScaleMode::Logarithmic {
        let q = choose|q: int| occurs_at(full, log_token(), q);
        lemma_occurs_char(full, log_token(), q, 0);
        lemma_occurs_char(full, log_token(), q, 1);
        lemma_occurs_char(full, log_token(), q, 2);
        lemma_occurs_char(full, log_token(), q, 3);
        if q + 4 <= sl {
            assert(stem.subrange(q, q + 4) =~= full.subrange(q, q + 4));
            assert(occurs_at(stem, log_token(), q));
        } else if q < sl {
            assert(full[sl] == sfx[0]);
            assert(log_token()[sl - q] == '_');
        } else {
            let o = q - sl;
            assert(sfx[o] == '_');
            assert(o == 0 || o == 3 + dl || o == 7 + dl);
            assert(sfx[o + 1] == 'L');
            assert(o == 3 + dl);
            assert(sfx[o + 2] == 'O');
        }
    }
}

/// In a name the encoder wrote, the magnitude-only token stands exactly
/// when the header asked for it or the base name already carried the token.
pub proof fn lemma_encoded_phase_token(stem: Seq<char>, h: CodecHeader)
    ensures
        contains_seq(stem + spec_header_suffix(h), mag_token()) <==> (h.phase
            == PhaseMode::MagnitudeOnly || contains_seq(stem, mag_token())),
{
    let sfx = spec_header_suffix(h);
    let full = stem + sfx;
    let sl = stem.len() as int;
    let dl = spec_decimal(h.sample_rate as int).len() as int;
    lemma_suffix_chars(h);
    if h.phase == PhaseMode::MagnitudeOnly {
        assert(full.subrange(sl + 7 + dl, sl + 11 + dl) =~= mag_token());
        assert(occurs_at(full, mag_token(), sl + 7 + dl));
    }
    if contains_seq(stem, mag_token()) {
        let q = choose|q: int| occurs_at(stem, mag_token(), q);
        assert(full.subrange(q, q + 4) =~= stem.subrange(q, q + 4));
        assert(occurs_at(full, mag_token(), q));
    }
    if contains_seq(full, mag_token()) && h.phase != PhaseMode::MagnitudeOnly {
        let q = choose|q: int| occurs_at(full, mag_token(), q);
        lemma_occurs_char(full, mag_token(), q, 0);
        lemma_occurs_char(full, mag_token(), q, 1);
        if q + 4 <= sl {
            assert(stem.subrange(q, q + 4) =~= full.subrange(q, q + 4));
            assert(occurs_at(stem, mag_token(), q));
        } else if q < sl {
            assert(full[sl] == sfx[0]);
            assert(mag_token()[sl - q] == '_');
        } else {
            let o = q - sl;
            assert(sfx[o] == '_');
            assert(o == 0 || o == 3 + dl || o == 7 + dl);
            assert(sfx[o + 1] == 'M');
        }
    }
}

/// The round trip of the out-of-band header: a name written by the encoder
/// parses back to the header it was written from, for any base name that
/// does not itself fake a token the header left out.  The sample rate comes
/// back whatever the base name holds, because the decoder reads the last
/// `_SR` marker.
#[verifier::rlimit(50)]
pub proof fn lemma_header_round_trip(stem: Seq<char>, h: CodecHeader)
    requires
        h.scale == ScaleMode::Linear ==> !contains_seq(stem, log_token()),
        h.phase == PhaseMode::PhaseEncoded ==> !contains_seq(stem, mag_token()),
    ensures
        spec_parse_header(stem + spec_header_suffix(h)) == h,
{
    let sfx = spec_header_suffix(h);
    let full = stem + sfx;
    let sl = stem.len() as int;
    let num = spec_decimal(h.sample_rate as int);
    assert(spec_parse_sample_rate(full) == h.sample_rate) by {
        lemma_suffix_chars(h);
        lemma_encoded_sample_rate_marker(stem, h);
        lemma_decimal_digits(h.sample_rate as int);
        lemma_decimal_value(h.sample_rate as int);
        let tail = scale_mode_token(h.scale) + phase_mode_token(h.phase);
        assert(full.skip(sl + 3) =~= num + tail);
        assert(tail[0] == '_');
        lemma_digit_prefix_exact(full.skip(sl + 3), num, tail);
        assert(digit_prefix(full.skip(sl + 3)) == num);
        assert(num.len() >= 1);
        assert(digits_value(num) == h.sample_rate as int);
    }
    assert(contains_seq(full, log_token()) <==> h.scale == ScaleMode::Logarithmic) by {
        lemma_encoded_scale_token(stem, h);
    }
    assert(contains_seq(full, mag_token()) <==> h.phase == PhaseMode::MagnitudeOnly) by {
        lemma_encoded_phase_token(stem, h);
    }
}

/// Whether `pat` stands in `s` at position `i`, compared character by
/// character.
fn token_at(s: &str, pat: &str, i: usize) -> (r: bool)
    ensures
        r == occurs_at(s@, pat@, i as int),
{
    let n = s.unicode_len();
    let m = pat.unicode_len();
    if i > n || m > n - i {
        return false;
    }
    let mut j: usize = 0;
    while j < m
        invariant
            j <= m,
            m == pat@.len(),
            n == s@.len(),
            i + m <= n,
            forall|k: int| 0 <= k < j ==> s@[i + k] == pat@[k],
        decreases m - j,
    {
        if s.get_char(i + j) != pat.get_char(j) {
            proof {
                assert(s@.subrange(i as int, i + m)[j as int] == s@[i + j]);
            }
            return false;
        }
        j += 1;
    }
    proof {
        assert(s@.subrange(i as int, i + m) =~= pat@);
    }
    true
}

/// Whether `pat` stands somewhere in `s`.
fn contains_token(s: &str, pat: &str) -> (r: bool)
    requires
        pat@.len() >= 1,
    ensures
        r == contains_seq(s@, pat@),
{
    let n = s.unicode_len();
    let m = pat.unicode_len();
    if m > n {
        proof {
            assert forall|q: int| !occurs_at(s@, pat@, q) by {}
        }
        return false;
    }
    let mut i: usize = 0;
    while i <= n - m
        invariant
            m == pat@.len(),
            n == s@.len(),
            1 <= m <= n,
            i <= n - m + 1,
            forall|q: int| 0 <= q < i ==> !occurs_at(s@, pat@, q),
        decreases n - m + 1 - i,
    {
        if token_at(s, pat, i) {
            proof {
                assert(occurs_at(s@, pat@, i as int));
            }
            return true;
        }
        i += 1;
    }
    proof {
        assert forall|q: int| !occurs_at(s@, pat@, q) by {}
    }
    false
}

/// Position of the last stand of `pat` in `s`.
fn rfind_token(s: &str, pat: &str) -> (r: Option<usize>)
    requires
        pat@.len() >= 1,
    ensures
        spec_rfind(s@, pat@) >= 0 ==> r == Some(spec_rfind(s@, pat@) as usize),
        spec_rfind(s@, pat@) < 0 ==> r is None,
{
    let n = s.unicode_len();
    let m = pat.unicode_len();
    let mut hi = n;
    proof {
        assert(s@.take(n as int) =~= s@);
    }
    while hi >= m
        invariant
            m == pat@.len(),
            n == s@.len(),
            1 <= m,
            hi <= n,
            spec_rfind(s@.take(hi as int), pat@) == spec_rfind(s@, pat@),
        decreases hi,
    {
        if token_at(s, pat, hi - m) {
            proof {
                let t = s@.take(hi as int);
                assert(t.subrange(hi - m, hi as int) =~= s@.subrange(hi - m, hi as int));
                assert(occurs_at(t, pat@, hi - m));
                assert(spec_rfind(t, pat@) == hi - m);
            }
            return Some(hi - m);
        }
        proof {
            let t = s@.take(hi as int);
            assert(t.subrange(hi - m, hi as int) =~= s@.subrange(hi - m, hi as int));
            assert(!occurs_at(t, pat@, hi - m));
            assert(t.drop_last() =~= s@.take(hi - 1));
        }
        hi = hi - 1;
    }
    proof {
        assert(spec_rfind(s@.take(hi as int), pat@) == -1);
    }
    None
}

/// The digit run at the front of `s` equals `d` whenever `s` starts with `d`
/// (all digits) and what follows does not begin with a digit.
proof fn lemma_digit_prefix_exact(s: Seq<char>, d: Seq<char>, rest: Seq<char>)
    requires
        s =~= d + rest,
        forall|k: int| 0 <= k < d.len() ==> is_digit_char(#[trigger] d[k]),
        rest.len() == 0 || !is_digit_char(rest[0]),
    ensures
        digit_prefix(s) == d,
    decreases d.len(),
{
    if d.len() == 0 {
        if rest.len() == 0 {
            assert(s.len() == 0);
        } else {
            assert(s[0] == rest[0]);
        }
        assert(digit_prefix(s) =~= d);
    } else {
        assert(s[0] == d[0]);
        assert(is_digit_char(s[0]));
        assert(s.drop_first() =~= d.drop_first() + rest);
        lemma_digit_prefix_exact(s.drop_first(), d.drop_first(), rest);
        assert(digit_prefix(s) =~= seq![d[0]] + d.drop_first());
        assert(seq![d[0]] + d.drop_first() =~= d);
    }
}

/// Reads the digit run of `s` that starts at `start`: returns the position
/// one past the run together with its value, `None` standing for a value
/// that does not fit in 32 bits.
fn parse_decimal_run(s: &str, start: usize) -> (r: (usize, Option<u32>))
    requires
        start <= s@.len(),
    ensures
        ({
            let run = digit_prefix(s@.skip(start as int));
            &&& r.0 == start + run.len()
            &&& (digits_value(run) <= u32::MAX ==> r.1 == Some(digits_value(run) as u32))
            &&& (digits_value(run) > u32::MAX ==> r.1 is None)
        }),
{
    let n = s.unicode_len();
    let mut i = start;
    let mut acc: u32 = 0;
    let mut over = false;
    loop
        invariant
            start <= i <= n,
            n == s@.len(),
            forall|k: int| start <= k < i ==> is_digit_char(#[trigger] s@[k]),
            !over ==> acc == digits_value(s@.subrange(start as int, i as int)),
            over ==> digits_value(s@.subrange(start as int, i as int)) > u32::MAX,
        ensures
            start <= i <= n,
            i == n || !is_digit_char(s@[i as int]),
            forall|k: int| start <= k < i ==> is_digit_char(#[trigger] s@[k]),
            !over ==> acc == digits_value(s@.subrange(start as int, i as int)),
            over ==> digits_value(s@.subrange(start as int, i as int)) > u32::MAX,
        decreases n - i,
    {
        if i >= n {
            break;
        }
        let c = s.get_char(i);
        let v = c as u32;
        if v < 48 || v > 57 {
            break;
        }
        let d = v - 48;
        proof {
            let pre = s@.subrange(start as int, i as int);
            let pre2 = s@.subrange(start as int, i + 1);
            assert(pre2.drop_last() =~= pre);
            assert(pre2.last() == s@[i as int]);
            assert(digits_value(pre2) == digits_value(pre) * 10 + d);
        }
        if !over {
            let t = (u32::MAX - d) / 10;
            proof {
                vstd::arithmetic::div_mod::lemma_fundamental_div_mod(
                    u32::MAX - d as int,
                    10,
                );
                vstd::arithmetic::div_mod::lemma_mod_division_less_than_divisor(
                    u32::MAX - d as int,
                    10,
                );
            }
            if acc > t {
                over = true;
            } else {
                acc = acc * 10 + d;
            }
        } else {
            proof {
                let pre = s@.subrange(start as int, i as int);
                assert(digits_value(pre) * 10 + d > u32::MAX);
            }
        }
        i = i + 1;
    }
    proof {
        let run = digit_prefix(s@.skip(start as int));
        let pre = s@.subrange(start as int, i as int);
        let rest = s@.skip(i as int);
        assert(s@.skip(start as int) =~= pre + rest);
        if i < n {
            assert(rest[0] == s@[i as int]);
        }
        lemma_digit_prefix_exact(s@.skip(start as int), pre, rest);
        assert(run == pre);
    }
    (i, if over { None } else { Some(acc) })
}

/// Parses the header out of a file name's stem.  Absent or unreadable
/// tokens fall back to the documented defaults: 44100 Hz, the linear axis,
/// phase encoded.
pub fn parse_header(stem: &str) -> (h: CodecHeader)
    ensures
        h == spec_parse_header(stem@),
{
    proof {
        reveal_strlit("_SR");
        reveal_strlit("_LOG");
        reveal_strlit("_MAG");
        assert("_SR"@ =~= sr_token());
        assert("_LOG"@ =~= log_token());
        assert("_MAG"@ =~= mag_token());
    }
    let stem_chars = stem.unicode_len();
    proof {
        assert(stem@.len() == stem_chars);
    }
    let sample_rate: u32 = match rfind_token(stem, "_SR") {
        Some(p) => {
            proof {
                lemma_rfind_occurs(stem@, sr_token());
            }
            let (end, value) = parse_decimal_run(stem, p + 3);
            match value {
                Some(v) => {
                    if end == p + 3 {
                        44100
                    } else {
                        v
                    }
                },
                None => 44100,
            }
        },
        None => 44100,
    };
    let scale = if contains_token(stem, "_LOG") {
        ScaleMode::Logarithmic
    } else {
        ScaleMode::Linear
    };
    let phase = if contains_token(stem, "_MAG") {
        PhaseMode::MagnitudeOnly
    } else {
        PhaseMode::PhaseEncoded
    };
    CodecHeader { sample_rate, scale, phase }
}

} // verus!
