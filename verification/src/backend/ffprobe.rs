//! What is made of a probe report: formatted durations and sizes, and the streams read.
use vstd::prelude::*;
use crate::text::{
    chars_of, chars_or_empty, decimal, decimal2, digit_char, opt_view, parse_u64, parsed_u64, push_decimal,
    push_decimal2, push_str_chars, str_eq, str_or_empty, string_from,
};
use crate::backend::types::{AudioStream, SubtitleStream};

verus! {

/// `2` to the power `e`.
pub open spec fn two_to(e: nat) -> nat
    decreases e,
{
    if e == 0 {
        1
    } else {
        2 * two_to((e - 1) as nat)
    }
}

/// `n / den` rounded to the nearest integer, ties going to the even one.
pub open spec fn round_half_even(n: nat, den: nat) -> nat {
    let q = n / den;
    let r = n % den;
    if 2 * r > den || (2 * r == den && q % 2 == 1) {
        q + 1
    } else {
        q
    }
}

/// How many low bits of `n` do not fit in the 53-bit significand of an `f64`.
pub open spec fn excess_bits(n: nat) -> nat
    decreases n,
{
    if n < 0x20_0000_0000_0000 {
        0
    } else {
        1 + excess_bits(n / 2)
    }
}

/// The value of `n as f64`: `n` rounded to 53 significant bits, ties to even.
pub open spec fn as_f64(n: nat) -> nat {
    let s = excess_bits(n);
    round_half_even(n, two_to(s)) * two_to(s)
}

/// The unit a size of `b` bytes is shown in: 0 for B up to 4 for TB, the largest unit of
/// which there is at least one (TB being the largest).
pub open spec fn unit_index(b: nat) -> nat {
    if b < 0x400 {
        0
    } else if b < 0x10_0000 {
        1
    } else if b < 0x4000_0000 {
        2
    } else if b < 0x100_0000_0000 {
        3
    } else {
        4
    }
}

/// The number of bytes in one unit `k`.
pub open spec fn unit_bytes(k: nat) -> nat {
    if k == 0 {
        1
    } else if k == 1 {
        0x400
    } else if k == 2 {
        0x10_0000
    } else if k == 3 {
        0x4000_0000
    } else {
        0x100_0000_0000
    }
}

/// The name of unit `k`.
pub open spec fn unit_name(k: nat) -> Seq<char> {
    if k == 0 {
        seq!['B']
    } else if k == 1 {
        seq!['K', 'B']
    } else if k == 2 {
        seq!['M', 'B']
    } else if k == 3 {
        seq!['G', 'B']
    } else {
        seq!['T', 'B']
    }
}

/// A size as shown: the byte count as an `f64`, in its unit, rounded to tenths (ties to
/// even), then a space and the unit.
pub open spec fn size_text(bytes: u64) -> Seq<char> {
    let b = as_f64(bytes as nat);
    let k = unit_index(b);
    let t = round_half_even(10 * b, unit_bytes(k));
    decimal(t / 10) + seq!['.', digit_char(t % 10), ' '] + unit_name(k)
}

fn round_half_even_exec(n: u128, den: u128) -> (r: u128)
    requires
        den > 0,
        n < 0xffff_ffff_ffff_ffff_ffff_ffff_ffff_0000,
    ensures
        r == round_half_even(n as nat, den as nat),
        r <= n / den + 1,
{
    let q = n / den;
    let r = n % den;
    assert(q <= n) by (nonlinear_arith)
        requires
            q == n / den,
            den > 0,
    ;
    if r > den - r || (r == den - r && q % 2 == 1) {
        q + 1
    } else {
        q
    }
}

proof fn lemma_two_to_pos(e: nat)
    ensures
        two_to(e) >= 1,
    decreases e,
{
    if e > 0 {
        lemma_two_to_pos((e - 1) as nat);
    }
}

/// The value of `bytes as f64`, as an integer.
fn f64_value(bytes: u64) -> (b: u128)
    ensures
        b == as_f64(bytes as nat),
        b <= 0x2_0000_0000_0000_0000,
{
    let mut n: u64 = bytes;
    let mut p: u128 = 1;
    let ghost mut s: nat = 0;
    assert(bytes as nat / 1 == bytes as nat);
    while n >= 0x20_0000_0000_0000
        invariant
            p == two_to(s),
            1 <= p <= 0x1000,
            n == bytes as nat / (p as nat),
            excess_bits(bytes as nat) == s + excess_bits(n as nat),
        decreases n,
    {
        proof {
            vstd::arithmetic::div_mod::lemma_div_denominator(bytes as int, p as int, 2);
            vstd::arithmetic::div_mod::lemma_fundamental_div_mod(bytes as int, p as int);
            assert(p * 0x20_0000_0000_0000 <= p * n) by (nonlinear_arith)
                requires
                    n >= 0x20_0000_0000_0000,
                    p >= 1,
            ;
            assert(p * n <= bytes) by (nonlinear_arith)
                requires
                    bytes == p * (bytes as int / p as int) + bytes as int % p as int,
                    n == bytes as int / p as int,
                    bytes as int % p as int >= 0,
            ;
            assert(p < 0x800) by (nonlinear_arith)
                requires
                    p * 0x20_0000_0000_0000 <= bytes,
                    bytes < 0x1_0000_0000_0000_0000,
            ;
            assert(p * 0x20_0000_0000_0000 < 0x1_0000_0000_0000_0000);
        }
        n = n / 2;
        p = p * 2;
        proof {
            s = s + 1;
        }
    }
    let q = round_half_even_exec(bytes as u128, p);
    proof {
        vstd::arithmetic::div_mod::lemma_fundamental_div_mod(bytes as int, p as int);
        assert(q <= 0x20_0000_0000_0000);
        assert(q * p <= 0x20_0000_0000_0000 * 0x1000) by (nonlinear_arith)
            requires
                q <= 0x20_0000_0000_0000,
                p <= 0x1000,
        ;
    }
    q * p
}

/// Formats a size in bytes for display, as the `{:.1}` formatting of the size as an `f64`
/// in B, KB, MB, GB or TB (see `size_text`).
pub fn fmt_size(bytes: u64) -> (r: String)
    ensures
        r@ == size_text(bytes),
{
    let b = f64_value(bytes);
    let den: u128 = if b < 0x400 {
        1
    } else if b < 0x10_0000 {
        0x400
    } else if b < 0x4000_0000 {
        0x10_0000
    } else if b < 0x100_0000_0000 {
        0x4000_0000
    } else {
        0x100_0000_0000
    };
    let t = round_half_even_exec(10 * b, den);
    assert(t <= 10 * 0x2_0000_0000_0000_0000 / 0x100_0000_0000 + 1) by {
        if den < 0x100_0000_0000 {
            assert(10 * b < 10 * 0x400 * den);
            assert((10 * b) as int / den as int <= 10 * 0x400) by (nonlinear_arith)
                requires
                    10 * b < 10 * 0x400 * den,
                    den >= 1,
            ;
        }
    }
    let whole = (t / 10) as u64;
    let tenth = (t % 10) as u64;
    let mut v: Vec<char> = Vec::new();
    push_decimal(&mut v, whole);
    v.push('.');
    v.push(crate::text::digit(tenth));
    v.push(' ');
    if b < 0x400 {
        v.push('B');
    } else {
        if b < 0x10_0000 {
            v.push('K');
        } else if b < 0x4000_0000 {
            v.push('M');
        } else if b < 0x100_0000_0000 {
            v.push('G');
        } else {
            v.push('T');
        }
        v.push('B');
    }
    assert(v@ =~= size_text(bytes));
    string_from(&v)
}

/// A running time as shown: `h:mm:ss` from one hour on, `m:ss` below.
pub open spec fn duration_text(total: u64) -> Seq<char> {
    let h = total / 3600;
    let m = (total % 3600) / 60;
    let s = total % 60;
    if h > 0 {
        decimal(h as nat) + seq![':'] + decimal2(m as nat) + seq![':'] + decimal2(s as nat)
    } else {
        decimal(m as nat) + seq![':'] + decimal2(s as nat)
    }
}

/// Formats a running time given in whole seconds (see `duration_text`).
pub fn fmt_duration_secs(total: u64) -> (r: String)
    ensures
        r@ == duration_text(total),
{
    let h = total / 3600;
    let m = (total % 3600) / 60;
    let s = total % 60;
    let mut v: Vec<char> = Vec::new();
    if h > 0 {
        push_decimal(&mut v, h);
        v.push(':');
        push_decimal2(&mut v, m);
    } else {
        push_decimal(&mut v, m);
    }
    v.push(':');
    push_decimal2(&mut v, s);
    assert(v@ =~= duration_text(total));
    string_from(&v)
}

/// One stream of a probe report, as read: each field is `None` when missing or not of the
/// kind read (a string, or a signed integer for `index` and `channels`).
pub struct StreamInfo {
    pub codec_type: Option<String>,
    pub index: Option<i64>,
    pub codec_name: Option<String>,
    pub language: Option<String>,
    pub title: Option<String>,
    pub channels: Option<i64>,
}

/// The container section of a probe report, as read: its `size` and its `title` tag, when
/// they are strings.
pub struct FormatInfo {
    pub size: Option<String>,
    pub title: Option<String>,
}

/// What a probe of one file yields; the running time is in whole microseconds.
#[derive(Debug)]
pub struct ProbeResult {
    pub duration_us: u64,
    pub duration_fmt: String,
    pub size: u64,
    pub size_fmt: String,
    pub video_streams: usize,
    pub audio_streams: Vec<AudioStream>,
    pub subtitle_streams: Vec<SubtitleStream>,
    pub title: String,
}

/// The stream's type is the string `kind`.
pub open spec fn is_kind(st: StreamInfo, kind: Seq<char>) -> bool {
    st.codec_type matches Some(t) && t@ == kind
}

/// The streams of type `kind`, in order.
pub open spec fn streams_of_kind(ss: Seq<StreamInfo>, kind: Seq<char>) -> Seq<StreamInfo>
    decreases ss.len(),
{
    if ss.len() == 0 {
        Seq::empty()
    } else {
        let k = streams_of_kind(ss.drop_last(), kind);
        if is_kind(ss.last(), kind) { k.push(ss.last()) } else { k }
    }
}

/// A number field, or zero.
pub open spec fn int_or_zero(o: Option<i64>) -> i64 {
    match o {
        Some(v) => v,
        None => 0,
    }
}

/// `a` describes the audio stream `st`.
pub open spec fn audio_of(a: AudioStream, st: StreamInfo) -> bool {
    &&& a.index == int_or_zero(st.index)
    &&& a.codec@ == str_or_empty(st.codec_name)
    &&& a.language@ == str_or_empty(st.language)
    &&& a.title@ == str_or_empty(st.title)
    &&& a.channels == int_or_zero(st.channels)
}

/// `t` describes the subtitle stream `st`.
pub open spec fn subtitle_of(t: SubtitleStream, st: StreamInfo) -> bool {
    &&& t.index == int_or_zero(st.index)
    &&& t.codec@ == str_or_empty(st.codec_name)
    &&& t.language@ == str_or_empty(st.language)
    &&& t.title@ == str_or_empty(st.title)
}

/// The size given in the container section: its digits when they parse, else zero.
pub open spec fn size_value(size: Option<String>) -> u64 {
    match size {
        Some(s) => match parsed_u64(s@) {
            Some(v) => v,
            None => 0,
        },
        None => 0,
    }
}

fn kind_is(st: &StreamInfo, kind: &str) -> (b: bool)
    ensures
        b == is_kind(*st, kind@),
{
    match &st.codec_type {
        Some(t) => str_eq(t.as_str(), kind),
        None => false,
    }
}

/// Assembles what a probe yields from the running time (in microseconds and in whole
/// seconds), the container section and the streams.
pub fn probe_result(duration_us: u64, whole_secs: u64, format: &FormatInfo, streams: &Vec<StreamInfo>) -> (r: ProbeResult)
    ensures
        r.duration_us == duration_us,
        r.duration_fmt@ == duration_text(whole_secs),
        r.size == size_value(format.size),
        r.size_fmt@ == size_text(r.size),
        r.video_streams == streams_of_kind(streams@, "video"@).len(),
        r.audio_streams@.len() == streams_of_kind(streams@, "audio"@).len(),
        forall|i: int| 0 <= i < r.audio_streams@.len() ==> audio_of(#[trigger] r.audio_streams@[i], streams_of_kind(streams@, "audio"@)[i]),
        r.subtitle_streams@.len() == streams_of_kind(streams@, "subtitle"@).len(),
        forall|i: int| 0 <= i < r.subtitle_streams@.len() ==> subtitle_of(#[trigger] r.subtitle_streams@[i], streams_of_kind(streams@, "subtitle"@)[i]),
        r.title@ == str_or_empty(format.title),
{
    let mut video: usize = 0;
    let mut audio: Vec<AudioStream> = Vec::new();
    let mut subs: Vec<SubtitleStream> = Vec::new();
    let mut i: usize = 0;
    while i < streams.len()
        invariant
            i <= streams@.len(),
            video == streams_of_kind(streams@.take(i as int), "video"@).len(),
            audio@.len() == streams_of_kind(streams@.take(i as int), "audio"@).len(),
            forall|k: int| 0 <= k < audio@.len() ==> audio_of(#[trigger] audio@[k], streams_of_kind(streams@.take(i as int), "audio"@)[k]),
            subs@.len() == streams_of_kind(streams@.take(i as int), "subtitle"@).len(),
            forall|k: int| 0 <= k < subs@.len() ==> subtitle_of(#[trigger] subs@[k], streams_of_kind(streams@.take(i as int), "subtitle"@)[k]),
        decreases streams.len() - i,
    {
        let st = &streams[i];
        assert(streams@.take(i + 1).drop_last() =~= streams@.take(i as int));
        assert(streams@.take(i + 1).last() == *st);
        assert(streams_of_kind(streams@.take(i as int), "video"@).len() <= i) by {
            lemma_kind_len(streams@.take(i as int), "video"@);
        }
        if kind_is(st, "video") {
            video = video + 1;
        }
        let ghost before_a = audio@;
        let ghost before_s = subs@;
        if kind_is(st, "audio") {
            audio.push(AudioStream {
                index: match st.index { Some(v) => v, None => 0 },
                codec: string_from(&chars_or_empty(&st.codec_name)),
                language: string_from(&chars_or_empty(&st.language)),
                title: string_from(&chars_or_empty(&st.title)),
                channels: match st.channels { Some(v) => v, None => 0 },
            });
            assert forall|k: int| 0 <= k < audio@.len() implies audio_of(#[trigger] audio@[k], streams_of_kind(streams@.take(i + 1), "audio"@)[k]) by {
                if k < before_a.len() {
                    assert(audio@[k] == before_a[k]);
                }
            }
        }
        if kind_is(st, "subtitle") {
            subs.push(SubtitleStream {
                index: match st.index { Some(v) => v, None => 0 },
                codec: string_from(&chars_or_empty(&st.codec_name)),
                language: string_from(&chars_or_empty(&st.language)),
                title: string_from(&chars_or_empty(&st.title)),
            });
            assert forall|k: int| 0 <= k < subs@.len() implies subtitle_of(#[trigger] subs@[k], streams_of_kind(streams@.take(i + 1), "subtitle"@)[k]) by {
                if k < before_s.len() {
                    assert(subs@[k] == before_s[k]);
                }
            }
        }
        i += 1;
    }
    assert(streams@.take(streams.len() as int) =~= streams@);
    let size: u64 = match &format.size {
        Some(s) => match parse_u64(s.as_str()) {
            Some(v) => v,
            None => 0,
        },
        None => 0,
    };
    ProbeResult {
        duration_us,
        duration_fmt: fmt_duration_secs(whole_secs),
        size,
        size_fmt: fmt_size(size),
        video_streams: video,
        audio_streams: audio,
        subtitle_streams: subs,
        title: string_from(&chars_or_empty(&format.title)),
    }
}

proof fn lemma_kind_len(ss: Seq<StreamInfo>, kind: Seq<char>)
    ensures
        streams_of_kind(ss, kind).len() <= ss.len(),
    decreases ss.len(),
{
    if ss.len() > 0 {
        lemma_kind_len(ss.drop_last(), kind);
    }
}

/// A stream as plain values: type, index, codec, language, title and channels.
pub type StreamInfoView = (Option<Seq<char>>, Option<i64>, Option<Seq<char>>, Option<Seq<char>>, Option<Seq<char>>, Option<i64>);

/// The plain content of a stream.
pub open spec fn stream_view(st: StreamInfo) -> StreamInfoView {
    (opt_view(st.codec_type), st.index, opt_view(st.codec_name), opt_view(st.language), opt_view(st.title), st.channels)
}

/// The plain content of a list of streams.
pub open spec fn streams_view(ss: Seq<StreamInfo>) -> Seq<StreamInfoView> {
    ss.map_values(|st: StreamInfo| stream_view(st))
}

/// The stream's type is `video`.
pub open spec fn is_video(v: StreamInfoView) -> bool {
    v.0 == Some("video"@)
}

/// The first video stream of `ss`, if there is one.
pub open spec fn first_video(ss: Seq<StreamInfoView>) -> Option<StreamInfoView>
    decreases ss.len(),
{
    if ss.len() == 0 {
        None
    } else if is_video(ss[0]) {
        Some(ss[0])
    } else {
        first_video(ss.drop_first())
    }
}

/// The first video stream has the codec `h264`.
pub open spec fn first_video_is_h264(ss: Seq<StreamInfoView>) -> bool {
    first_video(ss) matches Some(v) && v.2 == Some("h264"@)
}

proof fn lemma_first_video(ss: Seq<StreamInfoView>, i: int)
    requires
        0 <= i <= ss.len(),
        forall|k: int| 0 <= k < i ==> !is_video(#[trigger] ss[k]),
    ensures
        i < ss.len() && is_video(ss[i]) ==> first_video(ss) == Some(ss[i]),
        i == ss.len() ==> first_video(ss) is None,
    decreases i,
{
    if i > 0 {
        let t = ss.drop_first();
        assert forall|k: int| 0 <= k < i - 1 implies !is_video(#[trigger] t[k]) by {
            assert(t[k] == ss[k + 1]);
        }
        lemma_first_video(t, i - 1);
    }
}

/// Whether the first video stream is already H.264, so that a preview can copy it unchanged.
pub fn detect_h264_streams(streams: &Vec<StreamInfo>) -> (b: bool)
    ensures
        b == first_video_is_h264(streams_view(streams@)),
{
    let ghost sv = streams_view(streams@);
    let mut i: usize = 0;
    while i < streams.len()
        invariant
            i <= streams@.len(),
            sv == streams_view(streams@),
            forall|k: int| 0 <= k < i ==> !is_video(#[trigger] sv[k]),
        decreases streams.len() - i,
    {
        let st = &streams[i];
        assert(sv[i as int] == stream_view(*st));
        if kind_is(st, "video") {
            proof {
                lemma_first_video(sv, i as int);
            }
            return match &st.codec_name {
                Some(c) => str_eq(c.as_str(), "h264"),
                None => false,
            };
        }
        i += 1;
    }
    proof {
        lemma_first_video(sv, i as int);
    }
    false
}

/// What is read of an ffprobe report: the container's duration text, size and title, and
/// the streams.
pub struct ProbeReport {
    pub duration_text: Option<String>,
    pub format: FormatInfo,
    pub streams: Vec<StreamInfo>,
}

/// A report as plain values: duration text, (size, title), streams.
pub type ProbeReportView = (Option<Seq<char>>, (Option<Seq<char>>, Option<Seq<char>>), Seq<StreamInfoView>);

/// The plain content of a report.
pub open spec fn report_view(p: ProbeReport) -> ProbeReportView {
    (opt_view(p.duration_text), (opt_view(p.format.size), opt_view(p.format.title)), streams_view(p.streams@))
}

/// What `serde_json::from_slice` makes of ffprobe's output, as the fields read: the
/// `format` object's `duration`, `size` and `tags.title` strings, and for each entry of the
/// `streams` array its `codec_type`, `index`, `codec_name`, `tags.language`, `tags.title` and
/// `channels`; or the parser's error message.
pub uninterp spec fn ffprobe_report(stdout: Seq<u8>) -> Result<ProbeReportView, Seq<char>>;

/// Calls `serde_json::from_slice` on ffprobe's output and picks the fields read; a field that
/// is missing or not of the kind read is `None`, and a missing `streams` array reads as none.
/// The result is named, not stated.
#[verifier::external_body]
pub(crate) fn read_ffprobe_report(stdout: &[u8]) -> (r: Result<ProbeReport, String>)
    ensures
        match r {
            Ok(p) => ffprobe_report(stdout@) == Ok::<ProbeReportView, Seq<char>>(report_view(p)),
            Err(e) => ffprobe_report(stdout@) == Err::<ProbeReportView, Seq<char>>(e@),
        },
{
    let v: serde_json::Value = serde_json::from_slice(stdout).map_err(|e| e.to_string())?;
    let st = |x: &serde_json::Value| x.as_str().map(String::from);
    let f = &v["format"];
    Ok(ProbeReport {
        duration_text: st(&f["duration"]),
        format: FormatInfo { size: st(&f["size"]), title: st(&f["tags"]["title"]) },
        streams: v["streams"].as_array().into_iter().flatten().map(|s| StreamInfo {
            codec_type: st(&s["codec_type"]), index: s["index"].as_i64(), codec_name: st(&s["codec_name"]),
            language: st(&s["tags"]["language"]), title: st(&s["tags"]["title"]), channels: s["channels"].as_i64(),
        }).collect(),
    })
}

/// Why a probe gave no report.
#[derive(Debug)]
pub enum ProbeFailure {
    NonZeroExit,
    ParseJson { source: String },
}

/// The report of an ffprobe run that ended with `success` and printed `stdout`: a failure
/// when the run failed, else what is read of its output (see `ffprobe_report`).
pub fn probe_output(success: bool, stdout: &[u8]) -> (r: Result<ProbeReport, ProbeFailure>)
    ensures
        !success ==> r matches Err(ProbeFailure::NonZeroExit),
        success ==> match r {
            Ok(p) => ffprobe_report(stdout@) == Ok::<ProbeReportView, Seq<char>>(report_view(p)),
            Err(ProbeFailure::ParseJson { source }) => ffprobe_report(stdout@) == Err::<ProbeReportView, Seq<char>>(source@),
            Err(ProbeFailure::NonZeroExit) => false,
        },
{
    if !success {
        return Err(ProbeFailure::NonZeroExit);
    }
    match read_ffprobe_report(stdout) {
        Ok(p) => Ok(p),
        Err(e) => Err(ProbeFailure::ParseJson { source: e }),
    }
}

/// Whether ffprobe's stream listing `stdout` shows the first video stream to be H.264; an
/// output that does not parse answers no.
pub fn detect_h264_output(stdout: &[u8]) -> (b: bool)
    ensures
        b == match ffprobe_report(stdout@) {
            Ok(rep) => first_video_is_h264(rep.2),
            Err(_) => false,
        },
{
    match read_ffprobe_report(stdout) {
        Ok(p) => detect_h264_streams(&p.streams),
        Err(_) => false,
    }
}

} // verus!
