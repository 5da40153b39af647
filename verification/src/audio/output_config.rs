//! Choosing among the output configurations a device supports: the one to
//! open for a stream, and whether a bit-perfect one exists.

use vstd::prelude::*;

use crate::audio::formats::{
    bit_perfect_output_formats, is_supported_output_format, preferred_output_formats,
    spec_bit_perfect_output_formats, spec_is_supported_output_format, spec_preferred_output_formats,
    OutputSampleFormat, SourceSampleFormat,
};

verus! {

/// A range of configurations a device supports: a channel count, a sample
/// format, and the sample rates from `min_sample_rate` to
/// `max_sample_rate`.
#[derive(Clone, Copy, Debug, PartialEq, Eq, Structural)]
pub struct SupportedConfigRange {
    pub channels: u16,
    pub sample_format: OutputSampleFormat,
    pub min_sample_rate: u32,
    pub max_sample_rate: u32,
}

/// The configuration can play `channels` channels at `rate`.
pub open spec fn fits(c: SupportedConfigRange, rate: u32, channels: u16) -> bool {
    c.channels == channels && c.min_sample_rate <= rate && rate <= c.max_sample_rate
}

/// `i` is the first configuration that fits and has format `f`.
pub open spec fn first_fit_with_format(cs: Seq<SupportedConfigRange>, rate: u32, channels: u16, f: OutputSampleFormat, i: int) -> bool {
    &&& 0 <= i < cs.len()
    &&& fits(cs[i], rate, channels) && cs[i].sample_format == f
    &&& forall|j: int| 0 <= j < i ==> !(fits(cs[j], rate, channels) && #[trigger] cs[j].sample_format == f)
}

fn find_fit_with_format(configs: &[SupportedConfigRange], rate: u32, channels: u16, f: OutputSampleFormat) -> (res: Option<usize>)
    ensures
        res matches Some(i) ==> first_fit_with_format(configs@, rate, channels, f, i as int),
        res is None ==> forall|j: int|
            0 <= j < configs@.len() ==> !(fits(configs@[j], rate, channels) && #[trigger] configs@[j].sample_format == f),
{
    let mut j: usize = 0;
    while j < configs.len()
        invariant
            j <= configs@.len(),
            forall|k: int|
                0 <= k < j ==> !(fits(configs@[k], rate, channels) && #[trigger] configs@[k].sample_format == f),
        decreases configs@.len() - j,
    {
        let c = configs[j];
        if c.channels == channels && c.min_sample_rate <= rate && rate <= c.max_sample_rate && c.sample_format == f {
            return Some(j);
        }
        j = j + 1;
    }
    None
}

/// Some configuration fits and has format `f`.
pub open spec fn has_fit_with_format(cs: Seq<SupportedConfigRange>, rate: u32, channels: u16, f: OutputSampleFormat) -> bool {
    exists|i: int| first_fit_with_format(cs, rate, channels, f, i)
}

/// The first preferred format, in order of preference, that some fitting
/// configuration has.
pub open spec fn first_preferred_available(prefer: Seq<OutputSampleFormat>, cs: Seq<SupportedConfigRange>, rate: u32, channels: u16, k: int) -> bool {
    &&& 0 <= k < prefer.len()
    &&& has_fit_with_format(cs, rate, channels, prefer[k])
    &&& forall|m: int| 0 <= m < k ==> !#[trigger] has_fit_with_format(cs, rate, channels, prefer[m])
}

/// The configuration to open for a stream of `channels` channels at
/// `sample_rate`: among the configurations that fit, the first one with the
/// most preferred format (see `preferred_output_formats`), else the first
/// one with any writable format.  Returns its position and format; `None`
/// when no fitting configuration has a writable format.
pub fn find_best_config(
    configs: &[SupportedConfigRange],
    sample_rate: u32,
    channels: u16,
    bits_per_sample: Option<u32>,
    source_sample_format: Option<SourceSampleFormat>,
) -> (res: Option<(usize, OutputSampleFormat)>)
    ensures
        res matches Some((i, f)) ==> i < configs@.len() && fits(configs@[i as int], sample_rate, channels)
            && configs@[i as int].sample_format == f && spec_is_supported_output_format(f),
        ({
            let prefer = spec_preferred_output_formats(bits_per_sample, source_sample_format);
            (exists|k: int| first_preferred_available(prefer, configs@, sample_rate, channels, k)) ==> (res matches Some((
                i,
                f,
            )) && f == prefer[choose|k: int| first_preferred_available(prefer, configs@, sample_rate, channels, k)]
                && first_fit_with_format(configs@, sample_rate, channels, f, i as int))
        }),
        !(exists|k: int| first_preferred_available(
            spec_preferred_output_formats(bits_per_sample, source_sample_format),
            configs@,
            sample_rate,
            channels,
            k,
        )) ==> (res matches Some((i, f)) ==> forall|j: int|
            0 <= j < i ==> !(fits(configs@[j], sample_rate, channels)
                && spec_is_supported_output_format(#[trigger] configs@[j].sample_format))),
        res is None ==> forall|j: int|
            0 <= j < configs@.len() ==> !(fits(configs@[j], sample_rate, channels)
                && spec_is_supported_output_format(#[trigger] configs@[j].sample_format)),
{
    let prefer = preferred_output_formats(bits_per_sample, source_sample_format);
    let ghost p = prefer@;
    let mut k: usize = 0;
    while k < prefer.len()
        invariant
            k <= p.len(),
            p == prefer@,
            p == spec_preferred_output_formats(bits_per_sample, source_sample_format),
            forall|m: int| 0 <= m < k ==> !#[trigger] has_fit_with_format(configs@, sample_rate, channels, p[m]),
        decreases p.len() - k,
    {
        let f = prefer[k];
        match find_fit_with_format(configs, sample_rate, channels, f) {
            Some(i) => {
                proof {
                    lemma_first_preferred(p, configs@, sample_rate, channels, k as int);
                    lemma_preferred_supported(bits_per_sample, source_sample_format, k as int);
                }
                return Some((i, f));
            },
            None => {
                proof {
                    assert(!has_fit_with_format(configs@, sample_rate, channels, p[k as int]));
                }
            },
        }
        k = k + 1;
    }
    proof {
        assert forall|kk: int| !first_preferred_available(p, configs@, sample_rate, channels, kk) by {
            if 0 <= kk < p.len() {
                assert(!has_fit_with_format(configs@, sample_rate, channels, p[kk]));
            }
        }
    }
    let mut j: usize = 0;
    while j < configs.len()
        invariant
            j <= configs@.len(),
            !(exists|kk: int|
                first_preferred_available(
                    spec_preferred_output_formats(bits_per_sample, source_sample_format),
                    configs@,
                    sample_rate,
                    channels,
                    kk,
                )),
            forall|m: int|
                0 <= m < j ==> !(fits(configs@[m], sample_rate, channels)
                    && spec_is_supported_output_format(#[trigger] configs@[m].sample_format)),
        decreases configs@.len() - j,
    {
        let c = configs[j];
        if c.channels == channels && c.min_sample_rate <= sample_rate && sample_rate <= c.max_sample_rate
            && is_supported_output_format(c.sample_format) {
            return Some((j, c.sample_format));
        }
        j = j + 1;
    }
    None
}

proof fn lemma_first_preferred(p: Seq<OutputSampleFormat>, cs: Seq<SupportedConfigRange>, rate: u32, channels: u16, k: int)
    requires
        0 <= k < p.len(),
        has_fit_with_format(cs, rate, channels, p[k]),
        forall|m: int| 0 <= m < k ==> !#[trigger] has_fit_with_format(cs, rate, channels, p[m]),
    ensures
        exists|kk: int| first_preferred_available(p, cs, rate, channels, kk),
        (choose|kk: int| first_preferred_available(p, cs, rate, channels, kk)) == k,
{
    assert(first_preferred_available(p, cs, rate, channels, k));
    let kk = choose|kk: int| first_preferred_available(p, cs, rate, channels, kk);
    assert(first_preferred_available(p, cs, rate, channels, kk));
    if kk < k {
        assert(!has_fit_with_format(cs, rate, channels, p[kk]));
    }
    if kk > k {
        assert(has_fit_with_format(cs, rate, channels, p[k]));
    }
}

proof fn lemma_preferred_supported(bits: Option<u32>, src: Option<SourceSampleFormat>, k: int)
    requires
        0 <= k < spec_preferred_output_formats(bits, src).len(),
    ensures
        spec_is_supported_output_format(spec_preferred_output_formats(bits, src)[k]),
{
    let p = spec_preferred_output_formats(bits, src);
    assert forall|i: int| 0 <= i < p.len() implies spec_is_supported_output_format(#[trigger] p[i]) by {
        lemma_all_supported(bits, src);
    }
}

proof fn lemma_all_supported(bits: Option<u32>, src: Option<SourceSampleFormat>)
    ensures
        forall|i: int|
            0 <= i < spec_preferred_output_formats(bits, src).len() ==> spec_is_supported_output_format(
                #[trigger] spec_preferred_output_formats(bits, src)[i],
            ),
{
    let s0 = crate::audio::formats::source_preference(src);
    assert forall|i: int| 0 <= i < s0.len() implies spec_is_supported_output_format(#[trigger] s0[i]) by {}
    let d = crate::audio::formats::depth_preference(s0, bits);
    lemma_push_all_supported(s0, OutputSampleFormat::F32);
    lemma_push_all_supported(crate::audio::formats::push_unique(s0, OutputSampleFormat::F32), OutputSampleFormat::I32);
    lemma_push_all_supported(s0, OutputSampleFormat::I24);
    lemma_push_all_supported(crate::audio::formats::push_unique(s0, OutputSampleFormat::I24), OutputSampleFormat::F32);
    lemma_push_all_supported(
        crate::audio::formats::push_unique(crate::audio::formats::push_unique(s0, OutputSampleFormat::I24), OutputSampleFormat::F32),
        OutputSampleFormat::I32,
    );
    lemma_push_all_supported(d, OutputSampleFormat::F32);
    let e1 = crate::audio::formats::push_unique(d, OutputSampleFormat::F32);
    lemma_push_all_supported(e1, OutputSampleFormat::I16);
    let e2 = crate::audio::formats::push_unique(e1, OutputSampleFormat::I16);
    lemma_push_all_supported(e2, OutputSampleFormat::I32);
}

proof fn lemma_push_all_supported(s: Seq<OutputSampleFormat>, f: OutputSampleFormat)
    requires
        forall|i: int| 0 <= i < s.len() ==> spec_is_supported_output_format(#[trigger] s[i]),
        spec_is_supported_output_format(f),
    ensures
        forall|i: int|
            0 <= i < crate::audio::formats::push_unique(s, f).len() ==> spec_is_supported_output_format(
                #[trigger] crate::audio::formats::push_unique(s, f)[i],
            ),
{
}

/// The place of a format's name (`F32`, `I16`, `U8`, ...) in alphabetical
/// order, the order in which a refusal lists a device's formats.
pub open spec fn format_name_rank(f: OutputSampleFormat) -> int {
    match f {
        OutputSampleFormat::F32 => 0,
        OutputSampleFormat::F64 => 1,
        OutputSampleFormat::I16 => 2,
        OutputSampleFormat::I24 => 3,
        OutputSampleFormat::I32 => 4,
        OutputSampleFormat::I64 => 5,
        OutputSampleFormat::I8 => 6,
        OutputSampleFormat::U16 => 7,
        OutputSampleFormat::U24 => 8,
        OutputSampleFormat::U32 => 9,
        OutputSampleFormat::U64 => 10,
        OutputSampleFormat::U8 => 11,
    }
}

fn format_name_rank_exec(f: OutputSampleFormat) -> (r: u8)
    ensures
        r == format_name_rank(f),
{
    match f {
        OutputSampleFormat::F32 => 0,
        OutputSampleFormat::F64 => 1,
        OutputSampleFormat::I16 => 2,
        OutputSampleFormat::I24 => 3,
        OutputSampleFormat::I32 => 4,
        OutputSampleFormat::I64 => 5,
        OutputSampleFormat::I8 => 6,
        OutputSampleFormat::U16 => 7,
        OutputSampleFormat::U24 => 8,
        OutputSampleFormat::U32 => 9,
        OutputSampleFormat::U64 => 10,
        OutputSampleFormat::U8 => 11,
    }
}

/// Channel counts in strictly increasing order.
pub open spec fn ascending_channels(s: Seq<u16>) -> bool {
    forall|i: int, j: int| 0 <= i < j < s.len() ==> s[i] < s[j]
}

/// Formats in strictly increasing alphabetical order of their names.
pub open spec fn ascending_formats(s: Seq<OutputSampleFormat>) -> bool {
    forall|i: int, j: int| 0 <= i < j < s.len() ==> format_name_rank(s[i]) < format_name_rank(s[j])
}

/// Adds `x` to an increasing list of channel counts, keeping it increasing
/// and without repeats.
fn insert_channel(v: &mut Vec<u16>, x: u16)
    requires
        ascending_channels(old(v)@),
    ensures
        ascending_channels(final(v)@),
        forall|y: u16| final(v)@.contains(y) <==> (old(v)@.contains(y) || y == x),
{
    let ghost s = v@;
    let mut i: usize = 0;
    while i < v.len() && v[i] < x
        invariant
            v@ == s,
            ascending_channels(s),
            i <= s.len(),
            forall|k: int| 0 <= k < i ==> s[k] < x,
        decreases s.len() - i,
    {
        i = i + 1;
    }
    if i < v.len() && v[i] == x {
        return;
    }
    v.insert(i, x);
    proof {
        let t = s.insert(i as int, x);
        assert(v@ == t);
        assert(t[i as int] == x);
        assert(v@.contains(x));
        assert forall|a: int, b: int| 0 <= a < b < t.len() implies t[a] < t[b] by {
            if b < i {
            } else if b == i {
            } else if a < i {
                assert(s[a] < x);
                assert(x < s[b - 1]);
            } else if a == i {
                assert(x < s[b - 1]);
                if b - 1 > i {
                    assert(s[i as int] < s[b - 1]);
                }
            } else {
                assert(s[a - 1] < s[b - 1]);
            }
        }
        assert forall|y: u16| v@.contains(y) <==> (s.contains(y) || y == x) by {
            if v@.contains(y) {
                let k = choose|k: int| 0 <= k < t.len() && t[k] == y;
                if k < i {
                    assert(s[k] == y);
                } else if k > i {
                    assert(s[k - 1] == y);
                }
            }
            if s.contains(y) {
                let k = choose|k: int| 0 <= k < s.len() && s[k] == y;
                if k < i {
                    assert(t[k] == y);
                } else {
                    assert(t[k + 1] == y);
                }
            }
            if y == x {
                assert(t[i as int] == y);
            }
        }
    }
}

/// Adds `f` to a list of formats in alphabetical order of their names,
/// keeping the order and without repeats.
fn insert_format(v: &mut Vec<OutputSampleFormat>, f: OutputSampleFormat)
    requires
        ascending_formats(old(v)@),
    ensures
        ascending_formats(final(v)@),
        forall|y: OutputSampleFormat| final(v)@.contains(y) <==> (old(v)@.contains(y) || y == f),
{
    let ghost s = v@;
    let x = format_name_rank_exec(f);
    let mut i: usize = 0;
    while i < v.len() && format_name_rank_exec(v[i]) < x
        invariant
            v@ == s,
            ascending_formats(s),
            i <= s.len(),
            x == format_name_rank(f),
            forall|k: int| 0 <= k < i ==> format_name_rank(s[k]) < x,
        decreases s.len() - i,
    {
        i = i + 1;
    }
    if i < v.len() && format_name_rank_exec(v[i]) == x {
        proof {
            assert(v@[i as int] == f);
            assert(s.contains(f));
            assert(forall|y: OutputSampleFormat| v@.contains(y) <==> (s.contains(y) || y == f));
        }
        return;
    }
    v.insert(i, f);
    proof {
        let t = s.insert(i as int, f);
        assert(v@ == t);
        assert(t[i as int] == f);
        assert(v@.contains(f));
        assert forall|a: int, b: int| 0 <= a < b < t.len() implies format_name_rank(t[a]) < format_name_rank(t[b]) by {
            if b < i {
            } else if b == i {
            } else if a < i {
                assert(format_name_rank(s[a]) < x);
                assert(x < format_name_rank(s[b - 1]));
            } else if a == i {
                assert(x < format_name_rank(s[b - 1]));
                if b - 1 > i {
                    assert(format_name_rank(s[i as int]) < format_name_rank(s[b - 1]));
                }
            } else {
                assert(format_name_rank(s[a - 1]) < format_name_rank(s[b - 1]));
            }
        }
        assert forall|y: OutputSampleFormat| v@.contains(y) <==> (s.contains(y) || y == f) by {
            if v@.contains(y) {
                let k = choose|k: int| 0 <= k < t.len() && t[k] == y;
                if k < i {
                    assert(s[k] == y);
                } else if k > i {
                    assert(s[k - 1] == y);
                }
            }
            if s.contains(y) {
                let k = choose|k: int| 0 <= k < s.len() && s[k] == y;
                if k < i {
                    assert(t[k] == y);
                } else {
                    assert(t[k + 1] == y);
                }
            }
            if y == f {
                assert(t[i as int] == y);
            }
        }
        assert(s == old(v)@);
    }
}

/// Why no bit-perfect configuration exists.
#[derive(Clone, Debug, PartialEq, Eq)]
pub struct BitPerfectRejection {
    /// The source's sample format could not be told.
    pub unknown_source_format: bool,
    /// Some configuration has the stream's channel count.
    pub channels_supported: bool,
    /// Some configuration has the channel count and the sample rate.
    pub rate_supported: bool,
    /// Some configuration has the channel count, the rate and an exact format.
    pub format_supported: bool,
    /// The channel counts the device supports, in increasing order.
    pub supported_channels: Vec<u16>,
    /// The sample formats the device supports, in alphabetical order of
    /// their names.
    pub supported_formats: Vec<OutputSampleFormat>,
}

/// A bit-perfect configuration for a stream: the first one that fits and
/// whose format reproduces the source exactly (see
/// `bit_perfect_output_formats`), with its position and format; otherwise
/// why there is none.
pub fn find_bit_perfect_config(
    configs: &[SupportedConfigRange],
    sample_rate: u32,
    channels: u16,
    bits_per_sample: Option<u32>,
    source_sample_format: Option<SourceSampleFormat>,
) -> (res: Result<(usize, OutputSampleFormat), BitPerfectRejection>)
    ensures
        ({
            let req = spec_bit_perfect_output_formats(bits_per_sample, source_sample_format);
            &&& req.len() == 0 ==> (res matches Err(r) && r.unknown_source_format
                && r.supported_channels@.len() == 0 && r.supported_formats@.len() == 0)
            &&& res matches Ok((i, f)) ==> i < configs@.len() && fits(configs@[i as int], sample_rate, channels)
                && configs@[i as int].sample_format == f && req.contains(f) && forall|j: int|
                0 <= j < i ==> !(fits(configs@[j], sample_rate, channels) && req.contains(
                #[trigger] configs@[j].sample_format,
            ))
            &&& (req.len() > 0 && res is Err) ==> {
                let r = res->Err_0;
                &&& !r.unknown_source_format
                &&& forall|j: int|
                    0 <= j < configs@.len() ==> !(fits(configs@[j], sample_rate, channels) && req.contains(
                        #[trigger] configs@[j].sample_format,
                    ))
                &&& r.channels_supported == (exists|j: int|
                    0 <= j < configs@.len() && #[trigger] configs@[j].channels == channels)
                &&& r.rate_supported == (exists|j: int|
                    0 <= j < configs@.len() && #[trigger] fits(configs@[j], sample_rate, channels))
                &&& !r.format_supported
                &&& ascending_channels(r.supported_channels@)
                &&& forall|c: u16| r.supported_channels@.contains(c) <==> (exists|j: int|
                    0 <= j < configs@.len() && #[trigger] configs@[j].channels == c)
                &&& ascending_formats(r.supported_formats@)
                &&& forall|f: OutputSampleFormat| r.supported_formats@.contains(f) <==> (exists|j: int|
                    0 <= j < configs@.len() && #[trigger] configs@[j].sample_format == f)
            }
        }),
{
    let required = bit_perfect_output_formats(bits_per_sample, source_sample_format);
    if required.len() == 0 {
        return Err(
            BitPerfectRejection {
                unknown_source_format: true,
                channels_supported: false,
                rate_supported: false,
                format_supported: false,
                supported_channels: Vec::new(),
                supported_formats: Vec::new(),
            },
        );
    }
    let ghost req = required@;
    let mut channels_supported = false;
    let mut rate_supported = false;
    let mut supported_channels: Vec<u16> = Vec::new();
    let mut supported_formats: Vec<OutputSampleFormat> = Vec::new();
    let mut j: usize = 0;
    while j < configs.len()
        invariant
            j <= configs@.len(),
            req == required@,
            req == spec_bit_perfect_output_formats(bits_per_sample, source_sample_format),
            req.len() > 0,
            channels_supported == (exists|m: int| 0 <= m < j && #[trigger] configs@[m].channels == channels),
            rate_supported == (exists|m: int| 0 <= m < j && #[trigger] fits(configs@[m], sample_rate, channels)),
            ascending_channels(supported_channels@),
            forall|c: u16| supported_channels@.contains(c) <==> (exists|m: int|
                0 <= m < j && #[trigger] configs@[m].channels == c),
            ascending_formats(supported_formats@),
            forall|f: OutputSampleFormat| supported_formats@.contains(f) <==> (exists|m: int|
                0 <= m < j && #[trigger] configs@[m].sample_format == f),
            forall|m: int|
                0 <= m < j ==> !(fits(configs@[m], sample_rate, channels) && req.contains(
                    #[trigger] configs@[m].sample_format,
                )),
        decreases configs@.len() - j,
    {
        let c = configs[j];
        insert_channel(&mut supported_channels, c.channels);
        insert_format(&mut supported_formats, c.sample_format);
        proof {
            assert forall|cc: u16| supported_channels@.contains(cc) <==> (exists|m: int|
                0 <= m < j + 1 && #[trigger] configs@[m].channels == cc) by {
                if cc == c.channels {
                    assert(configs@[j as int].channels == cc);
                }
                if exists|m: int| 0 <= m < j + 1 && #[trigger] configs@[m].channels == cc {
                    let m = choose|m: int| 0 <= m < j + 1 && #[trigger] configs@[m].channels == cc;
                    if m < j {
                        assert(exists|m2: int| 0 <= m2 < j && #[trigger] configs@[m2].channels == cc);
                    }
                }
            }
            assert forall|ff: OutputSampleFormat| supported_formats@.contains(ff) <==> (exists|m: int|
                0 <= m < j + 1 && #[trigger] configs@[m].sample_format == ff) by {
                if ff == c.sample_format {
                    assert(configs@[j as int].sample_format == ff);
                }
                if exists|m: int| 0 <= m < j + 1 && #[trigger] configs@[m].sample_format == ff {
                    let m = choose|m: int| 0 <= m < j + 1 && #[trigger] configs@[m].sample_format == ff;
                    if m < j {
                        assert(exists|m2: int| 0 <= m2 < j && #[trigger] configs@[m2].sample_format == ff);
                    }
                }
            }
        }
        let fit = c.channels == channels && c.min_sample_rate <= sample_rate && sample_rate <= c.max_sample_rate;
        assert(fit == fits(configs@[j as int], sample_rate, channels));
        if c.channels == channels {
            channels_supported = true;
        }
        if fit {
            rate_supported = true;
        }
        let exact = crate::audio::formats::contains_format(&required, c.sample_format);
        if fit && exact {
            return Ok((j, c.sample_format));
        }
        j = j + 1;
    }
    Err(
        BitPerfectRejection {
            unknown_source_format: false,
            channels_supported,
            rate_supported,
            format_supported: false,
            supported_channels,
            supported_formats,
        },
    )
}

} // verus!
