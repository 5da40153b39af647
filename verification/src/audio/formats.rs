//! Choosing output sample formats for a decoded stream: the formats to try
//! in order of preference, and the formats that reproduce the source
//! samples bit for bit.

use vstd::prelude::*;

verus! {

/// The sample format of decoded source audio.
#[derive(Clone, Copy, Debug, PartialEq, Eq, Structural)]
pub enum SourceSampleFormat {
    U8,
    U16,
    U24,
    U32,
    S8,
    S16,
    S24,
    S32,
    F32,
    F64,
}

/// A sample format of an output device.
#[derive(Clone, Copy, Debug, PartialEq, Eq, Structural)]
pub enum OutputSampleFormat {
    I8,
    I16,
    I24,
    I32,
    I64,
    U8,
    U16,
    U24,
    U32,
    U64,
    F32,
    F64,
}

/// Whether samples can be written to an output of this format.
pub open spec fn spec_is_supported_output_format(f: OutputSampleFormat) -> bool {
    !(f is I64 || f is U64)
}

/// Whether samples can be written to an output of this format: every
/// format but the 64-bit integer ones.
pub fn is_supported_output_format(f: OutputSampleFormat) -> (res: bool)
    ensures
        res == spec_is_supported_output_format(f),
{
    match f {
        OutputSampleFormat::I64 | OutputSampleFormat::U64 => false,
        _ => true,
    }
}

/// `s` with `f` appended, unless it already holds `f`.
pub open spec fn push_unique(s: Seq<OutputSampleFormat>, f: OutputSampleFormat) -> Seq<OutputSampleFormat> {
    if s.contains(f) {
        s
    } else {
        s.push(f)
    }
}

/// The output formats matching a source format, best first.
pub open spec fn source_preference(src: Option<SourceSampleFormat>) -> Seq<OutputSampleFormat> {
    match src {
        None => Seq::empty(),
        Some(SourceSampleFormat::F32) => seq![OutputSampleFormat::F32, OutputSampleFormat::F64],
        Some(SourceSampleFormat::F64) => seq![OutputSampleFormat::F64],
        Some(SourceSampleFormat::S16) => seq![OutputSampleFormat::I16],
        Some(SourceSampleFormat::S24) => seq![OutputSampleFormat::I24],
        Some(SourceSampleFormat::S32) => seq![OutputSampleFormat::I32],
        Some(SourceSampleFormat::S8) => seq![OutputSampleFormat::I8],
        Some(SourceSampleFormat::U16) => seq![OutputSampleFormat::U16],
        Some(SourceSampleFormat::U24) => seq![OutputSampleFormat::U24],
        Some(SourceSampleFormat::U32) => seq![OutputSampleFormat::U32],
        Some(SourceSampleFormat::U8) => seq![OutputSampleFormat::U8],
    }
}

/// `s` extended by the formats that suit the source's bit depth.
pub open spec fn depth_preference(s: Seq<OutputSampleFormat>, bits_per_sample: Option<u32>) -> Seq<OutputSampleFormat> {
    match bits_per_sample {
        Some(32) => push_unique(push_unique(s, OutputSampleFormat::F32), OutputSampleFormat::I32),
        Some(24) => push_unique(
            push_unique(push_unique(s, OutputSampleFormat::I24), OutputSampleFormat::F32),
            OutputSampleFormat::I32,
        ),
        _ => s,
    }
}

/// The output formats to try, in order: those matching the source format,
/// then those suiting its bit depth, then `F32`, `I16` and `I32` as
/// fallbacks; no format appears twice.
pub open spec fn spec_preferred_output_formats(bits_per_sample: Option<u32>, src: Option<SourceSampleFormat>) -> Seq<OutputSampleFormat> {
    push_unique(
        push_unique(
            push_unique(depth_preference(source_preference(src), bits_per_sample), OutputSampleFormat::F32),
            OutputSampleFormat::I16,
        ),
        OutputSampleFormat::I32,
    )
}

pub fn contains_format(v: &Vec<OutputSampleFormat>, f: OutputSampleFormat) -> (res: bool)
    ensures
        res == v@.contains(f),
{
    let mut i: usize = 0;
    while i < v.len()
        invariant
            i <= v@.len(),
            forall|j: int| 0 <= j < i ==> v@[j] != f,
        decreases v@.len() - i,
    {
        if v[i] == f {
            assert(v@[i as int] == f);
            return true;
        }
        i = i + 1;
    }
    false
}

fn push_unique_exec(v: &mut Vec<OutputSampleFormat>, f: OutputSampleFormat)
    ensures
        final(v)@ == push_unique(old(v)@, f),
{
    if !contains_format(v, f) {
        v.push(f);
    }
}

proof fn lemma_push_unique_keeps_distinct(s: Seq<OutputSampleFormat>, f: OutputSampleFormat)
    requires
        s.no_duplicates(),
    ensures
        push_unique(s, f).no_duplicates(),
        push_unique(s, f).contains(f),
        forall|g: OutputSampleFormat| s.contains(g) ==> #[trigger] push_unique(s, f).contains(g),
        push_unique(s, f).len() >= s.len(),
        forall|i: int| 0 <= i < s.len() ==> #[trigger] push_unique(s, f)[i] == s[i],
{
    if !s.contains(f) {
        let t = s.push(f);
        assert(t[s.len() as int] == f);
        assert forall|i: int, j: int| 0 <= i < t.len() && 0 <= j < t.len() && i != j implies t[i] != t[j] by {
            if i < s.len() && j < s.len() {
            } else if i == s.len() {
                assert(t[j] == s[j]);
                if s[j] == f {
                    assert(s.contains(f));
                }
            } else {
                assert(t[i] == s[i]);
                if s[i] == f {
                    assert(s.contains(f));
                }
            }
        }
        assert forall|g: OutputSampleFormat| s.contains(g) implies #[trigger] t.contains(g) by {
            let k = choose|k: int| 0 <= k < s.len() && s[k] == g;
            assert(t[k] == g);
        }
    }
}

/// The output formats to try, best first (see
/// `spec_preferred_output_formats`).  The source's own formats lead, the
/// fallbacks are always present, and no format appears twice.
pub fn preferred_output_formats(bits_per_sample: Option<u32>, source_sample_format: Option<SourceSampleFormat>) -> (res: Vec<OutputSampleFormat>)
    ensures
        res@ == spec_preferred_output_formats(bits_per_sample, source_sample_format),
        res@.no_duplicates(),
        forall|i: int|
            0 <= i < source_preference(source_sample_format).len() ==> #[trigger] res@[i]
                == source_preference(source_sample_format)[i],
        res@.contains(OutputSampleFormat::F32),
        res@.contains(OutputSampleFormat::I16),
        res@.contains(OutputSampleFormat::I32),
{
    let mut prefer: Vec<OutputSampleFormat> = Vec::new();
    match source_sample_format {
        None => {},
        Some(SourceSampleFormat::F32) => {
            prefer.push(OutputSampleFormat::F32);
            prefer.push(OutputSampleFormat::F64);
        },
        Some(SourceSampleFormat::F64) => prefer.push(OutputSampleFormat::F64),
        Some(SourceSampleFormat::S16) => prefer.push(OutputSampleFormat::I16),
        Some(SourceSampleFormat::S24) => prefer.push(OutputSampleFormat::I24),
        Some(SourceSampleFormat::S32) => prefer.push(OutputSampleFormat::I32),
        Some(SourceSampleFormat::S8) => prefer.push(OutputSampleFormat::I8),
        Some(SourceSampleFormat::U16) => prefer.push(OutputSampleFormat::U16),
        Some(SourceSampleFormat::U24) => prefer.push(OutputSampleFormat::U24),
        Some(SourceSampleFormat::U32) => prefer.push(OutputSampleFormat::U32),
        Some(SourceSampleFormat::U8) => prefer.push(OutputSampleFormat::U8),
    }
    let ghost s0 = prefer@;
    assert(s0 == source_preference(source_sample_format));
    assert(s0.no_duplicates()) by {
        if s0.len() == 2 {
            assert(s0[0] != s0[1]);
        }
    }
    match bits_per_sample {
        Some(32) => {
            push_unique_exec(&mut prefer, OutputSampleFormat::F32);
            proof {
                lemma_push_unique_keeps_distinct(s0, OutputSampleFormat::F32);
            }
            let ghost s1 = prefer@;
            push_unique_exec(&mut prefer, OutputSampleFormat::I32);
            proof {
                lemma_push_unique_keeps_distinct(s1, OutputSampleFormat::I32);
            }
        },
        Some(24) => {
            push_unique_exec(&mut prefer, OutputSampleFormat::I24);
            proof {
                lemma_push_unique_keeps_distinct(s0, OutputSampleFormat::I24);
            }
            let ghost s1 = prefer@;
            push_unique_exec(&mut prefer, OutputSampleFormat::F32);
            proof {
                lemma_push_unique_keeps_distinct(s1, OutputSampleFormat::F32);
            }
            let ghost s2 = prefer@;
            push_unique_exec(&mut prefer, OutputSampleFormat::I32);
            proof {
                lemma_push_unique_keeps_distinct(s2, OutputSampleFormat::I32);
            }
        },
        _ => {},
    }
    let ghost d = prefer@;
    assert(d == depth_preference(s0, bits_per_sample));
    push_unique_exec(&mut prefer, OutputSampleFormat::F32);
    proof {
        lemma_push_unique_keeps_distinct(d, OutputSampleFormat::F32);
    }
    let ghost e1 = prefer@;
    push_unique_exec(&mut prefer, OutputSampleFormat::I16);
    proof {
        lemma_push_unique_keeps_distinct(e1, OutputSampleFormat::I16);
    }
    let ghost e2 = prefer@;
    push_unique_exec(&mut prefer, OutputSampleFormat::I32);
    proof {
        lemma_push_unique_keeps_distinct(e2, OutputSampleFormat::I32);
    }
    prefer
}

/// The output formats that reproduce the source samples exactly, best
/// first: from the source format when it is known, else from the bit
/// depth; none for an unknown depth.
pub open spec fn spec_bit_perfect_output_formats(bits_per_sample: Option<u32>, src: Option<SourceSampleFormat>) -> Seq<OutputSampleFormat> {
    match src {
        Some(SourceSampleFormat::F32) => seq![OutputSampleFormat::F32],
        Some(SourceSampleFormat::F64) => seq![OutputSampleFormat::F64],
        Some(SourceSampleFormat::S16) => seq![OutputSampleFormat::I16],
        Some(SourceSampleFormat::S24) => seq![OutputSampleFormat::I24, OutputSampleFormat::I32],
        Some(SourceSampleFormat::S32) => seq![OutputSampleFormat::I32],
        Some(SourceSampleFormat::S8) => seq![OutputSampleFormat::I8],
        Some(SourceSampleFormat::U16) => seq![OutputSampleFormat::U16],
        Some(SourceSampleFormat::U24) => seq![OutputSampleFormat::U24, OutputSampleFormat::U32],
        Some(SourceSampleFormat::U32) => seq![OutputSampleFormat::U32],
        Some(SourceSampleFormat::U8) => seq![OutputSampleFormat::U8],
        None => match bits_per_sample {
            Some(8) => seq![OutputSampleFormat::I8],
            Some(16) => seq![OutputSampleFormat::I16],
            Some(24) => seq![OutputSampleFormat::I24, OutputSampleFormat::I32],
            Some(32) => seq![OutputSampleFormat::I32],
            _ => Seq::empty(),
        },
    }
}

/// The output formats that reproduce the source samples exactly (see
/// `spec_bit_perfect_output_formats`).
pub fn bit_perfect_output_formats(bits_per_sample: Option<u32>, source_sample_format: Option<SourceSampleFormat>) -> (res: Vec<OutputSampleFormat>)
    ensures
        res@ == spec_bit_perfect_output_formats(bits_per_sample, source_sample_format),
{
    match source_sample_format {
        Some(SourceSampleFormat::F32) => vec![OutputSampleFormat::F32],
        Some(SourceSampleFormat::F64) => vec![OutputSampleFormat::F64],
        Some(SourceSampleFormat::S16) => vec![OutputSampleFormat::I16],
        Some(SourceSampleFormat::S24) => vec![OutputSampleFormat::I24, OutputSampleFormat::I32],
        Some(SourceSampleFormat::S32) => vec![OutputSampleFormat::I32],
        Some(SourceSampleFormat::S8) => vec![OutputSampleFormat::I8],
        Some(SourceSampleFormat::U16) => vec![OutputSampleFormat::U16],
        Some(SourceSampleFormat::U24) => vec![OutputSampleFormat::U24, OutputSampleFormat::U32],
        Some(SourceSampleFormat::U32) => vec![OutputSampleFormat::U32],
        Some(SourceSampleFormat::U8) => vec![OutputSampleFormat::U8],
        None => match bits_per_sample {
            Some(8) => vec![OutputSampleFormat::I8],
            Some(16) => vec![OutputSampleFormat::I16],
            Some(24) => vec![OutputSampleFormat::I24, OutputSampleFormat::I32],
            Some(32) => vec![OutputSampleFormat::I32],
            _ => Vec::new(),
        },
    }
}

/// The one output format that reproduces the source exactly, if any: the
/// first bit-perfect format.
pub fn exact_output_format(bits_per_sample: Option<u32>, source_sample_format: Option<SourceSampleFormat>) -> (res: Option<OutputSampleFormat>)
    ensures
        spec_bit_perfect_output_formats(bits_per_sample, source_sample_format).len() == 0 ==> res is None,
        spec_bit_perfect_output_formats(bits_per_sample, source_sample_format).len() > 0 ==> res == Some(
            spec_bit_perfect_output_formats(bits_per_sample, source_sample_format)[0],
        ),
{
    let v = bit_perfect_output_formats(bits_per_sample, source_sample_format);
    if v.len() == 0 {
        None
    } else {
        Some(v[0])
    }
}

/// Law: every bit-perfect format is one the output can be written in.
pub proof fn law_bit_perfect_formats_supported(bits_per_sample: Option<u32>, src: Option<SourceSampleFormat>)
    ensures
        forall|i: int|
            0 <= i < spec_bit_perfect_output_formats(bits_per_sample, src).len()
                ==> spec_is_supported_output_format(
                #[trigger] spec_bit_perfect_output_formats(bits_per_sample, src)[i],
            ),
{
}

/// The kind of a source sample: 0 signed integer, 1 unsigned integer,
/// 2 floating point.
pub open spec fn source_kind(src: SourceSampleFormat) -> int {
    match src {
        SourceSampleFormat::S8 | SourceSampleFormat::S16 | SourceSampleFormat::S24 | SourceSampleFormat::S32 => 0,
        SourceSampleFormat::U8 | SourceSampleFormat::U16 | SourceSampleFormat::U24 | SourceSampleFormat::U32 => 1,
        SourceSampleFormat::F32 | SourceSampleFormat::F64 => 2,
    }
}

/// The width of a source sample in bits.
pub open spec fn source_width(src: SourceSampleFormat) -> int {
    match src {
        SourceSampleFormat::S8 | SourceSampleFormat::U8 => 8,
        SourceSampleFormat::S16 | SourceSampleFormat::U16 => 16,
        SourceSampleFormat::S24 | SourceSampleFormat::U24 => 24,
        SourceSampleFormat::S32 | SourceSampleFormat::U32 | SourceSampleFormat::F32 => 32,
        SourceSampleFormat::F64 => 64,
    }
}

/// The kind of an output sample: 0 signed integer, 1 unsigned integer,
/// 2 floating point.
pub open spec fn output_kind(f: OutputSampleFormat) -> int {
    match f {
        OutputSampleFormat::I8 | OutputSampleFormat::I16 | OutputSampleFormat::I24 | OutputSampleFormat::I32
        | OutputSampleFormat::I64 => 0,
        OutputSampleFormat::U8 | OutputSampleFormat::U16 | OutputSampleFormat::U24 | OutputSampleFormat::U32
        | OutputSampleFormat::U64 => 1,
        OutputSampleFormat::F32 | OutputSampleFormat::F64 => 2,
    }
}

/// The width of an output sample in bits.
pub open spec fn output_width(f: OutputSampleFormat) -> int {
    match f {
        OutputSampleFormat::I8 | OutputSampleFormat::U8 => 8,
        OutputSampleFormat::I16 | OutputSampleFormat::U16 => 16,
        OutputSampleFormat::I24 | OutputSampleFormat::U24 => 24,
        OutputSampleFormat::I32 | OutputSampleFormat::U32 | OutputSampleFormat::F32 => 32,
        OutputSampleFormat::I64 | OutputSampleFormat::U64 | OutputSampleFormat::F64 => 64,
    }
}

/// Law: bit-perfect output keeps the samples as they are.  For a known
/// source format there is at least one bit-perfect format; the first (the
/// exact format) has the source's kind and width, and every other has the
/// source's kind and a width that holds the sample.  Without a source
/// format, a depth of 8, 16, 24 or 32 bits gives signed integer formats led
/// by one of exactly that width, and any other depth gives none.
pub proof fn law_bit_perfect_keeps_sample_type(bits_per_sample: Option<u32>, src: Option<SourceSampleFormat>)
    ensures
        ({
            let r = spec_bit_perfect_output_formats(bits_per_sample, src);
            &&& src matches Some(s) ==> {
                &&& r.len() > 0
                &&& output_kind(r[0]) == source_kind(s) && output_width(r[0]) == source_width(s)
                &&& forall|i: int| 0 <= i < r.len() ==> output_kind(#[trigger] r[i]) == source_kind(s)
                    && output_width(r[i]) >= source_width(s)
            }
            &&& src is None ==> match bits_per_sample {
                Some(b) => if b == 8 || b == 16 || b == 24 || b == 32 {
                    &&& r.len() > 0
                    &&& output_width(r[0]) == b
                    &&& forall|i: int| 0 <= i < r.len() ==> output_kind(#[trigger] r[i]) == 0 && output_width(r[i]) >= b
                } else {
                    r.len() == 0
                },
                None => r.len() == 0,
            }
        }),
{
}

/// Law: the most preferred output format for a known source format is the
/// one of the source's own kind and width, in both preference orders.
pub proof fn law_preferred_starts_with_source_format(bits_per_sample: Option<u32>, s: SourceSampleFormat)
    ensures
        spec_preferred_output_formats(bits_per_sample, Some(s)).len() > 0,
        output_kind(spec_preferred_output_formats(bits_per_sample, Some(s))[0]) == source_kind(s),
        output_width(spec_preferred_output_formats(bits_per_sample, Some(s))[0]) == source_width(s),
        spec_preferred_output_formats_all(bits_per_sample, Some(s)).len() > 0,
        output_kind(spec_preferred_output_formats_all(bits_per_sample, Some(s))[0]) == source_kind(s),
        output_width(spec_preferred_output_formats_all(bits_per_sample, Some(s))[0]) == source_width(s),
{
    let l = source_ladder(Some(s));
    assert(l.len() > 0);
    lemma_push_all_keeps_prefix(Seq::empty(), l);
    let s1 = push_all(Seq::empty(), l);
    lemma_push_all_keeps_prefix(s1, depth_pair(bits_per_sample));
    let s2 = push_all(s1, depth_pair(bits_per_sample));
    lemma_push_all_keeps_prefix(s2, compatibility_fallback());
    assert(push_unique(Seq::<OutputSampleFormat>::empty(), l[0]) == seq![l[0]]);
    lemma_push_all_first(l);
    let p = source_preference(Some(s));
    let d = depth_preference(p, bits_per_sample);
    lemma_push_unique_prefix(p, OutputSampleFormat::F32);
    lemma_push_unique_prefix(p, OutputSampleFormat::I24);
    lemma_push_unique_prefix(push_unique(p, OutputSampleFormat::F32), OutputSampleFormat::I32);
    lemma_push_unique_prefix(push_unique(p, OutputSampleFormat::I24), OutputSampleFormat::F32);
    lemma_push_unique_prefix(push_unique(push_unique(p, OutputSampleFormat::I24), OutputSampleFormat::F32), OutputSampleFormat::I32);
    lemma_push_unique_prefix(d, OutputSampleFormat::F32);
    lemma_push_unique_prefix(push_unique(d, OutputSampleFormat::F32), OutputSampleFormat::I16);
    lemma_push_unique_prefix(push_unique(push_unique(d, OutputSampleFormat::F32), OutputSampleFormat::I16), OutputSampleFormat::I32);
}

proof fn lemma_push_unique_prefix(s: Seq<OutputSampleFormat>, f: OutputSampleFormat)
    ensures
        push_unique(s, f).len() >= s.len(),
        forall|i: int| 0 <= i < s.len() ==> #[trigger] push_unique(s, f)[i] == s[i],
{
}

proof fn lemma_push_all_keeps_prefix(s: Seq<OutputSampleFormat>, fs: Seq<OutputSampleFormat>)
    ensures
        push_all(s, fs).len() >= s.len(),
        forall|i: int| 0 <= i < s.len() ==> #[trigger] push_all(s, fs)[i] == s[i],
    decreases fs.len(),
{
    if fs.len() > 0 {
        lemma_push_all_keeps_prefix(s, fs.drop_last());
        lemma_push_unique_prefix(push_all(s, fs.drop_last()), fs.last());
    }
}

proof fn lemma_push_all_first(fs: Seq<OutputSampleFormat>)
    requires
        fs.len() > 0,
    ensures
        push_all(Seq::empty(), fs).len() > 0,
        push_all(Seq::empty(), fs)[0] == fs[0],
    decreases fs.len(),
{
    if fs.len() == 1 {
        assert(fs.drop_last().len() == 0);
        assert(push_all(Seq::<OutputSampleFormat>::empty(), fs.drop_last()) == Seq::<OutputSampleFormat>::empty());
    } else {
        lemma_push_all_first(fs.drop_last());
        assert(fs.drop_last()[0] == fs[0]);
        lemma_push_unique_prefix(push_all(Seq::empty(), fs.drop_last()), fs.last());
    }
}

/// `s` extended by each format of `fs` in turn, skipping those it holds.
pub open spec fn push_all(s: Seq<OutputSampleFormat>, fs: Seq<OutputSampleFormat>) -> Seq<OutputSampleFormat>
    decreases fs.len(),
{
    if fs.len() == 0 {
        s
    } else {
        push_unique(push_all(s, fs.drop_last()), fs.last())
    }
}

/// The output formats that keep a source format, widest-compatible last:
/// the same kind of sample at the source's width and then wider ones (for
/// 32-bit sources, the 24-bit one; for floats, the other float width).
pub open spec fn source_ladder(src: Option<SourceSampleFormat>) -> Seq<OutputSampleFormat> {
    match src {
        None => Seq::empty(),
        Some(SourceSampleFormat::S8) => seq![OutputSampleFormat::I8, OutputSampleFormat::I16, OutputSampleFormat::I24, OutputSampleFormat::I32],
        Some(SourceSampleFormat::U8) => seq![OutputSampleFormat::U8, OutputSampleFormat::U16, OutputSampleFormat::U24, OutputSampleFormat::U32],
        Some(SourceSampleFormat::S16) => seq![OutputSampleFormat::I16, OutputSampleFormat::I24, OutputSampleFormat::I32],
        Some(SourceSampleFormat::U16) => seq![OutputSampleFormat::U16, OutputSampleFormat::U24, OutputSampleFormat::U32],
        Some(SourceSampleFormat::S24) => seq![OutputSampleFormat::I24, OutputSampleFormat::I32],
        Some(SourceSampleFormat::U24) => seq![OutputSampleFormat::U24, OutputSampleFormat::U32],
        Some(SourceSampleFormat::S32) => seq![OutputSampleFormat::I32, OutputSampleFormat::I24],
        Some(SourceSampleFormat::U32) => seq![OutputSampleFormat::U32, OutputSampleFormat::U24],
        Some(SourceSampleFormat::F32) => seq![OutputSampleFormat::F32, OutputSampleFormat::F64],
        Some(SourceSampleFormat::F64) => seq![OutputSampleFormat::F64, OutputSampleFormat::F32],
    }
}

/// The signed and unsigned integer formats of the width that holds
/// `bits_per_sample` bits: 8 (up to 8), 16 (up to 16), 24 (up to 24),
/// else 32.
pub open spec fn depth_pair(bits_per_sample: Option<u32>) -> Seq<OutputSampleFormat> {
    match bits_per_sample {
        None => Seq::empty(),
        Some(b) => if b <= 8 {
            seq![OutputSampleFormat::I8, OutputSampleFormat::U8]
        } else if b <= 16 {
            seq![OutputSampleFormat::I16, OutputSampleFormat::U16]
        } else if b <= 24 {
            seq![OutputSampleFormat::I24, OutputSampleFormat::U24]
        } else {
            seq![OutputSampleFormat::I32, OutputSampleFormat::U32]
        },
    }
}

/// Every writable format, in the order tried when nothing better fits.
pub open spec fn compatibility_fallback() -> Seq<OutputSampleFormat> {
    seq![
        OutputSampleFormat::I32,
        OutputSampleFormat::U32,
        OutputSampleFormat::I24,
        OutputSampleFormat::U24,
        OutputSampleFormat::F32,
        OutputSampleFormat::F64,
        OutputSampleFormat::I16,
        OutputSampleFormat::U16,
        OutputSampleFormat::I8,
        OutputSampleFormat::U8,
    ]
}

/// The full preference order over every writable format: the source's
/// ladder, then the formats of its bit depth, then the compatibility
/// fallback, each format once.
pub open spec fn spec_preferred_output_formats_all(bits_per_sample: Option<u32>, src: Option<SourceSampleFormat>) -> Seq<OutputSampleFormat> {
    push_all(push_all(push_all(Seq::empty(), source_ladder(src)), depth_pair(bits_per_sample)), compatibility_fallback())
}

proof fn lemma_push_all(s: Seq<OutputSampleFormat>, fs: Seq<OutputSampleFormat>)
    requires
        s.no_duplicates(),
    ensures
        push_all(s, fs).no_duplicates(),
        forall|g: OutputSampleFormat| #[trigger] push_all(s, fs).contains(g) <==> (s.contains(g) || fs.contains(g)),
    decreases fs.len(),
{
    if fs.len() > 0 {
        let t = fs.drop_last();
        lemma_push_all(s, t);
        let r = push_all(s, t);
        lemma_push_unique_keeps_distinct(r, fs.last());
        assert forall|g: OutputSampleFormat| #[trigger] push_all(s, fs).contains(g) <==> (s.contains(g) || fs.contains(g)) by {
            if push_unique(r, fs.last()).contains(g) {
                if g != fs.last() {
                    if !r.contains(g) {
                        let k = choose|k: int| 0 <= k < push_unique(r, fs.last()).len() && push_unique(r, fs.last())[k] == g;
                        assert(k < r.len() ==> push_unique(r, fs.last())[k] == r[k]);
                        assert(push_unique(r, fs.last()) == r.push(fs.last()));
                        assert(r.contains(g));
                    }
                } else {
                    assert(fs[fs.len() - 1] == g);
                }
            }
            if fs.contains(g) {
                let k = choose|k: int| 0 <= k < fs.len() && fs[k] == g;
                if k < fs.len() - 1 {
                    assert(t[k] == g);
                }
            }
        }
    }
}

fn push_all_exec(v: &mut Vec<OutputSampleFormat>, fs: &[OutputSampleFormat])
    ensures
        final(v)@ == push_all(old(v)@, fs@),
{
    let ghost s0 = v@;
    let mut i: usize = 0;
    while i < fs.len()
        invariant
            i <= fs@.len(),
            v@ == push_all(s0, fs@.take(i as int)),
        decreases fs@.len() - i,
    {
        assert(fs@.take(i + 1).drop_last() == fs@.take(i as int));
        assert(fs@.take(i + 1).last() == fs@[i as int]);
        push_unique_exec(v, fs[i]);
        i = i + 1;
    }
    assert(fs@.take(fs@.len() as int) == fs@);
}

fn source_ladder_exec(src: Option<SourceSampleFormat>) -> (res: Vec<OutputSampleFormat>)
    ensures
        res@ == source_ladder(src),
{
    let mut v: Vec<OutputSampleFormat> = Vec::new();
    match src {
        None => {},
        Some(SourceSampleFormat::S8) => {
            v.push(OutputSampleFormat::I8);
            v.push(OutputSampleFormat::I16);
            v.push(OutputSampleFormat::I24);
            v.push(OutputSampleFormat::I32);
        },
        Some(SourceSampleFormat::U8) => {
            v.push(OutputSampleFormat::U8);
            v.push(OutputSampleFormat::U16);
            v.push(OutputSampleFormat::U24);
            v.push(OutputSampleFormat::U32);
        },
        Some(SourceSampleFormat::S16) => {
            v.push(OutputSampleFormat::I16);
            v.push(OutputSampleFormat::I24);
            v.push(OutputSampleFormat::I32);
        },
        Some(SourceSampleFormat::U16) => {
            v.push(OutputSampleFormat::U16);
            v.push(OutputSampleFormat::U24);
            v.push(OutputSampleFormat::U32);
        },
        Some(SourceSampleFormat::S24) => {
            v.push(OutputSampleFormat::I24);
            v.push(OutputSampleFormat::I32);
        },
        Some(SourceSampleFormat::U24) => {
            v.push(OutputSampleFormat::U24);
            v.push(OutputSampleFormat::U32);
        },
        Some(SourceSampleFormat::S32) => {
            v.push(OutputSampleFormat::I32);
            v.push(OutputSampleFormat::I24);
        },
        Some(SourceSampleFormat::U32) => {
            v.push(OutputSampleFormat::U32);
            v.push(OutputSampleFormat::U24);
        },
        Some(SourceSampleFormat::F32) => {
            v.push(OutputSampleFormat::F32);
            v.push(OutputSampleFormat::F64);
        },
        Some(SourceSampleFormat::F64) => {
            v.push(OutputSampleFormat::F64);
            v.push(OutputSampleFormat::F32);
        },
    }
    assert(v@ == source_ladder(src));
    v
}

fn depth_pair_exec(bits_per_sample: Option<u32>) -> (res: Vec<OutputSampleFormat>)
    ensures
        res@ == depth_pair(bits_per_sample),
{
    let mut v: Vec<OutputSampleFormat> = Vec::new();
    match bits_per_sample {
        None => {},
        Some(b) => if b <= 8 {
            v.push(OutputSampleFormat::I8);
            v.push(OutputSampleFormat::U8);
        } else if b <= 16 {
            v.push(OutputSampleFormat::I16);
            v.push(OutputSampleFormat::U16);
        } else if b <= 24 {
            v.push(OutputSampleFormat::I24);
            v.push(OutputSampleFormat::U24);
        } else {
            v.push(OutputSampleFormat::I32);
            v.push(OutputSampleFormat::U32);
        },
    }
    assert(v@ == depth_pair(bits_per_sample));
    v
}

fn compatibility_fallback_exec() -> (res: Vec<OutputSampleFormat>)
    ensures
        res@ == compatibility_fallback(),
{
    let mut v: Vec<OutputSampleFormat> = Vec::new();
    v.push(OutputSampleFormat::I32);
    v.push(OutputSampleFormat::U32);
    v.push(OutputSampleFormat::I24);
    v.push(OutputSampleFormat::U24);
    v.push(OutputSampleFormat::F32);
    v.push(OutputSampleFormat::F64);
    v.push(OutputSampleFormat::I16);
    v.push(OutputSampleFormat::U16);
    v.push(OutputSampleFormat::I8);
    v.push(OutputSampleFormat::U8);
    assert(v@ == compatibility_fallback());
    v
}

/// The full preference order over every writable format (see
/// `spec_preferred_output_formats_all`): each writable format appears
/// exactly once, and no other.
pub fn preferred_output_formats_all(bits_per_sample: Option<u32>, source_sample_format: Option<SourceSampleFormat>) -> (res: Vec<OutputSampleFormat>)
    ensures
        res@ == spec_preferred_output_formats_all(bits_per_sample, source_sample_format),
        res@.no_duplicates(),
        forall|f: OutputSampleFormat| #[trigger] res@.contains(f) <==> spec_is_supported_output_format(f),
{
    let mut prefer: Vec<OutputSampleFormat> = Vec::new();
    let ladder = source_ladder_exec(source_sample_format);
    push_all_exec(&mut prefer, ladder.as_slice());
    let depth = depth_pair_exec(bits_per_sample);
    push_all_exec(&mut prefer, depth.as_slice());
    let fallback = compatibility_fallback_exec();
    push_all_exec(&mut prefer, fallback.as_slice());
    proof {
        let s0 = Seq::<OutputSampleFormat>::empty();
        let s1 = push_all(s0, source_ladder(source_sample_format));
        let s2 = push_all(s1, depth_pair(bits_per_sample));
        lemma_push_all(s0, source_ladder(source_sample_format));
        lemma_push_all(s1, depth_pair(bits_per_sample));
        lemma_push_all(s2, compatibility_fallback());
        let fb = compatibility_fallback();
        assert forall|f: OutputSampleFormat| #[trigger] prefer@.contains(f) <==> spec_is_supported_output_format(f) by {
            if spec_is_supported_output_format(f) {
                match f {
                    OutputSampleFormat::I32 => assert(fb[0] == f),
                    OutputSampleFormat::U32 => assert(fb[1] == f),
                    OutputSampleFormat::I24 => assert(fb[2] == f),
                    OutputSampleFormat::U24 => assert(fb[3] == f),
                    OutputSampleFormat::F32 => assert(fb[4] == f),
                    OutputSampleFormat::F64 => assert(fb[5] == f),
                    OutputSampleFormat::I16 => assert(fb[6] == f),
                    OutputSampleFormat::U16 => assert(fb[7] == f),
                    OutputSampleFormat::I8 => assert(fb[8] == f),
                    OutputSampleFormat::U8 => assert(fb[9] == f),
                    _ => {},
                }
            } else {
                let l = source_ladder(source_sample_format);
                let d = depth_pair(bits_per_sample);
                if l.contains(f) {
                    let k = choose|k: int| 0 <= k < l.len() && l[k] == f;
                }
                if d.contains(f) {
                    let k = choose|k: int| 0 <= k < d.len() && d[k] == f;
                }
                if fb.contains(f) {
                    let k = choose|k: int| 0 <= k < fb.len() && fb[k] == f;
                }
            }
        }
    }
    prefer
}

} // verus!
