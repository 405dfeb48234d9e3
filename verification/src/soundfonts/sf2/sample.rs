//! The samples of a soundfont file.

use crate::scalar;
use crate::scalar::Scalar;
use crate::soundfonts::resample;
use crate::soundfonts::resample::{resample_vec, SourcePosition};
use std::sync::Arc;
use vstd::prelude::*;

verus! {

/// Why a soundfont could not be read.
#[derive(Clone, Debug)]
pub enum Sf2ParseError {
    /// The file could not be opened.
    FailedToReadFile(String),
    /// The contents of the file make no sense.
    FailedToParseFile(String),
}

/// How a sample belongs to others.
#[derive(Copy, Clone, Debug, PartialEq, Eq, Structural)]
pub enum SampleLink {
    Unlinked,
    MonoSample,
    RightSample,
    LeftSample,
    LinkedSample,
    RomMonoSample,
    RomRightSample,
    RomLeftSample,
    RomLinkedSample,
    VorbisMonoSample,
    VorbisRightSample,
    VorbisLeftSample,
    VorbisLinkedSample,
}

/// Where a sample lies in the sample data, and how it is meant to be played.
#[derive(Copy, Clone, Debug, PartialEq, Eq, Structural)]
pub struct SampleHeader {
    pub start: u32,
    pub end: u32,
    pub loop_start: u32,
    pub loop_end: u32,
    pub sample_rate: u32,
    pub origpitch: u8,
    pub pitchadj: i8,
    pub sample_type: SampleLink,
}

/// What came of reading a chunk of the file.
#[derive(Clone, Debug)]
pub enum ChunkContents {
    /// The file has no such chunk.
    Absent,
    /// The chunk could not be read.
    Unreadable,
    /// The bytes of the chunk.
    Bytes(Vec<u8>),
}

/// A sample, in whole numbers. Dividing them by `full_scale` gives amplitudes.
#[derive(Clone, Debug)]
pub struct Sf2Sample {
    pub data: Vec<i32>,
    pub full_scale: i32,
    /// Whether the data is to be brought to another sample rate.
    pub resample: bool,
    /// -1 for the left of a pair, 1 for the right, 0 for a sample of its own.
    pub link_type: i8,
    pub loop_start: u32,
    pub loop_end: u32,
    pub sample_rate: u32,
    pub origpitch: u8,
    pub pitchadj: i8,
}

/// The full scale of 16 bit samples.
pub const FULL_SCALE_16: i32 = 32_767;

/// The full scale of 24 bit samples, which are read into the upper bits of 32.
pub const FULL_SCALE_24: i32 = 2_147_483_647;

/// A byte read as a signed number.
pub open spec fn signed(byte: u8) -> int {
    if byte < 128 {
        byte as int
    } else {
        byte - 256
    }
}

/// The 16 bit samples of a chunk: pairs of bytes, the less significant first.
pub open spec fn words(smpl: Seq<u8>) -> Seq<i32> {
    Seq::new(
        smpl.len() / 2,
        |i: int| (signed(smpl[2 * i + 1]) * 0x100 + smpl[2 * i]) as i32,
    )
}

/// The 24 bit samples of two chunks: each byte of `extra` is less significant than a pair of `smpl`.
pub open spec fn wide_words(smpl: Seq<u8>, extra: Seq<u8>) -> Seq<i32> {
    Seq::new(
        smpl.len() / 2,
        |i: int|
            (signed(smpl[2 * i + 1]) * 0x100_0000 + smpl[2 * i] * 0x1_0000 + extra[i]
                * 0x100) as i32,
    )
}

/// The number of samples that an extra chunk is for: one byte of padding may follow an odd number
/// of samples.
pub open spec fn extra_len(smpl: Seq<u8>, extra: Seq<u8>) -> int {
    extra.len() - smpl.len() / 2 % 2
}

/// Whether a header lies within `len` samples, and its loop does not start before it.
pub open spec fn header_fits(header: SampleHeader, len: nat) -> bool {
    &&& header.start <= header.end <= len
    &&& header.start <= header.loop_start
    &&& header.start <= header.loop_end
}

/// Whether `sample` is the one that `header` cuts out of `all`.
pub open spec fn is_sample(
    header: SampleHeader,
    all: Seq<i32>,
    full_scale: i32,
    sample_rate: u32,
    sample: Sf2Sample,
) -> bool {
    &&& sample.data@ == all.subrange(header.start as int, header.end as int)
    &&& sample.full_scale == full_scale
    &&& sample.resample == (header.sample_rate != sample_rate && header.start != header.end)
    &&& sample.link_type == match header.sample_type {
        SampleLink::LeftSample => -1,
        SampleLink::RightSample => 1int,
        _ => 0,
    }
    &&& sample.loop_start == header.loop_start - header.start
    &&& sample.loop_end == header.loop_end - header.start
    &&& sample.sample_rate == header.sample_rate
    &&& sample.origpitch == header.origpitch
    &&& sample.pitchadj == header.pitchadj
}

/// Whether `samples` are the ones that the headers cut out of `all`.
pub open spec fn are_samples(
    headers: Seq<SampleHeader>,
    all: Seq<i32>,
    full_scale: i32,
    sample_rate: u32,
    samples: Seq<Sf2Sample>,
) -> bool {
    &&& samples.len() == headers.len()
    &&& forall|i: int|
        0 <= i < headers.len() ==> is_sample(
            headers[i],
            all,
            full_scale,
            sample_rate,
            #[trigger] samples[i],
        )
}

/// Whether the result is an error with the given message.
pub open spec fn fails_with(
    result: Result<Vec<Sf2Sample>, Sf2ParseError>,
    message: Seq<char>,
) -> bool {
    result matches Err(Sf2ParseError::FailedToParseFile(text)) && text@ == message
}

/// Reads a byte as a signed number.
fn sign(byte: u8) -> (value: i32)
    ensures
        value == signed(byte),
{
    if byte < 128 {
        byte as i32
    } else {
        byte as i32 - 256
    }
}

/// Reads 16 bit samples.
fn read_words(smpl: &Vec<u8>) -> (all: Vec<i32>)
    ensures
        all@ == words(smpl@),
{
    let mut all: Vec<i32> = Vec::new();
    let count: usize = smpl.len() / 2;
    let mut i: usize = 0;
    while i < count
        invariant
            i <= count,
            count == smpl@.len() / 2,
            count <= usize::MAX / 2,
            all@ == words(smpl@).take(i as int),
        decreases count - i,
    {
        let value: i32 = sign(smpl[2 * i + 1]) * 0x100 + smpl[2 * i] as i32;
        all.push(value);
        assert(value == words(smpl@)[i as int]);
        i += 1;
    }
    all
}

/// Reads 24 bit samples.
fn read_wide_words(smpl: &Vec<u8>, extra: &Vec<u8>) -> (all: Vec<i32>)
    requires
        extra@.len() >= smpl@.len() / 2,
    ensures
        all@ == wide_words(smpl@, extra@),
{
    let mut all: Vec<i32> = Vec::new();
    let count: usize = smpl.len() / 2;
    let mut i: usize = 0;
    while i < count
        invariant
            i <= count,
            count == smpl@.len() / 2,
            count <= usize::MAX / 2,
            extra@.len() >= count,
            all@ == wide_words(smpl@, extra@).take(i as int),
        decreases count - i,
    {
        let value: i32 = sign(smpl[2 * i + 1]) * 0x100_0000 + smpl[2 * i] as i32 * 0x1_0000
            + extra[i] as i32 * 0x100;
        all.push(value);
        assert(value == wide_words(smpl@, extra@)[i as int]);
        i += 1;
    }
    all
}

/// Cuts one sample out of all.
fn cut_sample(header: &SampleHeader, all: &Vec<i32>, full_scale: i32, sample_rate: u32) -> (sample:
    Sf2Sample)
    requires
        header_fits(*header, all@.len()),
    ensures
        is_sample(*header, all@, full_scale, sample_rate, sample),
{
    let mut data: Vec<i32> = Vec::new();
    let end: usize = header.end as usize;
    let mut i: usize = header.start as usize;
    while i < end
        invariant
            header.start <= i <= end,
            end == header.end,
            end <= all@.len(),
            data@ == all@.subrange(header.start as int, i as int),
        decreases end - i,
    {
        data.push(all[i]);
        i += 1;
    }
    Sf2Sample {
        data,
        full_scale,
        resample: header.sample_rate != sample_rate && header.start != header.end,
        link_type: match header.sample_type {
            SampleLink::LeftSample => -1,
            SampleLink::RightSample => 1,
            _ => 0,
        },
        loop_start: header.loop_start - header.start,
        loop_end: header.loop_end - header.start,
        sample_rate: header.sample_rate,
        origpitch: header.origpitch,
        pitchadj: header.pitchadj,
    }
}

/// Cuts every sample out of all.
fn cut_samples(
    headers: &Vec<SampleHeader>,
    all: &Vec<i32>,
    full_scale: i32,
    sample_rate: u32,
) -> (samples: Vec<Sf2Sample>)
    requires
        forall|i: int|
            0 <= i < headers@.len() ==> header_fits(#[trigger] headers@[i], all@.len()),
    ensures
        are_samples(headers@, all@, full_scale, sample_rate, samples@),
{
    let mut samples: Vec<Sf2Sample> = Vec::new();
    let mut i: usize = 0;
    while i < headers.len()
        invariant
            i <= headers@.len(),
            samples@.len() == i,
            forall|j: int|
                0 <= j < headers@.len() ==> header_fits(#[trigger] headers@[j], all@.len()),
            forall|j: int|
                0 <= j < i ==> is_sample(
                    headers@[j],
                    all@,
                    full_scale,
                    sample_rate,
                    #[trigger] samples@[j],
                ),
        decreases headers@.len() - i,
    {
        assert(header_fits(headers@[i as int], all@.len()));
        samples.push(cut_sample(&headers[i], all, full_scale, sample_rate));
        i += 1;
    }
    samples
}

impl Sf2Sample {
    /// Reads the samples of a file from its sample chunk and, where there is one, the chunk of
    /// extra bits. `sample_rate` is the rate that samples are to be brought to.
    pub fn parse_sf2_samples(
        smpl: ChunkContents,
        sm24: ChunkContents,
        headers: Vec<SampleHeader>,
        sample_rate: u32,
    ) -> (result: Result<Vec<Self>, Sf2ParseError>)
        requires
            smpl matches ChunkContents::Bytes(bytes) ==> {
                ||| sm24 is Unreadable
                ||| sm24 matches ChunkContents::Bytes(extra) && bytes@.len() / 2 != extra_len(
                    bytes@,
                    extra@,
                )
                ||| forall|i: int|
                    0 <= i < headers@.len() ==> header_fits(
                        #[trigger] headers@[i],
                        bytes@.len() / 2,
                    )
            },
        ensures
            match (smpl, sm24) {
                (ChunkContents::Absent, _) => fails_with(
                    result,
                    "Soundfont does not contain samples"@,
                ),
                (ChunkContents::Unreadable, _) => fails_with(
                    result,
                    "Error reading sample contents"@,
                ),
                (ChunkContents::Bytes(_), ChunkContents::Unreadable) => fails_with(
                    result,
                    "Error reading extra sample contents"@,
                ),
                (ChunkContents::Bytes(bytes), ChunkContents::Bytes(extra)) => if bytes@.len() / 2
                    != extra_len(bytes@, extra@) {
                    fails_with(result, "Invalid sample length"@)
                } else {
                    result matches Ok(samples) && are_samples(
                        headers@,
                        wide_words(bytes@, extra@),
                        FULL_SCALE_24,
                        sample_rate,
                        samples@,
                    )
                },
                (ChunkContents::Bytes(bytes), ChunkContents::Absent) => result matches Ok(samples)
                    && are_samples(
                    headers@,
                    words(bytes@),
                    FULL_SCALE_16,
                    sample_rate,
                    samples@,
                ),
            },
    {
        let smpl: Vec<u8> = match smpl {
            ChunkContents::Bytes(bytes) => bytes,
            ChunkContents::Unreadable => {
                return Err(
                    Sf2ParseError::FailedToParseFile("Error reading sample contents".to_owned()),
                );
            },
            ChunkContents::Absent => {
                return Err(
                    Sf2ParseError::FailedToParseFile(
                        "Soundfont does not contain samples".to_owned(),
                    ),
                );
            },
        };
        match sm24 {
            ChunkContents::Absent => {
                let all = read_words(&smpl);
                Ok(cut_samples(&headers, &all, FULL_SCALE_16, sample_rate))
            },
            ChunkContents::Unreadable => Err(
                Sf2ParseError::FailedToParseFile("Error reading extra sample contents".to_owned()),
            ),
            ChunkContents::Bytes(extra) => Self::parse_wide_samples(
                smpl,
                extra,
                headers,
                sample_rate,
            ),
        }
    }

    /// Reads the samples of a file that has a chunk of extra bits.
    fn parse_wide_samples(
        smpl: Vec<u8>,
        extra: Vec<u8>,
        headers: Vec<SampleHeader>,
        sample_rate: u32,
    ) -> (result: Result<Vec<Self>, Sf2ParseError>)
        requires
            smpl@.len() / 2 == extra_len(smpl@, extra@) ==> forall|i: int|
                0 <= i < headers@.len() ==> header_fits(
                    #[trigger] headers@[i],
                    smpl@.len() / 2,
                ),
        ensures
            if smpl@.len() / 2 != extra_len(smpl@, extra@) {
                fails_with(result, "Invalid sample length"@)
            } else {
                result matches Ok(samples) && are_samples(
                    headers@,
                    wide_words(smpl@, extra@),
                    FULL_SCALE_24,
                    sample_rate,
                    samples@,
                )
            },
    {
        let smpllen: usize = smpl.len() / 2;
        let padding: usize = smpllen % 2;
        if extra.len() < padding || smpllen != extra.len() - padding {
            return Err(Sf2ParseError::FailedToParseFile("Invalid sample length".to_owned()));
        }
        let all = read_wide_words(&smpl, &extra);
        Ok(cut_samples(&headers, &all, FULL_SCALE_24, sample_rate))
    }
}

/// Whether `value` is the amplitude of a whole number: 16 bit numbers that are to be resampled are
/// multiplied by the inverse of the full scale, all others are divided by the full scale.
pub open spec fn is_level<V: Scalar>(
    number: i32,
    full_scale: i32,
    multiplied: bool,
    value: V,
) -> bool {
    exists|whole: V, scale: V| #[trigger]
        is_level_by(number, full_scale, multiplied, value, whole, scale)
}

/// As above, by way of the values in between.
pub open spec fn is_level_by<V: Scalar>(
    number: i32,
    full_scale: i32,
    multiplied: bool,
    value: V,
    whole: V,
    scale: V,
) -> bool {
    &&& scalar::is_ratio(number as int, 1, whole)
    &&& if multiplied {
        scalar::is_ratio(1, full_scale as int, scale) && scalar::is_product(whole, scale, value)
    } else {
        scalar::is_ratio(full_scale as int, 1, scale) && scalar::is_quotient(whole, scale, value)
    }
}

/// Whether `values` are the amplitudes of whole numbers.
pub open spec fn are_levels<V: Scalar>(
    numbers: Seq<i32>,
    full_scale: i32,
    multiplied: bool,
    values: Seq<V>,
) -> bool {
    &&& values.len() == numbers.len()
    &&& forall|i: int|
        0 <= i < values.len() ==> is_level(
            numbers[i],
            full_scale,
            multiplied,
            #[trigger] values[i],
        )
}

/// Whether `output` is `values`, brought from one sample rate to another.
pub open spec fn is_brought<V: Scalar, P: SourcePosition<V>>(
    values: Seq<V>,
    from: u32,
    to: u32,
    output: Seq<V>,
) -> bool {
    exists|from_rate: V, to_rate: V| #[trigger]
        resample::is_resampled::<V, P>(values, from_rate, to_rate, output) && scalar::is_ratio(
            from as int,
            1,
            from_rate,
        ) && scalar::is_ratio(to as int, 1, to_rate)
}

impl Sf2Sample {
    /// Whether 16 bit numbers are to be resampled.
    pub open spec fn is_multiplied(self) -> bool {
        self.resample && self.full_scale == FULL_SCALE_16
    }

    /// Whether `output` are the amplitudes of the sample at a sample rate.
    pub open spec fn plays<V: Scalar, P: SourcePosition<V>>(
        self,
        sample_rate: u32,
        output: Seq<V>,
    ) -> bool {
        exists|values: Seq<V>|
            {
                &&& #[trigger] are_levels(
                    self.data@,
                    self.full_scale,
                    self.is_multiplied(),
                    values,
                )
                &&& if self.resample {
                    is_brought::<V, P>(values, self.sample_rate, sample_rate, output)
                } else {
                    output == values
                }
            }
    }

    /// The amplitudes of the sample at a sample rate.
    pub fn amplitudes<V: Scalar, P: SourcePosition<V>>(&self, sample_rate: u32) -> (output: Arc<
        Vec<V>,
    >)
        requires
            self.data@.len() <= i64::MAX,
        ensures
            self.plays::<V, P>(sample_rate, output@),
    {
        let multiplied: bool = self.resample && self.full_scale == FULL_SCALE_16;
        let scale: V = if multiplied {
            scalar::ratio(1, self.full_scale as i64)
        } else {
            scalar::ratio(self.full_scale as i64, 1)
        };
        let mut values: Vec<V> = Vec::new();
        let mut i: usize = 0;
        while i < self.data.len()
            invariant
                i <= self.data@.len(),
                if multiplied {
                    scalar::is_ratio(1, self.full_scale as int, scale)
                } else {
                    scalar::is_ratio(self.full_scale as int, 1, scale)
                },
                values@.len() == i,
                forall|j: int|
                    0 <= j < i ==> is_level(
                        self.data@[j],
                        self.full_scale,
                        multiplied,
                        #[trigger] values@[j],
                    ),
            decreases self.data@.len() - i,
        {
            let number: i32 = self.data[i];
            let whole: V = scalar::ratio(number as i64, 1);
            let value = if multiplied {
                scalar::product(whole, scale)
            } else {
                scalar::quotient(whole, scale)
            };
            assert(is_level_by(number, self.full_scale, multiplied, value, whole, scale));
            values.push(value);
            i += 1;
        }
        assert(are_levels(self.data@, self.full_scale, self.is_multiplied(), values@));
        if !self.resample {
            return Arc::new(values);
        }
        let from_rate: V = scalar::ratio(self.sample_rate as i64, 1);
        let to_rate: V = scalar::ratio(sample_rate as i64, 1);
        let output = resample_vec::<V, P>(values, from_rate, to_rate);
        assert(resample::is_resampled::<V, P>(values@, from_rate, to_rate, output@));
        output
    }
}

/// Whether `value` is the signed number whose bits are two bytes, the less significant one first.
pub open spec fn is_word(low: u8, high: u8, value: i32) -> bool {
    &&& -0x8000 <= value < 0x8000
    &&& (value - (high * 0x100 + low)) % 0x1_0000 == 0
}

/// Whether the upper 24 bits of `value` are three bytes, the less significant ones first.
pub open spec fn is_wide_word(low: u8, middle: u8, high: u8, value: i32) -> bool {
    (value - (high * 0x100_0000 + middle * 0x1_0000 + low * 0x100)) % 0x1_0000_0000 == 0
}

/// Whether a sample is told apart, placed and tuned as its header says.
pub open spec fn is_described(header: SampleHeader, sample_rate: u32, sample: Sf2Sample) -> bool {
    &&& sample.data@.len() == header.end - header.start
    &&& header.start + sample.loop_start == header.loop_start
    &&& header.start + sample.loop_end == header.loop_end
    &&& sample.sample_rate == header.sample_rate
    &&& sample.origpitch == header.origpitch
    &&& sample.pitchadj == header.pitchadj
    &&& sample.link_type < 0 <==> header.sample_type == SampleLink::LeftSample
    &&& sample.link_type > 0 <==> header.sample_type == SampleLink::RightSample
    &&& -1 <= sample.link_type <= 1
    &&& sample.resample <==> header.sample_rate != sample_rate && sample.data@.len() > 0
}

/// Whether every header lies within `len` samples, and no loop starts before its sample.
pub open spec fn all_lie_within(headers: Seq<SampleHeader>, len: int) -> bool {
    forall|i: int|
        0 <= i < headers.len() ==> {
            &&& (#[trigger] headers[i]).start <= headers[i].end
            &&& headers[i].end <= len
            &&& headers[i].start <= headers[i].loop_start
            &&& headers[i].start <= headers[i].loop_end
        }
}

/// Samples of 16 bits: each header gives one, which holds the words of the chunk from its start up to
/// its end.
pub proof fn lemma_words_are_cut(
    bytes: Vec<u8>,
    headers: Vec<SampleHeader>,
    sample_rate: u32,
    result: Result<Vec<Sf2Sample>, Sf2ParseError>,
)
    requires
        call_ensures(
            Sf2Sample::parse_sf2_samples,
            (ChunkContents::Bytes(bytes), ChunkContents::Absent, headers, sample_rate),
            result,
        ),
        all_lie_within(headers@, bytes@.len() as int / 2),
    ensures
        result matches Ok(samples) && samples@.len() == headers@.len() && forall|i: int|
            0 <= i < samples@.len() ==> {
                &&& is_described(headers@[i], sample_rate, #[trigger] samples@[i])
                &&& samples@[i].full_scale == 0x7fff
                &&& forall|k: int|
                    0 <= k < samples@[i].data@.len() ==> is_word(
                        bytes@[2 * (headers@[i].start + k)],
                        bytes@[2 * (headers@[i].start + k) + 1],
                        #[trigger] samples@[i].data@[k],
                    )
            },
{
    let samples = result->Ok_0;
    let all = words(bytes@);
    assert forall|i: int| 0 <= i < samples@.len() implies {
        &&& is_described(headers@[i], sample_rate, #[trigger] samples@[i])
        &&& samples@[i].full_scale == 0x7fff
        &&& forall|k: int|
            0 <= k < samples@[i].data@.len() ==> is_word(
                bytes@[2 * (headers@[i].start + k)],
                bytes@[2 * (headers@[i].start + k) + 1],
                #[trigger] samples@[i].data@[k],
            )
    } by {
        let header = headers@[i];
        assert(header.start <= header.end <= all.len());
        let data = samples@[i].data@;
        assert(is_sample(header, all, FULL_SCALE_16, sample_rate, samples@[i]));
        assert forall|k: int| 0 <= k < data.len() implies is_word(
            bytes@[2 * (header.start + k)],
            bytes@[2 * (header.start + k) + 1],
            #[trigger] data[k],
        ) by {
            assert(data[k] == all[header.start + k]);
        }
    }
}

/// Samples of 24 bits: as above, and the third byte of each comes from the chunk of extra bits. That
/// chunk has one byte for each sample, and one more where their number is odd; else it is refused.
pub proof fn lemma_wide_words_are_cut(
    bytes: Vec<u8>,
    extra: Vec<u8>,
    headers: Vec<SampleHeader>,
    sample_rate: u32,
    result: Result<Vec<Sf2Sample>, Sf2ParseError>,
)
    requires
        call_ensures(
            Sf2Sample::parse_sf2_samples,
            (ChunkContents::Bytes(bytes), ChunkContents::Bytes(extra), headers, sample_rate),
            result,
        ),
        all_lie_within(headers@, bytes@.len() as int / 2),
    ensures
        result is Ok <==> {
            let count = bytes@.len() as int / 2;
            (count % 2 == 0 && extra@.len() == count) || (count % 2 == 1 && extra@.len() == count
                + 1)
        },
        result matches Ok(samples) ==> samples@.len() == headers@.len() && forall|i: int|
            0 <= i < samples@.len() ==> {
                &&& is_described(headers@[i], sample_rate, #[trigger] samples@[i])
                &&& samples@[i].full_scale == 0x7fff_ffff
                &&& forall|k: int|
                    0 <= k < samples@[i].data@.len() ==> is_wide_word(
                        extra@[headers@[i].start + k],
                        bytes@[2 * (headers@[i].start + k)],
                        bytes@[2 * (headers@[i].start + k) + 1],
                        #[trigger] samples@[i].data@[k],
                    )
            },
{
    if result is Ok {
        let samples = result->Ok_0;
        let all = wide_words(bytes@, extra@);
        assert forall|i: int| 0 <= i < samples@.len() implies {
            &&& is_described(headers@[i], sample_rate, #[trigger] samples@[i])
            &&& samples@[i].full_scale == 0x7fff_ffff
            &&& forall|k: int|
                0 <= k < samples@[i].data@.len() ==> is_wide_word(
                    extra@[headers@[i].start + k],
                    bytes@[2 * (headers@[i].start + k)],
                    bytes@[2 * (headers@[i].start + k) + 1],
                    #[trigger] samples@[i].data@[k],
                )
        } by {
            let header = headers@[i];
            assert(header.start <= header.end <= all.len());
            let data = samples@[i].data@;
            assert(is_sample(header, all, FULL_SCALE_24, sample_rate, samples@[i]));
            assert forall|k: int| 0 <= k < data.len() implies is_wide_word(
                extra@[header.start + k],
                bytes@[2 * (header.start + k)],
                bytes@[2 * (header.start + k) + 1],
                #[trigger] data[k],
            ) by {
                assert(data[k] == all[header.start + k]);
            }
        }
    }
}

/// A file without samples, or with a chunk that cannot be read, is refused.
pub proof fn lemma_unreadable_samples(
    smpl: ChunkContents,
    sm24: ChunkContents,
    headers: Vec<SampleHeader>,
    sample_rate: u32,
    result: Result<Vec<Sf2Sample>, Sf2ParseError>,
)
    requires
        call_ensures(Sf2Sample::parse_sf2_samples, (smpl, sm24, headers, sample_rate), result),
        !(smpl is Bytes) || sm24 is Unreadable,
    ensures
        result is Err,
{
}

/// Whether `value` is a number over the full scale.
pub open spec fn is_over_scale<V: Scalar>(number: i32, full_scale: i32, value: V) -> bool {
    exists|whole: V, scale: V|
        #![trigger call_ensures(V::over, (whole, scale), value)]
        call_ensures(V::ratio, (number as i64, 1), whole) && call_ensures(
            V::ratio,
            (full_scale as i64, 1),
            scale,
        ) && call_ensures(V::over, (whole, scale), value)
}

/// Whether `value` is a number times the inverse of the full scale.
pub open spec fn is_times_inverse<V: Scalar>(number: i32, full_scale: i32, value: V) -> bool {
    exists|whole: V, inverse: V|
        #![trigger call_ensures(V::times, (whole, inverse), value)]
        call_ensures(V::ratio, (number as i64, 1), whole) && call_ensures(
            V::ratio,
            (1, full_scale as i64),
            inverse,
        ) && call_ensures(V::times, (whole, inverse), value)
}

/// Whether `values` are the numbers of a sample over its full scale, in order.
pub open spec fn are_over_scale<V: Scalar>(sample: Sf2Sample, values: Seq<V>) -> bool {
    &&& values.len() == sample.data@.len()
    &&& forall|i: int|
        0 <= i < values.len() ==> if sample.resample && sample.full_scale == 0x7fff {
            is_times_inverse(sample.data@[i], sample.full_scale, #[trigger] values[i])
        } else {
            is_over_scale(sample.data@[i], sample.full_scale, values[i])
        }
}

/// Whether `output` is `values`, brought from one rate to another.
pub open spec fn is_brought_over<V: Scalar, P: SourcePosition<V>>(
    values: Seq<V>,
    from: u32,
    to: u32,
    output: Seq<V>,
) -> bool {
    exists|from_rate: V, to_rate: V|
        #![trigger resample::is_at_rate::<V, P>(values, from_rate, to_rate, output)]
        call_ensures(V::ratio, (from as i64, 1), from_rate) && call_ensures(
            V::ratio,
            (to as i64, 1),
            to_rate,
        ) && resample::is_at_rate::<V, P>(values, from_rate, to_rate, output)
}

/// The amplitudes of a sample are its numbers over the full scale, in order. Where its rate is not
/// the one that is asked for they are brought from its own rate to that one.
pub proof fn lemma_sample_amplitudes<V: Scalar, P: SourcePosition<V>>(
    sample: Sf2Sample,
    sample_rate: u32,
    output: Arc<Vec<V>>,
)
    requires
        call_ensures(Sf2Sample::amplitudes::<V, P>, (&sample, sample_rate), output),
    ensures
        !sample.resample ==> are_over_scale(sample, output@),
        sample.resample ==> exists|values: Seq<V>| #[trigger]
            are_over_scale(sample, values) && is_brought_over::<V, P>(
                values,
                sample.sample_rate,
                sample_rate,
                output@,
            ),
{
    let values = choose|values: Seq<V>|
        {
            &&& #[trigger] are_levels(
                sample.data@,
                sample.full_scale,
                sample.is_multiplied(),
                values,
            )
            &&& if sample.resample {
                is_brought::<V, P>(values, sample.sample_rate, sample_rate, output@)
            } else {
                output@ == values
            }
        };
    assert forall|i: int| 0 <= i < values.len() implies if sample.resample && sample.full_scale
        == 0x7fff {
        is_times_inverse(sample.data@[i], sample.full_scale, #[trigger] values[i])
    } else {
        is_over_scale(sample.data@[i], sample.full_scale, values[i])
    } by {
        let multiplied = sample.is_multiplied();
        let (whole, scale) = choose|whole: V, scale: V| #[trigger]
            is_level_by(sample.data@[i], sample.full_scale, multiplied, values[i], whole, scale);
        if multiplied {
            assert(call_ensures(V::times, (whole, scale), values[i]));
        } else {
            assert(call_ensures(V::over, (whole, scale), values[i]));
        }
    }
    assert(are_over_scale(sample, values));
    if sample.resample {
        let (from_rate, to_rate) = choose|from_rate: V, to_rate: V| #[trigger]
            resample::is_resampled::<V, P>(values, from_rate, to_rate, output@)
                && scalar::is_ratio(sample.sample_rate as int, 1, from_rate) && scalar::is_ratio(
                sample_rate as int,
                1,
                to_rate,
            );
        resample::lemma_at_rate::<V, P>(values, from_rate, to_rate, output@);
        assert(is_brought_over::<V, P>(values, sample.sample_rate, sample_rate, output@));
    }
}

} // verus!
