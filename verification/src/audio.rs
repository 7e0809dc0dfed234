//! Reading audio files, for voice cloning: which track of a file is decoded, and how what comes
//! out of it is brought to another sample rate.
use crate::error::{Cause, TensorError};
use crate::text;
use vstd::prelude::*;
use vstd::string::*;

verus! {

/// A track of an audio file.
#[derive(Clone, Copy, Debug, PartialEq, Eq, Structural)]
pub struct Track {
    pub id: u32,
    /// The track has a codec, so it holds audio.
    pub has_codec: bool,
    pub sample_rate: Option<u32>,
}

/// The first track that holds audio.
pub open spec fn first_audio(tracks: Seq<Track>) -> Option<Track>
    decreases tracks.len(),
{
    if tracks.len() == 0 {
        None
    } else if tracks[0].has_codec {
        Some(tracks[0])
    } else {
        first_audio(tracks.skip(1))
    }
}

/// The track of `path` that is decoded, by its position, and its sample rate: the first that
/// holds audio. It has to say what its sample rate is.
pub fn choose_track(tracks: &Vec<Track>, path: &str) -> (r: Result<(usize, u32), TensorError>)
    ensures
        match first_audio(tracks@) {
            None => r matches Err(e) && e.cause == Cause::Other && e.text@
                == "no audio track in "@ + path@,
            Some(track) => match track.sample_rate {
                None => r matches Err(e) && e.cause == Cause::Other && e.text@ == path@
                    + " declares no sample rate"@,
                Some(rate) => r matches Ok((at, hz)) && at < tracks@.len() && tracks@[at as int]
                    == track && hz == rate && forall|i: int|
                    0 <= i < at ==> !(#[trigger] tracks@[i]).has_codec,
            },
        },
{
    let mut i: usize = 0;
    assert(tracks@.skip(0) =~= tracks@);
    while i < tracks.len() && !tracks[i].has_codec
        invariant
            i <= tracks@.len(),
            first_audio(tracks@) == first_audio(tracks@.skip(i as int)),
            forall|j: int| 0 <= j < i ==> !(#[trigger] tracks@[j]).has_codec,
        decreases tracks@.len() - i,
    {
        assert(tracks@.skip(i as int).skip(1) =~= tracks@.skip(i + 1));
        i += 1;
    }
    if i == tracks.len() {
        return Err(
            TensorError { text: text::glue2("no audio track in ", path), cause: Cause::Other },
        );
    }
    match tracks[i].sample_rate {
        None => Err(
            TensorError { text: text::glue2(path, " declares no sample rate"), cause: Cause::Other },
        ),
        Some(rate) => Ok((i, rate)),
    }
}

/// Whether a packet belongs to the chosen track: those of other tracks are passed over.
pub fn takes_packet(track: u32, packet: u32) -> (r: bool)
    ensures
        r == (track == packet),
{
    track == packet
}

/// A file has to decode to some samples.
pub fn check_decoded(samples: usize, path: &str) -> (r: Result<(), TensorError>)
    ensures
        match r {
            Ok(_) => samples > 0,
            Err(e) => samples == 0 && e.cause == Cause::Other && e.text@ == path@
                + " decoded to no samples"@,
        },
{
    if samples == 0 {
        return Err(
            TensorError { text: text::glue2(path, " decoded to no samples"), cause: Cause::Other },
        );
    }
    Ok(())
}

/// Where reading an audio file failed.
#[derive(Clone, Copy, Debug, PartialEq, Eq, Structural)]
pub enum Stage {
    Open,
    Read,
    Codec,
    Decode,
}

/// How a failure at a stage begins.
pub open spec fn stage_text(stage: Stage) -> Seq<char> {
    match stage {
        Stage::Open => "cannot open "@,
        Stage::Read => "cannot read "@,
        Stage::Codec => "unsupported codec in "@,
        Stage::Decode => "cannot decode "@,
    }
}

/// A failure that names the file it is about.
pub fn file_error(stage: Stage, path: &str, why: &str) -> (r: TensorError)
    ensures
        r.cause == Cause::Other,
        r.text@ == stage_text(stage) + path@ + ": "@ + why@,
{
    let begin = match stage {
        Stage::Open => "cannot open ",
        Stage::Read => "cannot read ",
        Stage::Codec => "unsupported codec in ",
        Stage::Decode => "cannot decode ",
    };
    let mut m = text::glue3(begin, path, ": ");
    m.append(why);
    TensorError { text: m, cause: Cause::Other }
}

/// What to hand to the resampler next.
#[derive(Clone, Copy, Debug, PartialEq, Eq, Structural)]
pub enum Feed {
    /// A full block, from this sample on.
    Block { from: usize },
    /// What is left, from this sample on.
    Rest { from: usize },
    /// Nothing: all is resampled.
    Done,
}

/// The resampling of a run of samples, block by block.
#[derive(Debug)]
pub struct Resampling {
    pos: usize,
    len: usize,
}

impl Resampling {
    /// How many samples were handed over.
    pub closed spec fn used(self) -> nat {
        self.pos as nat
    }

    /// How many samples there are.
    pub closed spec fn total(self) -> nat {
        self.len as nat
    }

    pub closed spec fn wf(self) -> bool {
        self.pos <= self.len
    }

    /// Resample `len` samples.
    pub fn new(len: usize) -> (r: Self)
        ensures
            r.wf(),
            r.used() == 0,
            r.total() == len,
    {
        Resampling { pos: 0, len }
    }

    /// What to hand over next, when the resampler takes blocks of `block` samples.
    pub fn feed(&self, block: usize) -> (r: Feed)
        requires
            self.wf(),
        ensures
            r == (if self.used() + block < self.total() {
                Feed::Block { from: self.used() as usize }
            } else if self.used() < self.total() {
                Feed::Rest { from: self.used() as usize }
            } else {
                Feed::Done
            }),
    {
        if block < self.len - self.pos {
            Feed::Block { from: self.pos }
        } else if self.pos < self.len {
            Feed::Rest { from: self.pos }
        } else {
            Feed::Done
        }
    }

    /// A full block was taken, of this many samples.
    pub fn took(&mut self, samples: usize)
        requires
            old(self).wf(),
            old(self).used() + samples <= old(self).total(),
        ensures
            final(self).wf(),
            final(self).used() == old(self).used() + samples,
            final(self).total() == old(self).total(),
    {
        self.pos = self.pos + samples;
    }

    /// What was left was taken.
    pub fn took_rest(&mut self)
        requires
            old(self).wf(),
        ensures
            final(self).wf(),
            final(self).used() == old(self).total(),
            final(self).total() == old(self).total(),
    {
        self.pos = self.len;
    }
}

/// Samples that are at the wanted rate already are copied; others have to be resampled.
pub fn resample_copy<T: Copy>(pcm: &[T], sr_in: usize, sr_out: usize) -> (r: Option<Vec<T>>)
    ensures
        match r {
            Some(copy) => sr_in == sr_out && copy@ == pcm@,
            None => sr_in != sr_out,
        },
{
    if sr_in != sr_out {
        return None;
    }
    let mut copy: Vec<T> = Vec::new();
    for i in 0..pcm.len()
        invariant
            copy@ == pcm@.take(i as int),
    {
        copy.push(pcm[i]);
    }
    assert(pcm@.take(pcm@.len() as int) =~= pcm@);
    Some(copy)
}

/// The track that is decoded is the first that holds audio, at the rate that it declares.
pub proof fn the_first_audio_is_decoded(
    tracks: Vec<Track>,
    path: &str,
    r: Result<(usize, u32), TensorError>,
)
    requires
        call_ensures(choose_track, (&tracks, path), r),
    ensures
        match r {
            Ok((at, rate)) => {
                &&& at < tracks@.len()
                &&& tracks@[at as int].has_codec
                &&& tracks@[at as int].sample_rate == Some(rate)
                &&& forall|i: int| 0 <= i < at ==> !(#[trigger] tracks@[i]).has_codec
            },
            Err(_) => forall|i: int|
                0 <= i < tracks@.len() && (#[trigger] tracks@[i]).has_codec && tracks@[i].sample_rate is Some
                    ==> exists|j: int| 0 <= j < i && (#[trigger] tracks@[j]).has_codec,
        },
{
    the_first_audio_is_first(tracks@);
    if r is Err {
        assert forall|i: int|
            0 <= i < tracks@.len() && (#[trigger] tracks@[i]).has_codec && tracks@[i].sample_rate is Some
            implies exists|j: int| 0 <= j < i && (#[trigger] tracks@[j]).has_codec by {
            let k = choose|k: int|
                #![trigger tracks@[k]]
                0 <= k < tracks@.len() && first_audio(tracks@) == Some(tracks@[k])
                    && tracks@[k].has_codec && forall|m: int|
                    0 <= m < k ==> !(#[trigger] tracks@[m]).has_codec;
            assert(tracks@[k].has_codec);
            assert(k != i);
            assert(k < i);
        }
    }
}

proof fn the_first_audio_is_first(tracks: Seq<Track>)
    ensures
        match first_audio(tracks) {
            None => forall|i: int| 0 <= i < tracks.len() ==> !(#[trigger] tracks[i]).has_codec,
            Some(track) => track.has_codec && exists|k: int|
                #![trigger tracks[k]]
                0 <= k < tracks.len() && track == tracks[k] && tracks[k].has_codec && forall|m: int|
                    0 <= m < k ==> !(#[trigger] tracks[m]).has_codec,
        },
    decreases tracks.len(),
{
    if tracks.len() > 0 && !tracks[0].has_codec {
        let rest = tracks.skip(1);
        the_first_audio_is_first(rest);
        match first_audio(rest) {
            None => {
                assert forall|i: int| 0 <= i < tracks.len() implies !(
                #[trigger] tracks[i]).has_codec by {
                    if i > 0 {
                        assert(!rest[i - 1].has_codec);
                    }
                }
            },
            Some(track) => {
                let k = choose|k: int|
                    #![trigger rest[k]]
                    0 <= k < rest.len() && track == rest[k] && rest[k].has_codec && forall|m: int|
                        0 <= m < k ==> !(#[trigger] rest[m]).has_codec;
                assert forall|m: int| 0 <= m < k + 1 implies !(#[trigger] tracks[m]).has_codec by {
                    if m > 0 {
                        assert(!rest[m - 1].has_codec);
                    }
                }
                assert(tracks[k + 1] == rest[k]);
            },
        }
    } else if tracks.len() > 0 {
        assert(tracks[0].has_codec);
    }
}

/// A resampler is fed every sample once and in order: behind a full block that it took, it is fed
/// from where that block ended, and what is left at the end is fed as the last.
pub proof fn every_sample_is_fed_once(
    state: Resampling,
    block: usize,
    fed: Feed,
    call: Seq<&mut Resampling>,
    then: Feed,
)
    requires
        state.wf(),
        call_ensures(Resampling::feed, (&state, block), fed),
        call.len() == 1,
        *call[0] == state,
        fed is Block || fed is Rest,
        fed is Block ==> call_ensures(Resampling::took, (call[0], block), ()),
        fed is Rest ==> call_ensures(Resampling::took_rest, (call[0],), ()),
        call_ensures(Resampling::feed, (final(call[0]), block), then),
    ensures
        fed matches Feed::Block { from } ==> {
            &&& from + block < state.total()
            &&& then matches Feed::Block { from: next } ==> next == from + block
            &&& then matches Feed::Rest { from: next } ==> next == from + block
            &&& then != Feed::Done
        },
        fed matches Feed::Rest { from } ==> then == Feed::Done && from < state.total() <= from
            + block,
{
}

} // verus!
