//! The bridge between the audio of a rig and the sound devices of this machine.
use std::collections::VecDeque;

use vstd::prelude::*;

use crate::audio_ws::AudioStreamInfo;
use crate::config::AudioBridgeConfig;
use crate::text::{decimal, join2, join3, opt_view, str_eq, u64_text};

verus! {

/// How long to wait before the bridge starts again, in milliseconds.
pub const BRIDGE_RETRY_DELAY_MS: u64 = 2_000;

/// How many frames the playback buffer holds at most.
pub const RING_FRAMES: usize = 16;

// ---------------------------------------------------------------------------------------------
// When the bridge runs
// ---------------------------------------------------------------------------------------------

/// What the bridge does next.
#[derive(Clone, Copy, Debug, PartialEq, Eq, Structural)]
pub enum BridgeStep {
    /// The program ends.
    Stop,
    /// Play and capture with these parameters.
    Run(AudioStreamInfo),
    /// Wait for the parameters of the stream.
    Wait,
}

/// What the bridge does next, given whether the program ends, the parameters of the stream where
/// they are known, and whether they can still come.
pub fn bridge_step(shutdown: bool, info: Option<AudioStreamInfo>, closed: bool) -> (res: BridgeStep)
    ensures
        res == (if shutdown {
            BridgeStep::Stop
        } else {
            match info {
                Some(i) => BridgeStep::Run(i),
                None => if closed {
                    BridgeStep::Stop
                } else {
                    BridgeStep::Wait
                },
            }
        }),
{
    if shutdown {
        return BridgeStep::Stop;
    }
    match info {
        Some(i) => BridgeStep::Run(i),
        None => if closed {
            BridgeStep::Stop
        } else {
            BridgeStep::Wait
        },
    }
}

// ---------------------------------------------------------------------------------------------
// The parameters
// ---------------------------------------------------------------------------------------------

/// How many channels Opus has.
#[derive(Clone, Copy, Debug, PartialEq, Eq, Structural)]
pub enum OpusChannels {
    Mono,
    Stereo,
}

/// How audio is played and captured.
#[derive(Clone, Copy, Debug, PartialEq, Eq, Structural)]
pub struct BridgePlan {
    pub sample_rate: u32,
    pub channels: OpusChannels,
    /// How many samples a frame has, over all channels.
    pub frame_samples: usize,
    /// The bit rate of what is captured, in bits per second.
    pub bitrate_bps: u32,
}

/// How many samples a frame has, over all channels.
pub open spec fn frame_samples_of(info: AudioStreamInfo) -> int {
    (info.sample_rate * info.frame_duration_ms / 1000) * info.channels
}

/// How audio is played and captured, given the parameters of the stream. There must be one channel
/// or two.
pub fn bridge_plan(cfg: &AudioBridgeConfig, info: AudioStreamInfo) -> (res: Result<
    BridgePlan,
    String,
>)
    requires
        frame_samples_of(info) * RING_FRAMES <= usize::MAX,
        info.sample_rate * info.frame_duration_ms <= usize::MAX,
    ensures
        match res {
            Ok(plan) => (info.channels == 1 || info.channels == 2) && plan == (BridgePlan {
                sample_rate: info.sample_rate,
                channels: if info.channels == 1 {
                    OpusChannels::Mono
                } else {
                    OpusChannels::Stereo
                },
                frame_samples: frame_samples_of(info) as usize,
                bitrate_bps: cfg.bitrate_bps,
            }),
            Err(e) => info.channels != 1 && info.channels != 2 && e@
                == "unsupported channel count "@ + decimal(info.channels as nat),
        },
{
    let channels = if info.channels == 1 {
        OpusChannels::Mono
    } else if info.channels == 2 {
        OpusChannels::Stereo
    } else {
        let n = u64_text(info.channels as u64);
        return Err(join2("unsupported channel count ", n.as_str()));
    };
    let per_second: u64 = info.sample_rate as u64;
    let duration: u64 = info.frame_duration_ms as u64;
    assert(per_second * duration <= 0xffff_ffff * 0xffff) by (nonlinear_arith)
        requires
            0 <= per_second <= 0xffff_ffff,
            0 <= duration <= 0xffff,
    ;
    let per_channel: u64 = per_second * duration / 1000;
    let total: u64 = if info.channels == 1 {
        per_channel
    } else {
        per_channel * 2
    };
    assert(total == frame_samples_of(info));
    Ok(
        BridgePlan {
            sample_rate: info.sample_rate,
            channels,
            frame_samples: total as usize,
            bitrate_bps: cfg.bitrate_bps,
        },
    )
}

// ---------------------------------------------------------------------------------------------
// Devices
// ---------------------------------------------------------------------------------------------

/// What a device is for.
#[derive(Clone, Copy, Debug, PartialEq, Eq, Structural)]
pub enum DeviceKind {
    Output,
    Input,
}

/// Which device to use.
#[derive(Clone, Copy, Debug, PartialEq, Eq, Structural)]
pub enum DeviceChoice {
    /// The device at the index.
    Named(usize),
    /// The system's own choice.
    Preset,
}

/// The word for what a device is for.
pub open spec fn kind_word(kind: DeviceKind) -> Seq<char> {
    match kind {
        DeviceKind::Output => "output"@,
        DeviceKind::Input => "input"@,
    }
}

/// Whether the device at the index is the first with the name. A device may have none.
pub open spec fn first_named(names: Seq<Option<String>>, name: Seq<char>, i: int) -> bool {
    0 <= i < names.len() && opt_view(names[i]) == Some(name) && forall|j: int|
        0 <= j < i ==> opt_view(#[trigger] names[j]) != Some(name)
}

/// The device to use: the first with the wanted name, or the system's own choice where no name is
/// wanted.
pub fn select_device(
    kind: DeviceKind,
    names: &Vec<Option<String>>,
    preferred: &Option<String>,
    has_preset: bool,
) -> (res: Result<DeviceChoice, String>)
    ensures
        match (*preferred, res) {
            (Some(name), Ok(choice)) => choice matches DeviceChoice::Named(i) && first_named(
                names@,
                name@,
                i as int,
            ),
            (Some(name), Err(e)) => e@ == kind_word(kind) + " device '"@ + name@ + "' not found"@
                && forall|j: int|
                0 <= j < names@.len() ==> opt_view(#[trigger] names@[j]) != Some(name@),
            (None, Ok(choice)) => has_preset && choice is Preset,
            (None, Err(e)) => !has_preset && e@ == "no default "@ + kind_word(kind) + " device"@,
        },
{
    let word = match kind {
        DeviceKind::Output => "output",
        DeviceKind::Input => "input",
    };
    match preferred {
        Some(name) => {
            let mut i: usize = 0;
            while i < names.len()
                invariant
                    i <= names@.len(),
                    *preferred == Some(*name),
                    forall|j: int| 0 <= j < i ==> opt_view(#[trigger] names@[j]) != Some(name@),
                decreases names@.len() - i,
            {
                let found = match &names[i] {
                    Some(n) => str_eq(n.as_str(), name.as_str()),
                    None => false,
                };
                if found {
                    return Ok(DeviceChoice::Named(i));
                }
                i = i + 1;
            }
            let head = join3(word, " device '", name.as_str());
            Err(join2(head.as_str(), "' not found"))
        },
        None => if has_preset {
            Ok(DeviceChoice::Preset)
        } else {
            Err(join3("no default ", word, " device"))
        },
    }
}

// ---------------------------------------------------------------------------------------------
// Samples
// ---------------------------------------------------------------------------------------------

/// The last `max` samples, or all where there are no more.
pub open spec fn last_samples<T>(samples: Seq<T>, max: int) -> Seq<T> {
    if samples.len() > max {
        samples.skip(samples.len() - max)
    } else {
        samples
    }
}

/// Adds decoded samples to the playback buffer. It holds a limited number of frames: the oldest
/// samples make room.
pub fn buffer_samples<T: Copy>(ring: &mut VecDeque<T>, decoded: &[T], frame_samples: usize)
    requires
        frame_samples * RING_FRAMES <= usize::MAX,
        old(ring)@.len() + decoded@.len() <= usize::MAX,
    ensures
        final(ring)@ == last_samples(old(ring)@ + decoded@, frame_samples * RING_FRAMES),
{
    let ghost before = ring@;
    let mut i: usize = 0;
    while i < decoded.len()
        invariant
            i <= decoded@.len(),
            ring@ == before + decoded@.take(i as int),
        decreases decoded@.len() - i,
    {
        ring.push_back(decoded[i]);
        i = i + 1;
        assert(ring@ =~= before + decoded@.take(i as int));
    }
    assert(decoded@.take(decoded@.len() as int) =~= decoded@);
    let ghost full = before + decoded@;
    let max: usize = frame_samples * RING_FRAMES;
    let ghost mut gone: int = 0;
    assert(full.skip(0) =~= full);
    while ring.len() > max
        invariant
            0 <= gone <= full.len(),
            ring@ == full.skip(gone),
            gone > 0 ==> ring@.len() >= max,
        decreases ring@.len(),
    {
        let _ = ring.pop_front();
        proof {
            gone = gone + 1;
            assert(ring@ =~= full.skip(gone));
        }
    }
}

/// Nothing newer than what is kept is ever dropped from the playback buffer: the newest samples are
/// those that were decoded last.
pub proof fn newest_samples_stay<T>(before: Seq<T>, decoded: Seq<T>, max: int)
    requires
        decoded.len() <= max,
    ensures
        last_samples(before + decoded, max).len() >= decoded.len(),
        last_samples(before + decoded, max).skip(
            last_samples(before + decoded, max).len() - decoded.len(),
        ) == decoded,
{
    let all = before + decoded;
    let kept = last_samples(all, max);
    assert(kept.skip(kept.len() - decoded.len()) =~= decoded);
}

/// The first whole frames of a list of samples.
pub open spec fn frames_of<T>(samples: Seq<T>, size: int) -> Seq<Seq<T>>
    decreases samples.len(),
{
    if size <= 0 || samples.len() < size {
        Seq::empty()
    } else {
        seq![samples.take(size)] + frames_of(samples.skip(size), size)
    }
}

/// What is left behind the whole frames.
pub open spec fn rest_of<T>(samples: Seq<T>, size: int) -> Seq<T>
    decreases samples.len(),
{
    if size <= 0 || samples.len() < size {
        samples
    } else {
        rest_of(samples.skip(size), size)
    }
}

/// Takes the whole frames out of the captured samples.
pub fn take_frames<T: Copy>(pcm: &mut Vec<T>, frame_samples: usize) -> (res: Vec<Vec<T>>)
    requires
        frame_samples > 0,
    ensures
        res@.map_values(|f: Vec<T>| f@) == frames_of(old(pcm)@, frame_samples as int),
        final(pcm)@ == rest_of(old(pcm)@, frame_samples as int),
{
    let ghost all = pcm@;
    let ghost size = frame_samples as int;
    let n: usize = pcm.len();
    let mut frames: Vec<Vec<T>> = Vec::new();
    let mut at: usize = 0;
    proof {
        assert(all.skip(0) =~= all);
        assert(frames@.map_values(|f: Vec<T>| f@) + frames_of(all, size) =~= frames_of(all, size));
    }
    while n - at >= frame_samples
        invariant
            n == pcm@.len(),
            pcm@ == all,
            size == frame_samples,
            frame_samples > 0,
            at <= n,
            frames@.map_values(|f: Vec<T>| f@) + frames_of(all.skip(at as int), size) == frames_of(
                all,
                size,
            ),
            rest_of(all.skip(at as int), size) == rest_of(all, size),
        decreases n - at,
    {
        let frame = copy_range(pcm, at, at + frame_samples);
        let ghost done = frames@.map_values(|f: Vec<T>| f@);
        let ghost left = all.skip(at as int);
        frames.push(frame);
        at = at + frame_samples;
        proof {
            assert(left.take(size) =~= frame@);
            assert(left.skip(size) =~= all.skip(at as int));
            let now = frames@.map_values(|f: Vec<T>| f@);
            assert(now =~= done.push(frame@));
            assert(now + frames_of(all.skip(at as int), size) =~= done + frames_of(left, size));
        }
    }
    let rest = copy_range(pcm, at, n);
    proof {
        assert(all.skip(at as int) =~= rest@);
        assert(frames@.map_values(|f: Vec<T>| f@) + frames_of(all.skip(at as int), size)
            =~= frames@.map_values(|f: Vec<T>| f@));
    }
    *pcm = rest;
    frames
}

fn copy_range<T: Copy>(samples: &Vec<T>, from: usize, to: usize) -> (res: Vec<T>)
    requires
        from <= to <= samples@.len(),
    ensures
        res@ == samples@.subrange(from as int, to as int),
{
    let mut out: Vec<T> = Vec::new();
    let mut i: usize = from;
    while i < to
        invariant
            from <= i <= to <= samples@.len(),
            out@ == samples@.subrange(from as int, i as int),
        decreases to - i,
    {
        out.push(samples[i]);
        i = i + 1;
        assert(out@ =~= samples@.subrange(from as int, i as int));
    }
    out
}

/// No captured sample is lost: the frames and what is left, put together, are the samples.
pub proof fn frames_keep_samples<T>(samples: Seq<T>, size: int)
    requires
        size > 0,
    ensures
        frames_of(samples, size).flatten() + rest_of(samples, size) == samples,
        rest_of(samples, size).len() < size,
    decreases samples.len(),
{
    let frames = frames_of(samples, size);
    if samples.len() < size {
        assert(frames.flatten() =~= Seq::<T>::empty());
        assert(frames.flatten() + rest_of(samples, size) =~= samples);
    } else {
        let left = samples.skip(size);
        frames_keep_samples(left, size);
        assert(frames.drop_first() =~= frames_of(left, size));
        assert(frames.flatten() == frames.first() + frames.drop_first().flatten());
        assert(samples.take(size) + left =~= samples);
        assert(frames.flatten() + rest_of(samples, size) =~= samples.take(size) + (frames_of(
            left,
            size,
        ).flatten() + rest_of(left, size)));
    }
}

/// A frame has the samples of its milliseconds, for every channel.
pub proof fn samples_of_a_frame(info: AudioStreamInfo, n: int)
    requires
        info.sample_rate * info.frame_duration_ms == 1000 * n,
    ensures
        frame_samples_of(info) == n * info.channels,
{
}

/// A buffer keeps the newest samples, as many as it may hold, in their order.
pub proof fn the_newest_samples_are_kept<T>(samples: Seq<T>, max: int)
    requires
        max >= 0,
    ensures
        samples.len() <= max ==> last_samples(samples, max) == samples,
        samples.len() > max ==> last_samples(samples, max).len() == max && last_samples(samples, max)
            == samples.subrange(samples.len() - max, samples.len() as int),
{
    if samples.len() > max {
        assert(samples.skip(samples.len() - max) =~= samples.subrange(
            samples.len() - max,
            samples.len() as int,
        ));
    }
}

/// The frames are cut from the front, each of the full size.
pub proof fn frames_are_full<T>(samples: Seq<T>, size: int, i: int)
    requires
        size > 0,
    ensures
        0 <= i < frames_of(samples, size).len() ==> frames_of(samples, size)[i].len() == size,
        frames_of(samples, size).len() == samples.len() as int / size,
        0 <= i < frames_of(samples, size).len() ==> (i + 1) * size <= samples.len()
            && frames_of(samples, size)[i] == samples.subrange(i * size, (i + 1) * size),
    decreases samples.len(),
{
    if samples.len() >= size {
        let rest = samples.skip(size);
        frames_are_full(rest, size, i - 1);
        let n = samples.len() as int;
        assert((n - size) / size == n / size - 1) by (nonlinear_arith)
            requires
                size > 0,
                n >= size,
        ;
        if i == 0 {
            assert(0 * size == 0 && 1 * size == size);
            assert(samples.take(size) =~= samples.subrange(0, size));
        } else if 0 < i < frames_of(samples, size).len() {
            assert((i - 1) * size == i * size - size && (i + 1) * size == i * size + size
                && i * size >= size) by (nonlinear_arith)
                requires
                    i > 0,
                    size > 0,
            ;
            assert(frames_of(samples, size)[i] == frames_of(rest, size)[i - 1]);
            assert(rest.subrange((i - 1) * size, i * size) =~= samples.subrange(
                i * size,
                (i + 1) * size,
            ));
        }
    } else {
        let n = samples.len() as int;
        assert(n / size == 0) by (nonlinear_arith)
            requires
                0 <= n < size,
        ;
    }
}

/// The words for the two directions of a device.
pub proof fn words_for_devices()
    ensures
        kind_word(DeviceKind::Output) == "output"@,
        kind_word(DeviceKind::Input) == "input"@,
{
}

/// A device that has the name, with none before it that has it, is the one.
pub proof fn a_first_device_is_found(names: Seq<Option<String>>, name: Seq<char>, i: int)
    requires
        0 <= i < names.len(),
        names[i] is Some && names[i]->0@ == name,
        forall|j: int| 0 <= j < i ==> (#[trigger] names[j]) is None || names[j]->0@ != name,
    ensures
        first_named(names, name, i),
{
}

/// The device with a name is the first that has it.
pub proof fn the_first_device_counts(names: Seq<Option<String>>, name: Seq<char>, i: int, j: int)
    requires
        first_named(names, name, i),
    ensures
        0 <= i < names.len(),
        names[i] is Some && names[i]->0@ == name,
        first_named(names, name, j) ==> i == j,
        0 <= j < i ==> names[j] is None || names[j]->0@ != name,
{
    if first_named(names, name, j) {
        if i < j {
            assert(opt_view(names[i]) != Some(name));
        }
        if j < i {
            assert(opt_view(names[j]) != Some(name));
        }
    }
    if 0 <= j < i {
        assert(opt_view(names[j]) != Some(name));
    }
}

} // verus!
