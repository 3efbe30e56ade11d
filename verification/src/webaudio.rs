use vstd::prelude::*;
use vstd::string::*;

use crate::graph::GraphError;

verus! {

/// The shape of a basic oscillator.
#[derive(Debug, Clone, Copy, PartialEq, Eq, Structural)]
pub enum Waveform {
    Sine,
    Square,
    Sawtooth,
    Triangle,
}

/// The type an oscillator reports: a basic shape or a custom wave.
#[derive(Debug, Clone, Copy, PartialEq, Eq, Structural)]
pub enum OscillatorTypeValue {
    Sine,
    Square,
    Sawtooth,
    Triangle,
    Custom,
}

/// The type of an oscillator of the given basic shape.
pub open spec fn waveform_type(w: Waveform) -> OscillatorTypeValue {
    match w {
        Waveform::Sine => OscillatorTypeValue::Sine,
        Waveform::Square => OscillatorTypeValue::Square,
        Waveform::Sawtooth => OscillatorTypeValue::Sawtooth,
        Waveform::Triangle => OscillatorTypeValue::Triangle,
    }
}

impl From<Waveform> for OscillatorTypeValue {
    fn from(value: Waveform) -> (r: Self) {
        match value {
            Waveform::Sine => OscillatorTypeValue::Sine,
            Waveform::Square => OscillatorTypeValue::Square,
            Waveform::Sawtooth => OscillatorTypeValue::Sawtooth,
            Waveform::Triangle => OscillatorTypeValue::Triangle,
        }
    }
}

impl vstd::std_specs::convert::FromSpecImpl<Waveform> for OscillatorTypeValue {
    open spec fn obeys_from_spec() -> bool {
        true
    }

    open spec fn from_spec(v: Waveform) -> OscillatorTypeValue {
        waveform_type(v)
    }
}

/// Whether a parameter is computed per sample or per render quantum.
#[derive(Debug, Clone, Copy, PartialEq, Eq, Structural)]
pub enum AutomationRate {
    ARate,
    KRate,
}

/// How a panner places a source.
#[derive(Debug, Clone, Copy, PartialEq, Eq, Structural)]
pub enum PanningModel {
    EqualPower,
    Hrtf,
}

/// How a panner attenuates with distance.
#[derive(Debug, Clone, Copy, PartialEq, Eq, Structural)]
pub enum DistanceModel {
    Linear,
    Inverse,
    Exponential,
}

/// The models a panner node works with.
#[derive(Debug, Clone, Copy, PartialEq, Eq)]
pub struct PannerModels {
    pub panning_model: PanningModel,
    pub distance_model: DistanceModel,
}

impl PannerModels {
    /// A new panner's models: equal-power panning, inverse distance.
    pub fn new() -> (r: Self)
        ensures
            r.panning_model == PanningModel::EqualPower,
            r.distance_model == DistanceModel::Inverse,
    {
        PannerModels { panning_model: PanningModel::EqualPower, distance_model: DistanceModel::Inverse }
    }

    /// Sets the panning model. HRTF panning is not implemented and is
    /// refused, leaving the models as they were.
    pub fn set_panning_model(&mut self, model: PanningModel) -> (r: Result<(), GraphError>)
        ensures
            model == PanningModel::Hrtf ==> r == Err::<(), GraphError>(GraphError::UnsupportedPanningModel)
                && *final(self) == *old(self),
            model == PanningModel::EqualPower ==> r is Ok
                && *final(self) == (PannerModels { panning_model: model, ..*old(self) }),
    {
        match model {
            PanningModel::Hrtf => Err(GraphError::UnsupportedPanningModel),
            PanningModel::EqualPower => {
                self.panning_model = model;
                Ok(())
            },
        }
    }

    /// Sets the distance model; every distance model is accepted.
    pub fn try_distance_model(&mut self, model: DistanceModel) -> (r: Result<(), GraphError>)
        ensures
            r is Ok,
            *final(self) == (PannerModels { distance_model: model, ..*old(self) }),
    {
        self.distance_model = model;
        Ok(())
    }
}

/// How much a wave shaper oversamples: not at all, twice or four times.
#[derive(Debug, Clone, Copy, PartialEq, Eq, Structural)]
pub enum Oversample {
    NoOversampling,
    TwoX,
    FourX,
}

/// The size and rate of an audio buffer.
#[derive(Debug, Clone, Copy, PartialEq, Eq)]
pub struct AudioBufferOptions {
    pub number_of_channels: usize,
    pub length: usize,
    pub sample_rate: u32,
}

/// Whether a periodic wave keeps its coefficients as given.
#[derive(Debug, Clone, Copy, PartialEq, Eq)]
pub struct PeriodicWaveOptions {
    pub disable_normalization: bool,
}

impl Default for PeriodicWaveOptions {
    fn default() -> (r: Self)
        ensures
            !r.disable_normalization,
    {
        PeriodicWaveOptions { disable_normalization: false }
    }
}

/// How many outputs a channel splitter has.
#[derive(Debug, Clone, Copy, PartialEq, Eq)]
pub struct ChannelSplitterOptions {
    pub number_of_outputs: usize,
}

impl Default for ChannelSplitterOptions {
    fn default() -> (r: Self)
        ensures
            r.number_of_outputs == 6,
    {
        ChannelSplitterOptions { number_of_outputs: 6 }
    }
}

/// How many inputs a channel merger has.
#[derive(Debug, Clone, Copy, PartialEq, Eq)]
pub struct ChannelMergerOptions {
    pub number_of_inputs: usize,
}

impl Default for ChannelMergerOptions {
    fn default() -> (r: Self)
        ensures
            r.number_of_inputs == 6,
    {
        ChannelMergerOptions { number_of_inputs: 6 }
    }
}

/// Where an offline context is in its life.
#[derive(Debug, Clone, Copy, PartialEq, Eq, Structural)]
pub enum OfflineAudioContextState {
    Suspended,
    Running,
    Closed,
}

/// What an offline context is made with.
#[derive(Debug, Clone, Copy, PartialEq, Eq)]
pub struct OfflineAudioContextOptions {
    pub number_of_channels: usize,
    pub length: usize,
    pub sample_rate: u32,
    pub render_size_hint: Option<usize>,
}

/// An offline context is made for 1 to 32 channels, at least one frame, and
/// a sample rate from 3000 to 384000.
pub open spec fn offline_args_ok(number_of_channels: usize, length: usize, sample_rate: u32) -> bool {
    1 <= number_of_channels <= 32 && length > 0 && 3000 <= sample_rate <= 384000
}

/// The frame-level state of an offline context: its channels, length and
/// rate, where it is in its life, the frame its current time stands at, and
/// the frames it is asked to suspend at.
pub struct OfflineRenderState {
    pub number_of_channels: usize,
    pub length: usize,
    pub sample_rate: u32,
    pub state: OfflineAudioContextState,
    pub current_frame: usize,
    pub suspend_frames: Vec<usize>,
}

impl OfflineRenderState {
    /// A suspended context at frame 0 with no suspensions planned, when the
    /// arguments are valid.
    pub fn try_new(number_of_channels: usize, length: usize, sample_rate: u32) -> (r: Result<Self, GraphError>)
        ensures
            offline_args_ok(number_of_channels, length, sample_rate) ==> (r matches Ok(c)
                && c.number_of_channels == number_of_channels && c.length == length
                && c.sample_rate == sample_rate && c.state == OfflineAudioContextState::Suspended
                && c.current_frame == 0 && c.suspend_frames@.len() == 0),
            !offline_args_ok(number_of_channels, length, sample_rate) ==> r == Err::<Self, GraphError>(
                GraphError::InvalidAudioBuffer),
    {
        if number_of_channels == 0 || number_of_channels > 32 || length == 0 || !(3000 <= sample_rate && sample_rate <= 384000) {
            return Err(GraphError::InvalidAudioBuffer);
        }
        Ok(OfflineRenderState {
            number_of_channels,
            length,
            sample_rate,
            state: OfflineAudioContextState::Suspended,
            current_frame: 0,
            suspend_frames: Vec::new(),
        })
    }

    /// As `try_new`, and a render size hint must not be zero.
    pub fn try_new_with_options(options: OfflineAudioContextOptions) -> (r: Result<Self, GraphError>)
        ensures
            (options.render_size_hint != Some(0usize)
                && offline_args_ok(options.number_of_channels, options.length, options.sample_rate))
                ==> (r matches Ok(c) && c.number_of_channels == options.number_of_channels
                    && c.length == options.length && c.sample_rate == options.sample_rate
                    && c.state == OfflineAudioContextState::Suspended && c.current_frame == 0
                    && c.suspend_frames@.len() == 0),
            !(options.render_size_hint != Some(0usize)
                && offline_args_ok(options.number_of_channels, options.length, options.sample_rate))
                ==> r == Err::<Self, GraphError>(GraphError::InvalidAudioBuffer),
    {
        match options.render_size_hint {
            Some(hint) => if hint == 0 {
                return Err(GraphError::InvalidAudioBuffer);
            },
            None => {},
        }
        Self::try_new(options.number_of_channels, options.length, options.sample_rate)
    }

    /// Refuses anything on a closed context.
    pub fn check_open(&self) -> (r: Result<(), GraphError>)
        ensures
            r == (if self.state == OfflineAudioContextState::Closed {
                Err::<(), GraphError>(GraphError::ContextClosed)
            } else {
                Ok(())
            }),
    {
        if self.state == OfflineAudioContextState::Closed { Err(GraphError::ContextClosed) } else { Ok(()) }
    }

    /// Plans a suspension at a frame: refused on a closed context, at or
    /// past the end, or at a frame already planned; the context is then
    /// suspended, its current time at that frame.
    pub fn suspend_at_frame(&mut self, frame: usize) -> (r: Result<(), GraphError>)
        ensures
            old(self).state == OfflineAudioContextState::Closed ==> r == Err::<(), GraphError>(GraphError::ContextClosed)
                && *final(self) == *old(self),
            old(self).state != OfflineAudioContextState::Closed && (frame >= old(self).length
                || old(self).suspend_frames@.contains(frame)) ==> r == Err::<(), GraphError>(GraphError::InvalidState)
                && *final(self) == *old(self),
            old(self).state != OfflineAudioContextState::Closed && frame < old(self).length
                && !old(self).suspend_frames@.contains(frame) ==> r is Ok
                && final(self).suspend_frames@ == old(self).suspend_frames@.push(frame)
                && final(self).state == OfflineAudioContextState::Suspended
                && final(self).current_frame == frame
                && final(self).number_of_channels == old(self).number_of_channels
                && final(self).length == old(self).length && final(self).sample_rate == old(self).sample_rate,
    {
        if self.state == OfflineAudioContextState::Closed {
            return Err(GraphError::ContextClosed);
        }
        if frame >= self.length {
            return Err(GraphError::InvalidState);
        }
        let mut k: usize = 0;
        while k < self.suspend_frames.len()
            invariant
                *self == *old(self),
                old(self).state != OfflineAudioContextState::Closed,
                frame < old(self).length,
                k <= self.suspend_frames@.len(),
                forall|i: int| 0 <= i < k ==> self.suspend_frames@[i] != frame,
            decreases self.suspend_frames@.len() - k,
        {
            if self.suspend_frames[k] == frame {
                assert(self.suspend_frames@.contains(frame));
                return Err(GraphError::InvalidState);
            }
            k = k + 1;
        }
        self.suspend_frames.push(frame);
        self.current_frame = frame;
        self.state = OfflineAudioContextState::Suspended;
        Ok(())
    }

    /// An offline context cannot be resumed by hand: a closed one says so,
    /// any other refuses.
    pub fn resume(&self) -> (r: Result<(), GraphError>)
        ensures
            r == Err::<(), GraphError>(if self.state == OfflineAudioContextState::Closed {
                GraphError::ContextClosed
            } else {
                GraphError::InvalidState
            }),
    {
        if self.state == OfflineAudioContextState::Closed {
            return Err(GraphError::ContextClosed);
        }
        Err(GraphError::InvalidState)
    }

    /// Closes the context, once.
    pub fn close(&mut self) -> (r: Result<(), GraphError>)
        ensures
            old(self).state == OfflineAudioContextState::Closed ==> r == Err::<(), GraphError>(GraphError::ContextClosed)
                && *final(self) == *old(self),
            old(self).state != OfflineAudioContextState::Closed ==> r is Ok
                && final(self).state == OfflineAudioContextState::Closed
                && final(self).suspend_frames == old(self).suspend_frames
                && final(self).current_frame == old(self).current_frame
                && final(self).number_of_channels == old(self).number_of_channels
                && final(self).length == old(self).length && final(self).sample_rate == old(self).sample_rate,
    {
        if self.state == OfflineAudioContextState::Closed {
            return Err(GraphError::ContextClosed);
        }
        self.state = OfflineAudioContextState::Closed;
        Ok(())
    }
}

/// The message a graph error displays.
pub open spec fn graph_error_message(e: GraphError) -> Seq<char> {
    match e {
        GraphError::UnknownNode => "unknown graph node"@,
        GraphError::UnknownParam => "unknown graph parameter"@,
        GraphError::WrongContext => "node belongs to a different audio context"@,
        GraphError::InvalidChannel => "invalid audio buffer channel"@,
        GraphError::InvalidChannelCount => "invalid audio node channel count"@,
        GraphError::InvalidAudioBuffer => "invalid audio buffer arguments"@,
        GraphError::InvalidNodeLabel => "invalid audio node label"@,
        GraphError::InvalidConnectionIndex => "invalid audio connection index"@,
        GraphError::InvalidFrequencyResponse => "invalid frequency response buffer lengths"@,
        GraphError::InvalidIirFilter => "invalid IIR filter coefficients"@,
        GraphError::InvalidPeriodicWave => "invalid periodic wave coefficients"@,
        GraphError::InvalidWaveShaperCurve => "invalid wave shaper curve"@,
        GraphError::InvalidConvolverBuffer => "invalid convolver buffer"@,
        GraphError::InvalidAnalyserConfig => "invalid analyser configuration"@,
        GraphError::InvalidDelayTime => "invalid delay max delay time"@,
        GraphError::InvalidPannerConfig => "invalid panner configuration"@,
        GraphError::UnsupportedPanningModel => "unsupported panning model: HRTF is not implemented"@,
        GraphError::InvalidLoopRange => "invalid audio buffer source loop range"@,
        GraphError::InvalidAudioWorkletOptions => "invalid audio worklet options"@,
        GraphError::Cycle => "graph connection would create a cycle"@,
        GraphError::ContextClosed => "audio context is closed"@,
        GraphError::InvalidState => "invalid audio context state"@,
        GraphError::NegativeTime => "scheduled source time cannot be negative"@,
        GraphError::SourceAlreadyStarted => "source node was already started"@,
        GraphError::SourceNotStarted => "source node has not been started"@,
        GraphError::SourceAlreadyStopped => "source node was already stopped"@,
        GraphError::StopBeforeStart => "source stop time is before start time"@,
        GraphError::InvalidAutomationValue => "invalid audio parameter automation value"@,
        GraphError::InvalidAutomationRate => "invalid audio parameter automation rate"@,
        GraphError::ExternalSound(error) => "external sound source failed: "@ + error@,
    }
}

impl GraphError {
    /// The message the error displays.
    pub fn to_string(&self) -> (r: String)
        ensures
            r@ == graph_error_message(*self),
    {
        let text: &str = match self {
            GraphError::UnknownNode => "unknown graph node",
            GraphError::UnknownParam => "unknown graph parameter",
            GraphError::WrongContext => "node belongs to a different audio context",
            GraphError::InvalidChannel => "invalid audio buffer channel",
            GraphError::InvalidChannelCount => "invalid audio node channel count",
            GraphError::InvalidAudioBuffer => "invalid audio buffer arguments",
            GraphError::InvalidNodeLabel => "invalid audio node label",
            GraphError::InvalidConnectionIndex => "invalid audio connection index",
            GraphError::InvalidFrequencyResponse => "invalid frequency response buffer lengths",
            GraphError::InvalidIirFilter => "invalid IIR filter coefficients",
            GraphError::InvalidPeriodicWave => "invalid periodic wave coefficients",
            GraphError::InvalidWaveShaperCurve => "invalid wave shaper curve",
            GraphError::InvalidConvolverBuffer => "invalid convolver buffer",
            GraphError::InvalidAnalyserConfig => "invalid analyser configuration",
            GraphError::InvalidDelayTime => "invalid delay max delay time",
            GraphError::InvalidPannerConfig => "invalid panner configuration",
            GraphError::UnsupportedPanningModel => "unsupported panning model: HRTF is not implemented",
            GraphError::InvalidLoopRange => "invalid audio buffer source loop range",
            GraphError::InvalidAudioWorkletOptions => "invalid audio worklet options",
            GraphError::Cycle => "graph connection would create a cycle",
            GraphError::ContextClosed => "audio context is closed",
            GraphError::InvalidState => "invalid audio context state",
            GraphError::NegativeTime => "scheduled source time cannot be negative",
            GraphError::SourceAlreadyStarted => "source node was already started",
            GraphError::SourceNotStarted => "source node has not been started",
            GraphError::SourceAlreadyStopped => "source node was already stopped",
            GraphError::StopBeforeStart => "source stop time is before start time",
            GraphError::InvalidAutomationValue => "invalid audio parameter automation value",
            GraphError::InvalidAutomationRate => "invalid audio parameter automation rate",
            GraphError::ExternalSound(error) => {
                let mut r = String::from_str("external sound source failed: ");
                r.append(error.as_str());
                return r;
            },
        };
        String::from_str(text)
    }
}

/// Copies as many leading items as both slices hold from `source` into
/// `destination`.
pub fn copy_available<T: Copy>(source: &[T], destination: &mut [T])
    ensures
        final(destination)@.len() == old(destination)@.len(),
        forall|i: int| 0 <= i < final(destination)@.len() ==> #[trigger] final(destination)@[i] == if i < source@.len() {
            source@[i]
        } else {
            old(destination)@[i]
        },
{
    let length = if source.len() < destination.len() { source.len() } else { destination.len() };
    let mut i: usize = 0;
    while i < length
        invariant
            length <= source@.len(),
            length == (if source@.len() < old(destination)@.len() { source@.len() } else { old(destination)@.len() }),
            destination@.len() == old(destination)@.len(),
            i <= length,
            forall|k: int| 0 <= k < destination@.len() ==> #[trigger] destination@[k] == if k < i {
                source@[k]
            } else {
                old(destination)@[k]
            },
        decreases length - i,
    {
        destination[i] = source[i];
        i = i + 1;
    }
}

} // verus!
