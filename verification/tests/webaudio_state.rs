use melody_bay::graph::GraphError;
use melody_bay::handles::{AudioContextSoundHandle, SequencerSoundError, SequencerSoundHandle};
use melody_bay::webaudio::{
    copy_available, ChannelMergerOptions, ChannelSplitterOptions, OfflineAudioContextOptions, OfflineAudioContextState,
    OfflineRenderState, OscillatorTypeValue, PannerModels, PanningModel, DistanceModel, PeriodicWaveOptions, Waveform,
};

#[test]
fn offline_arguments_are_checked() {
    assert_eq!(OfflineRenderState::try_new(0, 10, 44_100).err(), Some(GraphError::InvalidAudioBuffer));
    assert_eq!(OfflineRenderState::try_new(33, 10, 44_100).err(), Some(GraphError::InvalidAudioBuffer));
    assert_eq!(OfflineRenderState::try_new(2, 0, 44_100).err(), Some(GraphError::InvalidAudioBuffer));
    assert_eq!(OfflineRenderState::try_new(2, 10, 2_999).err(), Some(GraphError::InvalidAudioBuffer));
    let c = OfflineRenderState::try_new(2, 10, 384_000).unwrap();
    assert_eq!(c.state, OfflineAudioContextState::Suspended);
    let options = OfflineAudioContextOptions { number_of_channels: 1, length: 5, sample_rate: 8_000, render_size_hint: Some(0) };
    assert_eq!(OfflineRenderState::try_new_with_options(options).err(), Some(GraphError::InvalidAudioBuffer));
    let options = OfflineAudioContextOptions { render_size_hint: Some(128), ..options };
    assert!(OfflineRenderState::try_new_with_options(options).is_ok());
}

#[test]
fn offline_contexts_close_once() {
    let mut c = OfflineRenderState::try_new(1, 100, 8_000).unwrap();
    assert_eq!(c.resume(), Err(GraphError::InvalidState));
    assert_eq!(c.current_frame, 0);
    assert_eq!(c.suspend_at_frame(10), Ok(()));
    assert_eq!(c.current_frame, 10);
    assert_eq!(c.suspend_at_frame(10), Err(GraphError::InvalidState));
    assert_eq!(c.current_frame, 10);
    assert_eq!(c.suspend_at_frame(100), Err(GraphError::InvalidState));
    assert_eq!(c.suspend_frames, vec![10]);
    assert_eq!(c.close(), Ok(()));
    assert_eq!(c.state, OfflineAudioContextState::Closed);
    assert_eq!(c.close(), Err(GraphError::ContextClosed));
    assert_eq!(c.resume(), Err(GraphError::ContextClosed));
    assert_eq!(c.suspend_at_frame(20), Err(GraphError::ContextClosed));
    assert_eq!(c.check_open(), Err(GraphError::ContextClosed));
}

#[test]
fn option_defaults_and_types() {
    assert_eq!(ChannelSplitterOptions::default().number_of_outputs, 6);
    assert_eq!(ChannelMergerOptions::default().number_of_inputs, 6);
    assert!(!PeriodicWaveOptions::default().disable_normalization);
    assert_eq!(OscillatorTypeValue::from(Waveform::Square), OscillatorTypeValue::Square);
    assert_eq!(OscillatorTypeValue::from(Waveform::Triangle), OscillatorTypeValue::Triangle);
}

#[test]
fn copy_available_copies_the_common_prefix() {
    let mut short = vec![0, 0];
    copy_available(&[1, 2, 3], &mut short);
    assert_eq!(short, vec![1, 2]);
    let mut long = vec![9, 9, 9, 9];
    copy_available(&[1, 2], &mut long);
    assert_eq!(long, vec![1, 2, 9, 9]);
}

#[test]
fn handles_share_their_stop_flag() {
    let handle = AudioContextSoundHandle::new();
    let shared = handle.clone();
    assert!(!shared.stopped());
    handle.stop();
    assert!(shared.stopped());
    let seq = SequencerSoundHandle::new();
    seq.stop();
    assert!(seq.stopped());
    assert_eq!(SequencerSoundError.to_string(), "failed to build sequencer sound");
}

#[test]
fn hrtf_panning_is_refused() {
    let mut p = PannerModels::new();
    assert_eq!(p.panning_model, PanningModel::EqualPower);
    assert_eq!(p.distance_model, DistanceModel::Inverse);
    assert_eq!(p.set_panning_model(PanningModel::Hrtf), Err(GraphError::UnsupportedPanningModel));
    assert_eq!(p.panning_model, PanningModel::EqualPower);
    assert_eq!(p.set_panning_model(PanningModel::EqualPower), Ok(()));
    assert_eq!(p.try_distance_model(DistanceModel::Linear), Ok(()));
    assert_eq!(p.distance_model, DistanceModel::Linear);
}
