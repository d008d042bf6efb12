//! Decoder and playback scheduler for SMAF (`.mmf`) ringtone files.
//!
//! A file is a container of framed chunks ([`framing`]). [`Smaf::parse`] turns
//! its bytes into a tree of typed chunks: contents info and optional data
//! ([`content_info`]), score tracks with their sequences and waves
//! ([`score_track`], [`score_sequence`]) and PCM audio tracks
//! ([`pcm_audio_track`]). Waves are Yamaha ADPCM and decoded by [`adpcm`].
//! Failures are described in [`error`].
//!
//! Playing comes in two forms. [`timeline`] lays out, for a whole file, what
//! the audio backend is asked to do and when, and [`player`] walks such a
//! schedule against a clock. [`track_player`] plays one track in real time,
//! keeping the note-offs that are still to come. Either way the library only
//! decides; sleeping and the backend are the caller's.
//!
//! Every function is verified against a contract that is stated over the
//! bytes of the input and the mathematical value of the result.

pub mod adpcm;
pub mod constants;
pub mod content_info;
pub mod error;
pub mod framing;
pub mod pcm_audio_track;
pub mod player;
pub mod primitives;
pub mod score_sequence;
pub mod score_track;
pub mod smaf;
pub mod timeline;
pub mod track_player;

pub use crate::adpcm::{decode_adpcm, ymb_step, DecodeContext};
pub use crate::constants::{BaseBit, Channel, FormatType, PcmWaveFormat, StreamWaveFormat};
pub use crate::content_info::{ContentsInfoChunk, OptionalDataChunk};
pub use crate::error::{ParseFailure, PlayError, SmafError};
pub use crate::pcm_audio_track::{
    PCMAudioSequenceData, PCMAudioSequenceEvent, PCMAudioTrack, PCMAudioTrackChunk,
};
pub use crate::player::{Player, PlayerAction};
pub use crate::primitives::{parse_timebase, parse_variable_number};
pub use crate::score_sequence::{ScoreTrackSequenceEvent, SequenceData};
pub use crate::score_track::{
    ChannelStatus, ChannelType, PCMDataChunk, PcmDataChunk, ScoreTrack, ScoreTrackChunk, WaveData,
};
pub use crate::smaf::{Smaf, SmafChunk};
pub use crate::timeline::{
    parse_pcm_audio_track_events, parse_score_track_events, parse_smaf, schedule, SmafEvent,
};
pub use crate::track_player::{PcmAudioTrackPlayer, ScoreTrackPlayer, TrackAction};
