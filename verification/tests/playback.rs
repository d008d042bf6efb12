use smaf::timeline::{advance, pcm_event_cues, score_event_cues, sort_events};
use smaf::{
    parse_pcm_audio_track_events, parse_score_track_events, parse_smaf, schedule, BaseBit, Channel,
    FormatType, PCMAudioSequenceData, PCMAudioSequenceEvent, PCMAudioTrack, PCMAudioTrackChunk,
    PCMDataChunk, ParseFailure, PcmWaveFormat, PlayError, Player, PlayerAction, ScoreTrack, ScoreTrackChunk,
    ScoreTrackSequenceEvent, SequenceData, Smaf, SmafError, SmafEvent, StreamWaveFormat, WaveData,
};

fn chunk_bytes(tag: &[u8; 4], payload: &[u8]) -> Vec<u8> {
    let mut out = tag.to_vec();
    out.extend_from_slice(&(payload.len() as u32).to_be_bytes());
    out.extend_from_slice(payload);
    out
}

fn file_bytes(chunks: &[Vec<u8>]) -> Vec<u8> {
    let body: Vec<u8> = chunks.concat();
    let mut out = b"MMMD".to_vec();
    out.extend_from_slice(&((body.len() + 2) as u32).to_be_bytes());
    out.extend_from_slice(&body);
    out.extend_from_slice(&[0, 0]);
    out
}

fn score_track(timebase_d: u8, timebase_g: u8, events: Vec<SequenceData>) -> ScoreTrack<'static> {
    ScoreTrack {
        format_type: FormatType::MobileStandardNoCompress,
        sequence_type: 0,
        timebase_d,
        timebase_g,
        channel_status: Vec::new(),
        chunks: vec![ScoreTrackChunk::SetupData(&[]), ScoreTrackChunk::SequenceData(events)],
    }
}

fn note_event(duration: u32, channel: u8, note: u8, velocity: u8, gate_time: u32) -> SequenceData {
    SequenceData {
        duration,
        event: ScoreTrackSequenceEvent::NoteMessage { channel, note, velocity, gate_time },
    }
}

fn on(channel: u8, note: u8, velocity: u8) -> SmafEvent {
    SmafEvent::MidiNoteOn { channel, note, velocity }
}

fn off(channel: u8, note: u8, velocity: u8) -> SmafEvent {
    SmafEvent::MidiNoteOff { channel, note, velocity }
}

fn pcm_track(events: Vec<PCMAudioSequenceData>, wave: &'static [u8]) -> PCMAudioTrack<'static> {
    PCMAudioTrack {
        format_type: 0,
        sequence_type: 0,
        channel: Channel::Mono,
        format: PcmWaveFormat::Adpcm,
        sampling_freq: 8000,
        base_bit: BaseBit::Bit4,
        timebase_d: 4,
        timebase_g: 4,
        chunks: vec![
            PCMAudioTrackChunk::SequenceData(events),
            PCMAudioTrackChunk::WaveData(2, &[0x99]),
            PCMAudioTrackChunk::WaveData(3, wave),
            PCMAudioTrackChunk::WaveData(3, &[0x00]),
        ],
    }
}

fn wave_message(duration: u32, wave_number: u8) -> PCMAudioSequenceData {
    PCMAudioSequenceData {
        duration,
        event: PCMAudioSequenceEvent::WaveMessage { channel: 0, wave_number, gate_time: 0 },
    }
}

#[test]
fn single_note_is_ended_after_its_gate_time() {
    let track = score_track(4, 4, vec![note_event(0, 0, 60, 100, 10)]);
    let cues = parse_score_track_events(&track).unwrap();
    assert_eq!(cues, vec![(0, on(0, 60, 100)), (40, off(0, 60, 100)), (0, SmafEvent::End)]);
}

#[test]
fn note_times_follow_both_timebases() {
    let track = score_track(
        5,
        20,
        vec![note_event(3, 1, 61, 90, 2), note_event(10, 2, 62, 80, 1), note_event(0, 3, 63, 70, 0)],
    );
    let cues = parse_score_track_events(&track).unwrap();
    assert_eq!(
        cues,
        vec![
            (15, on(1, 61, 90)),
            (55, off(1, 61, 90)),
            (65, on(2, 62, 80)),
            (85, off(2, 62, 80)),
            (65, on(3, 63, 70)),
            (65, off(3, 63, 70)),
            (65, SmafEvent::End),
        ]
    );
}

#[test]
fn overlapping_notes_end_in_their_own_gate_times() {
    let track = score_track(1, 2, vec![note_event(0, 0, 60, 100, 50), note_event(10, 1, 64, 100, 5)]);
    let smaf = Smaf { magic: b"MMMD", length: 0, chunks: vec![smaf::SmafChunk::ScoreTrack(0, track)], crc: 0 };
    let cues = schedule(&smaf).unwrap();
    assert_eq!(
        cues,
        vec![
            (0, on(0, 60, 100)),
            (10, on(1, 64, 100)),
            (10, SmafEvent::End),
            (20, off(1, 64, 100)),
            (100, off(0, 60, 100)),
        ]
    );
}

#[test]
fn other_score_events() {
    let track = score_track(
        2,
        2,
        vec![
            SequenceData {
                duration: 1,
                event: ScoreTrackSequenceEvent::ControlChange { channel: 1, control: 7, value: 99 },
            },
            SequenceData {
                duration: 2,
                event: ScoreTrackSequenceEvent::ProgramChange { channel: 2, program: 5 },
            },
            SequenceData { duration: 3, event: ScoreTrackSequenceEvent::PitchBend { channel: 0, value: 1 } },
            SequenceData { duration: 4, event: ScoreTrackSequenceEvent::Exclusive(vec![1]) },
            SequenceData { duration: 5, event: ScoreTrackSequenceEvent::Volume { channel: 0, value: 1 } },
            SequenceData { duration: 6, event: ScoreTrackSequenceEvent::Nop },
        ],
    );
    let cues = parse_score_track_events(&track).unwrap();
    assert_eq!(
        cues,
        vec![
            (2, SmafEvent::MidiControlChange { channel: 1, control: 7, value: 99 }),
            (6, SmafEvent::MidiProgramChange { channel: 2, program: 5 }),
            (42, SmafEvent::End),
        ]
    );
}

#[test]
fn note_zero_plays_the_wave_after_its_channel() {
    let wave = |n: u8, data: &'static [u8], base_bit: BaseBit, channel: Channel| {
        PCMDataChunk::WaveData(
            n,
            WaveData {
                channel,
                format: StreamWaveFormat::YamahaADPCM,
                base_bit,
                sampling_freq: 22050,
                wave_data: data,
            },
        )
    };
    let mut track = score_track(4, 4, vec![note_event(2, 1, 0, 64, 9)]);
    track.chunks.push(ScoreTrackChunk::PCMData(vec![wave(1, &[0x77], BaseBit::Bit4, Channel::Mono)]));
    track.chunks.push(ScoreTrackChunk::PCMData(vec![
        wave(3, &[0x00], BaseBit::Bit4, Channel::Mono),
        wave(2, &[0x12, 0x9a], BaseBit::Bit4, Channel::Mono),
        wave(2, &[0x00], BaseBit::Bit4, Channel::Mono),
        wave(4, &[0x00], BaseBit::Bit8, Channel::Mono),
        wave(5, &[0x00], BaseBit::Bit4, Channel::Stereo),
    ]));
    let cues = parse_score_track_events(&track).unwrap();
    assert_eq!(
        cues,
        vec![
            (8, SmafEvent::Wave { channel: 1, sampling_rate: 22050, data: vec![47, 126, 79, 0] }),
            (8, SmafEvent::End),
        ]
    );

    let event = |channel: u8| ScoreTrackSequenceEvent::NoteMessage {
        channel,
        note: 0,
        velocity: 64,
        gate_time: 0,
    };
    assert_eq!(score_event_cues(&track, 7, &event(0)).unwrap().len(), 1);
    assert_eq!(score_event_cues(&track, 7, &event(3)), Err(PlayError::UnsupportedWave));
    assert_eq!(score_event_cues(&track, 7, &event(4)), Err(PlayError::UnsupportedWave));
    assert_eq!(score_event_cues(&track, 7, &event(5)), Err(PlayError::MissingWave));
    assert_eq!(score_event_cues(&track, 7, &event(255)), Err(PlayError::MissingWave));
}

#[test]
fn score_track_failures() {
    let mut track = score_track(4, 4, vec![]);
    assert_eq!(parse_score_track_events(&track).unwrap(), vec![(0, SmafEvent::End)]);
    track.chunks.pop();
    assert_eq!(parse_score_track_events(&track), Err(PlayError::MissingSequence));

    let missing = score_track(4, 4, vec![note_event(0, 0, 0, 64, 0)]);
    assert_eq!(parse_score_track_events(&missing), Err(PlayError::MissingWave));
}

#[test]
fn times_that_cannot_be_counted() {
    assert_eq!(advance(5, 10, 4), Some(45));
    assert_eq!(advance(0, u32::MAX, 255), Some(u32::MAX as usize * 255));
    assert_eq!(advance(usize::MAX, 0, 50), Some(usize::MAX));
    assert_eq!(advance(usize::MAX, 1, 1), None);
    assert_eq!(advance(usize::MAX - 99, 2, 50), None);
    assert_eq!(advance(usize::MAX - 100, 2, 50), Some(usize::MAX));

    let track = score_track(4, 4, vec![]);
    let late = ScoreTrackSequenceEvent::NoteMessage { channel: 0, note: 1, velocity: 1, gate_time: 1 };
    assert_eq!(score_event_cues(&track, usize::MAX - 3, &late), Err(PlayError::TimeOverflow));
    assert_eq!(score_event_cues(&track, usize::MAX - 4, &late).unwrap().len(), 2);
}

#[test]
fn pcm_track_plays_its_waves() {
    let track = pcm_track(
        vec![
            wave_message(5, 3),
            PCMAudioSequenceData {
                duration: 1,
                event: PCMAudioSequenceEvent::Expression { channel: 0, value: 1 },
            },
            PCMAudioSequenceData { duration: 0, event: PCMAudioSequenceEvent::Nop },
        ],
        &[0x7f],
    );
    let cues = parse_pcm_audio_track_events(&track).unwrap();
    assert_eq!(
        cues,
        vec![
            (20, SmafEvent::Wave { channel: 1, sampling_rate: 8000, data: vec![238, -330] }),
            (24, SmafEvent::End),
        ]
    );
}

#[test]
fn pcm_track_failures() {
    let track = pcm_track(vec![wave_message(0, 9)], &[]);
    assert_eq!(parse_pcm_audio_track_events(&track), Err(PlayError::MissingWave));

    let message = PCMAudioSequenceEvent::WaveMessage { channel: 0, wave_number: 3, gate_time: 0 };
    let mut stereo = pcm_track(vec![], &[]);
    stereo.channel = Channel::Stereo;
    assert_eq!(pcm_event_cues(&stereo, 0, &message), Err(PlayError::UnsupportedWave));
    let mut wide = pcm_track(vec![], &[]);
    wide.base_bit = BaseBit::Bit8;
    assert_eq!(pcm_event_cues(&wide, 0, &message), Err(PlayError::UnsupportedWave));
    let mut plain = pcm_track(vec![], &[]);
    plain.format = PcmWaveFormat::TwosComplementPCM;
    assert_eq!(pcm_event_cues(&plain, 0, &message), Err(PlayError::UnsupportedWave));

    let mut empty = pcm_track(vec![], &[]);
    empty.chunks.remove(0);
    assert_eq!(parse_pcm_audio_track_events(&empty), Err(PlayError::MissingSequence));
}

#[test]
fn sorting_keeps_the_order_of_equal_times() {
    let tagged = |time: usize, program: u8| (time, SmafEvent::MidiProgramChange { channel: 0, program });
    let sorted = sort_events(vec![tagged(5, 0), tagged(1, 1), tagged(5, 2), tagged(0, 3), tagged(1, 4), tagged(5, 5)]);
    assert_eq!(
        sorted,
        vec![tagged(0, 3), tagged(1, 1), tagged(1, 4), tagged(5, 0), tagged(5, 2), tagged(5, 5)]
    );
    assert_eq!(sort_events(Vec::new()), Vec::new());
}

#[test]
fn playing_a_file_with_a_wave() {
    let mut wave = vec![0x20, 0x56, 0x22];
    wave.extend_from_slice(&vec![0x17u8; 367104]);
    let sequence = [0x00, 0x90, 0x00, 0x7f, 0x00, 0x00, 0xff, 0x2f, 0x00];
    let mut track = vec![2, 0, 0x02, 0x02];
    track.extend_from_slice(&[0u8; 16]);
    track.extend_from_slice(&chunk_bytes(b"Mtsu", &[1, 2, 3]));
    track.extend_from_slice(&chunk_bytes(b"Mtsq", &sequence));
    track.extend_from_slice(&chunk_bytes(b"Mtsp", &chunk_bytes(b"Mwa\x01", &wave)));
    let file = file_bytes(&[
        chunk_bytes(b"CNTI", &[0, 0, 0, 0, 0]),
        chunk_bytes(b"OPDA", &[]),
        chunk_bytes(b"MTR\x06", &track),
    ]);
    let cues = parse_smaf(&file).unwrap();
    assert_eq!(cues.len(), 2);
    match &cues[0] {
        (0, SmafEvent::Wave { channel, sampling_rate, data }) => {
            assert_eq!(*channel, 1);
            assert_eq!(*sampling_rate, 22050);
            assert_eq!(data.len(), 734208);
        },
        _ => panic!("wave expected"),
    }
    assert_eq!(cues[1], (0, SmafEvent::End));
}

#[test]
fn playing_a_file_with_two_tracks() {
    let sequence = [0x00, 0x90, 60, 100, 10, 0x05, 0xc1, 9, 0x00, 0xff, 0x2f, 0x00];
    let mut score = vec![2, 0, 0x02, 0x02];
    score.extend_from_slice(&[0u8; 16]);
    score.extend_from_slice(&chunk_bytes(b"Mtsq", &sequence));
    let mut pcm = vec![0, 0, 0x11, 0x00, 0x03, 0x03];
    pcm.extend_from_slice(&chunk_bytes(b"Atsq", &[0x02, 0x01, 0x00, 0x00, 0x00, 0x00, 0x00]));
    pcm.extend_from_slice(&chunk_bytes(b"Awa\x01", &[0x7f]));
    let file = file_bytes(&[
        chunk_bytes(b"CNTI", &[0, 0, 0, 0, 0]),
        chunk_bytes(b"MTR\x00", &score),
        chunk_bytes(b"ATR\x00", &pcm),
    ]);
    let cues = parse_smaf(&file).unwrap();
    assert_eq!(
        cues,
        vec![
            (0, on(0, 60, 100)),
            (10, SmafEvent::Wave { channel: 1, sampling_rate: 8000, data: vec![238, -330] }),
            (10, SmafEvent::End),
            (20, SmafEvent::MidiProgramChange { channel: 1, program: 9 }),
            (20, SmafEvent::End),
            (40, off(0, 60, 100)),
        ]
    );
}

#[test]
fn playing_fails_as_the_file_does() {
    assert_eq!(parse_smaf(b"not a file"), Err(SmafError::ParseError(ParseFailure::Envelope)));

    let mut score = vec![2, 0, 0x02, 0x02];
    score.extend_from_slice(&[0u8; 16]);
    let no_sequence = file_bytes(&[chunk_bytes(b"MTR\x00", &score)]);
    assert!(matches!(parse_smaf(&no_sequence), Err(SmafError::Unplayable(PlayError::MissingSequence))));

    score.extend_from_slice(&chunk_bytes(b"Mtsq", &[0x00, 0x80, 0x00, 0x00, 0x00, 0xff, 0x2f, 0x00]));
    let no_wave = file_bytes(&[chunk_bytes(b"MTR\x00", &score)]);
    assert!(matches!(parse_smaf(&no_wave), Err(SmafError::Unplayable(PlayError::MissingWave))));

    let mut pcm = vec![0, 0, 0x91, 0x00, 0x03, 0x03];
    pcm.extend_from_slice(&chunk_bytes(b"Atsq", &[0x02, 0x01, 0x00, 0x00, 0x00, 0x00, 0x00]));
    pcm.extend_from_slice(&chunk_bytes(b"Awa\x01", &[0x7f]));
    let stereo = file_bytes(&[chunk_bytes(b"ATR\x00", &pcm)]);
    assert!(matches!(parse_smaf(&stereo), Err(SmafError::Unplayable(PlayError::UnsupportedWave))));

    let nothing = file_bytes(&[chunk_bytes(b"OPDA", &[1])]);
    assert_eq!(parse_smaf(&nothing).unwrap(), Vec::new());
}

#[test]
fn player_waits_emits_and_finishes() {
    let mut player = Player::new(vec![(0, on(0, 60, 100)), (40, off(0, 60, 100)), (40, SmafEvent::End)]);
    assert_eq!(player.next_action(0, false), PlayerAction::Emit(0));
    assert_eq!(player.event(0), &on(0, 60, 100));
    assert_eq!(player.next_action(0, false), PlayerAction::Wait(40));
    assert_eq!(player.next_action(15, false), PlayerAction::Wait(25));
    assert_eq!(player.position, 1);
    assert_eq!(player.next_action(40, false), PlayerAction::Emit(1));
    assert_eq!(player.event(1), &off(0, 60, 100));
    assert_eq!(player.next_action(1000, false), PlayerAction::Emit(2));
    assert_eq!(player.next_action(1000, false), PlayerAction::Finished);
    assert_eq!(player.position, 3);
}

#[test]
fn cancelled_player_hands_out_nothing() {
    let mut player = Player::new(vec![(0, on(0, 60, 100)), (40, off(0, 60, 100))]);
    assert_eq!(player.next_action(0, true), PlayerAction::Finished);
    assert_eq!(player.next_action(100, true), PlayerAction::Finished);
    assert_eq!(player.position, 0);

    let mut later = Player::new(vec![(0, on(0, 60, 100)), (40, off(0, 60, 100))]);
    assert_eq!(later.next_action(0, false), PlayerAction::Emit(0));
    assert_eq!(later.next_action(50, true), PlayerAction::Finished);
    assert_eq!(later.position, 1);
}
