use smaf::framing::{next_chunk, split_chunks};
use smaf::pcm_audio_track::parse_sampling_freq;
use smaf::primitives::{read_be16, read_be32, read_varint};
use smaf::score_track::{parse_pcm_data, parse_sequence};
use smaf::error::decimal;
use smaf::{
    decode_adpcm, parse_timebase, parse_variable_number, ymb_step, BaseBit, Channel, ChannelStatus,
    ChannelType, ContentsInfoChunk, DecodeContext, FormatType, PCMAudioSequenceData,
    PCMAudioSequenceEvent, PCMAudioTrack, PCMAudioTrackChunk, PCMDataChunk, ParseFailure,
    PcmWaveFormat, PlayError,
    ScoreTrack, ScoreTrackChunk, ScoreTrackSequenceEvent, SequenceData, Smaf, SmafChunk, SmafError,
    StreamWaveFormat, WaveData,
};

fn framed(tag: &[u8; 4], payload: &[u8]) -> Vec<u8> {
    let mut out = tag.to_vec();
    out.extend_from_slice(&(payload.len() as u32).to_be_bytes());
    out.extend_from_slice(payload);
    out
}

fn container(chunks: &[Vec<u8>]) -> Vec<u8> {
    let body: Vec<u8> = chunks.concat();
    let mut out = b"MMMD".to_vec();
    out.extend_from_slice(&((body.len() + 2) as u32).to_be_bytes());
    out.extend_from_slice(&body);
    out.extend_from_slice(&[0xab, 0xcd]);
    out
}

fn mobile_track(inner: &[Vec<u8>]) -> Vec<u8> {
    let mut out = vec![2, 0, 0x02, 0x02];
    out.extend_from_slice(&[0u8; 16]);
    out.extend_from_slice(&inner.concat());
    out
}

fn encode_varint(n: u32) -> Vec<u8> {
    let mut groups = vec![(n & 0x7f) as u8];
    let mut rest = n >> 7;
    while rest != 0 {
        groups.push((rest & 0x7f) as u8 | 0x80);
        rest >>= 7;
    }
    groups.reverse();
    groups
}

fn bell_file() -> Vec<u8> {
    let mut wave = vec![0x20, 0x56, 0x22];
    wave.extend_from_slice(&vec![0x17u8; 367616]);
    let sequence = [0x00, 0x90, 0x00, 0x7f, 0x00, 0x00, 0xff, 0x2f, 0x00];
    let track = mobile_track(&[
        framed(b"Mtsu", &[1, 2, 3]),
        framed(b"Mtsq", &sequence),
        framed(b"Mtsp", &framed(b"Mwa\x01", &wave)),
    ]);
    container(&[
        framed(b"CNTI", &[0, 1, 2, 3, 4, 9, 9]),
        framed(b"OPDA", &[7, 7, 7]),
        framed(b"MTR\x06", &track),
    ])
}

fn wave_file() -> Vec<u8> {
    let mut inner = vec![
        framed(b"Atsq", &[0x00, 0x01, 0x00, 0x00, 0x00, 0x00, 0x00]),
        framed(b"Awa\x01", &[0x00, 0x11, 0x22, 0x33]),
    ];
    for _ in 0..12872 {
        inner.push(framed(b"AspI", &[]));
    }
    let mut track = vec![0, 0, 0x11, 0x00, 0x02, 0x02];
    track.extend_from_slice(&inner.concat());
    container(&[framed(b"CNTI", &[0, 0, 0, 0, 0]), framed(b"ATR\x00", &track)])
}

fn midi_file() -> Vec<u8> {
    let sequence = [0x00, 0x90, 60, 100, 10, 0x00, 0xff, 0x2f, 0x00];
    let track = mobile_track(&[framed(b"Mtsu", &[1]), framed(b"Mtsq", &sequence)]);
    container(&[
        framed(b"CNTI", &[0, 0, 0, 0, 0]),
        framed(b"OPDA", &[]),
        framed(b"MTR\x05", &track),
    ])
}

#[test]
fn test_bell_load() {
    let data = bell_file();
    let file = Smaf::parse(&data).unwrap();

    assert_eq!(file.chunks.len(), 3);
    assert!(matches!(file.chunks[0], SmafChunk::ContentsInfo(_)));
    assert!(matches!(file.chunks[1], SmafChunk::OptionalData(_)));
    assert!(matches!(file.chunks[2], SmafChunk::ScoreTrack(6, _)));

    if let SmafChunk::ScoreTrack(_, x) = &file.chunks[2] {
        assert_eq!(x.chunks.len(), 3);
        assert!(matches!(x.chunks[0], ScoreTrackChunk::SetupData(_)));
        assert!(matches!(x.chunks[1], ScoreTrackChunk::SequenceData(_)));
        assert!(matches!(x.chunks[2], ScoreTrackChunk::PCMData(_)));

        if let ScoreTrackChunk::PCMData(x) = &x.chunks[2] {
            assert_eq!(x.len(), 1);
            assert!(matches!(x[0], PCMDataChunk::WaveData(1, _)));

            let PCMDataChunk::WaveData(_, x) = &x[0];

            assert_eq!(x.channel, Channel::Mono);
            assert_eq!(x.format, StreamWaveFormat::YamahaADPCM);
            assert_eq!(x.base_bit, BaseBit::Bit4);
            assert_eq!(x.sampling_freq, 22050);

            assert_eq!(x.wave_data.len(), 367616);
        } else {
            panic!("Expected PcmData chunk");
        }
    } else {
        panic!("Expected ScoreTrack chunk");
    }
}

#[test]
fn test_wave_load() {
    let data = wave_file();
    let file = Smaf::parse(&data).unwrap();

    assert_eq!(file.chunks.len(), 2);
    assert!(matches!(file.chunks[0], SmafChunk::ContentsInfo(_)));
    assert!(matches!(file.chunks[1], SmafChunk::PCMAudioTrack(0, _)));

    if let SmafChunk::PCMAudioTrack(_, x) = &file.chunks[1] {
        assert_eq!(x.format_type, 0);
        assert_eq!(x.sequence_type, 0);
        assert_eq!(x.channel, Channel::Mono);
        assert_eq!(x.format, PcmWaveFormat::Adpcm);
        assert_eq!(x.sampling_freq, 8000);
        assert_eq!(x.base_bit, BaseBit::Bit4);
        assert_eq!(x.timebase_d, 4);
        assert_eq!(x.timebase_g, 4);

        assert_eq!(x.chunks.len(), 12874);
    } else {
        panic!("Expected PCMAudioTrack chunk");
    }
}

#[test]
fn test_midi_load() {
    let data = midi_file();
    let file = Smaf::parse(&data).unwrap();

    assert_eq!(file.chunks.len(), 3);
    assert!(matches!(file.chunks[0], SmafChunk::ContentsInfo(_)));
    assert!(matches!(file.chunks[1], SmafChunk::OptionalData(_)));
    assert!(matches!(file.chunks[2], SmafChunk::ScoreTrack(5, _)));

    if let SmafChunk::ScoreTrack(_, x) = &file.chunks[2] {
        assert_eq!(x.chunks.len(), 2);
        assert!(matches!(x.chunks[0], ScoreTrackChunk::SetupData(_)));
        assert!(matches!(x.chunks[1], ScoreTrackChunk::SequenceData(_)));
    } else {
        panic!("Expected ScoreTrack chunk");
    }
}

#[test]
fn test_test_bell_load() {
    let data = bell_file();
    let file = Smaf::parse(&data).unwrap();

    assert_eq!(file.chunks.len(), 3);
    assert!(matches!(file.chunks[0], SmafChunk::ContentsInfo(_)));
    assert!(matches!(file.chunks[1], SmafChunk::OptionalData(_)));
    assert!(matches!(file.chunks[2], SmafChunk::ScoreTrack(6, _)));

    if let SmafChunk::ScoreTrack(_, x) = &file.chunks[2] {
        assert_eq!(x.chunks.len(), 3);
        assert!(matches!(x.chunks[0], ScoreTrackChunk::SetupData(_)));
        assert!(matches!(x.chunks[1], ScoreTrackChunk::SequenceData(_)));
        assert!(matches!(x.chunks[2], ScoreTrackChunk::PCMData(_)));

        if let ScoreTrackChunk::PCMData(x) = &x.chunks[2] {
            assert_eq!(x.len(), 1);
            assert!(matches!(x[0], PCMDataChunk::WaveData(_, _)));
        } else {
            panic!("Expected PcmData chunk");
        }
    } else {
        panic!("Expected ScoreTrack chunk");
    }
}

#[test]
fn test_test_wave_load() {
    let data = wave_file();
    let file = Smaf::parse(&data).unwrap();

    assert_eq!(file.chunks.len(), 2);
    assert!(matches!(file.chunks[0], SmafChunk::ContentsInfo(_)));
    assert!(matches!(file.chunks[1], SmafChunk::PCMAudioTrack(0, _)));
}

#[test]
fn test_test_midi_load() {
    let data = midi_file();
    let file = Smaf::parse(&data).unwrap();

    assert_eq!(file.chunks.len(), 3);
    assert!(matches!(file.chunks[0], SmafChunk::ContentsInfo(_)));
    assert!(matches!(file.chunks[1], SmafChunk::OptionalData(_)));
    assert!(matches!(file.chunks[2], SmafChunk::ScoreTrack(5, _)));
}

#[test]
fn file_fields_and_sizes_add_up() {
    let data = bell_file();
    let file = Smaf::parse(&data).unwrap();
    assert_eq!(file.magic, b"MMMD");
    assert_eq!(file.length as usize + 8, data.len());
    assert_eq!(file.crc, 0xabcd);
    let framed_chunks = split_chunks(&data[8..data.len() - 2], 0).unwrap();
    assert_eq!(framed_chunks.len(), file.chunks.len());
    let mut total = 8 + 2;
    for chunk in &framed_chunks {
        total += 8 + chunk.payload.len();
    }
    assert_eq!(total, data.len());
    if let SmafChunk::ScoreTrack(_, track) = &file.chunks[2] {
        let inner = split_chunks(framed_chunks[2].payload, 20).unwrap();
        assert_eq!(inner.len(), track.chunks.len());
        let mut inside = 20;
        for chunk in &inner {
            inside += 8 + chunk.payload.len();
        }
        assert_eq!(inside, framed_chunks[2].payload.len());
        if let ScoreTrackChunk::SetupData(setup) = &track.chunks[0] {
            assert_eq!(*setup, inner[0].payload);
            assert_eq!(*setup, &[1, 2, 3]);
        } else {
            panic!("setup data expected");
        }
    } else {
        panic!("score track expected");
    }
    if let SmafChunk::ContentsInfo(info) = &file.chunks[0] {
        assert_eq!(info.content_class, 0);
        assert_eq!(info.content_type, 1);
        assert_eq!(info.content_code_type, 2);
        assert_eq!(info.copy_status, 3);
        assert_eq!(info.copy_counts, 4);
        assert_eq!(info.option, &[9, 9]);
    } else {
        panic!("contents info expected");
    }
    if let SmafChunk::OptionalData(optional) = &file.chunks[1] {
        assert_eq!(optional.raw, &[7, 7, 7]);
    } else {
        panic!("optional data expected");
    }
}

#[test]
fn file_is_rejected_when_malformed() {
    let good = midi_file();
    assert!(Smaf::parse(&good).is_ok());

    let mut bad_magic = good.clone();
    bad_magic[3] = b'X';
    assert_eq!(Smaf::parse(&bad_magic).err(), Some(SmafError::ParseError(ParseFailure::Envelope)));

    let mut trailing = good.clone();
    trailing.push(0);
    assert_eq!(Smaf::parse(&trailing).err(), Some(SmafError::ParseError(ParseFailure::Envelope)));

    let truncated = &good[..good.len() - 1];
    assert_eq!(Smaf::parse(truncated).err(), Some(SmafError::ParseError(ParseFailure::Envelope)));
    assert_eq!(Smaf::parse(&[]).err(), Some(SmafError::ParseError(ParseFailure::Envelope)));
    assert_eq!(Smaf::parse(b"MMMD").err(), Some(SmafError::ParseError(ParseFailure::Envelope)));
    assert_eq!(
        Smaf::parse(&[b'M', b'M', b'M', b'D', 0, 0, 0, 1, 0]).err(),
        Some(SmafError::ParseError(ParseFailure::Envelope))
    );

    // a chunk that declares more bytes than there are before the checksum
    let mut overlong = container(&[framed(b"OPDA", &[1, 2])]);
    overlong[15] = 3;
    assert_eq!(Smaf::parse(&overlong).err(), Some(SmafError::ParseError(ParseFailure::Framing)));
    let mut body = b"MMMD".to_vec();
    body.extend_from_slice(&[0, 0, 0, 5, 1, 2, 3, 0, 0]);
    assert_eq!(Smaf::parse(&body).err(), Some(SmafError::ParseError(ParseFailure::Framing)));

    let unknown = container(&[framed(b"XXXX", &[])]);
    assert_eq!(Smaf::parse(&unknown).err(), Some(SmafError::ParseError(ParseFailure::Chunk(0))));

    let short_info = container(&[framed(b"OPDA", &[]), framed(b"CNTI", &[0, 0, 0, 0])]);
    assert_eq!(Smaf::parse(&short_info).err(), Some(SmafError::ParseError(ParseFailure::Chunk(1))));

    let bad_track = container(&[
        framed(b"CNTI", &[0, 0, 0, 0, 0]),
        framed(b"OPDA", &[]),
        framed(b"MTR\x00", &[2, 0, 0x02]),
        framed(b"XXXX", &[]),
    ]);
    assert_eq!(Smaf::parse(&bad_track).err(), Some(SmafError::ParseError(ParseFailure::Chunk(2))));

    let empty = container(&[]);
    let file = Smaf::parse(&empty).unwrap();
    assert_eq!(file.chunks.len(), 0);
    assert_eq!(file.length, 2);
}

#[test]
fn errors_in_words() {
    assert_eq!(
        SmafError::ParseError(ParseFailure::Envelope).message(),
        "malformed SMAF data: expected the header MMMD and the length of the file"
    );
    assert_eq!(
        SmafError::ParseError(ParseFailure::Framing).message(),
        "malformed SMAF data: expected framed chunks up to the checksum"
    );
    assert_eq!(
        SmafError::ParseError(ParseFailure::Chunk(0)).message(),
        "malformed SMAF data: expected a well-formed chunk at index 0"
    );
    assert_eq!(
        SmafError::ParseError(ParseFailure::Chunk(1207)).message(),
        "malformed SMAF data: expected a well-formed chunk at index 1207"
    );
    assert_eq!(SmafError::Unplayable(PlayError::MissingSequence).message(), "a track has no sequence");
    assert_eq!(
        SmafError::Unplayable(PlayError::MissingWave).message(),
        "an event refers to a wave that is not there"
    );
    assert_eq!(
        SmafError::Unplayable(PlayError::UnsupportedWave).message(),
        "a wave is not mono ADPCM with four bits a sample"
    );
    assert_eq!(
        SmafError::Unplayable(PlayError::TimeOverflow).message(),
        "an event is due too late to count"
    );
    assert_eq!(decimal(0), "0");
    assert_eq!(decimal(9), "9");
    assert_eq!(decimal(10), "10");
    assert_eq!(decimal(4294967295), "4294967295");
    assert_eq!(decimal(usize::MAX), usize::MAX.to_string());
}

#[test]
fn timebase_table() {
    let table = [(0x00, 1), (0x01, 2), (0x02, 4), (0x03, 5), (0x10, 10), (0x11, 20), (0x12, 40), (0x13, 50)];
    for (code, ms) in table {
        assert_eq!(parse_timebase(code), Some(ms));
    }
    let mut valid = 0;
    for code in 0..=255u8 {
        if parse_timebase(code).is_some() {
            valid += 1;
        }
    }
    assert_eq!(valid, 8);
    assert_eq!(parse_timebase(0x04), None);
    assert_eq!(parse_timebase(0x14), None);
    assert_eq!(parse_timebase(0xff), None);
}

#[test]
fn big_endian_readers() {
    let data = [0x12, 0x34, 0x56, 0x78, 0x9a];
    assert_eq!(read_be16(&data, 0), 0x1234);
    assert_eq!(read_be16(&data, 3), 0x789a);
    assert_eq!(read_be32(&data, 0), 0x12345678);
    assert_eq!(read_be32(&data, 1), 0x3456789a);
    assert_eq!(read_be32(&[0xff, 0xff, 0xff, 0xff], 0), u32::MAX);
}

#[test]
fn variable_number_values() {
    assert_eq!(parse_variable_number(&[0x00]), Some((&[][..], 0)));
    assert_eq!(parse_variable_number(&[0x7f, 0x01]), Some((&[0x01][..], 127)));
    assert_eq!(parse_variable_number(&[0x81, 0x00, 0xaa]), Some((&[0xaa][..], 128)));
    assert_eq!(parse_variable_number(&[0xff, 0x7f]), Some((&[][..], 16383)));
    assert_eq!(parse_variable_number(&[0xff, 0xff, 0xff, 0x7f]), Some((&[][..], (1 << 28) - 1)));
    assert_eq!(parse_variable_number(&[0x8f, 0xff, 0xff, 0xff, 0x7f]), Some((&[][..], u32::MAX)));
    assert_eq!(read_varint(&[0x55, 0x81, 0x02], 1), Some((130, 3)));
}

#[test]
fn variable_number_rejections() {
    assert_eq!(parse_variable_number(&[]), None);
    assert_eq!(parse_variable_number(&[0x80]), None);
    assert_eq!(parse_variable_number(&[0x81, 0x82, 0x83]), None);
    assert_eq!(parse_variable_number(&[0x80, 0x80, 0x80, 0x80, 0x80, 0x00]), None);
    assert_eq!(parse_variable_number(&[0xff, 0xff, 0xff, 0xff, 0xff]), None);
    assert_eq!(read_varint(&[0x00], 1), None);
    assert_eq!(read_varint(&[0x00], 7), None);
}

#[test]
fn variable_number_round_trip() {
    let samples = [0u32, 1, 127, 128, 129, 16383, 16384, 2097151, 2097152, (1 << 28) - 1];
    for n in samples {
        let bytes = encode_varint(n);
        assert_eq!(parse_variable_number(&bytes), Some((&[][..], n)));
    }
    let mut n: u32 = 0;
    while n < (1 << 28) {
        let bytes = encode_varint(n);
        assert_eq!(parse_variable_number(&bytes), Some((&[][..], n)));
        n += 40503;
    }
}

#[test]
fn chunk_framing() {
    let mut data = framed(b"abcd", &[1, 2, 3]);
    data.extend_from_slice(&framed(b"efgh", &[]));
    let (first, next) = next_chunk(&data, 0).unwrap();
    assert_eq!(first.tag, (b'a', b'b', b'c', b'd'));
    assert_eq!(first.payload, &[1, 2, 3]);
    assert_eq!(next, 11);
    let (second, end) = next_chunk(&data, next).unwrap();
    assert_eq!(second.tag, (b'e', b'f', b'g', b'h'));
    assert_eq!(second.payload.len(), 0);
    assert_eq!(end, data.len());
    assert!(next_chunk(&data, end).is_none());
    assert!(next_chunk(&data, 12).is_none());
    assert!(next_chunk(&data[..10], 0).is_none());
    assert!(next_chunk(&data[..7], 0).is_none());
    assert!(next_chunk(&data, usize::MAX).is_none());

    let chunks = split_chunks(&data, 0).unwrap();
    assert_eq!(chunks.len(), 2);
    assert_eq!(chunks[1].tag, (b'e', b'f', b'g', b'h'));
    assert_eq!(split_chunks(&data, data.len()).unwrap().len(), 0);
    assert!(split_chunks(&data[..data.len() - 1], 0).is_none());
    assert!(split_chunks(&data, 1).is_none());
}

#[test]
fn enumerations_decode() {
    assert_eq!(Channel::from_u8(0), Some(Channel::Mono));
    assert_eq!(Channel::from_u8(1), Some(Channel::Stereo));
    assert_eq!(Channel::from_u8(2), None);
    assert_eq!(Channel::Mono.count(), 1);
    assert_eq!(Channel::Stereo.count(), 2);
    assert_eq!(StreamWaveFormat::from_u8(0), Some(StreamWaveFormat::TwosComplementPCM));
    assert_eq!(StreamWaveFormat::from_u8(1), Some(StreamWaveFormat::OffsetBinaryPCM));
    assert_eq!(StreamWaveFormat::from_u8(2), Some(StreamWaveFormat::YamahaADPCM));
    assert_eq!(StreamWaveFormat::from_u8(3), None);
    assert_eq!(PcmWaveFormat::from_u8(0), Some(PcmWaveFormat::TwosComplementPCM));
    assert_eq!(PcmWaveFormat::from_u8(1), Some(PcmWaveFormat::Adpcm));
    assert_eq!(PcmWaveFormat::from_u8(2), Some(PcmWaveFormat::TwinVQ));
    assert_eq!(PcmWaveFormat::from_u8(3), Some(PcmWaveFormat::MP3));
    assert_eq!(PcmWaveFormat::from_u8(4), None);
    assert_eq!(BaseBit::from_u8(0), Some(BaseBit::Bit4));
    assert_eq!(BaseBit::from_u8(1), Some(BaseBit::Bit8));
    assert_eq!(BaseBit::from_u8(2), Some(BaseBit::Bit12));
    assert_eq!(BaseBit::from_u8(3), Some(BaseBit::Bit16));
    assert_eq!(BaseBit::from_u8(4), None);
    assert_eq!(FormatType::from_u8(0), Some(FormatType::HandyPhoneStandard));
    assert_eq!(FormatType::from_u8(1), Some(FormatType::MobileStandardCompress));
    assert_eq!(FormatType::from_u8(2), Some(FormatType::MobileStandardNoCompress));
    assert_eq!(FormatType::from_u8(3), None);
    assert_eq!(ChannelType::from_u8(0), ChannelType::NoCare);
    assert_eq!(ChannelType::from_u8(1), ChannelType::Melody);
    assert_eq!(ChannelType::from_u8(2), ChannelType::NoMelody);
    assert_eq!(ChannelType::from_u8(3), ChannelType::Rhythm);
    assert_eq!(parse_sampling_freq(0), Some(4000));
    assert_eq!(parse_sampling_freq(1), Some(8000));
    assert_eq!(parse_sampling_freq(2), Some(11025));
    assert_eq!(parse_sampling_freq(3), Some(22050));
    assert_eq!(parse_sampling_freq(4), Some(44100));
    assert_eq!(parse_sampling_freq(5), None);
}

#[test]
fn channel_status_bits() {
    let status = ChannelStatus::parse_mobile(0b1011_0010);
    assert_eq!(status, ChannelStatus { kcs: 2, vs: 1, led: 1, channel_type: ChannelType::NoMelody });
    let status = ChannelStatus::parse_mobile(0b0100_1101);
    assert_eq!(status, ChannelStatus { kcs: 1, vs: 0, led: 0, channel_type: ChannelType::Melody });

    let table = ChannelStatus::parse_handy(0b1101_0110_0011_1000);
    assert_eq!(table.len(), 4);
    assert_eq!(table[0], ChannelStatus { kcs: 1, vs: 0, led: 0, channel_type: ChannelType::NoCare });
    assert_eq!(table[1], ChannelStatus { kcs: 0, vs: 0, led: 0, channel_type: ChannelType::Rhythm });
    assert_eq!(table[2], ChannelStatus { kcs: 0, vs: 1, led: 0, channel_type: ChannelType::NoMelody });
    assert_eq!(table[3], ChannelStatus { kcs: 1, vs: 1, led: 0, channel_type: ChannelType::Melody });
}

#[test]
fn contents_info_needs_five_bytes() {
    assert!(ContentsInfoChunk::new(&[1, 2, 3, 4]).is_none());
    let info = ContentsInfoChunk::new(&[1, 2, 3, 4, 5]).unwrap();
    assert_eq!(info.copy_counts, 5);
    assert_eq!(info.option.len(), 0);
}

fn note(channel: u8, note: u8, velocity: u8, gate_time: u32) -> ScoreTrackSequenceEvent {
    ScoreTrackSequenceEvent::NoteMessage { channel, note, velocity, gate_time }
}

#[test]
fn mobile_sequence_events() {
    let bytes = [
        0x00, 0x83, 60, 0x81, 0x00, // note without velocity, gate 128
        0x05, 0x9f, 61, 100, 0x0a, // note with velocity
        0x00, 0xb1, 7, 127, // control change
        0x81, 0x00, 0xc2, 5, // program change after 128 ticks
        0x00, 0xe4, 0x34, 0x12, // pitch bend
        0x00, 0xf0, 0x03, 9, 8, 7, // exclusive
        0x01, 0xff, 0x00, // nop
        0x02, 0xff, 0x2f, 0x00, // end of sequence
        0xee, // what follows
    ];
    let (rest, events) = SequenceData::parse_mobile(&bytes).unwrap();
    assert_eq!(rest, &[0xee]);
    let expected = vec![
        SequenceData { duration: 0, event: note(3, 60, 64, 128) },
        SequenceData { duration: 5, event: note(15, 61, 100, 10) },
        SequenceData {
            duration: 0,
            event: ScoreTrackSequenceEvent::ControlChange { channel: 1, control: 7, value: 127 },
        },
        SequenceData {
            duration: 128,
            event: ScoreTrackSequenceEvent::ProgramChange { channel: 2, program: 5 },
        },
        SequenceData {
            duration: 0,
            event: ScoreTrackSequenceEvent::PitchBend { channel: 4, value: 0x1234 },
        },
        SequenceData { duration: 0, event: ScoreTrackSequenceEvent::Exclusive(vec![9, 8, 7]) },
        SequenceData { duration: 1, event: ScoreTrackSequenceEvent::Nop },
        SequenceData { duration: 2, event: ScoreTrackSequenceEvent::Nop },
    ];
    assert_eq!(events, expected);
}

#[test]
fn mobile_sequence_rejections() {
    assert!(SequenceData::parse_mobile(&[]).is_none());
    assert!(SequenceData::parse_mobile(&[0x00]).is_none());
    // no end-of-sequence mark
    assert!(SequenceData::parse_mobile(&[0x00, 0xc0, 1]).is_none());
    // status bytes that are not defined
    assert!(SequenceData::parse_mobile(&[0x00, 0x7f, 0x00, 0xff, 0x2f, 0x00]).is_none());
    assert!(SequenceData::parse_mobile(&[0x00, 0xa0, 0x00, 0xff, 0x2f, 0x00]).is_none());
    assert!(SequenceData::parse_mobile(&[0x00, 0xf1, 0x00, 0xff, 0x2f, 0x00]).is_none());
    // meta code that is not defined
    assert!(SequenceData::parse_mobile(&[0x00, 0xff, 0x01]).is_none());
    // end mark without its last byte
    assert!(SequenceData::parse_mobile(&[0x00, 0xff, 0x2f]).is_none());
    // exclusive longer than the input
    assert!(SequenceData::parse_mobile(&[0x00, 0xf0, 0x05, 1, 2, 0x00, 0xff, 0x2f, 0x00]).is_none());
    // operands missing
    assert!(SequenceData::parse_mobile(&[0x00, 0x90, 60]).is_none());
    assert!(SequenceData::parse_mobile(&[0x00, 0xb0, 1]).is_none());
    assert!(SequenceData::parse_mobile(&[0x00, 0xe0, 1]).is_none());
}

#[test]
fn handy_first_note() {
    let (rest, events) = SequenceData::parse_handy(&[0x00, 0x01, 0x00]).unwrap();
    assert_eq!(rest.len(), 0);
    assert_eq!(events, vec![SequenceData { duration: 0, event: note(0, 1, 64, 0) }]);
}

#[test]
fn handy_note_numbers() {
    // channel in bits 7-6, octave in bits 5-4, note in bits 3-0
    let (_, events) = SequenceData::parse_handy(&[0x03, 0b1011_0101, 0x07]).unwrap();
    assert_eq!(events, vec![SequenceData { duration: 3, event: note(2, 5 + 3 * 12, 64, 7) }]);
    let (_, events) = SequenceData::parse_handy(&[0x00, 0xfe, 0x00]).unwrap();
    assert_eq!(events, vec![SequenceData { duration: 0, event: note(3, 14 + 3 * 12, 64, 0) }]);
    let (_, events) = SequenceData::parse_handy(&[0x00, 0x10, 0x00]).unwrap();
    assert_eq!(events, vec![SequenceData { duration: 0, event: note(0, 12, 64, 0) }]);
}

#[test]
fn handy_extended_events() {
    let bytes = [
        0x01, 0x00, 0x70, 9, // program change, channel 1
        0x00, 0x00, 0xb1, 8, // bank select, channel 2
        0x00, 0x00, 0x32, 7, // octave shift
        0x00, 0x00, 0x33, 6, // modulation
        0x00, 0x00, 0xf8, 5, // pitch bend with operand, channel 3
        0x00, 0x00, 0x5c, // short pitch bend, channel 1, value 12
        0x00, 0x00, 0x37, 4, // volume
        0x00, 0x00, 0x3a, 3, // pan
        0x00, 0x00, 0x3b, 2, // expression
        0x00, 0x00, 0x8d, // short expression, channel 2, value 13
        0x00, 0x00, 0x20, // not defined: passed over
        0x00, 0x00, 0x34, // not defined: passed over
        0x02, 0xff, 0xf0, 0x02, 0xaa, 0xbb, // exclusive
        0x03, 0xff, 0x00, // nop
        0x00, 0x00, 0x00, 0x00, // end
        0x99,
    ];
    let (rest, events) = SequenceData::parse_handy(&bytes).unwrap();
    assert_eq!(rest, &[0x99]);
    let expected = vec![
        SequenceData {
            duration: 1,
            event: ScoreTrackSequenceEvent::ProgramChange { channel: 1, program: 9 },
        },
        SequenceData { duration: 0, event: ScoreTrackSequenceEvent::BankSelect { channel: 2, value: 8 } },
        SequenceData { duration: 0, event: ScoreTrackSequenceEvent::OctaveShift { channel: 0, value: 7 } },
        SequenceData { duration: 0, event: ScoreTrackSequenceEvent::Modulation { channel: 0, value: 6 } },
        SequenceData { duration: 0, event: ScoreTrackSequenceEvent::PitchBend { channel: 3, value: 5 } },
        SequenceData { duration: 0, event: ScoreTrackSequenceEvent::PitchBend { channel: 1, value: 12 } },
        SequenceData { duration: 0, event: ScoreTrackSequenceEvent::Volume { channel: 0, value: 4 } },
        SequenceData { duration: 0, event: ScoreTrackSequenceEvent::Pan { channel: 0, value: 3 } },
        SequenceData { duration: 0, event: ScoreTrackSequenceEvent::Expression { channel: 0, value: 2 } },
        SequenceData { duration: 0, event: ScoreTrackSequenceEvent::Expression { channel: 2, value: 13 } },
        SequenceData { duration: 2, event: ScoreTrackSequenceEvent::Exclusive(vec![0xaa, 0xbb]) },
        SequenceData { duration: 3, event: ScoreTrackSequenceEvent::Nop },
    ];
    assert_eq!(events, expected);
}

#[test]
fn handy_sequence_ends_and_rejections() {
    let (rest, events) = SequenceData::parse_handy(&[]).unwrap();
    assert_eq!(rest.len(), 0);
    assert_eq!(events.len(), 0);
    let (rest, events) = SequenceData::parse_handy(&[0, 0, 0, 0]).unwrap();
    assert_eq!(rest.len(), 0);
    assert_eq!(events.len(), 0);
    // three zero bytes are no end mark: they are a short expression of 0
    let (rest, events) = SequenceData::parse_handy(&[0, 0, 0]).unwrap();
    assert_eq!(rest.len(), 0);
    assert_eq!(
        events,
        vec![SequenceData { duration: 0, event: ScoreTrackSequenceEvent::Expression { channel: 0, value: 0 } }]
    );
    assert!(SequenceData::parse_handy(&[0, 0, 0, 1]).is_none());
    assert!(SequenceData::parse_handy(&[0x00, 0xff, 0x01]).is_none());
    assert!(SequenceData::parse_handy(&[0x00, 0xff, 0xf0, 0x02, 0xaa]).is_none());
    assert!(SequenceData::parse_handy(&[0x00, 0x00, 0x30]).is_none());
    assert!(SequenceData::parse_handy(&[0x00, 0x41]).is_none());
}

#[test]
fn pcm_sequence_events() {
    let bytes = [
        0x02, 0x41, 0x05, // wave 1 on channel 1, gate 5
        0x00, 0x00, 0xf4, 0x40, // pitch bend with operand, channel bits 0xc0
        0x00, 0x00, 0x33, // short pitch bend, 3 * 8
        0x00, 0x00, 0x7a, // short pitch bend as well: 10 * 8, channel bits 0x40
        0x00, 0x00, 0x05, // short expression, (5 - 1) * 31
        0x00, 0x00, 0x89, // short expression, (9 - 1) * 31, channel bits 0x80
        0x01, 0xff, 0xf0, 0x01, 0x42, // exclusive
        0x01, 0xff, 0x00, // nop
        0x00, 0x00, 0x00, 0x00, // end mark
    ];
    let (rest, events) = PCMAudioSequenceData::parse(&bytes).unwrap();
    assert_eq!(rest.len(), 0);
    let expected = vec![
        PCMAudioSequenceData {
            duration: 2,
            event: PCMAudioSequenceEvent::WaveMessage { channel: 1, wave_number: 1, gate_time: 5 },
        },
        PCMAudioSequenceData {
            duration: 0,
            event: PCMAudioSequenceEvent::PitchBend { channel: 0xc0, value: 0x40 },
        },
        PCMAudioSequenceData { duration: 0, event: PCMAudioSequenceEvent::PitchBend { channel: 0, value: 24 } },
        PCMAudioSequenceData {
            duration: 0,
            event: PCMAudioSequenceEvent::PitchBend { channel: 0x40, value: 80 },
        },
        PCMAudioSequenceData {
            duration: 0,
            event: PCMAudioSequenceEvent::Expression { channel: 0, value: 124 },
        },
        PCMAudioSequenceData {
            duration: 0,
            event: PCMAudioSequenceEvent::Expression { channel: 0x80, value: 248 },
        },
        PCMAudioSequenceData { duration: 1, event: PCMAudioSequenceEvent::Exclusive(vec![0x42]) },
        PCMAudioSequenceData { duration: 1, event: PCMAudioSequenceEvent::Nop },
        PCMAudioSequenceData { duration: 0, event: PCMAudioSequenceEvent::Nop },
    ];
    assert_eq!(events, expected);
}

#[test]
fn pcm_sequence_rejections() {
    assert!(PCMAudioSequenceData::parse(&[]).is_none());
    // the end mark has to be the last four bytes
    assert!(PCMAudioSequenceData::parse(&[0, 0, 0, 0, 0]).is_none());
    assert!(PCMAudioSequenceData::parse(&[0x00, 0x01, 0x00]).is_none());
    // short expression of 0 and of more than 9
    assert!(PCMAudioSequenceData::parse(&[0x00, 0x00, 0x40, 0, 0, 0, 0]).is_none());
    assert!(PCMAudioSequenceData::parse(&[0x00, 0x00, 0x0a, 0, 0, 0, 0]).is_none());
    // codes that are not defined
    assert!(PCMAudioSequenceData::parse(&[0x00, 0x00, 0x10, 0, 0, 0, 0]).is_none());
    assert!(PCMAudioSequenceData::parse(&[0x00, 0x00, 0x20, 0, 0, 0, 0]).is_none());
    assert!(PCMAudioSequenceData::parse(&[0x00, 0xff, 0x7f, 0, 0, 0, 0]).is_none());
    let ok = PCMAudioSequenceData::parse(&[0, 0, 0, 0]).unwrap();
    assert_eq!(ok.1, vec![PCMAudioSequenceData { duration: 0, event: PCMAudioSequenceEvent::Nop }]);
}

#[test]
fn wave_data_fields() {
    let wave = WaveData::parse(&[0b1001_0011, 0x1f, 0x40, 1, 2, 3, 4]).unwrap();
    assert_eq!(wave.channel, Channel::Stereo);
    assert_eq!(wave.format, StreamWaveFormat::OffsetBinaryPCM);
    assert_eq!(wave.base_bit, BaseBit::Bit16);
    assert_eq!(wave.sampling_freq, 8000);
    assert_eq!(wave.wave_data, &[1, 2, 3, 4]);
    assert!(WaveData::parse(&[0x20, 0x1f]).is_none());
    assert!(WaveData::parse(&[0x30, 0x1f, 0x40]).is_none());
    assert!(WaveData::parse(&[0x04, 0x1f, 0x40]).is_none());
    assert!(parse_pcm_data(&framed(b"Mwb\x01", &[0x20, 0, 0])).is_none());
    assert!(parse_pcm_data(&framed(b"Mwa\x01", &[0x20, 0])).is_none());
    let two = [framed(b"Mwa\x01", &[0x20, 0, 0]), framed(b"Mwa\x09", &[0x20, 0, 1, 5])].concat();
    let waves = parse_pcm_data(&two).unwrap();
    assert_eq!(waves.len(), 2);
    assert!(matches!(waves[1], PCMDataChunk::WaveData(9, _)));
}

#[test]
fn sequence_chunk_must_be_used_up() {
    let seq = [0x00, 0xff, 0x2f, 0x00];
    assert_eq!(parse_sequence(FormatType::MobileStandardNoCompress, &seq).unwrap().len(), 1);
    assert!(parse_sequence(FormatType::MobileStandardNoCompress, &[0x00, 0xff, 0x2f, 0x00, 0x00]).is_none());
    assert!(parse_sequence(FormatType::MobileStandardCompress, &seq).is_none());
    assert!(parse_sequence(FormatType::HandyPhoneStandard, &[0, 0, 0, 0, 1]).is_none());
    assert_eq!(parse_sequence(FormatType::HandyPhoneStandard, &[0, 0, 0, 0]).unwrap().len(), 0);
}

#[test]
fn score_track_headers() {
    let mut mobile = vec![2, 7, 0x12, 0x13];
    mobile.extend_from_slice(&[0b1011_0010; 16]);
    mobile.extend_from_slice(&framed(b"MspI", &[1, 2]));
    let track = ScoreTrack::parse(&mobile).unwrap();
    assert_eq!(track.format_type, FormatType::MobileStandardNoCompress);
    assert_eq!(track.sequence_type, 7);
    assert_eq!(track.timebase_d, 40);
    assert_eq!(track.timebase_g, 50);
    assert_eq!(track.channel_status.len(), 16);
    assert_eq!(
        track.channel_status[15],
        ChannelStatus { kcs: 2, vs: 1, led: 1, channel_type: ChannelType::NoMelody }
    );
    assert!(matches!(track.chunks[0], ScoreTrackChunk::SeekAndPhraseInfo(&[1, 2])));

    let mut handy = vec![0, 0, 0x00, 0x01, 0b1101_0110, 0b0011_1000];
    handy.extend_from_slice(&framed(b"Mtsq", &[0x00, 0x01, 0x00]));
    let track = ScoreTrack::parse(&handy).unwrap();
    assert_eq!(track.format_type, FormatType::HandyPhoneStandard);
    assert_eq!(track.timebase_d, 1);
    assert_eq!(track.timebase_g, 2);
    assert_eq!(track.channel_status.len(), 4);
    assert_eq!(track.channel_status[3].channel_type, ChannelType::Melody);
    if let ScoreTrackChunk::SequenceData(events) = &track.chunks[0] {
        assert_eq!(events.len(), 1);
    } else {
        panic!("sequence expected");
    }

    // compressed encoding, unknown format, bad timebase, short table, bad chunk, residue
    let mut compressed = mobile.clone();
    compressed[0] = 1;
    assert!(ScoreTrack::parse(&compressed).is_none());
    let mut unknown = mobile.clone();
    unknown[0] = 3;
    assert!(ScoreTrack::parse(&unknown).is_none());
    let mut timebase = mobile.clone();
    timebase[2] = 0x04;
    assert!(ScoreTrack::parse(&timebase).is_none());
    assert!(ScoreTrack::parse(&mobile[..19]).is_none());
    assert!(ScoreTrack::parse(&mobile[..20]).is_some());
    let mut tagged = mobile.clone();
    tagged[20] = b'X';
    assert!(ScoreTrack::parse(&tagged).is_none());
    let mut residue = mobile.clone();
    residue.push(0);
    assert!(ScoreTrack::parse(&residue).is_none());
}

#[test]
fn pcm_audio_track_headers() {
    let mut bytes = vec![0, 1, 0b1011_0100, 0b0010_0000, 0x10, 0x11];
    bytes.extend_from_slice(&framed(b"Atsu", &[5]));
    bytes.extend_from_slice(&framed(b"Awa\x07", &[1, 2, 3]));
    let track = PCMAudioTrack::parse(&bytes).unwrap();
    assert_eq!(track.format_type, 0);
    assert_eq!(track.sequence_type, 1);
    assert_eq!(track.channel, Channel::Stereo);
    assert_eq!(track.format, PcmWaveFormat::MP3);
    assert_eq!(track.sampling_freq, 44100);
    assert_eq!(track.base_bit, BaseBit::Bit12);
    assert_eq!(track.timebase_d, 10);
    assert_eq!(track.timebase_g, 20);
    assert!(matches!(track.chunks[0], PCMAudioTrackChunk::SetupData(&[5])));
    assert!(matches!(track.chunks[1], PCMAudioTrackChunk::WaveData(7, &[1, 2, 3])));

    let mut format_type = bytes.clone();
    format_type[0] = 1;
    assert!(PCMAudioTrack::parse(&format_type).is_none());
    let mut frequency = bytes.clone();
    frequency[2] = 0b1011_0101;
    assert!(PCMAudioTrack::parse(&frequency).is_none());
    let mut format = bytes.clone();
    format[2] = 0b1100_0100;
    assert!(PCMAudioTrack::parse(&format).is_none());
    let mut base_bit = bytes.clone();
    base_bit[3] = 0b0100_0000;
    assert!(PCMAudioTrack::parse(&base_bit).is_none());
    let mut timebase = bytes.clone();
    timebase[5] = 0x20;
    assert!(PCMAudioTrack::parse(&timebase).is_none());
    assert!(PCMAudioTrack::parse(&bytes[..5]).is_none());
    let mut tagged = bytes.clone();
    tagged[6] = b'M';
    assert!(PCMAudioTrack::parse(&tagged).is_none());
}

#[test]
fn adpcm_known_samples() {
    let samples = decode_adpcm(&[0x00, 0x11, 0x22, 0x33, 0x44, 0x55, 0x66, 0x77]);
    assert_eq!(
        samples,
        vec![15, 30, 77, 124, 203, 282, 393, 504, 646, 817, 1067, 1465, 2215, 3716, 7181, 15462]
    );
    assert_eq!(decode_adpcm(&[]), Vec::<i16>::new());
    assert_eq!(decode_adpcm(&[0x7f]), vec![238, -330]);
    assert_eq!(decode_adpcm(&[0x12, 0x9a]), vec![47, 126, 79, 0]);
    let low = decode_adpcm(&[0xff; 24]);
    assert_eq!(low.len(), 48);
    assert_eq!(low[47], -32768);
    let high = decode_adpcm(&[0x77; 24]);
    assert_eq!(high[47], 32767);
}

#[test]
fn adpcm_single_steps() {
    let mut context = DecodeContext::new();
    assert_eq!(context.history, 0);
    assert_eq!(context.step_size, 127);
    assert_eq!(ymb_step(0x0, &mut context), 15);
    assert_eq!(context.step_size, 127);
    assert_eq!(ymb_step(0x7, &mut context), 15 + 238);
    assert_eq!(context.step_size, 303);
    assert_eq!(ymb_step(0xf, &mut context), 253 - 568);
    assert_eq!(context.step_size, 724);
    let mut top = DecodeContext { history: 0, step_size: 24576 };
    ymb_step(0x7, &mut top);
    assert_eq!(top.step_size, 24576);
    assert_eq!(top.history, 32767);
}
