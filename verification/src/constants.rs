//! Enumerations that several chunk kinds share.

use vstd::prelude::*;

verus! {

/// Number of audio channels of a wave.
#[derive(PartialEq, Eq, Structural, Clone, Copy, Debug)]
pub enum Channel {
    Mono,
    Stereo,
}

impl Channel {
    /// The channel layout that a code stands for.
    pub open spec fn of(value: u8) -> Option<Channel> {
        if value == 0 {
            Some(Channel::Mono)
        } else if value == 1 {
            Some(Channel::Stereo)
        } else {
            None
        }
    }

    /// Decodes a channel code; `None` for a code that is not defined.
    pub fn from_u8(value: u8) -> (r: Option<Channel>)
        ensures
            r == Channel::of(value),
    {
        match value {
            0 => Some(Channel::Mono),
            1 => Some(Channel::Stereo),
            _ => None,
        }
    }

    /// How many interleaved channels a buffer of this layout holds.
    pub open spec fn spec_count(self) -> u8 {
        match self {
            Channel::Mono => 1,
            Channel::Stereo => 2,
        }
    }

    /// How many interleaved channels a buffer of this layout holds.
    #[verifier::when_used_as_spec(spec_count)]
    pub fn count(self) -> (r: u8)
        ensures
            r == self.spec_count(),
    {
        match self {
            Channel::Mono => 1,
            Channel::Stereo => 2,
        }
    }
}

/// Sample encoding of a wave inside a score track.
#[derive(PartialEq, Eq, Structural, Clone, Copy, Debug)]
pub enum StreamWaveFormat {
    TwosComplementPCM,
    OffsetBinaryPCM,
    YamahaADPCM,
}

impl StreamWaveFormat {
    /// The encoding that a code stands for.
    pub open spec fn of(value: u8) -> Option<StreamWaveFormat> {
        if value == 0 {
            Some(StreamWaveFormat::TwosComplementPCM)
        } else if value == 1 {
            Some(StreamWaveFormat::OffsetBinaryPCM)
        } else if value == 2 {
            Some(StreamWaveFormat::YamahaADPCM)
        } else {
            None
        }
    }

    /// Decodes an encoding code; `None` for a code that is not defined.
    pub fn from_u8(value: u8) -> (r: Option<StreamWaveFormat>)
        ensures
            r == StreamWaveFormat::of(value),
    {
        match value {
            0 => Some(StreamWaveFormat::TwosComplementPCM),
            1 => Some(StreamWaveFormat::OffsetBinaryPCM),
            2 => Some(StreamWaveFormat::YamahaADPCM),
            _ => None,
        }
    }
}

/// Sample encoding of a PCM audio track.
#[derive(PartialEq, Eq, Structural, Clone, Copy, Debug)]
pub enum PcmWaveFormat {
    TwosComplementPCM,
    Adpcm,
    TwinVQ,
    MP3,
}

impl PcmWaveFormat {
    /// The encoding that a code stands for.
    pub open spec fn of(value: u8) -> Option<PcmWaveFormat> {
        if value == 0 {
            Some(PcmWaveFormat::TwosComplementPCM)
        } else if value == 1 {
            Some(PcmWaveFormat::Adpcm)
        } else if value == 2 {
            Some(PcmWaveFormat::TwinVQ)
        } else if value == 3 {
            Some(PcmWaveFormat::MP3)
        } else {
            None
        }
    }

    /// Decodes an encoding code; `None` for a code that is not defined.
    pub fn from_u8(value: u8) -> (r: Option<PcmWaveFormat>)
        ensures
            r == PcmWaveFormat::of(value),
    {
        match value {
            0 => Some(PcmWaveFormat::TwosComplementPCM),
            1 => Some(PcmWaveFormat::Adpcm),
            2 => Some(PcmWaveFormat::TwinVQ),
            3 => Some(PcmWaveFormat::MP3),
            _ => None,
        }
    }
}

/// Bits per encoded sample.
#[derive(PartialEq, Eq, Structural, Clone, Copy, Debug)]
pub enum BaseBit {
    Bit4,
    Bit8,
    Bit12,
    Bit16,
}

impl BaseBit {
    /// The sample width that a code stands for.
    pub open spec fn of(value: u8) -> Option<BaseBit> {
        if value == 0 {
            Some(BaseBit::Bit4)
        } else if value == 1 {
            Some(BaseBit::Bit8)
        } else if value == 2 {
            Some(BaseBit::Bit12)
        } else if value == 3 {
            Some(BaseBit::Bit16)
        } else {
            None
        }
    }

    /// Decodes a sample-width code; `None` for a code that is not defined.
    pub fn from_u8(value: u8) -> (r: Option<BaseBit>)
        ensures
            r == BaseBit::of(value),
    {
        match value {
            0 => Some(BaseBit::Bit4),
            1 => Some(BaseBit::Bit8),
            2 => Some(BaseBit::Bit12),
            3 => Some(BaseBit::Bit16),
            _ => None,
        }
    }
}

/// Sequence encoding of a score track.
#[derive(PartialEq, Eq, Structural, Clone, Copy, Debug)]
pub enum FormatType {
    HandyPhoneStandard,
    MobileStandardCompress,
    MobileStandardNoCompress,
}

impl FormatType {
    /// The sequence encoding that a code stands for.
    pub open spec fn of(value: u8) -> Option<FormatType> {
        if value == 0 {
            Some(FormatType::HandyPhoneStandard)
        } else if value == 1 {
            Some(FormatType::MobileStandardCompress)
        } else if value == 2 {
            Some(FormatType::MobileStandardNoCompress)
        } else {
            None
        }
    }

    /// Decodes a format code; `None` for a code that is not defined.
    pub fn from_u8(value: u8) -> (r: Option<FormatType>)
        ensures
            r == FormatType::of(value),
    {
        match value {
            0 => Some(FormatType::HandyPhoneStandard),
            1 => Some(FormatType::MobileStandardCompress),
            2 => Some(FormatType::MobileStandardNoCompress),
            _ => None,
        }
    }
}

} // verus!
