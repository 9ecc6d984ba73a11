//! Configuration snapshots for the two pipeline stages, validated once
//! at startup and immutable afterwards.

use vstd::prelude::*;

verus! {

/// Codec tuning mode: voice, general audio, or minimal latency.
#[derive(Clone, Copy, PartialEq, Eq, Structural, Debug)]
pub enum AudioApplication {
    Voip,
    Audio,
    LowDelay,
}

/// Channel layout of the PCM input.
#[derive(Clone, Copy, PartialEq, Eq, Structural, Debug)]
pub enum ChannelLayout {
    Mono,
    Stereo,
}

/// Why a configuration was rejected.
#[derive(Clone, Copy, PartialEq, Eq, Structural, Debug)]
pub enum ConfigError {
    /// Bitrate outside 1..=512 kb/s.
    InvalidBitrate,
    /// Channel count other than 1 or 2.
    InvalidChannels,
    /// Frame size other than 960, 1920 or 2880 samples.
    InvalidFrameSize,
    /// Sample rate of zero.
    InvalidSampleRate,
    /// Metadata document too large for its 32-bit signed length field.
    MetadataTooLarge,
}

pub open spec fn channel_count(c: ChannelLayout) -> u32 {
    match c {
        ChannelLayout::Mono => 1,
        ChannelLayout::Stereo => 2,
    }
}

/// True exactly for the bitrates (in kb/s) the encoder accepts.
pub fn bitrate_is_valid(kbps: u32) -> (r: bool)
    ensures
        r <==> 1 <= kbps <= 512,
{
    1 <= kbps && kbps <= 512
}

/// Immutable configuration of the encoding stage.
#[derive(Clone, Copy, Debug)]
pub struct EncoderSettings {
    /// Samples per second of the PCM input.
    pub sample_rate: u32,
    /// Mono or stereo input.
    pub channels: ChannelLayout,
    /// Codec application profile.
    pub application: AudioApplication,
    /// Target bitrate in kb/s.
    pub bitrate: u32,
    /// Samples per channel in one frame.
    pub frame_size: u32,
}

impl EncoderSettings {
    /// The invariant every validated configuration satisfies.
    pub open spec fn wf(self) -> bool {
        &&& 1 <= self.bitrate <= 512
        &&& (self.frame_size == 960 || self.frame_size == 1920 || self.frame_size == 2880)
        &&& self.sample_rate >= 1
    }

    /// Validates raw configuration values; accepts exactly the
    /// combinations the pipeline supports and names the first
    /// offending value otherwise (bitrate, then channels, then frame
    /// size, then sample rate).
    pub fn new(
        sample_rate: u32,
        channels: u32,
        application: AudioApplication,
        bitrate: u32,
        frame_size: u32,
    ) -> (r: Result<EncoderSettings, ConfigError>)
        ensures
            r is Ok <==> {
                &&& 1 <= bitrate <= 512
                &&& (channels == 1 || channels == 2)
                &&& (frame_size == 960 || frame_size == 1920 || frame_size == 2880)
                &&& sample_rate >= 1
            },
            r matches Ok(s) ==> {
                &&& s.sample_rate == sample_rate
                &&& channel_count(s.channels) == channels
                &&& s.application == application
                &&& s.bitrate == bitrate
                &&& s.frame_size == frame_size
                &&& s.wf()
            },
            r == Err::<EncoderSettings, ConfigError>(ConfigError::InvalidBitrate)
                <==> !(1 <= bitrate <= 512),
            r == Err::<EncoderSettings, ConfigError>(ConfigError::InvalidChannels)
                <==> (1 <= bitrate <= 512 && !(channels == 1 || channels == 2)),
            r == Err::<EncoderSettings, ConfigError>(ConfigError::InvalidFrameSize)
                <==> {
                    &&& 1 <= bitrate <= 512
                    &&& (channels == 1 || channels == 2)
                    &&& !(frame_size == 960 || frame_size == 1920 || frame_size == 2880)
                },
            r == Err::<EncoderSettings, ConfigError>(ConfigError::InvalidSampleRate)
                <==> {
                    &&& 1 <= bitrate <= 512
                    &&& (channels == 1 || channels == 2)
                    &&& (frame_size == 960 || frame_size == 1920 || frame_size == 2880)
                    &&& sample_rate == 0
                },
    {
        if !(1 <= bitrate && bitrate <= 512) {
            Err(ConfigError::InvalidBitrate)
        } else if !(channels == 1 || channels == 2) {
            Err(ConfigError::InvalidChannels)
        } else if !(frame_size == 960 || frame_size == 1920 || frame_size == 2880) {
            Err(ConfigError::InvalidFrameSize)
        } else if sample_rate == 0 {
            Err(ConfigError::InvalidSampleRate)
        } else {
            Ok(EncoderSettings {
                sample_rate,
                channels: if channels == 1 { ChannelLayout::Mono } else { ChannelLayout::Stereo },
                application,
                bitrate,
                frame_size,
            })
        }
    }

    /// Samples in one PCM frame, across all channels.
    pub fn samples_per_frame(&self) -> (r: usize)
        requires
            self.wf(),
        ensures
            r == self.frame_size * channel_count(self.channels),
            1 <= r <= 5760,
    {
        let n: u32 = match self.channels {
            ChannelLayout::Mono => 1,
            ChannelLayout::Stereo => 2,
        };
        (self.frame_size * n) as usize
    }

    /// Worst-case byte budget for one encoded packet: two bytes per
    /// PCM sample of the frame.  Always fits the signed 16-bit packet
    /// length field of the container.
    pub fn max_packet_bytes(&self) -> (r: usize)
        requires
            self.wf(),
        ensures
            r == self.frame_size * channel_count(self.channels) * 2,
            1 <= r <= 11520,
            r <= 32767,
    {
        let n = self.samples_per_frame();
        n * 2
    }

    /// Bitrate handed to the codec, in bits per second.
    pub fn bitrate_bps(&self) -> (r: u32)
        requires
            self.wf(),
        ensures
            r == self.bitrate * 1000,
            1000 <= r <= 512000,
    {
        self.bitrate * 1000
    }
}

/// Immutable configuration of the container writer.
pub struct OutputSettings {
    /// When set, neither magic tag nor metadata is written.
    pub raw_output: bool,
    /// Single-digit container format version written after "DCA".
    pub format_file_version: i8,
    /// Byte length of the metadata document.
    pub metadata_json_size: i32,
    /// The UTF-8 metadata document itself; empty in raw mode.
    pub metadata_json: Vec<u8>,
}

impl OutputSettings {
    /// The invariant every validated configuration satisfies: the
    /// recorded size is the true document length and the version is a
    /// single decimal digit.
    pub open spec fn wf(self) -> bool {
        &&& self.metadata_json_size == self.metadata_json@.len()
        &&& 0 <= self.format_file_version <= 9
    }

    /// Validates writer configuration; rejects only a metadata
    /// document whose length does not fit the signed 32-bit size
    /// field.
    pub fn new(raw_output: bool, format_file_version: i8, metadata_json: Vec<u8>) -> (r: Result<
        OutputSettings,
        ConfigError,
    >)
        requires
            0 <= format_file_version <= 9,
        ensures
            r is Ok <==> metadata_json@.len() <= 0x7fff_ffff,
            r matches Ok(s) ==> {
                &&& s.raw_output == raw_output
                &&& s.format_file_version == format_file_version
                &&& s.metadata_json@ == metadata_json@
                &&& s.wf()
            },
            r is Err ==> r == Err::<OutputSettings, ConfigError>(ConfigError::MetadataTooLarge),
    {
        if metadata_json.len() > 0x7fff_ffff {
            Err(ConfigError::MetadataTooLarge)
        } else {
            let size = metadata_json.len() as i32;
            Ok(OutputSettings { raw_output, format_file_version, metadata_json_size: size, metadata_json })
        }
    }
}

} // verus!
