//! The metadata record serialized once into the container header, and
//! the probe record it can be built from.

use crate::json::{parse_u32_ascii, spec_parse_u32_dec};
use crate::settings::{channel_count, AudioApplication, EncoderSettings};
use vstd::prelude::*;
use vstd::string::StringExecFns;

verus! {

/// The complete metadata document.
pub struct Metadata {
    pub dca: DCAMetadata,
    pub song_info: SongMetadata,
    pub origin: OriginMetadata,
    pub opus: OpusMetadata,
    /// Open extension mapping; keys are unique, insertion order kept.
    pub extra: Vec<(String, String)>,
}

/// Identity of the format and of the tool that wrote the container.
pub struct DCAMetadata {
    pub version: i8,
    pub tool: DCAToolMetadata,
}

/// The tool that produced the stream.
pub struct DCAToolMetadata {
    pub name: String,
    pub version: String,
    pub url: String,
    pub author: String,
}

/// Tags of the source material; all optional, default empty.
pub struct SongMetadata {
    pub title: String,
    pub artist: String,
    pub album: String,
    pub genre: String,
    pub comments: String,
    pub cover: String,
}

/// Where the audio came from.
pub struct OriginMetadata {
    pub source: String,
    pub bitrate: u32,
    pub channels: u32,
    pub encoding: String,
    pub url: String,
}

/// The codec parameters the stream was encoded with.
pub struct OpusMetadata {
    pub bitrate: u32,
    pub sample_rate: u32,
    pub application: String,
    pub frame_size: u32,
    pub channels: u32,
}

/// Output of the external probing tool, as far as this library reads
/// it.
pub struct FFProbeData {
    pub format: FFProbeFormat,
}

/// The `format` object of a probe result.
pub struct FFProbeFormat {
    pub filename: Option<String>,
    pub nb_streams: Option<i32>,
    pub nb_programs: Option<i32>,
    pub format_name: Option<String>,
    pub format_long_name: Option<String>,
    pub start_time: Option<String>,
    pub duration: Option<String>,
    pub size: Option<String>,
    pub bitrate: Option<String>,
    pub probe_score: Option<i32>,
    pub tags: Option<FFProbeTags>,
}

/// The optional tag block of a probe result.
pub struct FFProbeTags {
    pub artist: Option<String>,
    pub genre: Option<String>,
    pub title: Option<String>,
    pub album: Option<String>,
    pub comment: Option<String>,
}

/// The characters of an optional string, empty when absent.
pub open spec fn opt_chars(o: Option<String>) -> Seq<char> {
    match o {
        Option::Some(s) => s@,
        Option::None => Seq::empty(),
    }
}

/// The name the metadata document records for an application profile.
pub open spec fn spec_application_name(a: AudioApplication) -> Seq<char> {
    match a {
        AudioApplication::Voip => "voip"@,
        AudioApplication::Audio => "audio"@,
        AudioApplication::LowDelay => "lowdelay"@,
    }
}

/// The name the metadata document records for an application profile.
pub fn application_name(a: AudioApplication) -> (r: String)
    ensures
        r@ == spec_application_name(a),
{
    match a {
        AudioApplication::Voip => String::from_str("voip"),
        AudioApplication::Audio => String::from_str("audio"),
        AudioApplication::LowDelay => String::from_str("lowdelay"),
    }
}

impl Default for SongMetadata {
    /// All tags empty.
    fn default() -> (d: Self)
        ensures
            d.title@ == Seq::<char>::empty(),
            d.artist@ == Seq::<char>::empty(),
            d.album@ == Seq::<char>::empty(),
            d.genre@ == Seq::<char>::empty(),
            d.comments@ == Seq::<char>::empty(),
            d.cover@ == Seq::<char>::empty(),
    {
        SongMetadata {
            title: String::new(),
            artist: String::new(),
            album: String::new(),
            genre: String::new(),
            comments: String::new(),
            cover: String::new(),
        }
    }
}

impl Default for OriginMetadata {
    /// Empty strings, zero counts.
    fn default() -> (d: Self)
        ensures
            d.source@ == Seq::<char>::empty(),
            d.bitrate == 0,
            d.channels == 0,
            d.encoding@ == Seq::<char>::empty(),
            d.url@ == Seq::<char>::empty(),
    {
        OriginMetadata {
            source: String::new(),
            bitrate: 0,
            channels: 0,
            encoding: String::new(),
            url: String::new(),
        }
    }
}

impl Default for FFProbeTags {
    /// No tag present.
    fn default() -> (d: Self)
        ensures
            d.artist is None,
            d.genre is None,
            d.title is None,
            d.album is None,
            d.comment is None,
    {
        FFProbeTags { artist: None, genre: None, title: None, album: None, comment: None }
    }
}

/// How every builder fills the fields that do not depend on the
/// input source.
pub open spec fn spec_common_fields(m: Metadata, settings: EncoderSettings) -> bool {
    &&& m.dca.version == 1
    &&& m.dca.tool.name@ == "dca-rs"@
    &&& m.dca.tool.version@ == "0.1.0"@
    &&& m.dca.tool.url@ == "https://github.com/nstafie/dca-rs"@
    &&& m.dca.tool.author@ == "nstafie"@
    &&& m.opus.bitrate == settings.bitrate * 1000
    &&& m.opus.sample_rate == settings.sample_rate
    &&& m.opus.application@ == spec_application_name(settings.application)
    &&& m.opus.frame_size == settings.frame_size
    &&& m.opus.channels == channel_count(settings.channels)
    &&& m.extra@.len() == 0
}

/// The base record every source shares: format version 1, the tool's
/// identity, the codec parameters, no tags, no origin, no extras.
fn base_metadata(settings: &EncoderSettings) -> (m: Metadata)
    requires
        settings.wf(),
    ensures
        spec_common_fields(m, *settings),
        m.song_info.title@ == Seq::<char>::empty(),
        m.song_info.artist@ == Seq::<char>::empty(),
        m.song_info.album@ == Seq::<char>::empty(),
        m.song_info.genre@ == Seq::<char>::empty(),
        m.song_info.comments@ == Seq::<char>::empty(),
        m.song_info.cover@ == Seq::<char>::empty(),
        m.origin.source@ == Seq::<char>::empty(),
        m.origin.bitrate == 0,
        m.origin.channels == 0,
        m.origin.encoding@ == Seq::<char>::empty(),
        m.origin.url@ == Seq::<char>::empty(),
{
    Metadata {
        dca: DCAMetadata {
            version: 1,
            tool: DCAToolMetadata {
                name: String::from_str("dca-rs"),
                version: String::from_str("0.1.0"),
                url: String::from_str("https://github.com/nstafie/dca-rs"),
                author: String::from_str("nstafie"),
            },
        },
        song_info: Default::default(),
        origin: Default::default(),
        opus: OpusMetadata {
            bitrate: settings.bitrate * 1000,
            sample_rate: settings.sample_rate,
            application: application_name(settings.application),
            frame_size: settings.frame_size,
            channels: match settings.channels {
                crate::settings::ChannelLayout::Mono => 1u32,
                crate::settings::ChannelLayout::Stereo => 2u32,
            },
        },
        extra: Vec::new(),
    }
}

/// The metadata for a live pipe source: no tags, origin "pipe" with
/// the configured channel count and the fixed PCM encoding name.
pub fn metadata_for_pipe(settings: &EncoderSettings) -> (m: Metadata)
    requires
        settings.wf(),
    ensures
        spec_common_fields(m, *settings),
        m.song_info.title@ == Seq::<char>::empty(),
        m.song_info.artist@ == Seq::<char>::empty(),
        m.song_info.album@ == Seq::<char>::empty(),
        m.song_info.genre@ == Seq::<char>::empty(),
        m.song_info.comments@ == Seq::<char>::empty(),
        m.song_info.cover@ == Seq::<char>::empty(),
        m.origin.source@ == "pipe"@,
        m.origin.bitrate == 0,
        m.origin.channels == channel_count(settings.channels),
        m.origin.encoding@ == "pcm16/s16le"@,
        m.origin.url@ == Seq::<char>::empty(),
{
    let mut m = base_metadata(settings);
    m.origin = OriginMetadata {
        source: String::from_str("pipe"),
        bitrate: 0,
        channels: match settings.channels {
            crate::settings::ChannelLayout::Mono => 1u32,
            crate::settings::ChannelLayout::Stereo => 2u32,
        },
        encoding: String::from_str("pcm16/s16le"),
        url: String::new(),
    };
    m
}

/// The metadata for a probed file source: the probe's tags (empty
/// where absent), origin "file" with the probe's long format name and
/// its bit rate string read as a decimal number (zero where absent or
/// unreadable).
pub fn metadata_from_probe(settings: &EncoderSettings, probe: FFProbeData) -> (m: Metadata)
    requires
        settings.wf(),
    ensures
        spec_common_fields(m, *settings),
        m.song_info.cover@ == Seq::<char>::empty(),
        probe.format.tags matches Some(t) ==> {
            &&& m.song_info.title@ == opt_chars(t.title)
            &&& m.song_info.artist@ == opt_chars(t.artist)
            &&& m.song_info.album@ == opt_chars(t.album)
            &&& m.song_info.genre@ == opt_chars(t.genre)
            &&& m.song_info.comments@ == opt_chars(t.comment)
        },
        probe.format.tags is None ==> {
            &&& m.song_info.title@ == Seq::<char>::empty()
            &&& m.song_info.artist@ == Seq::<char>::empty()
            &&& m.song_info.album@ == Seq::<char>::empty()
            &&& m.song_info.genre@ == Seq::<char>::empty()
            &&& m.song_info.comments@ == Seq::<char>::empty()
        },
        m.origin.source@ == "file"@,
        m.origin.channels == channel_count(settings.channels),
        m.origin.encoding@ == opt_chars(probe.format.format_long_name),
        m.origin.url@ == Seq::<char>::empty(),
        m.origin.bitrate == (match probe.format.bitrate {
            Option::Some(s) => (match spec_parse_u32_dec(vstd::utf8::encode_utf8(s@)) {
                Option::Some(v) => v,
                Option::None => 0u32,
            }),
            Option::None => 0u32,
        }),
{
    let mut m = base_metadata(settings);
    let tags = match probe.format.tags {
        Some(t) => t,
        None => Default::default(),
    };
    m.song_info = SongMetadata {
        title: unwrap_or_empty(tags.title),
        artist: unwrap_or_empty(tags.artist),
        album: unwrap_or_empty(tags.album),
        genre: unwrap_or_empty(tags.genre),
        comments: unwrap_or_empty(tags.comment),
        cover: String::new(),
    };
    let bitrate: u32 = match &probe.format.bitrate {
        Some(s) => match parse_u32_ascii(s.as_str()) {
            Some(v) => v,
            None => 0,
        },
        None => 0,
    };
    m.origin = OriginMetadata {
        source: String::from_str("file"),
        bitrate,
        channels: match settings.channels {
            crate::settings::ChannelLayout::Mono => 1u32,
            crate::settings::ChannelLayout::Stereo => 2u32,
        },
        encoding: unwrap_or_empty(probe.format.format_long_name),
        url: String::new(),
    };
    m
}

/// The string itself, or a fresh empty one when absent.
fn unwrap_or_empty(o: Option<String>) -> (r: String)
    ensures
        r@ == opt_chars(o),
{
    match o {
        Some(s) => s,
        None => String::new(),
    }
}

} // verus!
