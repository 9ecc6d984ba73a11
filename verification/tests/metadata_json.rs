use dca::json::{metadata_json_bytes, parse_u32_ascii};
use dca::metadata::{
    FFProbeData, FFProbeFormat, FFProbeTags, Metadata, metadata_for_pipe, metadata_from_probe,
};
use dca::settings::{AudioApplication, EncoderSettings};

fn settings() -> EncoderSettings {
    EncoderSettings::new(48000, 2, AudioApplication::Audio, 64, 960).unwrap()
}

fn probe(tags: Option<FFProbeTags>, long_name: Option<&str>, bitrate: Option<&str>) -> FFProbeData {
    FFProbeData {
        format: FFProbeFormat {
            filename: None,
            nb_streams: None,
            nb_programs: None,
            format_name: None,
            format_long_name: long_name.map(|s| s.to_string()),
            start_time: None,
            duration: None,
            size: None,
            bitrate: bitrate.map(|s| s.to_string()),
            probe_score: None,
            tags,
        },
    }
}

#[test]
fn pipe_metadata_fields() {
    let m = metadata_for_pipe(&settings());
    assert_eq!(m.dca.version, 1);
    assert_eq!(m.dca.tool.name, "dca-rs");
    assert_eq!(m.dca.tool.version, "0.1.0");
    assert_eq!(m.dca.tool.author, "nstafie");
    assert_eq!(m.origin.source, "pipe");
    assert_eq!(m.origin.encoding, "pcm16/s16le");
    assert_eq!(m.origin.channels, 2);
    assert_eq!(m.origin.bitrate, 0);
    assert_eq!(m.opus.bitrate, 64000);
    assert_eq!(m.opus.sample_rate, 48000);
    assert_eq!(m.opus.application, "audio");
    assert_eq!(m.opus.frame_size, 960);
    assert_eq!(m.opus.channels, 2);
    assert_eq!(m.song_info.title, "");
    assert!(m.extra.is_empty());
}

#[test]
fn probed_metadata_fields() {
    let tags = FFProbeTags {
        artist: Some("An Artist".to_string()),
        genre: None,
        title: Some("A Title".to_string()),
        album: Some("An Album".to_string()),
        comment: None,
    };
    let m = metadata_from_probe(&settings(), probe(Some(tags), Some("MP3 audio"), Some("128000")));
    assert_eq!(m.origin.source, "file");
    assert_eq!(m.origin.encoding, "MP3 audio");
    assert_eq!(m.origin.bitrate, 128000);
    assert_eq!(m.song_info.artist, "An Artist");
    assert_eq!(m.song_info.title, "A Title");
    assert_eq!(m.song_info.album, "An Album");
    assert_eq!(m.song_info.genre, "");
    assert_eq!(m.song_info.comments, "");
}

#[test]
fn probed_metadata_without_tags_or_bitrate() {
    let m = metadata_from_probe(&settings(), probe(None, None, None));
    assert_eq!(m.song_info.artist, "");
    assert_eq!(m.origin.encoding, "");
    assert_eq!(m.origin.bitrate, 0);
    let m = metadata_from_probe(&settings(), probe(None, None, Some("not a number")));
    assert_eq!(m.origin.bitrate, 0);
}

#[test]
fn decimal_parsing_matches_unsigned_rules() {
    assert_eq!(parse_u32_ascii("0"), Some(0));
    assert_eq!(parse_u32_ascii("123"), Some(123));
    assert_eq!(parse_u32_ascii("+7"), Some(7));
    assert_eq!(parse_u32_ascii("4294967295"), Some(u32::MAX));
    assert_eq!(parse_u32_ascii("4294967296"), None);
    assert_eq!(parse_u32_ascii(""), None);
    assert_eq!(parse_u32_ascii("+"), None);
    assert_eq!(parse_u32_ascii("12a"), None);
    assert_eq!(parse_u32_ascii("-5"), None);
    assert_eq!(parse_u32_ascii(" 5"), None);
}

#[test]
fn serialized_document_exact_bytes() {
    let m = metadata_for_pipe(&settings());
    let bytes = metadata_json_bytes(&m);
    let expected = "{\"dca\":{\"version\":1,\"tool\":{\"name\":\"dca-rs\",\"version\":\"0.1.0\",\"url\":\"https://github.com/nstafie/dca-rs\",\"author\":\"nstafie\"}},\"song_info\":{\"title\":\"\",\"artist\":\"\",\"album\":\"\",\"genre\":\"\",\"comments\":\"\",\"cover\":\"\"},\"origin\":{\"source\":\"pipe\",\"bitrate\":0,\"channels\":2,\"encoding\":\"pcm16/s16le\",\"url\":\"\"},\"opus\":{\"bitrate\":64000,\"sample_rate\":48000,\"application\":\"audio\",\"frame_size\":960,\"channels\":2},\"extra\":{}}";
    assert_eq!(String::from_utf8(bytes).unwrap(), expected);
}

#[test]
fn round_trip_through_json_parser() {
    let mut m = metadata_for_pipe(&settings());
    m.song_info.title = "Quote \" backslash \\ newline \n tab \t".to_string();
    m.song_info.artist = "Ünïcødé — 音楽".to_string();
    m.extra.push(("key one".to_string(), "value one".to_string()));
    m.extra.push(("key/two".to_string(), "va\"lue".to_string()));
    let bytes = metadata_json_bytes(&m);
    let v: serde_json::Value = serde_json::from_slice(&bytes).unwrap();
    assert_eq!(v["dca"]["version"], 1);
    assert_eq!(v["dca"]["tool"]["name"], "dca-rs");
    assert_eq!(v["dca"]["tool"]["version"], "0.1.0");
    assert_eq!(v["dca"]["tool"]["url"], "https://github.com/nstafie/dca-rs");
    assert_eq!(v["dca"]["tool"]["author"], "nstafie");
    assert_eq!(v["song_info"]["title"], m.song_info.title.as_str());
    assert_eq!(v["song_info"]["artist"], m.song_info.artist.as_str());
    assert_eq!(v["song_info"]["album"], "");
    assert_eq!(v["song_info"]["genre"], "");
    assert_eq!(v["song_info"]["comments"], "");
    assert_eq!(v["song_info"]["cover"], "");
    assert_eq!(v["origin"]["source"], "pipe");
    assert_eq!(v["origin"]["bitrate"], 0);
    assert_eq!(v["origin"]["channels"], 2);
    assert_eq!(v["origin"]["encoding"], "pcm16/s16le");
    assert_eq!(v["origin"]["url"], "");
    assert_eq!(v["opus"]["bitrate"], 64000);
    assert_eq!(v["opus"]["sample_rate"], 48000);
    assert_eq!(v["opus"]["application"], "audio");
    assert_eq!(v["opus"]["frame_size"], 960);
    assert_eq!(v["opus"]["channels"], 2);
    assert_eq!(v["extra"]["key one"], "value one");
    assert_eq!(v["extra"]["key/two"], "va\"lue");
    assert_eq!(v["extra"].as_object().unwrap().len(), 2);
}

#[test]
fn control_characters_are_escaped() {
    let mut m = metadata_for_pipe(&settings());
    m.song_info.comments = "line1\nline2\u{1}".to_string();
    let bytes = metadata_json_bytes(&m);
    let text = String::from_utf8(bytes.clone()).unwrap();
    assert!(text.contains("line1\\u000aline2\\u0001"));
    let v: serde_json::Value = serde_json::from_slice(&bytes).unwrap();
    assert_eq!(v["song_info"]["comments"], "line1\nline2\u{1}");
}

#[test]
fn header_embeds_document_of_recorded_length() {
    let m = metadata_for_pipe(&settings());
    let json = metadata_json_bytes(&m);
    let out = dca::settings::OutputSettings::new(false, 1, json.clone()).unwrap();
    let header = dca::container::header_bytes(&out);
    assert_eq!(&header[0..4], b"DCA1");
    let l = i32::from_le_bytes([header[4], header[5], header[6], header[7]]) as usize;
    assert_eq!(l, json.len());
    let parsed: serde_json::Value = serde_json::from_slice(&header[8..8 + l]).unwrap();
    assert_eq!(parsed["dca"]["version"], 1);
    assert_eq!(header.len(), 8 + l);
}
