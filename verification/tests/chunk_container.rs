use dca::chunker::{chunk_frames, sample_from_le, samples_from_bytes};
use dca::container::{container_bytes, header_bytes, packet_record, write_le16, write_le32};
use dca::encode::{finish_packet, worst_case_buffer};
use dca::settings::{ConfigError, EncoderSettings, OutputSettings};
use dca::settings::AudioApplication;

fn out_settings(raw: bool, json: Vec<u8>) -> OutputSettings {
    OutputSettings::new(raw, 1, json).unwrap()
}

#[test]
fn le_sample_decoding() {
    assert_eq!(sample_from_le(0x01, 0x00), 1);
    assert_eq!(sample_from_le(0xff, 0xff), -1);
    assert_eq!(sample_from_le(0x00, 0x80), i16::MIN);
    assert_eq!(sample_from_le(0xff, 0x7f), i16::MAX);
}

#[test]
fn bytes_to_samples_drops_odd_tail() {
    let bytes = vec![0x01, 0x00, 0xff, 0xff, 0x7b];
    let samples = samples_from_bytes(&bytes);
    assert_eq!(samples, vec![1, -1]);
}

#[test]
fn chunking_exact_multiple_no_padding() {
    let samples: Vec<i16> = (1..=8).collect();
    let frames = chunk_frames(&samples, 4);
    assert_eq!(frames.len(), 2);
    assert_eq!(frames[0], vec![1, 2, 3, 4]);
    assert_eq!(frames[1], vec![5, 6, 7, 8]);
}

#[test]
fn chunking_pads_final_short_frame() {
    let samples: Vec<i16> = (1..=10).collect();
    let frames = chunk_frames(&samples, 4);
    assert_eq!(frames.len(), 3);
    assert_eq!(frames[0], vec![1, 2, 3, 4]);
    assert_eq!(frames[1], vec![5, 6, 7, 8]);
    assert_eq!(frames[2], vec![9, 10, 0, 0]);
}

#[test]
fn chunking_empty_stream_emits_nothing() {
    let samples: Vec<i16> = Vec::new();
    let frames = chunk_frames(&samples, 960);
    assert_eq!(frames.len(), 0);
}

#[test]
fn chunking_single_sample_pads_to_frame() {
    let frames = chunk_frames(&vec![7], 4);
    assert_eq!(frames, vec![vec![7, 0, 0, 0]]);
}

#[test]
fn le16_and_le32_layout() {
    let mut out = Vec::new();
    write_le16(&mut out, 0x1234);
    assert_eq!(out, vec![0x34, 0x12]);
    let mut out = Vec::new();
    write_le32(&mut out, 0x0a0b0c0d);
    assert_eq!(out, vec![0x0d, 0x0c, 0x0b, 0x0a]);
}

#[test]
fn packet_record_prefixes_exact_length() {
    let packet = vec![9u8, 8, 7];
    let rec = packet_record(&packet);
    assert_eq!(rec, vec![3, 0, 9, 8, 7]);
    let n = i16::from_le_bytes([rec[0], rec[1]]) as usize;
    assert_eq!(n, rec.len() - 2);
}

#[test]
fn raw_mode_has_no_bytes_before_first_length_field() {
    let settings = out_settings(true, b"ignored".to_vec());
    assert!(header_bytes(&settings).is_empty());
    let packets = vec![vec![0xabu8]];
    let bytes = container_bytes(&settings, &packets);
    assert_eq!(bytes, vec![1, 0, 0xab]);
}

#[test]
fn non_raw_header_layout() {
    let json = b"{}".to_vec();
    let settings = out_settings(false, json.clone());
    let bytes = container_bytes(&settings, &vec![vec![5u8, 6u8]]);
    assert_eq!(&bytes[0..4], b"DCA1");
    let l = i32::from_le_bytes([bytes[4], bytes[5], bytes[6], bytes[7]]) as usize;
    assert_eq!(l, json.len());
    assert_eq!(&bytes[8..8 + l], &json[..]);
    assert_eq!(&bytes[8 + l..], &[2, 0, 5, 6]);
}

#[test]
fn empty_input_non_raw_yields_header_only() {
    let json = b"{\"x\":1}".to_vec();
    let settings = out_settings(false, json.clone());
    let bytes = container_bytes(&settings, &Vec::new());
    assert_eq!(bytes, header_bytes(&settings));
    assert_eq!(bytes.len(), 8 + json.len());
}

#[test]
fn packet_order_and_lengths_read_back() {
    let packets: Vec<Vec<u8>> = vec![
        vec![1, 2, 3],
        vec![],
        vec![42; 300],
        vec![9],
    ];
    let settings = out_settings(true, Vec::new());
    let bytes = container_bytes(&settings, &packets);
    let mut pos = 0usize;
    let mut read_back: Vec<Vec<u8>> = Vec::new();
    while pos < bytes.len() {
        let n = i16::from_le_bytes([bytes[pos], bytes[pos + 1]]);
        assert!(n >= 0);
        let n = n as usize;
        pos += 2;
        read_back.push(bytes[pos..pos + n].to_vec());
        pos += n;
    }
    assert_eq!(read_back, packets);
}

#[test]
fn bitrate_boundaries() {
    assert!(EncoderSettings::new(48000, 2, AudioApplication::Audio, 1, 960).is_ok());
    assert!(EncoderSettings::new(48000, 2, AudioApplication::Audio, 512, 960).is_ok());
    assert_eq!(
        EncoderSettings::new(48000, 2, AudioApplication::Audio, 0, 960).unwrap_err(),
        ConfigError::InvalidBitrate
    );
    assert_eq!(
        EncoderSettings::new(48000, 2, AudioApplication::Audio, 513, 960).unwrap_err(),
        ConfigError::InvalidBitrate
    );
    assert!(dca::settings::bitrate_is_valid(1));
    assert!(dca::settings::bitrate_is_valid(512));
    assert!(!dca::settings::bitrate_is_valid(0));
    assert!(!dca::settings::bitrate_is_valid(513));
}

#[test]
fn invalid_channels_frame_size_sample_rate() {
    assert_eq!(
        EncoderSettings::new(48000, 3, AudioApplication::Voip, 64, 960).unwrap_err(),
        ConfigError::InvalidChannels
    );
    assert_eq!(
        EncoderSettings::new(48000, 2, AudioApplication::Voip, 64, 1000).unwrap_err(),
        ConfigError::InvalidFrameSize
    );
    assert_eq!(
        EncoderSettings::new(0, 1, AudioApplication::LowDelay, 64, 2880).unwrap_err(),
        ConfigError::InvalidSampleRate
    );
}

#[test]
fn settings_derived_sizes() {
    let s = EncoderSettings::new(48000, 2, AudioApplication::Audio, 64, 960).unwrap();
    assert_eq!(s.samples_per_frame(), 1920);
    assert_eq!(s.max_packet_bytes(), 3840);
    assert_eq!(s.bitrate_bps(), 64000);
    let s = EncoderSettings::new(44100, 1, AudioApplication::Voip, 128, 2880).unwrap();
    assert_eq!(s.samples_per_frame(), 2880);
    assert_eq!(s.max_packet_bytes(), 5760);
}

#[test]
fn finish_packet_truncates_to_reported_length() {
    let buf = worst_case_buffer(8);
    assert_eq!(buf, vec![0u8; 8]);
    let mut buf = buf;
    buf[0] = 0xaa;
    buf[1] = 0xbb;
    let packet = finish_packet(buf, 2).unwrap();
    assert_eq!(packet, vec![0xaa, 0xbb]);
}

#[test]
fn finish_packet_rejects_overlong_report() {
    let buf = worst_case_buffer(4);
    assert!(finish_packet(buf, 5).is_none());
}
