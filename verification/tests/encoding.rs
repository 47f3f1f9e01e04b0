use trx_client::base64::base64_encode;
use trx_client::calendar::{chrono_timestamp, epoch_days_to_ymd};
use trx_client::cbor::{encode_cbor_json_value, encode_cbor_length, JsonValue};
use trx_client::gzip::{gunzip_bytes, gzip_best, gzip_bytes};
use trx_client::http_reply::decode_history_reply;
use trx_client::ids::{new_token, token_of};
use trx_client::ogg::{ogg_crc32, ogg_page, stream_serial, AudioParams, OggOpusWriter, PageHeader};

#[test]
fn encoded_texts_have_four_characters_for_three_bytes() {
    for n in 0..10usize {
        assert_eq!(base64_encode(&vec![7u8; n]).len(), (n + 2) / 3 * 4);
    }
    assert_eq!(base64_encode(&[255, 255, 254]), "///+");
}

#[test]
fn encoded_texts_end_in_their_padding() {
    for n in 0..20usize {
        let data: Vec<u8> = (0..n).map(|i| (i * 37 + 5) as u8).collect();
        let text = base64_encode(&data);
        let letters = text.len() - (3 - n % 3) % 3;
        for (i, c) in text.chars().enumerate() {
            if i < letters {
                assert!(c.is_ascii_alphanumeric() || c == '+' || c == '/');
            } else {
                assert_eq!(c, '=');
            }
        }
    }
}

#[test]
fn tokens_are_hexadecimal() {
    let bytes: [u8; 16] = [0, 1, 15, 16, 127, 128, 254, 255, 0, 1, 2, 3, 4, 5, 6, 7];
    assert_eq!(token_of(&bytes), "00010f107f80feff0001020304050607");
    let a = new_token();
    assert_eq!(a.len(), 32);
    assert_ne!(a, new_token());
}

#[test]
fn compressed_bytes_read_back() {
    let data: Vec<u8> = (0..5000u32).map(|i| (i / 7) as u8).collect();
    let fast = gzip_bytes(&data).expect("compressed");
    let best = gzip_best(&data).expect("compressed");
    assert!(fast.len() < data.len());
    assert!(best.len() <= fast.len());
    assert_eq!(gunzip_bytes(&fast), Some(data.clone()));
    assert_eq!(gunzip_bytes(&best), Some(data));
    assert_eq!(gunzip_bytes(&[1, 2, 3]), None);
}

#[test]
fn dates_follow_the_calendar() {
    assert_eq!(epoch_days_to_ymd(0), (1970, 1, 1));
    assert_eq!(epoch_days_to_ymd(-1), (1969, 12, 31));
    assert_eq!(epoch_days_to_ymd(59), (1970, 3, 1));
    assert_eq!(epoch_days_to_ymd(11_016), (2000, 2, 29));
    assert_eq!(epoch_days_to_ymd(11_017), (2000, 3, 1));
    assert_eq!(epoch_days_to_ymd(19_782), (2024, 2, 29));
    assert_eq!(epoch_days_to_ymd(-25_508), (1900, 3, 1));
    assert_eq!(epoch_days_to_ymd(-25_509), (1900, 2, 28));
}

#[test]
fn days_follow_one_another() {
    let mut last = epoch_days_to_ymd(-200_000);
    for day in -199_999..200_000i64 {
        let next = epoch_days_to_ymd(day);
        assert!(next > last);
        last = next;
    }
}

#[test]
fn timestamps_sort_by_time() {
    assert_eq!(chrono_timestamp(0), "1970-01-01_00-00-00");
    assert_eq!(chrono_timestamp(951_868_799), "2000-02-29_23-59-59");
    assert!(chrono_timestamp(951_868_799) < chrono_timestamp(951_868_800));
}

fn cbor_of(value: &JsonValue) -> Vec<u8> {
    let mut out = Vec::new();
    encode_cbor_json_value(&mut out, value);
    out
}

#[test]
fn lengths_take_the_shortest_form() {
    let length = |major: u8, value: u64| {
        let mut out = Vec::new();
        encode_cbor_length(&mut out, major, value);
        out
    };
    assert_eq!(length(0, 23), vec![0x17]);
    assert_eq!(length(0, 24), vec![0x18, 24]);
    assert_eq!(length(2, 255), vec![0x58, 255]);
    assert_eq!(length(3, 256), vec![0x79, 1, 0]);
    assert_eq!(length(4, 65_536), vec![0x9a, 0, 1, 0, 0]);
    assert_eq!(length(5, 1 << 32), vec![0xbb, 0, 0, 0, 1, 0, 0, 0, 0]);
}

#[test]
fn values_are_encoded() {
    assert_eq!(cbor_of(&JsonValue::Null), vec![0xf6]);
    assert_eq!(cbor_of(&JsonValue::Bool(true)), vec![0xf5]);
    assert_eq!(cbor_of(&JsonValue::Bool(false)), vec![0xf4]);
    assert_eq!(cbor_of(&JsonValue::Unsigned(1000)), vec![0x19, 0x03, 0xe8]);
    assert_eq!(cbor_of(&JsonValue::Signed(-1)), vec![0x20]);
    assert_eq!(cbor_of(&JsonValue::Signed(-1000)), vec![0x39, 0x03, 0xe7]);
    assert_eq!(cbor_of(&JsonValue::Signed(i64::MIN))[1..], [0x7f, 255, 255, 255, 255, 255, 255, 255]);
    let mut float = vec![0xfb];
    float.extend_from_slice(&1.5f64.to_be_bytes());
    assert_eq!(cbor_of(&JsonValue::Float(1.5f64.to_bits())), float);
    assert_eq!(cbor_of(&JsonValue::Text("\u{fc}".to_string())), vec![0x62, 0xc3, 0xbc]);
    let list = JsonValue::List(vec![JsonValue::Unsigned(1), JsonValue::Text("a".to_string())]);
    assert_eq!(cbor_of(&list), vec![0x82, 0x01, 0x61, 0x61]);
    let record = JsonValue::Record(vec![("k".to_string(), list)]);
    assert_eq!(cbor_of(&record), vec![0xa1, 0x61, 0x6b, 0x82, 0x01, 0x61, 0x61]);
    assert_ne!(cbor_of(&JsonValue::Unsigned(1)), cbor_of(&JsonValue::Signed(-1)));
}

#[test]
fn the_history_is_sent_compressed() {
    let history = JsonValue::Record(vec![("ais".to_string(), JsonValue::List(Vec::new()))]);
    let body = decode_history_reply(true, &history).expect("on");
    assert_eq!(gunzip_bytes(&body), Some(cbor_of(&history)));
    let e = decode_history_reply(false, &history).expect_err("off");
    assert_eq!((e.status, e.text.as_str()), (404, "decode not enabled"));
}

fn crc_of_page(page: &[u8]) -> u32 {
    let mut blank = page.to_vec();
    blank[22..26].fill(0);
    let mut crc: u32 = 0;
    for byte in blank {
        crc ^= (byte as u32) << 24;
        for _ in 0..8 {
            crc = if crc & 0x8000_0000 != 0 {
                (crc << 1) ^ 0x04c1_1db7
            } else {
                crc << 1
            };
        }
    }
    crc
}

#[test]
fn pages_have_their_check_sum() {
    assert_eq!(ogg_crc32(&[], &[]), 0);
    assert_eq!(ogg_crc32(&[1], &[]), 0x04c1_1db7);
    let page = ogg_page(
        &PageHeader {
            header_type: 2,
            granule_position: 960,
            serial: 7,
            page_seq: 3,
        },
        &vec![9u8; 300],
    );
    assert_eq!(&page[0..4], b"OggS");
    assert_eq!(page[5], 2);
    assert_eq!(page[6..14], 960u64.to_le_bytes());
    assert_eq!(page[14..18], 7u32.to_le_bytes());
    assert_eq!(page[18..22], 3u32.to_le_bytes());
    assert_eq!(page[22..26], crc_of_page(&page).to_le_bytes());
    assert_eq!(page[26..29], [2, 255, 45]);
    assert_eq!(page.len(), 27 + 2 + 300);
}

#[test]
fn recordings_are_opus_streams() {
    let params = AudioParams {
        sample_rate: 48_000,
        channels: 2,
        frame_duration_ms: 20,
    };
    let (mut writer, head) = OggOpusWriter::create(5, params);
    assert!(head.windows(8).any(|w| w == b"OpusHead"));
    assert!(head.windows(8).any(|w| w == b"OpusTags"));
    assert!(writer.can_write());
    let page = writer.write_audio_packet(&[1, 2, 3]);
    assert_eq!(page[5], 0);
    assert_eq!(page[6..14], 960u64.to_le_bytes());
    assert_eq!(page[page.len() - 3..], [1, 2, 3]);
    let page = writer.write_audio_packet(&[4]);
    assert_eq!(page[6..14], 1920u64.to_le_bytes());
    let last = writer.finalize();
    assert_eq!(last[5], 4);
    assert_eq!(stream_serial(0x1_0000_0002), 2);
}
