use tracing_store::store::{encode_record, LoadError};
use tracing_store::{DailyTracingKey, DailyTracingKeyStore, Rpi, TracingKey};

fn tk() -> TracingKey {
    let b: Vec<u8> = (0u8..32).collect();
    TracingKey::unique(&b).unwrap()
}

#[test]
fn dtk_is_deterministic() {
    let a = DailyTracingKey::for_day(&tk(), 18000);
    let b = DailyTracingKey::for_day(&tk(), 18000);
    assert_eq!(a.as_bytes(), b.as_bytes());
    assert_eq!(a.as_bytes().len(), 16);
    let c = DailyTracingKey::for_day(&tk(), 18001);
    assert_ne!(a.as_bytes(), c.as_bytes());
    assert_ne!(a.as_bytes(), &tk().as_bytes()[..16]);
}

#[test]
fn rpi_domain() {
    let d = DailyTracingKey::for_day(&tk(), 5);
    for t in 0u8..=143 {
        assert!(d.get_rpi_for_tin(t).is_some());
    }
    assert!(d.get_rpi_for_tin(144).is_none());
    assert!(d.get_rpi_for_tin(255).is_none());
    let a = d.get_rpi_for_tin(0).unwrap();
    let b = d.get_rpi_for_tin(1).unwrap();
    assert_ne!(a.as_bytes(), b.as_bytes());
    assert_ne!(a.as_bytes(), d.as_bytes());
}

#[test]
fn iter_rpis_gives_whole_day() {
    let d = DailyTracingKey::for_day(&tk(), 7);
    let all = d.iter_rpis();
    assert_eq!(all.len(), 144);
    assert_eq!(all[10].as_bytes(), d.get_rpi_for_tin(10).unwrap().as_bytes());
}

#[test]
fn record_round_trip() {
    let k = DailyTracingKey::from_bytes(&[9u8; 16]).unwrap();
    let rec = encode_record(&k);
    assert_eq!(rec.len(), 20);
    assert_eq!(&rec[..16], &[9u8; 16][..]);
    let mut data = rec.clone();
    data.extend_from_slice(&encode_record(&DailyTracingKey::from_bytes(&[1u8; 16]).unwrap()));
    let mut s = DailyTracingKeyStore::new();
    assert_eq!(s.load_bucket(3, Some(data.clone())), Ok(()));
    assert_eq!(s.len(), 2);
    let got = s.fetch_buckets(3, 3).unwrap();
    assert_eq!(got[0].as_bytes(), &[9u8; 16][..]);
    assert_eq!(got[1].as_bytes(), &[1u8; 16][..]);
}

#[test]
fn record_crc_known_value() {
    // CRC-32 (IEEE) of sixteen zero bytes.
    let k = DailyTracingKey::from_bytes(&[0u8; 16]).unwrap();
    let rec = encode_record(&k);
    let crc = u32::from_le_bytes([rec[16], rec[17], rec[18], rec[19]]);
    assert_eq!(crc, 0xECBB4B55);
}

#[test]
fn flipped_checksum_bit_is_refused() {
    let k = DailyTracingKey::from_bytes(&[9u8; 16]).unwrap();
    for bit in 0..32 {
        let mut rec = encode_record(&k);
        rec[16 + bit / 8] ^= 1 << (bit % 8);
        let mut s = DailyTracingKeyStore::new();
        assert_eq!(s.load_bucket(3, Some(rec.clone())), Err(LoadError::ChecksumMismatch));
        assert_eq!(s.len(), 0);
    }
}

#[test]
fn truncated_file_is_refused() {
    let k = DailyTracingKey::from_bytes(&[9u8; 16]).unwrap();
    let rec = encode_record(&k);
    let mut s = DailyTracingKeyStore::new();
    assert_eq!(s.load_bucket(3, Some(rec[..19].to_vec())), Err(LoadError::TruncatedRecord));
    assert_eq!(s.load_bucket(4, None), Ok(()));
    assert!(s.is_loaded(4));
    assert!(!s.is_loaded(3));
    assert_eq!(s.len(), 0);
}

#[test]
fn truncated_after_valid_records() {
    let mut data = encode_record(&DailyTracingKey::from_bytes(&[5u8; 16]).unwrap());
    data.extend_from_slice(&[1, 2, 3]);
    let mut s = DailyTracingKeyStore::new();
    assert_eq!(s.load_bucket(8, Some(data)), Err(LoadError::TruncatedRecord));
    assert!(!s.is_loaded(8));
}

#[test]
fn bad_checksum_before_truncation_wins() {
    let mut data = encode_record(&DailyTracingKey::from_bytes(&[5u8; 16]).unwrap());
    data[19] ^= 0x80;
    data.extend_from_slice(&[1, 2, 3]);
    let mut s = DailyTracingKeyStore::new();
    assert_eq!(s.load_bucket(8, Some(data)), Err(LoadError::ChecksumMismatch));
}

#[test]
fn second_load_of_a_day_is_a_no_op() {
    let k = DailyTracingKey::from_bytes(&[6u8; 16]).unwrap();
    let mut s = DailyTracingKeyStore::new();
    assert_eq!(s.load_bucket(9, Some(encode_record(&k))), Ok(()));
    assert_eq!(s.load_bucket(9, Some(vec![1, 2, 3])), Ok(()));
    assert_eq!(s.len(), 1);
}

#[test]
fn repeated_record_loads_once() {
    let k = DailyTracingKey::from_bytes(&[6u8; 16]).unwrap();
    let mut data = encode_record(&k);
    data.extend_from_slice(&encode_record(&k));
    let mut s = DailyTracingKeyStore::new();
    assert_eq!(s.load_bucket(9, Some(data)), Ok(()));
    assert_eq!(s.len(), 1);
    assert_eq!(s.fetch_buckets(9, 9).unwrap().len(), 1);
}

#[test]
fn text_codec_round_trip() {
    let d = DailyTracingKey::from_bytes(&[0xfbu8; 16]).unwrap();
    let text = d.to_text();
    assert_eq!(text, "-_v7-_v7-_v7-_v7-_v7-w");
    assert_eq!(DailyTracingKey::from_text(&text).unwrap().as_bytes(), d.as_bytes());
    let r = Rpi::from_bytes(&[0u8; 16]).unwrap();
    assert_eq!(r.to_text(), "AAAAAAAAAAAAAAAAAAAAAA");
    let t = tk();
    assert_eq!(t.to_text().len(), 43);
    assert_eq!(TracingKey::from_text(&t.to_text()).unwrap().as_bytes(), t.as_bytes());
}

#[test]
fn text_codec_rejects() {
    assert!(DailyTracingKey::from_text("AAAA").is_err());
    assert!(DailyTracingKey::from_text("AAAAAAAAAAAAAAAAAAAAA+").is_err());
    assert!(DailyTracingKey::from_text("AAAAAAAAAAAAAAAAAAAAAA==").is_err());
    assert!(Rpi::from_text("AAAAAAAAAAAAAAAAAAAAAAAA").is_err());
    assert!(TracingKey::from_text("AAAAAAAAAAAAAAAAAAAAAA").is_err());
}
