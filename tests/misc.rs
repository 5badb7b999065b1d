use cantari::assets::{asset, open_jtalk_dic, sample_vvm, tyc_utau};
use cantari::frq::{parse_frq_header, FrqError, FrqHeader};
use cantari::icons::IconManager;
use cantari::page::replace_data;

fn frq_bytes(hop: i32, length: i32, records: usize) -> Vec<u8> {
    let mut b = b"FREQ0003".to_vec();
    b.extend_from_slice(&hop.to_le_bytes());
    b.extend_from_slice(&220.5f64.to_le_bytes());
    b.extend_from_slice(&[0u8; 16]);
    b.extend_from_slice(&length.to_le_bytes());
    for i in 0..records {
        b.extend_from_slice(&(i as f64).to_le_bytes());
        b.extend_from_slice(&1.0f64.to_le_bytes());
    }
    b
}

#[test]
fn test_parse() {
    let frq = frq_bytes(256, 3, 3);
    assert_eq!(parse_frq_header(&frq), Ok(FrqHeader { hop_size: 256, length: 3 }));
}

#[test]
fn frq_errors() {
    assert_eq!(parse_frq_header(b"FREQ"), Err(FrqError::TooShort));
    assert_eq!(parse_frq_header(b"FREQ0002xxxxxxxx"), Err(FrqError::InvalidHeader));
    assert_eq!(parse_frq_header(&frq_bytes(256, 4, 3)), Err(FrqError::Truncated));
    assert_eq!(parse_frq_header(&frq_bytes(-1, -5, 0)), Ok(FrqHeader { hop_size: -1, length: -5 }));
}

#[test]
fn page_data_block() {
    let html = "<html><script id=\"settings\" type=\"application/json\">{}</script></html>";
    let r = replace_data(html, "settings", "{\"a\":1}").unwrap();
    assert_eq!(r, "<html><script id=\"settings\" type=\"application/json\">{\"a\":1}</script></html>");
    assert!(replace_data(html, "ongens", "x").is_none());
}

#[test]
fn asset_paths() {
    assert_eq!(asset("/opt/c", "x"), "/opt/c/x");
    assert_eq!(open_jtalk_dic("a"), "a/dict");
    assert_eq!(tyc_utau("a"), "a/tyc-utau");
    assert_eq!(sample_vvm("a"), "a/sample.vvm");
}

#[test]
fn icon_manager_starts_empty() {
    let m = IconManager::new();
    assert!(m.icons().is_empty());
    assert!(m.portraits().is_empty());
}
