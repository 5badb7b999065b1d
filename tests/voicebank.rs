
use cantari::encoder::{fallback, kata2hira, resolve_alias};
use cantari::midi::MidiNote;
use cantari::oto::{Oto, OtoIndex};
use cantari::settings::{OngenSettings, Settings, StyleSettings};
use cantari::voicebank::{
    get_ongen_style_from_id, ongen_uuid, parse_character, parse_prefix_map, Ongen, OngenError,
};

fn sjis(text: &str) -> Vec<u8> {
    encoding_rs::SHIFT_JIS.encode(text).0.into_owned()
}

fn bank(uuid: u128, oto_ini: &str) -> Ongen {
    Ongen {
        uuid,
        root: "root".to_string(),
        info: vec![("name".to_string(), "bank".to_string())],
        prefix_suffix_map: vec![],
        oto: Oto::from_oto_ini(oto_ini, "root"),
    }
}

fn styles(n: usize) -> OngenSettings {
    let mut s = OngenSettings::default();
    for i in 1..n {
        let mut st = StyleSettings::default();
        st.name = format!("style{}", i);
        s.style_settings.push(st);
    }
    s
}

#[test]
fn speaker_id_round_trip() {
    let uuid = 0xa1b2c3d4_0000_5000_8000_000000000000u128;
    let v = bank(uuid, "a.wav=あ,1,2,3,4,5");
    assert_eq!(v.id(), (0xa1b2c300u32 >> 1) & !0xffu32);
    assert_eq!(v.id() & 0xff, 0);
    let mut settings = Settings::default();
    settings.ongen_settings.insert(uuid, styles(4));
    let ongens = vec![v];
    let (found, style) = get_ongen_style_from_id(&ongens, &settings, ongens[0].id() + 3).unwrap();
    assert_eq!(found.uuid, uuid);
    assert_eq!(style.name, "style3");
    assert!(get_ongen_style_from_id(&ongens, &settings, ongens[0].id() + 4).is_none());
    assert!(get_ongen_style_from_id(&ongens, &settings, ongens[0].id() + 256).is_none());
}

#[test]
fn every_style_maps_back() {
    let uuid = 0xffff_ffff_0000_5000_8000_000000000000u128;
    let mut settings = Settings::default();
    settings.ongen_settings.insert(uuid, styles(256));
    let ongens = vec![bank(uuid, "a.wav=あ,1,2,3,4,5")];
    for s in 0..256u32 {
        let (found, style) = get_ongen_style_from_id(&ongens, &settings, ongens[0].id() + s).unwrap();
        assert_eq!(found.uuid, uuid);
        assert_eq!(style.name, settings.ongen_settings[&uuid].style_settings[s as usize].name);
    }
}

#[test]
fn unknown_speaker() {
    let settings = Settings::default();
    let ongens = vec![bank(1u128 << 100, "a.wav=あ,1,2,3,4,5")];
    assert!(get_ongen_style_from_id(&ongens, &settings, ongens[0].id()).is_none());
}

#[test]
fn character_txt_lines() {
    let info = parse_character("name=テスト\r\nimage：icon.bmp\nno separator\nweb:x=y\nname=二つ目\n");
    let get = |k: &str| info.iter().rev().find(|(key, _)| key == k).map(|(_, v)| v.clone());
    assert_eq!(get("name").as_deref(), Some("二つ目"));
    assert_eq!(get("image").as_deref(), Some("icon.bmp"));
    assert_eq!(get("x").as_deref(), Some("y"));
    assert_eq!(info.len(), 4);
}

#[test]
fn prefix_map_lines() {
    let map = parse_prefix_map("C4\t\t↑\nD4\tp\ts\textra\n").unwrap();
    assert_eq!(map[0], ("C4".to_string(), "".to_string(), "↑".to_string()));
    assert_eq!(map[1], ("D4".to_string(), "p".to_string(), "s".to_string()));
    assert!(parse_prefix_map("C4\tonly one tab\n").is_none());
}

#[test]
fn voicebank_from_files() {
    let character = sjis("name=テスト\nimage=icon.bmp\n");
    let otos = vec![
        ("root/A".to_string(), sjis("_あ.wav=- あ,1,2,3,4,5\n")),
        ("root/B".to_string(), sjis("")),
    ];
    let v = Ongen::new("root", &character, &otos, Some("C4\tp\ts\n"), &vec![]).unwrap();
    assert_eq!(v.name(), "テスト");
    assert_eq!(v.uuid, ongen_uuid(&"テスト".to_string()));
    let expected = uuid::Uuid::new_v5(&uuid::Uuid::NAMESPACE_OID, "ongen:テスト".as_bytes());
    assert_eq!(v.uuid, expected.as_u128());
    assert_eq!(v.oto.len(), 1);
    assert_eq!(v.affixes(&"C4".to_string()), ("p".to_string(), "s".to_string()));
    assert_eq!(v.affixes(&"D4".to_string()), ("".to_string(), "".to_string()));
}

#[test]
fn voicebank_rejections() {
    let otos = vec![("d".to_string(), sjis("a.wav=あ,1,2,3,4,5"))];
    let err = Ongen::new("r", &sjis("image=x"), &otos, None, &vec![]).unwrap_err();
    assert_eq!(err, OngenError::NameNotFound);
    let first = Ongen::new("r", &sjis("name=x"), &otos, None, &vec![]).unwrap();
    let err = Ongen::new("r", &sjis("name=x"), &otos, None, &vec![first.uuid]).unwrap_err();
    assert_eq!(err, OngenError::DuplicateUuid);
    let empty = vec![("d".to_string(), sjis("nothing here"))];
    assert_eq!(Ongen::new("r", &sjis("name=x"), &empty, None, &vec![]).unwrap_err(), OngenError::NoOto);
    let err = Ongen::new("r", &sjis("name=x"), &otos, Some("C4"), &vec![]).unwrap_err();
    assert_eq!(err, OngenError::MalformedPrefixMap);
}

#[test]
fn kana_is_normalised() {
    assert_eq!(kata2hira("カタカナ"), "かたかな");
    assert_eq!(kata2hira("ヴabc"), "ゔabc");
    assert_eq!(fallback(&"お".to_string()), Some("を".to_string()));
    assert_eq!(fallback(&"ぢ".to_string()), Some("じ".to_string()));
    assert_eq!(fallback(&"か".to_string()), None);
}

#[test]
fn connected_spelling_wins() {
    let index = Oto::from_oto_ini(
        "c.wav=a か,1,2,3,4,5\nb.wav=か,1,2,3,4,5\ni.wav=- か,1,2,3,4,5\n",
        "r",
    );
    let e = String::new();
    let r = resolve_alias(&index, &"か".to_string(), &e, &e, &"a".to_string(), &vec![]).unwrap();
    assert_eq!(r.0, "a か");
    let r = resolve_alias(&index, &"か".to_string(), &e, &e, &"o".to_string(), &vec![]).unwrap();
    assert_eq!(r.0, "か");
    let skip = vec!["か".to_string()];
    let r = resolve_alias(&index, &"か".to_string(), &e, &e, &"o".to_string(), &skip).unwrap();
    assert_eq!(r.0, "- か");
    assert_eq!(index.entries[r.1].file, "i.wav");
}

#[test]
fn fallback_kana_is_used() {
    let v = bank(7, "w.wav=を,1,2,3,4,5\n");
    let dash = "-".to_string();
    let r = v.find_oto(&"お".to_string(), MidiNote(60), 0, &dash, &vec![]).unwrap();
    assert_eq!(r.0, "を");
    assert!(v.find_oto(&"か".to_string(), MidiNote(60), 0, &dash, &vec![]).is_none());
    let r = v.find_oto(&"オ".to_string(), MidiNote(60), 0, &dash, &vec![]).unwrap();
    assert_eq!(r.0, "を");
}

#[test]
fn pause_and_small_tsu() {
    let v = bank(7, "r.wav=R,1,2,3,4,5\nt.wav=っ,1,2,3,4,5\n");
    let dash = "-".to_string();
    let r = v.find_oto(&"、".to_string(), MidiNote(60), 0, &dash, &vec![]).unwrap();
    assert_eq!(r.0, "R");
    assert!(v.find_oto(&"っ".to_string(), MidiNote(60), 0, &dash, &vec![]).is_none());
}

#[test]
fn affixes_follow_the_shifted_note() {
    let mut v = bank(7, "a.wav=あ↑,1,2,3,4,5\nb.wav=あ,1,2,3,4,5\n");
    v.prefix_suffix_map = vec![("C5".to_string(), "".to_string(), "↑".to_string())];
    let dash = "-".to_string();
    let r = v.find_oto(&"あ".to_string(), MidiNote(60), 12, &dash, &vec![]).unwrap();
    assert_eq!(r.0, "あ↑");
    let r = v.find_oto(&"あ".to_string(), MidiNote(60), 0, &dash, &vec![]).unwrap();
    assert_eq!(r.0, "あ");
}
