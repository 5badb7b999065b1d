use cantari::api::{DependencyLicense, License, UserDictWordType};
use cantari::encoder::{f0_frames, next_prev_vowel, phrase_start_vowel};
use cantari::settings::{add_default_settings, OngenSettings, Settings};

#[test]
fn f0_frame_layout() {
    let frames = f0_frames(&vec![1.5f64, 2.5, 3.5], &vec![2, 0, 1], 3);
    assert_eq!(frames, vec![1.5, 1.5, 1.5, 1.5, 1.5, 3.5, 3.5, 3.5, 3.5]);
    let one = f0_frames(&vec![7u32], &vec![1], 0);
    assert_eq!(one, vec![7]);
}

#[test]
fn previous_vowel_tracking() {
    let start = phrase_start_vowel();
    assert_eq!(start, "-");
    let v = next_prev_vowel(&start, "A", true);
    assert_eq!(v, "a");
    let w = next_prev_vowel(&v, "I", false);
    assert_eq!(w, "a");
    assert_eq!(next_prev_vowel(&w, "N", true), "n");
}

#[test]
fn defaults_for_new_voicebanks() {
    let mut settings = Settings::default();
    let mut mine = OngenSettings::default();
    mine.name = Some("mine".to_string());
    settings.ongen_settings.insert(1, mine);
    add_default_settings(&mut settings, &vec![1, 2, 2, 3]);
    assert_eq!(settings.ongen_settings.len(), 3);
    assert_eq!(settings.ongen_settings[&1].name.as_deref(), Some("mine"));
    assert!(settings.ongen_settings[&2].name.is_none());
    assert_eq!(settings.ongen_settings[&3].style_settings.len(), 1);
    assert_eq!(settings.ongen_settings[&3].style_settings[0].peak_compression, 86);
    assert_eq!(settings.ongen_limit, 10);
}

fn license(repo: Option<&str>) -> License {
    License {
        name: "serde".to_string(),
        version: "1.0.0".to_string(),
        authors: None,
        repository: repo.map(|r| r.to_string()),
        license: Some("MIT".to_string()),
        license_file: None,
        description: None,
    }
}

#[test]
fn dependency_license_text() {
    let d = DependencyLicense::from_license(license(Some("https://github.com/serde-rs/serde")));
    assert_eq!(d.text, "<https://github.com/serde-rs/serde> を参照してください。");
    assert_eq!(d.version.as_deref(), Some("1.0.0"));
    let d = DependencyLicense::from_license(license(None));
    assert_eq!(d.text, "https://crates.io/crates/serde を参照してください。");
}

#[test]
fn user_dict_word_types() {
    for t in [
        UserDictWordType::CommonNoun,
        UserDictWordType::ProperNoun,
        UserDictWordType::Verb,
        UserDictWordType::Adjective,
        UserDictWordType::Suffix,
    ] {
        assert_eq!(UserDictWordType::from_part_of_speech(&t.part_of_speech()), t);
    }
    assert_eq!(UserDictWordType::from_part_of_speech(&"".to_string()), UserDictWordType::ProperNoun);
    assert_eq!(UserDictWordType::from_part_of_speech(&"副詞".to_string()), UserDictWordType::CommonNoun);
}
