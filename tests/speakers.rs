use base64::Engine;
use cantari::api::{Error, ResourceFormat, SupportedDeveices, SupportedFeatures};
use cantari::oto::Oto;
use cantari::settings::{OngenSettings, Settings, StyleSettings};
use cantari::speakers::{get_speaker_info, get_speakers, style_image};
use cantari::voicebank::Ongen;

fn bank(uuid: u128) -> Ongen {
    Ongen {
        uuid,
        root: "root".to_string(),
        info: vec![("name".to_string(), "bank".to_string())],
        prefix_suffix_map: vec![],
        oto: Oto::from_oto_ini("a.wav=あ,1,2,3,4,5", "root"),
    }
}

const UUID: u128 = 0xa1b2c3d4_0000_5000_8000_000000000001u128;

fn settings(n: usize) -> Settings {
    let mut s = OngenSettings::default();
    for i in 1..n {
        let mut st = StyleSettings::default();
        st.name = format!("style{}", i);
        if i == 1 {
            st.icon = Some(vec![1, 2, 3]);
        }
        s.style_settings.push(st);
    }
    let mut settings = Settings::default();
    settings.ongen_settings.insert(UUID, s);
    settings
}

#[test]
fn speaker_list() {
    let ongens = vec![bank(UUID)];
    let list = get_speakers(&ongens, &settings(2)).unwrap();
    assert_eq!(list.len(), 1);
    assert_eq!(list[0].name, "bank");
    assert_eq!(list[0].speaker_uuid, "a1b2c3d4-0000-5000-8000-000000000001");
    assert_eq!(list[0].version, "N/A");
    assert_eq!(list[0].styles[0].name, "ノーマル");
    assert_eq!(list[0].styles[1].id, ongens[0].id() + 1);
    assert_eq!(list[0].styles[1].style_type, "talk");
}

#[test]
fn speaker_list_needs_settings() {
    let ongens = vec![bank(UUID), bank(5)];
    assert_eq!(get_speakers(&ongens, &settings(1)).unwrap_err(), Error::CharacterNotFound);
}

#[test]
fn speaker_info_in_base64() {
    let ongens = vec![bank(UUID)];
    let info = get_speaker_info(&ongens, &settings(3), UUID, ResourceFormat::Base64, "h", &vec![9], &vec![8])
        .unwrap();
    let b64 = |b: &[u8]| base64::engine::general_purpose::STANDARD.encode(b);
    assert_eq!(info.portrait, b64(&[8]));
    assert_eq!(info.style_infos.len(), 3);
    assert_eq!(info.style_infos[0].icon, b64(&[9]));
    assert_eq!(info.style_infos[1].icon, b64(&[1, 2, 3]));
    assert_eq!(info.style_infos[2].icon, b64(&[9]));
    assert_eq!(info.style_infos[2].id, ongens[0].id() + 2);
    assert_eq!(info.policy, "元の音源のライセンスに従ってください。");
}

#[test]
fn speaker_info_as_urls() {
    let ongens = vec![bank(UUID)];
    let info = get_speaker_info(&ongens, &settings(300), UUID, ResourceFormat::Url, "127.0.0.1:50202", &vec![], &vec![])
        .unwrap();
    assert_eq!(info.style_infos.len(), 256);
    assert_eq!(
        info.style_infos[12].icon,
        "http://127.0.0.1:50202/speaker_resources/icons/a1b2c3d4-0000-5000-8000-000000000001/12"
    );
    assert_eq!(
        info.portrait,
        "http://127.0.0.1:50202/speaker_resources/portraits/a1b2c3d4-0000-5000-8000-000000000001/0"
    );
}

#[test]
fn speaker_info_unknown() {
    let ongens = vec![bank(UUID)];
    let r = get_speaker_info(&ongens, &settings(1), 42, ResourceFormat::Url, "h", &vec![], &vec![]);
    assert_eq!(r.unwrap_err(), Error::CharacterNotFound);
}

#[test]
fn engine_constants() {
    let f = SupportedFeatures::engine();
    assert!(f.adjust_mora_pitch && f.return_resource_url && !f.synthesis_morphing);
    assert_eq!(SupportedDeveices::engine(), SupportedDeveices { cpu: true, cuda: false, dml: false });
    assert_eq!(Error::SpeakerNotFound.message(), "話者が見つかりませんでした");
    assert_eq!(Error::CharacterNotFound.response().error, "キャラクターが見つかりませんでした");
}

#[test]
fn own_style_images() {
    let ongens = vec![bank(UUID)];
    let s = settings(3);
    assert_eq!(style_image(&ongens, &s, UUID, 1, true).unwrap(), Some(&vec![1u8, 2, 3]));
    assert_eq!(style_image(&ongens, &s, UUID, 1, false).unwrap(), None);
    assert_eq!(style_image(&ongens, &s, UUID, 0, true).unwrap(), None);
    assert_eq!(style_image(&ongens, &s, UUID, 3, true).unwrap_err(), Error::CharacterNotFound);
    assert_eq!(style_image(&ongens, &s, 99, 0, true).unwrap_err(), Error::CharacterNotFound);
}

#[test]
fn character_image_path() {
    let mut v = bank(UUID);
    assert_eq!(v.image_path(), None);
    v.info.push(("image".to_string(), "\\\\img\\icon.bmp".to_string()));
    assert_eq!(v.image_path().as_deref(), Some("root/img/icon.bmp"));
}
