//! The values the HTTP interface exchanges, as plain data.
use vstd::prelude::*;

verus! {

/// The body of every error response.
#[derive(Debug, Clone)]
pub struct ErrorResponse {
    pub error: String,
}

/// Query of `/audio_query` and `/accent_phrases`.
#[derive(Debug, Clone)]
pub struct AudioQueryParams {
    pub text: String,
    pub speaker: u32,
}

/// Query of the requests that re-estimate accent phrases.
#[derive(Debug, Clone, Copy, PartialEq, Eq, Structural)]
pub struct AccentPhraseModifyParams {
    pub speaker: u32,
}

/// Query of `/synthesis`.
#[derive(Debug, Clone, Copy, PartialEq, Eq, Structural)]
pub struct AudioQueryQuery {
    pub speaker: u32,
}

/// The license of one crate the engine is built from.
#[derive(Debug, Clone)]
pub struct License {
    pub name: String,
    pub version: String,
    pub authors: Option<String>,
    pub repository: Option<String>,
    pub license: Option<String>,
    pub license_file: Option<String>,
    pub description: Option<String>,
}

/// A license as the engine manifest lists it.
#[derive(Debug, Clone)]
pub struct DependencyLicense {
    pub name: String,
    pub version: Option<String>,
    pub license: Option<String>,
    pub text: String,
}

/// The changes of one release.
#[derive(Debug, Clone)]
pub struct UpdateInfo {
    pub version: String,
    pub descriptions: Vec<String>,
    pub contributors: Vec<String>,
}

/// What an engine supports, as the manifest says.
#[derive(Debug, Clone, Copy, PartialEq, Eq, Structural)]
pub struct SupportedFeatures {
    pub adjust_mora_pitch: bool,
    pub adjust_phoneme_length: bool,
    pub adjust_speed_scale: bool,
    pub adjust_pitch_scale: bool,
    pub adjust_intonation_scale: bool,
    pub adjust_volume_scale: bool,
    pub interrogative_upspeak: bool,
    pub synthesis_morphing: bool,
    pub manage_library: bool,
    pub return_resource_url: bool,
}

impl SupportedFeatures {
    /// The features of this engine: every adjustment and resource URLs, but
    /// no upspeak, morphing or library management.
    pub fn engine() -> (r: SupportedFeatures)
        ensures
            r.adjust_mora_pitch && r.adjust_phoneme_length && r.adjust_speed_scale
                && r.adjust_pitch_scale && r.adjust_intonation_scale && r.adjust_volume_scale,
            !r.interrogative_upspeak && !r.synthesis_morphing && !r.manage_library,
            r.return_resource_url,
    {
        SupportedFeatures {
            adjust_mora_pitch: true,
            adjust_phoneme_length: true,
            adjust_speed_scale: true,
            adjust_pitch_scale: true,
            adjust_intonation_scale: true,
            adjust_volume_scale: true,
            interrogative_upspeak: false,
            synthesis_morphing: false,
            manage_library: false,
            return_resource_url: true,
        }
    }
}

/// The engine manifest.
#[derive(Debug, Clone)]
pub struct EngineManifest {
    pub manifest_version: String,
    pub name: String,
    pub brand_name: String,
    pub uuid: String,
    pub url: String,
    pub icon: String,
    pub default_sampling_rate: i64,
    pub terms_of_service: String,
    pub update_infos: Vec<UpdateInfo>,
    pub dependency_licenses: Vec<DependencyLicense>,
    pub supported_features: SupportedFeatures,
}

/// The devices synthesis can run on.
#[derive(Debug, Clone, Copy, PartialEq, Eq, Structural)]
pub struct SupportedDeveices {
    pub cpu: bool,
    pub cuda: bool,
    pub dml: bool,
}

impl SupportedDeveices {
    /// Synthesis runs on the CPU only.
    pub fn engine() -> (r: SupportedDeveices)
        ensures
            r.cpu && !r.cuda && !r.dml,
    {
        SupportedDeveices { cpu: true, cuda: false, dml: false }
    }
}

/// One style of a speaker in the speaker list.
#[derive(Debug, Clone)]
pub struct VvStyle {
    pub name: String,
    pub id: u32,
    /// The kind of style; always `talk` here.
    pub style_type: String,
}

/// One speaker in the speaker list.
#[derive(Debug, Clone)]
pub struct VvSpeaker {
    pub name: String,
    pub speaker_uuid: String,
    pub styles: Vec<VvStyle>,
    pub version: String,
}

/// The images of one style: base64 PNG data or URLs.
#[derive(Debug, Clone)]
pub struct VvStyleInfo {
    pub id: u32,
    pub icon: String,
    pub portrait: String,
    pub voice_samples: Vec<String>,
}

/// What `/speaker_info` tells of a speaker.
#[derive(Debug, Clone)]
pub struct VvSpeakerInfo {
    pub policy: String,
    pub portrait: String,
    pub style_infos: Vec<VvStyleInfo>,
}

/// How `/speaker_info` hands out images.
#[derive(Debug, Clone, Copy, PartialEq, Eq, Structural)]
pub enum ResourceFormat {
    /// The PNG data, base64-encoded.
    Base64,
    /// A URL on this engine.
    Url,
}

impl Default for ResourceFormat {
    fn default() -> (r: ResourceFormat)
        ensures
            r == ResourceFormat::Base64,
    {
        ResourceFormat::Base64
    }
}

/// A word of the user dictionary, as the HTTP interface shows it.
#[derive(Debug, Clone)]
pub struct VvUserDictWord {
    pub priority: u32,
    pub accent_type: usize,
    pub mora_count: usize,
    pub surface: String,
    pub pronunciation: String,
    pub part_of_speech_detail_1: String,
}

/// A word to add to the user dictionary.
#[derive(Debug, Clone)]
pub struct VvUserDictWordParam {
    pub priority: u32,
    pub accent_type: usize,
    pub surface: String,
    pub pronunciation: String,
}

/// The errors a request can end in.
#[derive(Debug, Clone, Copy, PartialEq, Eq, Structural)]
pub enum Error {
    GetCharacterFailed,
    CharacterNotFound,
    VoicevoxCoreInitializeFailed,
    InferenceFailed,
    SettingsParseFailed,
    WriteDictionaryFailed,
    ReadImageFailed,
    ReadDictionaryFailed,
    DictionaryOperationFailed,
    AnalyzeFailed,
    SynthesisFailed,
    SpeakerNotFound,
}

/// The message shown for an error.
pub open spec fn error_message(e: Error) -> Seq<char> {
    match e {
        Error::GetCharacterFailed => "キャラクターの取得に失敗しました"@,
        Error::CharacterNotFound => "キャラクターが見つかりませんでした"@,
        Error::VoicevoxCoreInitializeFailed => "Voicevox Coreの初期化に失敗しました"@,
        Error::InferenceFailed => "推論に失敗しました"@,
        Error::SettingsParseFailed => "設定をパースできませんでした"@,
        Error::WriteDictionaryFailed => "辞書を書き込めませんでした"@,
        Error::ReadImageFailed => "画像を読み込めませんでした"@,
        Error::ReadDictionaryFailed => "辞書を読み込めませんでした"@,
        Error::DictionaryOperationFailed => "辞書の操作に失敗しました"@,
        Error::AnalyzeFailed => "解析中にエラーが発生しました"@,
        Error::SynthesisFailed => "音声合成中にエラーが発生しました"@,
        Error::SpeakerNotFound => "話者が見つかりませんでした"@,
    }
}

impl Error {
    /// The message shown for the error.
    pub fn message(&self) -> (r: String)
        ensures
            r@ == error_message(*self),
    {
        let m = match self {
            Error::GetCharacterFailed => "キャラクターの取得に失敗しました",
            Error::CharacterNotFound => "キャラクターが見つかりませんでした",
            Error::VoicevoxCoreInitializeFailed => "Voicevox Coreの初期化に失敗しました",
            Error::InferenceFailed => "推論に失敗しました",
            Error::SettingsParseFailed => "設定をパースできませんでした",
            Error::WriteDictionaryFailed => "辞書を書き込めませんでした",
            Error::ReadImageFailed => "画像を読み込めませんでした",
            Error::ReadDictionaryFailed => "辞書を読み込めませんでした",
            Error::DictionaryOperationFailed => "辞書の操作に失敗しました",
            Error::AnalyzeFailed => "解析中にエラーが発生しました",
            Error::SynthesisFailed => "音声合成中にエラーが発生しました",
            Error::SpeakerNotFound => "話者が見つかりませんでした",
        };
        String::from_str(m)
    }

    /// The body of the error's response.
    pub fn response(&self) -> (r: ErrorResponse)
        ensures
            r.error@ == error_message(*self),
    {
        ErrorResponse { error: self.message() }
    }
}

/// What the manifest says of a dependency's license text: where to read it.
pub open spec fn license_text(l: License) -> Seq<char> {
    match l.repository {
        Some(r) => "<"@ + r@ + "> を参照してください。"@,
        None => "https://crates.io/crates/"@ + l.name@ + " を参照してください。"@,
    }
}

impl DependencyLicense {
    /// The manifest entry of a crate's license.
    pub fn from_license(l: License) -> (r: DependencyLicense)
        ensures
            r.name@ == l.name@,
            r.version == Some(l.version),
            r.license == l.license,
            r.text@ == license_text(l),
    {
        let text = match &l.repository {
            Some(repo) => {
                let mut t = String::from_str("<");
                t.append(repo.as_str());
                t.append("> を参照してください。");
                t
            },
            None => {
                let mut t = String::from_str("https://crates.io/crates/");
                t.append(l.name.as_str());
                t.append(" を参照してください。");
                t
            },
        };
        DependencyLicense { name: l.name.clone(), version: Some(l.version), license: l.license, text }
    }
}

/// The kinds of user dictionary words.
#[derive(Debug, Clone, Copy, PartialEq, Eq, Structural)]
pub enum UserDictWordType {
    CommonNoun,
    ProperNoun,
    Verb,
    Adjective,
    Suffix,
}

/// The kind a part-of-speech name stands for: the five names, the empty
/// name for a proper noun, and a common noun for anything else.
pub open spec fn word_type_of(p: Seq<char>) -> UserDictWordType {
    if p == "一般名詞"@ {
        UserDictWordType::CommonNoun
    } else if p == "固有名詞"@ {
        UserDictWordType::ProperNoun
    } else if p == "動詞"@ {
        UserDictWordType::Verb
    } else if p == "形容詞"@ {
        UserDictWordType::Adjective
    } else if p == "語尾"@ {
        UserDictWordType::Suffix
    } else if p.len() == 0 {
        UserDictWordType::ProperNoun
    } else {
        UserDictWordType::CommonNoun
    }
}

/// The part-of-speech name of a kind.
pub open spec fn part_of_speech_of(t: UserDictWordType) -> Seq<char> {
    match t {
        UserDictWordType::CommonNoun => "一般名詞"@,
        UserDictWordType::ProperNoun => "固有名詞"@,
        UserDictWordType::Verb => "動詞"@,
        UserDictWordType::Adjective => "形容詞"@,
        UserDictWordType::Suffix => "語尾"@,
    }
}

fn same_text(a: &String, b: &str) -> (r: bool)
    ensures
        r == (a@ == b@),
{
    let bs = String::from_str(b);
    *a == bs
}

impl UserDictWordType {
    pub fn from_part_of_speech(p: &String) -> (r: UserDictWordType)
        ensures
            r == word_type_of(p@),
    {
        proof {
            lemma_names_distinct();
        }
        if same_text(p, "一般名詞") {
            UserDictWordType::CommonNoun
        } else if same_text(p, "固有名詞") {
            UserDictWordType::ProperNoun
        } else if same_text(p, "動詞") {
            UserDictWordType::Verb
        } else if same_text(p, "形容詞") {
            UserDictWordType::Adjective
        } else if same_text(p, "語尾") {
            UserDictWordType::Suffix
        } else if p.as_str().unicode_len() == 0 {
            UserDictWordType::ProperNoun
        } else {
            UserDictWordType::CommonNoun
        }
    }

    pub fn part_of_speech(&self) -> (r: String)
        ensures
            r@ == part_of_speech_of(*self),
    {
        let s = match self {
            UserDictWordType::CommonNoun => "一般名詞",
            UserDictWordType::ProperNoun => "固有名詞",
            UserDictWordType::Verb => "動詞",
            UserDictWordType::Adjective => "形容詞",
            UserDictWordType::Suffix => "語尾",
        };
        String::from_str(s)
    }
}

proof fn lemma_names_distinct()
    ensures
        "一般名詞"@ != "固有名詞"@,
        "一般名詞"@ != "動詞"@,
        "一般名詞"@ != "形容詞"@,
        "一般名詞"@ != "語尾"@,
        "固有名詞"@ != "動詞"@,
        "固有名詞"@ != "形容詞"@,
        "固有名詞"@ != "語尾"@,
        "動詞"@ != "形容詞"@,
        "動詞"@ != "語尾"@,
        "形容詞"@ != "語尾"@,
        "一般名詞"@.len() != 0,
        "固有名詞"@.len() != 0,
        "動詞"@.len() != 0,
        "形容詞"@.len() != 0,
        "語尾"@.len() != 0,
{
    reveal_strlit("一般名詞");
    reveal_strlit("固有名詞");
    reveal_strlit("動詞");
    reveal_strlit("形容詞");
    reveal_strlit("語尾");
    assert("一般名詞"@[0] != "固有名詞"@[0]);
    assert("動詞"@[0] != "語尾"@[0]);
}

/// The user dictionary's kinds and names agree both ways.
pub proof fn lemma_word_type_round_trip(t: UserDictWordType)
    ensures
        word_type_of(part_of_speech_of(t)) == t,
{
    lemma_names_distinct();
}

} // verus!
