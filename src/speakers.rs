//! The speaker list and speaker information: each voicebank is a speaker, and
//! each of its styles has the speaker id of the voicebank plus its number.
use base64::Engine;
use vstd::prelude::*;

use crate::api::{Error, ResourceFormat, VvSpeaker, VvSpeakerInfo, VvStyle, VvStyleInfo};
use crate::midi::digit_char;
use crate::settings::{OngenSettings, Settings, StyleSettings};
use crate::text::string_from_chars;
use crate::voicebank::{name_key, pair_map, speaker_base, Ongen};

verus! {

broadcast use vstd::string::group_string_axioms;

/// The hyphenated lower-case text of a UUID.
pub uninterp spec fn uuid_text_of(u: u128) -> Seq<char>;

/// Relies on uuid's `Uuid::from_u128` and on `to_string`, which writes the
/// hyphenated lower-case form: the text depends on the value alone.
#[verifier::external_body]
fn uuid_text(u: u128) -> (r: String)
    ensures
        r@ == uuid_text_of(u),
{
    uuid::Uuid::from_u128(u).to_string()
}

/// The standard, padded base64 text of some bytes.
pub uninterp spec fn base64_of(b: Seq<u8>) -> Seq<char>;

/// Relies on base64's `general_purpose::STANDARD.encode`: the text depends on
/// the bytes alone.
#[verifier::external_body]
fn base64_encode(b: &[u8]) -> (r: String)
    ensures
        r@ == base64_of(b@),
{
    base64::engine::general_purpose::STANDARD.encode(b)
}

/// The decimal digits of `n`.
pub open spec fn decimal(n: nat) -> Seq<char>
    decreases n,
{
    if n < 10 {
        seq![digit_char(n as int)]
    } else {
        decimal(n / 10).push(digit_char((n % 10) as int))
    }
}

fn push_decimal(out: &mut Vec<char>, n: usize)
    ensures
        final(out)@ == old(out)@ + decimal(n as nat),
    decreases n,
{
    if n >= 10 {
        push_decimal(out, n / 10);
    }
    let d = n % 10;
    let c = if d == 0 {
        '0'
    } else if d == 1 {
        '1'
    } else if d == 2 {
        '2'
    } else if d == 3 {
        '3'
    } else if d == 4 {
        '4'
    } else if d == 5 {
        '5'
    } else if d == 6 {
        '6'
    } else if d == 7 {
        '7'
    } else if d == 8 {
        '8'
    } else {
        '9'
    };
    let ghost before = out@;
    out.push(c);
    assert(out@ =~= old(out)@ + decimal(n as nat));
}

/// The speaker list entry of a voicebank with these settings.
pub open spec fn speaker_entry(o: Ongen, st: OngenSettings, v: VvSpeaker) -> bool {
    &&& v.name@ == match st.name {
        Some(n) => n@,
        None => pair_map(o.info@)[name_key()],
    }
    &&& v.speaker_uuid@ == uuid_text_of(o.uuid)
    &&& v.styles.len() == st.style_settings.len()
    &&& forall|i: int|
        0 <= i < v.styles.len() ==> {
            &&& (#[trigger] v.styles@[i]).name@ == st.style_settings@[i].name@
            &&& v.styles@[i].id as int == (speaker_base(o.uuid) as int + i) % 0x1_0000_0000
            &&& v.styles@[i].style_type@ == "talk"@
        }
    &&& v.version@ == "N/A"@
}

/// The styles of a voicebank in the speaker list.
fn style_list(o: &Ongen, st: &OngenSettings) -> (r: Vec<VvStyle>)
    ensures
        r.len() == st.style_settings.len(),
        forall|i: int|
            0 <= i < r.len() ==> {
                &&& (#[trigger] r@[i]).name@ == st.style_settings@[i].name@
                &&& r@[i].id as int == (speaker_base(o.uuid) as int + i) % 0x1_0000_0000
                &&& r@[i].style_type@ == "talk"@
            },
{
    let base = o.id();
    let mut out: Vec<VvStyle> = Vec::new();
    let mut i: usize = 0;
    while i < st.style_settings.len()
        invariant
            base == speaker_base(o.uuid),
            i <= st.style_settings.len(),
            out.len() == i,
            forall|k: int|
                0 <= k < i ==> {
                    &&& (#[trigger] out@[k]).name@ == st.style_settings@[k].name@
                    &&& out@[k].id as int == (base as int + k) % 0x1_0000_0000
                    &&& out@[k].style_type@ == "talk"@
                },
        decreases st.style_settings.len() - i,
    {
        let low: u64 = (i as u64) % 0x1_0000_0000u64;
        let id = ((base as u64 + low) % 0x1_0000_0000u64) as u32;
        proof {
            assert(((base as int) + (i as int % 0x1_0000_0000)) % 0x1_0000_0000 == (base as int + i)
                % 0x1_0000_0000) by (nonlinear_arith);
        }
        out.push(VvStyle {
            name: st.style_settings[i].name.clone(),
            id,
            style_type: String::from_str("talk"),
        });
        i = i + 1;
    }
    out
}

/// The speaker list: one speaker for each voicebank, in order. Every
/// voicebank must have settings.
pub fn get_speakers(ongens: &Vec<Ongen>, settings: &Settings) -> (r: Result<Vec<VvSpeaker>, Error>)
    requires
        forall|k: int| 0 <= k < ongens.len() ==> (#[trigger] ongens@[k]).wf(),
    ensures
        (exists|k: int| 0 <= k < ongens.len() && !settings.ongen_settings@.contains_key(#[trigger] ongens@[k].uuid))
            ==> r == Err::<Vec<VvSpeaker>, Error>(Error::CharacterNotFound),
        (forall|k: int| 0 <= k < ongens.len() ==> settings.ongen_settings@.contains_key(#[trigger] ongens@[k].uuid))
            ==> {
            &&& r is Ok
            &&& r->Ok_0.len() == ongens.len()
            &&& forall|k: int|
                0 <= k < ongens.len() ==> speaker_entry(
                    ongens@[k],
                    settings.ongen_settings@[ongens@[k].uuid],
                    #[trigger] r->Ok_0@[k],
                )
        },
{
    let mut out: Vec<VvSpeaker> = Vec::new();
    let mut k: usize = 0;
    while k < ongens.len()
        invariant
            k <= ongens.len(),
            forall|j: int| 0 <= j < ongens.len() ==> (#[trigger] ongens@[j]).wf(),
            forall|j: int| 0 <= j < k ==> settings.ongen_settings@.contains_key(#[trigger] ongens@[j].uuid),
            out.len() == k,
            forall|j: int|
                0 <= j < k ==> speaker_entry(
                    ongens@[j],
                    settings.ongen_settings@[ongens@[j].uuid],
                    #[trigger] out@[j],
                ),
        decreases ongens.len() - k,
    {
        let o = &ongens[k];
        let st = match settings.ongen_settings.get(&o.uuid) {
            Some(s) => s,
            None => return Err(Error::CharacterNotFound),
        };
        let name = match &st.name {
            Some(n) => n.clone(),
            None => o.name(),
        };
        let v = VvSpeaker {
            name,
            speaker_uuid: uuid_text(o.uuid),
            styles: style_list(o, st),
            version: String::from_str("N/A"),
        };
        out.push(v);
        k = k + 1;
    }
    Ok(out)
}

/// `http://<host>/speaker_resources/<icons|portraits>/<uuid>/<style>`.
pub open spec fn resource_url(host: Seq<char>, icons: bool, uuid: u128, style: nat) -> Seq<char> {
    "http://"@ + host + "/speaker_resources/"@ + (if icons { "icons"@ } else { "portraits"@ }) + "/"@
        + uuid_text_of(uuid) + "/"@ + decimal(style)
}

fn resource_url_string(host: &str, icons: bool, uuid: u128, style: usize) -> (r: String)
    ensures
        r@ == resource_url(host@, icons, uuid, style as nat),
{
    let mut s = String::from_str("http://");
    s.append(host);
    s.append("/speaker_resources/");
    if icons {
        s.append("icons");
    } else {
        s.append("portraits");
    }
    s.append("/");
    s.append(uuid_text(uuid).as_str());
    s.append("/");
    let mut digits: Vec<char> = Vec::new();
    push_decimal(&mut digits, style);
    assert(digits@ =~= decimal(style as nat));
    s.append(string_from_chars(digits).as_str());
    s
}

/// What a speaker-info field holds: in base64 form the style's own image, or
/// the fallback text where it has none; in URL form the URL.
pub open spec fn image_field(format: ResourceFormat, own: Option<Vec<u8>>, fallback: Seq<char>, url: Seq<char>) -> Seq<char> {
    match format {
        ResourceFormat::Base64 => match own {
            Some(b) => base64_of(b@),
            None => fallback,
        },
        ResourceFormat::Url => url,
    }
}

fn image_field_string(format: ResourceFormat, own: &Option<Vec<u8>>, fallback: &String, url: &String) -> (r: String)
    ensures
        r@ == image_field(format, *own, fallback@, url@),
{
    match format {
        ResourceFormat::Base64 => match own {
            Some(b) => base64_encode(b.as_slice()),
            None => fallback.clone(),
        },
        ResourceFormat::Url => url.clone(),
    }
}

/// The policy text of every speaker.
pub open spec fn policy_text() -> Seq<char> {
    "元の音源のライセンスに従ってください。"@
}

/// The position of the first voicebank with this UUID, or the count.
pub open spec fn first_with_uuid(ongens: Seq<Ongen>, uuid: u128) -> int
    decreases ongens.len(),
{
    if ongens.len() == 0 {
        0
    } else if ongens[0].uuid == uuid {
        0
    } else {
        1 + first_with_uuid(ongens.drop_first(), uuid)
    }
}

proof fn lemma_first_with_uuid(ongens: Seq<Ongen>, uuid: u128, k: int)
    requires
        0 <= k <= ongens.len(),
        k < ongens.len() ==> ongens[k].uuid == uuid,
        forall|i: int| 0 <= i < k ==> (#[trigger] ongens[i]).uuid != uuid,
    ensures
        first_with_uuid(ongens, uuid) == k,
    decreases ongens.len(),
{
    if ongens.len() > 0 && k > 0 {
        assert forall|i: int| 0 <= i < k - 1 implies (#[trigger] ongens.drop_first()[i]).uuid != uuid by {
            assert(ongens.drop_first()[i] == ongens[i + 1]);
        }
        lemma_first_with_uuid(ongens.drop_first(), uuid, k - 1);
    }
}

/// The speaker information of the voicebank `uuid` as this engine at `host`
/// gives it. `default_icon` and `default_portrait` stand in for a first style
/// without images of its own: the voicebank's image, else the engine's.
/// Only the first 256 styles are listed.
pub open spec fn speaker_info_of(
    o: Ongen,
    st: OngenSettings,
    format: ResourceFormat,
    host: Seq<char>,
    default_icon: Seq<u8>,
    default_portrait: Seq<u8>,
    v: VvSpeakerInfo,
) -> bool {
    let first = st.style_settings@[0];
    let icon0 = image_field(format, first.icon, base64_of(default_icon), resource_url(host, true, o.uuid, 0));
    let portrait0 = image_field(
        format,
        first.portrait,
        base64_of(default_portrait),
        resource_url(host, false, o.uuid, 0),
    );
    let n = if st.style_settings.len() < 256 { st.style_settings.len() as int } else { 256 };
    &&& v.policy@ == policy_text()
    &&& v.portrait@ == portrait0
    &&& v.style_infos.len() == n
    &&& forall|i: int|
        0 <= i < n ==> {
            let s = st.style_settings@[i];
            &&& (#[trigger] v.style_infos@[i]).id == speaker_base(o.uuid) + i
            &&& v.style_infos@[i].icon@ == image_field(format, s.icon, icon0, resource_url(host, true, o.uuid, i as nat))
            &&& v.style_infos@[i].portrait@ == image_field(format, s.portrait, portrait0, resource_url(host, false, o.uuid, i as nat))
            &&& v.style_infos@[i].voice_samples.len() == 0
        }
}

/// The speaker information of the voicebank `speaker_uuid`. It fails where no
/// voicebank has that UUID, or it has no settings or no style.
pub fn get_speaker_info(
    ongens: &Vec<Ongen>,
    settings: &Settings,
    speaker_uuid: u128,
    format: ResourceFormat,
    host: &str,
    default_icon: &Vec<u8>,
    default_portrait: &Vec<u8>,
) -> (r: Result<VvSpeakerInfo, Error>)
    ensures
        ({
            let i = first_with_uuid(ongens@, speaker_uuid);
            if i >= ongens.len() || !settings.ongen_settings@.contains_key(speaker_uuid)
                || settings.ongen_settings@[speaker_uuid].style_settings.len() == 0 {
                r == Err::<VvSpeakerInfo, Error>(Error::CharacterNotFound)
            } else {
                &&& r is Ok
                &&& speaker_info_of(
                    ongens@[i],
                    settings.ongen_settings@[speaker_uuid],
                    format,
                    host@,
                    default_icon@,
                    default_portrait@,
                    r->Ok_0,
                )
            }
        }),
{
    let mut i: usize = 0;
    while i < ongens.len()
        invariant
            i <= ongens.len(),
            forall|k: int| 0 <= k < i ==> (#[trigger] ongens@[k]).uuid != speaker_uuid,
        ensures
            i <= ongens.len(),
            i < ongens.len() ==> ongens@[i as int].uuid == speaker_uuid,
            forall|k: int| 0 <= k < i ==> (#[trigger] ongens@[k]).uuid != speaker_uuid,
        decreases ongens.len() - i,
    {
        if ongens[i].uuid == speaker_uuid {
            break;
        }
        i = i + 1;
    }
    proof {
        lemma_first_with_uuid(ongens@, speaker_uuid, i as int);
    }
    if i >= ongens.len() {
        return Err(Error::CharacterNotFound);
    }
    let o = &ongens[i];
    let st = match settings.ongen_settings.get(&speaker_uuid) {
        Some(s) => s,
        None => return Err(Error::CharacterNotFound),
    };
    if st.style_settings.len() == 0 {
        return Err(Error::CharacterNotFound);
    }
    let first = &st.style_settings[0];
    let default_icon_text = base64_encode(default_icon.as_slice());
    let default_portrait_text = base64_encode(default_portrait.as_slice());
    let icon0 = image_field_string(
        format,
        &first.icon,
        &default_icon_text,
        &resource_url_string(host, true, o.uuid, 0),
    );
    let portrait0 = image_field_string(
        format,
        &first.portrait,
        &default_portrait_text,
        &resource_url_string(host, false, o.uuid, 0),
    );
    let base = o.id();
    proof {
        let top = (o.uuid >> 96u128) as u32;
        assert(((top >> 1u32) & 0xffff_ff00u32) <= 0x7fff_ff00u32) by (bit_vector);
    }
    let n: usize = if st.style_settings.len() < 256 { st.style_settings.len() } else { 256 };
    let mut infos: Vec<VvStyleInfo> = Vec::new();
    let mut k: usize = 0;
    while k < n
        invariant
            k <= n <= 256,
            n <= st.style_settings.len(),
            base == speaker_base(o.uuid),
            base <= 0x7fff_ff00,
            infos.len() == k,
            forall|j: int|
                0 <= j < k ==> {
                    let s = st.style_settings@[j];
                    &&& (#[trigger] infos@[j]).id == speaker_base(o.uuid) + j
                    &&& infos@[j].icon@ == image_field(format, s.icon, icon0@, resource_url(host@, true, o.uuid, j as nat))
                    &&& infos@[j].portrait@ == image_field(format, s.portrait, portrait0@, resource_url(host@, false, o.uuid, j as nat))
                    &&& infos@[j].voice_samples.len() == 0
                },
        decreases n - k,
    {
        let s = &st.style_settings[k];
        let icon = image_field_string(format, &s.icon, &icon0, &resource_url_string(host, true, o.uuid, k));
        let portrait = image_field_string(
            format,
            &s.portrait,
            &portrait0,
            &resource_url_string(host, false, o.uuid, k),
        );
        infos.push(VvStyleInfo { id: base + k as u32, icon, portrait, voice_samples: Vec::new() });
        k = k + 1;
    }
    Ok(VvSpeakerInfo {
        policy: String::from_str("元の音源のライセンスに従ってください。"),
        portrait: portrait0,
        style_infos: infos,
    })
}

/// The image a style has of its own for `/speaker_resources`: its icon or its
/// portrait, `None` where it has none. It fails where no voicebank has that
/// UUID, or it has no settings or no such style.
pub fn style_image<'b>(
    ongens: &Vec<Ongen>,
    settings: &'b Settings,
    speaker_uuid: u128,
    style: u32,
    icon: bool,
) -> (r: Result<Option<&'b Vec<u8>>, Error>)
    ensures
        ({
            let i = first_with_uuid(ongens@, speaker_uuid);
            if i >= ongens.len() || !settings.ongen_settings@.contains_key(speaker_uuid) || style
                >= settings.ongen_settings@[speaker_uuid].style_settings.len() {
                r == Err::<Option<&Vec<u8>>, Error>(Error::CharacterNotFound)
            } else {
                let s = settings.ongen_settings@[speaker_uuid].style_settings@[style as int];
                let own = if icon { s.icon } else { s.portrait };
                &&& r is Ok
                &&& match own {
                    Some(b) => r->Ok_0 is Some && *r->Ok_0->0 == b,
                    None => r->Ok_0 is None,
                }
            }
        }),
{
    let mut i: usize = 0;
    while i < ongens.len()
        invariant
            i <= ongens.len(),
            forall|k: int| 0 <= k < i ==> (#[trigger] ongens@[k]).uuid != speaker_uuid,
        ensures
            i <= ongens.len(),
            i < ongens.len() ==> ongens@[i as int].uuid == speaker_uuid,
            forall|k: int| 0 <= k < i ==> (#[trigger] ongens@[k]).uuid != speaker_uuid,
        decreases ongens.len() - i,
    {
        if ongens[i].uuid == speaker_uuid {
            break;
        }
        i = i + 1;
    }
    proof {
        lemma_first_with_uuid(ongens@, speaker_uuid, i as int);
    }
    if i >= ongens.len() {
        return Err(Error::CharacterNotFound);
    }
    let st = match settings.ongen_settings.get(&speaker_uuid) {
        Some(s) => s,
        None => return Err(Error::CharacterNotFound),
    };
    if style as usize >= st.style_settings.len() {
        return Err(Error::CharacterNotFound);
    }
    let s = &st.style_settings[style as usize];
    let own = if icon { &s.icon } else { &s.portrait };
    match own {
        Some(b) => Ok(Some(b)),
        None => Ok(None),
    }
}

} // verus!
