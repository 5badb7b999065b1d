//! Per-voicebank style settings and the persisted engine settings.
use std::collections::HashMap;

use vstd::prelude::*;

verus! {

/// Adjustments that one style of a voicebank applies when it sings.
#[derive(Debug, Clone)]
pub struct StyleSettings {
    pub name: String,
    /// A PNG portrait, if the style has its own.
    pub portrait: Option<Vec<u8>>,
    /// A PNG icon, if the style has its own.
    pub icon: Option<Vec<u8>>,
    /// Semitones added to every note.
    pub key_shift: i8,
    /// Sing the raw log-pitch as the frequency, which gives a breathy voice.
    pub whisper: bool,
    pub formant_shift: i8,
    pub breathiness: u8,
    pub tension: i8,
    pub peak_compression: u8,
    pub voicing: u8,
}

/// The name of a style that nobody has renamed.
pub open spec fn default_style_name() -> Seq<char> {
    seq!['ノ', 'ー', 'マ', 'ル']
}

/// The values a style starts with.
pub open spec fn is_default_style(s: StyleSettings) -> bool {
    &&& s.name@ == default_style_name()
    &&& s.portrait is None
    &&& s.icon is None
    &&& s.key_shift == 0
    &&& !s.whisper
    &&& s.formant_shift == 0
    &&& s.breathiness == 0
    &&& s.tension == 0
    &&& s.peak_compression == 86
    &&& s.voicing == 100
}

impl Default for StyleSettings {
    fn default() -> (r: StyleSettings)
        ensures
            is_default_style(r),
    {
        let mut name: Vec<char> = Vec::new();
        name.push('ノ');
        name.push('ー');
        name.push('マ');
        name.push('ル');
        assert(name@ =~= default_style_name());
        StyleSettings {
            name: crate::text::string_from_chars(name),
            portrait: None,
            icon: None,
            key_shift: 0,
            whisper: false,
            formant_shift: 0,
            breathiness: 0,
            tension: 0,
            peak_compression: 86,
            voicing: 100,
        }
    }
}

/// The settings of one voicebank: an optional display name and its styles.
#[derive(Debug, Clone)]
pub struct OngenSettings {
    pub name: Option<String>,
    pub style_settings: Vec<StyleSettings>,
}

impl Default for OngenSettings {
    fn default() -> (r: OngenSettings)
        ensures
            r.name is None,
            r.style_settings.len() == 1,
            is_default_style(r.style_settings[0]),
    {
        let mut styles: Vec<StyleSettings> = Vec::new();
        styles.push(StyleSettings::default());
        OngenSettings { name: None, style_settings: styles }
    }
}

/// The engine settings: where to look for voicebanks, how many to load, and
/// the settings of each voicebank by its UUID.
#[derive(Debug, Clone)]
pub struct Settings {
    pub format_version: u8,
    pub paths: Vec<String>,
    pub ongen_limit: usize,
    pub ongen_settings: HashMap<u128, OngenSettings>,
}

impl Default for Settings {
    fn default() -> (r: Settings)
        ensures
            r.format_version == 1,
            r.paths.len() == 0,
            r.ongen_limit == 10,
            r.ongen_settings@ == Map::<u128, OngenSettings>::empty(),
    {
        Settings {
            format_version: 1,
            paths: Vec::new(),
            ongen_limit: 10,
            ongen_settings: HashMap::new(),
        }
    }
}

/// The settings of the engine variant that drives an external singer.
#[derive(Debug, Clone)]
pub struct V1Settings {
    pub neutrino_path: String,
}


/// Gives each of `uuids` that has no settings yet the default settings.
pub fn add_default_settings(settings: &mut Settings, uuids: &Vec<u128>)
    ensures
        final(settings).format_version == old(settings).format_version,
        final(settings).paths == old(settings).paths,
        final(settings).ongen_limit == old(settings).ongen_limit,
        final(settings).ongen_settings@.dom() == old(settings).ongen_settings@.dom().union(uuids@.to_set()),
        forall|u: u128| #[trigger] old(settings).ongen_settings@.contains_key(u) ==> final(settings).ongen_settings@[u]
            == old(settings).ongen_settings@[u],
        forall|u: u128|
            uuids@.contains(u) && !(#[trigger] old(settings).ongen_settings@.contains_key(u)) ==> {
                let o = final(settings).ongen_settings@[u];
                o.name is None && o.style_settings.len() == 1 && is_default_style(o.style_settings@[0])
            },
{
    let mut i: usize = 0;
    while i < uuids.len()
        invariant
            i <= uuids.len(),
            settings.format_version == old(settings).format_version,
            settings.paths == old(settings).paths,
            settings.ongen_limit == old(settings).ongen_limit,
            settings.ongen_settings@.dom() == old(settings).ongen_settings@.dom().union(
                uuids@.subrange(0, i as int).to_set(),
            ),
            forall|u: u128| #[trigger] old(settings).ongen_settings@.contains_key(u) ==> settings.ongen_settings@[u]
                == old(settings).ongen_settings@[u],
            forall|u: u128|
                uuids@.subrange(0, i as int).contains(u) && !(#[trigger] old(settings).ongen_settings@.contains_key(u))
                    ==> {
                    let o = settings.ongen_settings@[u];
                    o.name is None && o.style_settings.len() == 1 && is_default_style(o.style_settings@[0])
                },
        decreases uuids.len() - i,
    {
        let u = uuids[i];
        let ghost sub = uuids@.subrange(0, i as int);
        let ghost next = uuids@.subrange(0, i + 1);
        assert(next =~= sub.push(u));
        assert(next.to_set() =~= sub.to_set().insert(u)) by {
            assert forall|x: u128| next.to_set().contains(x) <==> sub.to_set().insert(u).contains(x) by {
                if next.contains(x) {
                    let k = choose|k: int| 0 <= k < next.len() && next[k] == x;
                    if k < i {
                        assert(sub[k] == x);
                    }
                }
                if sub.contains(x) {
                    let k = choose|k: int| 0 <= k < sub.len() && sub[k] == x;
                    assert(next[k] == x);
                }
                if x == u {
                    assert(next[i as int] == x);
                }
            }
        }
        if !settings.ongen_settings.contains_key(&u) {
            settings.ongen_settings.insert(u, OngenSettings::default());
        }
        assert forall|x: u128|
            next.contains(x) && !(#[trigger] old(settings).ongen_settings@.contains_key(x)) implies {
                let o = settings.ongen_settings@[x];
                o.name is None && o.style_settings.len() == 1 && is_default_style(o.style_settings@[0])
            } by {
            if x != u {
                let k = choose|k: int| 0 <= k < next.len() && next[k] == x;
                assert(sub[k] == x);
            }
        }
        i = i + 1;
    }
    assert(uuids@.subrange(0, i as int) =~= uuids@);
}

} // verus!
