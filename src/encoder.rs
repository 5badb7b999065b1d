//! Choosing the recorded sample for a mora: the kana is normalised, the note
//! picks the affixes, and the alias spellings are tried in a fixed order, with
//! one voicing-pair fallback.
use vstd::prelude::*;

use crate::midi::{name_of_note, shifted_note, MidiNote};
use crate::oto::OtoIndex;
use crate::text::{chars_of, string_from_chars};
use crate::voicebank::{affix_map, Ongen};

verus! {

broadcast use vstd::string::group_string_axioms;

/// Relies on `char::from_u32`, which gives the character of every Unicode
/// scalar value.
pub assume_specification[ char::from_u32 ](i: u32) -> (r: Option<char>)
    ensures
        (i <= 0xd7ff || (0xe000 <= i && i <= 0x10ffff)) ==> r == Some(i as char),
;

/// Katakana to hiragana: `ァ` to `ヶ` move down by 0x60; other characters stay.
pub open spec fn hira_char(c: char) -> char {
    if 'ァ' <= c && c <= 'ヶ' {
        ((c as u32) - 0x60) as char
    } else {
        c
    }
}

pub open spec fn hiragana_of(s: Seq<char>) -> Seq<char> {
    s.map_values(|c: char| hira_char(c))
}

/// The kana an alias is spelled with: the pause mark `、` is the rest `R`;
/// anything else is written in hiragana.
pub open spec fn alias_kana(text: Seq<char>) -> Seq<char> {
    if text == seq!['、'] {
        seq!['R']
    } else {
        hiragana_of(text)
    }
}

/// The kana that a missing kana may be sung with instead.
pub open spec fn fallback_kana(k: Seq<char>) -> Option<Seq<char>> {
    if k == seq!['お'] {
        Some(seq!['を'])
    } else if k == seq!['を'] {
        Some(seq!['お'])
    } else if k == seq!['ず'] {
        Some(seq!['づ'])
    } else if k == seq!['づ'] {
        Some(seq!['ず'])
    } else if k == seq!['じ'] {
        Some(seq!['ぢ'])
    } else if k == seq!['ぢ'] {
        Some(seq!['じ'])
    } else {
        None
    }
}

/// The three spellings of an alias, in the order they are tried: connected
/// (`<prefix><previous vowel> <kana><suffix>`), bare (`<prefix><kana><suffix>`)
/// and word-initial (`<prefix>- <kana><suffix>`).
pub open spec fn spellings(k: Seq<char>, prefix: Seq<char>, suffix: Seq<char>, prev_vowel: Seq<char>) -> Seq<
    Seq<char>,
> {
    seq![
        prefix + prev_vowel + seq![' '] + k + suffix,
        prefix + k + suffix,
        prefix + seq!['-', ' '] + k + suffix,
    ]
}

/// All aliases tried for a kana: its spellings, then those of its fallback.
pub open spec fn candidates(k: Seq<char>, prefix: Seq<char>, suffix: Seq<char>, prev_vowel: Seq<char>) -> Seq<
    Seq<char>,
> {
    match fallback_kana(k) {
        Some(f) => spellings(k, prefix, suffix, prev_vowel) + spellings(f, prefix, suffix, prev_vowel),
        None => spellings(k, prefix, suffix, prev_vowel),
    }
}

/// The position of the first candidate that the table holds and that is not
/// among `skip`.
pub open spec fn first_available(cands: Seq<Seq<char>>, table: Map<Seq<char>, int>, skip: Seq<Seq<char>>) -> Option<
    int,
>
    decreases cands.len(),
{
    if cands.len() == 0 {
        None
    } else if table.contains_key(cands[0]) && !skip.contains(cands[0]) {
        Some(0)
    } else {
        match first_available(cands.drop_first(), table, skip) {
            Some(i) => Some(i + 1),
            None => None,
        }
    }
}

/// What resolving an alias gives: the first available candidate and its record.
pub open spec fn resolved(cands: Seq<Seq<char>>, table: Map<Seq<char>, int>, skip: Seq<Seq<char>>, r: Option<(String, usize)>) -> bool {
    match first_available(cands, table, skip) {
        None => r is None,
        Some(i) => match r {
            Some(p) => p.0@ == cands[i] && p.1 == table[cands[i]],
            None => false,
        },
    }
}

/// Katakana to hiragana.
pub fn kata2hira(text: &str) -> (r: String)
    ensures
        r@ == hiragana_of(text@),
{
    let cs = chars_of(text);
    let mut out: Vec<char> = Vec::new();
    let mut i: usize = 0;
    while i < cs.len()
        invariant
            i <= cs.len(),
            out@ == hiragana_of(cs@.subrange(0, i as int)),
        decreases cs.len() - i,
    {
        let c = cs[i];
        let h = if 'ァ' <= c && c <= 'ヶ' {
            let v = (c as u32) - 0x60;
            match char::from_u32(v) {
                Some(h) => h,
                None => c,
            }
        } else {
            c
        };
        out.push(h);
        i = i + 1;
        assert(out@ =~= hiragana_of(cs@.subrange(0, i as int)));
    }
    assert(cs@.subrange(0, i as int) =~= text@);
    string_from_chars(out)
}


/// `a + b` as a new string.
fn concat(a: &String, b: &String) -> (r: String)
    ensures
        r@ == a@ + b@,
{
    let mut out = a.clone();
    out.append(b.as_str());
    out
}

fn string_of1(a: char) -> (r: String)
    ensures
        r@ == seq![a],
{
    let mut v: Vec<char> = Vec::new();
    v.push(a);
    assert(v@ =~= seq![a]);
    string_from_chars(v)
}

fn string_of2(a: char, b: char) -> (r: String)
    ensures
        r@ == seq![a, b],
{
    let mut v: Vec<char> = Vec::new();
    v.push(a);
    v.push(b);
    assert(v@ =~= seq![a, b]);
    string_from_chars(v)
}

/// The three spellings of an alias, in the order they are tried.
pub fn alias_spellings(kana: &String, prefix: &String, suffix: &String, prev_vowel: &String) -> (r: Vec<String>)
    ensures
        r@.map_values(|a: String| a@) == spellings(kana@, prefix@, suffix@, prev_vowel@),
{
    let space = string_of1(' ');
    let dash = string_of2('-', ' ');
    let connected = concat(&concat(&concat(&concat(prefix, prev_vowel), &space), kana), suffix);
    let bare = concat(&concat(prefix, kana), suffix);
    let initial = concat(&concat(&concat(prefix, &dash), kana), suffix);
    let mut r: Vec<String> = Vec::new();
    r.push(connected);
    r.push(bare);
    r.push(initial);
    assert(r@.map_values(|a: String| a@) =~= spellings(kana@, prefix@, suffix@, prev_vowel@));
    r
}

/// Whether `s` is the one character `c`.
fn is_char(s: &String, c: char) -> (r: bool)
    ensures
        r == (s@ == seq![c]),
{
    let cs = chars_of(s.as_str());
    let r = cs.len() == 1 && cs[0] == c;
    assert(r ==> cs@ =~= seq![c]);
    r
}

/// The kana that a missing kana may be sung with instead.
pub fn fallback(kana: &String) -> (r: Option<String>)
    ensures
        match fallback_kana(kana@) {
            Some(f) => r is Some && r->0@ == f,
            None => r is None,
        },
{
    if is_char(kana, 'お') {
        Some(string_of1('を'))
    } else if is_char(kana, 'を') {
        Some(string_of1('お'))
    } else if is_char(kana, 'ず') {
        Some(string_of1('づ'))
    } else if is_char(kana, 'づ') {
        Some(string_of1('ず'))
    } else if is_char(kana, 'じ') {
        Some(string_of1('ぢ'))
    } else if is_char(kana, 'ぢ') {
        Some(string_of1('じ'))
    } else {
        None
    }
}

/// Whether `skip` holds `a`.
fn contains_string(skip: &Vec<String>, a: &String) -> (r: bool)
    ensures
        r == skip@.map_values(|s: String| s@).contains(a@),
{
    let ghost sk = skip@.map_values(|s: String| s@);
    let mut i: usize = 0;
    while i < skip.len()
        invariant
            i <= skip.len(),
            sk == skip@.map_values(|s: String| s@),
            forall|k: int| 0 <= k < i ==> sk[k] != a@,
        decreases skip.len() - i,
    {
        if skip[i] == *a {
            assert(sk[i as int] == a@);
            return true;
        }
        i = i + 1;
    }
    false
}

proof fn lemma_first_available_append(a: Seq<Seq<char>>, b: Seq<Seq<char>>, table: Map<Seq<char>, int>, skip: Seq<Seq<char>>)
    ensures
        first_available(a + b, table, skip) == match first_available(a, table, skip) {
            Some(i) => Some(i),
            None => match first_available(b, table, skip) {
                Some(j) => Some(j + a.len()),
                None => None,
            },
        },
    decreases a.len(),
{
    if a.len() == 0 {
        assert(a + b =~= b);
    } else {
        assert((a + b).drop_first() =~= a.drop_first() + b);
        assert((a + b)[0] == a[0]);
        lemma_first_available_append(a.drop_first(), b, table, skip);
    }
}

/// The first of `cands[from..]` that the table holds and that is not skipped.
fn first_in(index: &OtoIndex, cands: &Vec<String>, skip: &Vec<String>) -> (r: Option<(String, usize)>)
    requires
        index.wf(),
    ensures
        resolved(cands@.map_values(|a: String| a@), index@, skip@.map_values(|s: String| s@), r),
        r is Some ==> r->0 .1 < index.entries.len(),
{
    let ghost cs = cands@.map_values(|a: String| a@);
    let ghost sk = skip@.map_values(|s: String| s@);
    let mut i: usize = 0;
    assert(cs.subrange(0, cs.len() as int) =~= cs);
    while i < cands.len()
        invariant
            index.wf(),
            i <= cands.len(),
            cs == cands@.map_values(|a: String| a@),
            sk == skip@.map_values(|s: String| s@),
            first_available(cs, index@, sk) == match first_available(cs.subrange(i as int, cs.len() as int), index@, sk) {
                Some(j) => Some(j + i),
                None => None,
            },
        decreases cands.len() - i,
    {
        let ghost rest = cs.subrange(i as int, cs.len() as int);
        assert(rest.drop_first() =~= cs.subrange(i + 1, cs.len() as int));
        assert(rest[0] == cands@[i as int]@);
        match index.get(&cands[i]) {
            Some(e) => {
                if !contains_string(skip, &cands[i]) {
                    return Some((cands[i].clone(), e));
                }
            },
            None => {},
        }
        i = i + 1;
    }
    None
}

/// The alias and record that a kana resolves to: the first of its candidate
/// spellings, then those of its fallback, that the table holds and that is
/// not among `skip` (aliases whose sample could not be read).
pub fn resolve_alias(
    index: &OtoIndex,
    kana: &String,
    prefix: &String,
    suffix: &String,
    prev_vowel: &String,
    skip: &Vec<String>,
) -> (r: Option<(String, usize)>)
    requires
        index.wf(),
    ensures
        resolved(candidates(kana@, prefix@, suffix@, prev_vowel@), index@, skip@.map_values(|s: String| s@), r),
        r is Some ==> r->0 .1 < index.entries.len(),
{
    let mut cands = alias_spellings(kana, prefix, suffix, prev_vowel);
    match fallback(kana) {
        Some(f) => {
            let ghost before = cands@.map_values(|a: String| a@);
            let mut more = alias_spellings(&f, prefix, suffix, prev_vowel);
            let ghost extra = more@.map_values(|a: String| a@);
            cands.append(&mut more);
            assert(cands@.map_values(|a: String| a@) =~= before + extra);
        },
        None => {},
    }
    first_in(index, &cands, skip)
}

/// Which connected, bare and word-initial spellings win: with no alias
/// skipped, the connected spelling wins wherever the table holds it, then the
/// bare one, then the word-initial one.
pub proof fn lemma_alias_order(
    k: Seq<char>,
    prefix: Seq<char>,
    suffix: Seq<char>,
    prev_vowel: Seq<char>,
    table: Map<Seq<char>, int>,
)
    ensures
        ({
            let sp = spellings(k, prefix, suffix, prev_vowel);
            let c = candidates(k, prefix, suffix, prev_vowel);
            let none = Seq::<Seq<char>>::empty();
            &&& table.contains_key(sp[0]) ==> first_available(c, table, none) == Some(0int)
            &&& !table.contains_key(sp[0]) && table.contains_key(sp[1]) ==> first_available(
                c,
                table,
                none,
            ) == Some(1int)
            &&& !table.contains_key(sp[0]) && !table.contains_key(sp[1]) && table.contains_key(sp[2])
                ==> first_available(c, table, none) == Some(2int)
        }),
{
    let sp = spellings(k, prefix, suffix, prev_vowel);
    let none = Seq::<Seq<char>>::empty();
    let c = candidates(k, prefix, suffix, prev_vowel);
    match fallback_kana(k) {
        Some(f) => {
            lemma_first_available_append(sp, spellings(f, prefix, suffix, prev_vowel), table, none);
        },
        None => {},
    }
    assert(!none.contains(sp[0]));
    assert(!none.contains(sp[1]));
    assert(!none.contains(sp[2]));
    assert(sp.drop_first()[0] == sp[1]);
    assert(sp.drop_first().drop_first()[0] == sp[2]);
    reveal_with_fuel(first_available, 4);
}

/// What resolving a mora gives for this voicebank: `None` for the small `っ`;
/// otherwise the candidates of its kana with the affixes of its note.
pub open spec fn mora_resolved(ongen: Ongen, text: Seq<char>, note: u8, key_shift: i8, prev_vowel: Seq<char>, skip: Seq<Seq<char>>, r: Option<(String, usize)>) -> bool {
    let k = alias_kana(text);
    let n = name_of_note(shifted_note(note, key_shift));
    let m = affix_map(ongen.prefix_suffix_map@);
    let (p, s) = if m.contains_key(n) { m[n] } else { (Seq::<char>::empty(), Seq::<char>::empty()) };
    if k == seq!['っ'] {
        r is None
    } else {
        resolved(candidates(k, p, s, prev_vowel), ongen.oto@, skip, r)
    }
}

impl Ongen {
    /// The alias and record for a mora with kana `text`, sung at `note` moved
    /// by the style's `key_shift`, after a mora with vowel `prev_vowel`
    /// (`-` at the start of a phrase). Aliases in `skip` are passed over.
    pub fn find_oto(
        &self,
        text: &String,
        note: MidiNote,
        key_shift: i8,
        prev_vowel: &String,
        skip: &Vec<String>,
    ) -> (r: Option<(String, usize)>)
        requires
            self.wf(),
        ensures
            mora_resolved(*self, text@, note.0, key_shift, prev_vowel@, skip@.map_values(|s: String| s@), r),
            r is Some ==> r->0 .1 < self.oto.entries.len(),
    {
        let kana = if is_char(text, '、') {
            string_of1('R')
        } else {
            kata2hira(text.as_str())
        };
        if is_char(&kana, 'っ') {
            return None;
        }
        let shifted = note.shifted(key_shift);
        let name = shifted.to_string();
        let (prefix, suffix) = self.affixes(&name);
        resolve_alias(&self.oto, &kana, &prefix, &suffix, prev_vowel, skip)
    }
}


/// What `str::to_lowercase` gives for a text.
pub uninterp spec fn lower_of(s: Seq<char>) -> Seq<char>;

/// Relies on `str::to_lowercase`: the result depends on the characters alone.
#[verifier::external_body]
fn lowercase(s: &str) -> (r: String)
    ensures
        r@ == lower_of(s@),
{
    s.to_lowercase()
}

/// The vowel the next mora's connected spelling starts from: the lower-case
/// vowel of a mora that found a sample; unchanged after one that did not.
pub fn next_prev_vowel(prev_vowel: &String, vowel: &str, found: bool) -> (r: String)
    ensures
        found ==> r@ == lower_of(vowel@),
        !found ==> r@ == prev_vowel@,
{
    if found {
        lowercase(vowel)
    } else {
        prev_vowel.clone()
    }
}

/// The vowel before the first mora of a phrase.
pub fn phrase_start_vowel() -> (r: String)
    ensures
        r@ == seq!['-'],
{
    string_of1('-')
}

/// `v` repeated `n` times.
pub open spec fn repeat<T>(v: T, n: nat) -> Seq<T> {
    Seq::new(n, |i: int| v)
}

/// The frames of the phrase's f0 curve: `counts[i]` frames of `values[i]`
/// for each mora, with `pad` frames of the first value before them and `pad`
/// of the last after them.
pub open spec fn frames_of<T>(values: Seq<T>, counts: Seq<usize>, pad: nat) -> Seq<T>
    recommends
        values.len() == counts.len() && values.len() > 0,
{
    repeat(values[0], pad) + Seq::new(values.len(), |i: int| repeat(values[i], counts[i] as nat)).flatten()
        + repeat(values.last(), pad)
}

fn push_repeated<T: Copy>(out: &mut Vec<T>, v: T, n: usize)
    ensures
        final(out)@ == old(out)@ + repeat(v, n as nat),
{
    let mut i: usize = 0;
    while i < n
        invariant
            i <= n,
            out@ == old(out)@ + repeat(v, i as nat),
        decreases n - i,
    {
        out.push(v);
        i = i + 1;
        assert(out@ =~= old(out)@ + repeat(v, i as nat));
    }
}

/// Lays out the frames of a phrase's f0 curve.
pub fn f0_frames<T: Copy>(values: &Vec<T>, counts: &Vec<usize>, pad: usize) -> (r: Vec<T>)
    requires
        values.len() == counts.len(),
        values.len() > 0,
    ensures
        r@ == frames_of(values@, counts@, pad as nat),
{
    let mut out: Vec<T> = Vec::new();
    push_repeated(&mut out, values[0], pad);
    let ghost head = out@;
    let ghost parts = Seq::new(values.len() as nat, |i: int| repeat(values@[i], counts@[i] as nat));
    let mut i: usize = 0;
    while i < values.len()
        invariant
            values.len() == counts.len(),
            i <= values.len(),
            parts == Seq::new(values.len() as nat, |i: int| repeat(values@[i], counts@[i] as nat)),
            out@ == head + parts.subrange(0, i as int).flatten(),
        decreases values.len() - i,
    {
        let ghost before = out@;
        push_repeated(&mut out, values[i], counts[i]);
        proof {
            let p = parts.subrange(0, i + 1);
            assert(p.drop_last() =~= parts.subrange(0, i as int));
            p.drop_last().lemma_flatten_push(p.last());
            assert(p =~= p.drop_last().push(p.last()));
            assert(p.last() == repeat(values@[i as int], counts@[i as int] as nat));
        }
        i = i + 1;
        assert(out@ =~= head + parts.subrange(0, i as int).flatten());
    }
    assert(parts.subrange(0, i as int) =~= parts);
    let last = values[values.len() - 1];
    push_repeated(&mut out, last, pad);
    out
}

} // verus!
