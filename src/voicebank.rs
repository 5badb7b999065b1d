//! Voicebanks: the metadata of `character.txt`, the note-dependent affixes of
//! `prefix.map`, the alias table of all `oto.ini` files, and the stable UUID
//! and speaker id derived from the character's name.
use vstd::prelude::*;

use crate::oto::{index_lines, OtoIndex};
use crate::settings::{Settings, StyleSettings};
use crate::text::{chars_of, find_char, first_index_of, lines_of, split_lines, string_of_range};

verus! {

broadcast use vstd::string::group_string_axioms;

/// What `SHIFT_JIS` decoding gives for these bytes.
pub uninterp spec fn shift_jis_text(b: Seq<u8>) -> Seq<char>;

/// Relies on encoding_rs's `SHIFT_JIS.decode`: the text it gives depends on
/// the bytes alone.
#[verifier::external_body]
fn decode_shift_jis(b: &[u8]) -> (r: String)
    ensures
        r@ == shift_jis_text(b@),
{
    encoding_rs::SHIFT_JIS.decode(b).0.into_owned()
}

/// The version 5 UUID of a name in the OID namespace, read big-endian.
pub uninterp spec fn uuid_v5_oid_of(name: Seq<char>) -> u128;

/// Relies on uuid's `Uuid::new_v5` over the name's UTF-8 bytes in
/// `Uuid::NAMESPACE_OID`, and on `Uuid::as_u128`, which reads the UUID's
/// bytes big-endian: the result depends on the name alone.
#[verifier::external_body]
fn uuid_v5_oid(name: &str) -> (r: u128)
    ensures
        r == uuid_v5_oid_of(name@),
{
    uuid::Uuid::new_v5(&uuid::Uuid::NAMESPACE_OID, name.as_bytes()).as_u128()
}

/// Why a voicebank was not loaded.
#[derive(Debug, Clone, Copy, PartialEq, Eq, Structural)]
pub enum OngenError {
    /// `character.txt` has no `name`.
    NameNotFound,
    /// A voicebank of the same name is loaded already.
    DuplicateUuid,
    /// No `oto.ini` gave a record.
    NoOto,
    /// A line of `prefix.map` has fewer than three tab-separated fields.
    MalformedPrefixMap,
}

pub open spec fn is_sep(c: char) -> bool {
    c == '=' || c == '：'
}

/// The largest `j` with `lo < j < hi` and `j + 1 < s.len()` where `s[j]` is a
/// separator, or -1.
pub open spec fn last_sep_in(s: Seq<char>, lo: int, hi: int) -> int
    decreases hi - lo,
{
    if hi - 1 <= lo {
        -1
    } else if is_sep(s[hi - 1]) && hi < s.len() {
        hi - 1
    } else {
        last_sep_in(s, lo, hi - 1)
    }
}

/// Where the key starts and where its separator stands, in the first
/// colon-free stretch from `p` on that holds a separator after its first
/// character and before the last character of the line. The key runs to the
/// last such separator of that stretch.
pub open spec fn info_span_from(s: Seq<char>, p: int) -> Option<(int, int)>
    decreases s.len() - p,
{
    if p < 0 || p >= s.len() {
        None
    } else {
        let q = p + first_index_of(s.subrange(p, s.len() as int), ':');
        let j = last_sep_in(s, p, q);
        if j >= 0 {
            Some((p, j))
        } else if p <= q && q < s.len() {
            info_span_from(s, q + 1)
        } else {
            None
        }
    }
}

/// The key and value of a `character.txt` line, `<key>=<value>` or
/// `<key>：<value>`, where the key holds no `:` and neither part is empty.
pub open spec fn info_entry(s: Seq<char>) -> Option<(Seq<char>, Seq<char>)> {
    match info_span_from(s, 0) {
        None => None,
        Some(kj) => Some((s.subrange(kj.0, kj.1), s.subrange(kj.1 + 1, s.len() as int))),
    }
}

/// The metadata of `character.txt`: a later line wins over an earlier one.
pub open spec fn info_of_lines(lines: Seq<Seq<char>>) -> Map<Seq<char>, Seq<char>>
    decreases lines.len(),
{
    if lines.len() == 0 {
        Map::empty()
    } else {
        match info_entry(lines.last()) {
            Some(e) => info_of_lines(lines.drop_last()).insert(e.0, e.1),
            None => info_of_lines(lines.drop_last()),
        }
    }
}

/// The table of key/value pairs read in order, a later pair winning.
pub open spec fn pair_map(a: Seq<(String, String)>) -> Map<Seq<char>, Seq<char>>
    decreases a.len(),
{
    if a.len() == 0 {
        Map::empty()
    } else {
        pair_map(a.drop_last()).insert(a.last().0@, a.last().1@)
    }
}

/// The key, prefix and suffix of a `prefix.map` line: its first three
/// tab-separated fields. A line with fewer has none.
pub open spec fn prefix_entry(s: Seq<char>) -> Option<(Seq<char>, Seq<char>, Seq<char>)> {
    let t1 = first_index_of(s, '\t');
    if t1 >= s.len() {
        None
    } else {
        let r1 = s.subrange(t1 + 1, s.len() as int);
        let t2 = first_index_of(r1, '\t');
        if t2 >= r1.len() {
            None
        } else {
            let r2 = r1.subrange(t2 + 1, r1.len() as int);
            Some((s.subrange(0, t1), r1.subrange(0, t2), r2.subrange(0, first_index_of(r2, '\t'))))
        }
    }
}

/// The affixes of `prefix.map` by note name, a later line winning; `None`
/// where a line is malformed.
pub open spec fn prefix_map_of_lines(lines: Seq<Seq<char>>) -> Option<
    Map<Seq<char>, (Seq<char>, Seq<char>)>,
>
    decreases lines.len(),
{
    if lines.len() == 0 {
        Some(Map::empty())
    } else {
        match (prefix_map_of_lines(lines.drop_last()), prefix_entry(lines.last())) {
            (Some(m), Some(e)) => Some(m.insert(e.0, (e.1, e.2))),
            _ => None,
        }
    }
}

/// The table of affix triples read in order, a later one winning.
pub open spec fn affix_map(a: Seq<(String, String, String)>) -> Map<Seq<char>, (Seq<char>, Seq<char>)>
    decreases a.len(),
{
    if a.len() == 0 {
        Map::empty()
    } else {
        affix_map(a.drop_last()).insert(a.last().0@, (a.last().1@, a.last().2@))
    }
}

/// The last index `j` of `cs[lo+1..hi]` where a separator stands with a
/// character after it, as `last_sep_in`.
fn last_sep(cs: &Vec<char>, lo: usize, hi: usize) -> (r: Option<usize>)
    requires
        lo <= hi <= cs.len(),
    ensures
        match r {
            Some(j) => j as int == last_sep_in(cs@, lo as int, hi as int) && j >= 0,
            None => last_sep_in(cs@, lo as int, hi as int) == -1,
        },
{
    let mut h: usize = hi;
    while h - lo > 1
        invariant
            lo <= h <= hi <= cs.len(),
            last_sep_in(cs@, lo as int, hi as int) == last_sep_in(cs@, lo as int, h as int),
        decreases h,
    {
        let c = cs[h - 1];
        if (c == '=' || c == '：') && h < cs.len() {
            return Some(h - 1);
        }
        h = h - 1;
    }
    None
}

/// Finds the key start and separator of a `character.txt` line.
fn info_span(cs: &Vec<char>) -> (r: Option<(usize, usize)>)
    ensures
        match info_span_from(cs@, 0) {
            Some(kj) => r == Some((kj.0 as usize, kj.1 as usize)) && 0 <= kj.0 < kj.1 < cs.len(),
            None => r is None,
        },
{
    let n = cs.len();
    let mut p: usize = 0;
    while p < n
        invariant
            p <= n == cs.len(),
            info_span_from(cs@, 0) == info_span_from(cs@, p as int),
        decreases n - p,
    {
        let q = p + find_char(cs, ':', p, n);
        proof {
            crate::text::lemma_first_index_bounds(cs@.subrange(p as int, n as int), ':');
        }
        match last_sep(cs, p, q) {
            Some(j) => {
                proof {
                    lemma_last_sep_bounds(cs@, p as int, q as int);
                }
                return Some((p, j));
            },
            None => {
                if q < n {
                    p = q + 1;
                } else {
                    return None;
                }
            },
        }
    }
    None
}

proof fn lemma_last_sep_bounds(s: Seq<char>, lo: int, hi: int)
    requires
        hi <= s.len(),
    ensures
        last_sep_in(s, lo, hi) == -1 || (lo < last_sep_in(s, lo, hi) < hi && last_sep_in(s, lo, hi) + 1
            < s.len()),
    decreases hi - lo,
{
    if hi - 1 > lo && !(is_sep(s[hi - 1]) && hi < s.len()) {
        lemma_last_sep_bounds(s, lo, hi - 1);
    }
}

/// The metadata of a `character.txt` text, in order of its lines.
pub fn parse_character(text: &str) -> (r: Vec<(String, String)>)
    ensures
        pair_map(r@) == info_of_lines(lines_of(text@)),
{
    let lines = split_lines(text);
    let ghost ls = lines@.map_values(|l: String| l@);
    let mut out: Vec<(String, String)> = Vec::new();
    let mut i: usize = 0;
    while i < lines.len()
        invariant
            ls == lines_of(text@),
            ls == lines@.map_values(|l: String| l@),
            i <= lines.len(),
            pair_map(out@) == info_of_lines(ls.subrange(0, i as int)),
        decreases lines.len() - i,
    {
        assert(ls.subrange(0, i + 1).drop_last() =~= ls.subrange(0, i as int));
        assert(ls[i as int] == lines@[i as int]@);
        let cs = chars_of(lines[i].as_str());
        match info_span(&cs) {
            Some((k, j)) => {
                let key = string_of_range(&cs, k, j);
                let value = string_of_range(&cs, j + 1, cs.len());
                let ghost prev = out@;
                out.push((key, value));
                assert(out@.drop_last() =~= prev);
            },
            None => {},
        }
        i = i + 1;
    }
    assert(ls.subrange(0, i as int) =~= ls);
    out
}

/// The affixes of a `prefix.map` text, or `None` where a line is malformed.
pub fn parse_prefix_map(text: &str) -> (r: Option<Vec<(String, String, String)>>)
    ensures
        match prefix_map_of_lines(lines_of(text@)) {
            Some(m) => r is Some && affix_map(r->0@) == m,
            None => r is None,
        },
{
    let lines = split_lines(text);
    let ghost ls = lines@.map_values(|l: String| l@);
    let mut out: Vec<(String, String, String)> = Vec::new();
    let mut i: usize = 0;
    while i < lines.len()
        invariant
            ls == lines_of(text@),
            ls == lines@.map_values(|l: String| l@),
            i <= lines.len(),
            prefix_map_of_lines(ls.subrange(0, i as int)) == Some(affix_map(out@)),
        decreases lines.len() - i,
    {
        assert(ls.subrange(0, i + 1).drop_last() =~= ls.subrange(0, i as int));
        assert(ls[i as int] == lines@[i as int]@);
        let cs = chars_of(lines[i].as_str());
        let ghost s = cs@;
        let n = cs.len();
        let t1 = find_char(&cs, '\t', 0, n);
        assert(cs@.subrange(0, n as int) =~= s);
        if t1 >= n {
            proof {
                lemma_prefix_map_fails(ls, i as int + 1);
            }
            return None;
        }
        let t2 = find_char(&cs, '\t', t1 + 1, n);
        if t1 + 1 + t2 >= n {
            proof {
                lemma_prefix_map_fails(ls, i as int + 1);
            }
            return None;
        }
        let s3 = t1 + 1 + t2 + 1;
        let t3 = find_char(&cs, '\t', s3, n);
        proof {
            let r1 = s.subrange(t1 + 1, s.len() as int);
            assert(r1 =~= cs@.subrange(t1 + 1, n as int));
            let r2 = r1.subrange(t2 + 1, r1.len() as int);
            assert(r2 =~= cs@.subrange(s3 as int, n as int));
            crate::text::lemma_first_index_bounds(r2, '\t');
            assert(r1.subrange(0, t2 as int) =~= s.subrange(t1 + 1, t1 + 1 + t2));
            assert(r2.subrange(0, t3 as int) =~= s.subrange(s3 as int, s3 + t3));
        }
        let key = string_of_range(&cs, 0, t1);
        let prefix = string_of_range(&cs, t1 + 1, t1 + 1 + t2);
        let suffix = string_of_range(&cs, s3, s3 + t3);
        let ghost prev = out@;
        out.push((key, prefix, suffix));
        assert(out@.drop_last() =~= prev);
        i = i + 1;
    }
    assert(ls.subrange(0, i as int) =~= ls);
    Some(out)
}

proof fn lemma_prefix_map_fails(ls: Seq<Seq<char>>, k: int)
    requires
        0 < k <= ls.len(),
        prefix_entry(ls[k - 1]) is None,
    ensures
        prefix_map_of_lines(ls) is None,
    decreases ls.len() - k,
{
    if k == ls.len() {
        assert(ls.drop_last().len() == k - 1);
    } else {
        lemma_prefix_map_fails(ls.drop_last(), k);
    }
}


/// The key that names the character.
pub open spec fn name_key() -> Seq<char> {
    seq!['n', 'a', 'm', 'e']
}

/// What the UUID of a voicebank is derived from: `ongen:` and the name.
pub open spec fn uuid_seed(name: Seq<char>) -> Seq<char> {
    seq!['o', 'n', 'g', 'e', 'n', ':'] + name
}

/// The speaker id of a voicebank's first style: the first 32 bits of its
/// UUID, shifted right by one, with the low byte cleared for the style.
pub open spec fn speaker_base(uuid: u128) -> u32 {
    (((uuid >> 96u128) as u32) >> 1u32) & 0xffff_ff00u32
}

/// The alias table of all `oto.ini` files, read in order, and its record count.
pub open spec fn index_files(files: Seq<(String, Vec<u8>)>) -> (Map<Seq<char>, int>, int)
    decreases files.len(),
{
    if files.len() == 0 {
        (Map::empty(), 0)
    } else {
        let before = index_files(files.drop_last());
        index_lines(before.0, before.1, lines_of(shift_jis_text(files.last().1@)))
    }
}

/// A voicebank.
#[derive(Debug)]
pub struct Ongen {
    pub uuid: u128,
    /// The directory that holds `character.txt`.
    pub root: String,
    /// The metadata of `character.txt`, in order; a later key wins.
    pub info: Vec<(String, String)>,
    /// Note name, prefix and suffix; a later note name wins.
    pub prefix_suffix_map: Vec<(String, String, String)>,
    pub oto: OtoIndex,
}

/// The position of the pair for `key`, the last one where there are several.
fn find_pair(v: &Vec<(String, String)>, key: &String) -> (r: Option<usize>)
    ensures
        match r {
            Some(i) => i < v.len() && pair_map(v@).contains_key(key@) && pair_map(v@)[key@] == v@[i as int].1@,
            None => !pair_map(v@).contains_key(key@),
        },
{
    let mut j: usize = v.len();
    assert(v@.subrange(0, j as int) =~= v@);
    while j > 0
        invariant
            j <= v.len(),
            pair_map(v@).contains_key(key@) <==> pair_map(v@.subrange(0, j as int)).contains_key(key@),
            pair_map(v@.subrange(0, j as int)).contains_key(key@) ==> pair_map(v@)[key@]
                == pair_map(v@.subrange(0, j as int))[key@],
        decreases j,
    {
        assert(v@.subrange(0, j as int).drop_last() =~= v@.subrange(0, j - 1));
        if v[j - 1].0 == *key {
            return Some(j - 1);
        }
        j = j - 1;
    }
    None
}

/// The position of the affixes for `key`, the last ones where there are several.
fn find_affix(v: &Vec<(String, String, String)>, key: &String) -> (r: Option<usize>)
    ensures
        match r {
            Some(i) => i < v.len() && affix_map(v@).contains_key(key@) && affix_map(v@)[key@] == (
                v@[i as int].1@,
                v@[i as int].2@,
            ),
            None => !affix_map(v@).contains_key(key@),
        },
{
    let mut j: usize = v.len();
    assert(v@.subrange(0, j as int) =~= v@);
    while j > 0
        invariant
            j <= v.len(),
            affix_map(v@).contains_key(key@) <==> affix_map(v@.subrange(0, j as int)).contains_key(key@),
            affix_map(v@.subrange(0, j as int)).contains_key(key@) ==> affix_map(v@)[key@]
                == affix_map(v@.subrange(0, j as int))[key@],
        decreases j,
    {
        assert(v@.subrange(0, j as int).drop_last() =~= v@.subrange(0, j - 1));
        if v[j - 1].0 == *key {
            return Some(j - 1);
        }
        j = j - 1;
    }
    None
}

fn name_key_string() -> (r: String)
    ensures
        r@ == name_key(),
{
    let mut cs: Vec<char> = Vec::new();
    cs.push('n');
    cs.push('a');
    cs.push('m');
    cs.push('e');
    assert(cs@ =~= name_key());
    crate::text::string_from_chars(cs)
}

/// The UUID of the voicebank named `name`.
pub fn ongen_uuid(name: &String) -> (r: u128)
    ensures
        r == uuid_v5_oid_of(uuid_seed(name@)),
{
    let mut cs: Vec<char> = Vec::new();
    cs.push('o');
    cs.push('n');
    cs.push('g');
    cs.push('e');
    cs.push('n');
    cs.push(':');
    let mut i: usize = 0;
    let ncs = chars_of(name.as_str());
    while i < ncs.len()
        invariant
            i <= ncs.len(),
            ncs@ == name@,
            cs@ == seq!['o', 'n', 'g', 'e', 'n', ':'] + ncs@.subrange(0, i as int),
        decreases ncs.len() - i,
    {
        cs.push(ncs[i]);
        i = i + 1;
        assert(cs@ =~= seq!['o', 'n', 'g', 'e', 'n', ':'] + ncs@.subrange(0, i as int));
    }
    assert(ncs@.subrange(0, i as int) =~= name@);
    let seed = crate::text::string_from_chars(cs);
    uuid_v5_oid(seed.as_str())
}

/// Whether `v` holds `x`.
fn contains_u128(v: &Vec<u128>, x: u128) -> (r: bool)
    ensures
        r == v@.contains(x),
{
    let mut i: usize = 0;
    while i < v.len()
        invariant
            i <= v.len(),
            forall|k: int| 0 <= k < i ==> v@[k] != x,
        decreases v.len() - i,
    {
        if v[i] == x {
            return true;
        }
        i = i + 1;
    }
    false
}

impl Ongen {
    /// Holds a name and a well-formed alias table.
    pub open spec fn wf(&self) -> bool {
        pair_map(self.info@).contains_key(name_key()) && self.oto.wf()
    }

    /// Builds a voicebank from the files found in `root`: the bytes of
    /// `character.txt`, each `oto.ini` with its directory and bytes (both
    /// `SHIFT_JIS`), and the text of `prefix.map` if there is one. A voicebank
    /// whose UUID is among `existing_uuids` is refused.
    pub fn new(
        root: &str,
        character_txt: &[u8],
        oto_inis: &Vec<(String, Vec<u8>)>,
        prefix_map: Option<&str>,
        existing_uuids: &Vec<u128>,
    ) -> (r: Result<Ongen, OngenError>)
        ensures
            ({
                let info = info_of_lines(lines_of(shift_jis_text(character_txt@)));
                if !info.contains_key(name_key()) {
                    r == Err::<Ongen, OngenError>(OngenError::NameNotFound)
                } else {
                    let uuid = uuid_v5_oid_of(uuid_seed(info[name_key()]));
                    let files = index_files(oto_inis@);
                    if existing_uuids@.contains(uuid) {
                        r == Err::<Ongen, OngenError>(OngenError::DuplicateUuid)
                    } else if files.1 == 0 {
                        r == Err::<Ongen, OngenError>(OngenError::NoOto)
                    } else if prefix_map is Some && prefix_map_of_lines(lines_of(prefix_map->0@))
                        is None {
                        r == Err::<Ongen, OngenError>(OngenError::MalformedPrefixMap)
                    } else {
                        &&& r is Ok
                        &&& r->Ok_0.wf()
                        &&& r->Ok_0.uuid == uuid
                        &&& r->Ok_0.root@ == root@
                        &&& pair_map(r->Ok_0.info@) == info
                        &&& r->Ok_0.oto@ == files.0
                        &&& r->Ok_0.oto.entries.len() == files.1
                        &&& affix_map(r->Ok_0.prefix_suffix_map@) == match prefix_map {
                            Some(t) => prefix_map_of_lines(lines_of(t@))->0,
                            None => Map::empty(),
                        }
                    }
                }
            }),
    {
        let character = decode_shift_jis(character_txt);
        let info = parse_character(character.as_str());
        let key = name_key_string();
        let name_at = match find_pair(&info, &key) {
            Some(i) => i,
            None => return Err(OngenError::NameNotFound),
        };
        let uuid = ongen_uuid(&info[name_at].1);
        if contains_u128(existing_uuids, uuid) {
            return Err(OngenError::DuplicateUuid);
        }
        let mut oto = OtoIndex::new();
        let mut f: usize = 0;
        assert(oto_inis@.subrange(0, 0) =~= Seq::<(String, Vec<u8>)>::empty());
        while f < oto_inis.len()
            invariant
                f <= oto_inis.len(),
                oto.wf(),
                (oto@, oto.entries.len() as int) == index_files(oto_inis@.subrange(0, f as int)),
            decreases oto_inis.len() - f,
        {
            assert(oto_inis@.subrange(0, f + 1).drop_last() =~= oto_inis@.subrange(0, f as int));
            let text = decode_shift_jis(oto_inis[f].1.as_slice());
            oto.add_oto_ini(text.as_str(), oto_inis[f].0.as_str());
            f = f + 1;
        }
        assert(oto_inis@.subrange(0, f as int) =~= oto_inis@);
        if oto.is_empty() {
            return Err(OngenError::NoOto);
        }
        let prefix_suffix_map = match prefix_map {
            Some(t) => match parse_prefix_map(t) {
                Some(m) => m,
                None => return Err(OngenError::MalformedPrefixMap),
            },
            None => {
                let v: Vec<(String, String, String)> = Vec::new();
                assert(affix_map(v@) == Map::<Seq<char>, (Seq<char>, Seq<char>)>::empty());
                v
            },
        };
        Ok(Ongen {
            uuid,
            root: crate::text::string_from_chars(chars_of(root)),
            info,
            prefix_suffix_map,
            oto,
        })
    }

    /// The character's name.
    pub fn name(&self) -> (r: String)
        requires
            self.wf(),
        ensures
            r@ == pair_map(self.info@)[name_key()],
    {
        let key = name_key_string();
        match find_pair(&self.info, &key) {
            Some(i) => self.info[i].1.clone(),
            None => String::new(),
        }
    }

    /// The speaker id of the voicebank's first style.
    pub fn id(&self) -> (r: u32)
        ensures
            r == speaker_base(self.uuid),
    {
        (((self.uuid >> 96u128) as u32) >> 1u32) & 0xffff_ff00u32
    }

    /// The prefix and suffix for aliases sung at the note named `note_name`;
    /// empty where `prefix.map` gives none.
    pub fn affixes(&self, note_name: &String) -> (r: (String, String))
        ensures
            affix_map(self.prefix_suffix_map@).contains_key(note_name@) ==> (r.0@, r.1@) == affix_map(
                self.prefix_suffix_map@,
            )[note_name@],
            !affix_map(self.prefix_suffix_map@).contains_key(note_name@) ==> r.0@.len() == 0
                && r.1@.len() == 0,
    {
        match find_affix(&self.prefix_suffix_map, note_name) {
            Some(i) => (self.prefix_suffix_map[i].1.clone(), self.prefix_suffix_map[i].2.clone()),
            None => (String::new(), String::new()),
        }
    }
}

/// `s` with each `\\` turned into `/`.
pub open spec fn forward_slashes(s: Seq<char>) -> Seq<char> {
    s.map_values(|c: char| if c == '\\' { '/' } else { c })
}

/// `s` without its leading `/`s.
pub open spec fn trim_leading_slashes(s: Seq<char>) -> Seq<char>
    decreases s.len(),
{
    if s.len() > 0 && s[0] == '/' {
        trim_leading_slashes(s.drop_first())
    } else {
        s
    }
}

/// The key that names the character's image.
pub open spec fn image_key() -> Seq<char> {
    seq!['i', 'm', 'a', 'g', 'e']
}

impl Ongen {
    /// Where the character's image is: the `image` entry of `character.txt`
    /// with `/` for `\\`, relative to the voicebank's directory.
    pub fn image_path(&self) -> (r: Option<String>)
        ensures
            match r {
                Some(p) => pair_map(self.info@).contains_key(image_key()) && p@ == self.root@ + seq!['/']
                    + trim_leading_slashes(forward_slashes(pair_map(self.info@)[image_key()])),
                None => !pair_map(self.info@).contains_key(image_key()),
            },
    {
        let mut kc: Vec<char> = Vec::new();
        kc.push('i');
        kc.push('m');
        kc.push('a');
        kc.push('g');
        kc.push('e');
        assert(kc@ =~= image_key());
        let key = crate::text::string_from_chars(kc);
        let at = match find_pair(&self.info, &key) {
            Some(i) => i,
            None => return None,
        };
        let cs = chars_of(self.info[at].1.as_str());
        let ghost fs = forward_slashes(cs@);
        let mut start: usize = 0;
        assert(fs.subrange(0, fs.len() as int) =~= fs);
        while start < cs.len() && (cs[start] == '/' || cs[start] == '\\')
            invariant
                start <= cs.len(),
                fs == forward_slashes(cs@),
                trim_leading_slashes(fs) == trim_leading_slashes(fs.subrange(start as int, fs.len() as int)),
            decreases cs.len() - start,
        {
            let ghost rest = fs.subrange(start as int, fs.len() as int);
            assert(rest.drop_first() =~= fs.subrange(start + 1, fs.len() as int));
            assert(rest[0] == fs[start as int]);
            start = start + 1;
        }
        let mut out = chars_of(self.root.as_str());
        out.push('/');
        let ghost head = out@;
        let mut i: usize = start;
        while i < cs.len()
            invariant
                start <= i <= cs.len(),
                fs == forward_slashes(cs@),
                out@ == head + fs.subrange(start as int, i as int),
            decreases cs.len() - i,
        {
            let c = if cs[i] == '\\' { '/' } else { cs[i] };
            out.push(c);
            i = i + 1;
            assert(out@ =~= head + fs.subrange(start as int, i as int));
        }
        let ghost tail = fs.subrange(start as int, fs.len() as int);
        assert(tail.len() == 0 || tail[0] != '/');
        assert(trim_leading_slashes(tail) == tail);
        assert(fs.subrange(start as int, i as int) =~= tail);
        Some(crate::text::string_from_chars(out))
    }
}

/// The position of the first voicebank whose speaker id is `id`, or the count.
pub open spec fn first_with_id(ongens: Seq<Ongen>, id: u32) -> int
    decreases ongens.len(),
{
    if ongens.len() == 0 {
        0
    } else if speaker_base(ongens[0].uuid) == id {
        0
    } else {
        1 + first_with_id(ongens.drop_first(), id)
    }
}

/// The voicebank and style that a speaker id selects: the first voicebank
/// with the id's upper 24 bits, and the style numbered by its low byte.
pub open spec fn style_lookup(ongens: Seq<Ongen>, settings: Map<u128, crate::settings::OngenSettings>, speaker: u32) -> Option<
    (int, int),
> {
    let i = first_with_id(ongens, speaker & 0xffff_ff00u32);
    let s = (speaker & 0xffu32) as int;
    if i >= ongens.len() {
        None
    } else if !settings.contains_key(ongens[i].uuid) {
        None
    } else if s >= settings[ongens[i].uuid].style_settings.len() {
        None
    } else {
        Some((i, s))
    }
}

proof fn lemma_first_with_id(ongens: Seq<Ongen>, id: u32, k: int)
    requires
        0 <= k <= ongens.len(),
        k < ongens.len() ==> speaker_base(ongens[k].uuid) == id,
        forall|i: int| 0 <= i < k ==> speaker_base(#[trigger] ongens[i].uuid) != id,
    ensures
        first_with_id(ongens, id) == k,
    decreases ongens.len(),
{
    if ongens.len() > 0 && k > 0 {
        assert forall|i: int| 0 <= i < k - 1 implies speaker_base(
            #[trigger] ongens.drop_first()[i].uuid,
        ) != id by {
            assert(ongens.drop_first()[i] == ongens[i + 1]);
        }
        lemma_first_with_id(ongens.drop_first(), id, k - 1);
    }
}

/// The voicebank and style that a speaker id selects.
pub fn get_ongen_style_from_id<'a, 'b>(
    ongens: &'a Vec<Ongen>,
    settings: &'b Settings,
    ongen_id: u32,
) -> (r: Option<(&'a Ongen, &'b StyleSettings)>)
    ensures
        match style_lookup(ongens@, settings.ongen_settings@, ongen_id) {
            None => r is None,
            Some(p) => r is Some && *r->0 .0 == ongens@[p.0] && *r->0 .1
                == settings.ongen_settings@[ongens@[p.0].uuid].style_settings@[p.1],
        },
{
    let base = ongen_id & 0xffff_ff00u32;
    let mut i: usize = 0;
    while i < ongens.len()
        invariant
            i <= ongens.len(),
            forall|k: int| 0 <= k < i ==> speaker_base(#[trigger] ongens@[k].uuid) != base,
        ensures
            i <= ongens.len(),
            i < ongens.len() ==> speaker_base(ongens@[i as int].uuid) == base,
            forall|k: int| 0 <= k < i ==> speaker_base(#[trigger] ongens@[k].uuid) != base,
        decreases ongens.len() - i,
    {
        if ongens[i].id() == base {
            break;
        }
        i = i + 1;
    }
    proof {
        lemma_first_with_id(ongens@, base, i as int);
    }
    if i >= ongens.len() {
        return None;
    }
    let ongen = &ongens[i];
    let ongen_settings = match settings.ongen_settings.get(&ongen.uuid) {
        Some(s) => s,
        None => return None,
    };
    let style_index = (ongen_id & 0xffu32) as usize;
    if style_index >= ongen_settings.style_settings.len() {
        return None;
    }
    Some((ongen, &ongen_settings.style_settings[style_index]))
}

/// A voicebank's speaker id has a clear low byte, and each of its first 256
/// styles, numbered from that id, selects the voicebank again and that style,
/// provided no earlier voicebank has the same id.
pub proof fn lemma_speaker_id_round_trip(
    ongens: Seq<Ongen>,
    settings: Map<u128, crate::settings::OngenSettings>,
    i: int,
    style: u32,
)
    requires
        0 <= i < ongens.len(),
        first_with_id(ongens, speaker_base(ongens[i].uuid)) == i,
        settings.contains_key(ongens[i].uuid),
        style < 256,
        style < settings[ongens[i].uuid].style_settings.len(),
    ensures
        speaker_base(ongens[i].uuid) & 0xffu32 == 0,
        speaker_base(ongens[i].uuid) + style <= u32::MAX,
        style_lookup(ongens, settings, (speaker_base(ongens[i].uuid) + style) as u32) == Some(
            (i, style as int),
        ),
{
    let u = ongens[i].uuid;
    let b = speaker_base(u);
    let top = (u >> 96u128) as u32;
    assert(b == (top >> 1u32) & 0xffff_ff00u32);
    assert(((top >> 1u32) & 0xffff_ff00u32) & 0xffu32 == 0) by (bit_vector);
    assert(((top >> 1u32) & 0xffff_ff00u32) <= 0x7fff_ff00u32) by (bit_vector);
    let x = b + style;
    assert(style < 256u32 ==> ((((top >> 1u32) & 0xffff_ff00u32) + style) as u32) & 0xffff_ff00u32
        == (top >> 1u32) & 0xffff_ff00u32) by (bit_vector);
    assert(style < 256u32 ==> ((((top >> 1u32) & 0xffff_ff00u32) + style) as u32) & 0xffu32 == style)
        by (bit_vector);
}

} // verus!
