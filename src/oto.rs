//! `oto.ini` records: where in a recorded sample an alias starts, and the
//! index from alias to record.
use vstd::prelude::*;

use crate::text::{
    lines_of, split_lines,
    chars_of, find_char, is_float_in, is_float_text, last_index_of, string_from_chars,
    string_of_range,
};

verus! {

broadcast use vstd::string::group_string_axioms;

/// Why a line of `oto.ini` was not taken.
#[derive(Debug, Clone, Copy, PartialEq, Eq, Structural)]
pub enum OtoError {
    /// The line is not `<file>=<alias>,<offset>,<consonant>,<cut_off>,<preutter>,<overlap>`.
    Malformed,
    /// The file name does not end in `.wav`.
    NotWav,
    /// One of the five timings is not a number.
    BadNumber,
}

/// One record of `oto.ini`. The five timings are in milliseconds and kept as
/// the decimal text of the file, each of which is a valid number.
#[derive(Debug, Clone)]
pub struct Oto {
    /// The directory that holds the `oto.ini` and the samples.
    pub root: String,
    /// The sample's file name, `<stem>.wav`.
    pub file: String,
    /// The file of the sample's pitch analysis, `<stem>_wav.frq`.
    pub frq: String,
    /// The names the record answers to: the stem, and the alias if there is one.
    pub names: Vec<String>,
    pub offset: String,
    pub consonant: String,
    /// Positive: from the start of the sample; negative: back from its end.
    pub cut_off: String,
    pub preutter: String,
    pub overlap: String,
}

/// Splits `k` trailing comma-separated fields, none of them empty or holding a
/// comma, off `s`: what stays before them, and the fields in order.
pub open spec fn peel_fields(s: Seq<char>, k: nat) -> Option<(Seq<char>, Seq<Seq<char>>)>
    decreases k,
{
    if k == 0 {
        Some((s, Seq::empty()))
    } else {
        let j = last_index_of(s, ',');
        if j < 0 || j + 1 >= s.len() {
            None
        } else {
            match peel_fields(s.subrange(0, j), (k - 1) as nat) {
                Some(p) => Some((p.0, p.1.push(s.subrange(j + 1, s.len() as int)))),
                None => None,
            }
        }
    }
}

spec fn peeled_len(p: Option<(Seq<char>, Seq<Seq<char>>)>) -> int {
    match p {
        Some(q) => q.1.len() as int,
        None => 0,
    }
}

proof fn lemma_peel_len(s: Seq<char>, k: nat)
    ensures
        peel_fields(s, k) is Some ==> peeled_len(peel_fields(s, k)) == k,
    decreases k,
{
    if k > 0 {
        let j = last_index_of(s, ',');
        if !(j < 0 || j + 1 >= s.len()) {
            lemma_peel_len(s.subrange(0, j), (k - 1) as nat);
        }
    }
}

/// The five fields at the end of a line that has them.
pub open spec fn line_fields(line: Seq<char>) -> Seq<Seq<char>> {
    match peel_fields(line, 5) {
        Some(p) => p.1,
        None => Seq::empty(),
    }
}

/// The parts of an `oto.ini` line: the file name (before the last `=` that
/// precedes the fields, not empty), the alias (possibly empty) and the five fields.
pub open spec fn oto_line_parts(line: Seq<char>) -> Option<(Seq<char>, Seq<char>, Seq<Seq<char>>)> {
    match peel_fields(line, 5) {
        None => None,
        Some(p) => {
            let head = p.0;
            let e = last_index_of(head, '=');
            if e <= 0 {
                None
            } else {
                Some((head.subrange(0, e), head.subrange(e + 1, head.len() as int), p.1))
            }
        },
    }
}

pub open spec fn wav_suffix() -> Seq<char> {
    seq!['.', 'w', 'a', 'v']
}

pub open spec fn ends_with_wav(f: Seq<char>) -> bool {
    f.len() >= 4 && f.subrange(f.len() - 4, f.len() as int) == wav_suffix()
}

/// `<file>` without its `.wav`.
pub open spec fn wav_stem(f: Seq<char>) -> Seq<char> {
    f.subrange(0, f.len() - 4)
}

pub open spec fn frq_suffix() -> Seq<char> {
    seq!['_', 'w', 'a', 'v', '.', 'f', 'r', 'q']
}

/// The names a record answers to: the stem, then the alias unless it is empty.
pub open spec fn record_names(stem: Seq<char>, alias: Seq<char>) -> Seq<Seq<char>> {
    if alias.len() == 0 {
        seq![stem]
    } else {
        seq![stem, alias]
    }
}

/// What reading one line gives: the error, or that the record holds these parts.
pub open spec fn oto_line_result(line: Seq<char>, root: Seq<char>, r: Result<Oto, OtoError>) -> bool {
    match oto_line_parts(line) {
        None => r == Err::<Oto, OtoError>(OtoError::Malformed),
        Some(p) => {
            let (file, alias, fields) = p;
            if !ends_with_wav(file) {
                r == Err::<Oto, OtoError>(OtoError::NotWav)
            } else if !(forall|i: int| 0 <= i < 5 ==> is_float_text(#[trigger] fields[i])) {
                r == Err::<Oto, OtoError>(OtoError::BadNumber)
            } else {
                match r {
                    Ok(o) => {
                        &&& o.root@ == root
                        &&& o.file@ == file
                        &&& o.frq@ == wav_stem(file) + frq_suffix()
                        &&& o.names@.map_values(|n: String| n@) == record_names(wav_stem(file), alias)
                        &&& o.offset@ == fields[0]
                        &&& o.consonant@ == fields[1]
                        &&& o.cut_off@ == fields[2]
                        &&& o.preutter@ == fields[3]
                        &&& o.overlap@ == fields[4]
                    },
                    Err(_) => false,
                }
            }
        },
    }
}

/// One past the last index of `c` in `cs[0..end]`, or 0 where there is none.
fn last_index_before(cs: &Vec<char>, c: char, end: usize) -> (r: usize)
    requires
        end <= cs.len(),
    ensures
        r as int == last_index_of(cs@.subrange(0, end as int), c) + 1,
        r <= end,
{
    proof {
        crate::text::lemma_last_index_bounds(cs@.subrange(0, end as int), c);
    }
    let mut j: usize = end;
    while j > 0
        invariant
            j <= end <= cs.len(),
            last_index_of(cs@.subrange(0, end as int), c) == last_index_of(cs@.subrange(0, j as int), c),
        decreases j,
    {
        let ghost s = cs@.subrange(0, j as int);
        assert(s.drop_last() =~= cs@.subrange(0, j - 1));
        if cs[j - 1] == c {
            return j;
        }
        j = j - 1;
    }
    0
}

/// Splits `k` fields off `cs[0..end]`: the end of what stays, and the fields.
fn peel(cs: &Vec<char>, end: usize, k: usize) -> (r: Option<(usize, Vec<String>)>)
    requires
        end <= cs.len(),
    ensures
        match peel_fields(cs@.subrange(0, end as int), k as nat) {
            None => r is None,
            Some(p) => match r {
                Some(q) => q.0 <= end && cs@.subrange(0, q.0 as int) == p.0 && q.1@.map_values(
                    |f: String| f@,
                ) == p.1,
                None => false,
            },
        },
    decreases k,
{
    let ghost s = cs@.subrange(0, end as int);
    if k == 0 {
        let v: Vec<String> = Vec::new();
        assert(v@.map_values(|f: String| f@) =~= Seq::<Seq<char>>::empty());
        return Some((end, v));
    }
    let j1 = last_index_before(cs, ',', end);
    if j1 == 0 || j1 >= end {
        return None;
    }
    let j = j1 - 1;
    assert(cs@.subrange(0, j as int) =~= s.subrange(0, j as int));
    match peel(cs, j, k - 1) {
        None => None,
        Some((head_end, mut fields)) => {
            let f = string_of_range(cs, j + 1, end);
            assert(f@ =~= s.subrange(j + 1, s.len() as int));
            let ghost before = fields@.map_values(|x: String| x@);
            fields.push(f);
            assert(fields@.map_values(|x: String| x@) =~= before.push(f@));
            Some((head_end, fields))
        },
    }
}

/// Whether every field is a number.
fn all_float(fields: &Vec<String>) -> (r: bool)
    ensures
        r == forall|k: int| 0 <= k < fields.len() ==> is_float_text(#[trigger] fields@[k]@),
{
    let mut i: usize = 0;
    while i < fields.len()
        invariant
            i <= fields.len(),
            forall|k: int| 0 <= k < i ==> is_float_text(#[trigger] fields@[k]@),
        decreases fields.len() - i,
    {
        let fc = chars_of(fields[i].as_str());
        assert(fc@.subrange(0, fc.len() as int) =~= fc@);
        if !is_float_in(&fc, 0, fc.len()) {
            return false;
        }
        i = i + 1;
    }
    true
}

/// Whether `cs[from..to]` ends in `.wav`.
fn ends_with_wav_in(cs: &Vec<char>, from: usize, to: usize) -> (r: bool)
    requires
        from <= to <= cs.len(),
    ensures
        r == ends_with_wav(cs@.subrange(from as int, to as int)),
{
    let ghost f = cs@.subrange(from as int, to as int);
    if to - from < 4 {
        return false;
    }
    let r = cs[to - 4] == '.' && cs[to - 3] == 'w' && cs[to - 2] == 'a' && cs[to - 1] == 'v';
    assert(r ==> f.subrange(f.len() - 4, f.len() as int) =~= wav_suffix());
    assert(f.subrange(f.len() - 4, f.len() as int) == wav_suffix() ==> {
        &&& f[f.len() - 4] == '.'
        &&& f[f.len() - 3] == 'w'
        &&& f[f.len() - 2] == 'a'
        &&& f[f.len() - 1] == 'v'
    });
    r
}

impl Oto {
    /// Reads one line of `oto.ini` found in the directory `root`.
    pub fn new(line: &str, root: &str) -> (r: Result<Oto, OtoError>)
        ensures
            oto_line_result(line@, root@, r),
    {
        let cs = chars_of(line);
        assert(cs@.subrange(0, cs.len() as int) =~= line@);
        let (head_end, fields) = match peel(&cs, cs.len(), 5) {
            None => return Err(OtoError::Malformed),
            Some(p) => p,
        };
        assert(cs@.subrange(0, cs.len() as int) =~= line@);
        let e1 = last_index_before(&cs, '=', head_end);
        if e1 <= 1 {
            return Err(OtoError::Malformed);
        }
        let e = e1 - 1;
        let ghost head = cs@.subrange(0, head_end as int);
        assert(cs@.subrange(0, e as int) =~= head.subrange(0, e as int));
        assert(peel_fields(line@, 5) is Some);
        assert(peel_fields(line@, 5)->0 .0 == head);
        assert(oto_line_parts(line@) == Some(
            (head.subrange(0, e as int), head.subrange(e + 1, head.len() as int), line_fields(line@)),
        ));
        if !ends_with_wav_in(&cs, 0, e) {
            return Err(OtoError::NotWav);
        }
        proof {
            lemma_peel_len(line@, 5);
            assert(fields@.map_values(|f: String| f@).len() == fields.len());
        }
        if !all_float(&fields) {
            assert(fields@.map_values(|f: String| f@) =~= line_fields(line@));
            assert(!(forall|i: int| 0 <= i < 5 ==> is_float_text(#[trigger] line_fields(line@)[i])))
                by {
                let k = choose|k: int| 0 <= k < fields.len() && !is_float_text(#[trigger] fields@[k]@);
                assert(fields@.map_values(|f: String| f@)[k] == fields@[k]@);
            }
            assert(ends_with_wav(oto_line_parts(line@)->0 .0));
            assert(oto_line_parts(line@)->0 .2 == line_fields(line@));
            return Err(OtoError::BadNumber);
        }
        let ghost fs = line_fields(line@);
        assert forall|k: int| 0 <= k < 5 implies is_float_text(#[trigger] fs[k]) by {
            assert(fields@.map_values(|f: String| f@)[k] == fields@[k]@);
        }
        let file = string_of_range(&cs, 0, e);
        let stem = string_of_range(&cs, 0, e - 4);
        assert(stem@ =~= wav_stem(head.subrange(0, e as int)));
        let alias = string_of_range(&cs, e + 1, head_end);
        assert(alias@ =~= head.subrange(e + 1, head.len() as int));
        let mut frq_chars = chars_of(stem.as_str());
        frq_chars.push('_');
        frq_chars.push('w');
        frq_chars.push('a');
        frq_chars.push('v');
        frq_chars.push('.');
        frq_chars.push('f');
        frq_chars.push('r');
        frq_chars.push('q');
        assert(frq_chars@ =~= wav_stem(head.subrange(0, e as int)) + frq_suffix());
        let frq = string_from_chars(frq_chars);
        let mut names: Vec<String> = Vec::new();
        names.push(stem);
        if alias.as_str().unicode_len() > 0 {
            names.push(alias.clone());
        }
        assert(names@.map_values(|n: String| n@) =~= record_names(
            wav_stem(head.subrange(0, e as int)),
            head.subrange(e + 1, head.len() as int),
        ));
        let mut fields = fields;
        let overlap = fields.pop().unwrap();
        let preutter = fields.pop().unwrap();
        let cut_off = fields.pop().unwrap();
        let consonant = fields.pop().unwrap();
        let offset = fields.pop().unwrap();
        Ok(Oto {
            root: string_from_chars(chars_of(root)),
            file,
            frq,
            names,
            offset,
            consonant,
            cut_off,
            preutter,
            overlap,
        })
    }
}


/// Whether a line gives a record.
pub open spec fn line_accepted(line: Seq<char>) -> bool {
    match oto_line_parts(line) {
        None => false,
        Some(p) => ends_with_wav(p.0) && forall|i: int| 0 <= i < 5 ==> is_float_text(#[trigger] p.2[i]),
    }
}

/// The names of the record an accepted line gives.
pub open spec fn line_names(line: Seq<char>) -> Seq<Seq<char>> {
    match oto_line_parts(line) {
        None => Seq::empty(),
        Some(p) => record_names(wav_stem(p.0), p.1),
    }
}

/// `m` with each of `names` pointing at record `i`.
pub open spec fn insert_names(m: Map<Seq<char>, int>, names: Seq<Seq<char>>, i: int) -> Map<
    Seq<char>,
    int,
>
    decreases names.len(),
{
    if names.len() == 0 {
        m
    } else {
        insert_names(m, names.drop_last(), i).insert(names.last(), i)
    }
}

/// The alias table after the lines are read in order, starting from `m` with
/// `n` records: each accepted line becomes record `n, n + 1, ...` and takes
/// over its names. Gives the table and the new count of records.
pub open spec fn index_lines(m: Map<Seq<char>, int>, n: int, lines: Seq<Seq<char>>) -> (Map<
    Seq<char>,
    int,
>, int)
    decreases lines.len(),
{
    if lines.len() == 0 {
        (m, n)
    } else {
        let before = index_lines(m, n, lines.drop_last());
        let l = lines.last();
        if line_accepted(l) {
            (insert_names(before.0, line_names(l), before.1), before.1 + 1)
        } else {
            before
        }
    }
}

/// The table of pairs read in order, a later pair winning.
pub open spec fn alias_map(a: Seq<(String, usize)>) -> Map<Seq<char>, int>
    decreases a.len(),
{
    if a.len() == 0 {
        Map::empty()
    } else {
        alias_map(a.drop_last()).insert(a.last().0@, a.last().1 as int)
    }
}

/// The records of a voicebank and the table from alias to record.
#[derive(Debug)]
pub struct OtoIndex {
    pub entries: Vec<Oto>,
    pub aliases: Vec<(String, usize)>,
}

impl OtoIndex {
    /// Every alias points at a record.
    pub open spec fn wf(&self) -> bool {
        forall|i: int| 0 <= i < self.aliases.len() ==> (#[trigger] self.aliases@[i]).1 < self.entries.len()
    }

    /// The table from alias to the position of its record.
    pub open spec fn view(&self) -> Map<Seq<char>, int> {
        alias_map(self.aliases@)
    }

    pub fn new() -> (r: OtoIndex)
        ensures
            r.wf(),
            r@ == Map::<Seq<char>, int>::empty(),
            r.entries.len() == 0,
    {
        OtoIndex { entries: Vec::new(), aliases: Vec::new() }
    }

    pub fn len(&self) -> (r: usize)
        ensures
            r == self.entries.len(),
    {
        self.entries.len()
    }

    pub fn is_empty(&self) -> (r: bool)
        ensures
            r == (self.entries.len() == 0),
    {
        self.entries.len() == 0
    }

    /// Adds a record under each of its names.
    pub fn add(&mut self, oto: Oto)
        requires
            old(self).wf(),
        ensures
            final(self).wf(),
            final(self).entries@ == old(self).entries@.push(oto),
            final(self)@ == insert_names(
                old(self)@,
                oto.names@.map_values(|n: String| n@),
                old(self).entries.len() as int,
            ),
    {
        let idx = self.entries.len();
        let mut i: usize = 0;
        while i < oto.names.len()
            invariant
                idx == old(self).entries.len(),
                self.entries@ == old(self).entries@,
                i <= oto.names.len(),
                forall|k: int| 0 <= k < self.aliases.len() ==> (#[trigger] self.aliases@[k]).1 <= idx,
                self@ == insert_names(
                    old(self)@,
                    oto.names@.map_values(|n: String| n@).subrange(0, i as int),
                    idx as int,
                ),
            decreases oto.names.len() - i,
        {
            let ghost names = oto.names@.map_values(|n: String| n@);
            assert(names.subrange(0, i + 1).drop_last() =~= names.subrange(0, i as int));
            let ghost prev = self.aliases@;
            let name = oto.names[i].clone();
            self.aliases.push((name, idx));
            assert(self.aliases@.drop_last() =~= prev);
            assert(names[i as int] == oto.names@[i as int]@);
            i = i + 1;
        }
        assert(oto.names@.map_values(|n: String| n@).subrange(0, i as int) =~= oto.names@.map_values(
            |n: String| n@,
        ));
        self.entries.push(oto);
    }

    /// The position of the record that answers to `alias`.
    pub fn get(&self, alias: &String) -> (r: Option<usize>)
        requires
            self.wf(),
        ensures
            match r {
                Some(i) => self@.contains_key(alias@) && self@[alias@] == i && i < self.entries.len(),
                None => !self@.contains_key(alias@),
            },
    {
        let mut j: usize = self.aliases.len();
        assert(self.aliases@.subrange(0, j as int) =~= self.aliases@);
        while j > 0
            invariant
                j <= self.aliases.len(),
                self.wf(),
                forall|k: int| j <= k < self.aliases.len() ==> (#[trigger] self.aliases@[k]).0@ != alias@,
                self@.contains_key(alias@) <==> alias_map(self.aliases@.subrange(0, j as int)).contains_key(alias@),
                alias_map(self.aliases@.subrange(0, j as int)).contains_key(alias@) ==> self@[alias@]
                    == alias_map(self.aliases@.subrange(0, j as int))[alias@],
            decreases j,
        {
            let ghost a = self.aliases@.subrange(0, j as int);
            assert(a.drop_last() =~= self.aliases@.subrange(0, j - 1));
            if self.aliases[j - 1].0 == *alias {
                return Some(self.aliases[j - 1].1);
            }
            j = j - 1;
        }
        None
    }

    /// Reads the lines of an `oto.ini` found in the directory `root`, adding a
    /// record for each line that gives one.
    pub fn add_oto_ini(&mut self, oto_ini: &str, root: &str)
        requires
            old(self).wf(),
        ensures
            final(self).wf(),
            (final(self)@, final(self).entries.len() as int) == index_lines(
                old(self)@,
                old(self).entries.len() as int,
                lines_of(oto_ini@),
            ),
            forall|k: int| old(self).entries.len() <= k < final(self).entries.len()
                ==> (#[trigger] final(self).entries@[k]).root@ == root@,
    {
        let lines = split_lines(oto_ini);
        let ghost ls = lines@.map_values(|l: String| l@);
        let mut i: usize = 0;
        while i < lines.len()
            invariant
                ls == lines_of(oto_ini@),
                ls == lines@.map_values(|l: String| l@),
                i <= lines.len(),
                self.wf(),
                (self@, self.entries.len() as int) == index_lines(
                    old(self)@,
                    old(self).entries.len() as int,
                    ls.subrange(0, i as int),
                ),
                old(self).entries.len() <= self.entries.len(),
                forall|k: int| old(self).entries.len() <= k < self.entries.len()
                    ==> (#[trigger] self.entries@[k]).root@ == root@,
            decreases lines.len() - i,
        {
            assert(ls.subrange(0, i + 1).drop_last() =~= ls.subrange(0, i as int));
            assert(ls[i as int] == lines@[i as int]@);
            let r = Oto::new(lines[i].as_str(), root);
            match r {
                Ok(oto) => {
                    assert(line_accepted(ls[i as int]));
                    assert(oto.names@.map_values(|n: String| n@) == line_names(ls[i as int]));
                    self.add(oto);
                },
                Err(_) => {
                    assert(!line_accepted(ls[i as int]));
                },
            }
            i = i + 1;
        }
        assert(ls.subrange(0, i as int) =~= ls);
    }
}

impl Oto {
    /// The records of one `oto.ini` found in the directory `root`.
    pub fn from_oto_ini(oto_ini: &str, root: &str) -> (r: OtoIndex)
        ensures
            r.wf(),
            (r@, r.entries.len() as int) == index_lines(
                Map::empty(),
                0,
                lines_of(oto_ini@),
            ),
    {
        let mut index = OtoIndex::new();
        index.add_oto_ini(oto_ini, root);
        index
    }
}

} // verus!
