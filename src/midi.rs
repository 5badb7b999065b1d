//! MIDI note numbers and their scientific-pitch names (`A4` is 69).
use vstd::prelude::*;

use crate::text::{chars_of, i32_of, parse_i32, string_from_chars};

verus! {

/// The lowest note a mora is sung at (`C1`).
pub const LOWEST_NOTE: u8 = 24;

/// The highest note a mora is sung at (`B7`).
pub const HIGHEST_NOTE: u8 = 107;

/// A MIDI note number.
#[derive(Debug, Clone, Copy, PartialEq, Eq, Structural)]
pub struct MidiNote(pub u8);

/// The semitone of a note letter within its octave.
pub open spec fn letter_semitone(c: char) -> Option<int> {
    if c == 'C' {
        Some(0)
    } else if c == 'D' {
        Some(2)
    } else if c == 'E' {
        Some(4)
    } else if c == 'F' {
        Some(5)
    } else if c == 'G' {
        Some(7)
    } else if c == 'A' {
        Some(9)
    } else if c == 'B' {
        Some(11)
    } else {
        None
    }
}

/// The note number a name stands for: a letter, then `#` (a semitone up) or
/// `b` (a semitone down) if the name holds one, then a signed octave number
/// within `i32`. Octave `o` starts at note `(o + 1) * 12`; the number is
/// taken modulo 256.
pub open spec fn note_of_name(s: Seq<char>) -> Option<u8> {
    if s.len() < 2 {
        None
    } else {
        match letter_semitone(s[0]) {
            None => None,
            Some(base) => {
                let sharp = s.contains('#');
                let flat = !sharp && s.contains('b');
                let semitone = if sharp {
                    (base + 1) % 12
                } else if flat {
                    base - 1
                } else {
                    base
                };
                let rest = if sharp || flat {
                    s.subrange(2, s.len() as int)
                } else {
                    s.subrange(1, s.len() as int)
                };
                match i32_of(rest) {
                    None => None,
                    Some(octave) => Some((((octave + 1) * 12 + semitone) % 256) as u8),
                }
            },
        }
    }
}

/// The name of a pitch class, with sharps.
pub open spec fn pitch_class_name(pc: int) -> Seq<char> {
    if pc == 0 {
        seq!['C']
    } else if pc == 1 {
        seq!['C', '#']
    } else if pc == 2 {
        seq!['D']
    } else if pc == 3 {
        seq!['D', '#']
    } else if pc == 4 {
        seq!['E']
    } else if pc == 5 {
        seq!['F']
    } else if pc == 6 {
        seq!['F', '#']
    } else if pc == 7 {
        seq!['G']
    } else if pc == 8 {
        seq!['G', '#']
    } else if pc == 9 {
        seq!['A']
    } else if pc == 10 {
        seq!['A', '#']
    } else {
        seq!['B']
    }
}

/// The character of a decimal digit.
pub open spec fn digit_char(d: int) -> char {
    if d == 0 {
        '0'
    } else if d == 1 {
        '1'
    } else if d == 2 {
        '2'
    } else if d == 3 {
        '3'
    } else if d == 4 {
        '4'
    } else if d == 5 {
        '5'
    } else if d == 6 {
        '6'
    } else if d == 7 {
        '7'
    } else if d == 8 {
        '8'
    } else {
        '9'
    }
}

/// The name of note `n` (at least 12): pitch class, then the octave
/// `n / 12 - 1`, a single digit for every note up to 127.
pub open spec fn name_of_note(n: u8) -> Seq<char> {
    pitch_class_name(n as int % 12).push(digit_char(n as int / 12 - 1))
}

/// `clamp(note + shift, C1, B7)`.
pub open spec fn shifted_note(note: u8, shift: i8) -> u8 {
    let v = note as int + shift as int;
    if v < LOWEST_NOTE {
        LOWEST_NOTE
    } else if v > HIGHEST_NOTE {
        HIGHEST_NOTE
    } else {
        v as u8
    }
}

impl MidiNote {
    pub fn from_midi_number(midi_number: u8) -> (r: MidiNote)
        ensures
            r.0 == midi_number,
    {
        MidiNote(midi_number)
    }

    pub fn to_midi_number(self) -> (r: u8)
        ensures
            r == self.0,
    {
        self.0
    }

    /// Parses a note name such as `A4`, `A#4` or `Bb4`.
    pub fn from_str(s: &str) -> (r: Result<MidiNote, ()>)
        ensures
            match note_of_name(s@) {
                Some(n) => r == Ok::<MidiNote, ()>(MidiNote(n)),
                None => r is Err,
            },
    {
        let cs = chars_of(s);
        if cs.len() < 2 {
            return Err(());
        }
        let base: i64 = match letter_value(cs[0]) {
            Some(b) => b,
            None => return Err(()),
        };
        let sharp = contains_char(&cs, '#');
        let flat = !sharp && contains_char(&cs, 'b');
        let semitone: i64 = if sharp {
            (base + 1) % 12
        } else if flat {
            base - 1
        } else {
            base
        };
        let rest_start: usize = if sharp || flat { 2 } else { 1 };
        match parse_i32(&cs, rest_start) {
            None => Err(()),
            Some(octave) => {
                let v: i64 = (octave as i64 + 1) * 12 + semitone;
                Ok(MidiNote(wrap_note(v)))
            },
        }
    }

    /// The note's name, such as `A4` or `C#5`.
    pub fn to_string(&self) -> (r: String)
        requires
            self.0 >= 12,
        ensures
            r@ == name_of_note(self.0),
    {
        let pc = self.0 % 12;
        let mut out: Vec<char> = Vec::new();
        let letter = if pc == 0 || pc == 1 {
            'C'
        } else if pc == 2 || pc == 3 {
            'D'
        } else if pc == 4 {
            'E'
        } else if pc == 5 || pc == 6 {
            'F'
        } else if pc == 7 || pc == 8 {
            'G'
        } else if pc == 9 || pc == 10 {
            'A'
        } else {
            'B'
        };
        out.push(letter);
        if pc == 1 || pc == 3 || pc == 6 || pc == 8 || pc == 10 {
            out.push('#');
        }
        let octave = self.0 / 12 - 1;
        let d = if octave == 0 {
            '0'
        } else if octave == 1 {
            '1'
        } else if octave == 2 {
            '2'
        } else if octave == 3 {
            '3'
        } else if octave == 4 {
            '4'
        } else if octave == 5 {
            '5'
        } else if octave == 6 {
            '6'
        } else if octave == 7 {
            '7'
        } else if octave == 8 {
            '8'
        } else {
            '9'
        };
        out.push(d);
        assert(out@ =~= name_of_note(self.0));
        string_from_chars(out)
    }

    /// The note moved by `key_shift` semitones and kept within `C1..=B7`.
    pub fn shifted(self, key_shift: i8) -> (r: MidiNote)
        ensures
            r.0 == shifted_note(self.0, key_shift),
    {
        let v: i16 = self.0 as i16 + key_shift as i16;
        if v < LOWEST_NOTE as i16 {
            MidiNote(LOWEST_NOTE)
        } else if v > HIGHEST_NOTE as i16 {
            MidiNote(HIGHEST_NOTE)
        } else {
            MidiNote(v as u8)
        }
    }
}

/// Naming a note and reading the name back gives the same note, for every
/// note from `C0` (12) to `G9` (127).
pub proof fn lemma_name_round_trip(n: u8)
    requires
        12 <= n <= 127,
    ensures
        note_of_name(name_of_note(n)) == Some(n),
{
    let pc = n as int % 12;
    let o = n as int / 12 - 1;
    let s = name_of_note(n);
    let p = pitch_class_name(pc);
    assert(0 <= o <= 9);
    let d = seq![digit_char(o)];
    lemma_digit_char(o);
    let sharp = pc == 1 || pc == 3 || pc == 6 || pc == 8 || pc == 10;
    if sharp {
        assert(s[1] == '#');
        assert(s.contains('#'));
        assert(s.subrange(2, s.len() as int) =~= d);
    } else {
        assert(p.len() == 1);
        assert(s.len() == 2);
        assert(s[1] == digit_char(o));
        assert(!s.contains('#')) by {
            assert forall|i: int| 0 <= i < s.len() implies s[i] != '#' by {
                if i == 1 {
                } else {
                    assert(i == 0);
                }
            }
        }
        assert(!s.contains('b')) by {
            assert forall|i: int| 0 <= i < s.len() implies s[i] != 'b' by {
                if i == 1 {
                } else {
                    assert(i == 0);
                }
            }
        }
        assert(s.subrange(1, s.len() as int) =~= d);
    }
    assert(d.drop_last() =~= Seq::<char>::empty());
    assert(crate::text::digits_value(d.drop_last()) == 0);
    assert(d.last() == digit_char(o));
    assert(crate::text::digits_value(d) == o);
    assert(crate::text::all_digits(d));
    assert(i32_of(d) == Some(o));
    assert(n == (o + 1) * 12 + pc);
}

/// Each digit character stands for its digit.
proof fn lemma_digit_char(o: int)
    requires
        0 <= o <= 9,
    ensures
        crate::text::is_digit(digit_char(o)),
        digit_char(o) as u32 - '0' as u32 == o,
{
}

/// The semitone of a note letter.
fn letter_value(c: char) -> (r: Option<i64>)
    ensures
        match letter_semitone(c) {
            Some(v) => r == Some(v as i64),
            None => r is None,
        },
{
    if c == 'C' {
        Some(0)
    } else if c == 'D' {
        Some(2)
    } else if c == 'E' {
        Some(4)
    } else if c == 'F' {
        Some(5)
    } else if c == 'G' {
        Some(7)
    } else if c == 'A' {
        Some(9)
    } else if c == 'B' {
        Some(11)
    } else {
        None
    }
}

/// `v` modulo 256, as `as u8` takes it.
fn wrap_note(v: i64) -> (r: u8)
    ensures
        r as int == v as int % 256,
{
    let m: i64 = ((v % 256) + 256) % 256;
    assert(m == v as int % 256) by (nonlinear_arith)
        requires
            m == ((v % 256) + 256) % 256,
    ;
    m as u8
}

/// Whether `c` occurs in `cs`.
pub fn contains_char(cs: &Vec<char>, c: char) -> (r: bool)
    ensures
        r == cs@.contains(c),
{
    let mut i: usize = 0;
    while i < cs.len()
        invariant
            i <= cs.len(),
            forall|k: int| 0 <= k < i ==> cs@[k] != c,
        decreases cs.len() - i,
    {
        if cs[i] == c {
            return true;
        }
        i = i + 1;
    }
    false
}

} // verus!
