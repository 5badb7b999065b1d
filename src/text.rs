//! Character-level helpers shared by the parsers.
use vstd::prelude::*;

verus! {

broadcast use vstd::string::group_string_axioms;

/// The characters of `s`, in order.
pub fn chars_of(s: &str) -> (r: Vec<char>)
    ensures
        r@ == s@,
{
    let mut out: Vec<char> = Vec::new();
    for c in it: s.chars()
        invariant
            out@ == it.seq().subrange(0, it.index() as int),
    {
        out.push(c);
    }
    out
}


/// Relies on `String::from_iter` over `char`s: the string holds exactly those characters.
#[verifier::external_body]
pub(crate) fn string_from_chars(cs: Vec<char>) -> (r: String)
    ensures
        r@ == cs@,
{
    String::from_iter(cs)
}

/// The characters `cs[from..to]` as a string.
pub fn string_of_range(cs: &Vec<char>, from: usize, to: usize) -> (r: String)
    requires
        from <= to <= cs.len(),
    ensures
        r@ == cs@.subrange(from as int, to as int),
{
    let mut out: Vec<char> = Vec::new();
    let mut i: usize = from;
    while i < to
        invariant
            from <= i <= to <= cs.len(),
            out@ == cs@.subrange(from as int, i as int),
        decreases to - i,
    {
        out.push(cs[i]);
        i = i + 1;
    }
    string_from_chars(out)
}

/// Whether `c` is an ASCII decimal digit.
pub open spec fn is_digit(c: char) -> bool {
    '0' <= c && c <= '9'
}

pub open spec fn all_digits(d: Seq<char>) -> bool {
    forall|i: int| 0 <= i < d.len() ==> is_digit(#[trigger] d[i])
}

/// The value of a run of decimal digits, most significant first.
pub open spec fn digits_value(d: Seq<char>) -> int
    decreases d.len(),
{
    if d.len() == 0 {
        0
    } else {
        digits_value(d.drop_last()) * 10 + (d.last() as u32 - '0' as u32)
    }
}

/// An optionally signed decimal integer, without a range limit.
pub open spec fn signed_decimal(s: Seq<char>) -> Option<int> {
    if s.len() > 0 && (s[0] == '+' || s[0] == '-') {
        let d = s.subrange(1, s.len() as int);
        if d.len() > 0 && all_digits(d) {
            Some(if s[0] == '-' { -digits_value(d) } else { digits_value(d) })
        } else {
            None
        }
    } else if s.len() > 0 && all_digits(s) {
        Some(digits_value(s))
    } else {
        None
    }
}

/// What parsing `s` as an `i32` gives: a signed decimal within the type's range.
pub open spec fn i32_of(s: Seq<char>) -> Option<int> {
    match signed_decimal(s) {
        Some(v) => if i32::MIN <= v <= i32::MAX { Some(v) } else { None },
        None => None,
    }
}

proof fn lemma_digits_value_nonneg(d: Seq<char>)
    requires
        all_digits(d),
    ensures
        digits_value(d) >= 0,
    decreases d.len(),
{
    if d.len() > 0 {
        assert(all_digits(d.drop_last()));
        lemma_digits_value_nonneg(d.drop_last());
    }
}

proof fn lemma_digits_value_grows(d: Seq<char>, k: int, j: int)
    requires
        all_digits(d),
        0 <= k <= j <= d.len(),
    ensures
        digits_value(d.subrange(0, k)) <= digits_value(d.subrange(0, j)),
    decreases j - k,
{
    if k < j {
        lemma_digits_value_grows(d, k, j - 1);
        let p = d.subrange(0, j);
        assert(p.drop_last() =~= d.subrange(0, j - 1));
        assert(all_digits(d.subrange(0, j - 1)));
        lemma_digits_value_nonneg(d.subrange(0, j - 1));
        assert(is_digit(d[j - 1]));
    }
}

/// Parses `cs[from..]` as an `i32`, as `str::parse::<i32>` does.
pub fn parse_i32(cs: &Vec<char>, from: usize) -> (r: Option<i32>)
    requires
        from <= cs.len(),
    ensures
        match i32_of(cs@.subrange(from as int, cs.len() as int)) {
            Some(v) => r == Some(v as i32),
            None => r is None,
        },
{
    let ghost s = cs@.subrange(from as int, cs.len() as int);
    let n = cs.len();
    if from >= n {
        return None;
    }
    let negative = cs[from] == '-';
    let start: usize = if cs[from] == '+' || cs[from] == '-' { from + 1 } else { from };
    if start >= n {
        return None;
    }
    let ghost d = cs@.subrange(start as int, n as int);
    assert(start == from + 1 ==> d =~= s.subrange(1, s.len() as int));
    assert(start == from ==> d =~= s);
    assert(signed_decimal(s) == (if all_digits(d) {
        Some(if negative { -digits_value(d) } else { digits_value(d) })
    } else {
        None::<int>
    }));
    let mut acc: i64 = 0;
    let mut i: usize = start;
    while i < n
        invariant
            start <= i <= n == cs.len(),
            d == cs@.subrange(start as int, n as int),
            s == cs@.subrange(from as int, cs.len() as int),
            signed_decimal(s) == (if all_digits(d) {
                Some(if negative { -digits_value(d) } else { digits_value(d) })
            } else {
                None::<int>
            }),

            all_digits(d.subrange(0, i - start)),
            acc == digits_value(d.subrange(0, i - start)),
            0 <= acc <= 2147483648,
        decreases n - i,
    {
        let c = cs[i];
        if !('0' <= c && c <= '9') {
            assert(cs@.subrange(start as int, n as int)[i - start] == cs@[i as int]);
            assert(!is_digit(d[i - start]));
            assert(!all_digits(d));
            return None;
        }
        let v = (c as u32 - '0' as u32) as i64;
        proof {
            let p = d.subrange(0, i + 1 - start);
            assert(p.drop_last() =~= d.subrange(0, i - start));
            assert(p.last() == c);
            assert forall|k: int| 0 <= k < p.len() implies is_digit(#[trigger] p[k]) by {
                if k < p.len() - 1 {
                    assert(p[k] == d.subrange(0, i - start)[k]);
                }
            }
        }
        acc = acc * 10 + v;
        i = i + 1;
        if acc > 2147483648 {
            // the value can only grow with further digits: look for a non-digit
            let ghost big = i - start;
            let mut j: usize = i;
            while j < n
                invariant
                    i <= j <= n == cs.len(),
                    start + big == i,
                    start <= i,
                    start < n,
                    s == cs@.subrange(from as int, cs.len() as int),
                    signed_decimal(s) == (if all_digits(d) {
                        Some(if negative { -digits_value(d) } else { digits_value(d) })
                    } else {
                        None::<int>
                    }),

                    d == cs@.subrange(start as int, n as int),
                    d.len() == n - start,
                    all_digits(d.subrange(0, j - start)),
                    digits_value(d.subrange(0, big as int)) > 2147483648,
                decreases n - j,
            {
                let c2 = cs[j];
                if !('0' <= c2 && c2 <= '9') {
                    assert(cs@.subrange(start as int, n as int)[j - start] == cs@[j as int]);
                    assert(!is_digit(d[j - start]));
                    assert(!all_digits(d));
                    return None;
                }
                proof {
                    let p = d.subrange(0, j + 1 - start);
                    assert forall|k: int| 0 <= k < p.len() implies is_digit(#[trigger] p[k]) by {
                        if k < p.len() - 1 {
                            assert(p[k] == d.subrange(0, j - start)[k]);
                        }
                    }
                }
                j = j + 1;
            }
            proof {
                assert(d.subrange(0, d.len() as int) =~= d);
                lemma_digits_value_grows(d, big as int, d.len() as int);
            }
            return None;
        }
    }
    assert(d.subrange(0, n - start) =~= d);
    if negative {
        Some((0 - acc) as i32)
    } else if acc > 2147483647 {
        None
    } else {
        Some(acc as i32)
    }
}


/// The first index of `c` in `s`, or `s.len()` where there is none.
pub open spec fn first_index_of(s: Seq<char>, c: char) -> int
    decreases s.len(),
{
    if s.len() == 0 {
        0
    } else if s[0] == c {
        0
    } else {
        1 + first_index_of(s.drop_first(), c)
    }
}

/// The last index of `c` in `s`, or -1 where there is none.
pub open spec fn last_index_of(s: Seq<char>, c: char) -> int
    decreases s.len(),
{
    if s.len() == 0 {
        -1
    } else if s.last() == c {
        s.len() - 1
    } else {
        last_index_of(s.drop_last(), c)
    }
}

/// ASCII lower case of one character.
pub open spec fn ascii_lower(c: char) -> char {
    if 'A' <= c && c <= 'Z' {
        ((c as u32) + 32) as char
    } else {
        c
    }
}

/// Whether `s` spells `word` (given in lower case), ignoring ASCII case.
pub open spec fn spells(s: Seq<char>, word: Seq<char>) -> bool {
    s.len() == word.len() && forall|i: int| 0 <= i < s.len() ==> ascii_lower(#[trigger] s[i]) == word[i]
}

/// Digits, with at most one `.` among them and at least one digit.
pub open spec fn is_mantissa(m: Seq<char>) -> bool {
    let d = first_index_of(m, '.');
    let int_part = m.subrange(0, d);
    let frac = if d < m.len() { m.subrange(d + 1, m.len() as int) } else { Seq::empty() };
    all_digits(int_part) && all_digits(frac) && int_part.len() + frac.len() > 0
}

/// `e` or `E`, an optional sign, and at least one digit.
pub open spec fn is_exponent(x: Seq<char>) -> bool {
    let digits = if x.len() > 1 && (x[1] == '+' || x[1] == '-') {
        x.subrange(2, x.len() as int)
    } else {
        x.subrange(1, x.len() as int)
    };
    x.len() > 1 && (x[0] == 'e' || x[0] == 'E') && digits.len() > 0 && all_digits(digits)
}

/// The text that `str::parse::<f64>` accepts: an optional sign, then `inf`,
/// `infinity` or `nan` in any case, or a mantissa with an optional exponent.
pub open spec fn is_float_text(s: Seq<char>) -> bool {
    let body = if s.len() > 0 && (s[0] == '+' || s[0] == '-') {
        s.subrange(1, s.len() as int)
    } else {
        s
    };
    let e1 = first_index_of(body, 'e');
    let e2 = first_index_of(body, 'E');
    let e = if e1 < e2 { e1 } else { e2 };
    ||| spells(body, seq!['i', 'n', 'f'])
    ||| spells(body, seq!['i', 'n', 'f', 'i', 'n', 'i', 't', 'y'])
    ||| spells(body, seq!['n', 'a', 'n'])
    ||| (is_mantissa(body.subrange(0, e)) && (e == body.len() || is_exponent(
        body.subrange(e, body.len() as int),
    )))
}

pub proof fn lemma_last_index_bounds(s: Seq<char>, c: char)
    ensures
        -1 <= last_index_of(s, c) < s.len(),
        last_index_of(s, c) >= 0 ==> s[last_index_of(s, c)] == c,
    decreases s.len(),
{
    if s.len() > 0 && s.last() != c {
        lemma_last_index_bounds(s.drop_last(), c);
    }
}

pub(crate) proof fn lemma_first_index_bounds(s: Seq<char>, c: char)
    ensures
        0 <= first_index_of(s, c) <= s.len(),
        first_index_of(s, c) < s.len() ==> s[first_index_of(s, c)] == c,
        forall|i: int| 0 <= i < first_index_of(s, c) ==> s[i] != c,
    decreases s.len(),
{
    if s.len() > 0 && s[0] != c {
        lemma_first_index_bounds(s.drop_first(), c);
        assert forall|i: int| 0 <= i < first_index_of(s, c) implies s[i] != c by {
            if i > 0 {
                assert(s[i] == s.drop_first()[i - 1]);
            }
        }
    }
}

proof fn lemma_first_index_unique(s: Seq<char>, c: char, k: int)
    requires
        0 <= k <= s.len(),
        k < s.len() ==> s[k] == c,
        forall|i: int| 0 <= i < k ==> s[i] != c,
    ensures
        first_index_of(s, c) == k,
    decreases s.len(),
{
    if s.len() > 0 && s[0] != c {
        assert forall|i: int| 0 <= i < k - 1 implies s.drop_first()[i] != c by {
            assert(s.drop_first()[i] == s[i + 1]);
        }
        lemma_first_index_unique(s.drop_first(), c, k - 1);
    }
}

/// The first index of `c` in `cs[from..to]`, counted from `from`, or `to - from`.
pub fn find_char(cs: &Vec<char>, c: char, from: usize, to: usize) -> (r: usize)
    requires
        from <= to <= cs.len(),
    ensures
        r as int == first_index_of(cs@.subrange(from as int, to as int), c),
        r <= to - from,
{
    let ghost s = cs@.subrange(from as int, to as int);
    let mut i: usize = from;
    while i < to
        invariant
            from <= i <= to <= cs.len(),
            s == cs@.subrange(from as int, to as int),
            forall|k: int| 0 <= k < i - from ==> s[k] != c,
        decreases to - i,
    {
        if cs[i] == c {
            proof {
                lemma_first_index_unique(s, c, i - from);
            }
            return i - from;
        }
        i = i + 1;
    }
    proof {
        lemma_first_index_unique(s, c, to - from);
    }
    to - from
}

/// Whether every character of `cs[from..to]` is a digit.
pub fn all_digits_in(cs: &Vec<char>, from: usize, to: usize) -> (r: bool)
    requires
        from <= to <= cs.len(),
    ensures
        r == all_digits(cs@.subrange(from as int, to as int)),
{
    let ghost s = cs@.subrange(from as int, to as int);
    let mut i: usize = from;
    while i < to
        invariant
            from <= i <= to <= cs.len(),
            s == cs@.subrange(from as int, to as int),
            forall|k: int| 0 <= k < i - from ==> is_digit(#[trigger] s[k]),
        decreases to - i,
    {
        let c = cs[i];
        if !('0' <= c && c <= '9') {
            assert(s[i - from] == c);
            return false;
        }
        i = i + 1;
    }
    true
}

/// Whether `cs[from..to]` spells `word` (lower case), ignoring ASCII case.
fn spells_in(cs: &Vec<char>, from: usize, to: usize, word: &Vec<char>) -> (r: bool)
    requires
        from <= to <= cs.len(),
    ensures
        r == spells(cs@.subrange(from as int, to as int), word@),
{
    let ghost s = cs@.subrange(from as int, to as int);
    if to - from != word.len() {
        return false;
    }
    let mut i: usize = 0;
    while i < word.len()
        invariant
            to - from == word.len(),
            from <= to <= cs.len(),
            s == cs@.subrange(from as int, to as int),
            i <= word.len(),
            forall|k: int| 0 <= k < i ==> ascii_lower(#[trigger] s[k]) == word@[k],
        decreases word.len() - i,
    {
        let c = cs[from + i];
        let lower = if 'A' <= c && c <= 'Z' { ((c as u32) + 32) as u8 as char } else { c };
        assert(s[i as int] == c);
        assert(lower == ascii_lower(c)) by {
            if 'A' <= c && c <= 'Z' {
                assert((((c as u32) + 32) as u8) as u32 == (c as u32) + 32);
            }
        }
        if lower != word[i] {
            return false;
        }
        i = i + 1;
    }
    true
}

fn word_of(a: char, b: char, c: char) -> (r: Vec<char>)
    ensures
        r@ == seq![a, b, c],
{
    let mut w: Vec<char> = Vec::new();
    w.push(a);
    w.push(b);
    w.push(c);
    assert(w@ =~= seq![a, b, c]);
    w
}

/// Whether `cs[from..to]` is a number that `str::parse::<f64>` accepts.
pub fn is_float_in(cs: &Vec<char>, from: usize, to: usize) -> (r: bool)
    requires
        from <= to <= cs.len(),
    ensures
        r == is_float_text(cs@.subrange(from as int, to as int)),
{
    let ghost s = cs@.subrange(from as int, to as int);
    let b: usize = if from < to && (cs[from] == '+' || cs[from] == '-') { from + 1 } else { from };
    let ghost body = cs@.subrange(b as int, to as int);
    assert(body =~= (if s.len() > 0 && (s[0] == '+' || s[0] == '-') {
        s.subrange(1, s.len() as int)
    } else {
        s
    }));
    let inf = word_of('i', 'n', 'f');
    let nan = word_of('n', 'a', 'n');
    let mut infinity = word_of('i', 'n', 'f');
    infinity.push('i');
    infinity.push('n');
    infinity.push('i');
    infinity.push('t');
    infinity.push('y');
    assert(infinity@ =~= seq!['i', 'n', 'f', 'i', 'n', 'i', 't', 'y']);
    if spells_in(cs, b, to, &inf) || spells_in(cs, b, to, &infinity) || spells_in(cs, b, to, &nan) {
        return true;
    }
    let e1 = find_char(cs, 'e', b, to);
    let e2 = find_char(cs, 'E', b, to);
    let e = if e1 < e2 { e1 } else { e2 };
    proof {
        lemma_first_index_bounds(body, 'e');
        lemma_first_index_bounds(body, 'E');
    }
    let m_end = b + e;
    assert(cs@.subrange(b as int, m_end as int) =~= body.subrange(0, e as int));
    if !is_mantissa_in(cs, b, m_end) {
        return false;
    }
    if m_end == to {
        return true;
    }
    assert(cs@.subrange(m_end as int, to as int) =~= body.subrange(e as int, body.len() as int));
    is_exponent_in(cs, m_end, to)
}

fn is_mantissa_in(cs: &Vec<char>, from: usize, to: usize) -> (r: bool)
    requires
        from <= to <= cs.len(),
    ensures
        r == is_mantissa(cs@.subrange(from as int, to as int)),
{
    let ghost m = cs@.subrange(from as int, to as int);
    let d = find_char(cs, '.', from, to);
    proof {
        lemma_first_index_bounds(m, '.');
    }
    let int_ok = all_digits_in(cs, from, from + d);
    assert(cs@.subrange(from as int, (from + d) as int) =~= m.subrange(0, d as int));
    let frac_ok = if from + d < to {
        assert(cs@.subrange((from + d + 1) as int, to as int) =~= m.subrange(d + 1, m.len() as int));
        all_digits_in(cs, from + d + 1, to)
    } else {
        true
    };
    let frac_len: usize = if from + d < to { to - (from + d + 1) } else { 0 };
    int_ok && frac_ok && d + frac_len > 0
}

fn is_exponent_in(cs: &Vec<char>, from: usize, to: usize) -> (r: bool)
    requires
        from <= to <= cs.len(),
    ensures
        r == is_exponent(cs@.subrange(from as int, to as int)),
{
    let ghost x = cs@.subrange(from as int, to as int);
    if to - from < 2 {
        return false;
    }
    if !(cs[from] == 'e' || cs[from] == 'E') {
        return false;
    }
    let signed = cs[from + 1] == '+' || cs[from + 1] == '-';
    let ds: usize = if signed { from + 2 } else { from + 1 };
    assert(cs@.subrange(ds as int, to as int) =~= (if x.len() > 1 && (x[1] == '+' || x[1] == '-') {
        x.subrange(2, x.len() as int)
    } else {
        x.subrange(1, x.len() as int)
    }));
    ds < to && all_digits_in(cs, ds, to)
}


/// A line without the `\r` of a `\r\n` ending.
pub open spec fn without_cr(l: Seq<char>) -> Seq<char> {
    if l.len() > 0 && l.last() == '\r' {
        l.drop_last()
    } else {
        l
    }
}

/// The lines of a text, as `str::lines` gives them: split at `\n`, the
/// `\r` of `\r\n` dropped, no empty line after a final `\n`.
pub open spec fn lines_of(s: Seq<char>) -> Seq<Seq<char>>
    decreases s.len(),
{
    let i = first_index_of(s, '\n');
    if s.len() == 0 {
        Seq::empty()
    } else if i < 0 || i >= s.len() {
        seq![s]
    } else {
        seq![without_cr(s.subrange(0, i))] + lines_of(s.subrange(i + 1, s.len() as int))
    }
}

/// Splits a text into its lines.
pub fn split_lines(text: &str) -> (r: Vec<String>)
    ensures
        r@.map_values(|l: String| l@) == lines_of(text@),
{
    let cs = chars_of(text);
    let n = cs.len();
    let mut out: Vec<String> = Vec::new();
    let mut start: usize = 0;
    assert(cs@.subrange(0, n as int) =~= text@);
    assert(out@.map_values(|l: String| l@) + lines_of(text@) =~= lines_of(text@));
    while start < n
        invariant
            start <= n == cs.len(),
            cs@ == text@,
            out@.map_values(|l: String| l@) + lines_of(cs@.subrange(start as int, n as int))
                == lines_of(text@),
        decreases n - start,
    {
        let ghost rest = cs@.subrange(start as int, n as int);
        let i = find_char(&cs, '\n', start, n);
        proof {
            lemma_first_index_bounds(rest, '\n');
        }
        let ghost before = out@.map_values(|l: String| l@);
        if start + i >= n {
            let line = string_of_range(&cs, start, n);
            out.push(line);
            assert(out@.map_values(|l: String| l@) =~= before + seq![rest]);
            assert(lines_of(cs@.subrange(n as int, n as int)) =~= Seq::<Seq<char>>::empty());
            assert(before + lines_of(rest) =~= before + seq![rest]);
            start = n;
            assert(out@.map_values(|l: String| l@) + lines_of(cs@.subrange(start as int, n as int))
                =~= before + lines_of(rest));
        } else {
            let end = if i > 0 && cs[start + i - 1] == '\r' { start + i - 1 } else { start + i };
            let line = string_of_range(&cs, start, end);
            assert(line@ =~= without_cr(rest.subrange(0, i as int)));
            out.push(line);
            assert(out@.map_values(|l: String| l@) =~= before + seq![line@]);
            assert(rest.subrange(i + 1, rest.len() as int) =~= cs@.subrange(
                (start + i + 1) as int,
                n as int,
            ));
            start = start + i + 1;
            assert(before + lines_of(rest) =~= out@.map_values(|l: String| l@) + lines_of(
                cs@.subrange(start as int, n as int),
            ));
        }
    }
    assert(lines_of(cs@.subrange(start as int, n as int)) =~= Seq::<Seq<char>>::empty());
    assert(out@.map_values(|l: String| l@) =~= out@.map_values(|l: String| l@) + Seq::<Seq<char>>::empty());
    out
}

} // verus!
