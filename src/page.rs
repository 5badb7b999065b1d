//! Filling the data blocks of the settings page.
use vstd::prelude::*;

use crate::text::{chars_of, string_from_chars};

verus! {

broadcast use vstd::string::group_string_axioms;

/// Whether `pat` stands in `s` at `i`.
pub open spec fn occurs_at(s: Seq<char>, pat: Seq<char>, i: int) -> bool {
    0 <= i && i + pat.len() <= s.len() && s.subrange(i, i + pat.len()) == pat
}

/// The first index from `from` on where `pat` stands in `s`, or -1.
pub open spec fn find_from(s: Seq<char>, pat: Seq<char>, from: int) -> int
    decreases s.len() + 1 - from,
{
    if from < 0 || from + pat.len() > s.len() {
        -1
    } else if occurs_at(s, pat, from) {
        from
    } else {
        find_from(s, pat, from + 1)
    }
}

/// The opening tag of the data block `id`.
pub open spec fn block_start(id: Seq<char>) -> Seq<char> {
    "<script id=\""@ + id + "\" type=\"application/json\">"@
}

pub open spec fn block_end() -> Seq<char> {
    "</script>"@
}

/// The page with the content of block `id` replaced by `data`: everything up
/// to the end of the block's first opening tag, then `data`, then everything
/// from the first `</script>` after that tag's start on. `None` where the
/// page has no such block.
pub open spec fn replaced_page(html: Seq<char>, id: Seq<char>, data: Seq<char>) -> Option<Seq<char>> {
    let open_tag = block_start(id);
    let start = find_from(html, open_tag, 0);
    if start < 0 {
        None
    } else {
        let end = find_from(html, block_end(), start);
        if end < 0 {
            None
        } else {
            Some(html.subrange(0, start + open_tag.len()) + data + html.subrange(end, html.len() as int))
        }
    }
}

fn occurs_at_exec(s: &Vec<char>, pat: &Vec<char>, i: usize) -> (r: bool)
    requires
        i + pat.len() <= s.len(),
    ensures
        r == occurs_at(s@, pat@, i as int),
{
    let mut k: usize = 0;
    while k < pat.len()
        invariant
            i + pat.len() <= s.len(),
            k <= pat.len(),
            forall|j: int| 0 <= j < k ==> s@[i + j] == pat@[j],
        decreases pat.len() - k,
    {
        if s[i + k] != pat[k] {
            assert(s@.subrange(i as int, i + pat.len())[k as int] != pat@[k as int]);
            return false;
        }
        k = k + 1;
    }
    assert(s@.subrange(i as int, i + pat.len()) =~= pat@);
    true
}

fn find_exec(s: &Vec<char>, pat: &Vec<char>, from: usize) -> (r: Option<usize>)
    ensures
        match r {
            Some(i) => i as int == find_from(s@, pat@, from as int) && i + pat.len() <= s.len(),
            None => find_from(s@, pat@, from as int) == -1,
        },
{
    if pat.len() > s.len() || from > s.len() - pat.len() {
        return None;
    }
    let last = s.len() - pat.len();
    let mut i: usize = from;
    while i <= last
        invariant
            from <= i,
            last == s.len() - pat.len(),
            find_from(s@, pat@, from as int) == find_from(s@, pat@, i as int),
        decreases last + 1 - i,
    {
        if occurs_at_exec(s, pat, i) {
            return Some(i);
        }
        if i == last {
            assert(find_from(s@, pat@, i + 1) == -1);
            return None;
        }
        i = i + 1;
    }
    None
}

fn append_range(out: &mut Vec<char>, s: &Vec<char>, from: usize, to: usize)
    requires
        from <= to <= s.len(),
    ensures
        final(out)@ == old(out)@ + s@.subrange(from as int, to as int),
{
    let mut i: usize = from;
    while i < to
        invariant
            from <= i <= to <= s.len(),
            out@ == old(out)@ + s@.subrange(from as int, i as int),
        decreases to - i,
    {
        out.push(s[i]);
        i = i + 1;
        assert(out@ =~= old(out)@ + s@.subrange(from as int, i as int));
    }
}

/// Replaces the content of the data block `id` of a page by `data`.
pub fn replace_data(html: &str, id: &str, data: &str) -> (r: Option<String>)
    ensures
        match replaced_page(html@, id@, data@) {
            Some(p) => r is Some && r->0@ == p,
            None => r is None,
        },
{
    let mut open_tag = String::from_str("<script id=\"");
    open_tag.append(id);
    open_tag.append("\" type=\"application/json\">");
    let s = chars_of(html);
    let ot = chars_of(open_tag.as_str());
    let close = chars_of("</script>");
    let start = match find_exec(&s, &ot, 0) {
        Some(i) => i,
        None => return None,
    };
    let end = match find_exec(&s, &close, start) {
        Some(i) => i,
        None => return None,
    };
    let mut out: Vec<char> = Vec::new();
    append_range(&mut out, &s, 0, start + ot.len());
    let d = chars_of(data);
    append_range(&mut out, &d, 0, d.len());
    append_range(&mut out, &s, end, s.len());
    assert(d@.subrange(0, d.len() as int) =~= d@);
    Some(string_from_chars(out))
}

} // verus!
