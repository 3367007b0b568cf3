//! Line-by-line scanning of a text file's bytes for a literal pattern.

use vstd::prelude::*;
use vstd::utf8::*;

verus! {

/// One line of one file on which the pattern occurs.
#[derive(Clone, Debug)]
pub struct Match {
    pub file_path: String,
    /// Zero-based index of the line in its file.
    pub line_number: usize,
    /// The line's text, without its line terminator.
    pub line: String,
}

impl View for Match {
    type V = (Seq<char>, int, Seq<char>);

    open spec fn view(&self) -> (Seq<char>, int, Seq<char>) {
        (self.file_path@, self.line_number as int, self.line@)
    }
}

pub open spec fn match_views(ms: Seq<Match>) -> Seq<(Seq<char>, int, Seq<char>)> {
    ms.map_values(|m: Match| m@)
}

/// Index of the first newline at or after `i`, or the length when there is none.
pub open spec fn next_newline(b: Seq<u8>, i: int) -> int
    decreases b.len() - i,
{
    if i >= b.len() {
        b.len() as int
    } else if b[i] == 10u8 {
        i
    } else {
        next_newline(b, i + 1)
    }
}

/// A terminated line loses its `\n` and then one `\r` before it, if any.
pub open spec fn line_text(b: Seq<u8>, start: int, end: int) -> Seq<u8> {
    if end < b.len() && end > start && b[end - 1] == 13u8 {
        b.subrange(start, end - 1)
    } else {
        b.subrange(start, end)
    }
}

/// The lines of `b` that begin at or after `start`.
pub open spec fn lines_from(b: Seq<u8>, start: int) -> Seq<Seq<u8>>
    decreases b.len() - start,
{
    if start < 0 || start >= b.len() {
        Seq::empty()
    } else {
        let end = next_newline(b, start);
        if end < start {
            Seq::empty()
        } else if end >= b.len() {
            seq![line_text(b, start, end)]
        } else {
            seq![line_text(b, start, end)] + lines_from(b, end + 1)
        }
    }
}

pub proof fn lemma_next_newline_bounds(b: Seq<u8>, i: int)
    requires
        0 <= i <= b.len(),
    ensures
        i <= next_newline(b, i) <= b.len(),
        next_newline(b, i) < b.len() ==> b[next_newline(b, i)] == 10u8,
    decreases b.len() - i,
{
    if i < b.len() && b[i] != 10u8 {
        lemma_next_newline_bounds(b, i + 1);
    }
}

/// Newline-delimited lines; a final newline opens no further line.
pub open spec fn lines_of(b: Seq<u8>) -> Seq<Seq<u8>> {
    lines_from(b, 0)
}

pub open spec fn occurs_at(s: Seq<char>, p: Seq<char>, i: int) -> bool {
    0 <= i && i + p.len() <= s.len() && s.subrange(i, i + p.len()) == p
}

pub open spec fn contains_spec(s: Seq<char>, p: Seq<char>) -> bool {
    exists|i: int| occurs_at(s, p, i)
}

/// A line is reported when it decodes as UTF-8 and holds the pattern.
pub open spec fn line_matches(l: Seq<u8>, p: Seq<char>) -> bool {
    valid_utf8(l) && contains_spec(decode_utf8(l), p)
}

/// The matches among the first `n` lines, in line order.
pub open spec fn match_records(path: Seq<char>, lines: Seq<Seq<u8>>, p: Seq<char>, n: int) -> Seq<
    (Seq<char>, int, Seq<char>),
>
    decreases n,
{
    if n <= 0 {
        Seq::empty()
    } else {
        let prev = match_records(path, lines, p, n - 1);
        if line_matches(lines[n - 1], p) {
            prev.push((path, n - 1, decode_utf8(lines[n - 1])))
        } else {
            prev
        }
    }
}

/// Every match that scanning `content` for `p` yields, in line order.
pub open spec fn scan_spec(path: Seq<char>, content: Seq<u8>, p: Seq<char>) -> Seq<
    (Seq<char>, int, Seq<char>),
> {
    let lines = lines_of(content);
    match_records(path, lines, p, lines.len() as int)
}

/// Relies on String::from_utf8: it succeeds exactly on valid UTF-8 and then holds
/// the decoded characters.
#[verifier::external_body]
fn decode_line(bytes: &[u8]) -> (r: Option<String>)
    ensures
        r is Some <==> valid_utf8(bytes@),
        r is Some ==> r->0@ == decode_utf8(bytes@),
{
    String::from_utf8(bytes.to_vec()).ok()
}

/// Relies on str::chars: the characters of the string, in order.
#[verifier::external_body]
pub(crate) fn chars_of(s: &str) -> (r: Vec<char>)
    ensures
        r@ == s@,
{
    s.chars().collect()
}

/// Splits `content` into lines at each `\n`, dropping the terminator and a `\r`
/// just before it.
pub fn split_lines(content: &[u8]) -> (r: Vec<Vec<u8>>)
    ensures
        r@.map_values(|l: Vec<u8>| l@) == lines_of(content@),
{
    let mut out: Vec<Vec<u8>> = Vec::new();
    let mut start: usize = 0;
    while start < content.len()
        invariant
            start <= content@.len(),
            out@.map_values(|l: Vec<u8>| l@) + lines_from(content@, start as int) == lines_of(
                content@,
            ),
        decreases content@.len() - start,
    {
        let mut end: usize = start;
        while end < content.len() && content[end] != 10u8
            invariant
                start <= end <= content@.len(),
                next_newline(content@, start as int) == next_newline(content@, end as int),
            decreases content@.len() - end,
        {
            end = end + 1;
        }
        let stop: usize = if end < content.len() && end > start && content[end - 1] == 13u8 {
            end - 1
        } else {
            end
        };
        let mut line: Vec<u8> = Vec::new();
        let mut k: usize = start;
        while k < stop
            invariant
                start <= k <= stop <= end <= content@.len(),
                line@ == content@.subrange(start as int, k as int),
            decreases stop - k,
        {
            line.push(content[k]);
            k = k + 1;
        }
        proof {
            lemma_next_newline_bounds(content@, start as int);
            assert(next_newline(content@, end as int) == end as int);
            assert(line@ == line_text(content@, start as int, end as int));
        }
        let ghost before = out@.map_values(|l: Vec<u8>| l@);
        out.push(line);
        let next: usize = if end < content.len() {
            end + 1
        } else {
            end
        };
        proof {
            assert(out@.map_values(|l: Vec<u8>| l@) == before.push(line@));
            assert(lines_from(content@, next as int) == lines_from(content@, end as int + 1));
            assert(before.push(line@) + lines_from(content@, next as int) =~= before + lines_from(
                content@,
                start as int,
            ));
        }
        start = next;
    }
    proof {
        assert(out@.map_values(|l: Vec<u8>| l@) + lines_from(content@, start as int) =~= out@.map_values(
            |l: Vec<u8>| l@,
        ));
    }
    out
}

/// Whether `p` occurs in `s` starting at index `i`.
pub fn occurs_at_index(s: &Vec<char>, p: &Vec<char>, i: usize) -> (r: bool)
    requires
        i <= s@.len(),
    ensures
        r == occurs_at(s@, p@, i as int),
{
    let s_len: usize = s.len();
    if p.len() > s_len - i {
        return false;
    }
    let mut k: usize = 0;
    while k < p.len()
        invariant
            i + p@.len() <= s@.len(),
            s@.len() == s_len,
            k <= p@.len(),
            forall|t: int| 0 <= t < k ==> s@[i + t] == p@[t],
        decreases p@.len() - k,
    {
        if s[i + k] != p[k] {
            proof {
                assert(s@.subrange(i as int, i + p@.len())[k as int] != p@[k as int]);
            }
            return false;
        }
        k = k + 1;
    }
    proof {
        assert(s@.subrange(i as int, i + p@.len()) =~= p@);
    }
    true
}

/// Whether `p` occurs in `s` as a contiguous run of characters.
pub fn contains_chars(s: &Vec<char>, p: &Vec<char>) -> (r: bool)
    ensures
        r == contains_spec(s@, p@),
{
    let mut i: usize = 0;
    while i <= s.len()
        invariant
            i <= s@.len() + 1,
            forall|j: int| 0 <= j < i ==> !occurs_at(s@, p@, j),
        decreases s@.len() + 1 - i,
    {
        if occurs_at_index(s, p, i) {
            return true;
        }
        if i == s.len() {
            proof {
                assert forall|j: int| !occurs_at(s@, p@, j) by {
                    if 0 <= j && j + p@.len() <= s@.len() {
                        assert(j < i + 1);
                    }
                }
            }
            return false;
        }
        i = i + 1;
    }
    proof {
        assert forall|j: int| !occurs_at(s@, p@, j) by {
            if 0 <= j && j + p@.len() <= s@.len() {
                assert(j < i);
            }
        }
    }
    false
}

/// Scans the bytes of the file at `path` for `pattern`: one match per line that
/// decodes as UTF-8 and contains the pattern, in line order. Lines that do not
/// decode are skipped.
pub fn scan_content(path: &String, content: &[u8], pattern: &str) -> (r: Vec<Match>)
    ensures
        match_views(r@) == scan_spec(path@, content@, pattern@),
{
    let lines = split_lines(content);
    let pat = chars_of(pattern);
    let ghost all = lines_of(content@);
    let mut out: Vec<Match> = Vec::new();
    let mut i: usize = 0;
    while i < lines.len()
        invariant
            i <= lines@.len(),
            lines@.map_values(|l: Vec<u8>| l@) == all,
            pat@ == pattern@,
            match_views(out@) == match_records(path@, all, pattern@, i as int),
        decreases lines@.len() - i,
    {
        proof {
            assert(lines@.map_values(|l: Vec<u8>| l@)[i as int] == lines@[i as int]@);
        }
        let decoded = decode_line(lines[i].as_slice());
        match decoded {
            Some(text) => {
                let chars = chars_of(text.as_str());
                if contains_chars(&chars, &pat) {
                    let m = Match { file_path: path.clone(), line_number: i, line: text };
                    let ghost before = out@;
                    out.push(m);
                    proof {
                        assert(match_views(out@) =~= match_views(before).push(m@));
                    }
                }
            },
            None => {},
        }
        i = i + 1;
    }
    out
}

/// Every line of a scanned file that decodes as text and contains the pattern is
/// reported, with its own line number and its text unchanged.
pub proof fn lemma_text_line_reported(path: Seq<char>, content: Seq<u8>, p: Seq<char>, i: int)
    requires
        0 <= i < lines_of(content).len(),
        line_matches(lines_of(content)[i], p),
    ensures
        scan_spec(path, content, p).contains((path, i, decode_utf8(lines_of(content)[i]))),
{
    let lines = lines_of(content);
    lemma_records_keep(path, lines, p, i + 1, lines.len() as int);
    let recs = match_records(path, lines, p, i + 1);
    assert(recs.last() == (path, i, decode_utf8(lines[i])));
    lemma_records_prefix(path, lines, p, i + 1, lines.len() as int);
    let k = recs.len() - 1;
    assert(scan_spec(path, content, p)[k] == (path, i, decode_utf8(lines[i])));
}

proof fn lemma_records_keep(path: Seq<char>, lines: Seq<Seq<u8>>, p: Seq<char>, m: int, n: int)
    requires
        0 <= m <= n,
    ensures
        match_records(path, lines, p, m).len() <= match_records(path, lines, p, n).len(),
    decreases n - m,
{
    if m < n {
        lemma_records_keep(path, lines, p, m, n - 1);
    }
}

proof fn lemma_records_prefix(path: Seq<char>, lines: Seq<Seq<u8>>, p: Seq<char>, m: int, n: int)
    requires
        0 <= m <= n,
    ensures
        forall|k: int|
            0 <= k < match_records(path, lines, p, m).len() ==> match_records(path, lines, p, n)[k]
                == match_records(path, lines, p, m)[k],
    decreases n - m,
{
    if m < n {
        lemma_records_prefix(path, lines, p, m, n - 1);
        lemma_records_keep(path, lines, p, m, n - 1);
    }
}

} // verus!
