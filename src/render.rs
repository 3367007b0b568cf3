//! Aligned rendering of matches: a padded `path:line` column, a separator, and
//! the line with every occurrence of the pattern highlighted.

use vstd::prelude::*;
use vstd::utf8::encode_utf8;
use crate::scan::{Match, chars_of, occurs_at_index};

verus! {

pub open spec fn digit_char(d: int) -> char {
    if d == 0 {
        '0'
    } else if d == 1 {
        '1'
    } else if d == 2 {
        '2'
    } else if d == 3 {
        '3'
    } else if d == 4 {
        '4'
    } else if d == 5 {
        '5'
    } else if d == 6 {
        '6'
    } else if d == 7 {
        '7'
    } else if d == 8 {
        '8'
    } else {
        '9'
    }
}

/// The decimal digits of `n`, most significant first, without leading zeros.
pub open spec fn decimal_spec(n: nat) -> Seq<char>
    decreases n,
{
    if n < 10 {
        seq![digit_char(n as int)]
    } else {
        decimal_spec(n / 10).push(digit_char((n % 10) as int))
    }
}

/// The `path:line_number` reference of a match.
pub open spec fn reference_spec(m: Match) -> Seq<char> {
    m.file_path@ + seq![':'] + decimal_spec(m.line_number as nat)
}

/// `s` followed by spaces up to `width` characters; never shortened.
pub open spec fn pad_spec(s: Seq<char>, width: int) -> Seq<char> {
    if s.len() >= width {
        s
    } else {
        s + Seq::new((width - s.len()) as nat, |i: int| ' ')
    }
}

pub open spec fn unwrap_or_zero(o: Option<usize>) -> int {
    match o {
        Some(v) => v as int,
        None => 0,
    }
}

/// The reference column: padded to the widest path plus the widest line
/// number plus the colon, then the separator glyph.
pub open spec fn padded_reference_spec(m: Match, max_path: Option<usize>, max_line: Option<usize>) -> Seq<
    char,
> {
    pad_spec(reference_spec(m), unwrap_or_zero(max_path) + unwrap_or_zero(max_line) + 1).push(
        '\u{2502}',
    )
}

/// Every occurrence of `p` in `s`, taken left to right without overlap, replaced
/// by `r`.
pub open spec fn replace_spec(s: Seq<char>, p: Seq<char>, r: Seq<char>) -> Seq<char>
    decreases s.len(),
{
    if p.len() == 0 || s.len() < p.len() {
        s
    } else if s.subrange(0, p.len() as int) == p {
        r + replace_spec(s.subrange(p.len() as int, s.len() as int), p, r)
    } else {
        seq![s[0]] + replace_spec(s.subrange(1, s.len() as int), p, r)
    }
}

/// The printed width of a path: its length in bytes, as `str::len` reports it.
pub open spec fn path_width(m: Match) -> int {
    (encode_utf8(m.file_path@).len() as usize) as int
}

pub open spec fn line_number_width(m: Match) -> int {
    decimal_spec(m.line_number as nat).len() as int
}

/// `s` wrapped in the escape sequence `start` and the reset sequence, as a
/// terminal colouring renders it; uncoloured output is the text itself.
pub open spec fn painted(s: Seq<char>, r: Seq<char>, start: Seq<char>) -> bool {
    r == s || (r.len() >= start.len() + 4 && r.subrange(0, start.len() as int) == start
        && r.subrange(r.len() - 4, r.len() as int) == seq!['\u{1b}', '[', '0', 'm'])
}

pub open spec fn blue_start() -> Seq<char> {
    seq!['\u{1b}', '[', '3', '4', 'm']
}

pub open spec fn red_start() -> Seq<char> {
    seq!['\u{1b}', '[', '3', '1', 'm']
}

/// Relies on colored's `Colorize::blue` and its `Display`: the text itself when
/// colouring is off, else the blue escape, the text, and the reset escape.
#[verifier::external_body]
fn paint_blue(s: &str) -> (r: String)
    ensures
        painted(s@, r@, blue_start()),
{
    colored::Colorize::blue(s).to_string()
}

/// Relies on colored's `Colorize::red` and its `Display`: the text itself when
/// colouring is off, else the red escape, the text, and the reset escape.
#[verifier::external_body]
fn paint_red(s: &str) -> (r: String)
    ensures
        painted(s@, r@, red_start()),
{
    colored::Colorize::red(s).to_string()
}

/// Relies on `FromIterator<char>` for `String`: the characters in order.
#[verifier::external_body]
fn string_of(v: &Vec<char>) -> (r: String)
    ensures
        r@ == v@,
{
    v.iter().collect()
}

fn digit_of(d: usize) -> (c: char)
    requires
        d < 10,
    ensures
        c == digit_char(d as int),
{
    if d == 0 {
        '0'
    } else if d == 1 {
        '1'
    } else if d == 2 {
        '2'
    } else if d == 3 {
        '3'
    } else if d == 4 {
        '4'
    } else if d == 5 {
        '5'
    } else if d == 6 {
        '6'
    } else if d == 7 {
        '7'
    } else if d == 8 {
        '8'
    } else {
        '9'
    }
}

/// The decimal digits of `n`.
pub fn decimal_chars(n: usize) -> (r: Vec<char>)
    ensures
        r@ == decimal_spec(n as nat),
    decreases n,
{
    if n < 10 {
        let mut v: Vec<char> = Vec::new();
        v.push(digit_of(n));
        v
    } else {
        let mut v = decimal_chars(n / 10);
        v.push(digit_of(n % 10));
        v
    }
}

/// `line` with every occurrence of `pattern`, taken left to right without
/// overlap, replaced by `replacement`.
pub fn highlight(line: &str, pattern: &str, replacement: &str) -> (r: String)
    ensures
        r@ == replace_spec(line@, pattern@, replacement@),
{
    let s = chars_of(line);
    let p = chars_of(pattern);
    let rep = chars_of(replacement);
    let mut out: Vec<char> = Vec::new();
    let mut i: usize = 0;
    if p.len() == 0 {
        return string_of(&s);
    }
    proof {
        assert(s@.subrange(0, s@.len() as int) =~= s@);
    }
    while i < s.len()
        invariant
            s@ == line@,
            p@ == pattern@,
            rep@ == replacement@,
            p@.len() > 0,
            i <= s@.len(),
            out@ + replace_spec(s@.subrange(i as int, s@.len() as int), p@, rep@) == replace_spec(
                s@,
                p@,
                rep@,
            ),
        decreases s@.len() - i,
    {
        let ghost rest = s@.subrange(i as int, s@.len() as int);
        let ghost before = out@;
        if occurs_at_index(&s, &p, i) {
            let mut k: usize = 0;
            while k < rep.len()
                invariant
                    k <= rep@.len(),
                    out@ == before + rep@.subrange(0, k as int),
                decreases rep@.len() - k,
            {
                out.push(rep[k]);
                k = k + 1;
            }
            proof {
                assert(rest.subrange(0, p@.len() as int) =~= s@.subrange(i as int, i + p@.len()));
                assert(rest.subrange(p@.len() as int, rest.len() as int) =~= s@.subrange(
                    i + p@.len(),
                    s@.len() as int,
                ));
                assert(rep@.subrange(0, rep@.len() as int) =~= rep@);
                assert(before + rep@ + replace_spec(
                    s@.subrange(i + p@.len(), s@.len() as int),
                    p@,
                    rep@,
                ) =~= before + replace_spec(rest, p@, rep@));
            }
            i = i + p.len();
        } else {
            out.push(s[i]);
            proof {
                if rest.len() >= p@.len() {
                    assert(rest.subrange(0, p@.len() as int) =~= s@.subrange(
                        i as int,
                        i + p@.len(),
                    ));
                }
                assert(rest.subrange(1, rest.len() as int) =~= s@.subrange(
                    i + 1,
                    s@.len() as int,
                ));
                assert(before.push(s@[i as int]) + replace_spec(
                    s@.subrange(i + 1, s@.len() as int),
                    p@,
                    rep@,
                ) =~= before + replace_spec(rest, p@, rep@));
            }
            i = i + 1;
        }
    }
    proof {
        assert(replace_spec(s@.subrange(i as int, s@.len() as int), p@, rep@) =~= Seq::empty());
        assert(out@ + Seq::<char>::empty() =~= out@);
    }
    string_of(&out)
}

/// A path is at least as wide in bytes as it is long in characters.
pub proof fn lemma_chars_within_bytes(s: Seq<char>)
    ensures
        s.len() <= encode_utf8(s).len(),
    decreases s.len(),
{
    if s.len() > 0 {
        lemma_chars_within_bytes(s.drop_first());
    }
}

/// With the widths taken over a whole match set, every match's reference column
/// is equally long (widest path, colon, widest line number, separator) and starts
/// with the match's whole reference: narrower references are padded on the
/// right, never cut.
pub proof fn lemma_columns_align(ms: Seq<Match>, max_path: usize, max_line: usize, i: int)
    requires
        0 <= i < ms.len(),
        max_path + max_line + 1 <= usize::MAX,
        forall|j: int| 0 <= j < ms.len() ==> encode_utf8(#[trigger] ms[j].file_path@).len() <= usize::MAX,
        forall|j: int| 0 <= j < ms.len() ==> path_width(#[trigger] ms[j]) <= max_path,
        forall|j: int| 0 <= j < ms.len() ==> line_number_width(#[trigger] ms[j]) <= max_line,
    ensures
        padded_reference_spec(ms[i], Some(max_path), Some(max_line)).len() == max_path + max_line + 2,
        padded_reference_spec(ms[i], Some(max_path), Some(max_line)).subrange(
            0,
            reference_spec(ms[i]).len() as int,
        ) == reference_spec(ms[i]),
{
    let m = ms[i];
    lemma_chars_within_bytes(m.file_path@);
    assert(path_width(m) <= max_path);
    assert(line_number_width(m) <= max_line);
    let rf = reference_spec(m);
    let padded = pad_spec(rf, max_path + max_line + 1);
    assert(rf.len() <= max_path + max_line + 1);
    assert(padded.subrange(0, rf.len() as int) =~= rf);
    assert(padded.push('\u{2502}').subrange(0, rf.len() as int) =~= rf);
}

/// The widest path of `matches` in bytes, or `None` when there are no matches.
pub fn max_path_length(matches: &Vec<Match>) -> (r: Option<usize>)
    ensures
        matches@.len() == 0 <==> r is None,
        r matches Some(w) ==> (forall|i: int|
            0 <= i < matches@.len() ==> path_width(#[trigger] matches@[i]) <= w) && (exists|i: int|
            0 <= i < matches@.len() && path_width(#[trigger] matches@[i]) == w),
{
    let mut best: Option<usize> = None;
    let mut i: usize = 0;
    while i < matches.len()
        invariant
            i <= matches@.len(),
            i == 0 <==> best is None,
            best matches Some(w) ==> (forall|j: int|
                0 <= j < i ==> path_width(#[trigger] matches@[j]) <= w) && (exists|j: int|
                0 <= j < i && path_width(#[trigger] matches@[j]) == w),
        decreases matches@.len() - i,
    {
        let w: usize = matches[i].file_path.as_str().len();
        assert(w == path_width(matches@[i as int]));
        let ghost prev = best;
        best = match best {
            Some(b) => if w > b { Some(w) } else { Some(b) },
            None => Some(w),
        };
        proof {
            let nb = best->0;
            assert forall|j: int| 0 <= j < i + 1 implies path_width(#[trigger] matches@[j]) <= nb by {
                if j < i {
                    assert(path_width(matches@[j]) <= prev->0);
                }
            }
            if nb == w {
                assert(path_width(matches@[i as int]) == nb);
            } else {
                let k = choose|k: int| 0 <= k < i && path_width(#[trigger] matches@[k]) == prev->0;
                assert(path_width(matches@[k]) == nb);
            }
        }
        i = i + 1;
    }
    best
}

/// The widest line number of `matches` in decimal digits, or `None` when there
/// are no matches.
pub fn max_line_number_length(matches: &Vec<Match>) -> (r: Option<usize>)
    ensures
        matches@.len() == 0 <==> r is None,
        r matches Some(w) ==> (forall|i: int|
            0 <= i < matches@.len() ==> line_number_width(#[trigger] matches@[i]) <= w) && (exists|
            i: int,
        | 0 <= i < matches@.len() && line_number_width(#[trigger] matches@[i]) == w),
{
    let mut best: Option<usize> = None;
    let mut i: usize = 0;
    while i < matches.len()
        invariant
            i <= matches@.len(),
            i == 0 <==> best is None,
            best matches Some(w) ==> (forall|j: int|
                0 <= j < i ==> line_number_width(#[trigger] matches@[j]) <= w) && (exists|j: int|
                0 <= j < i && line_number_width(#[trigger] matches@[j]) == w),
        decreases matches@.len() - i,
    {
        let digits = decimal_chars(matches[i].line_number);
        let w: usize = digits.len();
        assert(w == line_number_width(matches@[i as int]));
        let ghost prev = best;
        best = match best {
            Some(b) => if w > b { Some(w) } else { Some(b) },
            None => Some(w),
        };
        proof {
            let nb = best->0;
            assert forall|j: int| 0 <= j < i + 1 implies line_number_width(
                #[trigger] matches@[j],
            ) <= nb by {
                if j < i {
                    assert(line_number_width(matches@[j]) <= prev->0);
                }
            }
            if nb == w {
                assert(line_number_width(matches@[i as int]) == nb);
            } else {
                let k = choose|k: int| 0 <= k < i && line_number_width(#[trigger] matches@[k]) == prev->0;
                assert(line_number_width(matches@[k]) == nb);
            }
        }
        i = i + 1;
    }
    best
}

impl Match {
    /// The `path:line_number` column of this match, padded with spaces to the
    /// widest path plus the widest line number plus one, then the separator glyph.
    pub fn padded_reference(&self, max_path_length: Option<usize>, max_line_number_length: Option<
        usize,
    >) -> (r: String)
        requires
            unwrap_or_zero(max_path_length) + unwrap_or_zero(max_line_number_length) + 1
                <= usize::MAX,
        ensures
            r@ == padded_reference_spec(*self, max_path_length, max_line_number_length),
    {
        let path_w: usize = match max_path_length {
            Some(w) => w,
            None => 0,
        };
        let line_w: usize = match max_line_number_length {
            Some(w) => w,
            None => 0,
        };
        let width: usize = path_w + line_w + 1;
        let mut v = chars_of(self.file_path.as_str());
        v.push(':');
        let mut digits = decimal_chars(self.line_number);
        v.append(&mut digits);
        let ghost base = v@;
        proof {
            assert(base =~= reference_spec(*self));
        }
        while v.len() < width
            invariant
                base.len() <= v@.len(),
                base.len() < width ==> v@.len() <= width,
                base.len() >= width ==> v@.len() == base.len(),
                v@ == base + Seq::new((v@.len() - base.len()) as nat, |i: int| ' '),
            decreases width - v@.len(),
        {
            v.push(' ');
            proof {
                assert(v@ =~= base + Seq::new((v@.len() - base.len()) as nat, |i: int| ' '));
            }
        }
        proof {
            if base.len() >= width {
                assert(v@ =~= base);
            }
        }
        v.push('\u{2502}');
        string_of(&v)
    }

    /// Renders this match: the red reference column, then the line with every
    /// occurrence of `pattern` shown in blue. Colouring is decided by the
    /// terminal settings, so each painted part is either its plain text or that
    /// text between a colour escape and the reset escape.
    pub fn format_as_result(
        &self,
        pattern: &str,
        max_path_length: Option<usize>,
        max_line_number_length: Option<usize>,
    ) -> (r: String)
        requires
            unwrap_or_zero(max_path_length) + unwrap_or_zero(max_line_number_length) + 1
                <= usize::MAX,
        ensures
            exists|head: Seq<char>, shown: Seq<char>|
                painted(padded_reference_spec(*self, max_path_length, max_line_number_length), head, red_start())
                    && painted(pattern@, shown, blue_start()) && r@ == head + replace_spec(
                    self.line@,
                    pattern@,
                    shown,
                ),
    {
        let shown = paint_blue(pattern);
        let body = highlight(self.line.as_str(), pattern, shown.as_str());
        let reference = self.padded_reference(max_path_length, max_line_number_length);
        let head = paint_red(reference.as_str());
        let mut out = chars_of(head.as_str());
        let mut rest = chars_of(body.as_str());
        out.append(&mut rest);
        let r = string_of(&out);
        proof {
            assert(r@ == head@ + replace_spec(self.line@, pattern@, shown@));
        }
        r
    }
}

} // verus!
