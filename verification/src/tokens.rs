//! Splitting source text into lines and tokens, and per-line
//! normalization: comment stripping, trimming, comma removal and
//! upper-casing.

use vstd::prelude::*;
use crate::chars::upper_seq;
use crate::chars::upper_char;

verus! {

/// Whitespace inside a line.
pub open spec fn is_space(c: char) -> bool {
    c == ' ' || c == '\t' || c == '\r'
}

/// Exec test for line whitespace.
pub fn space(c: char) -> (r: bool)
    ensures
        r == is_space(c),
{
    c == ' ' || c == '\t' || c == '\r'
}

/// Index of the first occurrence of `c` in `s`, or `s.len()`.
pub open spec fn find_in(s: Seq<char>, c: char) -> nat
    decreases s.len(),
{
    if s.len() == 0 || s[0] == c {
        0
    } else {
        1 + find_in(s.drop_first(), c)
    }
}

/// `find_in` never points past the end.
pub proof fn lemma_find_in_le(s: Seq<char>, c: char)
    ensures
        find_in(s, c) <= s.len(),
    decreases s.len(),
{
    if s.len() > 0 && s[0] != c {
        lemma_find_in_le(s.drop_first(), c);
    }
}

/// A prefix free of `c` that ends at `c` or at the end pins `find_in` down.
pub proof fn lemma_find_in_run(s: Seq<char>, c: char, k: nat)
    requires
        k <= s.len(),
        forall|m: int| 0 <= m < k ==> s[m] != c,
        k == s.len() || s[k as int] == c,
    ensures
        find_in(s, c) == k,
    decreases k,
{
    if k > 0 {
        lemma_find_in_run(s.drop_first(), c, (k - 1) as nat);
    }
}

/// Length of the leading run of non-space characters.
pub open spec fn head_token_len(s: Seq<char>) -> nat
    decreases s.len(),
{
    if s.len() == 0 || is_space(s[0]) {
        0
    } else {
        1 + head_token_len(s.drop_first())
    }
}

/// The leading token never runs past the end.
pub proof fn lemma_head_token_len_le(s: Seq<char>)
    ensures
        head_token_len(s) <= s.len(),
    decreases s.len(),
{
    if s.len() > 0 && !is_space(s[0]) {
        lemma_head_token_len_le(s.drop_first());
    }
}

/// A non-space prefix that ends at a space or at the end pins
/// `head_token_len` down.
pub proof fn lemma_head_token_run(s: Seq<char>, k: nat)
    requires
        k <= s.len(),
        forall|m: int| 0 <= m < k ==> !is_space(s[m]),
        k == s.len() || is_space(s[k as int]),
    ensures
        head_token_len(s) == k,
    decreases k,
{
    if k > 0 {
        lemma_head_token_run(s.drop_first(), (k - 1) as nat);
    }
}

/// The whitespace-separated tokens of a line, in order.
pub open spec fn tokens_of(s: Seq<char>) -> Seq<Seq<char>>
    decreases s.len(),
    via tokens_of_dec
{
    if s.len() == 0 {
        Seq::empty()
    } else if is_space(s[0]) {
        tokens_of(s.drop_first())
    } else {
        seq![s.take(head_token_len(s) as int)] + tokens_of(s.skip(head_token_len(s) as int))
    }
}

#[via_fn]
proof fn tokens_of_dec(s: Seq<char>) {
    if s.len() > 0 && !is_space(s[0]) {
        lemma_head_token_len_le(s);
    }
}

/// The views of a vector of character vectors.
pub open spec fn views_of(ts: Seq<Vec<char>>) -> Seq<Seq<char>> {
    ts.map_values(|t: Vec<char>| t@)
}

/// Split a line into its whitespace-separated tokens.
pub fn split_ws(line: &Vec<char>) -> (toks: Vec<Vec<char>>)
    ensures
        views_of(toks@) == tokens_of(line@),
{
    let mut toks: Vec<Vec<char>> = Vec::new();
    let mut i: usize = 0;
    proof {
        assert(line@.skip(0) =~= line@);
        assert(views_of(toks@) =~= Seq::<Seq<char>>::empty());
    }
    while i < line.len()
        invariant
            0 <= i <= line@.len(),
            views_of(toks@) + tokens_of(line@.skip(i as int)) == tokens_of(line@),
        decreases line@.len() - i,
    {
        if space(line[i]) {
            proof {
                assert(line@.skip(i as int).drop_first() =~= line@.skip(i + 1));
            }
            i += 1;
        } else {
            let start = i;
            let mut tok: Vec<char> = Vec::new();
            proof {
                assert(tok@ =~= line@.subrange(start as int, start as int));
            }
            while i < line.len() && !space(line[i])
                invariant
                    start <= i <= line@.len(),
                    start < line@.len(),
                    !is_space(line@[start as int]),
                    tok@ == line@.subrange(start as int, i as int),
                    forall|m: int| start <= m < i ==> !is_space(line@[m]),
                decreases line@.len() - i,
            {
                tok.push(line[i]);
                proof {
                    assert(tok@ =~= line@.subrange(start as int, i + 1));
                }
                i += 1;
            }
            proof {
                let s = line@.skip(start as int);
                assert(forall|m: int| 0 <= m < i - start ==> !is_space(s[m]));
                lemma_head_token_run(s, (i - start) as nat);
                assert(s.take(i - start) =~= line@.subrange(start as int, i as int));
                assert(s.skip(i - start) =~= line@.skip(i as int));
                assert(tokens_of(s) == seq![tok@] + tokens_of(line@.skip(i as int)));
                assert(views_of(toks@.push(tok)) =~= views_of(toks@) + seq![tok@]);
                assert((views_of(toks@) + seq![tok@]) + tokens_of(line@.skip(i as int))
                    =~= views_of(toks@) + (seq![tok@] + tokens_of(line@.skip(i as int))));
            }
            toks.push(tok);
        }
    }
    proof {
        assert(line@.skip(i as int) =~= Seq::<char>::empty());
        assert(views_of(toks@) + tokens_of(Seq::<char>::empty()) =~= views_of(toks@));
    }
    toks
}

/// Length of the leading run of whitespace.
pub open spec fn leading_ws(s: Seq<char>) -> nat
    decreases s.len(),
{
    if s.len() == 0 || !is_space(s[0]) {
        0
    } else {
        1 + leading_ws(s.drop_first())
    }
}

/// Length of the trailing run of whitespace.
pub open spec fn trailing_ws(s: Seq<char>) -> nat
    decreases s.len(),
{
    if s.len() == 0 || !is_space(s.last()) {
        0
    } else {
        1 + trailing_ws(s.drop_last())
    }
}

/// A space prefix ending at a non-space pins `leading_ws` down.
pub proof fn lemma_leading_ws_run(s: Seq<char>, k: nat)
    requires
        k <= s.len(),
        forall|m: int| 0 <= m < k ==> is_space(s[m]),
        k == s.len() || !is_space(s[k as int]),
    ensures
        leading_ws(s) == k,
    decreases k,
{
    if k > 0 {
        lemma_leading_ws_run(s.drop_first(), (k - 1) as nat);
    }
}

/// A space suffix starting after a non-space pins `trailing_ws` down.
pub proof fn lemma_trailing_ws_run(s: Seq<char>, k: nat)
    requires
        k <= s.len(),
        forall|m: int| s.len() - k <= m < s.len() ==> is_space(s[m]),
        k == s.len() || !is_space(s[s.len() - k - 1]),
    ensures
        trailing_ws(s) == k,
    decreases k,
{
    if k > 0 {
        lemma_trailing_ws_run(s.drop_last(), (k - 1) as nat);
    }
}

/// `s` with leading and trailing whitespace removed.
pub open spec fn trim_spec(s: Seq<char>) -> Seq<char> {
    if leading_ws(s) == s.len() {
        Seq::empty()
    } else {
        s.subrange(leading_ws(s) as int, s.len() - trailing_ws(s))
    }
}

/// Comma separators turned into spaces.
pub open spec fn decomma(s: Seq<char>) -> Seq<char> {
    s.map_values(|c: char| if c == ',' { ' ' } else { c })
}

/// One source line, normalized: truncated at the first `;`, trimmed,
/// commas replaced by spaces, upper-cased.
pub open spec fn normalize_line(raw: Seq<char>) -> Seq<char> {
    upper_seq(decomma(trim_spec(raw.take(find_in(raw, ';') as int))))
}

/// When the whole line is whitespace, leading and trailing runs agree.
proof fn lemma_all_ws(s: Seq<char>)
    requires
        leading_ws(s) == s.len(),
    ensures
        forall|m: int| 0 <= m < s.len() ==> is_space(s[m]),
    decreases s.len(),
{
    if s.len() > 0 {
        lemma_all_ws(s.drop_first());
        assert(forall|m: int| 1 <= m < s.len() ==> s[m] == s.drop_first()[m - 1]);
    }
}

/// Normalize one raw source line.
pub fn normalize_line_vec(raw: &Vec<char>) -> (out: Vec<char>)
    ensures
        out@ == normalize_line(raw@),
{
    // Truncate at the first comment delimiter.
    let mut e: usize = 0;
    while e < raw.len() && raw[e] != ';'
        invariant
            0 <= e <= raw@.len(),
            forall|m: int| 0 <= m < e ==> raw@[m] != ';',
        decreases raw@.len() - e,
    {
        e += 1;
    }
    proof {
        lemma_find_in_run(raw@, ';', e as nat);
    }
    let ghost stripped = raw@.take(e as int);
    // Trim whitespace.
    let mut a: usize = 0;
    while a < e && (raw[a] == ' ' || raw[a] == '\t' || raw[a] == '\r')
        invariant
            0 <= a <= e <= raw@.len(),
            stripped == raw@.take(e as int),
            forall|m: int| 0 <= m < a ==> is_space(stripped[m]),
        decreases e - a,
    {
        a += 1;
    }
    if a == e {
        proof {
            lemma_leading_ws_run(stripped, a as nat);
            assert(trim_spec(stripped) =~= Seq::<char>::empty());
            assert(decomma(trim_spec(stripped)) =~= Seq::<char>::empty());
            assert(normalize_line(raw@) =~= Seq::<char>::empty());
        }
        return Vec::new();
    }
    proof {
        lemma_leading_ws_run(stripped, a as nat);
    }
    let mut b: usize = e;
    while b > a && (raw[b - 1] == ' ' || raw[b - 1] == '\t' || raw[b - 1] == '\r')
        invariant
            a <= b <= e <= raw@.len(),
            a < e,
            stripped == raw@.take(e as int),
            !is_space(stripped[a as int]),
            forall|m: int| b <= m < e ==> is_space(stripped[m]),
        decreases b,
    {
        b -= 1;
    }
    proof {
        assert(b > a);
        assert(!is_space(stripped[b - 1]));
        lemma_trailing_ws_run(stripped, (e - b) as nat);
    }
    // Replace commas by spaces and upper-case, in one pass.
    let ghost trimmed = trim_spec(stripped);
    proof {
        assert(trimmed =~= raw@.subrange(a as int, b as int));
    }
    let mut out: Vec<char> = Vec::new();
    let mut i: usize = a;
    while i < b
        invariant
            a <= i <= b <= e <= raw@.len(),
            trimmed == raw@.subrange(a as int, b as int),
            out@ =~= upper_seq(decomma(trimmed)).take(i - a),
        decreases b - i,
    {
        let c = raw[i];
        let c2 = if c == ',' { ' ' } else { c };
        out.push(upper_char(c2));
        proof {
            assert(out@ =~= upper_seq(decomma(trimmed)).take(i + 1 - a));
        }
        i += 1;
    }
    proof {
        assert(out@ =~= upper_seq(decomma(trimmed)));
    }
    out
}


/// The line segments of a source text, split at newline characters.
pub open spec fn lines_of(s: Seq<char>) -> Seq<Seq<char>>
    decreases s.len(),
    via lines_of_dec
{
    let k = find_in(s, '\n');
    if k == s.len() {
        seq![s]
    } else {
        seq![s.take(k as int)] + lines_of(s.skip(k as int + 1))
    }
}

#[via_fn]
proof fn lines_of_dec(s: Seq<char>) {
    lemma_find_in_le(s, '\n');
}

/// The normalized forms of a line list, lines that become empty dropped.
pub open spec fn norm_of(ls: Seq<Seq<char>>) -> Seq<Seq<char>>
    decreases ls.len(),
{
    if ls.len() == 0 {
        Seq::empty()
    } else {
        (if normalize_line(ls[0]).len() > 0 {
            seq![normalize_line(ls[0])]
        } else {
            Seq::empty()
        }) + norm_of(ls.drop_first())
    }
}

/// The surviving normalized lines of a source text.
pub open spec fn normalized_lines(file: Seq<char>) -> Seq<Seq<char>> {
    norm_of(lines_of(file))
}

/// Split a source text into lines and normalize each, dropping lines
/// that become empty.
pub fn normalize_source(file: &Vec<char>) -> (out: Vec<Vec<char>>)
    ensures
        views_of(out@) == normalized_lines(file@),
{
    let mut out: Vec<Vec<char>> = Vec::new();
    let mut i: usize = 0;
    proof {
        assert(file@.skip(0) =~= file@);
        assert(views_of(out@) + norm_of(lines_of(file@.skip(0))) =~= norm_of(lines_of(file@)));
    }
    while i < file.len()
        invariant
            0 <= i <= file@.len(),
            views_of(out@) + norm_of(lines_of(file@.skip(i as int))) == norm_of(lines_of(file@)),
        decreases file@.len() - i,
    {
        // Find the end of the current line.
        let mut j: usize = i;
        while j < file.len() && file[j] != '\n'
            invariant
                i <= j <= file@.len(),
                forall|m: int| i <= m < j ==> file@[m] != '\n',
            decreases file@.len() - j,
        {
            j += 1;
        }
        let ghost rest = file@.skip(i as int);
        proof {
            assert(forall|m: int| 0 <= m < j - i ==> rest[m] != '\n');
            lemma_find_in_run(rest, '\n', (j - i) as nat);
        }
        // Copy the segment and normalize it.
        let mut seg: Vec<char> = Vec::new();
        let mut m: usize = i;
        while m < j
            invariant
                i <= m <= j <= file@.len(),
                seg@ == file@.subrange(i as int, m as int),
            decreases j - m,
        {
            seg.push(file[m]);
            proof {
                assert(seg@ =~= file@.subrange(i as int, m + 1));
            }
            m += 1;
        }
        let nl = normalize_line_vec(&seg);
        let ghost ov = out@;
        if nl.len() > 0 {
            out.push(nl);
        }
        proof {
            let nv = normalize_line(seg@);
            if nv.len() > 0 {
                assert(views_of(out@) =~= views_of(ov) + seq![nv]);
            } else {
                assert(views_of(out@) == views_of(ov));
            }
            if j == file@.len() {
                assert(rest.take(find_in(rest, '\n') as int) =~= rest);
                assert(rest =~= seg@);
                assert(lines_of(rest) == seq![seg@]);
                assert(seq![seg@].drop_first() =~= Seq::<Seq<char>>::empty());
                assert(norm_of(Seq::<Seq<char>>::empty()) =~= Seq::<Seq<char>>::empty());
                assert(norm_of(seq![seg@].drop_first()) =~= Seq::<Seq<char>>::empty());
                assert(norm_of(lines_of(rest)) =~= (if nv.len() > 0 {
                    seq![nv]
                } else {
                    Seq::<Seq<char>>::empty()
                }));
            } else {
                assert(rest.take((j - i) as int) =~= seg@);
                assert(rest.skip(j - i + 1) =~= file@.skip(j + 1));
                assert(lines_of(rest) == seq![seg@] + lines_of(file@.skip(j + 1)));
                let tail = lines_of(file@.skip(j + 1));
                assert((seq![seg@] + tail)[0] == seg@);
                assert((seq![seg@] + tail).drop_first() =~= tail);
                assert(norm_of(lines_of(rest)) == (if nv.len() > 0 {
                    seq![nv]
                } else {
                    Seq::<Seq<char>>::empty()
                }) + norm_of(tail));
                assert(views_of(out@) + norm_of(tail) =~= norm_of(lines_of(file@)));
            }
        }
        if j == file.len() {
            i = j;
            proof {
                assert(views_of(out@) + Seq::<Seq<char>>::empty() =~= views_of(out@));
                assert(file@.skip(i as int) =~= Seq::<char>::empty());
                let e = Seq::<char>::empty();
                assert(lines_of(e) == seq![e]);
                assert(normalize_line(e).len() == 0) by {
                    assert(e.take(find_in(e, ';') as int) =~= e);
                    assert(trim_spec(e) =~= e);
                    assert(decomma(e) =~= e);
                    assert(upper_seq(e) =~= e);
                }
                assert(seq![e].drop_first() =~= Seq::<Seq<char>>::empty());
                assert(norm_of(Seq::<Seq<char>>::empty()) =~= Seq::<Seq<char>>::empty());
                assert(norm_of(seq![e].drop_first()) =~= Seq::<Seq<char>>::empty());
                assert(norm_of(lines_of(e)) =~= Seq::<Seq<char>>::empty());
            }
            return out;
        }
        i = j + 1;
    }
    proof {
        assert(file@.skip(i as int) =~= Seq::<char>::empty());
        let e = Seq::<char>::empty();
        assert(lines_of(e) == seq![e]);
        assert(normalize_line(e).len() == 0) by {
            assert(e.take(find_in(e, ';') as int) =~= e);
            assert(trim_spec(e) =~= e);
            assert(decomma(e) =~= e);
            assert(upper_seq(e) =~= e);
        }
        assert(seq![e].drop_first() =~= Seq::<Seq<char>>::empty());
        assert(norm_of(Seq::<Seq<char>>::empty()) =~= Seq::<Seq<char>>::empty());
        assert(norm_of(seq![e].drop_first()) =~= Seq::<Seq<char>>::empty());
        assert(norm_of(lines_of(e)) =~= Seq::<Seq<char>>::empty());
        assert(views_of(out@) + Seq::<Seq<char>>::empty() =~= views_of(out@));
    }
    out
}

} // verus!
