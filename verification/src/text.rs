//! Character-level text utilities shared by the parsers and reconcilers.
//!
//! Text is processed as `Vec<char>`; `String` appears only at the crate
//! boundary. Lines are separated by `'\n'`; splitting keeps a trailing empty
//! segment (every caller trims or skips blank lines, so this agrees with the
//! usual line iteration on the inputs that matter).

use vstd::prelude::*;
use vstd::string::StrSliceExecFns;
use vstd::string::StringExecFns;

verus! {

// --- boundary conversions between `String` and `Vec<char>` ---

/// Relies on std's String::push: appends exactly one character.
#[verifier::external_body]
pub fn push_char(s: &mut String, c: char)
    ensures
        final(s)@ == old(s)@.push(c),
{
    s.push(c);
}

/// Collect the characters of a string slice.
pub fn chars_of(s: &str) -> (v: Vec<char>)
    ensures
        v@ == s@,
{
    let n = s.unicode_len();
    let mut v: Vec<char> = Vec::new();
    let mut i: usize = 0;
    while i < n
        invariant
            i <= n,
            n == s@.len(),
            v@ =~= s@.subrange(0, i as int),
        decreases n - i,
    {
        let c = s.get_char(i);
        v.push(c);
        proof {
            assert(v@ =~= s@.subrange(0, i + 1));
        }
        i = i + 1;
    }
    proof {
        assert(v@ =~= s@);
    }
    v
}

/// Build a string from characters.
pub fn string_of(v: &Vec<char>) -> (s: String)
    ensures
        s@ == v@,
{
    let mut s = String::new();
    let mut i: usize = 0;
    while i < v.len()
        invariant
            i <= v@.len(),
            s@ =~= v@.subrange(0, i as int),
        decreases v@.len() - i,
    {
        push_char(&mut s, v[i]);
        proof {
            assert(s@ =~= v@.subrange(0, i + 1));
        }
        i = i + 1;
    }
    proof {
        assert(s@ =~= v@);
    }
    s
}

// --- character classes ---

pub open spec fn spec_is_space(c: char) -> bool {
    c == ' ' || c == '\t' || c == '\r' || c == '\n'
}

pub fn is_space_char(c: char) -> (b: bool)
    ensures
        b == spec_is_space(c),
{
    c == ' ' || c == '\t' || c == '\r' || c == '\n'
}

pub open spec fn spec_is_digit(c: char) -> bool {
    48 <= c as u32 && c as u32 <= 57
}

pub fn is_digit_char(c: char) -> (b: bool)
    ensures
        b == spec_is_digit(c),
{
    let u = c as u32;
    48 <= u && u <= 57
}

/// Lowercase Latin letter `a`..`z`.
pub open spec fn spec_is_lower_latin(c: char) -> bool {
    97 <= c as u32 && c as u32 <= 122
}

/// Lowercase Cyrillic letter, including `ё`.
pub open spec fn spec_is_lower_cyrillic(c: char) -> bool {
    (0x430 <= c as u32 && c as u32 <= 0x44F) || c as u32 == 0x451
}

/// Letter that may open a sub-problem (`а)`, `b.`, ...).
pub open spec fn spec_is_sub_letter(c: char) -> bool {
    spec_is_lower_latin(c) || spec_is_lower_cyrillic(c)
}

pub fn is_sub_letter_char(c: char) -> (b: bool)
    ensures
        b == spec_is_sub_letter(c),
{
    let u = c as u32;
    (97 <= u && u <= 122) || (0x430 <= u && u <= 0x44F) || u == 0x451
}

// --- trimming ---

pub open spec fn spec_trim_start(s: Seq<char>) -> Seq<char>
    decreases s.len(),
{
    if s.len() == 0 {
        s
    } else if spec_is_space(s[0]) {
        spec_trim_start(s.drop_first())
    } else {
        s
    }
}

pub open spec fn spec_trim_end(s: Seq<char>) -> Seq<char>
    decreases s.len(),
{
    if s.len() == 0 {
        s
    } else if spec_is_space(s[s.len() - 1]) {
        spec_trim_end(s.drop_last())
    } else {
        s
    }
}

pub open spec fn spec_trim(s: Seq<char>) -> Seq<char> {
    spec_trim_end(spec_trim_start(s))
}

proof fn lemma_trim_start_skip(s: Seq<char>, i: int)
    requires
        0 <= i <= s.len(),
        forall|j: int| 0 <= j < i ==> spec_is_space(s[j]),
    ensures
        spec_trim_start(s) == spec_trim_start(s.subrange(i, s.len() as int)),
    decreases i,
{
    if i > 0 {
        lemma_trim_start_skip(s, i - 1);
        let t = s.subrange(i - 1, s.len() as int);
        assert(t.len() > 0 && spec_is_space(t[0]));
        assert(t.drop_first() =~= s.subrange(i, s.len() as int));
    } else {
        assert(s.subrange(0, s.len() as int) =~= s);
    }
}

proof fn lemma_trim_end_skip(s: Seq<char>, i: int)
    requires
        0 <= i <= s.len(),
        forall|j: int| i <= j < s.len() ==> spec_is_space(s[j]),
    ensures
        spec_trim_end(s) == spec_trim_end(s.subrange(0, i)),
    decreases s.len() - i,
{
    if i < s.len() {
        let t = s.subrange(0, s.len() - 1);
        assert(spec_is_space(s[s.len() - 1]));
        assert(s.drop_last() =~= t);
        lemma_trim_end_skip(t, i);
        assert(t.subrange(0, i) =~= s.subrange(0, i));
    } else {
        assert(s.subrange(0, s.len() as int) =~= s);
    }
}

/// Trimming from the right stops at the last non-space.
pub proof fn lemma_trim_end_chars(s: Seq<char>, end: int)
    requires
        0 <= end <= s.len(),
        forall|j: int| end <= j < s.len() ==> spec_is_space(s[j]),
        end > 0 ==> !spec_is_space(s[end - 1]),
    ensures
        spec_trim_end(s) == s.subrange(0, end),
{
    lemma_trim_end_skip(s, end);
    let t = s.subrange(0, end);
    if end > 0 {
        assert(!spec_is_space(t[t.len() - 1]));
    }
}

/// Remove leading and trailing whitespace.
pub fn trim_chars(v: &Vec<char>) -> (r: Vec<char>)
    ensures
        r@ == spec_trim(v@),
{
    let n = v.len();
    let mut start: usize = 0;
    while start < n && is_space_char(v[start])
        invariant
            n == v@.len(),
            start <= n,
            forall|j: int| 0 <= j < start ==> spec_is_space(v@[j]),
        decreases n - start,
    {
        start = start + 1;
    }
    proof {
        lemma_trim_start_skip(v@, start as int);
    }
    let ghost tail_seq: Seq<char> = v@.subrange(start as int, n as int);
    let mut end: usize = n;
    while end > start && is_space_char(v[end - 1])
        invariant
            n == v@.len(),
            start <= end <= n,
            forall|j: int| end <= j < n ==> spec_is_space(v@[j]),
        decreases end,
    {
        end = end - 1;
    }
    proof {
        assert forall|j: int| (end - start) <= j < tail_seq.len() implies spec_is_space(
            tail_seq[j],
        ) by {
            assert(tail_seq[j] == v@[j + start]);
        }
        lemma_trim_end_skip(tail_seq, end - start);
        assert(tail_seq.subrange(0, end - start) =~= v@.subrange(start as int, end as int));
    }
    let mut r: Vec<char> = Vec::new();
    let mut i: usize = start;
    while i < end
        invariant
            start <= i <= end <= n,
            n == v@.len(),
            r@ =~= v@.subrange(start as int, i as int),
        decreases end - i,
    {
        r.push(v[i]);
        proof {
            assert(r@ =~= v@.subrange(start as int, i + 1));
        }
        i = i + 1;
    }
    proof {
        assert(r@ =~= v@.subrange(start as int, end as int));
    }
    r
}

/// A sequence is blank when trimming leaves nothing.
pub open spec fn spec_is_blank(s: Seq<char>) -> bool {
    spec_trim(s).len() == 0
}

// --- splitting into lines ---

/// Prepend `p` onto the first segment of a non-empty segment list.
pub open spec fn spec_prepend_first(p: Seq<char>, segs: Seq<Seq<char>>) -> Seq<Seq<char>> {
    seq![p + segs[0]] + segs.drop_first()
}

/// Split at every `'\n'`; the result has one segment more than there are
/// separators, so it is never empty and may end with an empty segment.
pub open spec fn spec_lines(s: Seq<char>) -> Seq<Seq<char>>
    decreases s.len(),
{
    if s.len() == 0 {
        seq![Seq::<char>::empty()]
    } else if s[0] == '\n' {
        seq![Seq::<char>::empty()] + spec_lines(s.drop_first())
    } else {
        spec_prepend_first(seq![s[0]], spec_lines(s.drop_first()))
    }
}

pub proof fn lemma_lines_nonempty(s: Seq<char>)
    ensures
        spec_lines(s).len() >= 1,
    decreases s.len(),
{
    if s.len() > 0 {
        lemma_lines_nonempty(s.drop_first());
    }
}

proof fn lemma_lines_step(s: Seq<char>, i: int)
    requires
        0 <= i < s.len(),
    ensures
        s[i] == '\n' ==> spec_lines(s.subrange(i, s.len() as int)) == seq![Seq::<char>::empty()]
            + spec_lines(s.subrange(i + 1, s.len() as int)),
        s[i] != '\n' ==> spec_lines(s.subrange(i, s.len() as int)) == spec_prepend_first(
            seq![s[i]],
            spec_lines(s.subrange(i + 1, s.len() as int)),
        ),
{
    let t = s.subrange(i, s.len() as int);
    assert(t.len() > 0);
    assert(t[0] == s[i]);
    assert(t.drop_first() =~= s.subrange(i + 1, s.len() as int));
}

/// Split text into its lines.
pub fn split_lines(v: &Vec<char>) -> (r: Vec<Vec<char>>)
    ensures
        r@.map_values(|l: Vec<char>| l@) == spec_lines(v@),
{
    let n = v.len();
    let mut out: Vec<Vec<char>> = Vec::new();
    let mut cur: Vec<char> = Vec::new();
    let mut i: usize = 0;
    proof {
        assert(v@.subrange(0, n as int) =~= v@);
        lemma_lines_nonempty(v@);
        assert(spec_prepend_first(Seq::<char>::empty(), spec_lines(v@)) =~~= spec_lines(v@));
        assert(out@.map_values(|l: Vec<char>| l@) + spec_prepend_first(cur@, spec_lines(v@))
            =~~= spec_lines(v@));
    }
    while i < n
        invariant
            i <= n,
            n == v@.len(),
            spec_lines(v@) == out@.map_values(|l: Vec<char>| l@) + spec_prepend_first(
                cur@,
                spec_lines(v@.subrange(i as int, n as int)),
            ),
        decreases n - i,
    {
        proof {
            lemma_lines_step(v@, i as int);
            lemma_lines_nonempty(v@.subrange(i + 1, n as int));
        }
        let ghost old_out = out@;
        let ghost old_cur = cur@;
        let ghost rest = spec_lines(v@.subrange(i + 1, n as int));
        let c = v[i];
        if c == '\n' {
            out.push(cur);
            cur = Vec::new();
            proof {
                assert(out@.map_values(|l: Vec<char>| l@) =~~= old_out.map_values(
                    |l: Vec<char>| l@,
                ).push(old_cur));
                assert(spec_prepend_first(old_cur, seq![Seq::<char>::empty()] + rest)
                    =~~= seq![old_cur] + spec_prepend_first(Seq::<char>::empty(), rest));
                assert(spec_prepend_first(Seq::<char>::empty(), rest) =~~= rest);
                assert(old_out.map_values(|l: Vec<char>| l@) + (seq![old_cur]
                    + spec_prepend_first(cur@, rest)) =~~= out@.map_values(|l: Vec<char>| l@)
                    + spec_prepend_first(cur@, rest));
                assert(spec_lines(v@) =~~= out@.map_values(|l: Vec<char>| l@)
                    + spec_prepend_first(cur@, rest));
            }
        } else {
            cur.push(c);
            proof {
                assert(cur@ =~= old_cur + seq![v@[i as int]]);
                assert(spec_prepend_first(old_cur, spec_prepend_first(seq![v@[i as int]], rest))
                    =~~= spec_prepend_first(old_cur + seq![v@[i as int]], rest));
            }
        }
        i = i + 1;
    }
    proof {
        assert(v@.subrange(n as int, n as int) =~= Seq::<char>::empty());
        assert(spec_lines(Seq::<char>::empty()) == seq![Seq::<char>::empty()]);
        assert(spec_prepend_first(cur@, seq![Seq::<char>::empty()]) =~~= seq![cur@]);
    }
    let ghost pre_out = out@;
    out.push(cur);
    proof {
        assert(out@.map_values(|l: Vec<char>| l@) =~~= pre_out.map_values(|l: Vec<char>| l@).push(
            cur@,
        ));
        assert(out@.map_values(|l: Vec<char>| l@) =~~= spec_lines(v@));
    }
    out
}

/// Split at every occurrence of `sep`, like the line split.
pub open spec fn spec_split_sep(s: Seq<char>, sep: char) -> Seq<Seq<char>>
    decreases s.len(),
{
    if s.len() == 0 {
        seq![Seq::<char>::empty()]
    } else if s[0] == sep {
        seq![Seq::<char>::empty()] + spec_split_sep(s.drop_first(), sep)
    } else {
        spec_prepend_first(seq![s[0]], spec_split_sep(s.drop_first(), sep))
    }
}

pub proof fn lemma_split_sep_nonempty(s: Seq<char>, sep: char)
    ensures
        spec_split_sep(s, sep).len() >= 1,
    decreases s.len(),
{
    if s.len() > 0 {
        lemma_split_sep_nonempty(s.drop_first(), sep);
    }
}

proof fn lemma_split_sep_step(s: Seq<char>, sep: char, i: int)
    requires
        0 <= i < s.len(),
    ensures
        s[i] == sep ==> spec_split_sep(s.subrange(i, s.len() as int), sep) == seq![
            Seq::<char>::empty(),
        ] + spec_split_sep(s.subrange(i + 1, s.len() as int), sep),
        s[i] != sep ==> spec_split_sep(s.subrange(i, s.len() as int), sep) == spec_prepend_first(
            seq![s[i]],
            spec_split_sep(s.subrange(i + 1, s.len() as int), sep),
        ),
{
    let t = s.subrange(i, s.len() as int);
    assert(t[0] == s[i]);
    assert(t.drop_first() =~= s.subrange(i + 1, s.len() as int));
}

/// Split text at a separator character.
pub fn split_sep(v: &Vec<char>, sep: char) -> (r: Vec<Vec<char>>)
    ensures
        r@.map_values(|l: Vec<char>| l@) == spec_split_sep(v@, sep),
{
    let n = v.len();
    let mut out: Vec<Vec<char>> = Vec::new();
    let mut cur: Vec<char> = Vec::new();
    let mut i: usize = 0;
    proof {
        assert(v@.subrange(0, n as int) =~= v@);
        lemma_split_sep_nonempty(v@, sep);
        assert(spec_prepend_first(Seq::<char>::empty(), spec_split_sep(v@, sep)) =~~= spec_split_sep(
            v@,
            sep,
        ));
        assert(out@.map_values(|l: Vec<char>| l@) + spec_prepend_first(
            cur@,
            spec_split_sep(v@, sep),
        ) =~~= spec_split_sep(v@, sep));
    }
    while i < n
        invariant
            i <= n,
            n == v@.len(),
            spec_split_sep(v@, sep) == out@.map_values(|l: Vec<char>| l@) + spec_prepend_first(
                cur@,
                spec_split_sep(v@.subrange(i as int, n as int), sep),
            ),
        decreases n - i,
    {
        proof {
            lemma_split_sep_step(v@, sep, i as int);
            lemma_split_sep_nonempty(v@.subrange(i + 1, n as int), sep);
        }
        let ghost old_out = out@;
        let ghost old_cur = cur@;
        let ghost rest = spec_split_sep(v@.subrange(i + 1, n as int), sep);
        let c = v[i];
        if c == sep {
            out.push(cur);
            cur = Vec::new();
            proof {
                assert(out@.map_values(|l: Vec<char>| l@) =~~= old_out.map_values(
                    |l: Vec<char>| l@,
                ).push(old_cur));
                assert(spec_prepend_first(old_cur, seq![Seq::<char>::empty()] + rest)
                    =~~= seq![old_cur] + spec_prepend_first(Seq::<char>::empty(), rest));
                assert(spec_prepend_first(Seq::<char>::empty(), rest) =~~= rest);
                assert(old_out.map_values(|l: Vec<char>| l@) + (seq![old_cur]
                    + spec_prepend_first(cur@, rest)) =~~= out@.map_values(|l: Vec<char>| l@)
                    + spec_prepend_first(cur@, rest));
                assert(spec_split_sep(v@, sep) =~~= out@.map_values(|l: Vec<char>| l@)
                    + spec_prepend_first(cur@, rest));
            }
        } else {
            cur.push(c);
            proof {
                assert(cur@ =~= old_cur + seq![v@[i as int]]);
                assert(spec_prepend_first(old_cur, spec_prepend_first(seq![v@[i as int]], rest))
                    =~~= spec_prepend_first(old_cur + seq![v@[i as int]], rest));
            }
        }
        i = i + 1;
    }
    proof {
        assert(v@.subrange(n as int, n as int) =~= Seq::<char>::empty());
        assert(spec_split_sep(Seq::<char>::empty(), sep) == seq![Seq::<char>::empty()]);
        assert(spec_prepend_first(cur@, seq![Seq::<char>::empty()]) =~~= seq![cur@]);
    }
    let ghost pre_out = out@;
    out.push(cur);
    proof {
        assert(out@.map_values(|l: Vec<char>| l@) =~~= pre_out.map_values(|l: Vec<char>| l@).push(
            cur@,
        ));
        assert(out@.map_values(|l: Vec<char>| l@) =~~= spec_split_sep(v@, sep));
    }
    out
}

// --- joining ---

/// Join segments with a separator sequence.
pub open spec fn spec_join_with(segs: Seq<Seq<char>>, sep: Seq<char>) -> Seq<char>
    decreases segs.len(),
{
    if segs.len() == 0 {
        Seq::<char>::empty()
    } else if segs.len() == 1 {
        segs[0]
    } else {
        segs[0] + sep + spec_join_with(segs.drop_first(), sep)
    }
}

/// Append every element of `src` to `dst`.
pub fn push_all(dst: &mut Vec<char>, src: &Vec<char>)
    ensures
        final(dst)@ == old(dst)@ + src@,
{
    let mut i: usize = 0;
    while i < src.len()
        invariant
            i <= src@.len(),
            dst@ =~= old(dst)@ + src@.subrange(0, i as int),
        decreases src@.len() - i,
    {
        dst.push(src[i]);
        proof {
            assert(dst@ =~= old(dst)@ + src@.subrange(0, i + 1));
        }
        i = i + 1;
    }
    proof {
        assert(dst@ =~= old(dst)@ + src@);
    }
}

proof fn lemma_join_step(segs: Seq<Seq<char>>, i: int, sep: Seq<char>)
    requires
        0 <= i,
        i + 2 <= segs.len(),
    ensures
        spec_join_with(segs.subrange(i, segs.len() as int), sep) == segs[i] + sep
            + spec_join_with(segs.subrange(i + 1, segs.len() as int), sep),
{
    let t = segs.subrange(i, segs.len() as int);
    assert(t.len() >= 2);
    assert(t[0] == segs[i]);
    assert(t.drop_first() =~= segs.subrange(i + 1, segs.len() as int));
}

/// Join lines with a separator.
pub fn join_with(lines: &Vec<Vec<char>>, sep: &Vec<char>) -> (r: Vec<char>)
    ensures
        r@ == spec_join_with(lines@.map_values(|l: Vec<char>| l@), sep@),
{
    let ghost segs = lines@.map_values(|l: Vec<char>| l@);
    let n = lines.len();
    let mut r: Vec<char> = Vec::new();
    if n == 0 {
        return r;
    }
    let mut i: usize = 0;
    proof {
        assert(segs.subrange(0, n as int) =~= segs);
        assert(r@ + spec_join_with(segs, sep@) =~= spec_join_with(segs, sep@));
    }
    while i < n
        invariant
            i <= n,
            n >= 1,
            n == segs.len(),
            segs == lines@.map_values(|l: Vec<char>| l@),
            i < n ==> spec_join_with(segs, sep@) == r@ + spec_join_with(
                segs.subrange(i as int, n as int),
                sep@,
            ),
            i == n ==> spec_join_with(segs, sep@) == r@,
        decreases n - i,
    {
        proof {
            assert(segs[i as int] == lines@[i as int]@);
        }
        push_all(&mut r, &lines[i]);
        if i + 1 < n {
            proof {
                lemma_join_step(segs, i as int, sep@);
            }
            push_all(&mut r, sep);
        } else {
            proof {
                let t = segs.subrange(i as int, n as int);
                assert(t.len() == 1);
                assert(t[0] == segs[i as int]);
            }
        }
        i = i + 1;
    }
    r
}

/// Copy a character vector.
pub fn copy_chars(v: &Vec<char>) -> (r: Vec<char>)
    ensures
        r@ == v@,
{
    let mut r: Vec<char> = Vec::new();
    push_all(&mut r, v);
    proof {
        assert(r@ =~= v@);
    }
    r
}

/// Copy the line range `[from, to)`.
pub fn slice_lines(lines: &Vec<Vec<char>>, from: usize, to: usize) -> (r: Vec<Vec<char>>)
    requires
        from <= to <= lines@.len(),
    ensures
        r@.map_values(|l: Vec<char>| l@) == lines@.map_values(|l: Vec<char>| l@).subrange(
            from as int,
            to as int,
        ),
{
    let mut r: Vec<Vec<char>> = Vec::new();
    let mut j: usize = from;
    proof {
        assert(r@.map_values(|l: Vec<char>| l@) =~= lines@.map_values(
            |l: Vec<char>| l@,
        ).subrange(from as int, from as int));
    }
    while j < to
        invariant
            from <= j <= to <= lines@.len(),
            r@.map_values(|l: Vec<char>| l@) == lines@.map_values(|l: Vec<char>| l@).subrange(
                from as int,
                j as int,
            ),
        decreases to - j,
    {
        let c = copy_chars(&lines[j]);
        let ghost old_r = r@;
        let ghost cv = c@;
        r.push(c);
        proof {
            let f = |l: Vec<char>| l@;
            assert(r@.map_values(f) =~= old_r.map_values(f).push(cv));
            assert(lines@.map_values(f)[j as int] == lines@[j as int]@);
            assert(lines@.map_values(f).subrange(from as int, j + 1) =~= lines@.map_values(
                f,
            ).subrange(from as int, j as int).push(lines@.map_values(f)[j as int]));
            assert(r@.map_values(f) =~= lines@.map_values(f).subrange(from as int, j + 1));
        }
        j = j + 1;
    }
    r
}

/// Copy the character range `[from, to)`.
pub fn slice_chars(v: &Vec<char>, from: usize, to: usize) -> (r: Vec<char>)
    requires
        from <= to <= v@.len(),
    ensures
        r@ == v@.subrange(from as int, to as int),
{
    let mut r: Vec<char> = Vec::new();
    let mut i: usize = from;
    while i < to
        invariant
            from <= i <= to <= v@.len(),
            r@ =~= v@.subrange(from as int, i as int),
        decreases to - i,
    {
        r.push(v[i]);
        proof {
            assert(r@ =~= v@.subrange(from as int, i + 1));
        }
        i = i + 1;
    }
    r
}

// --- prefix comparison ---

/// `pat` occurs in `v` starting at `i`.
pub open spec fn spec_has_prefix_at(s: Seq<char>, i: int, pat: Seq<char>) -> bool {
    0 <= i && i + pat.len() <= s.len() && s.subrange(i, i + pat.len()) == pat
}

pub fn has_prefix_at(v: &Vec<char>, i: usize, pat: &Vec<char>) -> (b: bool)
    ensures
        b == spec_has_prefix_at(v@, i as int, pat@),
{
    let n = v.len();
    if i > n || pat.len() > n - i {
        proof {
            assert(!spec_has_prefix_at(v@, i as int, pat@));
        }
        return false;
    }
    let m = pat.len();
    let mut j: usize = 0;
    while j < m
        invariant
            j <= m,
            m == pat@.len(),
            n == v@.len(),
            i + m <= n,
            forall|k: int| 0 <= k < j ==> v@[i + k] == pat@[k],
        decreases m - j,
    {
        if v[i + j] != pat[j] {
            proof {
                assert(v@.subrange(i as int, i + m) != pat@) by {
                    assert(v@.subrange(i as int, i + m)[j as int] != pat@[j as int]);
                }
            }
            return false;
        }
        j = j + 1;
    }
    proof {
        assert(v@.subrange(i as int, i + m) =~= pat@);
    }
    true
}

// --- numbers ---

/// Value of a digit string, most significant first.
pub open spec fn spec_digits_value(s: Seq<char>) -> int
    decreases s.len(),
{
    if s.len() == 0 {
        0
    } else {
        spec_digits_value(s.drop_last()) * 10 + (s[s.len() - 1] as u32 - 48)
    }
}

pub open spec fn spec_all_digits(s: Seq<char>) -> bool {
    forall|i: int| 0 <= i < s.len() ==> spec_is_digit(#[trigger] s[i])
}

/// Parse a decimal number; `None` when empty, non-numeric, or over `u32::MAX`.
pub fn parse_u32(v: &Vec<char>) -> (r: Option<u32>)
    ensures
        match r {
            Some(n) => spec_all_digits(v@) && v@.len() > 0 && n == spec_digits_value(v@),
            None => v@.len() == 0 || !spec_all_digits(v@) || spec_digits_value(v@) > u32::MAX,
        },
{
    let n = v.len();
    if n == 0 {
        return None;
    }
    let mut acc: u32 = 0;
    let mut i: usize = 0;
    while i < n
        invariant
            i <= n,
            n == v@.len(),
            spec_all_digits(v@.subrange(0, i as int)),
            acc == spec_digits_value(v@.subrange(0, i as int)),
        decreases n - i,
    {
        let c = v[i];
        if !is_digit_char(c) {
            return None;
        }
        let d: u32 = (c as u32) - 48;
        proof {
            let t = v@.subrange(0, i + 1);
            assert(t.drop_last() =~= v@.subrange(0, i as int));
            assert(t[t.len() - 1] == v@[i as int]);
        }
        if acc > (u32::MAX - d) / 10 {
            proof {
                let t = v@.subrange(0, i + 1);
                assert(spec_digits_value(t) == acc * 10 + d);
                assert(acc * 10 + d > u32::MAX);
                lemma_digits_value_grows(v@, i as int);
            }
            return None;
        }
        proof {
            assert(acc * 10 + d <= u32::MAX);
        }
        acc = acc * 10 + d;
        i = i + 1;
    }
    proof {
        assert(v@.subrange(0, n as int) =~= v@);
    }
    Some(acc)
}

/// A value, capped at the largest machine word.
pub open spec fn spec_sat_u64(v: int) -> int {
    if v > u64::MAX {
        u64::MAX as int
    } else {
        v
    }
}

/// Read a digit string as a number, saturating at the largest word.
pub fn parse_u64_saturating(v: &Vec<char>) -> (r: u64)
    requires
        spec_all_digits(v@),
    ensures
        r == spec_sat_u64(spec_digits_value(v@)),
{
    let n = v.len();
    let mut acc: u64 = 0;
    let mut i: usize = 0;
    proof {
        assert(v@.subrange(0, 0) =~= Seq::<char>::empty());
    }
    while i < n
        invariant
            i <= n,
            n == v@.len(),
            spec_all_digits(v@),
            acc == spec_sat_u64(spec_digits_value(v@.subrange(0, i as int))),
        decreases n - i,
    {
        let c = v[i];
        let d: u64 = (c as u32 as u64) - 48;
        proof {
            let t = v@.subrange(0, i + 1);
            assert(t.drop_last() =~= v@.subrange(0, i as int));
            assert(t[t.len() - 1] == v@[i as int]);
            assert(spec_is_digit(v@[i as int]));
            lemma_digits_nonneg(v@.subrange(0, i as int));
        }
        if acc > (u64::MAX - d) / 10 {
            proof {
                let prefix = spec_digits_value(v@.subrange(0, i as int));
                if acc < u64::MAX {
                    assert(acc == prefix);
                    assert(prefix * 10 + d > u64::MAX);
                } else {
                    assert(prefix >= u64::MAX);
                    assert(prefix * 10 + d >= prefix) by (nonlinear_arith)
                        requires
                            prefix >= 0,
                            d >= 0,
                    ;
                    assert(prefix * 10 >= prefix + prefix) by (nonlinear_arith)
                        requires
                            prefix >= 0,
                    ;
                    assert(prefix * 10 + d > u64::MAX);
                }
            }
            acc = u64::MAX;
        } else {
            proof {
                assert(acc * 10 + d <= u64::MAX);
                let prefix = spec_digits_value(v@.subrange(0, i as int));
                if acc == u64::MAX {
                    assert((u64::MAX - d) / 10 < u64::MAX);
                    assert(false);
                }
                assert(acc == prefix);
            }
            acc = acc * 10 + d;
        }
        i = i + 1;
    }
    proof {
        assert(v@.subrange(0, n as int) =~= v@);
    }
    acc
}

/// A digit string's value is never negative.
pub proof fn lemma_digits_nonneg(s: Seq<char>)
    requires
        spec_all_digits(s),
    ensures
        spec_digits_value(s) >= 0,
    decreases s.len(),
{
    if s.len() > 0 {
        assert(s.drop_last() =~= s.subrange(0, s.len() - 1));
        assert forall|j: int| 0 <= j < s.drop_last().len() implies spec_is_digit(
            #[trigger] s.drop_last()[j],
        ) by {
            assert(s.drop_last()[j] == s[j]);
        }
        lemma_digits_nonneg(s.drop_last());
        assert(spec_is_digit(s[s.len() - 1]));
        assert(spec_digits_value(s.drop_last()) * 10 >= 0) by (nonlinear_arith)
            requires
                spec_digits_value(s.drop_last()) >= 0,
        ;
    }
}

proof fn lemma_digits_value_grows(s: Seq<char>, i: int)
    requires
        0 <= i < s.len(),
        spec_digits_value(s.subrange(0, i + 1)) > u32::MAX,
    ensures
        spec_digits_value(s) > u32::MAX || !spec_all_digits(s),
    decreases s.len() - i,
{
    if i + 1 == s.len() {
        assert(s.subrange(0, i + 1) =~= s);
    } else if spec_is_digit(s[i + 1]) {
        let t = s.subrange(0, i + 2);
        let p = spec_digits_value(s.subrange(0, i + 1));
        assert(t.drop_last() =~= s.subrange(0, i + 1));
        assert(t[t.len() - 1] == s[i + 1]);
        assert(spec_digits_value(t) == p * 10 + (t[t.len() - 1] as u32 - 48));
        assert(p * 10 >= p) by (nonlinear_arith)
            requires
                p > 0,
        ;
        lemma_digits_value_grows(s, i + 1);
    } else {
        assert(!spec_all_digits(s));
    }
}

} // verus!
