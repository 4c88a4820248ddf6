//! Checks over problem content: math-markup balance and common OCR
//! misspellings, collected as error and warning records.

use vstd::prelude::*;

use crate::models::{spec_u32_digits, u32_digits};
use crate::text::{
    chars_of, has_prefix_at, push_all, spec_has_prefix_at, spec_trim, string_of, trim_chars,
};

verus! {

/// The outcome of a validation: errors make it invalid, warnings do not.
pub struct ValidationResult {
    pub is_valid: bool,
    pub errors: Vec<ValidationError>,
    pub warnings: Vec<ValidationWarning>,
}

pub struct ValidationError {
    pub code: String,
    pub message: String,
    pub problem_id: Option<String>,
}

pub struct ValidationWarning {
    pub code: String,
    pub message: String,
    pub problem_id: Option<String>,
}

impl ValidationResult {
    pub fn new() -> (r: ValidationResult)
        ensures
            r.is_valid,
            r.errors@.len() == 0,
            r.warnings@.len() == 0,
    {
        ValidationResult { is_valid: true, errors: Vec::new(), warnings: Vec::new() }
    }

    /// Record one error; the result turns invalid.
    pub fn add_error(&mut self, code: &str, message: &str, problem_id: Option<String>)
        ensures
            !final(self).is_valid,
            final(self).warnings@ == old(self).warnings@,
            final(self).errors@.len() == old(self).errors@.len() + 1,
            forall|i: int|
                0 <= i < old(self).errors@.len() ==> final(self).errors@[i] == old(
                    self,
                ).errors@[i],
            final(self).errors@.last().code@ == code@,
            final(self).errors@.last().message@ == message@,
            crate::reconcile::opt_view(final(self).errors@.last().problem_id)
                == crate::reconcile::opt_view(problem_id),
    {
        self.is_valid = false;
        self.errors.push(
            ValidationError {
                code: code.to_owned(),
                message: message.to_owned(),
                problem_id,
            },
        );
    }

    /// Record one warning; validity is untouched.
    pub fn add_warning(&mut self, code: &str, message: &str, problem_id: Option<String>)
        ensures
            final(self).is_valid == old(self).is_valid,
            final(self).errors@ == old(self).errors@,
            final(self).warnings@.len() == old(self).warnings@.len() + 1,
            forall|i: int|
                0 <= i < old(self).warnings@.len() ==> final(self).warnings@[i] == old(
                    self,
                ).warnings@[i],
            final(self).warnings@.last().code@ == code@,
            final(self).warnings@.last().message@ == message@,
            crate::reconcile::opt_view(final(self).warnings@.last().problem_id)
                == crate::reconcile::opt_view(problem_id),
    {
        self.warnings.push(
            ValidationWarning {
                code: code.to_owned(),
                message: message.to_owned(),
                problem_id,
            },
        );
    }
}

// --- counting delimiters ---

/// Occurrences of one character.
pub open spec fn spec_count_char(s: Seq<char>, c: char) -> int
    decreases s.len(),
{
    if s.len() == 0 {
        0
    } else {
        (if s[0] == c {
            1int
        } else {
            0int
        }) + spec_count_char(s.drop_first(), c)
    }
}

proof fn lemma_count_char_step(s: Seq<char>, c: char, i: int)
    requires
        0 <= i < s.len(),
    ensures
        spec_count_char(s.subrange(i, s.len() as int), c) == (if s[i] == c {
            1int
        } else {
            0int
        }) + spec_count_char(s.subrange(i + 1, s.len() as int), c),
{
    let t = s.subrange(i, s.len() as int);
    assert(t[0] == s[i]);
    assert(t.drop_first() =~= s.subrange(i + 1, s.len() as int));
}

fn count_char(v: &Vec<char>, c: char) -> (r: usize)
    ensures
        r == spec_count_char(v@, c),
{
    let n = v.len();
    let mut r: usize = 0;
    let mut i: usize = 0;
    proof {
        assert(v@.subrange(0, n as int) =~= v@);
    }
    while i < n
        invariant
            i <= n,
            n == v@.len(),
            r <= i,
            spec_count_char(v@, c) == r + spec_count_char(v@.subrange(i as int, n as int), c),
        decreases n - i,
    {
        proof {
            lemma_count_char_step(v@, c, i as int);
        }
        if v[i] == c {
            r = r + 1;
        }
        i = i + 1;
    }
    proof {
        assert(v@.subrange(n as int, n as int) =~= Seq::<char>::empty());
    }
    r
}

/// Non-overlapping occurrences of a double dollar.
pub open spec fn spec_count_dd(s: Seq<char>, i: int) -> int
    decreases s.len() - i,
{
    if i < 0 || i + 1 >= s.len() {
        0
    } else if s[i] == '$' && s[i + 1] == '$' {
        1 + spec_count_dd(s, i + 2)
    } else {
        spec_count_dd(s, i + 1)
    }
}

fn count_dd(v: &Vec<char>) -> (r: usize)
    ensures
        r == spec_count_dd(v@, 0),
{
    let n = v.len();
    let mut r: usize = 0;
    let mut i: usize = 0;
    while i < n
        invariant
            i <= n,
            n == v@.len(),
            r <= i,
            spec_count_dd(v@, 0) == r + spec_count_dd(v@, i as int),
        decreases n - i,
    {
        if i + 1 < n && v[i] == '$' && v[i + 1] == '$' {
            r = r + 1;
            i = i + 2;
        } else {
            i = i + 1;
        }
    }
    r
}

/// The text contains the pattern somewhere.
pub open spec fn spec_contains(s: Seq<char>, pat: Seq<char>) -> bool {
    exists|i: int| 0 <= i <= s.len() - pat.len() && #[trigger] spec_has_prefix_at(s, i, pat)
}

fn contains_pat(v: &Vec<char>, pat: &Vec<char>) -> (b: bool)
    ensures
        b == spec_contains(v@, pat@),
{
    let n = v.len();
    let m = pat.len();
    if m > n {
        return false;
    }
    if m == 0 {
        proof {
            assert(v@.subrange(0, 0) =~= pat@);
            assert(spec_has_prefix_at(v@, 0, pat@));
        }
        return true;
    }
    let mut i: usize = 0;
    while i <= n - m
        invariant
            n == v@.len(),
            m == pat@.len(),
            1 <= m <= n,
            i <= n - m + 1,
            forall|k: int| 0 <= k < i ==> !#[trigger] spec_has_prefix_at(v@, k, pat@),
        decreases n - i,
    {
        if has_prefix_at(v, i, pat) {
            proof {
                assert(spec_has_prefix_at(v@, i as int, pat@));
            }
            return true;
        }
        i = i + 1;
    }
    false
}

// --- the latex checks ---

pub open spec fn spec_msg_inline() -> Seq<char> {
    seq![
        'U',
        'n',
        'c',
        'l',
        'o',
        's',
        'e',
        'd',
        ' ',
        'i',
        'n',
        'l',
        'i',
        'n',
        'e',
        ' ',
        'm',
        'a',
        't',
        'h',
        ' ',
        'd',
        'e',
        'l',
        'i',
        'm',
        'i',
        't',
        'e',
        'r',
        ' ',
        '(',
        '$',
        ')',
    ]
}

pub open spec fn spec_msg_display() -> Seq<char> {
    seq![
        'U',
        'n',
        'c',
        'l',
        'o',
        's',
        'e',
        'd',
        ' ',
        'd',
        'i',
        's',
        'p',
        'l',
        'a',
        'y',
        ' ',
        'm',
        'a',
        't',
        'h',
        ' ',
        'd',
        'e',
        'l',
        'i',
        'm',
        'i',
        't',
        'e',
        'r',
        ' ',
        '(',
        '$',
        '$',
        ')',
    ]
}

/// A count, capped at what fits a rendered number.
pub open spec fn spec_clamp_u32(n: int) -> int {
    if n > u32::MAX {
        u32::MAX as int
    } else {
        n
    }
}

/// `{n} unclosed braces '{'`.
pub open spec fn spec_msg_braces(n: int) -> Seq<char> {
    spec_u32_digits(n) + " unclosed braces '{'"@
}

/// `{n} unclosed brackets '['`.
pub open spec fn spec_msg_brackets(n: int) -> Seq<char> {
    spec_u32_digits(n) + " unclosed brackets '['"@
}

/// `Possible misspelling: '{pat}' should be '{correct}'`.
pub open spec fn spec_msg_misspelling(pat: Seq<char>, correct: Seq<char>) -> Seq<char> {
    "Possible misspelling: '"@ + pat + "' should be '"@ + correct
        + seq!['\'']
}

/// The misspelling watch list: each pattern with its correct spelling.
pub open spec fn spec_misspellings() -> Seq<(Seq<char>, Seq<char>)> {
    seq![
        ("\\f rac"@, "\\frac"@),
        ("\\frc"@, "\\frac"@),
        ("\\fract"@, "\\frac"@),
        ("\\sqr"@, "\\sqrt"@),
        ("\\squrt"@, "\\sqrt"@),
        ("\\sqt"@, "\\sqrt"@),
        ("\\cdt"@, "\\cdot"@),
        ("\\cdot"@, "\\cdot"@),
        ("\\ct"@, "\\cdot"@),
        ("\\alpha"@, "\\alpha"@),
        ("\\alfa"@, "\\alpha"@),
        ("\\beta"@, "\\beta"@),
        ("\\bta"@, "\\beta"@),
        ("\\gamma"@, "\\gamma"@),
        ("\\gama"@, "\\gamma"@),
    ]
}

/// The misspelling messages a text earns, scanning the list in order.
pub open spec fn spec_misspell_msgs(s: Seq<char>, list: Seq<(Seq<char>, Seq<char>)>) -> Seq<
    Seq<char>,
>
    decreases list.len(),
{
    if list.len() == 0 {
        Seq::<Seq<char>>::empty()
    } else {
        let head = if spec_contains(s, list[0].0) {
            seq![spec_msg_misspelling(list[0].0, list[0].1)]
        } else {
            Seq::<Seq<char>>::empty()
        };
        head + spec_misspell_msgs(s, list.drop_first())
    }
}

/// Everything `validate_latex` reports, in order: unbalanced inline and
/// display math, unclosed braces and brackets, then the misspellings.
pub open spec fn spec_validate_latex(s: Seq<char>) -> Seq<Seq<char>> {
    let e1 = if spec_count_char(s, '$') % 2 != 0 {
        seq![spec_msg_inline()]
    } else {
        Seq::<Seq<char>>::empty()
    };
    let e2 = if spec_count_dd(s, 0) % 2 != 0 {
        seq![spec_msg_display()]
    } else {
        Seq::<Seq<char>>::empty()
    };
    let ob = spec_count_char(s, '{');
    let cb = spec_count_char(s, '}');
    let e3 = if ob > cb {
        seq![spec_msg_braces(spec_clamp_u32(ob - cb))]
    } else {
        Seq::<Seq<char>>::empty()
    };
    let ok = spec_count_char(s, '[');
    let ck = spec_count_char(s, ']');
    let e4 = if ok > ck {
        seq![spec_msg_brackets(spec_clamp_u32(ok - ck))]
    } else {
        Seq::<Seq<char>>::empty()
    };
    e1 + e2 + e3 + e4 + spec_misspell_msgs(s, spec_misspellings())
}

/// Check math markup: unbalanced delimiters, unclosed braces or
/// brackets, and commonly misread commands.
pub fn validate_latex(content: &str) -> (r: Vec<String>)
    ensures
        r@.map_values(|m: String| m@) == spec_validate_latex(content@),
{
    let v = chars_of(content);
    let mut out: Vec<String> = Vec::new();
    let dollars = count_char(&v, '$');
    if dollars % 2 != 0 {
        let m = chars_of(
            "Unclosed inline math delimiter ($)",
        );
        proof {
            reveal_strlit("Unclosed inline math delimiter ($)");
            assert(m@ =~= spec_msg_inline());
        }
        out.push(string_of(&m));
    }
    let dd = count_dd(&v);
    if dd % 2 != 0 {
        let m = chars_of(
            "Unclosed display math delimiter ($$)",
        );
        proof {
            reveal_strlit("Unclosed display math delimiter ($$)");
            assert(m@ =~= spec_msg_display());
        }
        out.push(string_of(&m));
    }
    let ob = count_char(&v, '{');
    let cb = count_char(&v, '}');
    if ob > cb {
        let diff = ob - cb;
        let diff32: u32 = if diff > u32::MAX as usize {
            u32::MAX
        } else {
            diff as u32
        };
        let mut m = u32_digits(diff32);
        let tail = chars_of(" unclosed braces '{'");
        push_all(&mut m, &tail);
        proof {
            reveal_strlit(" unclosed braces '{'");
            assert(m@ =~= spec_msg_braces(spec_clamp_u32(diff as int)));
        }
        out.push(string_of(&m));
    }
    let ok = count_char(&v, '[');
    let ck = count_char(&v, ']');
    if ok > ck {
        let diff = ok - ck;
        let diff32: u32 = if diff > u32::MAX as usize {
            u32::MAX
        } else {
            diff as u32
        };
        let mut m = u32_digits(diff32);
        let tail = chars_of(" unclosed brackets '['");
        push_all(&mut m, &tail);
        proof {
            reveal_strlit(" unclosed brackets '['");
            assert(m@ =~= spec_msg_brackets(spec_clamp_u32(diff as int)));
        }
        out.push(string_of(&m));
    }
    let ghost base = out@.map_values(|m: String| m@);
    proof {
        assert(base =~= spec_validate_latex(content@).subrange(
            0,
            spec_validate_latex(content@).len() - spec_misspell_msgs(
                content@,
                spec_misspellings(),
            ).len(),
        ));
    }
    let mut pats: Vec<(String, String)> = Vec::new();
    pats.push((String::from_str("\\f rac"), String::from_str("\\frac")));
    pats.push((String::from_str("\\frc"), String::from_str("\\frac")));
    pats.push((String::from_str("\\fract"), String::from_str("\\frac")));
    pats.push((String::from_str("\\sqr"), String::from_str("\\sqrt")));
    pats.push((String::from_str("\\squrt"), String::from_str("\\sqrt")));
    pats.push((String::from_str("\\sqt"), String::from_str("\\sqrt")));
    pats.push((String::from_str("\\cdt"), String::from_str("\\cdot")));
    pats.push((String::from_str("\\cdot"), String::from_str("\\cdot")));
    pats.push((String::from_str("\\ct"), String::from_str("\\cdot")));
    pats.push((String::from_str("\\alpha"), String::from_str("\\alpha")));
    pats.push((String::from_str("\\alfa"), String::from_str("\\alpha")));
    pats.push((String::from_str("\\beta"), String::from_str("\\beta")));
    pats.push((String::from_str("\\bta"), String::from_str("\\beta")));
    pats.push((String::from_str("\\gamma"), String::from_str("\\gamma")));
    pats.push((String::from_str("\\gama"), String::from_str("\\gamma")));
    let ghost plist = pats@.map_values(|p: (String, String)| (p.0@, p.1@));
    proof {
        assert(plist =~= spec_misspellings());
    }
    let n = pats.len();
    let mut i: usize = 0;
    proof {
        assert(plist.subrange(0, n as int) =~= plist);
        assert(out@.map_values(|m: String| m@) =~= base + spec_misspell_msgs(
            content@,
            plist.subrange(0, 0),
        ) + spec_misspell_msgs(content@, plist.subrange(0 as int, n as int)).subrange(0, 0));
    }
    while i < n
        invariant
            i <= n,
            n == pats@.len(),
            v@ == content@,
            plist == pats@.map_values(|p: (String, String)| (p.0@, p.1@)),
            plist == spec_misspellings(),
            spec_validate_latex(content@) == out@.map_values(|m: String| m@)
                + spec_misspell_msgs(content@, plist.subrange(i as int, n as int)),
        decreases n - i,
    {
        proof {
            let sub_i = plist.subrange(i as int, n as int);
            assert(sub_i[0] == plist[i as int]);
            assert(sub_i.drop_first() =~= plist.subrange(i + 1, n as int));
            assert(plist[i as int] == (pats@[i as int].0@, pats@[i as int].1@));
        }
        let pat = chars_of(pats[i].0.as_str());
        if contains_pat(&v, &pat) {
            let mut m = chars_of("Possible misspelling: '");
            push_all(&mut m, &pat);
            let mid = chars_of("' should be '");
            push_all(&mut m, &mid);
            let cv = chars_of(pats[i].1.as_str());
            push_all(&mut m, &cv);
            m.push('\'');
            proof {
                reveal_strlit("Possible misspelling: '");
                reveal_strlit("' should be '");
                assert(m@ =~= spec_msg_misspelling(plist[i as int].0, plist[i as int].1));
            }
            let ghost before = out@.map_values(|x: String| x@);
            let ghost mv = m@;
            out.push(string_of(&m));
            proof {
                assert(out@.map_values(|x: String| x@) =~= before.push(mv));
                assert(before.push(mv) + spec_misspell_msgs(
                    content@,
                    plist.subrange(i + 1, n as int),
                ) =~= before + (seq![mv] + spec_misspell_msgs(
                    content@,
                    plist.subrange(i + 1, n as int),
                )));
            }
        }
        i = i + 1;
    }
    proof {
        assert(plist.subrange(n as int, n as int) =~= Seq::<(Seq<char>, Seq<char>)>::empty());
        assert(out@.map_values(|m: String| m@) + Seq::<Seq<char>>::empty() =~= out@.map_values(
            |m: String| m@,
        ));
    }
    out
}

/// Quick check for API responses: unbalanced math first, then emptiness.
pub fn quick_validate(content: &str) -> (r: Option<String>)
    ensures
        ({
            let s = content@;
            if spec_count_char(s, '$') % 2 != 0 {
                r is Some && r->Some_0@ == "Unclosed math delimiter"@
            } else if spec_trim(s).len() == 0 {
                r is Some && r->Some_0@ == "Empty content"@
            } else {
                r is None
            }
        }),
{
    let v = chars_of(content);
    let dollars = count_char(&v, '$');
    if dollars % 2 != 0 {
        return Some(String::from_str("Unclosed math delimiter"));
    }
    let t = trim_chars(&v);
    if t.len() == 0 {
        return Some(String::from_str("Empty content"));
    }
    None
}

} // verus!
