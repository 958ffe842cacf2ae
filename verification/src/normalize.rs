//! Text normalization: lowercasing, maturity-keyword substitution, and
//! delimiter unification, applied in a fixed, order-sensitive sequence.

use vstd::prelude::*;
use crate::chars::{chars_of, is_lower, is_upper};

verus! {

/// ASCII lowercasing of one character; non-ASCII characters are unchanged.
pub open spec fn lower_char(c: char) -> char {
    if is_upper(c) {
        ((c as u32) + 32) as char
    } else {
        c
    }
}

/// Delimiter unification of one character: `+`, `_` and `:` become `-`.
pub open spec fn delim_char(c: char) -> char {
    if c == '+' || c == '_' || c == ':' {
        '-'
    } else {
        c
    }
}

/// Replacement of every non-overlapping occurrence of `pat` in `s` by `sub`,
/// scanning left to right; replaced text is not rescanned.
pub open spec fn replace_all(s: Seq<char>, pat: Seq<char>, sub: Seq<char>) -> Seq<char>
    decreases s.len(),
{
    if pat.len() == 0 || s.len() == 0 {
        s
    } else if s.len() >= pat.len() && s.take(pat.len() as int) == pat {
        sub + replace_all(s.skip(pat.len() as int), pat, sub)
    } else {
        seq![s[0]] + replace_all(s.skip(1), pat, sub)
    }
}

/// Replacement leaves a string without letters unchanged, whenever the
/// pattern contains a lowercase letter and the string does not.
pub proof fn lemma_replace_all_letterless(s: Seq<char>, pat: Seq<char>, sub: Seq<char>, w: int)
    requires
        0 <= w < pat.len(),
        is_lower(pat[w]),
        forall|i: int| 0 <= i < s.len() ==> !is_lower(#[trigger] s[i]),
    ensures
        replace_all(s, pat, sub) =~= s,
    decreases s.len(),
{
    if s.len() > 0 {
        if s.len() >= pat.len() && s.take(pat.len() as int) == pat {
            assert(s[w] == pat[w]);
            assert(false);
        }
        lemma_replace_all_letterless(s.skip(1), pat, sub, w);
        assert(seq![s[0]] + s.skip(1) =~= s);
    }
}

/// The seven maturity-keyword substitutions, in their load-bearing order:
/// longer keywords are rewritten before the shorter keywords they contain.
pub open spec fn replace_keywords(s: Seq<char>) -> Seq<char> {
    let s1 = replace_all(s, ("alpha")@, ("0")@);
    let s2 = replace_all(s1, ("beta")@, ("1")@);
    let s3 = replace_all(s2, ("pre-release")@, ("2")@);
    let s4 = replace_all(s3, ("pre")@, ("2")@);
    let s5 = replace_all(s4, ("rc")@, ("2")@);
    let s6 = replace_all(s5, ("snapshot")@, ("2")@);
    replace_all(s6, ("release")@, ("3")@)
}

/// The fully normalized form: lowercase, keywords substituted, delimiters
/// unified to `-`.
pub open spec fn normalize(s: Seq<char>) -> Seq<char> {
    replace_keywords(s.map_values(|c: char| lower_char(c))).map_values(|c: char| delim_char(c))
}

/// Executable mirror of [`lower_char`] for one character.
pub fn lower_char_of(c: char) -> (r: char)
    ensures
        r == lower_char(c),
{
    match c {
        'A' => 'a',
        'B' => 'b',
        'C' => 'c',
        'D' => 'd',
        'E' => 'e',
        'F' => 'f',
        'G' => 'g',
        'H' => 'h',
        'I' => 'i',
        'J' => 'j',
        'K' => 'k',
        'L' => 'l',
        'M' => 'm',
        'N' => 'n',
        'O' => 'o',
        'P' => 'p',
        'Q' => 'q',
        'R' => 'r',
        'S' => 's',
        'T' => 't',
        'U' => 'u',
        'V' => 'v',
        'W' => 'w',
        'X' => 'x',
        'Y' => 'y',
        'Z' => 'z',
        _ => c,
    }
}

/// Executable mirror of [`lower_char`] applied to a whole vector.
pub fn lower_vec(s: &Vec<char>) -> (r: Vec<char>)
    ensures
        r@ =~= s@.map_values(|c: char| lower_char(c)),
{
    let mut out: Vec<char> = Vec::new();
    let mut i: usize = 0;
    while i < s.len()
        invariant
            i <= s@.len(),
            out@ =~= s@.take(i as int).map_values(|c: char| lower_char(c)),
        decreases s@.len() - i,
    {
        let c = s[i];
        out.push(lower_char_of(c));
        proof {
            assert(s@.take(i + 1).map_values(|c: char| lower_char(c)) =~= s@.take(
                i as int,
            ).map_values(|c: char| lower_char(c)).push(lower_char(s@[i as int])));
        }
        i = i + 1;
    }
    proof {
        assert(s@.take(s@.len() as int) =~= s@);
    }
    out
}

/// Executable mirror of [`delim_char`] applied to a whole vector.
pub fn delim_vec(s: &Vec<char>) -> (r: Vec<char>)
    ensures
        r@ =~= s@.map_values(|c: char| delim_char(c)),
{
    let mut out: Vec<char> = Vec::new();
    let mut i: usize = 0;
    while i < s.len()
        invariant
            i <= s@.len(),
            out@ =~= s@.take(i as int).map_values(|c: char| delim_char(c)),
        decreases s@.len() - i,
    {
        let c = s[i];
        if c == '+' || c == '_' || c == ':' {
            out.push('-');
        } else {
            out.push(c);
        }
        proof {
            assert(s@.take(i + 1).map_values(|c: char| delim_char(c)) =~= s@.take(
                i as int,
            ).map_values(|c: char| delim_char(c)).push(delim_char(s@[i as int])));
        }
        i = i + 1;
    }
    proof {
        assert(s@.take(s@.len() as int) =~= s@);
    }
    out
}

/// Whether `pat` occurs in `s` starting at index `i`.
pub open spec fn match_at(s: Seq<char>, i: int, pat: Seq<char>) -> bool {
    &&& 0 <= i
    &&& i + pat.len() <= s.len()
    &&& s.subrange(i, i + pat.len()) == pat
}

/// Tests whether `pat` occurs in `s` starting at index `i`.
pub fn check_match_at(s: &Vec<char>, i: usize, pat: &Vec<char>) -> (r: bool)
    requires
        i <= s@.len(),
    ensures
        r == match_at(s@, i as int, pat@),
{
    if pat.len() > s.len() - i {
        proof {
            assert(!match_at(s@, i as int, pat@));
        }
        return false;
    }
    let mut j: usize = 0;
    while j < pat.len()
        invariant
            j <= pat@.len(),
            i + pat@.len() <= s@.len() <= usize::MAX,
            forall|k: int| 0 <= k < j ==> s@[i + k] == pat@[k],
        decreases pat@.len() - j,
    {
        if s[i + j] != pat[j] {
            proof {
                assert(s@.subrange(i as int, i + pat@.len())[j as int] != pat@[j as int]);
            }
            return false;
        }
        j = j + 1;
    }
    proof {
        assert(s@.subrange(i as int, i + pat@.len()) =~= pat@);
    }
    true
}

/// Replaces every non-overlapping occurrence of `pat` in `s` by `sub`,
/// scanning left to right.
pub fn replace_vec(s: &Vec<char>, pat: &Vec<char>, sub: &Vec<char>) -> (r: Vec<char>)
    requires
        pat@.len() > 0,
    ensures
        r@ =~= replace_all(s@, pat@, sub@),
{
    let mut out: Vec<char> = Vec::new();
    let mut i: usize = 0;
    proof {
        assert(s@.skip(0) =~= s@);
    }
    while i < s.len()
        invariant
            i <= s@.len(),
            pat@.len() > 0,
            replace_all(s@, pat@, sub@) =~= out@ + replace_all(s@.skip(i as int), pat@, sub@),
        decreases s@.len() - i,
    {
        if check_match_at(s, i, pat) {
            let ghost out_before: Seq<char> = out@;
            let mut j: usize = 0;
            while j < sub.len()
                invariant
                    j <= sub@.len(),
                    out@ =~= out_before + sub@.take(j as int),
                decreases sub@.len() - j,
            {
                out.push(sub[j]);
                proof {
                    assert(sub@.take(j + 1) =~= sub@.take(j as int).push(sub@[j as int]));
                }
                j = j + 1;
            }
            proof {
                assert(sub@.take(sub@.len() as int) =~= sub@);
                assert(out@ =~= out_before + sub@);
            }
            proof {
                let t = s@.skip(i as int);
                assert(t.take(pat@.len() as int) =~= s@.subrange(i as int, i + pat@.len()));
                assert(t.skip(pat@.len() as int) =~= s@.skip(i + pat@.len()));
                assert(replace_all(t, pat@, sub@) == sub@ + replace_all(
                    s@.skip(i + pat@.len()),
                    pat@,
                    sub@,
                ));
            }
            i = i + pat.len();
        } else {
            proof {
                let t = s@.skip(i as int);
                if t.len() >= pat@.len() && t.take(pat@.len() as int) == pat@ {
                    assert(t.take(pat@.len() as int) =~= s@.subrange(i as int, i + pat@.len()));
                    assert(match_at(s@, i as int, pat@));
                }
                assert(t.skip(1) =~= s@.skip(i + 1));
                assert(seq![t[0]] + replace_all(s@.skip(i + 1), pat@, sub@) == replace_all(
                    t,
                    pat@,
                    sub@,
                ));
            }
            out.push(s[i]);
            i = i + 1;
        }
    }
    proof {
        assert(s@.skip(s@.len() as int) =~= Seq::<char>::empty());
    }
    out
}

/// Applies the full normalization pipeline to a character vector.
pub fn normalize_vec(s: &Vec<char>) -> (r: Vec<char>)
    ensures
        r@ =~= normalize(s@),
{
    let lowered = lower_vec(s);
    let pat_alpha = chars_of("alpha");
    let sub_alpha = chars_of("0");
    let pat_beta = chars_of("beta");
    let sub_beta = chars_of("1");
    let pat_pre_release = chars_of("pre-release");
    let pat_pre = chars_of("pre");
    let pat_rc = chars_of("rc");
    let sub_two = chars_of("2");
    let pat_snapshot = chars_of("snapshot");
    let pat_release = chars_of("release");
    let sub_release = chars_of("3");
    proof {
        reveal_strlit("alpha");
        reveal_strlit("beta");
        reveal_strlit("pre-release");
        reveal_strlit("pre");
        reveal_strlit("rc");
        reveal_strlit("snapshot");
        reveal_strlit("release");
    }
    let step_alpha = replace_vec(&lowered, &pat_alpha, &sub_alpha);
    let step_beta = replace_vec(&step_alpha, &pat_beta, &sub_beta);
    let step_pre_release = replace_vec(&step_beta, &pat_pre_release, &sub_two);
    let step_pre = replace_vec(&step_pre_release, &pat_pre, &sub_two);
    let step_rc = replace_vec(&step_pre, &pat_rc, &sub_two);
    let step_snapshot = replace_vec(&step_rc, &pat_snapshot, &sub_two);
    let step_release = replace_vec(&step_snapshot, &pat_release, &sub_release);
    delim_vec(&step_release)
}

} // verus!
