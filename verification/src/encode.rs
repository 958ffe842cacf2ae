//! Segment validation and encoding: rejecting commit-ref-like noise,
//! stripping dotted word prefixes, and folding letters into their 1-based
//! alphabet ranks so every segment becomes a dotted integer sequence.

use vstd::prelude::*;
use crate::chars::{check_digit, check_lower, is_digit, is_lower};
use crate::digits::{
    dec_seq, digit_char_of, digits_val, parse_piece, piece_parses,
};
use crate::splitting::{split_on, split_vec};

verus! {

/// A letters-dominant segment: nonempty, alphanumeric only, with at least
/// one letter.  Such segments (hash fragments, bare words) are dropped.
pub open spec fn is_noise(seg: Seq<char>) -> bool {
    &&& seg.len() > 0
    &&& forall|i: int| 0 <= i < seg.len() ==> is_lower(#[trigger] seg[i]) || is_digit(seg[i])
    &&& exists|i: int| 0 <= i < seg.len() && is_lower(#[trigger] seg[i])
}

/// The accepted character set: lowercase letters, digits, and dots.
pub open spec fn charset_ok(seg: Seq<char>) -> bool {
    &&& seg.len() > 0
    &&& forall|i: int|
        0 <= i < seg.len() ==> is_lower(#[trigger] seg[i]) || is_digit(seg[i]) || seg[i] == '.'
}

/// A segment that survives tokenization: nonempty, not noise, valid charset.
pub open spec fn seg_accepted(seg: Seq<char>) -> bool {
    seg.len() > 0 && !is_noise(seg) && charset_ok(seg)
}

/// Tests whether a segment is letters-dominant noise.
pub fn check_noise(seg: &Vec<char>) -> (r: bool)
    ensures
        r == is_noise(seg@),
{
    if seg.len() == 0 {
        return false;
    }
    let mut has_letter = false;
    let mut i: usize = 0;
    while i < seg.len()
        invariant
            i <= seg@.len(),
            forall|k: int| 0 <= k < i ==> is_lower(#[trigger] seg@[k]) || is_digit(seg@[k]),
            has_letter == exists|k: int| 0 <= k < i && is_lower(#[trigger] seg@[k]),
        decreases seg@.len() - i,
    {
        let c = seg[i];
        if check_lower(c) {
            has_letter = true;
        } else if !check_digit(c) {
            return false;
        }
        i = i + 1;
    }
    has_letter
}

/// Tests whether every character of a segment is a letter, digit, or dot.
pub fn check_charset(seg: &Vec<char>) -> (r: bool)
    ensures
        r == charset_ok(seg@),
{
    if seg.len() == 0 {
        return false;
    }
    let mut i: usize = 0;
    while i < seg.len()
        invariant
            i <= seg@.len(),
            forall|k: int|
                0 <= k < i ==> is_lower(#[trigger] seg@[k]) || is_digit(seg@[k]) || seg@[k]
                    == '.',
        decreases seg@.len() - i,
    {
        let c = seg[i];
        if !check_lower(c) && !check_digit(c) && c != '.' {
            return false;
        }
        i = i + 1;
    }
    true
}

/// The length of the maximal lowercase-letter prefix of `s`.
pub open spec fn letter_run(s: Seq<char>) -> nat
    decreases s.len(),
{
    if s.len() > 0 && is_lower(s[0]) {
        1 + letter_run(s.skip(1))
    } else {
        0
    }
}

/// The length of the maximal dot prefix of `s`.
pub open spec fn dot_run(s: Seq<char>) -> nat
    decreases s.len(),
{
    if s.len() > 0 && s[0] == '.' {
        1 + dot_run(s.skip(1))
    } else {
        0
    }
}

/// A maximal prefix run never exceeds the sequence length.
pub proof fn lemma_runs_bounded(s: Seq<char>)
    ensures
        letter_run(s) <= s.len(),
        dot_run(s) <= s.len(),
    decreases s.len(),
{
    if s.len() > 0 {
        lemma_runs_bounded(s.skip(1));
    }
}

/// The letter run is the unique boundary with letters before it and a
/// non-letter (or the end) at it.
pub proof fn lemma_letter_run_is(s: Seq<char>, boundary: int)
    requires
        0 <= boundary <= s.len(),
        forall|k: int| 0 <= k < boundary ==> is_lower(#[trigger] s[k]),
        boundary < s.len() ==> !is_lower(s[boundary]),
    ensures
        letter_run(s) == boundary,
    decreases boundary,
{
    if boundary == 0 {
    } else {
        assert(is_lower(s[0]));
        lemma_letter_run_is(s.skip(1), boundary - 1);
    }
}

/// The dot run is the unique boundary with dots before it and a non-dot
/// (or the end) at it.
pub proof fn lemma_dot_run_is(s: Seq<char>, boundary: int)
    requires
        0 <= boundary <= s.len(),
        forall|k: int| 0 <= k < boundary ==> #[trigger] s[k] == '.',
        boundary < s.len() ==> s[boundary] != '.',
    ensures
        dot_run(s) == boundary,
    decreases boundary,
{
    if boundary == 0 {
    } else {
        assert(s[0] == '.');
        lemma_dot_run_is(s.skip(1), boundary - 1);
    }
}

/// `s` with every occurrence of "one-or-more letters immediately followed
/// by one-or-more dots" removed, scanning left to right.
pub open spec fn strip_words(s: Seq<char>) -> Seq<char>
    decreases s.len(), via strip_words_decreases
{
    if s.len() == 0 {
        Seq::<char>::empty()
    } else {
        let l = letter_run(s) as int;
        if is_lower(s[0]) && l < s.len() && s[l] == '.' {
            strip_words(s.skip(l + dot_run(s.skip(l))))
        } else {
            seq![s[0]] + strip_words(s.skip(1))
        }
    }
}

#[via_fn]
proof fn strip_words_decreases(s: Seq<char>) {
    if s.len() > 0 {
        let l = letter_run(s) as int;
        if is_lower(s[0]) && l < s.len() && s[l] == '.' {
            lemma_runs_bounded(s);
            lemma_runs_bounded(s.skip(l));
            assert(letter_run(s) >= 1);
        }
    }
}

/// The 1-based alphabet rank of a lowercase letter (`a` is 1, `z` is 26).
pub open spec fn letter_rank(c: char) -> nat {
    ((c as u32) - ('a' as u32) + 1) as nat
}

/// One character of encoder output: letters become their decimal rank,
/// everything else is kept.
pub open spec fn encode_char(c: char) -> Seq<char> {
    if is_lower(c) {
        dec_seq(letter_rank(c))
    } else {
        seq![c]
    }
}

/// The whole-segment encoding: every letter folded to its rank digits.
pub open spec fn encode_letters(s: Seq<char>) -> Seq<char>
    decreases s.len(),
{
    if s.len() == 0 {
        Seq::<char>::empty()
    } else {
        encode_char(s[0]) + encode_letters(s.skip(1))
    }
}

/// The numeric components read from a list of dotted pieces: pieces that
/// parse as `u32` contribute their value, the rest are dropped.
pub open spec fn pieces_vals(ps: Seq<Seq<char>>) -> Seq<u32>
    decreases ps.len(),
{
    if ps.len() == 0 {
        Seq::<u32>::empty()
    } else {
        let init = pieces_vals(ps.drop_last());
        if piece_parses(ps.last()) {
            init.push(digits_val(ps.last()) as u32)
        } else {
            init
        }
    }
}

/// The components of one accepted segment: strip word prefixes, encode
/// letters, split on dots, and keep the pieces that parse.
pub open spec fn segment_components(seg: Seq<char>) -> Seq<u32> {
    pieces_vals(split_on(encode_letters(strip_words(seg)), '.'))
}

/// Finds the end of the letter run starting at `from`.
fn letter_run_end(s: &Vec<char>, from: usize) -> (j: usize)
    requires
        from <= s@.len(),
    ensures
        from <= j <= s@.len(),
        j - from == letter_run(s@.skip(from as int)),
{
    let mut j: usize = from;
    while j < s.len() && check_lower(s[j])
        invariant
            from <= j <= s@.len(),
            forall|k: int| from <= k < j ==> is_lower(#[trigger] s@[k]),
        decreases s@.len() - j,
    {
        j = j + 1;
    }
    proof {
        let t = s@.skip(from as int);
        assert(forall|k: int| 0 <= k < j - from ==> is_lower(#[trigger] t[k]));
        if (j as int) < s@.len() {
            assert(t[j - from] == s@[j as int]);
        }
        lemma_letter_run_is(t, j - from);
    }
    j
}

/// Finds the end of the dot run starting at `from`.
fn dot_run_end(s: &Vec<char>, from: usize) -> (j: usize)
    requires
        from <= s@.len(),
    ensures
        from <= j <= s@.len(),
        j - from == dot_run(s@.skip(from as int)),
{
    let mut j: usize = from;
    while j < s.len() && s[j] == '.'
        invariant
            from <= j <= s@.len(),
            forall|k: int| from <= k < j ==> #[trigger] s@[k] == '.',
        decreases s@.len() - j,
    {
        j = j + 1;
    }
    proof {
        let t = s@.skip(from as int);
        assert(forall|k: int| 0 <= k < j - from ==> #[trigger] t[k] == '.');
        if (j as int) < s@.len() {
            assert(t[j - from] == s@[j as int]);
        }
        lemma_dot_run_is(t, j - from);
    }
    j
}

/// Removes every "letters then dots" occurrence from a segment.
pub fn strip_words_vec(s: &Vec<char>) -> (r: Vec<char>)
    ensures
        r@ =~= strip_words(s@),
{
    let mut out: Vec<char> = Vec::new();
    let mut i: usize = 0;
    proof {
        assert(s@.skip(0) =~= s@);
    }
    while i < s.len()
        invariant
            i <= s@.len(),
            strip_words(s@) =~= out@ + strip_words(s@.skip(i as int)),
        decreases s@.len() - i,
    {
        let ghost t = s@.skip(i as int);
        if check_lower(s[i]) {
            let j = letter_run_end(s, i);
            proof {
                assert(t.skip(i + 0 - i) == t);
                assert(s@.skip(i as int).len() == s@.len() - i);
                assert(t[0] == s@[i as int]);
            }
            if j < s.len() && s[j] == '.' {
                let k = dot_run_end(s, j);
                proof {
                    let l: int = j - i;
                    assert(t.skip(l) =~= s@.skip(j as int));
                    assert(t[l] == s@[j as int]);
                    assert(is_lower(t[0]) && l < t.len() && t[l] == '.');
                    assert(strip_words(t) == strip_words(t.skip(l + dot_run(t.skip(l)))));
                    assert(t.skip(l + (k - j)) =~= s@.skip(k as int));
                }
                i = k;
            } else {
                proof {
                    let l: int = j - i;
                    if l < t.len() {
                        assert(t[l] == s@[j as int]);
                        assert(t[l] != '.');
                    }
                    assert(!(is_lower(t[0]) && l < t.len() && t[l] == '.'));
                    assert(strip_words(t) == seq![t[0]] + strip_words(t.skip(1)));
                    assert(t.skip(1) =~= s@.skip(i + 1));
                }
                out.push(s[i]);
                i = i + 1;
            }
        } else {
            proof {
                assert(t[0] == s@[i as int]);
                assert(!is_lower(t[0]));
                assert(strip_words(t) == seq![t[0]] + strip_words(t.skip(1)));
                assert(t.skip(1) =~= s@.skip(i + 1));
            }
            out.push(s[i]);
            i = i + 1;
        }
    }
    proof {
        assert(s@.skip(s@.len() as int) =~= Seq::<char>::empty());
    }
    out
}

/// Folds every letter of a segment into its decimal alphabet rank.
pub fn encode_letters_vec(s: &Vec<char>) -> (r: Vec<char>)
    ensures
        r@ =~= encode_letters(s@),
{
    let mut out: Vec<char> = Vec::new();
    let mut i: usize = 0;
    proof {
        assert(s@.skip(0) =~= s@);
    }
    while i < s.len()
        invariant
            i <= s@.len(),
            encode_letters(s@) =~= out@ + encode_letters(s@.skip(i as int)),
        decreases s@.len() - i,
    {
        let ghost t = s@.skip(i as int);
        let c = s[i];
        proof {
            assert(t[0] == c);
            assert(encode_letters(t) == encode_char(c) + encode_letters(t.skip(1)));
            assert(t.skip(1) =~= s@.skip(i + 1));
        }
        if check_lower(c) {
            let r: u32 = (c as u32) - 96;
            proof {
                assert(r == letter_rank(c));
                assert(1 <= r <= 26);
            }
            if r < 10 {
                out.push(digit_char_of(r));
                proof {
                    assert(dec_seq(r as nat) =~= seq![crate::digits::digit_char(r as int)]);
                }
            } else {
                out.push(digit_char_of(r / 10));
                out.push(digit_char_of(r % 10));
                proof {
                    assert(dec_seq((r / 10) as nat) =~= seq![
                        crate::digits::digit_char((r / 10) as int),
                    ]);
                    assert(dec_seq(r as nat) =~= dec_seq((r / 10) as nat).push(
                        crate::digits::digit_char((r % 10) as int),
                    ));
                }
            }
        } else {
            out.push(c);
        }
        i = i + 1;
    }
    proof {
        assert(s@.skip(s@.len() as int) =~= Seq::<char>::empty());
    }
    out
}

/// Computes the numeric components of one accepted segment.
pub fn segment_components_vec(seg: &Vec<char>) -> (r: Vec<u32>)
    ensures
        r@ =~= segment_components(seg@),
{
    let stripped = strip_words_vec(seg);
    let encoded = encode_letters_vec(&stripped);
    let pieces = split_vec(&encoded, '.');
    let mut out: Vec<u32> = Vec::new();
    let mut j: usize = 0;
    while j < pieces.len()
        invariant
            j <= pieces@.len(),
            pieces.deep_view() =~~= split_on(encode_letters(strip_words(seg@)), '.'),
            out@ =~= pieces_vals(pieces.deep_view().take(j as int)),
        decreases pieces@.len() - j,
    {
        proof {
            assert(pieces.deep_view().take(j + 1).drop_last() =~~= pieces.deep_view().take(
                j as int,
            ));
            assert(pieces.deep_view()[j as int] == pieces@[j as int]@);
        }
        match parse_piece(&pieces[j]) {
            Some(v) => { out.push(v) },
            None => {},
        }
        j = j + 1;
    }
    proof {
        assert(pieces.deep_view().take(pieces@.len() as int) =~~= pieces.deep_view());
    }
    out
}

} // verus!
