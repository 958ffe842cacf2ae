//! Whole-pipeline laws: purely numeric dotted inputs parse to a single
//! predictable part, and rendering a part re-parses to an equivalent
//! version.

use vstd::prelude::*;
use crate::chars::{is_digit, is_lower, is_upper};
use crate::digits::{dec_seq, lemma_dec_seq_no_dot, lemma_dec_seq_val};
use crate::encode::{
    encode_letters, pieces_vals, seg_accepted, segment_components, strip_words,
};
use crate::normalize::{
    delim_char, lemma_replace_all_letterless, lower_char, normalize, replace_keywords,
};
use crate::order::{
    lemma_ver_cmp_refl, null_part, part_cmp_from, ver_cmp_from, ver_eq,
};
use crate::splitting::{join_with, lemma_split_of_join, lemma_split_on_absent, split_on};
use crate::version::{
    is_wildcard_input, parse_parts, parse_result_parts, parse_segments, parse_succeeds,
    parts_of_segments, render_components,
};

verus! {

/// A string of digits and dots only.
pub open spec fn plain_numeric(s: Seq<char>) -> bool {
    forall|i: int| 0 <= i < s.len() ==> is_digit(#[trigger] s[i]) || s[i] == '.'
}

/// Lowercasing leaves a digits-and-dots string unchanged.
proof fn lemma_map_lower_id(s: Seq<char>)
    requires
        plain_numeric(s),
    ensures
        s.map_values(|c: char| lower_char(c)) =~= s,
{
    assert forall|i: int| 0 <= i < s.len() implies s.map_values(|c: char| lower_char(c))[i]
        == s[i] by {
        assert(!is_upper(s[i]));
    }
}

/// Delimiter unification leaves a digits-and-dots string unchanged.
proof fn lemma_map_delim_id(s: Seq<char>)
    requires
        plain_numeric(s),
    ensures
        s.map_values(|c: char| delim_char(c)) =~= s,
{
    assert forall|i: int| 0 <= i < s.len() implies s.map_values(|c: char| delim_char(c))[i]
        == s[i] by {
        assert(s[i] != '+' && s[i] != '_' && s[i] != ':');
    }
}

/// Keyword substitution leaves a digits-and-dots string unchanged: every
/// keyword contains a letter, and the string contains none.
proof fn lemma_replace_keywords_plain(s: Seq<char>)
    requires
        plain_numeric(s),
    ensures
        replace_keywords(s) =~= s,
{
    reveal_strlit("alpha");
    reveal_strlit("beta");
    reveal_strlit("pre-release");
    reveal_strlit("pre");
    reveal_strlit("rc");
    reveal_strlit("snapshot");
    reveal_strlit("release");
    assert(forall|i: int| 0 <= i < s.len() ==> !is_lower(#[trigger] s[i]));
    lemma_replace_all_letterless(s, ("alpha")@, ("0")@, 0);
    lemma_replace_all_letterless(s, ("beta")@, ("1")@, 0);
    lemma_replace_all_letterless(s, ("pre-release")@, ("2")@, 0);
    lemma_replace_all_letterless(s, ("pre")@, ("2")@, 0);
    lemma_replace_all_letterless(s, ("rc")@, ("2")@, 0);
    lemma_replace_all_letterless(s, ("snapshot")@, ("2")@, 0);
    lemma_replace_all_letterless(s, ("release")@, ("3")@, 0);
}

/// Normalization leaves a digits-and-dots string unchanged.
pub proof fn lemma_normalize_plain(s: Seq<char>)
    requires
        plain_numeric(s),
    ensures
        normalize(s) =~= s,
{
    lemma_map_lower_id(s);
    lemma_replace_keywords_plain(s);
    lemma_map_delim_id(s);
}

/// Word-prefix stripping leaves a letterless string unchanged.
proof fn lemma_strip_words_letterless(s: Seq<char>)
    requires
        forall|i: int| 0 <= i < s.len() ==> !is_lower(#[trigger] s[i]),
    ensures
        strip_words(s) =~= s,
    decreases s.len(),
{
    if s.len() > 0 {
        assert(!is_lower(s[0]));
        lemma_strip_words_letterless(s.skip(1));
        assert(seq![s[0]] + s.skip(1) =~= s);
    }
}

/// Letter encoding leaves a letterless string unchanged.
proof fn lemma_encode_letters_letterless(s: Seq<char>)
    requires
        forall|i: int| 0 <= i < s.len() ==> !is_lower(#[trigger] s[i]),
    ensures
        encode_letters(s) =~= s,
    decreases s.len(),
{
    if s.len() > 0 {
        assert(!is_lower(s[0]));
        lemma_encode_letters_letterless(s.skip(1));
        assert(seq![s[0]] + s.skip(1) =~= s);
    }
}

/// For a digits-and-dots segment the encoder is a no-op, so its
/// components are exactly the dotted pieces that parse.
pub proof fn lemma_segment_components_plain(seg: Seq<char>)
    requires
        plain_numeric(seg),
    ensures
        segment_components(seg) == pieces_vals(split_on(seg, '.')),
{
    assert(forall|i: int| 0 <= i < seg.len() ==> !is_lower(#[trigger] seg[i]));
    lemma_strip_words_letterless(seg);
    lemma_encode_letters_letterless(strip_words(seg));
    assert(encode_letters(strip_words(seg)) == seg);
}

/// A nonempty purely numeric dotted input parses to exactly one part,
/// holding the values of its dotted pieces.
pub proof fn lemma_numeric_parse(s: Seq<char>)
    requires
        s.len() > 0,
        plain_numeric(s),
    ensures
        !is_wildcard_input(s),
        parse_succeeds(s),
        parse_result_parts(s) =~~= seq![pieces_vals(split_on(s, '.'))],
{
    reveal_strlit("*");
    if s == ("*")@ {
        assert(s[0] == '*');
        assert(is_digit(s[0]) || s[0] == '.');
        assert(false);
    }
    lemma_normalize_plain(s);
    assert(forall|i: int| 0 <= i < s.len() ==> #[trigger] s[i] != '-');
    lemma_split_on_absent(s, '-');
    assert(parse_segments(s) =~~= seq![s]);
    let segs = parse_segments(s);
    assert(segs.drop_last() =~~= Seq::<Seq<char>>::empty());
    assert(segs.last() == s);
    assert(seg_accepted(s)) by {
        assert(forall|i: int|
            0 <= i < s.len() ==> is_lower(#[trigger] s[i]) || is_digit(s[i]) || s[i] == '.');
        if crate::encode::is_noise(s) {
            let w = choose|i: int| 0 <= i < s.len() && is_lower(#[trigger] s[i]);
            assert(is_digit(s[w]) || s[w] == '.');
            assert(false);
        }
    }
    assert(parts_of_segments(Seq::<Seq<char>>::empty()) =~~= Seq::<Seq<u32>>::empty());
    assert(parts_of_segments(segs.drop_last()) =~~= Seq::<Seq<u32>>::empty());
    assert(parts_of_segments(segs) =~~= Seq::<Seq<u32>>::empty().push(segment_components(s)));
    lemma_segment_components_plain(s);
}

/// Every character of a rendered component list is a digit or a dot.
proof fn lemma_render_components_plain(cs: Seq<u32>)
    ensures
        plain_numeric(render_components(cs)),
    decreases cs.len(),
{
    let m = cs.map_values(|c: u32| dec_seq(c as nat));
    if cs.len() == 0 {
    } else if cs.len() == 1 {
        lemma_dec_seq_val(cs[0] as nat);
        assert(render_components(cs) == m[0]);
    } else {
        lemma_render_components_plain(cs.drop_last());
        lemma_dec_seq_val(cs.last() as nat);
        let init = cs.drop_last().map_values(|c: u32| dec_seq(c as nat));
        assert(m.drop_last() =~= init);
        assert(join_with(m, '.') == join_with(m.drop_last(), '.') + seq!['.'] + m.last());
        assert(m.last() == dec_seq(cs.last() as nat));
        assert(render_components(cs.drop_last()) == join_with(init, '.'));
        assert forall|i: int| 0 <= i < render_components(cs).len() implies is_digit(
            #[trigger] render_components(cs)[i],
        ) || render_components(cs)[i] == '.' by {
            let a = join_with(init, '.');
            let r = render_components(cs);
            if i < a.len() {
                assert(r[i] == a[i]);
            } else if i == a.len() {
                assert(r[i] == '.');
            } else {
                assert(r[i] == dec_seq(cs.last() as nat)[i - a.len() - 1]);
            }
        }
    }
}

/// A rendered nonempty component list is a nonempty string.
proof fn lemma_render_components_nonempty(cs: Seq<u32>)
    requires
        cs.len() > 0,
    ensures
        render_components(cs).len() > 0,
    decreases cs.len(),
{
    let m = cs.map_values(|c: u32| dec_seq(c as nat));
    if cs.len() == 1 {
        lemma_dec_seq_val(cs[0] as nat);
        assert(render_components(cs) == m[0]);
    } else {
        lemma_dec_seq_val(cs.last() as nat);
        assert(join_with(m, '.') == join_with(m.drop_last(), '.') + seq!['.'] + m.last());
    }
}

/// Reading back the rendered pieces restores the component values.
proof fn lemma_pieces_vals_dec(cs: Seq<u32>)
    ensures
        pieces_vals(cs.map_values(|c: u32| dec_seq(c as nat))) =~= cs,
    decreases cs.len(),
{
    let m = cs.map_values(|c: u32| dec_seq(c as nat));
    if cs.len() > 0 {
        lemma_pieces_vals_dec(cs.drop_last());
        assert(m.drop_last() =~= cs.drop_last().map_values(|c: u32| dec_seq(c as nat)));
        lemma_dec_seq_val(cs.last() as nat);
        assert(m.last() == dec_seq(cs.last() as nat));
        assert(crate::digits::piece_parses(m.last()));
        assert(crate::digits::digits_val(m.last()) == cs.last());
    }
}

/// Round trip: rendering a component list and re-parsing the text yields
/// a version equivalent, under padded comparison, to the single-part
/// version holding those components.  An empty component list renders as
/// the empty string, whose parse is the wildcard version; that version is
/// still equivalent to the empty part under padding.
pub proof fn lemma_part_render_round_trip(cs: Seq<u32>)
    ensures
        parse_succeeds(render_components(cs)),
        ver_eq(seq![cs], parse_result_parts(render_components(cs))),
{
    let t = render_components(cs);
    if cs.len() == 0 {
        assert(cs.map_values(|c: u32| dec_seq(c as nat)).len() == 0);
        assert(t =~= Seq::<char>::empty());
        assert(is_wildcard_input(t));
        assert(parse_result_parts(t) =~~= Seq::<Seq<u32>>::empty());
        let a = seq![cs];
        let b = Seq::<Seq<u32>>::empty();
        assert(part_cmp_from(cs, null_part(), 1) == 0);
        assert(part_cmp_from(cs, null_part(), 0) == 0);
        assert(ver_cmp_from(a, b, 1) == 0);
        assert(ver_cmp_from(a, b, 0) == 0);
    } else {
        lemma_render_components_nonempty(cs);
        lemma_render_components_plain(cs);
        lemma_numeric_parse(t);
        let m = cs.map_values(|c: u32| dec_seq(c as nat));
        assert forall|i: int, j: int| 0 <= i < m.len() && 0 <= j < m[i].len() implies #[trigger] m[i][j]
            != '.' by {
            lemma_dec_seq_no_dot(cs[i] as nat);
        }
        lemma_split_of_join(m, '.');
        assert(split_on(t, '.') =~~= m);
        lemma_pieces_vals_dec(cs);
        assert(pieces_vals(split_on(t, '.')) == cs);
        assert(parse_result_parts(t) =~~= seq![cs]);
        lemma_ver_cmp_refl(seq![cs], 0);
    }
}

} // verus!
