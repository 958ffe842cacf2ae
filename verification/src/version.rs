//! Canonical parsed versions: the parse pipeline, the `VersionPart` and
//! `Version` value types, their total preorder, and their rendering.

use vstd::prelude::*;
use vstd::string::{StrSliceExecFns, StringExecFns};
use core::cmp::Ordering;
use crate::chars::chars_of;
use crate::digits::append_decimal;
use crate::encode::{
    check_charset, check_noise, seg_accepted, segment_components, segment_components_vec,
};
use crate::normalize::{normalize, normalize_vec};
use crate::order::{
    cmp_components, lemma_part_cmp_range, lemma_ver_cmp_range, null_part, part_cmp, part_or_null,
    ver_cmp, ver_cmp_from,
};
use crate::splitting::{join_with, split_on, split_vec};

verus! {

/// The parse error: the input yielded no acceptable segment.  Its message
/// carries the original, unmodified input text.
#[derive(Debug)]
pub struct BadVersionString {
    message: String,
}

/// The message text of the expected parse error for input `t`.
pub open spec fn parse_error_message(t: Seq<char>) -> Seq<char> {
    ("Invalid version format: '")@ + t + ("'")@
}

impl BadVersionString {
    /// The stored message.
    pub closed spec fn spec_message(&self) -> Seq<char> {
        self.message@
    }

    /// Read access to the stored message.
    pub fn message(&self) -> (r: &String)
        ensures
            r@ == self.spec_message(),
    {
        &self.message
    }
}

/// One dot-delimited numeric segment of a version: an ordered list of
/// non-negative components, compared under right-padding with zeros.
#[derive(Debug)]
pub struct VersionPart {
    components: Vec<u32>,
}

impl View for VersionPart {
    type V = Seq<u32>;

    closed spec fn view(&self) -> Seq<u32> {
        self.components@
    }
}

/// The rendering of a component list: decimal values joined by dots.
pub open spec fn render_components(cs: Seq<u32>) -> Seq<char> {
    join_with(cs.map_values(|c: u32| crate::digits::dec_seq(c as nat)), '.')
}

impl VersionPart {
    /// The shared zero-equivalent sentinel used for padding.
    pub fn null() -> (r: Self)
        ensures
            r@ == null_part(),
    {
        let mut cs: Vec<u32> = Vec::new();
        cs.push(0);
        proof {
            assert(cs@ =~= null_part());
        }
        VersionPart { components: cs }
    }

    /// Wraps a component list as a part.
    pub fn new(components_in: Vec<u32>) -> (r: Self)
        ensures
            r@ == components_in@,
    {
        VersionPart { components: components_in }
    }

    /// Read access to the components.
    pub fn components(&self) -> (r: &Vec<u32>)
        ensures
            r@ == self@,
    {
        &self.components
    }

    /// Renders the stored components joined by `.`.
    pub fn render(&self) -> (r: String)
        ensures
            r@ == render_components(self@),
    {
        let ghost m = self@.map_values(|c: u32| crate::digits::dec_seq(c as nat));
        let mut out = String::new();
        let mut i: usize = 0;
        proof {
            reveal_strlit(".");
        }
        while i < self.components.len()
            invariant
                i <= self@.len(),
                m == self@.map_values(|c: u32| crate::digits::dec_seq(c as nat)),
                out@ =~= join_with(m.take(i as int), '.'),
            decreases self@.len() - i,
        {
            if i > 0 {
                out.append(".");
            }
            append_decimal(self.components[i], &mut out);
            proof {
                reveal_strlit(".");
                assert(m.take(i + 1).drop_last() =~= m.take(i as int));
                assert(m.take(i + 1).last() == m[i as int]);
                if i == 0 {
                    assert(join_with(m.take(1), '.') == m[0]);
                    assert(out@ =~= m[0]);
                } else {
                    assert(join_with(m.take(i + 1), '.') == join_with(m.take(i as int), '.')
                        + seq!['.'] + m[i as int]);
                    assert((".")@ =~= seq!['.']);
                }
            }
            i = i + 1;
        }
        proof {
            assert(m.take(m.len() as int) =~= m);
        }
        out
    }
}

/// The view of a part list: each part replaced by its component sequence.
pub open spec fn parts_view_of(ps: Seq<VersionPart>) -> Seq<Seq<u32>> {
    ps.map_values(|p: VersionPart| p@)
}

/// A canonical parsed version: the original text plus the parts the
/// pipeline produced.  The wildcard version has text `*` and no parts.
#[derive(Debug)]
pub struct Version {
    text: String,
    parts: Vec<VersionPart>,
}

/// Whether an input short-circuits to the wildcard version.
pub open spec fn is_wildcard_input(t: Seq<char>) -> bool {
    t.len() == 0 || t == ("*")@
}

/// The part lists produced by the accepted segments of a segment list.
pub open spec fn parts_of_segments(segs: Seq<Seq<char>>) -> Seq<Seq<u32>>
    decreases segs.len(),
{
    if segs.len() == 0 {
        Seq::<Seq<u32>>::empty()
    } else {
        let init = parts_of_segments(segs.drop_last());
        if seg_accepted(segs.last()) {
            init.push(segment_components(segs.last()))
        } else {
            init
        }
    }
}

/// The candidate segments of an input: normalize, then split on `-`.
pub open spec fn parse_segments(t: Seq<char>) -> Seq<Seq<char>> {
    split_on(normalize(t), '-')
}

/// The parts a non-wildcard input parses to.
pub open spec fn parse_parts(t: Seq<char>) -> Seq<Seq<u32>> {
    parts_of_segments(parse_segments(t))
}

/// Whether parsing succeeds: wildcard inputs always do, any other input
/// exactly when at least one segment is accepted.
pub open spec fn parse_succeeds(t: Seq<char>) -> bool {
    is_wildcard_input(t) || parse_parts(t).len() > 0
}

/// The parts of the version a successful parse returns.
pub open spec fn parse_result_parts(t: Seq<char>) -> Seq<Seq<u32>> {
    if is_wildcard_input(t) {
        Seq::<Seq<u32>>::empty()
    } else {
        parse_parts(t)
    }
}

/// The text of the version a successful parse returns: `*` for wildcard
/// inputs, the original text otherwise.
pub open spec fn parse_result_text(t: Seq<char>) -> Seq<char> {
    if is_wildcard_input(t) {
        ("*")@
    } else {
        t
    }
}

/// The rendering of a version: its parts' renderings joined by dots.
pub open spec fn render_version(parts: Seq<Seq<u32>>) -> Seq<char> {
    join_with(parts.map_values(|cs: Seq<u32>| render_components(cs)), '.')
}

impl Version {
    /// The stored text.
    pub closed spec fn text_spec(&self) -> Seq<char> {
        self.text@
    }

    /// The stored parts, as component sequences.
    pub closed spec fn parts_spec(&self) -> Seq<Seq<u32>> {
        parts_view_of(self.parts@)
    }

    /// The data-model invariant: the text is `*` exactly when there are
    /// no parts.
    pub open spec fn wf(&self) -> bool {
        (self.text_spec() == ("*")@) <==> self.parts_spec().len() == 0
    }

    /// Wraps text and parts as a version.
    fn new(text_in: String, parts_in: Vec<VersionPart>) -> (r: Self)
        ensures
            r.text_spec() == text_in@,
            r.parts_spec() == parts_view_of(parts_in@),
    {
        Version { text: text_in, parts: parts_in }
    }

    /// Read access to the stored text.
    pub fn text(&self) -> (r: &String)
        ensures
            r@ == self.text_spec(),
    {
        &self.text
    }

    /// Read access to the stored parts.
    pub fn parts(&self) -> (r: &Vec<VersionPart>)
        ensures
            parts_view_of(r@) == self.parts_spec(),
    {
        &self.parts
    }

    /// Whether the stored text is the wildcard text `*`.
    pub fn has_wildcard_text(&self) -> (r: bool)
        ensures
            r == (self.text_spec() == ("*")@),
    {
        let star = String::from_str("*");
        self.text == star
    }

    /// Three-way comparison under null-padded lexicographic order.
    pub fn compare(&self, other: &Version) -> (r: i8)
        ensures
            r as int == ver_cmp(self.parts_spec(), other.parts_spec()),
    {
        let ghost a = self.parts_spec();
        let ghost b = other.parts_spec();
        let null = VersionPart::null();
        let mut i: usize = 0;
        while i < self.parts.len() || i < other.parts.len()
            invariant
                a == self.parts_spec(),
                b == other.parts_spec(),
                null@ == null_part(),
                i <= a.len() || i <= b.len(),
                ver_cmp(a, b) == ver_cmp_from(a, b, i as int),
            decreases (if a.len() > b.len() {
                a.len()
            } else {
                b.len()
            }) - i,
        {
            let pa: &VersionPart = if i < self.parts.len() {
                &self.parts[i]
            } else {
                &null
            };
            let pb: &VersionPart = if i < other.parts.len() {
                &other.parts[i]
            } else {
                &null
            };
            proof {
                assert(pa@ == part_or_null(a, i as int));
                assert(pb@ == part_or_null(b, i as int));
            }
            let c = cmp_components(&pa.components, &pb.components);
            if c != 0 {
                return c;
            }
            i = i + 1;
        }
        0
    }

    /// Renders the parts joined by `.`; the wildcard version renders as
    /// the empty string.
    pub fn render(&self) -> (r: String)
        ensures
            r@ == render_version(self.parts_spec()),
    {
        let ghost m = self.parts_spec().map_values(|cs: Seq<u32>| render_components(cs));
        let mut out = String::new();
        let mut i: usize = 0;
        proof {
            reveal_strlit(".");
        }
        while i < self.parts.len()
            invariant
                i <= self.parts_spec().len(),
                m == self.parts_spec().map_values(|cs: Seq<u32>| render_components(cs)),
                out@ =~= join_with(m.take(i as int), '.'),
            decreases self.parts_spec().len() - i,
        {
            if i > 0 {
                out.append(".");
            }
            let piece = self.parts[i].render();
            out.append(piece.as_str());
            proof {
                reveal_strlit(".");
                assert(m.take(i + 1).drop_last() =~= m.take(i as int));
                assert(m.take(i + 1).last() == m[i as int]);
                if i == 0 {
                    assert(join_with(m.take(1), '.') == m[0]);
                } else {
                    assert(join_with(m.take(i + 1), '.') == join_with(m.take(i as int), '.')
                        + seq!['.'] + m[i as int]);
                    assert((".")@ =~= seq!['.']);
                }
            }
            i = i + 1;
        }
        proof {
            assert(m.take(m.len() as int) =~= m);
        }
        out
    }

    /// Parses a raw version string.
    ///
    /// Empty input and `*` yield the wildcard version.  Any other input is
    /// normalized, split and encoded; it succeeds exactly when at least
    /// one segment is accepted, and fails with [`BadVersionString`]
    /// carrying the original text otherwise.
    pub fn parse(text_raw: &str) -> (r: Result<Version, BadVersionString>)
        ensures
            r is Ok <==> parse_succeeds(text_raw@),
            (match r {
                Ok(v) => v.wf() && v.text_spec() == parse_result_text(text_raw@)
                    && v.parts_spec() =~~= parse_result_parts(text_raw@),
                Err(e) => e.spec_message() == parse_error_message(text_raw@),
            }),
    {
        proof {
            reveal_strlit("*");
        }
        let n: usize = text_raw.unicode_len();
        if n == 0 || (n == 1 && text_raw.get_char(0) == '*') {
            proof {
                if n == 1 {
                    assert(text_raw@ =~= ("*")@);
                }
            }
            let star = String::from_str("*");
            let parts: Vec<VersionPart> = Vec::new();
            proof {
                assert(parts_view_of(parts@) =~~= Seq::<Seq<u32>>::empty());
            }
            return Ok(Version::new(star, parts));
        }
        proof {
            assert(text_raw@ != ("*")@);
            assert(!is_wildcard_input(text_raw@));
        }
        let raw = chars_of(text_raw);
        let normd = normalize_vec(&raw);
        let segs = split_vec(&normd, '-');
        let ghost sv: Seq<Seq<char>> = segs.deep_view();
        proof {
            assert(sv =~~= parse_segments(text_raw@));
        }
        let mut parts: Vec<VersionPart> = Vec::new();
        let mut i: usize = 0;
        proof {
            assert(parts_view_of(parts@) =~~= parts_of_segments(sv.take(0)));
        }
        while i < segs.len()
            invariant
                i <= sv.len(),
                sv == segs.deep_view(),
                sv.len() == segs@.len(),
                parts_view_of(parts@) =~~= parts_of_segments(sv.take(i as int)),
            decreases sv.len() - i,
        {
            let seg = &segs[i];
            proof {
                assert(seg@ == sv[i as int]);
                assert(sv.take(i + 1).drop_last() =~~= sv.take(i as int));
                assert(sv.take(i + 1).last() == sv[i as int]);
            }
            if seg.len() > 0 && !check_noise(seg) && check_charset(seg) {
                let comps = segment_components_vec(seg);
                let ghost before = parts@;
                parts.push(VersionPart::new(comps));
                proof {
                    assert(seg_accepted(sv[i as int]));
                    assert(parts_view_of(parts@) =~~= parts_view_of(before).push(
                        segment_components(sv[i as int]),
                    ));
                }
            } else {
                proof {
                    assert(!seg_accepted(sv[i as int]));
                }
            }
            i = i + 1;
        }
        proof {
            assert(sv.take(sv.len() as int) =~~= sv);
            assert(parts_view_of(parts@) =~~= parse_parts(text_raw@));
        }
        if parts.len() > 0 {
            let text = String::from_str(text_raw);
            proof {
                assert(parts_view_of(parts@).len() > 0);
            }
            Ok(Version::new(text, parts))
        } else {
            let mut msg = String::from_str("Invalid version format: '");
            msg.append(text_raw);
            msg.append("'");
            Err(BadVersionString { message: msg })
        }
    }
}

impl PartialEq for VersionPart {
    /// Padded equality: both component lists agree at every padded index.
    fn eq(&self, other: &Self) -> (r: bool) {
        proof {
            lemma_part_cmp_range(self@, other@, 0);
        }
        cmp_components(&self.components, &other.components) == 0
    }
}

impl vstd::std_specs::cmp::PartialEqSpecImpl for VersionPart {
    open spec fn obeys_eq_spec() -> bool {
        true
    }

    open spec fn eq_spec(&self, other: &Self) -> bool {
        part_cmp(self@, other@) == 0
    }
}

impl PartialOrd for VersionPart {
    /// Padded lexicographic order: the first differing position decides.
    fn partial_cmp(&self, other: &Self) -> (r: Option<Ordering>) {
        proof {
            lemma_part_cmp_range(self@, other@, 0);
        }
        let c = cmp_components(&self.components, &other.components);
        if c < 0 {
            Some(Ordering::Less)
        } else if c == 0 {
            Some(Ordering::Equal)
        } else {
            Some(Ordering::Greater)
        }
    }
}

impl vstd::std_specs::cmp::PartialOrdSpecImpl for VersionPart {
    open spec fn obeys_partial_cmp_spec() -> bool {
        true
    }

    open spec fn partial_cmp_spec(&self, other: &Self) -> Option<Ordering> {
        if part_cmp(self@, other@) == -1 {
            Some(Ordering::Less)
        } else if part_cmp(self@, other@) == 0 {
            Some(Ordering::Equal)
        } else {
            Some(Ordering::Greater)
        }
    }
}

impl PartialEq for Version {
    /// Padded equality over whole parts, the null part filling the
    /// shorter side.
    fn eq(&self, other: &Self) -> (r: bool) {
        proof {
            lemma_ver_cmp_range(self.parts_spec(), other.parts_spec(), 0);
        }
        self.compare(other) == 0
    }
}

impl vstd::std_specs::cmp::PartialEqSpecImpl for Version {
    open spec fn obeys_eq_spec() -> bool {
        true
    }

    open spec fn eq_spec(&self, other: &Self) -> bool {
        ver_cmp(self.parts_spec(), other.parts_spec()) == 0
    }
}

impl PartialOrd for Version {
    /// Padded lexicographic order over whole parts.
    fn partial_cmp(&self, other: &Self) -> (r: Option<Ordering>) {
        proof {
            lemma_ver_cmp_range(self.parts_spec(), other.parts_spec(), 0);
        }
        let c = self.compare(other);
        if c < 0 {
            Some(Ordering::Less)
        } else if c == 0 {
            Some(Ordering::Equal)
        } else {
            Some(Ordering::Greater)
        }
    }
}

impl vstd::std_specs::cmp::PartialOrdSpecImpl for Version {
    open spec fn obeys_partial_cmp_spec() -> bool {
        true
    }

    open spec fn partial_cmp_spec(&self, other: &Self) -> Option<Ordering> {
        if ver_cmp(self.parts_spec(), other.parts_spec()) == -1 {
            Some(Ordering::Less)
        } else if ver_cmp(self.parts_spec(), other.parts_spec()) == 0 {
            Some(Ordering::Equal)
        } else {
            Some(Ordering::Greater)
        }
    }
}

impl core::str::FromStr for Version {
    type Err = BadVersionString;

    fn from_str(text_raw: &str) -> Result<Self, Self::Err> {
        Version::parse(text_raw)
    }
}

} // verus!
