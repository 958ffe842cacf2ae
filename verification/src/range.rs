//! Version ranges: a pair of boundary versions with inclusive flags, a
//! membership test with half-open semantics, and rendering.

use vstd::prelude::*;
use vstd::string::StringExecFns;
use crate::order::ver_cmp;
use crate::version::{render_version, Version};

verus! {

/// One range boundary: a version and whether the boundary itself is in.
pub struct VersionRangePart {
    boundary: Version,
    inclusive: bool,
}

impl VersionRangePart {
    /// The boundary version.
    pub closed spec fn spec_boundary(&self) -> Version {
        self.boundary
    }

    /// The inclusive flag.
    pub closed spec fn spec_inclusive(&self) -> bool {
        self.inclusive
    }

    /// Assembles a boundary.
    pub fn new(boundary_in: Version, inclusive_in: bool) -> (r: Self)
        ensures
            r.spec_boundary() == boundary_in,
            r.spec_inclusive() == inclusive_in,
    {
        VersionRangePart { boundary: boundary_in, inclusive: inclusive_in }
    }

    /// Read access to the boundary version.
    pub fn boundary(&self) -> (r: &Version)
        ensures
            *r == self.spec_boundary(),
    {
        &self.boundary
    }

    /// Read access to the inclusive flag.
    pub fn inclusive(&self) -> (r: bool)
        ensures
            r == self.spec_inclusive(),
    {
        self.inclusive
    }
}

/// Whether a boundary leaves its side unconstrained: its version carries
/// the wildcard text.
pub open spec fn side_unbounded(b: Version) -> bool {
    b.text_spec() == ("*")@
}

/// Whether the lower side admits `v`.
pub open spec fn lower_admits(b: Version, inclusive: bool, v: Version) -> bool {
    ||| side_unbounded(b)
    ||| (inclusive && ver_cmp(b.parts_spec(), v.parts_spec()) <= 0)
    ||| (!inclusive && ver_cmp(b.parts_spec(), v.parts_spec()) == -1)
}

/// Whether the upper side admits `v`.
pub open spec fn upper_admits(b: Version, inclusive: bool, v: Version) -> bool {
    ||| side_unbounded(b)
    ||| (inclusive && ver_cmp(b.parts_spec(), v.parts_spec()) >= 0)
    ||| (!inclusive && ver_cmp(b.parts_spec(), v.parts_spec()) == 1)
}

/// A range of versions: a lower and an upper boundary, each side
/// independently possibly unconstrained.
pub struct VersionRange {
    lower: VersionRangePart,
    upper: VersionRangePart,
}

/// Whether `v` is a member of the range `r`.
pub open spec fn range_contains(r: VersionRange, v: Version) -> bool {
    &&& lower_admits(r.spec_lower().spec_boundary(), r.spec_lower().spec_inclusive(), v)
    &&& upper_admits(r.spec_upper().spec_boundary(), r.spec_upper().spec_inclusive(), v)
}

/// The rendering of one boundary version inside a range: the wildcard
/// boundary renders via its wildcard text, any other per its parts.
pub open spec fn render_side(b: Version) -> Seq<char> {
    if side_unbounded(b) {
        ("*")@
    } else {
        render_version(b.parts_spec())
    }
}

/// The rendering of a whole range: `*` when both sides are unconstrained,
/// else bracketed boundaries separated by a comma, `[`/`]` for inclusive
/// sides and `(`/`)` for exclusive ones.
pub open spec fn render_range(r: VersionRange) -> Seq<char> {
    if side_unbounded(r.spec_lower().spec_boundary()) && side_unbounded(
        r.spec_upper().spec_boundary(),
    ) {
        ("*")@
    } else {
        (if r.spec_lower().spec_inclusive() {
            ("[")@
        } else {
            ("(")@
        }) + render_side(r.spec_lower().spec_boundary()) + (",")@ + render_side(
            r.spec_upper().spec_boundary(),
        ) + (if r.spec_upper().spec_inclusive() {
            ("]")@
        } else {
            (")")@
        })
    }
}

impl VersionRange {
    /// The lower boundary.
    pub closed spec fn spec_lower(&self) -> VersionRangePart {
        self.lower
    }

    /// The upper boundary.
    pub closed spec fn spec_upper(&self) -> VersionRangePart {
        self.upper
    }

    /// Assembles a range from its two boundaries.
    pub fn new(lower_in: VersionRangePart, upper_in: VersionRangePart) -> (r: Self)
        ensures
            r.spec_lower() == lower_in,
            r.spec_upper() == upper_in,
    {
        VersionRange { lower: lower_in, upper: upper_in }
    }

    /// Read access to the lower boundary.
    pub fn lower(&self) -> (r: &VersionRangePart)
        ensures
            *r == self.spec_lower(),
    {
        &self.lower
    }

    /// Read access to the upper boundary.
    pub fn upper(&self) -> (r: &VersionRangePart)
        ensures
            *r == self.spec_upper(),
    {
        &self.upper
    }

    /// Membership: both sides must admit `version`, an unconstrained side
    /// admitting everything.
    pub fn contains(&self, version: &Version) -> (r: bool)
        ensures
            r == range_contains(*self, *version),
    {
        let mut result: bool = true;

        if self.lower.boundary.has_wildcard_text() {
            // unconstrained below: fall through
        } else if self.lower.inclusive {
            let comparison = self.lower.boundary.compare(version) <= 0;
            result = result && comparison;
        } else {
            let comparison = self.lower.boundary.compare(version) < 0;
            proof {
                crate::order::lemma_ver_cmp_range(
                    self.lower.boundary.parts_spec(),
                    version.parts_spec(),
                    0,
                );
            }
            result = result && comparison;
        }

        if self.upper.boundary.has_wildcard_text() {
            // unconstrained above: fall through
        } else if self.upper.inclusive {
            let comparison = self.upper.boundary.compare(version) >= 0;
            result = result && comparison;
        } else {
            let comparison = self.upper.boundary.compare(version) > 0;
            proof {
                crate::order::lemma_ver_cmp_range(
                    self.upper.boundary.parts_spec(),
                    version.parts_spec(),
                    0,
                );
            }
            result = result && comparison;
        }

        result
    }

    /// Renders the range.
    pub fn render(&self) -> (r: String)
        ensures
            r@ == render_range(*self),
    {
        if self.lower.boundary.has_wildcard_text() && self.upper.boundary.has_wildcard_text() {
            return String::from_str("*");
        }
        let mut out = String::from_str(
            if self.lower.inclusive {
                "["
            } else {
                "("
            },
        );
        if self.lower.boundary.has_wildcard_text() {
            out.append("*");
        } else {
            let lower_text = self.lower.boundary.render();
            out.append(lower_text.as_str());
        }
        out.append(",");
        if self.upper.boundary.has_wildcard_text() {
            out.append("*");
        } else {
            let upper_text = self.upper.boundary.render();
            out.append(upper_text.as_str());
        }
        out.append(
            if self.upper.inclusive {
                "]"
            } else {
                ")"
            },
        );
        out
    }
}

/// A range unconstrained on both sides contains every version.
pub proof fn lemma_wildcard_range_contains_all(r: VersionRange, v: Version)
    requires
        side_unbounded(r.spec_lower().spec_boundary()),
        side_unbounded(r.spec_upper().spec_boundary()),
    ensures
        range_contains(r, v),
{
}

} // verus!
