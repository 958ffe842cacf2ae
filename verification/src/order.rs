//! Null-padded lexicographic ordering over integer sequences and over
//! sequences of such sequences, with proofs that it is a total preorder.

use vstd::prelude::*;

verus! {

/// The component at index `i`, reading positions past the end as `0`.
pub open spec fn comp_at(s: Seq<u32>, i: int) -> u32 {
    if 0 <= i < s.len() {
        s[i]
    } else {
        0
    }
}

/// Three-way padded comparison of integer sequences from index `i` on:
/// `-1`, `0` or `1` as the first differing padded position decides.
pub open spec fn part_cmp_from(a: Seq<u32>, b: Seq<u32>, i: int) -> int
    decreases (if a.len() > b.len() {
        a.len()
    } else {
        b.len()
    }) - i,
{
    if i >= a.len() && i >= b.len() {
        0
    } else if comp_at(a, i) < comp_at(b, i) {
        -1
    } else if comp_at(a, i) > comp_at(b, i) {
        1
    } else {
        part_cmp_from(a, b, i + 1)
    }
}

/// Three-way padded comparison of two integer sequences.
pub open spec fn part_cmp(a: Seq<u32>, b: Seq<u32>) -> int {
    part_cmp_from(a, b, 0)
}

/// The padding element for version-level comparison: the null part.
pub open spec fn null_part() -> Seq<u32> {
    seq![0u32]
}

/// The part at index `i`, reading positions past the end as the null part.
pub open spec fn part_or_null(ps: Seq<Seq<u32>>, i: int) -> Seq<u32> {
    if 0 <= i < ps.len() {
        ps[i]
    } else {
        null_part()
    }
}

/// Three-way comparison of part lists from index `i` on, padding the
/// shorter list with null parts.
pub open spec fn ver_cmp_from(a: Seq<Seq<u32>>, b: Seq<Seq<u32>>, i: int) -> int
    decreases (if a.len() > b.len() {
        a.len()
    } else {
        b.len()
    }) - i,
{
    if i >= a.len() && i >= b.len() {
        0
    } else {
        let c = part_cmp(part_or_null(a, i), part_or_null(b, i));
        if c != 0 {
            c
        } else {
            ver_cmp_from(a, b, i + 1)
        }
    }
}

/// Three-way comparison of two part lists.
pub open spec fn ver_cmp(a: Seq<Seq<u32>>, b: Seq<Seq<u32>>) -> int {
    ver_cmp_from(a, b, 0)
}

/// Equality, strict and non-strict order over part lists.
pub open spec fn ver_eq(a: Seq<Seq<u32>>, b: Seq<Seq<u32>>) -> bool {
    ver_cmp(a, b) == 0
}

/// Strict "earlier version" order over part lists.
pub open spec fn ver_lt(a: Seq<Seq<u32>>, b: Seq<Seq<u32>>) -> bool {
    ver_cmp(a, b) == -1
}

/// Strict "later version" order over part lists.
pub open spec fn ver_gt(a: Seq<Seq<u32>>, b: Seq<Seq<u32>>) -> bool {
    ver_cmp(a, b) == 1
}

/// Non-strict orders over part lists.
pub open spec fn ver_le(a: Seq<Seq<u32>>, b: Seq<Seq<u32>>) -> bool {
    ver_cmp(a, b) <= 0
}

/// Non-strict "at least" order over part lists.
pub open spec fn ver_ge(a: Seq<Seq<u32>>, b: Seq<Seq<u32>>) -> bool {
    ver_cmp(a, b) >= 0
}

/// The comparison always answers `-1`, `0` or `1`.
pub proof fn lemma_part_cmp_range(a: Seq<u32>, b: Seq<u32>, i: int)
    ensures
        part_cmp_from(a, b, i) == -1 || part_cmp_from(a, b, i) == 0 || part_cmp_from(a, b, i)
            == 1,
    decreases (if a.len() > b.len() {
        a.len()
    } else {
        b.len()
    }) - i,
{
    if !(i >= a.len() && i >= b.len()) && comp_at(a, i) == comp_at(b, i) {
        lemma_part_cmp_range(a, b, i + 1);
    }
}

/// One comparison step: compare the padded position, else move right.
/// This shape holds even past both ends, which smooths inductions.
pub proof fn lemma_part_cmp_unfold(a: Seq<u32>, b: Seq<u32>, i: int)
    requires
        i >= 0,
    ensures
        part_cmp_from(a, b, i) == (if comp_at(a, i) < comp_at(b, i) {
            -1
        } else if comp_at(a, i) > comp_at(b, i) {
            1
        } else {
            part_cmp_from(a, b, i + 1)
        }),
{
    if i >= a.len() && i >= b.len() {
        assert(comp_at(a, i) == 0 && comp_at(b, i) == 0);
        assert(part_cmp_from(a, b, i) == 0);
        assert(part_cmp_from(a, b, i + 1) == 0);
    }
}

/// Swapping the operands negates the comparison.
pub proof fn lemma_part_cmp_antisym(a: Seq<u32>, b: Seq<u32>, i: int)
    ensures
        part_cmp_from(a, b, i) == -part_cmp_from(b, a, i),
    decreases (if a.len() > b.len() {
        a.len()
    } else {
        b.len()
    }) - i,
{
    if !(i >= a.len() && i >= b.len()) && comp_at(a, i) == comp_at(b, i) {
        lemma_part_cmp_antisym(a, b, i + 1);
    }
}

/// Composition of part comparisons: equals compose, and a strict step on
/// either side of a chain keeps the chain strict.
pub proof fn lemma_part_cmp_trans(a: Seq<u32>, b: Seq<u32>, c: Seq<u32>, i: int)
    requires
        i >= 0,
        part_cmp_from(a, b, i) <= 0,
        part_cmp_from(b, c, i) <= 0,
    ensures
        part_cmp_from(a, c, i) <= 0,
        part_cmp_from(a, b, i) == -1 || part_cmp_from(b, c, i) == -1 ==> part_cmp_from(a, c, i)
            == -1,
    decreases (if a.len() >= b.len() && a.len() >= c.len() {
        a.len()
    } else if b.len() >= c.len() {
        b.len()
    } else {
        c.len()
    }) - i,
{
    lemma_part_cmp_unfold(a, b, i);
    lemma_part_cmp_unfold(b, c, i);
    lemma_part_cmp_unfold(a, c, i);
    lemma_part_cmp_range(a, b, i + 1);
    lemma_part_cmp_range(b, c, i + 1);
    if i >= a.len() && i >= b.len() && i >= c.len() {
    } else {
        let x = comp_at(a, i);
        let y = comp_at(b, i);
        let z = comp_at(c, i);
        if x == y && y == z {
            lemma_part_cmp_trans(a, b, c, i + 1);
        }
    }
}

/// The version comparison always answers `-1`, `0` or `1`.
pub proof fn lemma_ver_cmp_range(a: Seq<Seq<u32>>, b: Seq<Seq<u32>>, i: int)
    ensures
        ver_cmp_from(a, b, i) == -1 || ver_cmp_from(a, b, i) == 0 || ver_cmp_from(a, b, i) == 1,
    decreases (if a.len() > b.len() {
        a.len()
    } else {
        b.len()
    }) - i,
{
    if !(i >= a.len() && i >= b.len()) {
        lemma_part_cmp_range(part_or_null(a, i), part_or_null(b, i), 0);
        if part_cmp(part_or_null(a, i), part_or_null(b, i)) == 0 {
            lemma_ver_cmp_range(a, b, i + 1);
        }
    }
}

/// One version comparison step, valid even past both ends.
pub proof fn lemma_ver_cmp_unfold(a: Seq<Seq<u32>>, b: Seq<Seq<u32>>, i: int)
    requires
        i >= 0,
    ensures
        ver_cmp_from(a, b, i) == ({
            let c = part_cmp(part_or_null(a, i), part_or_null(b, i));
            if c != 0 {
                c
            } else {
                ver_cmp_from(a, b, i + 1)
            }
        }),
{
    if i >= a.len() && i >= b.len() {
        assert(part_or_null(a, i) == null_part());
        assert(part_or_null(b, i) == null_part());
        assert(part_cmp(null_part(), null_part()) == 0) by {
            assert(part_cmp_from(null_part(), null_part(), 1) == 0);
        }
        assert(ver_cmp_from(a, b, i) == 0);
        assert(ver_cmp_from(a, b, i + 1) == 0);
    }
}

/// Swapping the operands negates the version comparison.
pub proof fn lemma_ver_cmp_antisym(a: Seq<Seq<u32>>, b: Seq<Seq<u32>>, i: int)
    requires
        i >= 0,
    ensures
        ver_cmp_from(a, b, i) == -ver_cmp_from(b, a, i),
    decreases (if a.len() > b.len() {
        a.len()
    } else {
        b.len()
    }) - i,
{
    lemma_ver_cmp_unfold(a, b, i);
    lemma_ver_cmp_unfold(b, a, i);
    lemma_part_cmp_antisym(part_or_null(a, i), part_or_null(b, i), 0);
    if !(i >= a.len() && i >= b.len()) {
        if part_cmp(part_or_null(a, i), part_or_null(b, i)) == 0 {
            lemma_ver_cmp_antisym(a, b, i + 1);
        }
    }
}

/// Composition of version comparisons: equals compose, and a strict step
/// on either side of a chain keeps the chain strict.
pub proof fn lemma_ver_cmp_trans(a: Seq<Seq<u32>>, b: Seq<Seq<u32>>, c: Seq<Seq<u32>>, i: int)
    requires
        i >= 0,
        ver_cmp_from(a, b, i) <= 0,
        ver_cmp_from(b, c, i) <= 0,
    ensures
        ver_cmp_from(a, c, i) <= 0,
        ver_cmp_from(a, b, i) == -1 || ver_cmp_from(b, c, i) == -1 ==> ver_cmp_from(a, c, i)
            == -1,
    decreases (if a.len() >= b.len() && a.len() >= c.len() {
        a.len()
    } else if b.len() >= c.len() {
        b.len()
    } else {
        c.len()
    }) - i,
{
    lemma_ver_cmp_unfold(a, b, i);
    lemma_ver_cmp_unfold(b, c, i);
    lemma_ver_cmp_unfold(a, c, i);
    lemma_ver_cmp_range(a, b, i + 1);
    lemma_ver_cmp_range(b, c, i + 1);
    if i >= a.len() && i >= b.len() && i >= c.len() {
    } else {
        let pa = part_or_null(a, i);
        let pb = part_or_null(b, i);
        let pc = part_or_null(c, i);
        lemma_part_cmp_range(pa, pb, 0);
        lemma_part_cmp_range(pb, pc, 0);
        if part_cmp(pa, pb) == 0 && part_cmp(pb, pc) == 0 {
            lemma_part_cmp_trans(pa, pb, pc, 0);
            assert(part_cmp(pa, pc) <= 0);
            lemma_part_cmp_antisym(pa, pb, 0);
            lemma_part_cmp_antisym(pb, pc, 0);
            lemma_part_cmp_trans(pc, pb, pa, 0);
            assert(part_cmp(pa, pc) == 0) by {
                lemma_part_cmp_antisym(pa, pc, 0);
            }
            lemma_ver_cmp_trans(a, b, c, i + 1);
        } else if part_cmp(pa, pb) == -1 && part_cmp(pb, pc) == 0 {
            lemma_part_cmp_antisym(pb, pc, 0);
            lemma_part_cmp_trans(pa, pb, pc, 0);
            assert(part_cmp(pa, pc) == -1);
        } else if part_cmp(pa, pb) == 0 && part_cmp(pb, pc) == -1 {
            lemma_part_cmp_trans(pa, pb, pc, 0);
            assert(part_cmp(pa, pc) == -1);
        } else {
            assert(part_cmp(pa, pb) == -1 && part_cmp(pb, pc) == -1);
            lemma_part_cmp_trans(pa, pb, pc, 0);
            assert(part_cmp(pa, pc) == -1);
        }
    }
}

/// Comparing a part list with itself answers "equal".
pub proof fn lemma_part_cmp_refl(a: Seq<u32>, i: int)
    ensures
        part_cmp_from(a, a, i) == 0,
    decreases a.len() - i,
{
    if i < a.len() {
        lemma_part_cmp_refl(a, i + 1);
    }
}

/// Comparing a version with itself answers "equal".
pub proof fn lemma_ver_cmp_refl(a: Seq<Seq<u32>>, i: int)
    ensures
        ver_cmp_from(a, a, i) == 0,
    decreases a.len() - i,
{
    if i < a.len() {
        lemma_part_cmp_refl(part_or_null(a, i), 0);
        lemma_ver_cmp_refl(a, i + 1);
    }
}

/// Version ordering is trichotomous: of `a` earlier than `b`, `a`
/// equivalent to `b`, and `a` later than `b`, exactly one holds.
pub proof fn lemma_version_order_trichotomy(a: Seq<Seq<u32>>, b: Seq<Seq<u32>>)
    ensures
        ver_lt(a, b) || ver_eq(a, b) || ver_gt(a, b),
        ver_lt(a, b) ==> !ver_eq(a, b) && !ver_gt(a, b),
        ver_eq(a, b) ==> !ver_lt(a, b) && !ver_gt(a, b),
        ver_gt(a, b) ==> !ver_lt(a, b) && !ver_eq(a, b),
{
    lemma_ver_cmp_range(a, b, 0);
}

/// The strict version order is transitive.
pub proof fn lemma_version_order_transitive(a: Seq<Seq<u32>>, b: Seq<Seq<u32>>, c: Seq<Seq<u32>>)
    requires
        ver_lt(a, b),
        ver_lt(b, c),
    ensures
        ver_lt(a, c),
{
    lemma_ver_cmp_trans(a, b, c, 0);
}

/// The "later" order is the converse of the "earlier" order.
pub proof fn lemma_version_order_converse(a: Seq<Seq<u32>>, b: Seq<Seq<u32>>)
    ensures
        ver_gt(a, b) <==> ver_lt(b, a),
{
    lemma_ver_cmp_antisym(a, b, 0);
}

/// Compares two component vectors by padded lexicographic order.
pub fn cmp_components(a: &Vec<u32>, b: &Vec<u32>) -> (r: i8)
    ensures
        r as int == part_cmp(a@, b@),
{
    let mut i: usize = 0;
    while i < a.len() || i < b.len()
        invariant
            i <= a@.len() || i <= b@.len(),
            part_cmp(a@, b@) == part_cmp_from(a@, b@, i as int),
        decreases (if a@.len() > b@.len() {
            a@.len()
        } else {
            b@.len()
        }) - i,
    {
        let x: u32 = if i < a.len() {
            a[i]
        } else {
            0
        };
        let y: u32 = if i < b.len() {
            b[i]
        } else {
            0
        };
        proof {
            assert(x == comp_at(a@, i as int));
            assert(y == comp_at(b@, i as int));
        }
        if x < y {
            return -1;
        }
        if x > y {
            return 1;
        }
        i = i + 1;
    }
    0
}

} // verus!
