//! Splitting character sequences on a delimiter, and joining them back.

use vstd::prelude::*;

verus! {

/// The segments of `s` split on the delimiter `d`; an empty input yields one
/// empty segment, and every delimiter occurrence starts a new segment.
pub open spec fn split_on(s: Seq<char>, d: char) -> Seq<Seq<char>>
    decreases s.len(),
{
    if s.len() == 0 {
        seq![Seq::<char>::empty()]
    } else if s.last() == d {
        split_on(s.drop_last(), d).push(Seq::<char>::empty())
    } else {
        let r = split_on(s.drop_last(), d);
        r.update(r.len() - 1, r.last().push(s.last()))
    }
}

/// Splitting always yields at least one segment.
pub proof fn lemma_split_on_len(s: Seq<char>, d: char)
    ensures
        split_on(s, d).len() >= 1,
    decreases s.len(),
{
    if s.len() > 0 {
        lemma_split_on_len(s.drop_last(), d);
    }
}

/// A sequence without the delimiter splits into exactly itself.
pub proof fn lemma_split_on_absent(s: Seq<char>, d: char)
    requires
        forall|i: int| 0 <= i < s.len() ==> #[trigger] s[i] != d,
    ensures
        split_on(s, d) =~~= seq![s],
    decreases s.len(),
{
    if s.len() == 0 {
        assert(split_on(s, d) =~~= seq![s]);
    } else {
        lemma_split_on_absent(s.drop_last(), d);
        let r = split_on(s.drop_last(), d);
        assert(r =~~= seq![s.drop_last()]);
        assert(split_on(s, d) =~~= seq![s.drop_last().push(s.last())]);
        assert(s.drop_last().push(s.last()) =~= s);
    }
}

/// Appending a delimiter and then a delimiter-free piece appends exactly
/// one new segment holding that piece.
pub proof fn lemma_split_on_append_piece(x: Seq<char>, p: Seq<char>, d: char)
    requires
        forall|i: int| 0 <= i < p.len() ==> #[trigger] p[i] != d,
    ensures
        split_on(x + seq![d] + p, d) =~~= split_on(x, d).push(p),
    decreases p.len(),
{
    lemma_split_on_len(x, d);
    if p.len() == 0 {
        let s = x + seq![d] + p;
        assert(s.len() == x.len() + 1);
        assert(s.last() == d);
        assert(s.drop_last() =~= x);
        assert(split_on(s, d) =~~= split_on(x, d).push(Seq::<char>::empty()));
        assert(p =~= Seq::<char>::empty());
    } else {
        lemma_split_on_append_piece(x, p.drop_last(), d);
        let s = x + seq![d] + p;
        assert(s.last() == p.last());
        assert(s.last() != d);
        assert(s.drop_last() =~= x + seq![d] + p.drop_last());
        let r = split_on(s.drop_last(), d);
        assert(r =~~= split_on(x, d).push(p.drop_last()));
        assert(r.last() == p.drop_last());
        assert(r.last().push(s.last()) =~= p);
        assert(split_on(s, d) =~~= r.update(r.len() - 1, p));
        assert(r.update(r.len() - 1, p) =~~= split_on(x, d).push(p));
    }
}

/// The pieces joined with the delimiter `d` between consecutive pieces.
pub open spec fn join_with(ps: Seq<Seq<char>>, d: char) -> Seq<char>
    decreases ps.len(),
{
    if ps.len() == 0 {
        Seq::<char>::empty()
    } else if ps.len() == 1 {
        ps[0]
    } else {
        join_with(ps.drop_last(), d) + seq![d] + ps.last()
    }
}

/// Splitting a joined list of delimiter-free pieces restores the list.
pub proof fn lemma_split_of_join(ps: Seq<Seq<char>>, d: char)
    requires
        ps.len() >= 1,
        forall|i: int, j: int|
            0 <= i < ps.len() && 0 <= j < ps[i].len() ==> #[trigger] ps[i][j] != d,
    ensures
        split_on(join_with(ps, d), d) =~~= ps,
    decreases ps.len(),
{
    if ps.len() == 1 {
        assert(forall|j: int| 0 <= j < ps[0].len() ==> #[trigger] ps[0][j] != d);
        lemma_split_on_absent(ps[0], d);
        assert(seq![ps[0]] =~~= ps);
    } else {
        lemma_split_of_join(ps.drop_last(), d);
        assert(forall|j: int| 0 <= j < ps.last().len() ==> #[trigger] ps.last()[j] != d) by {
            assert(forall|j: int|
                0 <= j < ps[ps.len() - 1].len() ==> #[trigger] ps[ps.len() - 1][j] != d);
        }
        lemma_split_on_append_piece(join_with(ps.drop_last(), d), ps.last(), d);
        assert(split_on(join_with(ps, d), d) =~~= split_on(join_with(ps.drop_last(), d), d).push(
            ps.last(),
        ));
        assert(ps.drop_last().push(ps.last()) =~~= ps);
    }
}

/// Splits a character vector on the delimiter `d`.
pub fn split_vec(s: &Vec<char>, d: char) -> (r: Vec<Vec<char>>)
    ensures
        r.deep_view() =~~= split_on(s@, d),
{
    let mut out: Vec<Vec<char>> = Vec::new();
    let mut cur: Vec<char> = Vec::new();
    let mut i: usize = 0;
    while i < s.len()
        invariant
            i <= s@.len(),
            out.deep_view().push(cur@) =~~= split_on(s@.take(i as int), d),
        decreases s@.len() - i,
    {
        let c = s[i];
        proof {
            assert(s@.take(i + 1).drop_last() =~= s@.take(i as int));
            assert(s@.take(i + 1).last() == s@[i as int]);
        }
        if c == d {
            out.push(cur);
            cur = Vec::new();
            proof {
                assert(out.deep_view().push(cur@) =~~= split_on(s@.take(i + 1), d));
            }
        } else {
            cur.push(c);
            proof {
                let prev = split_on(s@.take(i as int), d);
                assert(split_on(s@.take(i + 1), d) =~~= prev.update(
                    prev.len() - 1,
                    prev.last().push(c),
                ));
                assert(out.deep_view().push(cur@) =~~= prev.update(
                    prev.len() - 1,
                    prev.last().push(c),
                ));
            }
        }
        i = i + 1;
    }
    proof {
        assert(s@.take(s@.len() as int) =~= s@);
    }
    out.push(cur);
    out
}

} // verus!
