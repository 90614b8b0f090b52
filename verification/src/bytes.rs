//! Byte sequences joined with a separator byte, and the fields in them that
//! run to the next separator, as the on-disk encodings of trees and of the
//! index use them.

use vstd::prelude::*;

verus! {

/// The index of the first occurrence of `x` in `s`.
pub open spec fn position_of(s: Seq<u8>, x: u8) -> Option<nat>
    decreases s.len(),
{
    if s.len() == 0 {
        None
    } else if s[0] == x {
        Some(0)
    } else {
        match position_of(s.drop_first(), x) {
            Some(i) => Some(i + 1),
            None => None,
        }
    }
}

/// What `position_of` finds: the first occurrence, or that there is none.
pub proof fn lemma_position_of(s: Seq<u8>, x: u8)
    ensures
        match position_of(s, x) {
            Some(i) => i < s.len() && s[i as int] == x && forall|j: int|
                0 <= j < i ==> s[j] != x,
            None => !s.contains(x),
        },
    decreases s.len(),
{
    if s.len() > 0 {
        lemma_position_of(s.drop_first(), x);
        if s[0] != x {
            match position_of(s.drop_first(), x) {
                Some(i) => {
                    assert forall|j: int| 0 <= j < i + 1 implies s[j] != x by {
                        if j > 0 {
                            assert(s[j] == s.drop_first()[j - 1]);
                        }
                    }
                },
                None => {
                    if s.contains(x) {
                        let k = choose|k: int| 0 <= k < s.len() && s[k] == x;
                        assert(s.drop_first()[k - 1] == x);
                    }
                },
            }
        }
    }
}

/// The first occurrence of `x` is where `position_of` puts it.
pub proof fn lemma_position_of_at(s: Seq<u8>, x: u8, i: int)
    requires
        0 <= i < s.len(),
        s[i] == x,
        forall|j: int| 0 <= j < i ==> s[j] != x,
    ensures
        position_of(s, x) == Some(i as nat),
{
    lemma_position_of(s, x);
    match position_of(s, x) {
        Some(k) => {
            if (k as int) < i {
                assert(s[k as int] != x);
            }
            if (k as int) > i {
                assert(s[i] != x);
            }
        },
        None => {
            assert(s.contains(x));
        },
    }
}

/// A sequence that lacks `x` has no position for it.
pub proof fn lemma_position_of_absent(s: Seq<u8>, x: u8)
    requires
        !s.contains(x),
    ensures
        position_of(s, x) is None,
{
    lemma_position_of(s, x);
    if let Some(i) = position_of(s, x) {
        assert(s[i as int] == x);
    }
}

/// Each piece followed by the separator.
pub open spec fn join_terminated(ps: Seq<Seq<u8>>, sep: u8) -> Seq<u8>
    decreases ps.len(),
{
    if ps.len() == 0 {
        seq![]
    } else {
        ps[0] + seq![sep] + join_terminated(ps.drop_first(), sep)
    }
}

/// The pieces with the separator between each two of them.
pub open spec fn join_separated(ps: Seq<Seq<u8>>, sep: u8) -> Seq<u8>
    decreases ps.len(),
{
    if ps.len() == 0 {
        seq![]
    } else if ps.len() == 1 {
        ps[0]
    } else {
        ps[0] + seq![sep] + join_separated(ps.drop_first(), sep)
    }
}

/// Extending the pieces by one extends the terminated join by that piece and
/// a separator.
pub proof fn lemma_join_terminated_take(ps: Seq<Seq<u8>>, sep: u8, i: int)
    requires
        0 <= i < ps.len(),
    ensures
        join_terminated(ps.take(i + 1), sep) == join_terminated(ps.take(i), sep) + ps[i] + seq![
            sep,
        ],
    decreases i,
{
    if i == 0 {
        assert(ps.take(1).drop_first() =~= Seq::<Seq<u8>>::empty());
        assert(ps.take(0) =~= Seq::<Seq<u8>>::empty());
        assert(join_terminated(Seq::<Seq<u8>>::empty(), sep) =~= Seq::<u8>::empty());
        assert(ps.take(1)[0] == ps[0]);
        assert(join_terminated(ps.take(1), sep) == ps.take(1)[0] + seq![sep] + join_terminated(
            ps.take(1).drop_first(),
            sep,
        ));
        assert(join_terminated(ps.take(1), sep) =~= ps[0] + seq![sep]);
        assert(join_terminated(ps.take(0), sep) + ps[0] + seq![sep] =~= ps[0] + seq![sep]);
    } else {
        let rest = ps.drop_first();
        lemma_join_terminated_take(rest, sep, i - 1);
        assert(ps.take(i + 1).drop_first() =~= rest.take(i));
        assert(ps.take(i).drop_first() =~= rest.take(i - 1));
        assert(rest[i - 1] == ps[i]);
        assert(ps.take(i + 1)[0] == ps[0]);
        assert(ps.take(i)[0] == ps[0]);
        assert(join_terminated(ps.take(i + 1), sep) =~= join_terminated(ps.take(i), sep) + ps[i]
            + seq![sep]);
    }
}

/// The terminated join is the separated join followed by one separator.
pub proof fn lemma_join_terminated_separated(ps: Seq<Seq<u8>>, sep: u8)
    requires
        ps.len() > 0,
    ensures
        join_terminated(ps, sep) == join_separated(ps, sep).push(sep),
    decreases ps.len(),
{
    if ps.len() == 1 {
        assert(ps.drop_first() =~= Seq::<Seq<u8>>::empty());
        assert(join_terminated(ps.drop_first(), sep) =~= Seq::<u8>::empty());
        assert(join_terminated(ps, sep) =~= join_separated(ps, sep).push(sep));
    } else {
        let rest = ps.drop_first();
        lemma_join_terminated_separated(rest, sep);
        assert(join_terminated(ps, sep) == ps[0] + seq![sep] + join_terminated(rest, sep));
        assert(join_separated(ps, sep) == ps[0] + seq![sep] + join_separated(rest, sep));
        assert(join_terminated(ps, sep) =~= join_separated(ps, sep).push(sep));
    }
}

/// Where a field that starts at `from` ends: at the first `sep` at or after
/// `from`, or at the end of `b`.
pub open spec fn field_end(b: Seq<u8>, from: int, sep: u8) -> int {
    match position_of(b.skip(from), sep) {
        Some(i) => if from + i < b.len() {
            from + i
        } else {
            b.len() as int
        },
        None => b.len() as int,
    }
}

/// A field ends at `k` when no `sep` lies in `b[from..k]` and `k` is the end
/// of `b` or holds `sep`.
pub proof fn lemma_field_end(b: Seq<u8>, from: int, sep: u8, k: int)
    requires
        0 <= from <= k <= b.len(),
        forall|j: int| from <= j < k ==> b[j] != sep,
        k < b.len() ==> b[k] == sep,
    ensures
        field_end(b, from, sep) == k,
{
    let t = b.skip(from);
    if k < b.len() {
        assert forall|j: int| 0 <= j < k - from implies t[j] != sep by {
            assert(t[j] == b[from + j]);
        }
        assert(t[k - from] == sep);
        lemma_position_of_at(t, sep, k - from);
    } else {
        assert forall|j: int| 0 <= j < t.len() implies t[j] != sep by {
            assert(t[j] == b[from + j]);
        }
        if t.contains(sep) {
            let j = choose|j: int| 0 <= j < t.len() && t[j] == sep;
            assert(t[j] != sep);
        }
        lemma_position_of_absent(t, sep);
    }
}

/// The end of the field of `b` that starts at `from`: the index of the first
/// `sep` at or after `from`, or the length of `b`.
pub fn find_field_end(b: &[u8], from: usize, sep: u8) -> (r: usize)
    requires
        from <= b@.len(),
    ensures
        from <= r <= b@.len(),
        r == field_end(b@, from as int, sep),
        forall|j: int| from <= j < r ==> b@[j] != sep,
        r < b@.len() ==> b@[r as int] == sep,
{
    let mut i: usize = from;
    while i < b.len() && b[i] != sep
        invariant
            from <= i <= b@.len(),
            forall|j: int| from <= j < i ==> b@[j] != sep,
        decreases b@.len() - i,
    {
        i += 1;
    }
    proof {
        lemma_field_end(b@, from as int, sep, i as int);
    }
    i
}

/// Where a field of `p + seq![sep] + rest` that starts inside `p` ends, when
/// `p` lacks `sep` from `from` on: at the end of `p`. Likewise for `p` alone.
pub proof fn lemma_field_end_of_piece(p: Seq<u8>, rest: Seq<u8>, from: int, sep: u8)
    requires
        0 <= from <= p.len(),
        !p.skip(from).contains(sep),
    ensures
        field_end(p + seq![sep] + rest, from, sep) == p.len(),
        field_end(p, from, sep) == p.len(),
{
    let b = p + seq![sep] + rest;
    assert forall|j: int| from <= j < p.len() implies b[j] != sep && p[j] != sep by {
        assert(p.skip(from)[j - from] == p[j]);
    }
    lemma_field_end(b, from, sep, p.len() as int);
    lemma_field_end(p, from, sep, p.len() as int);
}

} // verus!
