//! Ranking of participants for winner selection: higher priority
//! first; ties broken deterministically by earliest joining time and
//! then by smallest user id.

use vstd::prelude::*;
use vstd::multiset::Multiset;
use crate::db::Partecipant;

verus! {

/// Ranking order: `a` is ranked at or before `b`. Total, and
/// antisymmetric up to equality of the three ranking keys.
pub open spec fn ranked_leq(a: Partecipant, b: Partecipant) -> bool {
    ||| a.priority > b.priority
    ||| (a.priority == b.priority && a.joined_when < b.joined_when)
    ||| (a.priority == b.priority && a.joined_when == b.joined_when && a.user_id <= b.user_id)
}

/// `p` inserted into `s` before the first element it is ranked at or
/// before.
pub open spec fn insert_ranked(s: Seq<Partecipant>, p: Partecipant) -> Seq<Partecipant>
    decreases s.len(),
{
    if s.len() == 0 {
        seq![p]
    } else if ranked_leq(p, s[0]) {
        seq![p] + s
    } else {
        seq![s[0]] + insert_ranked(s.skip(1), p)
    }
}

/// The sequence sorted by the ranking order: insertion sort, element
/// by element in the order given.
pub open spec fn ranked(s: Seq<Partecipant>) -> Seq<Partecipant>
    decreases s.len(),
{
    if s.len() == 0 {
        Seq::empty()
    } else {
        insert_ranked(ranked(s.drop_last()), s.last())
    }
}

/// Sortedness with respect to the ranking order.
pub open spec fn is_ranked(s: Seq<Partecipant>) -> bool {
    forall|i: int, j: int| 0 <= i < j < s.len() ==> ranked_leq(s[i], s[j])
}

/// Inserting keeps the length and adds the element to the contents.
pub proof fn lemma_insert_ranked_multiset(s: Seq<Partecipant>, p: Partecipant)
    ensures
        insert_ranked(s, p).len() == s.len() + 1,
        insert_ranked(s, p).to_multiset() == s.to_multiset().insert(p),
    decreases s.len(),
{
    broadcast use vstd::seq_lib::group_to_multiset_ensures;

    if s.len() == 0 {
        assert(insert_ranked(s, p) =~= s.push(p));
    } else if ranked_leq(p, s[0]) {
        assert(insert_ranked(s, p) =~= seq![p] + s);
        assert(seq![p] + s =~= s.insert(0, p));
        vstd::seq_lib::lemma_multiset_commutative(seq![p], s);
        assert(seq![p].to_multiset() =~= Multiset::empty().insert(p)) by {
            assert(seq![p] =~= Seq::empty().push(p));
        }
        assert((seq![p] + s).to_multiset() =~= s.to_multiset().insert(p));
    } else {
        lemma_insert_ranked_multiset(s.skip(1), p);
        let rest = insert_ranked(s.skip(1), p);
        assert(insert_ranked(s, p) =~= seq![s[0]] + rest);
        vstd::seq_lib::lemma_multiset_commutative(seq![s[0]], rest);
        assert(seq![s[0]].to_multiset() =~= Multiset::empty().insert(s[0])) by {
            assert(seq![s[0]] =~= Seq::empty().push(s[0]));
        }
        assert(s =~= seq![s[0]] + s.skip(1));
        vstd::seq_lib::lemma_multiset_commutative(seq![s[0]], s.skip(1));
        assert(insert_ranked(s, p).to_multiset() =~= s.to_multiset().insert(p)) by {
            assert(insert_ranked(s, p).to_multiset() == seq![s[0]].to_multiset().add(
                rest.to_multiset(),
            ));
            assert(rest.to_multiset() == s.skip(1).to_multiset().insert(p));
            assert(s.to_multiset() == seq![s[0]].to_multiset().add(s.skip(1).to_multiset()));
        }
    }
}

/// Inserting into a ranked sequence keeps it ranked.
pub proof fn lemma_insert_ranked_sorted(s: Seq<Partecipant>, p: Partecipant)
    requires
        is_ranked(s),
    ensures
        is_ranked(insert_ranked(s, p)),
    decreases s.len(),
{
    lemma_insert_ranked_multiset(s, p);
    if s.len() == 0 {
    } else if ranked_leq(p, s[0]) {
        let r = seq![p] + s;
        assert forall|i: int, j: int| 0 <= i < j < r.len() implies ranked_leq(r[i], r[j]) by {
            if i == 0 {
                assert(ranked_leq(p, s[0]));
                if j > 1 {
                    assert(ranked_leq(s[0], s[j - 1]));
                }
            } else {
                assert(ranked_leq(s[i - 1], s[j - 1]));
            }
        }
    } else {
        assert(is_ranked(s.skip(1))) by {
            assert(forall|i: int, j: int|
                0 <= i < j < s.skip(1).len() ==> s.skip(1)[i] == s[i + 1] && s.skip(1)[j] == s[j
                    + 1]);
        }
        lemma_insert_ranked_sorted(s.skip(1), p);
        let rest = insert_ranked(s.skip(1), p);
        let r = seq![s[0]] + rest;
        // s[0] is ranked at or before p (the order is total), and at
        // or before every element of s.skip(1), so at or before every
        // element of rest.
        assert(ranked_leq(s[0], p));
        lemma_insert_ranked_multiset(s.skip(1), p);
        assert forall|k: int| 0 <= k < rest.len() implies ranked_leq(s[0], rest[k]) by {
            broadcast use vstd::seq_lib::group_to_multiset_ensures;

            assert(rest.to_multiset().contains(rest[k]));
            if rest[k] != p {
                assert(s.skip(1).to_multiset().contains(rest[k]));
                let m = choose|m: int| 0 <= m < s.skip(1).len() && s.skip(1)[m] == rest[k];
                assert(s.skip(1)[m] == s[m + 1]);
                assert(ranked_leq(s[0], s[m + 1]));
            }
        }
        assert forall|i: int, j: int| 0 <= i < j < r.len() implies ranked_leq(r[i], r[j]) by {
            if i == 0 {
                assert(r[j] == rest[j - 1]);
            } else {
                assert(r[i] == rest[i - 1] && r[j] == rest[j - 1]);
                assert(ranked_leq(rest[i - 1], rest[j - 1]));
            }
        }
    }
}

/// Ranking a sequence yields a permutation of it, sorted by the
/// ranking order.
pub proof fn lemma_ranked_sorted_permutation(s: Seq<Partecipant>)
    ensures
        ranked(s).len() == s.len(),
        ranked(s).to_multiset() == s.to_multiset(),
        is_ranked(ranked(s)),
    decreases s.len(),
{
    broadcast use vstd::seq_lib::group_to_multiset_ensures;

    if s.len() == 0 {
    } else {
        lemma_ranked_sorted_permutation(s.drop_last());
        lemma_insert_ranked_multiset(ranked(s.drop_last()), s.last());
        lemma_insert_ranked_sorted(ranked(s.drop_last()), s.last());
        assert(s =~= s.drop_last().push(s.last()));
        assert(s.drop_last().push(s.last()).to_multiset() == s.drop_last().to_multiset().insert(
            s.last(),
        ));
    }
}

/// Where the scan in `insert_sorted` stops, the spec insertion lands:
/// if `p` is ranked after everything before position `j` and at or
/// before the element at `j`, inserting at `j` is `insert_ranked`.
pub proof fn lemma_insert_ranked_at(s: Seq<Partecipant>, p: Partecipant, j: int)
    requires
        0 <= j <= s.len(),
        forall|k: int| 0 <= k < j ==> !ranked_leq(p, s[k]),
        j < s.len() ==> ranked_leq(p, s[j]),
    ensures
        insert_ranked(s, p) == s.insert(j, p),
    decreases s.len(),
{
    if s.len() == 0 {
        assert(insert_ranked(s, p) =~= s.insert(0, p));
    } else if j == 0 {
        assert(insert_ranked(s, p) =~= s.insert(0, p));
    } else {
        assert(!ranked_leq(p, s[0]));
        assert(forall|k: int| 0 <= k < j - 1 ==> s.skip(1)[k] == s[k + 1]);
        lemma_insert_ranked_at(s.skip(1), p, j - 1);
        assert(insert_ranked(s, p) =~= s.insert(j, p)) by {
            assert(insert_ranked(s, p) == seq![s[0]] + s.skip(1).insert(j - 1, p));
        }
    }
}

/// Exec comparison for the ranking order.
fn ranked_leq_exec(a: &Partecipant, b: &Partecipant) -> (r: bool)
    ensures
        r == ranked_leq(*a, *b),
{
    a.priority > b.priority || (a.priority == b.priority && (a.joined_when < b.joined_when || (
    a.joined_when == b.joined_when && a.user_id <= b.user_id)))
}

/// Inserts `p` into the ranked vector `out`, keeping it ranked.
fn insert_sorted(out: &mut Vec<Partecipant>, p: Partecipant)
    ensures
        final(out)@ == insert_ranked(old(out)@, p),
{
    let mut j: usize = 0;
    while j < out.len()
        invariant
            out@ == old(out)@,
            j <= out@.len(),
            forall|k: int| 0 <= k < j ==> !ranked_leq(p, out@[k]),
        decreases out@.len() - j,
    {
        if ranked_leq_exec(&p, &out[j]) {
            proof {
                lemma_insert_ranked_at(out@, p, j as int);
            }
            out.insert(j, p);
            return ;
        }
        j = j + 1;
    }
    proof {
        lemma_insert_ranked_at(out@, p, j as int);
    }
    out.insert(j, p);
}

/// The participants sorted by the ranking order: highest priority
/// first, ties broken by earliest joining time, then by smallest user
/// id.
pub fn rank_partecipants(list: Vec<Partecipant>) -> (r: Vec<Partecipant>)
    ensures
        r@ == ranked(list@),
{
    let mut out: Vec<Partecipant> = Vec::new();
    let mut i: usize = 0;
    proof {
        assert(list@.take(0) =~= Seq::<Partecipant>::empty());
    }
    while i < list.len()
        invariant
            i <= list@.len(),
            out@ == ranked(list@.take(i as int)),
        decreases list@.len() - i,
    {
        proof {
            assert(list@.take(i as int + 1).drop_last() =~= list@.take(i as int));
            assert(list@.take(i as int + 1).last() == list@[i as int]);
        }
        let p = list[i];
        insert_sorted(&mut out, p);
        i = i + 1;
    }
    proof {
        assert(list@.take(list@.len() as int) =~= list@);
    }
    out
}

} // verus!
