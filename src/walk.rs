//! The decisions of the directory walk: which listed children are searched,
//! what a file contributes, and how the results of children are merged.

use vstd::prelude::*;
use vstd::seq_lib::lemma_multiset_commutative;
use crate::classify::Classification;
use crate::scan::{Match, match_views, scan_spec, scan_content};

verus! {

/// The successful values of `rs`, in order.
pub open spec fn oks<T, E>(rs: Seq<Result<T, E>>) -> Seq<T>
    decreases rs.len(),
{
    if rs.len() == 0 {
        Seq::empty()
    } else {
        let prev = oks(rs.drop_last());
        match rs.last() {
            Ok(v) => prev.push(v),
            Err(_) => prev,
        }
    }
}

/// The errors of `rs`, in order.
pub open spec fn errs<T, E>(rs: Seq<Result<T, E>>) -> Seq<E>
    decreases rs.len(),
{
    if rs.len() == 0 {
        Seq::empty()
    } else {
        let prev = errs(rs.drop_last());
        match rs.last() {
            Ok(_) => prev,
            Err(e) => prev.push(e),
        }
    }
}

/// The matches that one child's result contributes.
pub open spec fn contributed(r: Result<Vec<Match>, String>) -> Seq<(Seq<char>, int, Seq<char>)> {
    match r {
        Ok(v) => match_views(v@),
        Err(_) => Seq::empty(),
    }
}

/// The matches of all children that completed, child after child.
pub open spec fn merged_spec(rs: Seq<Result<Vec<Match>, String>>) -> Seq<
    (Seq<char>, int, Seq<char>),
>
    decreases rs.len(),
{
    if rs.len() == 0 {
        Seq::empty()
    } else {
        merged_spec(rs.drop_last()) + contributed(rs.last())
    }
}

/// A file whose classification failed is treated as binary.
pub open spec fn effective_spec(r: Result<Classification, String>) -> Classification {
    match r {
        Ok(c) => c,
        Err(_) => Classification::Binary,
    }
}

/// Splits a directory listing into the children to search and the entries that
/// could not be listed, each in listing order.
pub fn split_listing<T, E>(entries: Vec<Result<T, E>>) -> (r: (Vec<T>, Vec<E>))
    ensures
        r.0@ == oks(entries@),
        r.1@ == errs(entries@),
{
    let mut rest = entries;
    let mut reversed: Vec<Result<T, E>> = Vec::new();
    while rest.len() > 0
        invariant
            rest@ + reversed@.reverse() == entries@,
        decreases rest@.len(),
    {
        let ghost before = (rest@, reversed@);
        let e = rest.pop().unwrap();
        reversed.push(e);
        proof {
            assert(reversed@.reverse() =~= seq![e] + before.1.reverse());
            assert(before.0 =~= rest@.push(e));
        }
    }
    let mut children: Vec<T> = Vec::new();
    let mut failures: Vec<E> = Vec::new();
    let ghost total = entries@;
    while reversed.len() > 0
        invariant
            reversed@.len() <= total.len(),
            total.subrange(0, total.len() - reversed@.len()) + reversed@.reverse() == total,
            children@ == oks(total.subrange(0, total.len() - reversed@.len())),
            failures@ == errs(total.subrange(0, total.len() - reversed@.len())),
        decreases reversed@.len(),
    {
        let ghost done = total.subrange(0, total.len() - reversed@.len());
        let ghost before = reversed@;
        let e = reversed.pop().unwrap();
        proof {
            let now = total.subrange(0, total.len() - reversed@.len());
            assert(before.reverse() =~= seq![e] + reversed@.reverse());
            assert(now =~= done.push(e)) by {
                assert(total =~= done + (seq![e] + reversed@.reverse()));
            }
            assert(now.drop_last() =~= done);
        }
        match e {
            Ok(v) => {
                children.push(v);
            },
            Err(x) => {
                failures.push(x);
            },
        }
    }
    proof {
        assert(total.subrange(0, total.len() as int) =~= total);
    }
    (children, failures)
}

/// Merges the results of a directory's children: the matches of every child that
/// completed, child after child and each in its own order, and the errors of the
/// children that did not, in order.
pub fn merge_child_results(results: Vec<Result<Vec<Match>, String>>) -> (r: (
    Vec<Match>,
    Vec<String>,
))
    ensures
        match_views(r.0@) == merged_spec(results@),
        r.1@ == errs(results@),
{
    let (groups, failures) = split_listing(results);
    let ghost oks_seq = groups@;
    let mut groups = groups;
    let mut all: Vec<Match> = Vec::new();
    let mut i: usize = 0;
    let n: usize = groups.len();
    proof {
        lemma_merged_is_oks(results@);
    }
    while i < n
        invariant
            n == groups@.len(),
            n == oks_seq.len(),
            i <= n,
            forall|k: int| i <= k < n ==> groups@[k] == oks_seq[k],
            match_views(all@) == flat_views(oks_seq.subrange(0, i as int)),
        decreases n - i,
    {
        let mut group: Vec<Match> = Vec::new();
        std::mem::swap(&mut groups[i], &mut group);
        let ghost before = all@;
        all.append(&mut group);
        proof {
            assert(oks_seq.subrange(0, i + 1).drop_last() =~= oks_seq.subrange(0, i as int));
            assert(match_views(all@) =~= match_views(before) + match_views(oks_seq[i as int]@));
        }
        i = i + 1;
    }
    proof {
        assert(oks_seq.subrange(0, n as int) =~= oks_seq);
    }
    (all, failures)
}

/// The matches of a sequence of match lists, list after list.
pub open spec fn flat_views(gs: Seq<Vec<Match>>) -> Seq<(Seq<char>, int, Seq<char>)>
    decreases gs.len(),
{
    if gs.len() == 0 {
        Seq::empty()
    } else {
        flat_views(gs.drop_last()) + match_views(gs.last()@)
    }
}

proof fn lemma_merged_is_oks(rs: Seq<Result<Vec<Match>, String>>)
    ensures
        merged_spec(rs) == flat_views(oks(rs)),
    decreases rs.len(),
{
    if rs.len() > 0 {
        lemma_merged_is_oks(rs.drop_last());
        match rs.last() {
            Ok(v) => {
                assert(oks(rs).drop_last() =~= oks(rs.drop_last()));
            },
            Err(_) => {
                assert(contributed(rs.last()) =~= Seq::empty());
                assert(merged_spec(rs) =~= merged_spec(rs.drop_last()));
            },
        }
    }
}

proof fn lemma_merged_concat(a: Seq<Result<Vec<Match>, String>>, b: Seq<Result<Vec<Match>, String>>)
    ensures
        merged_spec(a + b) == merged_spec(a) + merged_spec(b),
    decreases b.len(),
{
    if b.len() == 0 {
        assert(a + b =~= a);
        assert(merged_spec(a) + merged_spec(b) =~= merged_spec(a));
    } else {
        lemma_merged_concat(a, b.drop_last());
        assert((a + b).drop_last() =~= a + b.drop_last());
        assert((a + b).last() == b.last());
        assert(merged_spec(a + b) =~= merged_spec(a) + merged_spec(b));
    }
}

/// Merging does not depend on the order in which children complete: any two
/// orders of the same child results give the same multiset of matches.
pub proof fn lemma_merge_order_irrelevant(
    a: Seq<Result<Vec<Match>, String>>,
    b: Seq<Result<Vec<Match>, String>>,
)
    requires
        a.to_multiset() == b.to_multiset(),
    ensures
        merged_spec(a).to_multiset() == merged_spec(b).to_multiset(),
    decreases a.len(),
{
    broadcast use vstd::seq_lib::group_to_multiset_ensures, lemma_multiset_commutative;

    if a.len() == 0 {
        assert(b.to_multiset().len() == 0);
        assert(b.len() == 0);
        assert(merged_spec(b) =~= Seq::empty());
    } else {
        let x = a.last();
        let a1 = a.drop_last();
        assert(a1.push(x) =~= a);
        assert(a.to_multiset() =~= a1.to_multiset().insert(x));
        assert(a.to_multiset().count(x) > 0);
        assert(b.contains(x));
        let j = choose|j: int| 0 <= j < b.len() && b[j] == x;
        let b1 = b.remove(j);
        assert(b1.to_multiset() =~= b.to_multiset().remove(x));
        assert(b1.to_multiset() =~= a1.to_multiset());
        lemma_merge_order_irrelevant(a1, b1);
        let pre = b.subrange(0, j);
        let post = b.subrange(j + 1, b.len() as int);
        assert(b =~= pre + seq![x] + post);
        assert(b1 =~= pre + post);
        lemma_merged_concat(pre + seq![x], post);
        lemma_merged_concat(pre, seq![x]);
        lemma_merged_concat(pre, post);
        assert(seq![x].drop_last() =~= Seq::<Result<Vec<Match>, String>>::empty());
        assert(seq![x].last() == x);
        assert(merged_spec(seq![x].drop_last()) =~= Seq::empty());
        assert(merged_spec(seq![x]) =~= contributed(x));
        let mp = merged_spec(pre);
        let mq = merged_spec(post);
        let cx = contributed(x);
        assert(merged_spec(b) == mp + cx + mq);
        assert(merged_spec(b1) == mp + mq);
        assert(merged_spec(a) == merged_spec(a1) + cx);
        assert((mp + cx + mq).to_multiset() =~= mp.to_multiset().add(cx.to_multiset()).add(
            mq.to_multiset(),
        ));
        assert((mp + mq).to_multiset() =~= mp.to_multiset().add(mq.to_multiset()));
        assert((merged_spec(a1) + cx).to_multiset() =~= merged_spec(a1).to_multiset().add(
            cx.to_multiset(),
        ));
        assert(merged_spec(a).to_multiset() =~= merged_spec(b).to_multiset());
    }
}

/// The classification that decides what a file contributes: a failure to
/// classify counts as binary.
pub fn effective_classification(classified: &Result<Classification, String>) -> (r:
    Classification)
    ensures
        r == effective_spec(*classified),
{
    match classified {
        Ok(c) => *c,
        Err(_) => Classification::Binary,
    }
}

/// The matches that a file contributes: none when it is binary, else those of
/// scanning its content.
pub fn file_matches(path: &String, classification: Classification, content: &[u8], pattern: &str) -> (r:
    Vec<Match>)
    ensures
        classification == Classification::Binary ==> r@.len() == 0,
        classification == Classification::Text ==> match_views(r@) == scan_spec(
            path@,
            content@,
            pattern@,
        ),
{
    match classification {
        Classification::Binary => Vec::new(),
        Classification::Text => scan_content(path, content, pattern),
    }
}

} // verus!
