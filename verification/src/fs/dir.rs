//! A directory and its sorted contents.
//!
//! A [`Dir`] holds a name and every entry read from one directory,
//! sorted ascending by entry name. The sort is insertion sort, pinned by
//! the spec function [`sort_by_name`]; the lemma
//! [`lemma_sort_by_name_props`] states that the result is sorted and is
//! a permutation of what was read.

use vstd::prelude::*;
use crate::fs::file::File;
use crate::order::lemma_str_le_total;
use crate::order::lemma_str_le_trans;
use crate::order::str_le;
use crate::order::str_le_exec;

verus! {

/// Entry `a` sorts no later than entry `b`: names compared
/// lexicographically. Nothing else of an entry takes part in the order.
pub open spec fn file_le(a: File, b: File) -> bool {
    str_le(a.name@, b.name@)
}

/// Every pair of entries stands in order.
pub open spec fn sorted_by_name(s: Seq<File>) -> bool {
    forall|i: int, j: int| 0 <= i < j < s.len() ==> file_le(s[i], s[j])
}

/// Where insertion sort puts `x` in `s`: after every entry that sorts no
/// later than `x`.
pub open spec fn insert_sorted(s: Seq<File>, x: File) -> Seq<File>
    decreases s.len(),
{
    if s.len() > 0 && file_le(s[0], x) {
        seq![s[0]] + insert_sorted(s.drop_first(), x)
    } else {
        seq![x] + s
    }
}

/// The sorted form of `s`: its entries inserted one by one, in order.
pub open spec fn sort_by_name(s: Seq<File>) -> Seq<File>
    decreases s.len(),
{
    if s.len() == 0 {
        Seq::empty()
    } else {
        insert_sorted(sort_by_name(s.drop_last()), s.last())
    }
}

proof fn lemma_insert_sorted_props(s: Seq<File>, x: File)
    requires
        sorted_by_name(s),
    ensures
        insert_sorted(s, x).len() == s.len() + 1,
        insert_sorted(s, x).to_multiset() == s.to_multiset().insert(x),
        sorted_by_name(insert_sorted(s, x)),
        forall|j: int|
            0 <= j < insert_sorted(s, x).len() ==> (insert_sorted(s, x)[j] == x || s.contains(
                insert_sorted(s, x)[j],
            )),
    decreases s.len(),
{
    broadcast use vstd::seq_lib::group_to_multiset_ensures;
    broadcast use vstd::multiset::group_multiset_axioms;
    broadcast use vstd::seq_lib::to_multiset_insert;

    let r = insert_sorted(s, x);
    if s.len() > 0 && file_le(s[0], x) {
        let rest = insert_sorted(s.drop_first(), x);
        assert(sorted_by_name(s.drop_first())) by {
            assert(forall|i: int, j: int|
                0 <= i < j < s.drop_first().len() ==> s.drop_first()[i] == s[i + 1]
                    && s.drop_first()[j] == s[j + 1]);
        }
        lemma_insert_sorted_props(s.drop_first(), x);
        assert(r =~= rest.insert(0, s[0]));
        assert(r.to_multiset() == rest.to_multiset().insert(s[0]));
        assert(s =~= s.drop_first().insert(0, s[0]));
        assert(s.to_multiset() == s.drop_first().to_multiset().insert(s[0]));
        assert(r.to_multiset() =~= s.to_multiset().insert(x)) by {
            assert(rest.to_multiset() == s.drop_first().to_multiset().insert(x));
        }
        // the head sorts no later than everything behind it
        assert(forall|j: int| 1 <= j < r.len() ==> file_le(r[0], #[trigger] r[j])) by {
            assert forall|j: int| 1 <= j < r.len() implies file_le(r[0], r[j]) by {
                assert(r[j] == rest[j - 1]);
                if rest[j - 1] == x {
                } else {
                    let k = choose|k: int|
                        0 <= k < s.drop_first().len() && s.drop_first()[k] == rest[j - 1];
                    assert(s[k + 1] == rest[j - 1]);
                    assert(file_le(s[0], s[k + 1]));
                }
            }
        }
        assert(sorted_by_name(r)) by {
            assert forall|i: int, j: int| 0 <= i < j < r.len() implies file_le(r[i], r[j]) by {
                if i == 0 {
                } else {
                    assert(r[i] == rest[i - 1] && r[j] == rest[j - 1]);
                }
            }
        }
        assert forall|j: int| 0 <= j < r.len() implies (r[j] == x || s.contains(r[j])) by {
            if j == 0 {
                assert(s[0] == r[0]);
            } else if r[j] != x {
                let k = choose|k: int|
                    0 <= k < s.drop_first().len() && s.drop_first()[k] == r[j];
                assert(s[k + 1] == r[j]);
            }
        }
    } else {
        assert(r =~= s.insert(0, x));
        assert(r.to_multiset() == s.to_multiset().insert(x));
        if s.len() > 0 {
            assert(forall|i: int| 0 <= i < s.len() ==> file_le(x, #[trigger] s[i])) by {
                assert forall|i: int| 0 <= i < s.len() implies file_le(x, s[i]) by {
                    lemma_str_le_total(s[0].name@, x.name@);
                    if i > 0 {
                        assert(file_le(s[0], s[i]));
                        lemma_str_le_trans(x.name@, s[0].name@, s[i].name@);
                    }
                }
            }
        }
        assert(sorted_by_name(r)) by {
            assert forall|i: int, j: int| 0 <= i < j < r.len() implies file_le(r[i], r[j]) by {
                if i == 0 {
                    assert(r[j] == s[j - 1]);
                } else {
                    assert(r[i] == s[i - 1] && r[j] == s[j - 1]);
                }
            }
        }
        assert forall|j: int| 0 <= j < r.len() implies (r[j] == x || s.contains(r[j])) by {
            if j > 0 {
                assert(s[j - 1] == r[j]);
            }
        }
    }
}

/// Scanning past every entry that sorts no later than `x` and inserting
/// there is exactly [`insert_sorted`].
proof fn lemma_insert_sorted_split(s: Seq<File>, x: File, p: int)
    requires
        0 <= p <= s.len(),
        forall|q: int| 0 <= q < p ==> file_le(#[trigger] s[q], x),
        p < s.len() ==> !file_le(s[p], x),
    ensures
        insert_sorted(s, x) == s.insert(p, x),
    decreases p,
{
    if p == 0 {
        assert(seq![x] + s =~= s.insert(0, x));
    } else {
        assert(file_le(s[0], x));
        assert(forall|q: int|
            0 <= q < p - 1 ==> file_le(#[trigger] s.drop_first()[q], x) && s.drop_first()[q] == s[q
                + 1]);
        lemma_insert_sorted_split(s.drop_first(), x, p - 1);
        assert(seq![s[0]] + s.drop_first().insert(p - 1, x) =~= s.insert(p, x));
    }
}

/// A directory's contents, as built here, are sorted ascending by name,
/// and are exactly the entries that were read: one per child, none
/// added, none lost.
pub proof fn lemma_sort_by_name_props(s: Seq<File>)
    ensures
        sorted_by_name(sort_by_name(s)),
        sort_by_name(s).to_multiset() == s.to_multiset(),
        sort_by_name(s).len() == s.len(),
    decreases s.len(),
{
    broadcast use vstd::seq_lib::group_to_multiset_ensures;

    if s.len() == 0 {
        assert(s =~= Seq::<File>::empty());
    } else {
        lemma_sort_by_name_props(s.drop_last());
        lemma_insert_sorted_props(sort_by_name(s.drop_last()), s.last());
        assert(s =~= s.drop_last().push(s.last()));
        assert(s.drop_last().push(s.last()).to_multiset() == s.drop_last().to_multiset().insert(
            s.last(),
        ));
    }
}

/// Sorts entries ascending by name. Insertion sort, matching
/// [`sort_by_name`] exactly.
fn sort_files(input: Vec<File>) -> (r: Vec<File>)
    ensures
        r@ == sort_by_name(input@),
{
    let ghost orig: Seq<File> = input@;
    let mut rest = input;
    let n: usize = rest.len();
    let mut out: Vec<File> = Vec::new();
    let mut k: usize = 0;
    proof {
        assert(orig.take(0) =~= Seq::<File>::empty());
        assert(orig.skip(0) =~= orig);
    }
    while rest.len() > 0
        invariant
            n == orig.len(),
            k + rest@.len() == orig.len(),
            rest@ == orig.skip(k as int),
            out@ == sort_by_name(orig.take(k as int)),
        decreases rest@.len(),
    {
        let ghost out_before: Seq<File> = out@;
        let x = rest.remove(0);
        proof {
            assert(orig.skip(k as int).remove(0) =~= orig.skip(k + 1));
            assert(x == orig[k as int]);
        }
        let mut p: usize = 0;
        loop
            invariant
                p <= out@.len(),
                out@ == out_before,
                forall|q: int| 0 <= q < p ==> file_le(#[trigger] out@[q], x),
            ensures
                p <= out@.len(),
                out@ == out_before,
                forall|q: int| 0 <= q < p ==> file_le(#[trigger] out@[q], x),
                p < out@.len() ==> !file_le(out@[p as int], x),
            decreases out@.len() - p,
        {
            if p == out.len() {
                break ;
            }
            if !str_le_exec(out[p].name.as_str(), x.name.as_str()) {
                break ;
            }
            p = p + 1;
        }
        proof {
            lemma_insert_sorted_split(out@, x, p as int);
        }
        out.insert(p, x);
        k = k + 1;
        proof {
            assert(orig.take(k as int).drop_last() =~= orig.take(k - 1));
            assert(orig.take(k as int).last() == x);
        }
    }
    proof {
        assert(orig.take(orig.len() as int) =~= orig);
    }
    out
}

/// A directory: its own name and its entries, sorted ascending by name.
#[derive(Debug)]
pub struct Dir {
    /// The directory's final path component, copied from the entry it
    /// was built from.
    pub name: String,
    /// Every entry read from the directory, sorted ascending by name.
    pub contents: Vec<File>,
}

/// What rendering reads of a directory: its name and its entry sequence.
pub struct DirView {
    pub name: Seq<char>,
    pub contents: Seq<File>,
}

impl View for Dir {
    type V = DirView;

    open spec fn view(&self) -> DirView {
        DirView { name: self.name@, contents: self.contents@ }
    }
}

impl Dir {
    /// Builds the directory from the entry that names it and the entries
    /// read from it; the contents come out sorted ascending by name.
    pub fn new(file: File, contents: Vec<File>) -> (r: Dir)
        requires
            file.directory,
        ensures
            r.name == file.name,
            r.contents@ == sort_by_name(contents@),
    {
        let sorted = sort_files(contents);
        Dir { name: file.name, contents: sorted }
    }
}

} // verus!
