//! The order of directory listings: folders first, then by name without
//! regard to case.

use vstd::prelude::*;
use vstd::seq_lib::{to_multiset_build, to_multiset_insert};

use crate::text::lowercase_of;

verus! {

/// Whether the part of `a` from index `from` on comes before that of `b`,
/// or is equal to it, in the lexicographic order of their characters.
pub open spec fn lex_le(a: Seq<char>, b: Seq<char>, from: int) -> bool
    decreases a.len() - from,
{
    if from < 0 || from >= a.len() {
        true
    } else if from >= b.len() {
        false
    } else if a[from] != b[from] {
        a[from] < b[from]
    } else {
        lex_le(a, b, from + 1)
    }
}

/// Of two texts one comes before the other, or they are equal.
pub proof fn lemma_lex_total(a: Seq<char>, b: Seq<char>, from: int)
    requires
        0 <= from,
    ensures
        lex_le(a, b, from) || lex_le(b, a, from),
    decreases a.len() - from,
{
    if from < a.len() && from < b.len() && a[from] == b[from] {
        lemma_lex_total(a, b, from + 1);
    }
}

/// What comes before something that comes before a third comes before the
/// third.
pub proof fn lemma_lex_transitive(a: Seq<char>, b: Seq<char>, c: Seq<char>, from: int)
    requires
        0 <= from,
        lex_le(a, b, from),
        lex_le(b, c, from),
    ensures
        lex_le(a, c, from),
    decreases a.len() - from,
{
    if from < a.len() && from < b.len() && from < c.len() && a[from] == b[from] && b[from]
        == c[from] {
        lemma_lex_transitive(a, b, c, from + 1);
    }
}

/// Whether `a` comes before `b`, or is equal to it.
pub fn lex_before(a: &[char], b: &[char]) -> (r: bool)
    ensures
        r == lex_le(a@, b@, 0),
{
    let mut i: usize = 0;
    while i < a.len() && i < b.len() && a[i] == b[i]
        invariant
            i <= a.len(),
            i <= b.len(),
            lex_le(a@, b@, 0) == lex_le(a@, b@, i as int),
        decreases a.len() - i,
    {
        i = i + 1;
    }
    if i >= a.len() {
        true
    } else if i >= b.len() {
        false
    } else {
        a[i] < b[i]
    }
}

/// The rank of an item in a listing: whether it leads, as folders do, and
/// its name in lowercase.
pub struct Rank {
    pub leads: bool,
    pub key: Seq<char>,
}

/// Whether an item of rank `a` may stand before one of rank `b`: leading
/// items stand before the others, and among their like the items stand in
/// the order of their keys.
pub open spec fn rank_le(a: Rank, b: Rank) -> bool {
    if a.leads != b.leads {
        a.leads
    } else {
        lex_le(a.key, b.key, 0)
    }
}

/// An item of a listing.
pub trait Listed: Sized {
    /// Whether the item leads the listing, as folders do.
    spec fn leads(&self) -> bool;

    /// The name of the item.
    spec fn label(&self) -> Seq<char>;

    /// Whether the item leads the listing.
    fn is_leading(&self) -> (r: bool)
        ensures
            r == self.leads(),
    ;

    /// The name of the item in lowercase.
    fn sort_key(&self) -> (key: Vec<char>)
        ensures
            key@ == lowercase_of(self.label()),
    ;
}

/// The rank of `item`.
pub open spec fn rank_of<T: Listed>(item: T) -> Rank {
    Rank { leads: item.leads(), key: lowercase_of(item.label()) }
}

/// Every item of `items` may stand before those that follow it.
pub open spec fn in_order<T: Listed>(items: Seq<T>) -> bool {
    forall|i: int, j: int|
        0 <= i < j < items.len() ==> rank_le(rank_of(#[trigger] items[i]), rank_of(#[trigger] items[j]))
}

/// Whether `out` holds the items of `items` in the order of a listing,
/// where `from` says for each item of `out` where it stood in `items`:
/// every item of `items` stands in `out` once, each may stand before those
/// that follow it, and of two items of equal rank the one that came first
/// in `items` comes first.
pub open spec fn stable_order<T: Listed>(out: Seq<T>, items: Seq<T>, from: Seq<int>) -> bool {
    &&& from.len() == out.len()
    &&& out.len() == items.len()
    &&& forall|i: int|
        0 <= i < out.len() ==> 0 <= #[trigger] from[i] < items.len() && out[i] == items[from[i]]
    &&& forall|i: int, j: int|
        0 <= i < j < out.len() ==> #[trigger] from[i] != #[trigger] from[j] && rank_le(
            rank_of(out[i]),
            rank_of(out[j]),
        ) && (rank_le(rank_of(out[j]), rank_of(out[i])) ==> from[i] < from[j])
}

/// Whether `out` is `items` in the order of a listing: the same items,
/// folders first, then by name without regard to case, and items of equal
/// rank in the order in which they came.
pub open spec fn is_listing_of<T: Listed>(out: Seq<T>, items: Seq<T>) -> bool {
    exists|from: Seq<int>| #[trigger] stable_order(out, items, from)
}

/// `items` in the order of a listing: the same items, folders first, then
/// by name without regard to case; items of equal rank keep their order.
pub fn sort_listed<T: Listed>(items: Vec<T>) -> (out: Vec<T>)
    ensures
        out@.to_multiset() == items@.to_multiset(),
        in_order(out@),
        is_listing_of(out@, items@),
{
    let ghost given = items@;
    let ghost mut from: Seq<int> = Seq::empty();
    let mut rest = items;
    let mut out: Vec<T> = Vec::new();
    let mut leads: Vec<bool> = Vec::new();
    let mut keys: Vec<Vec<char>> = Vec::new();
    let ghost all = rest@.to_multiset();
    proof {
        assert(out@.to_multiset() =~= vstd::multiset::Multiset::<T>::empty()) by {
            out@.to_multiset_ensures();
        }
        assert(rest@ =~= given.take(rest@.len() as int));
    }
    loop
        invariant
            out@.to_multiset().add(rest@.to_multiset()) == all,
            in_order(out@),
            leads@.len() == out@.len(),
            keys@.len() == out@.len(),
            forall|i: int|
                0 <= i < out@.len() ==> leads@[i] == (#[trigger] out@[i]).leads() && keys@[i]@
                    == lowercase_of(out@[i].label()),
            rest@.len() <= given.len(),
            rest@ == given.take(rest@.len() as int),
            from.len() == out@.len(),
            out@.len() + rest@.len() == given.len(),
            forall|i: int|
                0 <= i < out@.len() ==> rest@.len() <= #[trigger] from[i] < given.len() && out@[i]
                    == given[from[i]],
            forall|i: int, j: int|
                0 <= i < j < out@.len() ==> #[trigger] from[i] != #[trigger] from[j] && (rank_le(
                    rank_of(out@[j]),
                    rank_of(out@[i]),
                ) ==> from[i] < from[j]),
        ensures
            out@.to_multiset() == all,
            in_order(out@),
            stable_order(out@, given, from),
        decreases rest@.len(),
    {
        let ghost before_rest = rest@;
        let item = match rest.pop() {
            Some(item) => item,
            None => {
                proof {
                    assert(rest@.to_multiset() =~= vstd::multiset::Multiset::<T>::empty()) by {
                        rest@.to_multiset_ensures();
                    }
                    assert(out@.to_multiset().add(rest@.to_multiset()) =~= out@.to_multiset());
                }
                break ;
            },
        };
        proof {
            assert(before_rest =~= rest@.push(item));
            to_multiset_build(rest@, item);
        }
        let lead = item.is_leading();
        let key = item.sort_key();
        let mut pos: usize = 0;
        while pos < out.len() && !precedes(lead, key.as_slice(), leads[pos], keys[pos].as_slice())
            invariant
                pos <= out@.len(),
                leads@.len() == out@.len(),
                keys@.len() == out@.len(),
                lead == item.leads(),
                key@ == lowercase_of(item.label()),
                forall|i: int|
                    0 <= i < out@.len() ==> leads@[i] == (#[trigger] out@[i]).leads() && keys@[i]@
                        == lowercase_of(out@[i].label()),
                forall|i: int|
                    0 <= i < pos ==> !rank_le(rank_of(item), rank_of(#[trigger] out@[i])),
            decreases out@.len() - pos,
        {
            pos = pos + 1;
        }
        let ghost before = out@;
        let ghost from_before = from;
        let ghost at = rest@.len() as int;
        out.insert(pos, item);
        leads.insert(pos, lead);
        keys.insert(pos, key);
        proof {
            from = from_before.insert(pos as int, at);
            assert(item == given[at]) by {
                assert(before_rest == given.take(before_rest.len() as int));
                assert(before_rest.last() == item);
            }
            assert(rest@ =~= given.take(at));
            assert forall|i: int| 0 <= i < out@.len() implies rest@.len() <= #[trigger] from[i]
                < given.len() && out@[i] == given[from[i]] by {
                if i < pos {
                    assert(from[i] == from_before[i]);
                    assert(out@[i] == before[i]);
                } else if i > pos {
                    assert(from[i] == from_before[i - 1]);
                    assert(out@[i] == before[i - 1]);
                }
            }
            assert forall|i: int, j: int| 0 <= i < j < out@.len() implies #[trigger] from[i]
                != #[trigger] from[j] && (rank_le(rank_of(out@[j]), rank_of(out@[i])) ==> from[i]
                < from[j]) by {
                let a = if i < pos {
                    i
                } else {
                    i - 1
                };
                let b = if j < pos {
                    j
                } else {
                    j - 1
                };
                if i == pos {
                    assert(from[j] == from_before[b]);
                    assert(out@[j] == before[b]);
                } else if j == pos {
                    assert(from[i] == from_before[a]);
                    assert(out@[i] == before[a]);
                } else {
                    assert(from[i] == from_before[a]);
                    assert(from[j] == from_before[b]);
                    assert(out@[i] == before[a]);
                    assert(out@[j] == before[b]);
                }
            }
            to_multiset_insert(before, pos as int, item);
            assert(out@.to_multiset().add(rest@.to_multiset()) =~= all);
            assert forall|i: int, j: int| 0 <= i < j < out@.len() implies rank_le(
                rank_of(#[trigger] out@[i]),
                rank_of(#[trigger] out@[j]),
            ) by {
                let a = if i < pos {
                    i
                } else {
                    i - 1
                };
                let b = if j < pos {
                    j
                } else {
                    j - 1
                };
                if i == pos {
                    assert(out@[j] == before[b]);
                    if b > pos {
                        lemma_rank_transitive(
                            rank_of(item),
                            rank_of(before[pos as int]),
                            rank_of(before[b]),
                        );
                    }
                } else if j == pos {
                    assert(out@[i] == before[a]);
                    lemma_rank_total(rank_of(item), rank_of(before[a]));
                } else {
                    assert(out@[i] == before[a]);
                    assert(out@[j] == before[b]);
                }
            }
        }
    }
    out
}

/// Whether an item that leads as `a_leads` says, with the key `a`, may
/// stand before one that leads as `b_leads` says, with the key `b`.
fn precedes(a_leads: bool, a: &[char], b_leads: bool, b: &[char]) -> (r: bool)
    ensures
        r == rank_le(Rank { leads: a_leads, key: a@ }, Rank { leads: b_leads, key: b@ }),
{
    if a_leads != b_leads {
        a_leads
    } else {
        lex_before(a, b)
    }
}

/// Of two ranks one may stand before the other.
pub proof fn lemma_rank_total(a: Rank, b: Rank)
    ensures
        rank_le(a, b) || rank_le(b, a),
{
    lemma_lex_total(a.key, b.key, 0);
}

/// What may stand before something that may stand before a third may stand
/// before the third.
pub proof fn lemma_rank_transitive(a: Rank, b: Rank, c: Rank)
    requires
        rank_le(a, b),
        rank_le(b, c),
    ensures
        rank_le(a, c),
{
    if a.leads == b.leads && b.leads == c.leads {
        lemma_lex_transitive(a.key, b.key, c.key, 0);
    }
}

} // verus!
