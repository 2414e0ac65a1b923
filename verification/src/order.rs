//! The order in which the entries of one directory are visited.

use vstd::prelude::*;
use vstd::string::*;
use vstd::seq_lib::*;
use vstd::relations::*;
use crate::protocol::{views_of, ChildView, DirChild};
use crate::text::{lemma_name_order_total, name_le, precedes};

verus! {

/// Puts `c` into `sorted` before the first entry whose name does not come
/// before its own.
pub open spec fn place(c: ChildView, sorted: Seq<ChildView>) -> Seq<ChildView>
    decreases sorted.len(),
{
    if sorted.len() == 0 || name_le(c.name, sorted[0].name) {
        seq![c] + sorted
    } else {
        seq![sorted[0]] + place(c, sorted.drop_first())
    }
}

/// The entries of a listing in the order of their names. Entries of the same
/// name, which no real directory has, keep the order of the listing.
pub open spec fn sorted_by_name(listing: Seq<ChildView>) -> Seq<ChildView>
    decreases listing.len(),
{
    if listing.len() == 0 {
        Seq::empty()
    } else {
        place(listing[0], sorted_by_name(listing.drop_first()))
    }
}

/// Whether names never go down along a sequence of entries.
pub open spec fn ordered(s: Seq<ChildView>) -> bool {
    forall|i: int, j: int| 0 <= i < j < s.len() ==> name_le(#[trigger] s[i].name, #[trigger] s[j].name)
}

/// Whether no two entries of a sequence have the same name.
pub open spec fn distinct_names(s: Seq<ChildView>) -> bool {
    forall|i: int, j: int| 0 <= i < j < s.len() ==> #[trigger] s[i].name != #[trigger] s[j].name
}

/// Whether every entry of `a` is an entry of `b`.
pub open spec fn drawn_from(a: Seq<ChildView>, b: Seq<ChildView>) -> bool {
    forall|i: int| 0 <= i < a.len() ==> b.contains(#[trigger] a[i])
}

proof fn lemma_cons_multiset(x: ChildView, r: Seq<ChildView>)
    ensures
        (seq![x] + r).to_multiset() == r.to_multiset().insert(x),
{
    broadcast use vstd::multiset::group_multiset_axioms;
    broadcast use group_to_multiset_ensures;

    lemma_multiset_commutative(seq![x], r);
}

proof fn lemma_place(c: ChildView, t: Seq<ChildView>)
    requires
        ordered(t),
    ensures
        ordered(place(c, t)),
        place(c, t).len() == t.len() + 1,
        place(c, t).to_multiset() == t.to_multiset().insert(c),
        drawn_from(place(c, t), seq![c] + t),
        drawn_from(t, place(c, t)),
        place(c, t).contains(c),
    decreases t.len(),
{
    broadcast use vstd::multiset::group_multiset_axioms;

    let out = place(c, t);
    if t.len() == 0 || name_le(c.name, t[0].name) {
        lemma_cons_multiset(c, t);
        assert forall|i: int, j: int| 0 <= i < j < out.len() implies name_le(
            #[trigger] out[i].name,
            #[trigger] out[j].name,
        ) by {
            if i == 0 {
                lemma_name_order_total(c.name, t[0].name, t[j - 1].name);
            }
        }
        assert forall|i: int| 0 <= i < t.len() implies out.contains(#[trigger] t[i]) by {
            assert(out[i + 1] == t[i]);
        }
        assert(out[0] == c);
    } else {
        let rest = t.drop_first();
        lemma_place(c, rest);
        let inner = place(c, rest);
        lemma_cons_multiset(t[0], inner);
        lemma_cons_multiset(t[0], rest);
        assert(t =~= seq![t[0]] + rest);
        lemma_name_order_total(c.name, t[0].name, c.name);
        assert forall|k: int| 0 <= k < inner.len() implies name_le(
            t[0].name,
            #[trigger] inner[k].name,
        ) by {
            let m = choose|m: int| 0 <= m < (seq![c] + rest).len() && (seq![c] + rest)[m] == inner[k];
        }
        assert forall|i: int| 0 <= i < t.len() implies out.contains(#[trigger] t[i]) by {
            if i == 0 {
                assert(out[0] == t[0]);
            } else {
                let m = choose|m: int| 0 <= m < inner.len() && inner[m] == rest[i - 1];
                assert(out[m + 1] == t[i]);
            }
        }
        assert forall|i: int| 0 <= i < out.len() implies (seq![c] + t).contains(
            #[trigger] out[i],
        ) by {
            if i == 0 {
                assert((seq![c] + t)[1] == out[0]);
            } else {
                let m = choose|m: int|
                    0 <= m < (seq![c] + rest).len() && (seq![c] + rest)[m] == inner[i - 1];
                if m == 0 {
                    assert((seq![c] + t)[0] == out[i]);
                } else {
                    assert((seq![c] + t)[m + 1] == out[i]);
                }
            }
        }
        let at = choose|m: int| 0 <= m < inner.len() && inner[m] == c;
        assert(out[at + 1] == c);
    }
}

/// Sorting yields the entries of the listing, each as often as the listing
/// has it, with names that never go down.
pub proof fn lemma_sorted_by_name(listing: Seq<ChildView>)
    ensures
        ordered(sorted_by_name(listing)),
        sorted_by_name(listing).len() == listing.len(),
        sorted_by_name(listing).to_multiset() == listing.to_multiset(),
        drawn_from(sorted_by_name(listing), listing),
        drawn_from(listing, sorted_by_name(listing)),
    decreases listing.len(),
{
    broadcast use vstd::multiset::group_multiset_axioms;

    let out = sorted_by_name(listing);
    if listing.len() == 0 {
        assert(out =~= listing);
    } else {
        let rest = listing.drop_first();
        let inner = sorted_by_name(rest);
        lemma_sorted_by_name(rest);
        lemma_place(listing[0], inner);
        lemma_cons_multiset(listing[0], rest);
        assert(listing =~= seq![listing[0]] + rest);
        assert forall|i: int| 0 <= i < out.len() implies listing.contains(#[trigger] out[i]) by {
            assert((seq![listing[0]] + inner).contains(out[i]));
        }
    }
}

/// The entries of a sequence that are called `name`, in order.
pub open spec fn named(s: Seq<ChildView>, name: Seq<char>) -> Seq<ChildView>
    decreases s.len(),
{
    if s.len() == 0 {
        Seq::empty()
    } else if s[0].name == name {
        seq![s[0]] + named(s.drop_first(), name)
    } else {
        named(s.drop_first(), name)
    }
}

proof fn lemma_place_keeps_turns(c: ChildView, t: Seq<ChildView>, name: Seq<char>)
    ensures
        named(place(c, t), name) == named(seq![c] + t, name),
    decreases t.len(),
{
    reveal_with_fuel(named, 3);
    if !(t.len() == 0 || name_le(c.name, t[0].name)) {
        let rest = t.drop_first();
        lemma_place_keeps_turns(c, rest, name);
        lemma_name_order_total(c.name, c.name, c.name);
        assert((seq![t[0]] + place(c, rest)).drop_first() =~= place(c, rest));
        assert((seq![c] + rest).drop_first() =~= rest);
        assert((seq![c] + t).drop_first() =~= t);
        assert(named(seq![c] + rest, name) == if c.name == name {
            seq![c] + named(rest, name)
        } else {
            named(rest, name)
        });
        assert(named(seq![c] + t, name) == if c.name == name {
            seq![c] + named(t, name)
        } else {
            named(t, name)
        });
    }
}

/// Sorting is stable: entries of the same name, which no real directory
/// has, keep the order in which the listing has them.
pub proof fn lemma_sort_is_stable(listing: Seq<ChildView>, name: Seq<char>)
    ensures
        named(sorted_by_name(listing), name) == named(listing, name),
    decreases listing.len(),
{
    if listing.len() > 0 {
        let rest = listing.drop_first();
        lemma_sort_is_stable(rest, name);
        lemma_place_keeps_turns(listing[0], sorted_by_name(rest), name);
        assert((seq![listing[0]] + sorted_by_name(rest)).drop_first() =~= sorted_by_name(rest));
    }
}

/// The order of entries by name and then by path, which tells any two
/// different entries apart.
pub open spec fn entry_le(a: ChildView, b: ChildView) -> bool {
    if a.name == b.name {
        name_le(a.path, b.path)
    } else {
        name_le(a.name, b.name)
    }
}

proof fn lemma_entry_order_total()
    ensures
        total_ordering(|a: ChildView, b: ChildView| entry_le(a, b)),
{
    let leq = |a: ChildView, b: ChildView| entry_le(a, b);
    assert forall|x: ChildView| #[trigger] leq(x, x) by {
        lemma_name_order_total(x.path, x.path, x.path);
    }
    assert forall|x: ChildView, y: ChildView| #[trigger] leq(x, y) && #[trigger] leq(y, x) implies x
        == y by {
        lemma_name_order_total(x.name, y.name, x.name);
        lemma_name_order_total(x.path, y.path, x.path);
    }
    assert forall|x: ChildView, y: ChildView, z: ChildView| #[trigger] leq(x, y) && #[trigger] leq(
        y,
        z,
    ) implies leq(x, z) by {
        lemma_name_order_total(x.name, y.name, z.name);
        lemma_name_order_total(x.path, y.path, z.path);
        lemma_name_order_total(z.name, x.name, y.name);
        lemma_name_order_total(y.name, z.name, x.name);
    }
    assert forall|x: ChildView, y: ChildView| #[trigger] leq(x, y) || #[trigger] leq(y, x) by {
        lemma_name_order_total(x.name, y.name, x.name);
        lemma_name_order_total(x.path, y.path, x.path);
    }
}

proof fn lemma_distinct_after_sort(listing: Seq<ChildView>)
    requires
        distinct_names(listing),
    ensures
        sorted_by(sorted_by_name(listing), |a: ChildView, b: ChildView| entry_le(a, b)),
{
    broadcast use vstd::multiset::group_multiset_axioms;
    broadcast use group_to_multiset_ensures;

    let out = sorted_by_name(listing);
    let leq = |a: ChildView, b: ChildView| entry_le(a, b);
    lemma_sorted_by_name(listing);
    assert forall|i: int, j: int| 0 <= i < j < out.len() implies #[trigger] leq(out[i], out[j]) by {
        if out[i].name == out[j].name {
            lemma_name_order_total(out[i].path, out[i].path, out[i].path);
        }
    }
}

/// The order in which a directory is visited does not depend on the order in
/// which its listing came: two listings of the same entries, no two of them
/// with the same name, are sorted into the same sequence.
pub proof fn lemma_listing_order_is_irrelevant(a: Seq<ChildView>, b: Seq<ChildView>)
    requires
        a.to_multiset() == b.to_multiset(),
        distinct_names(a),
        distinct_names(b),
    ensures
        sorted_by_name(a) == sorted_by_name(b),
{
    lemma_sorted_by_name(a);
    lemma_sorted_by_name(b);
    lemma_distinct_after_sort(a);
    lemma_distinct_after_sort(b);
    lemma_entry_order_total();
    lemma_sorted_unique(
        sorted_by_name(a),
        sorted_by_name(b),
        |x: ChildView, y: ChildView| entry_le(x, y),
    );
}

/// Two sorted sequences merged into one: the greater of the two last
/// entries comes last, and of two entries of the same name the one from
/// `b`.
pub open spec fn merged(a: Seq<ChildView>, b: Seq<ChildView>) -> Seq<ChildView>
    decreases a.len() + b.len(),
{
    if a.len() == 0 {
        b
    } else if b.len() == 0 {
        a
    } else if name_le(a.last().name, b.last().name) {
        merged(a, b.drop_last()).push(b.last())
    } else {
        merged(a.drop_last(), b).push(a.last())
    }
}

proof fn lemma_named_add(a: Seq<ChildView>, b: Seq<ChildView>, name: Seq<char>)
    ensures
        named(a + b, name) == named(a, name) + named(b, name),
    decreases a.len(),
{
    if a.len() > 0 {
        assert((a + b).drop_first() =~= a.drop_first() + b);
        lemma_named_add(a.drop_first(), b, name);
    }
}

proof fn lemma_named_push(s: Seq<ChildView>, c: ChildView, name: Seq<char>)
    ensures
        named(s.push(c), name) == if c.name == name {
            named(s, name).push(c)
        } else {
            named(s, name)
        },
{
    reveal_with_fuel(named, 2);
    lemma_named_add(s, seq![c], name);
    assert(s.push(c) =~= s + seq![c]);
}

proof fn lemma_named_first(s: Seq<ChildView>, name: Seq<char>)
    requires
        named(s, name).len() > 0,
    ensures
        s.contains(named(s, name)[0]),
        named(s, name)[0].name == name,
    decreases s.len(),
{
    if s[0].name != name {
        lemma_named_first(s.drop_first(), name);
        assert(s.drop_first().contains(named(s, name)[0]));
    }
}

proof fn lemma_named_below(s: Seq<ChildView>, name: Seq<char>)
    requires
        forall|k: int| 0 <= k < s.len() ==> (#[trigger] s[k]).name != name,
    ensures
        named(s, name) == Seq::<ChildView>::empty(),
    decreases s.len(),
{
    if s.len() > 0 {
        lemma_named_below(s.drop_first(), name);
    }
}

proof fn lemma_ordered_parts(s: Seq<ChildView>)
    requires
        ordered(s),
        s.len() > 0,
    ensures
        ordered(s.drop_last()),
        ordered(s.drop_first()),
{
}

/// Merging keeps what sorting established: the names never go down, every
/// entry is one of `a` or of `b`, and entries of the same name keep their
/// order, those of `a` before those of `b`.
proof fn lemma_merged(a: Seq<ChildView>, b: Seq<ChildView>)
    requires
        ordered(a),
        ordered(b),
    ensures
        ordered(merged(a, b)),
        merged(a, b).len() == a.len() + b.len(),
        drawn_from(merged(a, b), a + b),
        forall|name: Seq<char>| #[trigger]
            named(merged(a, b), name) == named(a, name) + named(b, name),
    decreases a.len() + b.len(),
{
    let out = merged(a, b);
    if a.len() > 0 && b.len() > 0 {
        let from_b = name_le(a.last().name, b.last().name);
        let shorter_a = if from_b {
            a
        } else {
            a.drop_last()
        };
        let shorter_b = if from_b {
            b.drop_last()
        } else {
            b
        };
        let greatest = if from_b {
            b.last()
        } else {
            a.last()
        };
        lemma_ordered_parts(a);
        lemma_ordered_parts(b);
        lemma_merged(shorter_a, shorter_b);
        let inner = merged(shorter_a, shorter_b);
        lemma_name_order_total(a.last().name, b.last().name, a.last().name);
        assert forall|k: int| 0 <= k < inner.len() implies name_le(
            (#[trigger] inner[k]).name,
            greatest.name,
        ) by {
            let m = choose|m: int|
                0 <= m < (shorter_a + shorter_b).len() && (shorter_a + shorter_b)[m] == inner[k];
            if m < shorter_a.len() {
                if m >= a.len() - 1 {
                    lemma_name_order_total(a[m].name, a[m].name, a[m].name);
                }
                lemma_name_order_total(inner[k].name, a.last().name, b.last().name);
            } else {
                let q = m - shorter_a.len();
                if q >= b.len() - 1 {
                    lemma_name_order_total(b[q].name, b[q].name, b[q].name);
                }
                lemma_name_order_total(inner[k].name, b.last().name, a.last().name);
            }
        }
        assert forall|i: int, j: int| 0 <= i < j < out.len() implies name_le(
            #[trigger] out[i].name,
            #[trigger] out[j].name,
        ) by {
            if j >= inner.len() {
                assert(out[i] == inner[i]);
            }
        }
        assert forall|i: int| 0 <= i < out.len() implies (a + b).contains(#[trigger] out[i]) by {
            if i < inner.len() {
                assert((shorter_a + shorter_b).contains(inner[i]));
                let m = choose|m: int|
                    0 <= m < (shorter_a + shorter_b).len() && (shorter_a + shorter_b)[m]
                        == inner[i];
                if m < shorter_a.len() {
                    assert((a + b)[m] == out[i]);
                } else {
                    assert((a + b)[a.len() + (m - shorter_a.len())] == out[i]);
                }
            } else if from_b {
                assert((a + b)[a.len() + b.len() - 1] == out[i]);
            } else {
                assert((a + b)[a.len() - 1] == out[i]);
            }
        }
        assert forall|name: Seq<char>| #[trigger]
            named(out, name) == named(a, name) + named(b, name) by {
            lemma_named_push(inner, greatest, name);
            assert(named(inner, name) == named(shorter_a, name) + named(shorter_b, name));
            if from_b {
                lemma_named_push(shorter_b, greatest, name);
                assert(shorter_b.push(greatest) =~= b);
                if greatest.name == name {
                    assert((named(a, name) + named(shorter_b, name)).push(greatest) =~= named(
                        a,
                        name,
                    ) + named(shorter_b, name).push(greatest));
                }
            } else {
                lemma_named_push(shorter_a, greatest, name);
                assert(shorter_a.push(greatest) =~= a);
                if greatest.name == name {
                    assert forall|k: int| 0 <= k < b.len() implies (#[trigger] b[k]).name
                        != name by {
                        if k < b.len() - 1 {
                            assert(name_le(b[k].name, b[b.len() - 1].name));
                        } else {
                            lemma_name_order_total(b[k].name, b[k].name, b[k].name);
                        }
                        lemma_name_order_total(b[k].name, b.last().name, a.last().name);
                        lemma_name_order_total(a.last().name, b[k].name, b.last().name);
                    }
                    lemma_named_below(b, name);
                    assert((named(shorter_a, name) + named(b, name)).push(greatest) =~= named(
                        shorter_a,
                        name,
                    ).push(greatest) + named(b, name));
                }
            }
        }
    }
}

/// A sequence with names that never go down is determined by the order of
/// its entries of each name.
proof fn lemma_turns_determine(x: Seq<ChildView>, y: Seq<ChildView>)
    requires
        ordered(x),
        ordered(y),
        forall|name: Seq<char>| #[trigger] named(x, name) == named(y, name),
    ensures
        x == y,
    decreases x.len() + y.len(),
{
    reveal_with_fuel(named, 2);
    if x.len() == 0 || y.len() == 0 {
        if x.len() > 0 {
            assert(named(x, x[0].name) == named(y, x[0].name));
        }
        if y.len() > 0 {
            assert(named(x, y[0].name) == named(y, y[0].name));
        }
    } else {
        let m = x[0].name;
        let w = y[0].name;
        assert(named(x, m) == named(y, m));
        assert(named(x, w) == named(y, w));
        lemma_named_first(y, m);
        lemma_named_first(x, w);
        lemma_name_order_total(m, w, m);
        lemma_ordered_parts(x);
        lemma_ordered_parts(y);
        assert forall|name: Seq<char>| #[trigger]
            named(x.drop_first(), name) == named(y.drop_first(), name) by {
            if name == m {
                assert(named(x.drop_first(), name) =~= named(x, name).drop_first());
            }
        }
        lemma_turns_determine(x.drop_first(), y.drop_first());
        assert(x =~= seq![x[0]] + x.drop_first());
    }
}

/// Sorting two halves and merging them is sorting the whole.
proof fn lemma_merge_sorts(left: Seq<ChildView>, right: Seq<ChildView>)
    ensures
        merged(sorted_by_name(left), sorted_by_name(right)) == sorted_by_name(left + right),
{
    lemma_sorted_by_name(left);
    lemma_sorted_by_name(right);
    lemma_sorted_by_name(left + right);
    lemma_merged(sorted_by_name(left), sorted_by_name(right));
    let x = merged(sorted_by_name(left), sorted_by_name(right));
    let y = sorted_by_name(left + right);
    assert forall|name: Seq<char>| #[trigger] named(x, name) == named(y, name) by {
        lemma_sort_is_stable(left, name);
        lemma_sort_is_stable(right, name);
        lemma_sort_is_stable(left + right, name);
        lemma_named_add(left, right, name);
        assert(named(x, name) == named(sorted_by_name(left), name) + named(
            sorted_by_name(right),
            name,
        ));
    }
    lemma_turns_determine(x, y);
}

/// Merges two sorted sequences of entries.
fn merge_children(a: Vec<DirChild>, b: Vec<DirChild>) -> (out: Vec<DirChild>)
    ensures
        views_of(out@) == merged(views_of(a@), views_of(b@)),
{
    let ghost whole = merged(views_of(a@), views_of(b@));
    let mut a = a;
    let mut b = b;
    // The entries taken so far, the greatest first.
    let mut taken: Vec<DirChild> = Vec::new();
    let ghost tail = Seq::<ChildView>::empty();
    while a.len() > 0 && b.len() > 0
        invariant
            whole == merged(views_of(a@), views_of(b@)) + tail,
            taken@.len() == tail.len(),
            forall|i: int| 0 <= i < tail.len() ==> (#[trigger] taken@[i])@ == tail[tail.len() - 1 - i],
        decreases a@.len() + b@.len(),
    {
        let ghost va = views_of(a@);
        let ghost vb = views_of(b@);
        let from_b = precedes(a[a.len() - 1].name.as_str(), b[b.len() - 1].name.as_str());
        let next = if from_b {
            b.pop().unwrap()
        } else {
            a.pop().unwrap()
        };
        proof {
            assert(views_of(a@) =~= if from_b {
                va
            } else {
                va.drop_last()
            });
            assert(views_of(b@) =~= if from_b {
                vb.drop_last()
            } else {
                vb
            });
            assert(merged(views_of(a@), views_of(b@)).push(next@) + tail =~= merged(
                views_of(a@),
                views_of(b@),
            ) + (seq![next@] + tail));
            tail = seq![next@] + tail;
        }
        taken.push(next);
    }
    let mut out = if a.len() == 0 {
        b
    } else {
        a
    };
    while taken.len() > 0
        invariant
            whole == views_of(out@) + tail,
            taken@.len() == tail.len(),
            forall|i: int| 0 <= i < tail.len() ==> (#[trigger] taken@[i])@ == tail[tail.len() - 1 - i],
        decreases taken@.len(),
    {
        let next = taken.pop().unwrap();
        out.push(next);
        proof {
            tail = tail.drop_first();
        }
    }
    out
}

/// Sorts the entries of a listing by name.
pub fn sort_children(children: Vec<DirChild>) -> (sorted: Vec<DirChild>)
    ensures
        views_of(sorted@) == sorted_by_name(views_of(children@)),
    decreases children@.len(),
{
    let ghost all = views_of(children@);
    if children.len() <= 1 {
        proof {
            reveal_with_fuel(sorted_by_name, 2);
            reveal_with_fuel(place, 2);
        }
        return children;
    }
    let mut left = children;
    let right = left.split_off(left.len() / 2);
    proof {
        assert(views_of(left@) + views_of(right@) =~= all);
        lemma_merge_sorts(views_of(left@), views_of(right@));
    }
    let left = sort_children(left);
    let right = sort_children(right);
    merge_children(left, right)
}

} // verus!
