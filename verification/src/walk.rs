//! What a walk yields, stated over a filesystem at rest, and the proof that
//! the flattener yields it.

use vstd::prelude::*;
use crate::classify::{ClassifierView, Stage};
use crate::dirtree::{
    advance, entered, flattener_step, flattening, follows, listed, stacked, FlattenerView,
    PhaseView, TreeView,
};
use crate::error::ErrorKind;
use crate::item::FSItemView;
use crate::media::FileType;
use crate::model::{
    entry_at, lemma_classifier_faithful, lemma_run_add, lemma_run_ended, probes, run, World,
};
use crate::order::{lemma_sorted_by_name, ordered, sorted_by_name};
use crate::protocol::{ChildView, ProgressView, ReplyView, RequestView};
use crate::text::{base_name, name_le};

verus! {

/// How a walk ends.
pub enum Walk {
    /// With the entries that were found, in the order of the walk.
    Complete { items: Seq<(nat, FSItemView)> },
    /// At a directory that could not be listed.
    Unreadable,
    /// Not within the depth that was allowed for.
    Endless,
}

/// The entries below the directory at `dir`, which are at `depth`; `fuel` is
/// the number of levels that may be entered below this one.
pub open spec fn below(world: World, dir: Seq<char>, depth: nat, fuel: nat) -> Walk
    decreases fuel, 1nat, 0nat,
{
    match (world.answer)(RequestView::ListDir { path: dir }) {
        ReplyView::Listing(Ok(children)) => along(world, sorted_by_name(children), depth, fuel),
        _ => Walk::Unreadable,
    }
}

/// The entries found by visiting `children` in turn: each child, then
/// everything below it if it is a directory, then the next child.
pub open spec fn along(world: World, children: Seq<ChildView>, depth: nat, fuel: nat) -> Walk
    decreases fuel, 0nat, children.len(),
{
    if children.len() == 0 {
        Walk::Complete { items: Seq::empty() }
    } else {
        let child = children[0];
        let entry = entry_at(world, child.name, child.path);
        let under = if entry.item_type is Directory {
            if fuel == 0 {
                Walk::Endless
            } else {
                below(world, child.path, depth + 1, (fuel - 1) as nat)
            }
        } else {
            Walk::Complete { items: Seq::empty() }
        };
        match under {
            Walk::Complete { items: inside } => match along(
                world,
                children.drop_first(),
                depth,
                fuel,
            ) {
                Walk::Complete { items: after } => Walk::Complete {
                    items: seq![(depth, entry)] + inside + after,
                },
                other => other,
            },
            other => other,
        }
    }
}

/// The walk of the subtree below `root`.
pub open spec fn walk(world: World, root: Seq<char>, fuel: nat) -> Walk {
    if entry_at(world, base_name(root), root).item_type is Directory {
        below(world, root, 0, fuel)
    } else {
        Walk::Unreadable
    }
}

/// The transition function of the flattener.
pub open spec fn flattener_steps() -> spec_fn(FlattenerView, ReplyView) -> ProgressView<
    FlattenerView,
    TreeView,
> {
    |f: FlattenerView, reply: ReplyView| flattener_step(f, reply)
}

/// A flattener that classifies `child`, which is at `depth`.
pub open spec fn visiting(
    root: Seq<char>,
    items: Seq<(nat, FSItemView)>,
    stack: Seq<(nat, ChildView)>,
    depth: nat,
    child: ChildView,
) -> FlattenerView {
    FlattenerView {
        root,
        items,
        stack,
        phase: PhaseView::Child {
            depth,
            probe: ClassifierView { name: child.name, path: child.path, stage: Stage::Stat },
        },
    }
}

/// A flattener that has asked for the classification of `child`.
pub open spec fn visit(
    root: Seq<char>,
    items: Seq<(nat, FSItemView)>,
    stack: Seq<(nat, ChildView)>,
    depth: nat,
    child: ChildView,
) -> ProgressView<FlattenerView, TreeView> {
    ProgressView::Pending {
        machine: visiting(root, items, stack, depth, child),
        request: RequestView::Stat { path: child.path },
    }
}

/// A flattener that has asked for the listing of the directory at `dir`.
pub open spec fn listing_of(f: FlattenerView, dir: Seq<char>) -> ProgressView<
    FlattenerView,
    TreeView,
> {
    ProgressView::Pending { machine: f, request: RequestView::ListDir { path: dir } }
}

/// How a flattener goes on after a part of the walk.
pub open spec fn continued(
    part: Walk,
    root: Seq<char>,
    items: Seq<(nat, FSItemView)>,
    stack: Seq<(nat, ChildView)>,
) -> ProgressView<FlattenerView, TreeView> {
    match part {
        Walk::Complete { items: found } => advance(root, items + found, stack),
        _ => ProgressView::Failed { error: ErrorKind::RootUnreadable },
    }
}

/// How a flattener ends after the whole walk.
pub open spec fn finished(whole: Walk, root: Seq<char>) -> ProgressView<FlattenerView, TreeView> {
    match whole {
        Walk::Complete { items } => ProgressView::Done { outcome: TreeView { root, items } },
        _ => ProgressView::Failed { error: ErrorKind::RootUnreadable },
    }
}

proof fn lemma_visit(
    world: World,
    root: Seq<char>,
    items: Seq<(nat, FSItemView)>,
    stack: Seq<(nat, ChildView)>,
    depth: nat,
    child: ChildView,
)
    ensures
        run(
            world,
            flattener_steps(),
            visit(root, items, stack, depth, child),
            probes(world, child.path),
        ) == entered(
            visiting(root, items, stack, depth, child),
            depth,
            entry_at(world, child.name, child.path),
        ),
{
    reveal_with_fuel(run, 3);
}

proof fn lemma_root(world: World, root: Seq<char>)
    ensures
        run(world, flattener_steps(), flattening(root), probes(world, root)) == if entry_at(
            world,
            base_name(root),
            root,
        ).item_type is Directory {
            listing_of(
                FlattenerView {
                    root,
                    items: Seq::empty(),
                    stack: Seq::empty(),
                    phase: PhaseView::Listing { depth: 0 },
                },
                root,
            )
        } else {
            finished(Walk::Unreadable, root)
        },
{
    reveal_with_fuel(run, 3);
}

proof fn lemma_listing(world: World, f: FlattenerView, depth: nat, dir: Seq<char>)
    requires
        f.phase == (PhaseView::Listing { depth }),
    ensures
        run(world, flattener_steps(), listing_of(f, dir), 1) == listed(
            f,
            depth,
            (world.answer)(RequestView::ListDir { path: dir }),
        ),
{
    reveal_with_fuel(run, 2);
}

proof fn lemma_stacked(stack: Seq<(nat, ChildView)>, children: Seq<ChildView>, depth: nat)
    ensures
        children.len() == 0 ==> stack + stacked(children, depth) == stack,
        children.len() > 0 ==> (stack + stacked(children, depth)).last() == (depth, children[0])
            && (stack + stacked(children, depth)).drop_last() == stack + stacked(
            children.drop_first(),
            depth,
        ),
{
    if children.len() > 0 {
        assert((stack + stacked(children, depth)).drop_last() =~= stack + stacked(
            children.drop_first(),
            depth,
        ));
    }
}

/// A flattener that has `children` on top of its stack and is driven by
/// `world` finds what the walk along them finds, and then goes on with the
/// rest of its stack. The number of requests that this takes is returned.
pub proof fn lemma_along_faithful(
    world: World,
    root: Seq<char>,
    items: Seq<(nat, FSItemView)>,
    stack: Seq<(nat, ChildView)>,
    children: Seq<ChildView>,
    depth: nat,
    fuel: nat,
) -> (n: nat)
    requires
        !(along(world, children, depth, fuel) is Endless),
    ensures
        run(world, flattener_steps(), advance(root, items, stack + stacked(children, depth)), n)
            == continued(along(world, children, depth, fuel), root, items, stack),
    decreases fuel, children.len(),
{
    reveal_with_fuel(along, 2);
    let steps = flattener_steps();
    lemma_stacked(stack, children, depth);
    if children.len() == 0 {
        return 0;
    }
    let child = children[0];
    let rest = children.drop_first();
    let entry = entry_at(world, child.name, child.path);
    let held = stack + stacked(rest, depth);
    let start = advance(root, items, stack + stacked(children, depth));
    let k = probes(world, child.path);
    lemma_visit(world, root, items, held, depth, child);
    lemma_classifier_faithful(world, child.name, child.path);
    let found = items.push((depth, entry));
    if entry.item_type is Directory {
        let waiting = FlattenerView {
            root,
            items: found,
            stack: held,
            phase: PhaseView::Listing { depth: depth + 1 },
        };
        lemma_listing(world, waiting, depth + 1, child.path);
        lemma_run_add(world, steps, start, k, 1);
        match (world.answer)(RequestView::ListDir { path: child.path }) {
            ReplyView::Listing(Ok(listing)) => {
                let sorted = sorted_by_name(listing);
                let n1 = lemma_along_faithful(
                    world,
                    root,
                    found,
                    held,
                    sorted,
                    depth + 1,
                    (fuel - 1) as nat,
                );
                lemma_run_add(world, steps, start, k + 1, n1);
                match along(world, sorted, depth + 1, (fuel - 1) as nat) {
                    Walk::Complete { items: inside } => {
                        let n2 = lemma_along_faithful(
                            world,
                            root,
                            found + inside,
                            stack,
                            rest,
                            depth,
                            fuel,
                        );
                        lemma_run_add(world, steps, start, k + 1 + n1, n2);
                        match along(world, rest, depth, fuel) {
                            Walk::Complete { items: after } => {
                                assert(found + inside + after =~= items + (seq![(depth, entry)]
                                    + inside + after));
                            },
                            _ => {},
                        }
                        k + 1 + n1 + n2
                    },
                    _ => k + 1 + n1,
                }
            },
            _ => k + 1,
        }
    } else {
        let n2 = lemma_along_faithful(world, root, found, stack, rest, depth, fuel);
        lemma_run_add(world, steps, start, k, n2);
        match along(world, rest, depth, fuel) {
            Walk::Complete { items: after } => {
                assert(found + after =~= items + (seq![(depth, entry)] + Seq::<
                    (nat, FSItemView),
                >::empty() + after));
            },
            _ => {},
        }
        k + n2
    }
}

/// A flattener that is driven by `world` yields the walk of the subtree
/// below its root: the same entries at the same depths in the same order
/// where the walk is complete, and `RootUnreadable` where the root is no
/// directory or a directory cannot be listed. This holds wherever the
/// subtree is no deeper than some `fuel`.
pub proof fn lemma_flattener_faithful(world: World, root: Seq<char>, fuel: nat) -> (n: nat)
    requires
        !(walk(world, root, fuel) is Endless),
    ensures
        run(world, flattener_steps(), flattening(root), n) == finished(
            walk(world, root, fuel),
            root,
        ),
{
    reveal_with_fuel(below, 2);
    let steps = flattener_steps();
    let k = probes(world, root);
    lemma_root(world, root);
    if entry_at(world, base_name(root), root).item_type is Directory {
        let waiting = FlattenerView {
            root,
            items: Seq::empty(),
            stack: Seq::empty(),
            phase: PhaseView::Listing { depth: 0 },
        };
        lemma_listing(world, waiting, 0, root);
        lemma_run_add(world, steps, flattening(root), k, 1);
        match (world.answer)(RequestView::ListDir { path: root }) {
            ReplyView::Listing(Ok(listing)) => {
                let sorted = sorted_by_name(listing);
                let none = Seq::<(nat, FSItemView)>::empty();
                let bare = Seq::<(nat, ChildView)>::empty();
                let n1 = lemma_along_faithful(world, root, none, bare, sorted, 0, fuel);
                lemma_run_add(world, steps, flattening(root), k + 1, n1);
                k + 1 + n1
            },
            _ => k + 1,
        }
    } else {
        k
    }
}

/// What a walk yields does not depend on the depth that was allowed for, as
/// long as the walk ends within it.
pub proof fn lemma_walk_is_determined(world: World, root: Seq<char>, fuel: nat, other: nat)
    requires
        !(walk(world, root, fuel) is Endless),
        !(walk(world, root, other) is Endless),
    ensures
        walk(world, root, fuel) == walk(world, root, other),
{
    let n = lemma_flattener_faithful(world, root, fuel);
    let m = lemma_flattener_faithful(world, root, other);
    lemma_run_ended(world, flattener_steps(), flattening(root), n, m);
    lemma_run_ended(world, flattener_steps(), flattening(root), m, n);
}

/// The entries of a sequence that are at `depth`, in order.
pub open spec fn at_depth(items: Seq<(nat, FSItemView)>, depth: nat) -> Seq<FSItemView>
    decreases items.len(),
{
    if items.len() == 0 {
        Seq::empty()
    } else if items[0].0 == depth {
        seq![items[0].1] + at_depth(items.drop_first(), depth)
    } else {
        at_depth(items.drop_first(), depth)
    }
}

/// The entries that stand for `children` in `world`, in order.
pub open spec fn entries_of(world: World, children: Seq<ChildView>) -> Seq<FSItemView> {
    Seq::new(children.len(), |i: int| entry_at(world, children[i].name, children[i].path))
}

proof fn lemma_at_depth_add(a: Seq<(nat, FSItemView)>, b: Seq<(nat, FSItemView)>, depth: nat)
    ensures
        at_depth(a + b, depth) == at_depth(a, depth) + at_depth(b, depth),
    decreases a.len(),
{
    if a.len() > 0 {
        assert((a + b).drop_first() =~= a.drop_first() + b);
        lemma_at_depth_add(a.drop_first(), b, depth);
    }
}

proof fn lemma_at_depth_above(items: Seq<(nat, FSItemView)>, depth: nat)
    requires
        forall|i: int| 0 <= i < items.len() ==> (#[trigger] items[i]).0 > depth,
    ensures
        at_depth(items, depth) == Seq::<FSItemView>::empty(),
    decreases items.len(),
{
    if items.len() > 0 {
        lemma_at_depth_above(items.drop_first(), depth);
    }
}

/// A complete walk along the entries of a directory holds every one of
/// them, classified or invalid, at the depth of the directory's entries and
/// in the order given; whatever is found between two of them lies deeper.
pub proof fn lemma_along_holds_every_child(
    world: World,
    children: Seq<ChildView>,
    depth: nat,
    fuel: nat,
)
    requires
        along(world, children, depth, fuel) is Complete,
    ensures
        at_depth(along(world, children, depth, fuel)->items, depth) == entries_of(world, children),
        forall|i: int|
            0 <= i < along(world, children, depth, fuel)->items.len() ==> (#[trigger] along(
                world,
                children,
                depth,
                fuel,
            )->items[i]).0 >= depth,
        children.len() > 0 ==> along(world, children, depth, fuel)->items.len() > 0 && along(
            world,
            children,
            depth,
            fuel,
        )->items[0] == (depth, entry_at(world, children[0].name, children[0].path)),
    decreases fuel, children.len(),
{
    reveal_with_fuel(along, 2);
    reveal_with_fuel(at_depth, 2);
    let items = along(world, children, depth, fuel)->items;
    if children.len() > 0 {
        let child = children[0];
        let rest = children.drop_first();
        let entry = entry_at(world, child.name, child.path);
        let inside = if entry.item_type is Directory {
            below(world, child.path, depth + 1, (fuel - 1) as nat)->items
        } else {
            Seq::empty()
        };
        let after = along(world, rest, depth, fuel)->items;
        lemma_along_holds_every_child(world, rest, depth, fuel);
        if entry.item_type is Directory {
            match (world.answer)(RequestView::ListDir { path: child.path }) {
                ReplyView::Listing(Ok(listing)) => {
                    lemma_along_holds_every_child(
                        world,
                        sorted_by_name(listing),
                        depth + 1,
                        (fuel - 1) as nat,
                    );
                },
                _ => {},
            }
        }
        lemma_at_depth_above(inside, depth);
        lemma_at_depth_add(seq![(depth, entry)] + inside, after, depth);
        lemma_at_depth_add(seq![(depth, entry)], inside, depth);
    }
}

/// Only a listing can end a walk early: where every directory can be
/// listed, no entry that cannot be classified makes the walk unreadable.
pub proof fn lemma_only_listings_fail(world: World, children: Seq<ChildView>, depth: nat, fuel: nat)
    requires
        forall|dir: Seq<char>|
            (#[trigger] (world.answer)(RequestView::ListDir { path: dir })) matches ReplyView::Listing(
                r,
            ) && r is Ok,
    ensures
        !(along(world, children, depth, fuel) is Unreadable),
    decreases fuel, children.len(),
{
    reveal_with_fuel(along, 2);
    if children.len() > 0 {
        let child = children[0];
        let entry = entry_at(world, child.name, child.path);
        if entry.item_type is Directory && fuel > 0 {
            match (world.answer)(RequestView::ListDir { path: child.path }) {
                ReplyView::Listing(Ok(listing)) => {
                    lemma_only_listings_fail(
                        world,
                        sorted_by_name(listing),
                        depth + 1,
                        (fuel - 1) as nat,
                    );
                },
                _ => {},
            }
        }
        lemma_only_listings_fail(world, children.drop_first(), depth, fuel);
    }
}

/// A walk whose root is a directory does not fail where every directory can
/// be listed, whatever else cannot be read: an entry that cannot be
/// classified is in the sequence as an invalid entry.
pub proof fn lemma_walk_fails_at_listings_only(world: World, root: Seq<char>, fuel: nat)
    requires
        entry_at(world, base_name(root), root).item_type is Directory,
        forall|dir: Seq<char>|
            (#[trigger] (world.answer)(RequestView::ListDir { path: dir })) matches ReplyView::Listing(
                r,
            ) && r is Ok,
    ensures
        !(walk(world, root, fuel) is Unreadable),
{
    reveal_with_fuel(below, 2);
    match (world.answer)(RequestView::ListDir { path: root }) {
        ReplyView::Listing(Ok(listing)) => {
            lemma_only_listings_fail(world, sorted_by_name(listing), 0, fuel);
        },
        _ => {},
    }
}

/// In a complete walk the first entry is at depth 0; from one entry to the
/// next the depth goes up by at most 1, and by 1 only below a directory;
/// and right after a directory that has entries it does go up by 1.
pub proof fn lemma_walk_depths(world: World, root: Seq<char>, fuel: nat)
    requires
        walk(world, root, fuel) is Complete,
    ensures
        walk(world, root, fuel)->items.len() > 0 ==> walk(world, root, fuel)->items[0].0 == 0,
        forall|i: int|
            0 < i < walk(world, root, fuel)->items.len() ==> #[trigger] follows(
                walk(world, root, fuel)->items,
                i,
            ),
        forall|i: int|
            0 <= i < walk(world, root, fuel)->items.len() ==> #[trigger] entered_at(
                world,
                walk(world, root, fuel)->items,
                i,
            ),
{
    reveal_with_fuel(below, 2);
    match (world.answer)(RequestView::ListDir { path: root }) {
        ReplyView::Listing(Ok(listing)) => {
            lemma_along_depths(world, sorted_by_name(listing), 0, fuel);
            lemma_along_holds_every_child(world, sorted_by_name(listing), 0, fuel);
            lemma_sorted_by_name(listing);
            lemma_deepest(world, sorted_by_name(listing), 0, fuel);
        },
        _ => {},
    }
}

/// The entries of one directory come in the order of their names: in a
/// complete walk along children that are ordered by name, the names of the
/// entries at their depth never go down.
pub proof fn lemma_along_keeps_order(
    world: World,
    children: Seq<ChildView>,
    depth: nat,
    fuel: nat,
)
    requires
        along(world, children, depth, fuel) is Complete,
        ordered(children),
    ensures
        at_depth(along(world, children, depth, fuel)->items, depth).len() == children.len(),
        forall|i: int, j: int|
            0 <= i < j < children.len() ==> name_le(
                (#[trigger] at_depth(along(world, children, depth, fuel)->items, depth)[i]).name,
                (#[trigger] at_depth(along(world, children, depth, fuel)->items, depth)[j]).name,
            ),
{
    lemma_along_holds_every_child(world, children, depth, fuel);
    let found = at_depth(along(world, children, depth, fuel)->items, depth);
    assert forall|i: int, j: int| 0 <= i < j < children.len() implies name_le(
        (#[trigger] found[i]).name,
        (#[trigger] found[j]).name,
    ) by {
        lemma_classifier_faithful(world, children[i].name, children[i].path);
        lemma_classifier_faithful(world, children[j].name, children[j].path);
    }
}

/// The entries of the root come in the order of their names: a complete
/// walk holds, at depth 0, the entries of the root's listing, as many as the
/// listing has, with names that never go down.
pub proof fn lemma_walk_visits_by_name(world: World, root: Seq<char>, fuel: nat)
    requires
        walk(world, root, fuel) is Complete,
    ensures
        (world.answer)(RequestView::ListDir { path: root }) matches ReplyView::Listing(Ok(listing))
            && at_depth(walk(world, root, fuel)->items, 0) == entries_of(
            world,
            sorted_by_name(listing),
        ) && at_depth(walk(world, root, fuel)->items, 0).len() == listing.len(),
        forall|i: int, j: int|
            0 <= i < j < at_depth(walk(world, root, fuel)->items, 0).len() ==> name_le(
                (#[trigger] at_depth(walk(world, root, fuel)->items, 0)[i]).name,
                (#[trigger] at_depth(walk(world, root, fuel)->items, 0)[j]).name,
            ),
{
    reveal_with_fuel(below, 2);
    match (world.answer)(RequestView::ListDir { path: root }) {
        ReplyView::Listing(Ok(listing)) => {
            lemma_sorted_by_name(listing);
            lemma_along_holds_every_child(world, sorted_by_name(listing), 0, fuel);
            lemma_along_keeps_order(world, sorted_by_name(listing), 0, fuel);
        },
        _ => {},
    }
}

/// Whether the directory at `dir` lists at least one entry in `world`.
pub open spec fn has_entries(world: World, dir: Seq<char>) -> bool {
    (world.answer)(RequestView::ListDir { path: dir }) matches ReplyView::Listing(Ok(listing))
        && listing.len() > 0
}

/// Whether the walk enters the entry at `i` if it is a directory that has
/// entries: the next entry is then one level deeper.
pub open spec fn entered_at(world: World, items: Seq<(nat, FSItemView)>, i: int) -> bool {
    items[i].1.item_type is Directory && has_entries(world, items[i].1.path) ==> i + 1
        < items.len() && items[i + 1].0 == items[i].0 + 1
}

/// In a complete walk along the entries of a directory, the depth goes up
/// from one entry to the next by at most 1, and by 1 only below a directory;
/// right after a directory whose listing is not empty it does go up by 1.
pub proof fn lemma_along_depths(world: World, children: Seq<ChildView>, depth: nat, fuel: nat)
    requires
        along(world, children, depth, fuel) is Complete,
    ensures
        forall|i: int|
            0 < i < along(world, children, depth, fuel)->items.len() ==> #[trigger] follows(
                along(world, children, depth, fuel)->items,
                i,
            ),
        forall|i: int|
            0 <= i < along(world, children, depth, fuel)->items.len() ==> #[trigger] entered_at(
                world,
                along(world, children, depth, fuel)->items,
                i,
            ),
        forall|i: int|
            0 <= i < along(world, children, depth, fuel)->items.len() ==> (#[trigger] along(
                world,
                children,
                depth,
                fuel,
            )->items[i]).1.well_formed(),
    decreases fuel, children.len(),
{
    reveal_with_fuel(along, 2);
    let items = along(world, children, depth, fuel)->items;
    if children.len() > 0 {
        let child = children[0];
        let rest = children.drop_first();
        let entry = entry_at(world, child.name, child.path);
        lemma_classifier_faithful(world, child.name, child.path);
        let inside = if entry.item_type is Directory {
            below(world, child.path, depth + 1, (fuel - 1) as nat)->items
        } else {
            Seq::empty()
        };
        let after = along(world, rest, depth, fuel)->items;
        lemma_along_depths(world, rest, depth, fuel);
        lemma_along_holds_every_child(world, rest, depth, fuel);
        let listing = match (world.answer)(RequestView::ListDir { path: child.path }) {
            ReplyView::Listing(Ok(listing)) => listing,
            _ => Seq::empty(),
        };
        if entry.item_type is Directory {
            lemma_along_depths(world, sorted_by_name(listing), depth + 1, (fuel - 1) as nat);
            lemma_along_holds_every_child(
                world,
                sorted_by_name(listing),
                depth + 1,
                (fuel - 1) as nat,
            );
            lemma_sorted_by_name(listing);
        }
        lemma_deepest(world, children, depth, fuel);
        if entry.item_type is Directory {
            lemma_deepest(world, sorted_by_name(listing), depth + 1, (fuel - 1) as nat);
        }
        assert forall|i: int| 0 < i < items.len() implies #[trigger] follows(items, i) by {
            if i < 1 + inside.len() {
                if i != 1 {
                    assert(follows(inside, i - 1));
                }
            } else {
                let j = i - 1 - inside.len();
                if j != 0 {
                    assert(follows(after, j));
                }
            }
        }
        assert forall|i: int| 0 <= i < items.len() implies #[trigger] entered_at(
            world,
            items,
            i,
        ) by {
            if 0 < i < 1 + inside.len() {
                assert(entered_at(world, inside, i - 1));
            } else if i > 0 {
                let j = i - 1 - inside.len();
                assert(entered_at(world, after, j));
            }
        }
    }
}

proof fn lemma_deepest(world: World, children: Seq<ChildView>, depth: nat, fuel: nat)
    requires
        along(world, children, depth, fuel) is Complete,
    ensures
        children.len() > 0 ==> along(world, children, depth, fuel)->items.len() > 0,
        along(world, children, depth, fuel)->items.len() > 0 ==> !(along(
            world,
            children,
            depth,
            fuel,
        )->items.last().1.item_type is Directory && has_entries(
            world,
            along(world, children, depth, fuel)->items.last().1.path,
        )),
    decreases fuel, children.len(),
{
    reveal_with_fuel(along, 2);
    if children.len() > 0 {
        let child = children[0];
        let rest = children.drop_first();
        let entry = entry_at(world, child.name, child.path);
        lemma_classifier_faithful(world, child.name, child.path);
        lemma_deepest(world, rest, depth, fuel);
        if entry.item_type is Directory {
            match (world.answer)(RequestView::ListDir { path: child.path }) {
                ReplyView::Listing(Ok(listing)) => {
                    let sorted = sorted_by_name(listing);
                    lemma_sorted_by_name(listing);
                    lemma_deepest(world, sorted, depth + 1, (fuel - 1) as nat);
                },
                _ => {},
            }
        }
    }
}

/// What a sequence of entries shows when paths are left out: the depth, the
/// name and the media type of each entry.
pub open spec fn outline(items: Seq<(nat, FSItemView)>) -> Seq<(nat, Seq<char>, FileType)> {
    items.map_values(|p: (nat, FSItemView)| (p.0, p.1.name, p.1.item_type.media_type()))
}

/// Whether the directory at `dir` in `world` and the directory at `twin` in
/// `other` have the same structure down to `fuel` levels: both cannot be
/// listed, or their listings, sorted, are alike.
pub open spec fn alike_below(
    world: World,
    dir: Seq<char>,
    other: World,
    twin: Seq<char>,
    fuel: nat,
) -> bool
    decreases fuel, 1nat, 0nat,
{
    match (world.answer)(RequestView::ListDir { path: dir }) {
        ReplyView::Listing(Ok(listing)) => match (other.answer)(
            RequestView::ListDir { path: twin },
        ) {
            ReplyView::Listing(Ok(second)) => alike_along(
                world,
                sorted_by_name(listing),
                other,
                sorted_by_name(second),
                fuel,
            ),
            _ => false,
        },
        _ => !((other.answer)(RequestView::ListDir { path: twin }) matches ReplyView::Listing(
            Ok(_),
        )),
    }
}

/// Whether two sequences of children are alike: as many on both sides, each
/// pair with the same name and the same media type, and what lies below a
/// pair of directories alike again.
pub open spec fn alike_along(
    world: World,
    children: Seq<ChildView>,
    other: World,
    twins: Seq<ChildView>,
    fuel: nat,
) -> bool
    decreases fuel, 0nat, children.len(),
{
    if children.len() == 0 || twins.len() == 0 {
        children.len() == twins.len()
    } else {
        let entry = entry_at(world, children[0].name, children[0].path);
        let twin = entry_at(other, twins[0].name, twins[0].path);
        &&& children[0].name == twins[0].name
        &&& entry.item_type.media_type() == twin.item_type.media_type()
        &&& entry.item_type is Directory && fuel > 0 ==> alike_below(
            world,
            children[0].path,
            other,
            twins[0].path,
            (fuel - 1) as nat,
        )
        &&& alike_along(world, children.drop_first(), other, twins.drop_first(), fuel)
    }
}

/// Whether two walks end in the same way and, where they are complete, show
/// the same outline.
pub open spec fn same_outline(a: Walk, b: Walk) -> bool {
    match a {
        Walk::Complete { items } => b is Complete && outline(items) == outline(b->items),
        Walk::Unreadable => b is Unreadable,
        Walk::Endless => b is Endless,
    }
}

/// Walks along children that are alike show the same outline: the same
/// depths, names and media types in the same order, wherever the two trees
/// are rooted and in whatever order their listings come.
pub proof fn lemma_alike_along(
    world: World,
    children: Seq<ChildView>,
    other: World,
    twins: Seq<ChildView>,
    depth: nat,
    fuel: nat,
)
    requires
        alike_along(world, children, other, twins, fuel),
    ensures
        same_outline(along(world, children, depth, fuel), along(other, twins, depth, fuel)),
    decreases fuel, children.len(),
{
    reveal_with_fuel(along, 2);
    reveal_with_fuel(alike_along, 2);
    let none = Seq::<(nat, FSItemView)>::empty();
    if children.len() > 0 && twins.len() > 0 {
        let entry = entry_at(world, children[0].name, children[0].path);
        let twin = entry_at(other, twins[0].name, twins[0].path);
        lemma_classifier_faithful(world, children[0].name, children[0].path);
        lemma_classifier_faithful(other, twins[0].name, twins[0].path);
        lemma_alike_along(world, children.drop_first(), other, twins.drop_first(), depth, fuel);
        let after = along(world, children.drop_first(), depth, fuel);
        let after_twin = along(other, twins.drop_first(), depth, fuel);
        if entry.item_type is Directory {
            if fuel > 0 {
                match (world.answer)(RequestView::ListDir { path: children[0].path }) {
                    ReplyView::Listing(Ok(listing)) => match (other.answer)(
                        RequestView::ListDir { path: twins[0].path },
                    ) {
                        ReplyView::Listing(Ok(second)) => {
                            lemma_alike_along(
                                world,
                                sorted_by_name(listing),
                                other,
                                sorted_by_name(second),
                                depth + 1,
                                (fuel - 1) as nat,
                            );
                            let inside = along(
                                world,
                                sorted_by_name(listing),
                                depth + 1,
                                (fuel - 1) as nat,
                            );
                            let inside_twin = along(
                                other,
                                sorted_by_name(second),
                                depth + 1,
                                (fuel - 1) as nat,
                            );
                            if inside is Complete && after is Complete {
                                lemma_outline_joined(
                                    (depth, entry),
                                    inside->items,
                                    after->items,
                                    (depth, twin),
                                    inside_twin->items,
                                    after_twin->items,
                                );
                            }
                        },
                        _ => {},
                    },
                    _ => {},
                }
            }
        } else if after is Complete {
            lemma_outline_joined(
                (depth, entry),
                none,
                after->items,
                (depth, twin),
                none,
                after_twin->items,
            );
        }
    }
}

proof fn lemma_outline_joined(
    first: (nat, FSItemView),
    inside: Seq<(nat, FSItemView)>,
    after: Seq<(nat, FSItemView)>,
    first_twin: (nat, FSItemView),
    inside_twin: Seq<(nat, FSItemView)>,
    after_twin: Seq<(nat, FSItemView)>,
)
    requires
        first.0 == first_twin.0,
        first.1.name == first_twin.1.name,
        first.1.item_type.media_type() == first_twin.1.item_type.media_type(),
        outline(inside) == outline(inside_twin),
        outline(after) == outline(after_twin),
    ensures
        outline(seq![first] + inside + after) == outline(seq![first_twin] + inside_twin + after_twin),
{
    let shown = |p: (nat, FSItemView)| (p.0, p.1.name, p.1.item_type.media_type());
    assert(outline(seq![first] + inside + after) =~= seq![shown(first)] + outline(inside) + outline(
        after,
    ));
    assert(outline(seq![first_twin] + inside_twin + after_twin) =~= seq![shown(first_twin)]
        + outline(inside_twin) + outline(after_twin));
}

/// Two trees of the same structure are walked alike: where two roots are
/// directories whose contents are alike, their walks end in the same way
/// and, where they are complete, show the same depths, names and media
/// types in the same order.
pub proof fn lemma_alike_trees_walk_alike(
    world: World,
    root: Seq<char>,
    other: World,
    twin: Seq<char>,
    fuel: nat,
)
    requires
        entry_at(world, base_name(root), root).item_type is Directory,
        entry_at(other, base_name(twin), twin).item_type is Directory,
        alike_below(world, root, other, twin, fuel),
    ensures
        same_outline(walk(world, root, fuel), walk(other, twin, fuel)),
{
    reveal_with_fuel(below, 2);
    reveal_with_fuel(alike_below, 2);
    match (world.answer)(RequestView::ListDir { path: root }) {
        ReplyView::Listing(Ok(listing)) => match (other.answer)(
            RequestView::ListDir { path: twin },
        ) {
            ReplyView::Listing(Ok(second)) => {
                lemma_alike_along(
                    world,
                    sorted_by_name(listing),
                    other,
                    sorted_by_name(second),
                    0,
                    fuel,
                );
            },
            _ => {},
        },
        _ => {},
    }
}

/// The entry that stands for a listed child in `world`.
pub open spec fn child_entry(world: World, child: ChildView) -> FSItemView {
    entry_at(world, child.name, child.path)
}

/// The index of the last entry at or before `i` that is at `depth`: the
/// entry at `i` itself, or the one among those that enclose it that is at
/// `depth`. It is -1 where there is no such entry.
pub open spec fn holder(items: Seq<(nat, FSItemView)>, i: int, depth: nat) -> int
    decreases i + 1,
{
    if i < 0 {
        -1
    } else if items[i].0 == depth {
        i
    } else {
        holder(items, i - 1, depth)
    }
}

/// The directory that holds the entry at `j`: `top` for an entry at depth
/// `base`, and otherwise the directory one level up that encloses it.
pub open spec fn home(top: Seq<char>, base: nat, items: Seq<(nat, FSItemView)>, j: int) -> Seq<
    char,
> {
    if items[j].0 <= base {
        top
    } else {
        items[holder(items, j - 1, (items[j].0 - 1) as nat)].1.path
    }
}

/// Whether `child` is the first entry of the directory `parent`: the first
/// of its listing as sorted by name.
pub open spec fn first_child(world: World, parent: FSItemView, child: FSItemView) -> bool {
    parent.item_type is Directory && match (world.answer)(
        RequestView::ListDir { path: parent.path },
    ) {
        ReplyView::Listing(Ok(listing)) => listing.len() > 0 && child == child_entry(
            world,
            sorted_by_name(listing)[0],
        ),
        _ => false,
    }
}

/// Whether `later` comes right after `earlier` among the entries of the
/// directory at `dir`, as sorted by name.
pub open spec fn next_sibling(world: World, dir: Seq<char>, earlier: FSItemView, later: FSItemView)
    -> bool {
    match (world.answer)(RequestView::ListDir { path: dir }) {
        ReplyView::Listing(Ok(listing)) => exists|k: int|
            0 <= k && k + 1 < sorted_by_name(listing).len() && earlier == child_entry(
                world,
                #[trigger] sorted_by_name(listing)[k],
            ) && later == child_entry(world, sorted_by_name(listing)[k + 1]),
        _ => false,
    }
}

/// How the entry at `i + 1` follows the entry at `i` in a walk below the
/// directory `top`, whose entries are at depth `base`. Either it is one level
/// deeper, and then it is the first entry of the directory at `i`. Or it is
/// no deeper than the entry at `i`, and then it is the next sibling of that
/// entry or of one that encloses it: of the last entry before it that is at
/// its own depth.
pub open spec fn succeeds(
    world: World,
    top: Seq<char>,
    base: nat,
    items: Seq<(nat, FSItemView)>,
    i: int,
) -> bool {
    let depth = items[i + 1].0;
    if depth == items[i].0 + 1 {
        first_child(world, items[i].1, items[i + 1].1)
    } else {
        let j = holder(items, i, depth);
        &&& depth <= items[i].0
        &&& 0 <= j <= i
        &&& next_sibling(world, home(top, base, items, j), items[j].1, items[i + 1].1)
    }
}

/// Whether a sequence begins at depth `base`, never goes above it, and goes
/// down by one level at a time, below directories only.
pub open spec fn rooted(items: Seq<(nat, FSItemView)>, base: nat) -> bool {
    &&& items.len() > 0 ==> items[0].0 == base
    &&& forall|i: int| 0 <= i < items.len() ==> (#[trigger] items[i]).0 >= base
    &&& forall|i: int| 0 < i < items.len() ==> #[trigger] follows(items, i)
}

proof fn lemma_along_rooted(world: World, children: Seq<ChildView>, depth: nat, fuel: nat)
    requires
        along(world, children, depth, fuel) is Complete,
    ensures
        rooted(along(world, children, depth, fuel)->items, depth),
{
    lemma_along_depths(world, children, depth, fuel);
    lemma_along_holds_every_child(world, children, depth, fuel);
    reveal_with_fuel(along, 2);
}

proof fn lemma_holder_bounds(items: Seq<(nat, FSItemView)>, i: int, depth: nat)
    requires
        -1 <= i,
    ensures
        -1 <= holder(items, i, depth) <= i,
        holder(items, i, depth) >= 0 ==> items[holder(items, i, depth)].0 == depth,
    decreases i + 1,
{
    if i >= 0 && items[i].0 != depth {
        lemma_holder_bounds(items, i - 1, depth);
    }
}

proof fn lemma_holder_exists(items: Seq<(nat, FSItemView)>, base: nat, j: int, depth: nat)
    requires
        rooted(items, base),
        0 <= j < items.len(),
        base <= depth <= items[j].0,
    ensures
        0 <= holder(items, j, depth) <= j,
        items[holder(items, j, depth)].0 == depth,
    decreases j,
{
    if items[j].0 != depth {
        assert(items[0].0 == base);
        assert(follows(items, j));
        lemma_holder_exists(items, base, j - 1, depth);
    }
}

proof fn lemma_holder_prefix(
    pre: Seq<(nat, FSItemView)>,
    suf: Seq<(nat, FSItemView)>,
    i: int,
    depth: nat,
)
    requires
        -1 <= i < pre.len(),
    ensures
        holder(pre + suf, i, depth) == holder(pre, i, depth),
    decreases i + 1,
{
    if i >= 0 {
        assert((pre + suf)[i] == pre[i]);
        if pre[i].0 != depth {
            lemma_holder_prefix(pre, suf, i - 1, depth);
        }
    }
}

proof fn lemma_holder_suffix(
    pre: Seq<(nat, FSItemView)>,
    suf: Seq<(nat, FSItemView)>,
    i: int,
    depth: nat,
)
    requires
        0 <= i < suf.len(),
        holder(suf, i, depth) >= 0,
    ensures
        holder(pre + suf, pre.len() + i, depth) == pre.len() + holder(suf, i, depth),
    decreases i,
{
    assert((pre + suf)[pre.len() + i] == suf[i]);
    if suf[i].0 != depth {
        lemma_holder_bounds(suf, i - 1, depth);
        lemma_holder_suffix(pre, suf, i - 1, depth);
    }
}

proof fn lemma_holder_skips(items: Seq<(nat, FSItemView)>, from: int, i: int, depth: nat)
    requires
        0 <= from <= i < items.len(),
        items[from].0 == depth,
        forall|t: int| from < t <= i ==> (#[trigger] items[t]).0 != depth,
    ensures
        holder(items, i, depth) == from,
    decreases i - from,
{
    if i > from {
        assert(items[i].0 != depth);
        lemma_holder_skips(items, from, i - 1, depth);
    }
}

/// What holds of two entries that follow each other holds of them with more
/// entries after them.
proof fn lemma_succeeds_prefix(
    world: World,
    top: Seq<char>,
    base: nat,
    pre: Seq<(nat, FSItemView)>,
    suf: Seq<(nat, FSItemView)>,
    i: int,
)
    requires
        rooted(pre, base),
        0 <= i,
        i + 1 < pre.len(),
        succeeds(world, top, base, pre, i),
    ensures
        succeeds(world, top, base, pre + suf, i),
{
    let all = pre + suf;
    let depth = pre[i + 1].0;
    assert(all[i] == pre[i] && all[i + 1] == pre[i + 1]);
    if depth != pre[i].0 + 1 {
        let j = holder(pre, i, depth);
        lemma_holder_prefix(pre, suf, i, depth);
        lemma_holder_bounds(pre, i, depth);
        assert(all[j] == pre[j]);
        if pre[j].0 > base {
            let up = (depth - 1) as nat;
            assert(pre[0].0 == base);
            assert(follows(pre, j));
            lemma_holder_exists(pre, base, j - 1, up);
            lemma_holder_prefix(pre, suf, j - 1, up);
            assert(all[holder(pre, j - 1, up)] == pre[holder(pre, j - 1, up)]);
        }
    }
}

/// What holds of two entries that follow each other holds of them with more
/// entries before them.
proof fn lemma_succeeds_suffix(
    world: World,
    top: Seq<char>,
    base: nat,
    pre: Seq<(nat, FSItemView)>,
    suf: Seq<(nat, FSItemView)>,
    i: int,
)
    requires
        rooted(suf, base),
        0 <= i,
        i + 1 < suf.len(),
        succeeds(world, top, base, suf, i),
    ensures
        succeeds(world, top, base, pre + suf, pre.len() + i),
{
    let all = pre + suf;
    let depth = suf[i + 1].0;
    assert(all[pre.len() + i] == suf[i] && all[pre.len() + i + 1] == suf[i + 1]);
    if depth != suf[i].0 + 1 {
        let j = holder(suf, i, depth);
        lemma_holder_suffix(pre, suf, i, depth);
        lemma_holder_bounds(suf, i, depth);
        assert(all[pre.len() + j] == suf[j]);
        if suf[j].0 > base {
            let up = (depth - 1) as nat;
            assert(suf[0].0 == base);
            assert(follows(suf, j));
            lemma_holder_exists(suf, base, j - 1, up);
            lemma_holder_suffix(pre, suf, j - 1, up);
            assert(all[pre.len() + holder(suf, j - 1, up)] == suf[holder(suf, j - 1, up)]);
        }
    }
}

/// What holds of two entries that follow each other below a directory holds
/// of them in the walk that holds the directory.
proof fn lemma_succeeds_nested(
    world: World,
    top: Seq<char>,
    head: (nat, FSItemView),
    inside: Seq<(nat, FSItemView)>,
    i: int,
)
    requires
        rooted(inside, head.0 + 1),
        0 <= i,
        i + 1 < inside.len(),
        succeeds(world, head.1.path, head.0 + 1, inside, i),
    ensures
        succeeds(world, top, head.0, seq![head] + inside, 1 + i),
{
    let pre = seq![head];
    let all = pre + inside;
    let depth = inside[i + 1].0;
    assert(all[1 + i] == inside[i] && all[1 + i + 1] == inside[i + 1]);
    if depth != inside[i].0 + 1 {
        let j = holder(inside, i, depth);
        lemma_holder_suffix(pre, inside, i, depth);
        lemma_holder_bounds(inside, i, depth);
        assert(all[1 + j] == inside[j]);
        assert(inside[j].0 >= head.0 + 1);
        let up = (depth - 1) as nat;
        if depth == head.0 + 1 {
            assert(all[0] == head);
            assert forall|t: int| 0 < t <= j implies (#[trigger] all[t]).0 != up by {
                assert(all[t] == inside[t - 1]);
            }
            lemma_holder_skips(all, 0, j, up);
        } else {
            assert(inside[0].0 == head.0 + 1);
            assert(follows(inside, j));
            lemma_holder_exists(inside, head.0 + 1, j - 1, up);
            lemma_holder_suffix(pre, inside, j - 1, up);
            assert(all[1 + holder(inside, j - 1, up)] == inside[holder(inside, j - 1, up)]);
        }
    }
}

/// In a complete walk along the entries of the directory at `dir`, from the
/// entry at `from` of its sorted listing on, every entry but the first is
/// the first child of the entry before it, or the next sibling of that
/// entry or of one that encloses it.
pub proof fn lemma_along_order(
    world: World,
    dir: Seq<char>,
    listing: Seq<ChildView>,
    from: int,
    depth: nat,
    fuel: nat,
)
    requires
        (world.answer)(RequestView::ListDir { path: dir }) == ReplyView::Listing(
            Ok::<Seq<ChildView>, crate::error::IoFailure>(listing),
        ),
        0 <= from <= listing.len(),
        along(
            world,
            sorted_by_name(listing).subrange(from, listing.len() as int),
            depth,
            fuel,
        ) is Complete,
    ensures
        forall|i: int|
            0 <= i && i + 1 < along(
                world,
                sorted_by_name(listing).subrange(from, listing.len() as int),
                depth,
                fuel,
            )->items.len() ==> #[trigger] succeeds(
                world,
                dir,
                depth,
                along(
                    world,
                    sorted_by_name(listing).subrange(from, listing.len() as int),
                    depth,
                    fuel,
                )->items,
                i,
            ),
    decreases fuel, listing.len() - from,
{
    reveal_with_fuel(along, 2);
    lemma_sorted_by_name(listing);
    let sorted = sorted_by_name(listing);
    let children = sorted.subrange(from, listing.len() as int);
    let items = along(world, children, depth, fuel)->items;
    if children.len() > 0 {
        let child = children[0];
        let rest = children.drop_first();
        let entry = child_entry(world, child);
        let head = (depth, entry);
        lemma_classifier_faithful(world, child.name, child.path);
        assert(rest =~= sorted.subrange(from + 1, listing.len() as int));
        let below_listing = match (world.answer)(RequestView::ListDir { path: child.path }) {
            ReplyView::Listing(Ok(l)) => l,
            _ => Seq::empty(),
        };
        let below_sorted = sorted_by_name(below_listing);
        lemma_sorted_by_name(below_listing);
        assert(below_sorted.subrange(0, below_listing.len() as int) =~= below_sorted);
        let inside = if entry.item_type is Directory {
            along(world, below_sorted, depth + 1, (fuel - 1) as nat)->items
        } else {
            Seq::empty()
        };
        let after = along(world, rest, depth, fuel)->items;
        let front = seq![head] + inside;
        assert(items == front + after);
        lemma_along_order(world, dir, listing, from + 1, depth, fuel);
        lemma_along_rooted(world, rest, depth, fuel);
        lemma_along_holds_every_child(world, rest, depth, fuel);
        lemma_along_rooted(world, children, depth, fuel);
        if entry.item_type is Directory {
            lemma_along_order(world, child.path, below_listing, 0, depth + 1, (fuel - 1) as nat);
            lemma_along_rooted(world, below_sorted, depth + 1, (fuel - 1) as nat);
            lemma_along_holds_every_child(world, below_sorted, depth + 1, (fuel - 1) as nat);
        }
        assert(rooted(front, depth)) by {
            assert forall|i: int| 0 <= i < front.len() implies (#[trigger] front[i]).0
                >= depth by {
                assert(front[i] == items[i]);
            }
            assert forall|i: int| 0 < i < front.len() implies #[trigger] follows(front, i) by {
                assert(follows(items, i));
                assert(front[i] == items[i] && front[i - 1] == items[i - 1]);
            }
        }
        assert forall|i: int| 0 <= i && i + 1 < items.len() implies #[trigger] succeeds(
            world,
            dir,
            depth,
            items,
            i,
        ) by {
            if i + 1 < front.len() {
                if i == 0 {
                    assert(front[0] == head && front[1] == inside[0]);
                    assert(first_child(world, entry, inside[0].1));
                    assert(succeeds(world, dir, depth, front, 0));
                } else {
                    assert(succeeds(world, child.path, depth + 1, inside, i - 1));
                    lemma_succeeds_nested(world, dir, head, inside, i - 1);
                }
                lemma_succeeds_prefix(world, dir, depth, front, after, i);
            } else if i + 1 == front.len() {
                assert(items[i + 1] == after[0]);
                assert(items[0] == head);
                assert forall|t: int| 0 < t <= i implies (#[trigger] items[t]).0 != depth by {
                    assert(items[t] == inside[t - 1]);
                }
                lemma_holder_skips(items, 0, i, depth);
                assert(sorted[from] == child && sorted[from + 1] == rest[0]);
                assert(after[0].1 == child_entry(world, sorted[from + 1]));
                assert(next_sibling(world, dir, entry, after[0].1));
            } else {
                let k = i - front.len();
                assert(succeeds(world, dir, depth, after, k));
                lemma_succeeds_suffix(world, dir, depth, front, after, k);
            }
        }
    }
}

/// How a complete walk goes from each entry to the next. The next entry is
/// one level deeper exactly when it is the first entry of the directory
/// before it. Otherwise it is no deeper, and it is the next sibling of the
/// entry before it or of a directory that encloses that entry, at that
/// entry's depth.
pub proof fn lemma_walk_order(world: World, root: Seq<char>, fuel: nat)
    requires
        walk(world, root, fuel) is Complete,
    ensures
        forall|i: int|
            0 <= i && i + 1 < walk(world, root, fuel)->items.len() ==> #[trigger] succeeds(
                world,
                root,
                0,
                walk(world, root, fuel)->items,
                i,
            ),
        forall|i: int|
            0 <= i && i + 1 < walk(world, root, fuel)->items.len() ==> (#[trigger] first_child(
                world,
                walk(world, root, fuel)->items[i].1,
                walk(world, root, fuel)->items[i + 1].1,
            ) ==> walk(world, root, fuel)->items[i + 1].0 == walk(world, root, fuel)->items[i].0
                + 1),
{
    reveal_with_fuel(below, 2);
    lemma_walk_depths(world, root, fuel);
    let items = walk(world, root, fuel)->items;
    match (world.answer)(RequestView::ListDir { path: root }) {
        ReplyView::Listing(Ok(listing)) => {
            lemma_sorted_by_name(listing);
            assert(sorted_by_name(listing).subrange(0, listing.len() as int) =~= sorted_by_name(
                listing,
            ));
            lemma_along_order(world, root, listing, 0, 0, fuel);
        },
        _ => {},
    }
    assert forall|i: int|
        0 <= i && i + 1 < items.len() && #[trigger] first_child(
            world,
            items[i].1,
            items[i + 1].1,
        ) implies items[i + 1].0 == items[i].0 + 1 by {
        assert(entered_at(world, items, i));
    }
}

} // verus!
