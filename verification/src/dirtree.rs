//! The tree flattener: a directory subtree as one sequence of entries with
//! their depths, in the order of a depth-first walk that visits the entries
//! of each directory by name.

use vstd::prelude::*;
use vstd::string::*;
use crate::classify::{classifier_step, Classifier, ClassifierView, Stage};
use crate::error::ErrorKind;
use crate::item::{FSItem, FSItemView};
use crate::order::{sort_children, sorted_by_name};
use crate::protocol::{
    views_of, ChildView, DirChild, Progress, ProgressView, Reply, ReplyView, Request, RequestView,
};
use crate::text::{base_name, base_name_of};

verus! {

/// The values of a sequence of entries with their depths.
pub open spec fn items_view(items: Seq<(usize, FSItem)>) -> Seq<(nat, FSItemView)> {
    items.map_values(|p: (usize, FSItem)| (p.0 as nat, p.1@))
}

/// The values of a sequence of listed entries with their depths.
pub open spec fn stack_view(stack: Seq<(usize, DirChild)>) -> Seq<(nat, ChildView)> {
    stack.map_values(|p: (usize, DirChild)| (p.0 as nat, p.1@))
}

/// The greatest depth at which an entry can follow `items`: one below the
/// last entry if that is a directory, and the depth of the last entry if it
/// is not.
pub open spec fn reach(items: Seq<(nat, FSItemView)>) -> nat {
    if items.len() == 0 {
        0
    } else if items.last().1.item_type is Directory {
        items.last().0 + 1
    } else {
        items.last().0
    }
}

/// Whether the entry at `i` may follow the one before it: its depth is at
/// most one more, and it is one more only if the entry before is a
/// directory.
pub open spec fn follows(items: Seq<(nat, FSItemView)>, i: int) -> bool {
    &&& items[i].0 <= items[i - 1].0 + 1
    &&& items[i].0 == items[i - 1].0 + 1 ==> items[i - 1].1.item_type is Directory
}

/// What holds of the sequence that a walk yields: the first entry is at
/// depth 0; from one entry to the next the depth goes up by at most 1, and
/// by 1 only below a directory; and every entry is well formed.
pub open spec fn consistent(items: Seq<(nat, FSItemView)>) -> bool {
    &&& forall|i: int| 0 <= i < items.len() ==> (#[trigger] items[i]).0 <= i
    &&& forall|i: int| 0 < i < items.len() ==> #[trigger] follows(items, i)
    &&& forall|i: int| 0 <= i < items.len() ==> (#[trigger] items[i]).1.well_formed()
}

/// An entry that lies no deeper than the sequence reaches may join it.
proof fn lemma_consistent_push(items: Seq<(nat, FSItemView)>, depth: nat, entry: FSItemView)
    requires
        consistent(items),
        depth <= reach(items),
        entry.well_formed(),
    ensures
        consistent(items.push((depth, entry))),
        depth <= items.len(),
        reach(items.push((depth, entry))) == if entry.item_type is Directory {
            depth + 1
        } else {
            depth
        },
{
    let now = items.push((depth, entry));
    assert forall|i: int| 0 < i < now.len() implies #[trigger] follows(now, i) by {
        if i < items.len() {
            assert(follows(items, i));
        }
    }
}

/// The entries of a listing may be put on a stack whose entries lie no
/// deeper than they.
proof fn lemma_stack_grows(held: Seq<(nat, ChildView)>, sorted: Seq<ChildView>, depth: nat)
    requires
        rising(held),
        within(held, depth),
    ensures
        rising(held + stacked(sorted, depth)),
        within(held + stacked(sorted, depth), depth),
{
}

/// Below the next entry of a stack, nothing lies deeper than it.
proof fn lemma_stack_shrinks(held: Seq<(nat, ChildView)>)
    requires
        rising(held),
        held.len() > 0,
    ensures
        rising(held.drop_last()),
        within(held.drop_last(), held.last().0),
{
}

/// A directory subtree, flattened.
#[derive(Debug)]
pub struct FlattenedDirTree {
    root: String,
    items: Vec<(usize, FSItem)>,
}

/// The mathematical value of a [`FlattenedDirTree`]: the path of the root
/// and the entries below it, each with the number of directories between the
/// root and itself.
pub struct TreeView {
    pub root: Seq<char>,
    pub items: Seq<(nat, FSItemView)>,
}

impl View for FlattenedDirTree {
    type V = TreeView;

    closed spec fn view(&self) -> TreeView {
        TreeView { root: self.root@, items: items_view(self.items@) }
    }
}

/// What a flattener is waiting for.
#[derive(Debug)]
enum Phase {
    /// The classification of the root.
    Root { probe: Classifier },
    /// The listing of a directory whose entries are at `depth`.
    Listing { depth: usize },
    /// The classification of an entry at `depth`.
    Child { depth: usize, probe: Classifier },
}

/// The mathematical value of what a flattener is waiting for.
pub enum PhaseView {
    Root { probe: ClassifierView },
    Listing { depth: nat },
    Child { depth: nat, probe: ClassifierView },
}

/// A walk under way.
#[derive(Debug)]
pub struct Flattener {
    root: String,
    items: Vec<(usize, FSItem)>,
    stack: Vec<(usize, DirChild)>,
    phase: Phase,
}

/// The mathematical value of a [`Flattener`]: the entries found so far, and
/// the listed entries that are still to be visited, the next one last.
pub struct FlattenerView {
    pub root: Seq<char>,
    pub items: Seq<(nat, FSItemView)>,
    pub stack: Seq<(nat, ChildView)>,
    pub phase: PhaseView,
}

impl Phase {
    spec fn value(self) -> PhaseView {
        match self {
            Phase::Root { probe } => PhaseView::Root { probe: probe@ },
            Phase::Listing { depth } => PhaseView::Listing { depth: depth as nat },
            Phase::Child { depth, probe } => PhaseView::Child { depth: depth as nat, probe: probe@ },
        }
    }
}

impl View for Flattener {
    type V = FlattenerView;

    closed spec fn view(&self) -> FlattenerView {
        FlattenerView {
            root: self.root@,
            items: items_view(self.items@),
            stack: stack_view(self.stack@),
            phase: self.phase.value(),
        }
    }
}

/// Whether the depths of the entries still to be visited never go down
/// towards the next one.
pub open spec fn rising(stack: Seq<(nat, ChildView)>) -> bool {
    forall|i: int, j: int| 0 <= i < j < stack.len() ==> (#[trigger] stack[i]).0 <= (
    #[trigger] stack[j]).0
}

/// Whether no entry still to be visited lies deeper than `depth`.
pub open spec fn within(stack: Seq<(nat, ChildView)>, depth: nat) -> bool {
    forall|i: int| 0 <= i < stack.len() ==> (#[trigger] stack[i]).0 <= depth
}

/// What holds of a flattener at every step.
pub open spec fn sound(f: FlattenerView) -> bool {
    &&& consistent(f.items)
    &&& rising(f.stack)
    &&& match f.phase {
        PhaseView::Root { .. } => f.items.len() == 0 && f.stack.len() == 0,
        PhaseView::Listing { depth } => depth == reach(f.items) && within(f.stack, depth),
        PhaseView::Child { depth, .. } => depth <= reach(f.items) && within(f.stack, depth),
    }
}

/// The entries of a sorted listing as they are put on the stack: all at
/// `depth`, the first one last.
pub open spec fn stacked(sorted: Seq<ChildView>, depth: nat) -> Seq<(nat, ChildView)> {
    Seq::new(sorted.len(), |i: int| (depth, sorted[sorted.len() - 1 - i]))
}

/// How a walk begins: by classifying the root.
pub open spec fn flattening(root: Seq<char>) -> ProgressView<FlattenerView, TreeView> {
    ProgressView::Pending {
        machine: FlattenerView {
            root,
            items: Seq::empty(),
            stack: Seq::empty(),
            phase: PhaseView::Root {
                probe: ClassifierView { name: base_name(root), path: root, stage: Stage::Stat },
            },
        },
        request: RequestView::Stat { path: root },
    }
}

/// How a walk goes on when nothing is awaited: the next entry on the stack
/// is classified, and with an empty stack the walk is done.
pub open spec fn advance(
    root: Seq<char>,
    items: Seq<(nat, FSItemView)>,
    stack: Seq<(nat, ChildView)>,
) -> ProgressView<FlattenerView, TreeView> {
    if stack.len() == 0 {
        ProgressView::Done { outcome: TreeView { root, items } }
    } else {
        let next = stack.last();
        ProgressView::Pending {
            machine: FlattenerView {
                root,
                items,
                stack: stack.drop_last(),
                phase: PhaseView::Child {
                    depth: next.0,
                    probe: ClassifierView {
                        name: next.1.name,
                        path: next.1.path,
                        stage: Stage::Stat,
                    },
                },
            },
            request: RequestView::Stat { path: next.1.path },
        }
    }
}

/// What follows when an entry at `depth` has been classified: it joins the
/// sequence, and if it is a directory its listing is asked for. Nothing else
/// is ever expanded, a symbolic link to a directory included.
pub open spec fn entered(f: FlattenerView, depth: nat, entry: FSItemView) -> ProgressView<
    FlattenerView,
    TreeView,
> {
    let items = f.items.push((depth, entry));
    if entry.item_type is Directory {
        ProgressView::Pending {
            machine: FlattenerView {
                root: f.root,
                items,
                stack: f.stack,
                phase: PhaseView::Listing { depth: depth + 1 },
            },
            request: RequestView::ListDir { path: entry.path },
        }
    } else {
        advance(f.root, items, f.stack)
    }
}

/// What follows when the listing of a directory has come whose entries are
/// at `depth`: they are sorted by name and visited before anything else. A
/// listing that failed ends the walk.
pub open spec fn listed(f: FlattenerView, depth: nat, reply: ReplyView) -> ProgressView<
    FlattenerView,
    TreeView,
> {
    match reply {
        ReplyView::Listing(Ok(children)) => advance(
            f.root,
            f.items,
            f.stack + stacked(sorted_by_name(children), depth),
        ),
        _ => ProgressView::Failed { error: ErrorKind::RootUnreadable },
    }
}

/// What a flattener does with a reply.
pub open spec fn flattener_step(f: FlattenerView, reply: ReplyView) -> ProgressView<
    FlattenerView,
    TreeView,
> {
    match f.phase {
        PhaseView::Root { probe } => match classifier_step(probe, reply) {
            ProgressView::Pending { machine, request } => ProgressView::Pending {
                machine: FlattenerView {
                    root: f.root,
                    items: f.items,
                    stack: f.stack,
                    phase: PhaseView::Root { probe: machine },
                },
                request,
            },
            ProgressView::Done { outcome } => if outcome.item_type is Directory {
                ProgressView::Pending {
                    machine: FlattenerView {
                        root: f.root,
                        items: f.items,
                        stack: f.stack,
                        phase: PhaseView::Listing { depth: 0 },
                    },
                    request: RequestView::ListDir { path: f.root },
                }
            } else {
                ProgressView::Failed { error: ErrorKind::RootUnreadable }
            },
            ProgressView::Failed { error } => ProgressView::Failed { error },
        },
        PhaseView::Listing { depth } => listed(f, depth, reply),
        PhaseView::Child { depth, probe } => match classifier_step(probe, reply) {
            ProgressView::Pending { machine, request } => ProgressView::Pending {
                machine: FlattenerView {
                    root: f.root,
                    items: f.items,
                    stack: f.stack,
                    phase: PhaseView::Child { depth, probe: machine },
                },
                request,
            },
            ProgressView::Done { outcome } => entered(f, depth, outcome),
            ProgressView::Failed { error } => ProgressView::Failed { error },
        },
    }
}

impl FlattenedDirTree {
    #[verifier::type_invariant]
    spec fn valid(self) -> bool {
        consistent(items_view(self.items@))
    }

    /// Begins to flatten the subtree below `root`; the same as [`flatten`].
    pub fn new(root: String) -> (r: Progress<Flattener, FlattenedDirTree>)
        ensures
            r@ == flattening(root@),
    {
        flatten(root)
    }

    /// The path of the root, as it was given.
    pub fn root(&self) -> (r: &str)
        ensures
            r@ == self@.root,
    {
        self.root.as_str()
    }

    /// The number of entries.
    pub fn len(&self) -> (n: usize)
        ensures
            n == self@.items.len(),
    {
        self.items.len()
    }

    /// Whether the root has no entries.
    pub fn is_empty(&self) -> (r: bool)
        ensures
            r == (self@.items.len() == 0),
    {
        self.items.len() == 0
    }

    /// The entries with their depths, in the order of the walk.
    pub fn items(&self) -> (r: &Vec<(usize, FSItem)>)
        ensures
            items_view(r@) == self@.items,
            consistent(self@.items),
    {
        proof {
            use_type_invariant(self);
        }
        &self.items
    }

    /// The entry at `index` with its depth, if there is one.
    pub fn get(&self, index: usize) -> (r: Option<(usize, &FSItem)>)
        ensures
            r is Some <==> index < self@.items.len(),
            r matches Some(found) ==> (found.0 as nat, found.1@) == self@.items[index as int],
    {
        if index < self.items.len() {
            Some((self.items[index].0, &self.items[index].1))
        } else {
            None
        }
    }

    /// The entries with their depths, in the order of the walk.
    pub fn into_items(self) -> (r: Vec<(usize, FSItem)>)
        ensures
            items_view(r@) == self@.items,
            consistent(self@.items),
    {
        proof {
            use_type_invariant(&self);
        }
        self.items
    }
}

/// Begins to flatten the subtree below `root`.
///
/// The root is classified first; the walk fails with `RootUnreadable` if it
/// is no directory. Then the entries of each directory are visited in the
/// order of their names. Each is classified and joins the sequence with its
/// depth; the entries of a directory follow it at once, one level deeper. An
/// entry that cannot be classified joins the sequence as an invalid entry.
/// A directory that cannot be listed ends the walk with `RootUnreadable`.
pub fn flatten(root: String) -> (r: Progress<Flattener, FlattenedDirTree>)
    ensures
        r@ == flattening(root@),
{
    let name = base_name_of(root.as_str());
    let (probe, request) = Classifier::begin(name, root.clone());
    let items: Vec<(usize, FSItem)> = Vec::new();
    let stack: Vec<(usize, DirChild)> = Vec::new();
    assert(items_view(items@) =~= Seq::<(nat, FSItemView)>::empty());
    assert(stack_view(stack@) =~= Seq::<(nat, ChildView)>::empty());
    Progress::Pending {
        machine: Flattener { root, items, stack, phase: Phase::Root { probe } },
        request,
    }
}

/// Puts the entries of a sorted listing on the stack, the first one last.
fn push_children(stack: Vec<(usize, DirChild)>, sorted: Vec<DirChild>, depth: usize) -> (r: Vec<
    (usize, DirChild),
>)
    ensures
        stack_view(r@) == stack_view(stack@) + stacked(views_of(sorted@), depth as nat),
{
    let ghost below = stack_view(stack@);
    let ghost all = views_of(sorted@);
    let mut stack = stack;
    let mut sorted = sorted;
    while sorted.len() > 0
        invariant
            sorted@.len() <= all.len(),
            views_of(sorted@) == all.subrange(0, sorted@.len() as int),
            stack_view(stack@) == below + stacked(all, depth as nat).subrange(
                0,
                all.len() - sorted@.len(),
            ),
        decreases sorted.len(),
    {
        let ghost before = sorted@;
        let ghost held = stack_view(stack@);
        let child = sorted.pop().unwrap();
        proof {
            assert(child@ == views_of(before)[before.len() - 1]);
        }
        stack.push((depth, child));
        proof {
            let k = all.len() - before.len();
            assert(held.push((depth as nat, child@)) =~= below + stacked(
                all,
                depth as nat,
            ).subrange(0, k + 1));
        }
    }
    assert(stacked(all, depth as nat).subrange(0, all.len() as int) =~= stacked(
        all,
        depth as nat,
    ));
    stack
}

/// Goes on with the next entry on the stack.
fn go_on(root: String, items: Vec<(usize, FSItem)>, stack: Vec<(usize, DirChild)>) -> (r: Progress<
    Flattener,
    FlattenedDirTree,
>)
    requires
        consistent(items_view(items@)),
        rising(stack_view(stack@)),
        within(stack_view(stack@), reach(items_view(items@))),
    ensures
        r@ == advance(root@, items_view(items@), stack_view(stack@)),
        !(r is Failed),
        r matches Progress::Done { outcome } ==> consistent(outcome@.items),
{
    let ghost held = stack_view(stack@);
    let mut stack = stack;
    match stack.pop() {
        None => Progress::Done { outcome: FlattenedDirTree { root, items } },
        Some(next) => {
            let (depth, child) = next;
            proof {
                assert(stack_view(stack@) =~= held.drop_last());
                lemma_stack_shrinks(held);
            }
            let DirChild { name, path } = child;
            let (probe, request) = Classifier::begin(name, path);
            Progress::Pending {
                machine: Flattener { root, items, stack, phase: Phase::Child { depth, probe } },
                request,
            }
        },
    }
}

impl Flattener {
    #[verifier::type_invariant]
    spec fn valid(self) -> bool {
        sound(self@)
    }

    /// Takes the reply to the request that this flattener last handed out.
    /// A walk fails with `RootUnreadable` and nothing else.
    pub fn step(self, reply: Reply) -> (r: Progress<Flattener, FlattenedDirTree>)
        ensures
            r@ == flattener_step(self@, reply@),
            r matches Progress::Failed { error } ==> error == ErrorKind::RootUnreadable,
            r matches Progress::Done { outcome } ==> consistent(outcome@.items),
    {
        proof {
            use_type_invariant(&self);
        }
        let Flattener { root, items, stack, phase } = self;
        match phase {
            Phase::Root { probe } => match probe.step(reply) {
                Progress::Pending { machine, request } => Progress::Pending {
                    machine: Flattener { root, items, stack, phase: Phase::Root { probe: machine } },
                    request,
                },
                Progress::Done { outcome } => {
                    if outcome.is_dir() {
                        let request = Request::ListDir { path: root.clone() };
                        Progress::Pending {
                            machine: Flattener {
                                root,
                                items,
                                stack,
                                phase: Phase::Listing { depth: 0 },
                            },
                            request,
                        }
                    } else {
                        Progress::Failed { error: ErrorKind::RootUnreadable }
                    }
                },
                Progress::Failed { error } => Progress::Failed { error },
            },
            Phase::Listing { depth } => match reply {
                Reply::Listing(Ok(children)) => {
                    let ghost held = stack_view(stack@);
                    let sorted = sort_children(children);
                    let stack = push_children(stack, sorted, depth);
                    proof {
                        lemma_stack_grows(
                            held,
                            sorted_by_name(views_of(children@)),
                            depth as nat,
                        );
                    }
                    go_on(root, items, stack)
                },
                _ => Progress::Failed { error: ErrorKind::RootUnreadable },
            },
            Phase::Child { depth, probe } => match probe.step(reply) {
                Progress::Pending { machine, request } => Progress::Pending {
                    machine: Flattener {
                        root,
                        items,
                        stack,
                        phase: Phase::Child { depth, probe: machine },
                    },
                    request,
                },
                Progress::Done { outcome } => {
                    let ghost found = items_view(items@);
                    let ghost entry = outcome@;
                    let listing = if outcome.is_dir() {
                        Some(String::from_str(outcome.path()))
                    } else {
                        None
                    };
                    let mut items = items;
                    items.push((depth, outcome));
                    let count: usize = items.len();
                    proof {
                        assert(items_view(items@) =~= found.push((depth as nat, entry)));
                        lemma_consistent_push(found, depth as nat, entry);
                        assert(depth < count);
                    }
                    match listing {
                        Some(path) => Progress::Pending {
                            machine: Flattener {
                                root,
                                items,
                                stack,
                                phase: Phase::Listing { depth: depth + 1 },
                            },
                            request: Request::ListDir { path },
                        },
                        None => go_on(root, items, stack),
                    }
                },
                Progress::Failed { error } => Progress::Failed { error },
            },
        }
    }
}

} // verus!
