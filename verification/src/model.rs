//! What the machines compute, stated over a filesystem that answers every
//! request the same way each time it is asked.

use vstd::prelude::*;
use crate::classify::{classification, classifier_step, ClassifierView, Stage};
use crate::compare::{against, comparison, comparison_step, kinds_match, ComparisonView, Side};
use crate::error::{ErrorKind, IoFailure};
use crate::item::{classified, FSItemView, KindView, ReportView};
use crate::media::{detected, HEAD_LEN};
use crate::protocol::{ObjectKind, ProgressView, ReplyView, RequestView, Stat};
use crate::resolve::{arrived, following, resolution, resolver_step, ResolverView, MAX_HOPS};
use crate::text::{base_name, link_destination};

verus! {

/// A filesystem at rest: the reply that it gives to each request.
pub struct World {
    pub answer: spec_fn(RequestView) -> ReplyView,
}

/// Where a machine stands after at most `steps` of its requests have been
/// answered by `world`.
pub open spec fn run<M, T>(
    world: World,
    step: spec_fn(M, ReplyView) -> ProgressView<M, T>,
    from: ProgressView<M, T>,
    steps: nat,
) -> ProgressView<M, T>
    decreases steps,
{
    if steps == 0 {
        from
    } else {
        match from {
            ProgressView::Pending { machine, request } => run(
                world,
                step,
                step(machine, (world.answer)(request)),
                (steps - 1) as nat,
            ),
            _ => from,
        }
    }
}

/// Running for `a` and then for `b` steps is running for `a + b` steps.
pub proof fn lemma_run_add<M, T>(
    world: World,
    step: spec_fn(M, ReplyView) -> ProgressView<M, T>,
    from: ProgressView<M, T>,
    a: nat,
    b: nat,
)
    ensures
        run(world, step, from, a + b) == run(world, step, run(world, step, from, a), b),
    decreases a,
{
    if a > 0 {
        match from {
            ProgressView::Pending { machine, request } => {
                lemma_run_add(
                    world,
                    step,
                    step(machine, (world.answer)(request)),
                    (a - 1) as nat,
                    b,
                );
            },
            _ => {},
        }
    }
}

/// A machine that has ended stays where it is.
pub proof fn lemma_run_ended<M, T>(
    world: World,
    step: spec_fn(M, ReplyView) -> ProgressView<M, T>,
    from: ProgressView<M, T>,
    steps: nat,
    more: nat,
)
    requires
        !(run(world, step, from, steps) is Pending),
    ensures
        run(world, step, from, steps + more) == run(world, step, from, steps),
{
    lemma_run_add(world, step, from, steps, more);
    reveal_with_fuel(run, 2);
}

/// The transition function of the classifier.
pub open spec fn classifier_steps() -> spec_fn(ClassifierView, ReplyView) -> ProgressView<
    ClassifierView,
    FSItemView,
> {
    |c: ClassifierView, reply: ReplyView| classifier_step(c, reply)
}

/// The transition function of the resolver.
pub open spec fn resolver_steps() -> spec_fn(ResolverView, ReplyView) -> ProgressView<
    ResolverView,
    FSItemView,
> {
    |r: ResolverView, reply: ReplyView| resolver_step(r, reply)
}

/// The transition function of the comparison.
pub open spec fn comparison_steps() -> spec_fn(ComparisonView, ReplyView) -> ProgressView<
    ComparisonView,
    bool,
> {
    |c: ComparisonView, reply: ReplyView| comparison_step(c, reply)
}

/// What `world` lets be read of the object at `path`.
pub open spec fn observed(world: World, path: Seq<char>) -> ReportView {
    match (world.answer)(RequestView::Stat { path }) {
        ReplyView::Stat(Ok(stat)) => match stat.kind {
            ObjectKind::Directory => ReportView::Directory { metadata: stat.metadata },
            ObjectKind::File => ReportView::File {
                metadata: stat.metadata,
                head: head_of(world, path),
            },
            ObjectKind::SymLink => ReportView::SymLink {
                metadata: stat.metadata,
                target: target_of(world, path),
            },
            ObjectKind::Other => ReportView::Other { metadata: stat.metadata },
        },
        ReplyView::Stat(Err(failure)) => ReportView::Unavailable { failure },
        _ => ReportView::Unavailable { failure: IoFailure::Other },
    }
}

/// The entry that stands for the object at `path` in `world`, under the name
/// `name`.
pub open spec fn entry_at(world: World, name: Seq<char>, path: Seq<char>) -> FSItemView {
    classified(name, path, observed(world, path))
}

/// The number of requests that the classification of the object at `path`
/// takes: one for its metadata, and one more for the target of a link or the
/// head of a regular file.
pub open spec fn probes(world: World, path: Seq<char>) -> nat {
    match (world.answer)(RequestView::Stat { path }) {
        ReplyView::Stat(Ok(stat)) => if stat.kind is File || stat.kind is SymLink {
            2
        } else {
            1
        },
        _ => 1,
    }
}

/// A classifier that is driven by `world` yields the entry of the object at
/// its path, after one or two requests.
pub proof fn lemma_classifier_faithful(world: World, name: Seq<char>, path: Seq<char>)
    ensures
        run(world, classifier_steps(), classification(name, path), probes(world, path))
            == (ProgressView::<ClassifierView, FSItemView>::Done {
            outcome: entry_at(world, name, path),
        }),
        entry_at(world, name, path).well_formed(),
        entry_at(world, name, path).name == name,
        entry_at(world, name, path).path == path,
{
    reveal_with_fuel(run, 3);
}

/// The metadata that `world` gives for the object at `path`, if it gives
/// any.
pub open spec fn stat_of(world: World, path: Seq<char>) -> Option<Stat> {
    match (world.answer)(RequestView::Stat { path }) {
        ReplyView::Stat(Ok(stat)) => Some(stat),
        _ => None,
    }
}

/// The leading bytes that `world` gives for the file at `path`.
pub open spec fn head_of(world: World, path: Seq<char>) -> Result<Seq<u8>, IoFailure> {
    match (world.answer)(RequestView::ReadHead { path, len: HEAD_LEN }) {
        ReplyView::Head(r) => r,
        _ => Err(IoFailure::Other),
    }
}

/// The target that `world` gives for the link at `path`.
pub open spec fn target_of(world: World, path: Seq<char>) -> Result<Seq<char>, IoFailure> {
    match (world.answer)(RequestView::ReadLink { path }) {
        ReplyView::Link(r) => r,
        _ => Err(IoFailure::Other),
    }
}

/// The kind of an entry is that of the object at its path: a directory for a
/// directory, a file with the media type of its head for a regular file, a
/// link with its target as it is read for a symbolic link. Whatever cannot
/// be read, and any other object, is invalid.
pub proof fn lemma_kind_matches_object(world: World, name: Seq<char>, path: Seq<char>)
    ensures
        ({
            let entry = entry_at(world, name, path);
            let stat = stat_of(world, path);
            let head = head_of(world, path);
            let target = target_of(world, path);
            &&& entry.item_type is Directory <==> stat is Some && stat->0.kind is Directory
            &&& entry.item_type is File <==> stat is Some && stat->0.kind is File && head is Ok
            &&& entry.item_type is SymLink <==> stat is Some && stat->0.kind is SymLink
                && target is Ok
            &&& entry.item_type is File ==> entry.item_type->file_type == detected(head->Ok_0)
            &&& entry.item_type is SymLink ==> entry.item_type->path == target->Ok_0
            &&& stat is Some && stat->0.kind is Other ==> entry.item_type
                == (KindView::Invalid { cause: ErrorKind::UnsupportedObjectType })
            &&& stat is Some && !(entry.item_type is Invalid) ==> entry.metadata == Some(
                stat->0.metadata,
            )
            &&& stat is None ==> entry.item_type is Invalid
        }),
{
}

/// The place that the link at `place` names in `world`, if a link stands
/// there: its target, taken from the directory of the link unless it starts
/// at the root.
pub open spec fn next_place(world: World, place: Seq<char>) -> Option<Seq<char>> {
    entry_at(world, base_name(place), place).link_place()
}

/// Where the chain of links ends that begins at the place `target`, if at
/// most `budget` places are visited: at the entry of the first place that no
/// link stands at. The chain is broken where a place cannot be classified,
/// and too long where the last place visited holds yet another link.
pub open spec fn link_end(world: World, target: Seq<char>, budget: nat) -> Result<
    FSItemView,
    ErrorKind,
>
    decreases budget,
{
    if budget == 0 {
        Err(ErrorKind::SymlinkLoop)
    } else {
        let entry = entry_at(world, base_name(target), target);
        match entry.item_type {
            KindView::Invalid { .. } => Err(ErrorKind::BrokenLink),
            KindView::SymLink { path } => link_end(
                world,
                link_destination(entry.path, path),
                (budget - 1) as nat,
            ),
            _ => Ok(entry),
        }
    }
}

/// What an entry resolves to in `world`: itself if it is no link, and
/// otherwise the end of the chain that begins at the place it names.
pub open spec fn resolved(world: World, entry: FSItemView) -> Result<FSItemView, ErrorKind> {
    match entry.link_place() {
        Some(place) => link_end(world, place, MAX_HOPS as nat),
        None => Ok(entry),
    }
}

/// A resolution as the state in which a resolver ends.
pub open spec fn concluded(end: Result<FSItemView, ErrorKind>) -> ProgressView<
    ResolverView,
    FSItemView,
> {
    match end {
        Ok(entry) => ProgressView::Done { outcome: entry },
        Err(error) => ProgressView::Failed { error },
    }
}

/// The end of a chain is a well-formed entry that is neither a link nor
/// invalid, and a chain fails as broken or as too long, and in no other way.
pub proof fn lemma_link_end(world: World, target: Seq<char>, budget: nat)
    ensures
        link_end(world, target, budget) matches Ok(entry) ==> entry.well_formed() && !(
        entry.item_type is SymLink) && !(entry.item_type is Invalid),
        link_end(world, target, budget) matches Err(error) ==> error == ErrorKind::BrokenLink
            || error == ErrorKind::SymlinkLoop,
    decreases budget,
{
    if budget > 0 {
        let entry = entry_at(world, base_name(target), target);
        lemma_classifier_faithful(world, base_name(target), target);
        match entry.item_type {
            KindView::SymLink { path } => lemma_link_end(
                world,
                link_destination(entry.path, path),
                (budget - 1) as nat,
            ),
            _ => {},
        }
    }
}

/// A link to a link to an object that is neither a link nor invalid
/// resolves to the entry of that object.
pub proof fn lemma_chain_of_two(world: World, first: FSItemView, second: Seq<char>, end: Seq<char>)
    requires
        first.link_place() == Some(second),
        next_place(world, second) == Some(end),
        !(entry_at(world, base_name(end), end).item_type is SymLink),
        !(entry_at(world, base_name(end), end).item_type is Invalid),
    ensures
        resolved(world, first) == Ok::<FSItemView, ErrorKind>(
            entry_at(world, base_name(end), end),
        ),
{
    reveal_with_fuel(link_end, 3);
}

/// Two links that name each other resolve to nothing: following them fails
/// as a loop, whatever the bound.
pub proof fn lemma_cycle_of_two(world: World, a: Seq<char>, b: Seq<char>, budget: nat)
    requires
        next_place(world, a) == Some(b),
        next_place(world, b) == Some(a),
    ensures
        link_end(world, a, budget) == Err::<FSItemView, ErrorKind>(ErrorKind::SymlinkLoop),
        link_end(world, b, budget) == Err::<FSItemView, ErrorKind>(ErrorKind::SymlinkLoop),
    decreases budget,
{
    if budget > 0 {
        lemma_cycle_of_two(world, a, b, (budget - 1) as nat);
    }
}

proof fn lemma_hop(world: World, target: Seq<char>, hops: nat)
    ensures
        run(world, resolver_steps(), following(target, hops), probes(world, target)) == arrived(
            entry_at(world, base_name(target), target),
            hops,
        ),
{
    reveal_with_fuel(run, 3);
}

/// A resolver that has followed `hops - 1` links and is driven by `world`
/// ends where the rest of the chain ends. The number of requests that this
/// takes is returned.
pub proof fn lemma_following_faithful(world: World, target: Seq<char>, hops: nat) -> (n: nat)
    requires
        1 <= hops <= MAX_HOPS,
    ensures
        run(world, resolver_steps(), following(target, hops), n) == concluded(
            link_end(world, target, (MAX_HOPS - hops + 1) as nat),
        ),
        n <= 2 * (MAX_HOPS - hops + 1),
    decreases MAX_HOPS - hops,
{
    let entry = entry_at(world, base_name(target), target);
    let k = probes(world, target);
    lemma_hop(world, target, hops);
    match entry.item_type {
        KindView::SymLink { path } => {
            if hops >= MAX_HOPS {
                reveal_with_fuel(link_end, 2);
                k
            } else {
                let m = lemma_following_faithful(
                    world,
                    link_destination(entry.path, path),
                    hops + 1,
                );
                lemma_run_add(world, resolver_steps(), following(target, hops), k, m);
                k + m
            }
        },
        _ => k,
    }
}

/// A resolver that is driven by `world` yields what the entry resolves to,
/// and asks no more than twice [`MAX_HOPS`] requests.
pub proof fn lemma_resolver_faithful(world: World, entry: FSItemView) -> (n: nat)
    ensures
        run(world, resolver_steps(), resolution(entry), n) == concluded(resolved(world, entry)),
        n <= 2 * MAX_HOPS,
        !(entry.item_type is SymLink) ==> resolved(world, entry) == Ok::<FSItemView, ErrorKind>(
            entry,
        ),
{
    match entry.link_place() {
        Some(place) => lemma_following_faithful(world, place, 1),
        None => 0,
    }
}

/// The kind that an entry stands for in `world`: a link stands for the kind
/// of the entry at the end of its chain, everything else for its own kind.
pub open spec fn end_kind(world: World, entry: FSItemView) -> Result<KindView, ErrorKind> {
    match resolved(world, entry) {
        Ok(end) => Ok(end.item_type),
        Err(error) => Err(error),
    }
}

/// Whether the entries `a` and `b` may be paired in `world`.
pub open spec fn pairable(world: World, a: FSItemView, b: FSItemView) -> bool {
    match (end_kind(world, a), end_kind(world, b)) {
        (Ok(x), Ok(y)) => kinds_match(x, y),
        _ => false,
    }
}

/// What a comparison does when the resolution on `side` has ended.
pub open spec fn settled(end: Result<FSItemView, ErrorKind>, side: Side, other: FSItemView)
    -> ProgressView<ComparisonView, bool> {
    match end {
        Err(_) => ProgressView::Done { outcome: false },
        Ok(entry) => match side {
            Side::Left => against(entry, other),
            Side::Right => ProgressView::Done {
                outcome: kinds_match(other.item_type, entry.item_type),
            },
        },
    }
}

/// A comparison whose resolver has followed `hops - 1` links.
pub open spec fn resolving(target: Seq<char>, hops: nat, side: Side, other: FSItemView)
    -> ProgressView<ComparisonView, bool> {
    ProgressView::Pending {
        machine: ComparisonView {
            side,
            resolver: ResolverView {
                hops,
                probe: ClassifierView { name: base_name(target), path: target, stage: Stage::Stat },
            },
            other,
        },
        request: RequestView::Stat { path: target },
    }
}

proof fn lemma_hop_in_comparison(
    world: World,
    target: Seq<char>,
    hops: nat,
    side: Side,
    other: FSItemView,
)
    ensures
        run(world, comparison_steps(), resolving(target, hops, side, other), probes(world, target))
            == match arrived(entry_at(world, base_name(target), target), hops) {
            ProgressView::Pending { machine, request } => ProgressView::Pending {
                machine: ComparisonView { side, resolver: machine, other },
                request,
            },
            ProgressView::Done { outcome } => settled(Ok(outcome), side, other),
            ProgressView::Failed { error } => settled(Err(error), side, other),
        },
{
    reveal_with_fuel(run, 3);
}

proof fn lemma_resolving_faithful(
    world: World,
    target: Seq<char>,
    hops: nat,
    side: Side,
    other: FSItemView,
) -> (n: nat)
    requires
        1 <= hops <= MAX_HOPS,
    ensures
        run(world, comparison_steps(), resolving(target, hops, side, other), n) == settled(
            link_end(world, target, (MAX_HOPS - hops + 1) as nat),
            side,
            other,
        ),
        n <= 2 * (MAX_HOPS - hops + 1),
    decreases MAX_HOPS - hops,
{
    let entry = entry_at(world, base_name(target), target);
    let k = probes(world, target);
    lemma_hop_in_comparison(world, target, hops, side, other);
    match entry.item_type {
        KindView::SymLink { path } => {
            if hops >= MAX_HOPS {
                reveal_with_fuel(link_end, 2);
                k
            } else {
                let m = lemma_resolving_faithful(
                    world,
                    link_destination(entry.path, path),
                    hops + 1,
                    side,
                    other,
                );
                lemma_run_add(
                    world,
                    comparison_steps(),
                    resolving(target, hops, side, other),
                    k,
                    m,
                );
                k + m
            }
        },
        _ => k,
    }
}

/// A comparison that is driven by `world` decides whether the two entries
/// may be paired there, and asks no more than four times [`MAX_HOPS`]
/// requests.
pub proof fn lemma_comparison_faithful(world: World, a: FSItemView, b: FSItemView) -> (n: nat)
    ensures
        run(world, comparison_steps(), comparison(a, b), n) == (ProgressView::<
            ComparisonView,
            bool,
        >::Done { outcome: pairable(world, a, b) }),
        n <= 4 * MAX_HOPS,
{
    match a.link_place() {
        Some(place) => {
            let n1 = lemma_resolving_faithful(world, place, 1, Side::Left, b);
            lemma_link_end(world, place, MAX_HOPS as nat);
            match link_end(world, place, MAX_HOPS as nat) {
                Ok(entry) => {
                    let n2 = lemma_second_side(world, entry, b);
                    lemma_run_add(world, comparison_steps(), comparison(a, b), n1, n2);
                    n1 + n2
                },
                Err(_) => n1,
            }
        },
        None => lemma_second_side(world, a, b),
    }
}

proof fn lemma_second_side(world: World, left: FSItemView, right: FSItemView) -> (n: nat)
    requires
        !(left.item_type is SymLink),
    ensures
        run(world, comparison_steps(), against(left, right), n) == (ProgressView::<
            ComparisonView,
            bool,
        >::Done {
            outcome: match end_kind(world, right) {
                Ok(y) => kinds_match(left.item_type, y),
                Err(_) => false,
            },
        }),
        n <= 2 * MAX_HOPS,
{
    match right.link_place() {
        Some(place) => lemma_resolving_faithful(world, place, 1, Side::Right, left),
        None => 0,
    }
}

/// Two directories may always be paired; two files exactly when their media
/// types are equal; a directory and a file never; an invalid entry with
/// nothing. This holds in every world, and it does not depend on which entry
/// is left and which is right.
pub proof fn lemma_pairable_kinds(world: World, a: FSItemView, b: FSItemView)
    ensures
        a.item_type is Directory && b.item_type is Directory ==> pairable(world, a, b),
        a.item_type is File && b.item_type is File ==> (pairable(world, a, b)
            <==> a.item_type->file_type == b.item_type->file_type),
        a.item_type is Directory && b.item_type is File ==> !pairable(world, a, b),
        a.item_type is File && b.item_type is Directory ==> !pairable(world, a, b),
        a.item_type is Invalid || b.item_type is Invalid ==> !pairable(world, a, b),
        pairable(world, a, b) == pairable(world, b, a),
{
}

/// A link whose chain cannot be followed to its end may be paired with
/// nothing, another such link included.
pub proof fn lemma_unresolved_link_pairs_with_nothing(world: World, a: FSItemView, b: FSItemView)
    requires
        resolved(world, a) is Err || resolved(world, b) is Err,
    ensures
        !pairable(world, a, b),
{
}

/// A link may be paired with whatever the entry at the end of its chain may
/// be paired with.
pub proof fn lemma_link_pairs_as_its_end(world: World, a: FSItemView, b: FSItemView)
    requires
        resolved(world, a) is Ok,
    ensures
        pairable(world, a, b) == pairable(world, resolved(world, a)->Ok_0, b),
{
    if a.link_place() is Some {
        lemma_link_end(world, a.link_place()->0, MAX_HOPS as nat);
    }
}

} // verus!
