//! The policy that decides whether two entries may be paired for comparison.

use vstd::prelude::*;
use vstd::string::*;
use crate::item::{FSItem, FSItemType, FSItemView, KindView};
use crate::protocol::{Progress, ProgressView, Reply, ReplyView};
use crate::resolve::{following, resolver_step, Resolver, ResolverView};

verus! {

/// Whether two kinds, neither of them a link, may be paired: two
/// directories always, two files when their media types are equal, and
/// nothing else.
pub open spec fn kinds_match(a: KindView, b: KindView) -> bool {
    match (a, b) {
        (KindView::Directory, KindView::Directory) => true,
        (KindView::File { file_type: x }, KindView::File { file_type: y }) => x == y,
        _ => false,
    }
}

/// Which side of a comparison is being resolved.
#[derive(Copy, Clone, Debug, PartialEq, Eq, Structural)]
pub enum Side {
    Left,
    Right,
}

/// A comparison under way: one side is a link that is being resolved.
#[derive(Debug)]
pub struct Comparison {
    side: Side,
    resolver: Resolver,
    other: FSItem,
}

/// The mathematical value of a [`Comparison`]. While the left side is
/// resolved, `other` is the right side as it was given; while the right side
/// is resolved, `other` is the left side after its resolution.
pub struct ComparisonView {
    pub side: Side,
    pub resolver: ResolverView,
    pub other: FSItemView,
}

impl View for Comparison {
    type V = ComparisonView;

    closed spec fn view(&self) -> ComparisonView {
        ComparisonView { side: self.side, resolver: self.resolver@, other: self.other@ }
    }
}

/// A comparison that waits for the resolution of the link on `side`, which
/// names the place `place`.
pub open spec fn awaiting(place: Seq<char>, side: Side, other: FSItemView) -> ProgressView<
    ComparisonView,
    bool,
> {
    match following(place, 1) {
        ProgressView::Pending { machine, request } => ProgressView::Pending {
            machine: ComparisonView { side, resolver: machine, other },
            request,
        },
        _ => ProgressView::Done { outcome: false },
    }
}

/// The comparison of a left side that is no link with any right side.
pub open spec fn against(left: FSItemView, right: FSItemView) -> ProgressView<
    ComparisonView,
    bool,
> {
    match right.link_place() {
        Some(place) => awaiting(place, Side::Right, left),
        None => ProgressView::Done { outcome: kinds_match(left.item_type, right.item_type) },
    }
}

/// How the comparison of two entries begins: the left side is resolved first
/// if it is a link, then the right side.
pub open spec fn comparison(a: FSItemView, b: FSItemView) -> ProgressView<ComparisonView, bool> {
    match a.link_place() {
        Some(place) => awaiting(place, Side::Left, b),
        None => against(a, b),
    }
}

/// What a comparison does with a reply. A link that cannot be resolved is
/// comparable to nothing.
pub open spec fn comparison_step(c: ComparisonView, reply: ReplyView) -> ProgressView<
    ComparisonView,
    bool,
> {
    match resolver_step(c.resolver, reply) {
        ProgressView::Pending { machine, request } => ProgressView::Pending {
            machine: ComparisonView { side: c.side, resolver: machine, other: c.other },
            request,
        },
        ProgressView::Failed { .. } => ProgressView::Done { outcome: false },
        ProgressView::Done { outcome } => match c.side {
            Side::Left => against(outcome, c.other),
            Side::Right => ProgressView::Done {
                outcome: kinds_match(c.other.item_type, outcome.item_type),
            },
        },
    }
}

/// Whether two kinds may be paired as they stand: two directories always,
/// two files when their media types are equal, and nothing else. A link is
/// paired with nothing here; [`comparable`] resolves it first.
pub fn matching(a: &FSItemType, b: &FSItemType) -> (r: bool)
    ensures
        r == kinds_match(a@, b@),
{
    match a {
        FSItemType::Directory => match b {
            FSItemType::Directory => true,
            _ => false,
        },
        FSItemType::File { file_type: x } => match b {
            FSItemType::File { file_type: y } => *x == *y,
            _ => false,
        },
        _ => false,
    }
}

fn wait_for(place: String, side: Side, other: FSItem) -> (r: Progress<Comparison, bool>)
    ensures
        r@ == awaiting(place@, side, other@),
{
    match Resolver::follow(place, 1) {
        Progress::Pending { machine, request } => Progress::Pending {
            machine: Comparison { side, resolver: machine, other },
            request,
        },
        _ => Progress::Done { outcome: false },
    }
}

fn compare_against(left: FSItem, right: FSItem) -> (r: Progress<Comparison, bool>)
    ensures
        r@ == against(left@, right@),
{
    match right.link_place() {
        Some(place) => wait_for(place, Side::Right, left),
        None => Progress::Done { outcome: matching(left.item_type(), right.item_type()) },
    }
}

/// Begins to decide whether the entries `a` and `b` may be paired as the
/// same slot of two trees. Two directories always may; two files may when
/// their media types are equal. A symbolic link stands for what it resolves
/// to, its target taken from the directory that holds the link. A link that
/// cannot be resolved, and an invalid entry, may be paired with nothing. No
/// other combination may be paired.
pub fn comparable(a: FSItem, b: FSItem) -> (r: Progress<Comparison, bool>)
    ensures
        r@ == comparison(a@, b@),
        !(r is Failed),
        !(a@.item_type is SymLink) && !(b@.item_type is SymLink) ==> r == (Progress::<
            Comparison,
            bool,
        >::Done { outcome: kinds_match(a@.item_type, b@.item_type) }),
{
    match a.link_place() {
        Some(place) => wait_for(place, Side::Left, b),
        None => compare_against(a, b),
    }
}

impl Comparison {
    /// Takes the reply to the request that this comparison last handed out.
    pub fn step(self, reply: Reply) -> (r: Progress<Comparison, bool>)
        ensures
            r@ == comparison_step(self@, reply@),
            !(r is Failed),
    {
        let Comparison { side, resolver, other } = self;
        match resolver.step(reply) {
            Progress::Pending { machine, request } => Progress::Pending {
                machine: Comparison { side, resolver: machine, other },
                request,
            },
            Progress::Failed { .. } => Progress::Done { outcome: false },
            Progress::Done { outcome } => match side {
                Side::Left => compare_against(outcome, other),
                Side::Right => Progress::Done {
                    outcome: matching(other.item_type(), outcome.item_type()),
                },
            },
        }
    }
}

/// Two directories may always be paired, two files exactly when their media
/// types are equal, and a directory never with a file. None of these
/// decisions needs the filesystem.
pub proof fn lemma_comparable_without_links(a: FSItemView, b: FSItemView)
    requires
        !(a.item_type is SymLink),
        !(b.item_type is SymLink),
    ensures
        comparison(a, b) == (ProgressView::<ComparisonView, bool>::Done {
            outcome: kinds_match(a.item_type, b.item_type),
        }),
        a.item_type is Directory && b.item_type is Directory ==> kinds_match(
            a.item_type,
            b.item_type,
        ),
        a.item_type is File && b.item_type is File ==> (kinds_match(a.item_type, b.item_type)
            <==> a.item_type->file_type == b.item_type->file_type),
        a.item_type is Directory && b.item_type is File ==> !kinds_match(a.item_type, b.item_type),
        a.item_type is File && b.item_type is Directory ==> !kinds_match(a.item_type, b.item_type),
        a.item_type is Invalid || b.item_type is Invalid ==> !kinds_match(
            a.item_type,
            b.item_type,
        ),
{
}

/// Whether two kinds may be paired does not depend on which is left and
/// which is right.
pub proof fn lemma_kinds_match_symmetric(a: KindView, b: KindView)
    ensures
        kinds_match(a, b) == kinds_match(b, a),
{
}

} // verus!
