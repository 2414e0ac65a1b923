//! Resolution of symbolic links, with a bound on the length of a chain.

use vstd::prelude::*;
use vstd::string::*;
use crate::classify::{classifier_step, Classifier, ClassifierView, Stage};
use crate::error::ErrorKind;
use crate::item::{FSItem, FSItemView, KindView};
use crate::protocol::{Progress, ProgressView, Reply, ReplyView, RequestView};
use crate::text::{base_name, base_name_of, link_destination};

verus! {

/// The longest chain of symbolic links that is followed.
pub const MAX_HOPS: usize = 40;

/// A resolution under way.
#[derive(Debug)]
pub struct Resolver {
    hops: usize,
    probe: Classifier,
}

/// The mathematical value of a [`Resolver`]: how many links have been
/// followed, the classification of the last one's target included, and how
/// far that classification is.
pub struct ResolverView {
    pub hops: nat,
    pub probe: ClassifierView,
}

impl View for Resolver {
    type V = ResolverView;

    closed spec fn view(&self) -> ResolverView {
        ResolverView { hops: self.hops as nat, probe: self.probe@ }
    }
}

/// The `hops`-th link of a chain names the place `target`: that place is
/// classified next.
pub open spec fn following(target: Seq<char>, hops: nat) -> ProgressView<ResolverView, FSItemView> {
    ProgressView::Pending {
        machine: ResolverView {
            hops,
            probe: ClassifierView { name: base_name(target), path: target, stage: Stage::Stat },
        },
        request: RequestView::Stat { path: target },
    }
}

/// How the resolution of an entry begins. Only a symbolic link needs any
/// work: the place that it names is classified. Every other entry is its own
/// resolution.
pub open spec fn resolution(entry: FSItemView) -> ProgressView<ResolverView, FSItemView> {
    match entry.link_place() {
        Some(place) => following(place, 1),
        None => ProgressView::Done { outcome: entry },
    }
}

/// What follows when the target of the `hops`-th link has been classified as
/// `entry`: an invalid target breaks the chain, another link is followed
/// unless the bound is reached, and anything else ends the chain.
pub open spec fn arrived(entry: FSItemView, hops: nat) -> ProgressView<ResolverView, FSItemView> {
    match entry.item_type {
        KindView::Invalid { .. } => ProgressView::Failed { error: ErrorKind::BrokenLink },
        KindView::SymLink { path } => if hops >= MAX_HOPS {
            ProgressView::Failed { error: ErrorKind::SymlinkLoop }
        } else {
            following(link_destination(entry.path, path), hops + 1)
        },
        _ => ProgressView::Done { outcome: entry },
    }
}

/// What a resolver does with a reply.
pub open spec fn resolver_step(r: ResolverView, reply: ReplyView) -> ProgressView<
    ResolverView,
    FSItemView,
> {
    match classifier_step(r.probe, reply) {
        ProgressView::Pending { machine, request } => ProgressView::Pending {
            machine: ResolverView { hops: r.hops, probe: machine },
            request,
        },
        ProgressView::Done { outcome } => arrived(outcome, r.hops),
        ProgressView::Failed { error } => ProgressView::Failed { error },
    }
}

/// Begins to resolve an entry. A directory, a file and an invalid entry are
/// returned as they are. A symbolic link is followed, link after link, until
/// an object is reached that is no link; that object's entry is the outcome.
/// A target that does not start at the root is taken from the directory that
/// holds the link.
/// The resolution fails with `BrokenLink` when a target cannot be classified,
/// and with `SymlinkLoop` when [`MAX_HOPS`] links have been followed and the
/// last one names yet another link.
pub fn resolve(entry: FSItem) -> (r: Progress<Resolver, FSItem>)
    ensures
        r@ == resolution(entry@),
{
    match entry.link_place() {
        Some(place) => Resolver::follow(place, 1),
        None => Progress::Done { outcome: entry },
    }
}

impl Resolver {
    /// Begins to classify the place that the `hops`-th link of a chain
    /// names.
    pub(crate) fn follow(target: String, hops: usize) -> (r: Progress<Resolver, FSItem>)
        ensures
            r@ == following(target@, hops as nat),
    {
        let name = base_name_of(target.as_str());
        let (probe, request) = Classifier::begin(name, target);
        Progress::Pending { machine: Resolver { hops, probe }, request }
    }

    /// Takes the reply to the request that this resolver last handed out.
    pub fn step(self, reply: Reply) -> (r: Progress<Resolver, FSItem>)
        ensures
            r@ == resolver_step(self@, reply@),
            r matches Progress::Failed { error } ==> error == ErrorKind::BrokenLink || error
                == ErrorKind::SymlinkLoop,
            r matches Progress::Done { outcome } ==> outcome@.well_formed()
                && !(outcome@.item_type is SymLink) && !(outcome@.item_type is Invalid),
    {
        let Resolver { hops, probe } = self;
        match probe.step(reply) {
            Progress::Pending { machine, request } => Progress::Pending {
                machine: Resolver { hops, probe: machine },
                request,
            },
            Progress::Done { outcome } => {
                if outcome.is_invalid() {
                    return Progress::Failed { error: ErrorKind::BrokenLink };
                }
                match outcome.link_place() {
                    Some(place) => {
                        if hops >= MAX_HOPS {
                            Progress::Failed { error: ErrorKind::SymlinkLoop }
                        } else {
                            Resolver::follow(place, hops + 1)
                        }
                    },
                    None => Progress::Done { outcome },
                }
            },
            Progress::Failed { error } => Progress::Failed { error },
        }
    }
}

} // verus!
