//! The entry classifier: from a path to a typed entry, in at most two
//! operations on the filesystem.

use vstd::prelude::*;
use vstd::string::*;
use crate::error::IoFailure;
use crate::item::{classified, FSItem, FSItemView, Report, ReportView};
use crate::media::HEAD_LEN;
use crate::protocol::{
    DirChild, Metadata, ObjectKind, Progress, ProgressView, Reply, ReplyView, Request, RequestView,
};
use crate::text::{base_name, base_name_of};

verus! {

/// What a classifier is waiting for.
#[derive(Copy, Clone, Debug, PartialEq, Eq, Structural)]
pub enum Stage {
    /// The metadata of the object.
    Stat,
    /// The target of the object, which is a symbolic link.
    Link { metadata: Metadata },
    /// The leading bytes of the object, which is a regular file.
    Head { metadata: Metadata },
}

/// A classification under way.
#[derive(Debug)]
pub struct Classifier {
    name: String,
    path: String,
    stage: Stage,
}

/// The mathematical value of a [`Classifier`].
pub struct ClassifierView {
    pub name: Seq<char>,
    pub path: Seq<char>,
    pub stage: Stage,
}

impl View for Classifier {
    type V = ClassifierView;

    closed spec fn view(&self) -> ClassifierView {
        ClassifierView { name: self.name@, path: self.path@, stage: self.stage }
    }
}

/// How the classification of the object at `path`, called `name`, begins: by
/// asking for its metadata.
pub open spec fn classification(name: Seq<char>, path: Seq<char>) -> ProgressView<
    ClassifierView,
    FSItemView,
> {
    ProgressView::Pending {
        machine: ClassifierView { name, path, stage: Stage::Stat },
        request: RequestView::Stat { path },
    }
}

/// What a classifier does with a reply. The metadata decide what is read
/// next: the target of a link, the head of a regular file, nothing more of
/// anything else. A failure, or a reply of another kind than was asked for,
/// makes the entry invalid.
pub open spec fn classifier_step(c: ClassifierView, reply: ReplyView) -> ProgressView<
    ClassifierView,
    FSItemView,
> {
    match c.stage {
        Stage::Stat => match reply {
            ReplyView::Stat(Ok(stat)) => match stat.kind {
                ObjectKind::Directory => ProgressView::Done {
                    outcome: classified(
                        c.name,
                        c.path,
                        ReportView::Directory { metadata: stat.metadata },
                    ),
                },
                ObjectKind::File => ProgressView::Pending {
                    machine: ClassifierView {
                        name: c.name,
                        path: c.path,
                        stage: Stage::Head { metadata: stat.metadata },
                    },
                    request: RequestView::ReadHead { path: c.path, len: HEAD_LEN },
                },
                ObjectKind::SymLink => ProgressView::Pending {
                    machine: ClassifierView {
                        name: c.name,
                        path: c.path,
                        stage: Stage::Link { metadata: stat.metadata },
                    },
                    request: RequestView::ReadLink { path: c.path },
                },
                ObjectKind::Other => ProgressView::Done {
                    outcome: classified(
                        c.name,
                        c.path,
                        ReportView::Other { metadata: stat.metadata },
                    ),
                },
            },
            ReplyView::Stat(Err(failure)) => ProgressView::Done {
                outcome: classified(c.name, c.path, ReportView::Unavailable { failure }),
            },
            _ => ProgressView::Done {
                outcome: classified(
                    c.name,
                    c.path,
                    ReportView::Unavailable { failure: IoFailure::Other },
                ),
            },
        },
        Stage::Link { metadata } => ProgressView::Done {
            outcome: classified(
                c.name,
                c.path,
                ReportView::SymLink {
                    metadata,
                    target: match reply {
                        ReplyView::Link(r) => r,
                        _ => Err(IoFailure::Other),
                    },
                },
            ),
        },
        Stage::Head { metadata } => ProgressView::Done {
            outcome: classified(
                c.name,
                c.path,
                ReportView::File {
                    metadata,
                    head: match reply {
                        ReplyView::Head(r) => r,
                        _ => Err(IoFailure::Other),
                    },
                },
            ),
        },
    }
}

/// Begins to classify the object at `path`. The entry will carry the base
/// name of the path as its name.
pub fn classify(path: String) -> (r: Progress<Classifier, FSItem>)
    ensures
        r@ == classification(base_name(path@), path@),
{
    let name = base_name_of(path.as_str());
    let (machine, request) = Classifier::begin(name, path);
    Progress::Pending { machine, request }
}

/// Begins to classify an entry of a directory listing. The entry will carry
/// the name and the path that the listing gave.
pub fn classify_child(child: DirChild) -> (r: Progress<Classifier, FSItem>)
    ensures
        r@ == classification(child@.name, child@.path),
{
    let DirChild { name, path } = child;
    let (machine, request) = Classifier::begin(name, path);
    Progress::Pending { machine, request }
}

impl Classifier {
    /// Begins to classify the object at `path` under the name `name`: the
    /// classifier, and the request that it hands out first.
    pub fn begin(name: String, path: String) -> (r: (Classifier, Request))
        ensures
            classification(name@, path@) == (ProgressView::<ClassifierView, FSItemView>::Pending {
                machine: r.0@,
                request: r.1@,
            }),
    {
        let request = Request::Stat { path: path.clone() };
        (Classifier { name, path, stage: Stage::Stat }, request)
    }

    /// Takes the reply to the request that this classifier last handed out.
    /// A classification never fails: whatever goes wrong is recorded in the
    /// entry.
    pub fn step(self, reply: Reply) -> (r: Progress<Classifier, FSItem>)
        ensures
            r@ == classifier_step(self@, reply@),
            !(r is Failed),
            r matches Progress::Done { outcome } ==> outcome@.well_formed(),
    {
        let Classifier { name, path, stage } = self;
        match stage {
            Stage::Stat => match reply {
                Reply::Stat(Ok(stat)) => match stat.kind {
                    ObjectKind::Directory => Progress::Done {
                        outcome: FSItem::new(
                            name,
                            path,
                            Report::Directory { metadata: stat.metadata },
                        ),
                    },
                    ObjectKind::File => {
                        let request = Request::ReadHead { path: path.clone(), len: HEAD_LEN };
                        Progress::Pending {
                            machine: Classifier {
                                name,
                                path,
                                stage: Stage::Head { metadata: stat.metadata },
                            },
                            request,
                        }
                    },
                    ObjectKind::SymLink => {
                        let request = Request::ReadLink { path: path.clone() };
                        Progress::Pending {
                            machine: Classifier {
                                name,
                                path,
                                stage: Stage::Link { metadata: stat.metadata },
                            },
                            request,
                        }
                    },
                    ObjectKind::Other => Progress::Done {
                        outcome: FSItem::new(name, path, Report::Other { metadata: stat.metadata }),
                    },
                },
                Reply::Stat(Err(failure)) => Progress::Done {
                    outcome: FSItem::new(name, path, Report::Unavailable { failure }),
                },
                _ => Progress::Done {
                    outcome: FSItem::new(
                        name,
                        path,
                        Report::Unavailable { failure: IoFailure::Other },
                    ),
                },
            },
            Stage::Link { metadata } => {
                let target = match reply {
                    Reply::Link(r) => r,
                    _ => Err(IoFailure::Other),
                };
                Progress::Done {
                    outcome: FSItem::new(name, path, Report::SymLink { metadata, target }),
                }
            },
            Stage::Head { metadata } => {
                let head = match reply {
                    Reply::Head(r) => r,
                    _ => Err(IoFailure::Other),
                };
                Progress::Done { outcome: FSItem::new(name, path, Report::File { metadata, head }) }
            },
        }
    }
}

} // verus!
