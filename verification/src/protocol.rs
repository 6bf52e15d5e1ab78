//! What the library asks of the file system, and what it is told in return.
//!
//! The library touches no file itself. An allocation or a carving names one
//! operation at a time as a [`Request`]; the caller performs it and hands the
//! outcome back as a [`Reply`]. Other processes may work on the same
//! directories in between, so nothing is assumed of a reply but its shape.

use vstd::prelude::*;

verus! {

/// One operation on the file system.
#[derive(Clone, Debug, PartialEq, Eq)]
pub enum Request {
    /// Create the directory `path` and every missing ancestor; a directory
    /// that is already there is no failure.
    CreateAll { path: String },
    /// Read the names of the entries of the directory `path`.
    List { path: String },
    /// Remove the directory `path` with all that it holds.
    RemoveTree { path: String },
    /// Create the directory `path`, failing if anything is there already.
    CreateDir { path: String },
    /// Remove the link `path` if there is one.
    RemoveLink { path: String },
    /// Create the symbolic link `link` that points to `target`.
    Symlink { target: String, link: String },
}

/// What a [`Request`] stands for.
pub enum RequestView {
    CreateAll { path: Seq<char> },
    List { path: Seq<char> },
    RemoveTree { path: Seq<char> },
    CreateDir { path: Seq<char> },
    RemoveLink { path: Seq<char> },
    Symlink { target: Seq<char>, link: Seq<char> },
}

impl View for Request {
    type V = RequestView;

    open spec fn view(&self) -> RequestView {
        match self {
            Request::CreateAll { path } => RequestView::CreateAll { path: path@ },
            Request::List { path } => RequestView::List { path: path@ },
            Request::RemoveTree { path } => RequestView::RemoveTree { path: path@ },
            Request::CreateDir { path } => RequestView::CreateDir { path: path@ },
            Request::RemoveLink { path } => RequestView::RemoveLink { path: path@ },
            Request::Symlink { target, link } => RequestView::Symlink {
                target: target@,
                link: link@,
            },
        }
    }
}

/// What a request does, in words, with the path that it works on.
pub open spec fn described(request: RequestView) -> Seq<char> {
    match request {
        RequestView::CreateAll { path } => "create the directories of "@ + path,
        RequestView::List { path } => "read the directory "@ + path,
        RequestView::RemoveTree { path } => "remove the directory "@ + path,
        RequestView::CreateDir { path } => "create the directory "@ + path,
        RequestView::RemoveLink { path } => "remove the link "@ + path,
        RequestView::Symlink { target, link } => "create the link "@ + link + " to "@ + target,
    }
}

impl Request {
    /// Says in words what this request does, with the path that it works
    /// on.
    pub fn describe(&self) -> (text: String)
        ensures
            text@ == described(self@),
    {
        match self {
            Request::CreateAll { path } => {
                let mut text = String::from_str("create the directories of ");
                text.append(path.as_str());
                text
            },
            Request::List { path } => {
                let mut text = String::from_str("read the directory ");
                text.append(path.as_str());
                text
            },
            Request::RemoveTree { path } => {
                let mut text = String::from_str("remove the directory ");
                text.append(path.as_str());
                text
            },
            Request::CreateDir { path } => {
                let mut text = String::from_str("create the directory ");
                text.append(path.as_str());
                text
            },
            Request::RemoveLink { path } => {
                let mut text = String::from_str("remove the link ");
                text.append(path.as_str());
                text
            },
            Request::Symlink { target, link } => {
                let mut text = String::from_str("create the link ");
                text.append(link.as_str());
                text.append(" to ");
                text.append(target.as_str());
                text
            },
        }
    }

    /// A copy of this request.
    pub fn duplicate(&self) -> (copy: Request)
        ensures
            copy@ == self@,
    {
        match self {
            Request::CreateAll { path } => Request::CreateAll { path: path.clone() },
            Request::List { path } => Request::List { path: path.clone() },
            Request::RemoveTree { path } => Request::RemoveTree { path: path.clone() },
            Request::CreateDir { path } => Request::CreateDir { path: path.clone() },
            Request::RemoveLink { path } => Request::RemoveLink { path: path.clone() },
            Request::Symlink { target, link } => Request::Symlink {
                target: target.clone(),
                link: link.clone(),
            },
        }
    }
}

/// The outcome of an operation.
#[derive(Clone, Debug, PartialEq, Eq)]
pub enum Reply {
    /// The operation succeeded.
    Done,
    /// The directory to create was already there; the text is the error of
    /// the file system.
    Exists(String),
    /// The operation failed for another reason; the text is the error of the
    /// file system.
    Failed(String),
    /// The entries of the directory that was read, one item each. An entry
    /// that could not be read, or whose name is no text, is an item without a
    /// name.
    Entries(Vec<Option<String>>),
}

/// What a [`Reply`] stands for.
pub enum ReplyView {
    Done,
    Exists(Seq<char>),
    Failed(Seq<char>),
    Entries(Seq<Option<Seq<char>>>),
}

impl View for Reply {
    type V = ReplyView;

    open spec fn view(&self) -> ReplyView {
        match self {
            Reply::Done => ReplyView::Done,
            Reply::Exists(detail) => ReplyView::Exists(detail@),
            Reply::Failed(detail) => ReplyView::Failed(detail@),
            Reply::Entries(listing) => ReplyView::Entries(listing.deep_view()),
        }
    }
}

/// The error text that a reply carries; empty where it carries none.
pub open spec fn detail(reply: ReplyView) -> Seq<char> {
    match reply {
        ReplyView::Exists(detail) => detail,
        ReplyView::Failed(detail) => detail,
        _ => Seq::empty(),
    }
}

/// What is told of a request that failed: what it was to do, and the error
/// of the file system.
pub open spec fn failure_text(request: RequestView, detail: Seq<char>) -> Seq<char> {
    "failed to "@ + described(request) + ": "@ + detail
}

/// Puts into words that `request` failed with the error `detail`.
pub fn describe_failure(request: &Request, detail: &str) -> (text: String)
    ensures
        text@ == failure_text(request@, detail@),
{
    let mut text = String::from_str("failed to ");
    let what = request.describe();
    text.append(what.as_str());
    text.append(": ");
    text.append(detail);
    text
}

/// Takes the error text out of a reply.
pub fn into_detail(reply: Reply) -> (text: String)
    ensures
        text@ == detail(reply@),
{
    match reply {
        Reply::Exists(detail) => detail,
        Reply::Failed(detail) => detail,
        _ => String::new(),
    }
}

} // verus!
