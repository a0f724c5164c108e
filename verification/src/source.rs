//! One unit of code: a file below a root, or text given directly.

use std::sync::Arc;
use vstd::prelude::*;
use vstd::string::*;

use crate::error::IoFailure;
use crate::error::IoFailureView;
use crate::hash::ContentHasher;
use crate::hash::FxHasher;
use crate::path::join;
use crate::path::joined;

verus! {

/// The name of a source that has no origin.
pub const DEFAULT_NAME: &'static str = "<unknown>";

#[derive(Debug, PartialEq, Eq, Clone, Copy, Structural)]
pub enum SourceKind {
    /// Code that is not executed, but declares symbols that live elsewhere.
    Definition,
    /// Code that is executed.
    Script,
}

/// A source is either located or inline. A located source has a root and an
/// origin, the path of its file below the root; its content is read when it
/// is first asked for, kept, and can be let go again. An inline source has
/// neither root nor origin and always carries its content.
#[derive(Debug, PartialEq, Eq)]
pub struct Source {
    pub kind: SourceKind,
    pub root: Option<String>,
    pub origin: Option<String>,
    pub content: Option<Arc<String>>,
    pub hasher: FxHasher,
}

pub struct SourceView {
    pub kind: SourceKind,
    pub root: Option<Seq<char>>,
    pub origin: Option<Seq<char>>,
    pub content: Option<Seq<char>>,
}

/// The text of a string that may be absent.
pub open spec fn text_of(string: Option<String>) -> Option<Seq<char>> {
    match string {
        Some(s) => Some(s@),
        None => None,
    }
}

/// The text of a shared string that may be absent.
pub open spec fn shared_text(string: Option<Arc<String>>) -> Option<Seq<char>> {
    match string {
        Some(s) => Some(s@),
        None => None,
    }
}

/// What asking for the content brought: the text, or the failure.
pub open spec fn content_outcome(result: Result<Arc<String>, IoFailure>) -> Result<
    Seq<char>,
    IoFailureView,
> {
    match result {
        Ok(text) => Ok(text@),
        Err(failure) => Err(failure@),
    }
}

/// `Arc::clone` of std: one more owner of the same string, which is not
/// copied.
#[verifier::external_body]
fn share(text: &Arc<String>) -> (shared: Arc<String>)
    ensures
        shared == *text,
{
    Arc::clone(text)
}

/// What reading a file brought: its text, or the failure.
pub open spec fn outcome(read: Result<String, IoFailure>) -> Result<Seq<char>, IoFailureView> {
    match read {
        Ok(text) => Ok(text@),
        Err(failure) => Err(failure@),
    }
}

/// What asking for a digest brought: the digest, or the failure.
pub open spec fn digest_outcome(result: Result<u64, IoFailure>) -> Result<u64, IoFailureView> {
    match result {
        Ok(digest) => Ok(digest),
        Err(failure) => Err(failure@),
    }
}

/// What a read of a source's file brought, where one was made.
pub open spec fn read_view(read: Option<Result<String, IoFailure>>) -> Option<
    Result<Seq<char>, IoFailureView>,
> {
    match read {
        Some(made) => Some(outcome(made)),
        None => None,
    }
}

impl View for Source {
    type V = SourceView;

    open spec fn view(&self) -> SourceView {
        SourceView {
            kind: self.kind,
            root: text_of(self.root),
            origin: text_of(self.origin),
            content: shared_text(self.content),
        }
    }
}

impl SourceView {
    /// It has a root and an origin, and so a file to read its content from.
    pub open spec fn located(self) -> bool {
        self.root is Some && self.origin is Some
    }

    /// It has neither root nor origin, and carries its content.
    pub open spec fn inline(self) -> bool {
        self.root is None && self.origin is None && self.content is Some
    }

    /// Every source is located or inline.
    pub open spec fn well_formed(self) -> bool {
        self.located() || self.inline()
    }

    /// The origin, or the default name where there is none.
    pub open spec fn name(self) -> Seq<char> {
        match self.origin {
            Some(origin) => origin,
            None => DEFAULT_NAME@,
        }
    }

    /// The path of the file: the origin put behind the root.
    pub open spec fn path(self) -> Option<Seq<char>> {
        if self.located() {
            Some(joined(self.root->0, self.origin->0))
        } else {
            None
        }
    }

    /// The file that has to be read before the content can be handed out:
    /// none while content is kept.
    pub open spec fn pending_read(self) -> Option<Seq<char>> {
        if self.content is None {
            self.path()
        } else {
            None
        }
    }

    /// The source once its content was asked for, `read` being what the read
    /// of its file brought: content that is kept stays, and a text that was
    /// read is kept from then on.
    pub open spec fn after_access(self, read: Option<Result<Seq<char>, IoFailureView>>) -> SourceView {
        match (self.content, read) {
            (None, Some(Ok(text))) => SourceView { content: Some(text), ..self },
            _ => self,
        }
    }

    /// What asking for the content gives: the content that is kept, else
    /// what the read brought.
    pub open spec fn accessed(self, read: Option<Result<Seq<char>, IoFailureView>>) -> Result<
        Seq<char>,
        IoFailureView,
    > {
        match self.content {
            Some(text) => Ok(text),
            None => read->0,
        }
    }

    /// The digest of the content that asking for it gives.
    pub open spec fn digested<H: ContentHasher>(
        self,
        hasher: H,
        read: Option<Result<Seq<char>, IoFailureView>>,
    ) -> Result<u64, IoFailureView> {
        match self.accessed(read) {
            Ok(text) => Ok(hasher.digest(text)),
            Err(failure) => Err(failure),
        }
    }

    /// The source once its content was let go: an inline source keeps it.
    pub open spec fn disposed(self) -> SourceView {
        if self.located() {
            SourceView { content: None, ..self }
        } else {
            self
        }
    }
}

impl Clone for Source {
    fn clone(&self) -> (copy: Self)
        ensures
            copy@ == self@,
    {
        Source {
            kind: self.kind,
            root: self.root.clone(),
            origin: self.origin.clone(),
            content: match &self.content {
                Some(text) => Some(share(text)),
                None => None,
            },
            hasher: self.hasher,
        }
    }
}

impl Source {
    /// A located source: the file `origin` below `root`, its content not yet
    /// read.
    pub fn new(kind: SourceKind, root: &str, origin: &str) -> (source: Source)
        ensures
            source@ == (SourceView {
                kind,
                root: Some(root@),
                origin: Some(origin@),
                content: None,
            }),
            source@.located(),
    {
        Source {
            kind,
            root: Some(root.to_owned()),
            origin: Some(origin.to_owned()),
            content: None,
            hasher: FxHasher::new(),
        }
    }

    /// An inline source that carries `content`.
    pub fn inline(kind: SourceKind, content: &str) -> (source: Source)
        ensures
            source@ == (SourceView { kind, root: None, origin: None, content: Some(content@) }),
            source@.inline(),
    {
        Source {
            kind,
            root: None,
            origin: None,
            content: Some(Arc::new(content.to_owned())),
            hasher: FxHasher::new(),
        }
    }

    /// The origin, or `DEFAULT_NAME` where there is none.
    pub fn name(&self) -> (name: &str)
        ensures
            name@ == self@.name(),
    {
        match &self.origin {
            Some(origin) => origin.as_str(),
            None => DEFAULT_NAME,
        }
    }

    /// The path of the source's file, for a source that has a root and an
    /// origin.
    pub fn source_path(&self) -> (path: Option<String>)
        ensures
            text_of(path) == self@.path(),
    {
        match (&self.root, &self.origin) {
            (Some(root), Some(origin)) => Some(join(root.as_str(), origin.as_str())),
            _ => None,
        }
    }

    /// The file that the caller has to read before it asks for the content
    /// or its digest: none while content is kept.
    pub fn pending_read(&self) -> (path: Option<String>)
        ensures
            text_of(path) == self@.pending_read(),
    {
        if self.content.is_some() {
            None
        } else {
            self.source_path()
        }
    }

    /// The content. Content that is kept is handed out and `read` is not
    /// looked at. Otherwise `read` is what reading the file at
    /// `pending_read()` brought: a text is kept and handed out, a failure is
    /// handed on and nothing is kept.
    pub fn content(&mut self, read: Option<Result<String, IoFailure>>) -> (result: Result<
        Arc<String>,
        IoFailure,
    >)
        requires
            old(self).content is None ==> read is Some && old(self)@.located(),
        ensures
            final(self)@ == old(self)@.after_access(read_view(read)),
            content_outcome(result) == old(self)@.accessed(read_view(read)),
    {
        match &self.content {
            Some(text) => Ok(share(text)),
            None => match read {
                Some(Ok(text)) => {
                    let text = Arc::new(text);
                    self.content = Some(share(&text));
                    Ok(text)
                },
                Some(Err(failure)) => Err(failure),
                None => vstd::pervasive::unreached(),
            },
        }
    }

    /// The digest of the content, which is obtained as `content` obtains it.
    pub fn hash(&mut self, read: Option<Result<String, IoFailure>>) -> (result: Result<
        u64,
        IoFailure,
    >)
        requires
            old(self).content is None ==> read is Some && old(self)@.located(),
        ensures
            final(self)@ == old(self)@.after_access(read_view(read)),
            digest_outcome(result) == old(self)@.digested(old(self).hasher, read_view(read)),
    {
        match self.content(read) {
            Ok(text) => Ok(self.hasher.hash(text.as_str())),
            Err(failure) => Err(failure),
        }
    }

    /// Lets the kept content of a located source go; it is read again when
    /// it is next asked for. An inline source keeps its content: it has no
    /// file to read it from again.
    pub fn dispose_content(&mut self)
        ensures
            final(self)@ == old(self)@.disposed(),
    {
        if self.root.is_some() && self.origin.is_some() {
            self.content = None;
        }
    }
}

/// Content is read once. Once a read has brought the text of a located
/// source, no read is pending: asking again gives the same text and leaves
/// the source as it is, whatever is handed in as a read. Letting the content
/// go makes the read of the same file pending again.
pub proof fn lemma_content_is_read_once(
    source: SourceView,
    text: Seq<char>,
    again: Option<Result<Seq<char>, IoFailureView>>,
)
    requires
        source.located(),
        source.content is None,
    ensures
        source.pending_read() == source.path(),
        source.pending_read() is Some,
        source.accessed(Some(Ok(text))) == Ok::<Seq<char>, IoFailureView>(text),
        source.after_access(Some(Ok(text))).pending_read() is None,
        source.after_access(Some(Ok(text))).accessed(again) == Ok::<Seq<char>, IoFailureView>(
            text,
        ),
        source.after_access(Some(Ok(text))).after_access(again) == source.after_access(
            Some(Ok(text)),
        ),
        source.after_access(Some(Ok(text))).disposed() == source,
{
}

/// A source stays located or inline, whatever is asked of it.
pub proof fn lemma_stays_well_formed(
    source: SourceView,
    read: Option<Result<Seq<char>, IoFailureView>>,
)
    requires
        source.well_formed(),
    ensures
        source.after_access(read).well_formed(),
        source.disposed().well_formed(),
        source.after_access(read).located() == source.located(),
        source.disposed().located() == source.located(),
{
}

/// An inline source never asks for a read, and letting its content go
/// changes nothing.
pub proof fn lemma_inline_keeps_content(source: SourceView)
    requires
        source.inline(),
    ensures
        source.pending_read() is None,
        source.disposed() == source,
        source.disposed().accessed(None) == Ok::<Seq<char>, IoFailureView>(source.content->0),
{
}

/// The digest goes by the content alone. While a source keeps its content,
/// asking for the digest gives the same value every time and leaves the
/// source as it is; two sources that keep equal content have equal digests.
pub proof fn lemma_digest_goes_by_content<H: ContentHasher>(
    hasher: H,
    first: SourceView,
    second: SourceView,
    read: Option<Result<Seq<char>, IoFailureView>>,
    again: Option<Result<Seq<char>, IoFailureView>>,
)
    requires
        first.content is Some,
        second.content == first.content,
    ensures
        first.after_access(read) == first,
        first.digested(hasher, read) == first.digested(hasher, again),
        first.digested(hasher, read) == second.digested(hasher, again),
        first.digested(hasher, read) == Ok::<u64, IoFailureView>(hasher.digest(first.content->0)),
{
}

} // verus!
