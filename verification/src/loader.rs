//! Loaders: from a name, and what the file system holds there, to sources.
//!
//! A name is a path, rooted or relative to the loader's root. The file loader
//! turns one source file into one source. The directory loader walks a
//! directory and everything below it: entries are taken in the order in which
//! they are listed, a subdirectory's sources stand where the subdirectory
//! stands, and a file that is no source file is passed over. The first
//! failure ends a load.
//!
//! Whether a loader supports a directory is decided by the directory alone,
//! not by what lies below it.

use vstd::prelude::*;
use vstd::string::*;

use crate::error::unsupported_message;
use crate::error::Error;
use crate::error::ErrorView;
use crate::path::below;
use crate::path::extension;
use crate::path::extension_of;
use crate::path::join;
use crate::path::joined;
use crate::path::lemma_below_leads_back;
use crate::path::lemma_child_within;
use crate::path::parts;
use crate::path::plain;
use crate::path::starts_with;
use crate::path::strip_prefix;
use crate::path::within;
use crate::source::Source;
use crate::source::SourceKind;
use crate::source::SourceView;
use crate::text::ends_with;
use crate::text::same_text;
use crate::tree::Entry;
use crate::tree::Node;
use crate::SourceMap;

verus! {

/// The extension of every source file.
pub const ARA_SCRIPT_EXTENSION: &'static str = "ara";

/// The two-part extension of a definition: a file name that ends with a `.`
/// and this belongs to a definition.
pub const ARA_DEFINTION_EXTENSION: &'static str = "d.ara";

/// What a load gave, with views in place of the values.
pub open spec fn outcome(result: Result<SourceMap, Error>) -> Result<Seq<SourceView>, ErrorView> {
    match result {
        Ok(map) => Ok(map@),
        Err(error) => Err(error@),
    }
}

/// The answer to a name that a loader does not support.
pub open spec fn refused(name: Seq<char>) -> Result<Seq<SourceView>, ErrorView> {
    Err(ErrorView::InvalidSource(unsupported_message(name)))
}

/// The file loader's rule: the file lies within the root, is a regular file,
/// and has the script extension.
pub open spec fn file_supported(root: Seq<char>, name: Seq<char>, node: Node) -> bool {
    let file = joined(root, name);
    within(file, root) && node is File && extension_of(file) == Some(ARA_SCRIPT_EXTENSION@)
}

/// What an origin must end with to be a definition's: a `.` and the
/// definition extension.
pub open spec fn definition_suffix() -> Seq<char> {
    seq!['.'] + ARA_DEFINTION_EXTENSION@
}

/// An origin that ends with the definition suffix is a definition's, any
/// other a script's: `lib/std.d.ara` is a definition, `lib/road.ara` a
/// script.
pub open spec fn kind_of(origin: Seq<char>) -> SourceKind {
    if definition_suffix().is_suffix_of(origin) {
        SourceKind::Definition
    } else {
        SourceKind::Script
    }
}

/// The source that stands for the file `name`: located below `root`, with
/// the file's path below the root as its origin, and no content yet.
pub open spec fn file_source(root: Seq<char>, name: Seq<char>) -> SourceView {
    let origin = below(joined(root, name), root)->0;
    SourceView { kind: kind_of(origin), root: Some(root), origin: Some(origin), content: None }
}

/// What the file loader gives: one source for a file that it supports.
pub open spec fn file_loaded(root: Seq<char>, name: Seq<char>, node: Node) -> Result<
    Seq<SourceView>,
    ErrorView,
> {
    if file_supported(root, name, node) {
        Ok(seq![file_source(root, name)])
    } else {
        refused(name)
    }
}

/// The directory loader's rule: the directory lies within the root and is a
/// directory. Its entries are not looked at.
pub open spec fn directory_supported(root: Seq<char>, name: Seq<char>, node: Node) -> bool {
    within(joined(root, name), root) && node.directory()
}

/// What the directory loader gives for the directory `name`: the sources of
/// its entries in their order. A directory that could not be listed gives
/// the failure of the file system.
pub open spec fn directory_loaded(root: Seq<char>, name: Seq<char>, node: Node) -> Result<
    Seq<SourceView>,
    ErrorView,
>
    decreases node, 0nat,
{
    if !directory_supported(root, name, node) {
        refused(name)
    } else {
        match node {
            Node::Unreadable(failure) => Err(ErrorView::IoError(failure@)),
            Node::Directory(entries) => entries_loaded(root, name, entries@, entries@.len() as int),
            _ => refused(name),
        }
    }
}

/// What the first `count` entries of the directory `name` give: what the
/// entries before the last of them give, and behind it what the last gives.
/// A failure is handed on, and nothing behind it is looked at.
pub open spec fn entries_loaded(
    root: Seq<char>,
    name: Seq<char>,
    entries: Seq<Entry>,
    count: int,
) -> Result<Seq<SourceView>, ErrorView>
    decreases entries, count,
{
    if count <= 0 || count > entries.len() {
        Ok(Seq::empty())
    } else {
        match entries_loaded(root, name, entries, count - 1) {
            Err(error) => Err(error),
            Ok(before) => {
                let entry = entries[count - 1];
                match entry_loaded(root, joined(name, entry.name@), entry.node) {
                    Err(error) => Err(error),
                    Ok(found) => Ok(before + found),
                }
            },
        }
    }
}

/// What one entry gives, `name` being the directory's name with the entry's
/// behind it: a directory is loaded in turn, a file that the file loader
/// supports gives its source, and anything else gives nothing.
pub open spec fn entry_loaded(root: Seq<char>, name: Seq<char>, node: Node) -> Result<
    Seq<SourceView>,
    ErrorView,
>
    decreases node, 1nat,
{
    if node.directory() {
        directory_loaded(root, name, node)
    } else if file_supported(root, name, node) {
        file_loaded(root, name, node)
    } else {
        Ok(Seq::empty())
    }
}

/// What the first `count` of the requested directories give together.
pub open spec fn directories_loaded(root: Seq<char>, directories: Seq<Entry>, count: int) -> Result<
    Seq<SourceView>,
    ErrorView,
>
    decreases count,
{
    if count <= 0 || count > directories.len() {
        Ok(Seq::empty())
    } else {
        match directories_loaded(root, directories, count - 1) {
            Err(error) => Err(error),
            Ok(before) => {
                let directory = directories[count - 1];
                match directory_loaded(root, directory.name@, directory.node) {
                    Err(error) => Err(error),
                    Ok(found) => Ok(before + found),
                }
            },
        }
    }
}

/// Something that turns a name into sources. `node` is what the file system
/// holds at the name.
pub trait SourceLoader {
    /// Whether this loader takes the name.
    spec fn supported(&self, name: Seq<char>, node: Node) -> bool;

    /// What this loader gives for the name.
    spec fn loaded(&self, name: Seq<char>, node: Node) -> Result<Seq<SourceView>, ErrorView>;

    /// Whether `load` takes the name.
    fn supports(&self, name: &str, node: &Node) -> (supported: bool)
        ensures
            supported == self.supported(name@, *node),
    ;

    /// The sources that the name stands for. A name that `supports` refuses
    /// is answered with `InvalidSource`, whatever the file system holds.
    fn load(&self, name: &str, node: &Node) -> (result: Result<SourceMap, Error>)
        ensures
            outcome(result) == self.loaded(name@, *node),
            !self.supported(name@, *node) ==> outcome(result) == refused(name@),
    ;

    /// Loads the name and moves what was found behind the sources of `map`.
    /// After a failure `map` is as it was.
    fn load_into(&self, name: &str, node: &Node, map: &mut SourceMap) -> (result: Result<(), Error>)
        ensures
            match self.loaded(name@, *node) {
                Ok(found) => result is Ok && final(map)@ == old(map)@ + found,
                Err(error) => result matches Err(returned) && returned@ == error && final(map)@
                    == old(map)@,
            },
    {
        let mut found = self.load(name, node)?;
        map.merge(&mut found);
        Ok(())
    }
}

/// Turns one source file into one source.
#[derive(Debug)]
pub struct FileSourceLoader {
    pub root: String,
}

impl FileSourceLoader {
    /// A loader for the source files below `root`.
    pub fn new(root: &str) -> (loader: FileSourceLoader)
        ensures
            loader.root@ == root@,
    {
        FileSourceLoader { root: root.to_owned() }
    }
}

impl SourceLoader for FileSourceLoader {
    open spec fn supported(&self, name: Seq<char>, node: Node) -> bool {
        file_supported(self.root@, name, node)
    }

    open spec fn loaded(&self, name: Seq<char>, node: Node) -> Result<Seq<SourceView>, ErrorView> {
        file_loaded(self.root@, name, node)
    }

    fn supports(&self, name: &str, node: &Node) -> (supported: bool) {
        let file = join(self.root.as_str(), name);
        proof {
            assert(self.supported(name@, *node) == file_supported(self.root@, name@, *node));
        }
        if !starts_with(file.as_str(), self.root.as_str()) {
            return false;
        }
        if !node.is_file() {
            return false;
        }
        match extension(file.as_str()) {
            Some(found) => same_text(found.as_str(), ARA_SCRIPT_EXTENSION),
            None => false,
        }
    }

    fn load(&self, name: &str, node: &Node) -> (result: Result<SourceMap, Error>) {
        if !self.supports(name, node) {
            return Err(Error::unsupported(name));
        }
        let file = join(self.root.as_str(), name);
        let origin = strip_prefix(file.as_str(), self.root.as_str()).unwrap();
        let mut suffix = ".".to_owned();
        suffix.append(ARA_DEFINTION_EXTENSION);
        proof {
            reveal_strlit(".");
            assert(suffix@ =~= definition_suffix());
        }
        let kind = if ends_with(origin.as_str(), suffix.as_str()) {
            SourceKind::Definition
        } else {
            SourceKind::Script
        };
        let mut sources: Vec<Source> = Vec::new();
        sources.push(Source::new(kind, self.root.as_str(), origin.as_str()));
        let map = SourceMap::new(sources);
        proof {
            assert(map@ =~= seq![file_source(self.root@, name@)]);
        }
        Ok(map)
    }
}

/// Walks a directory and everything below it, and hands each file to its
/// file loader.
#[derive(Debug)]
pub struct DirectorySourceLoader {
    root: String,
    loader: FileSourceLoader,
}

impl DirectorySourceLoader {
    /// The file loader works below the same root.
    #[verifier::type_invariant]
    spec fn same_root(self) -> bool {
        self.loader.root@ == self.root@
    }

    /// The root below which this loader works.
    pub closed spec fn base(&self) -> Seq<char> {
        self.root@
    }

    /// A loader for the directories below `root`, with a file loader for
    /// the same root.
    pub fn new(root: &str) -> (loader: DirectorySourceLoader)
        ensures
            loader.base() == root@,
    {
        DirectorySourceLoader { root: root.to_owned(), loader: FileSourceLoader::new(root) }
    }

    /// The root below which this loader works.
    pub fn root(&self) -> (root: &str)
        ensures
            root@ == self.base(),
    {
        self.root.as_str()
    }
}

impl SourceLoader for DirectorySourceLoader {
    open spec fn supported(&self, name: Seq<char>, node: Node) -> bool {
        directory_supported(self.base(), name, node)
    }

    open spec fn loaded(&self, name: Seq<char>, node: Node) -> Result<Seq<SourceView>, ErrorView> {
        directory_loaded(self.base(), name, node)
    }

    fn supports(&self, name: &str, node: &Node) -> (supported: bool) {
        let directory = join(self.root.as_str(), name);
        proof {
            assert(self.supported(name@, *node) == directory_supported(self.base(), name@, *node));
        }
        if !starts_with(directory.as_str(), self.root.as_str()) {
            return false;
        }
        if !node.is_dir() {
            return false;
        }
        true
    }

    fn load(&self, name: &str, node: &Node) -> (result: Result<SourceMap, Error>)
        decreases *node,
    {
        if !self.supports(name, node) {
            return Err(Error::unsupported(name));
        }
        let entries = match node {
            Node::Directory(entries) => entries,
            Node::Unreadable(failure) => {
                return Err(Error::IoError(failure.clone()));
            },
            _ => {
                return Err(Error::unsupported(name));
            },
        };
        let mut map = SourceMap::new(Vec::new());
        let mut i: usize = 0;
        proof {
            use_type_invariant(self);
            assert(map@ =~= Seq::<SourceView>::empty());
        }
        while i < entries.len()
            invariant
                i <= entries.len(),
                *node == Node::Directory(*entries),
                self.loader.root@ == self.root@,
                directory_supported(self.base(), name@, *node),
                entries_loaded(self.base(), name@, entries@, i as int) == Ok::<
                    Seq<SourceView>,
                    ErrorView,
                >(map@),
            decreases entries.len() - i,
        {
            let entry = &entries[i];
            let path = join(name, entry.name.as_str());
            proof {
                assert(entries_loaded(self.base(), name@, entries@, i + 1) == match entry_loaded(
                    self.base(),
                    path@,
                    entry.node,
                ) {
                    Err(error) => Err::<Seq<SourceView>, ErrorView>(error),
                    Ok(found) => Ok(map@ + found),
                });
                if entries_loaded(self.base(), name@, entries@, i + 1) is Err {
                    lemma_entries_failure_stays(
                        self.base(),
                        name@,
                        entries@,
                        i + 1,
                        entries@.len() as int,
                    );
                }
            }
            if entry.node.is_dir() {
                let mut found = self.load(path.as_str(), &entry.node)?;
                map.merge(&mut found);
            } else if self.loader.supports(path.as_str(), &entry.node) {
                self.loader.load_into(path.as_str(), &entry.node, &mut map)?;
            }
            i += 1;
        }
        Ok(map)
    }
}

/// Loads the given directories below `root` into one map, in their order.
/// Each entry of `directories` holds a directory's name, rooted or relative
/// to `root`, and what the file system holds there. The first failure ends
/// the load and is returned.
pub fn load_directories(root: &str, directories: &Vec<Entry>) -> (result: Result<SourceMap, Error>)
    ensures
        outcome(result) == directories_loaded(root@, directories@, directories@.len() as int),
{
    let mut map = SourceMap::new(Vec::new());
    let loader = DirectorySourceLoader::new(root);
    let mut i: usize = 0;
    proof {
        assert(map@ =~= Seq::<SourceView>::empty());
    }
    while i < directories.len()
        invariant
            i <= directories.len(),
            loader.base() == root@,
            directories_loaded(root@, directories@, i as int) == Ok::<Seq<SourceView>, ErrorView>(
                map@,
            ),
        decreases directories.len() - i,
    {
        let directory = &directories[i];
        proof {
            if directories_loaded(root@, directories@, i + 1) is Err {
                lemma_directories_failure_stays(
                    root@,
                    directories@,
                    i + 1,
                    directories@.len() as int,
                );
            }
        }
        loader.load_into(directory.name.as_str(), &directory.node, &mut map)?;
        i += 1;
    }
    Ok(map)
}

/// A name that a loader does not support is an invalid source, whatever the
/// file system holds there: never a failure of the file system. A file that
/// the file loader supports always gives its source.
pub proof fn lemma_unsupported_is_invalid(root: Seq<char>, name: Seq<char>, node: Node)
    ensures
        !file_supported(root, name, node) ==> file_loaded(root, name, node) == refused(name),
        !directory_supported(root, name, node) ==> directory_loaded(root, name, node) == refused(
            name,
        ),
        file_supported(root, name, node) ==> file_loaded(root, name, node) is Ok,
{
}

/// A source is read from the file that was found: the path of the source
/// that the file loader gives, its origin behind its root, leads part by part
/// to the file that the loader was asked for.
pub proof fn lemma_source_leads_to_file(root: Seq<char>, name: Seq<char>, node: Node)
    requires
        file_supported(root, name, node),
    ensures
        file_source(root, name).path() matches Some(path) && parts(path) == parts(
            joined(root, name),
        ),
{
    lemma_below_leads_back(joined(root, name), root);
}

/// An entry that is no directory and that the file loader does not support
/// is passed over: it gives no source and no failure.
pub proof fn lemma_other_files_are_passed_over(root: Seq<char>, name: Seq<char>, node: Node)
    requires
        !node.directory(),
        !file_supported(root, name, node),
    ensures
        entry_loaded(root, name, node) == Ok::<Seq<SourceView>, ErrorView>(Seq::empty()),
{
}

/// A directory that the directory loader supports is never an invalid
/// source, as long as the entries below it have plain names: the load gives
/// sources, or hands on a failure of the file system.
pub proof fn lemma_supported_directory_loads(root: Seq<char>, name: Seq<char>, node: Node)
    requires
        directory_supported(root, name, node),
        node.listed(),
    ensures
        directory_loaded(root, name, node) matches Err(error) ==> error is IoError,
    decreases node, 0nat,
{
    match node {
        Node::Directory(entries) => {
            lemma_supported_entries_load(root, name, entries@, entries@.len() as int);
        },
        _ => {},
    }
}

/// The entries of a directory within the root, plain names below them, never
/// make an invalid source.
pub proof fn lemma_supported_entries_load(
    root: Seq<char>,
    name: Seq<char>,
    entries: Seq<Entry>,
    count: int,
)
    requires
        within(joined(root, name), root),
        forall|i: int|
            0 <= i < entries.len() ==> plain((#[trigger] entries[i]).name@)
                && entries[i].node.listed(),
        0 <= count <= entries.len(),
    ensures
        entries_loaded(root, name, entries, count) matches Err(error) ==> error is IoError,
    decreases entries, count,
{
    if count > 0 {
        lemma_supported_entries_load(root, name, entries, count - 1);
        let entry = entries[count - 1];
        let path = joined(name, entry.name@);
        if entry.node.directory() {
            lemma_child_within(root, name, entry.name@);
            lemma_supported_directory_loads(root, path, entry.node);
        }
        assert(entry_loaded(root, path, entry.node) matches Err(error) ==> error is IoError);
    }
}

/// A directory that the directory loader supports gives its sources, as long
/// as the entries below it have plain names and every directory below it
/// could be listed.
pub proof fn lemma_readable_directory_loads(root: Seq<char>, name: Seq<char>, node: Node)
    requires
        directory_supported(root, name, node),
        node.listed(),
        node.readable(),
    ensures
        directory_loaded(root, name, node) is Ok,
    decreases node, 0nat,
{
    match node {
        Node::Directory(entries) => {
            lemma_readable_entries_load(root, name, entries@, entries@.len() as int);
        },
        _ => {},
    }
}

/// The entries of a directory within the root give their sources, as long as
/// the names below are plain and every directory below could be listed.
pub proof fn lemma_readable_entries_load(
    root: Seq<char>,
    name: Seq<char>,
    entries: Seq<Entry>,
    count: int,
)
    requires
        within(joined(root, name), root),
        forall|i: int|
            0 <= i < entries.len() ==> plain((#[trigger] entries[i]).name@)
                && entries[i].node.listed() && entries[i].node.readable(),
        0 <= count <= entries.len(),
    ensures
        entries_loaded(root, name, entries, count) is Ok,
    decreases entries, count,
{
    if count > 0 {
        lemma_readable_entries_load(root, name, entries, count - 1);
        let entry = entries[count - 1];
        let path = joined(name, entry.name@);
        if entry.node.directory() {
            lemma_child_within(root, name, entry.name@);
            lemma_readable_directory_loads(root, path, entry.node);
        }
        assert(entry_loaded(root, path, entry.node) is Ok);
    }
}

/// A directory that the directory loader supports, and below which some
/// directory could not be listed, fails with a failure of the file system,
/// as long as the entries below it have plain names.
pub proof fn lemma_unreadable_directory_fails(root: Seq<char>, name: Seq<char>, node: Node)
    requires
        directory_supported(root, name, node),
        node.listed(),
        !node.readable(),
    ensures
        directory_loaded(root, name, node) matches Err(error) && error is IoError,
    decreases node, 0nat,
{
    lemma_supported_directory_loads(root, name, node);
    match node {
        Node::Directory(entries) => {
            let at = choose|i: int|
                0 <= i < entries@.len() && !(#[trigger] entries@[i]).node.readable();
            lemma_unreadable_entries_fail(root, name, entries@, entries@.len() as int, at);
        },
        _ => {},
    }
}

/// The entries of a directory within the root fail once one of them holds a
/// directory that could not be listed.
pub proof fn lemma_unreadable_entries_fail(
    root: Seq<char>,
    name: Seq<char>,
    entries: Seq<Entry>,
    count: int,
    at: int,
)
    requires
        within(joined(root, name), root),
        forall|i: int|
            0 <= i < entries.len() ==> plain((#[trigger] entries[i]).name@)
                && entries[i].node.listed(),
        0 <= at < count <= entries.len(),
        !entries[at].node.readable(),
    ensures
        entries_loaded(root, name, entries, count) is Err,
    decreases entries, count,
{
    if at < count - 1 {
        lemma_unreadable_entries_fail(root, name, entries, count - 1, at);
    } else {
        let entry = entries[at];
        let path = joined(name, entry.name@);
        assert(entry.node.directory());
        lemma_child_within(root, name, entry.name@);
        lemma_unreadable_directory_fails(root, path, entry.node);
        assert(entry_loaded(root, path, entry.node) is Err);
    }
}

/// A source as a loader leaves it: located below the root, of the kind that
/// its origin tells, and with no content yet.
pub open spec fn as_loaded(source: SourceView, root: Seq<char>) -> bool {
    &&& source.root == Some(root)
    &&& source.origin is Some
    &&& source.kind == kind_of(source.origin->0)
    &&& source.content is None
}

/// Every source that the directory loader gives is as a loader leaves it.
pub proof fn lemma_directory_sources_as_loaded(root: Seq<char>, name: Seq<char>, node: Node)
    ensures
        directory_loaded(root, name, node) matches Ok(found) ==> forall|i: int|
            0 <= i < found.len() ==> as_loaded(#[trigger] found[i], root),
    decreases node, 0nat,
{
    match node {
        Node::Directory(entries) => {
            lemma_entries_sources_as_loaded(root, name, entries@, entries@.len() as int);
        },
        _ => {},
    }
}

/// Every source that the entries of a directory give is as a loader leaves
/// it.
pub proof fn lemma_entries_sources_as_loaded(
    root: Seq<char>,
    name: Seq<char>,
    entries: Seq<Entry>,
    count: int,
)
    ensures
        entries_loaded(root, name, entries, count) matches Ok(found) ==> forall|i: int|
            0 <= i < found.len() ==> as_loaded(#[trigger] found[i], root),
    decreases entries, count,
{
    if 0 < count <= entries.len() {
        lemma_entries_sources_as_loaded(root, name, entries, count - 1);
        let entry = entries[count - 1];
        let path = joined(name, entry.name@);
        if entry.node.directory() {
            lemma_directory_sources_as_loaded(root, path, entry.node);
        }
        assert(entry_loaded(root, path, entry.node) matches Ok(found) ==> forall|i: int|
            0 <= i < found.len() ==> as_loaded(#[trigger] found[i], root));
    }
}

/// Every source that `load_directories` gives is as a loader leaves it.
pub proof fn lemma_directories_sources_as_loaded(
    root: Seq<char>,
    directories: Seq<Entry>,
    count: int,
)
    ensures
        directories_loaded(root, directories, count) matches Ok(found) ==> forall|i: int|
            0 <= i < found.len() ==> as_loaded(#[trigger] found[i], root),
    decreases count,
{
    if 0 < count <= directories.len() {
        lemma_directories_sources_as_loaded(root, directories, count - 1);
        let directory = directories[count - 1];
        lemma_directory_sources_as_loaded(root, directory.name@, directory.node);
    }
}

/// Once an entry has failed, the load of the directory fails in the same way,
/// whatever comes behind that entry.
pub proof fn lemma_entries_failure_stays(
    root: Seq<char>,
    name: Seq<char>,
    entries: Seq<Entry>,
    count: int,
    total: int,
)
    requires
        0 <= count <= total <= entries.len(),
        entries_loaded(root, name, entries, count) is Err,
    ensures
        entries_loaded(root, name, entries, total) == entries_loaded(root, name, entries, count),
    decreases total - count,
{
    if count < total {
        lemma_entries_failure_stays(root, name, entries, count, total - 1);
    }
}

/// Once a directory has failed, the whole load fails in the same way,
/// whatever directories come behind it.
pub proof fn lemma_directories_failure_stays(
    root: Seq<char>,
    directories: Seq<Entry>,
    count: int,
    total: int,
)
    requires
        0 <= count <= total <= directories.len(),
        directories_loaded(root, directories, count) is Err,
    ensures
        directories_loaded(root, directories, total) == directories_loaded(
            root,
            directories,
            count,
        ),
    decreases total - count,
{
    if count < total {
        lemma_directories_failure_stays(root, directories, count, total - 1);
    }
}

} // verus!
