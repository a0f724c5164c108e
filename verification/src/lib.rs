//! Discovery and bookkeeping of the source files of a project.
//!
//! A `Source` is one unit of code, a `SourceMap` an ordered collection of
//! sources, and the loaders of `loader` fill such a collection from the
//! directories of a project. Nothing here reads a disk: a loader is handed
//! what the file system holds as a `tree::Node`, and a source is handed what
//! the read of its file brought.

use vstd::prelude::*;

use crate::error::Error;
use crate::error::ErrorView;
use crate::source::Source;
use crate::source::SourceView;
use crate::text::decimal;
use crate::text::same_text;
use crate::text::to_decimal;

pub mod error;
pub mod hash;
pub mod loader;
pub mod path;
pub mod source;
pub mod text;
pub mod tree;

verus! {

/// Sources in the order in which they were added. The first has index 1.
#[derive(Debug)]
pub struct SourceMap {
    pub sources: Vec<Source>,
}

/// The views of a sequence of sources.
pub open spec fn views(sources: Seq<Source>) -> Seq<SourceView> {
    sources.map_values(|source: Source| source@)
}

/// The source with the 1-based `index`.
pub open spec fn at(sources: Seq<SourceView>, index: int) -> Option<SourceView> {
    if 1 <= index <= sources.len() {
        Some(sources[index - 1])
    } else {
        None
    }
}

/// Where the first source with the origin `name` stands, counted from 0.
pub open spec fn position(sources: Seq<SourceView>, name: Seq<char>) -> Option<int>
    decreases sources.len(),
{
    if sources.len() == 0 {
        None
    } else {
        match position(sources.drop_last(), name) {
            Some(found) => Some(found),
            None => if sources.last().origin == Some(name) {
                Some(sources.len() - 1)
            } else {
                None
            },
        }
    }
}

impl View for SourceMap {
    type V = Seq<SourceView>;

    open spec fn view(&self) -> Seq<SourceView> {
        views(self.sources@)
    }
}

impl SourceMap {
    /// A collection that holds the given sources in their order.
    pub fn new(sources: Vec<Source>) -> (map: SourceMap)
        ensures
            map.sources == sources,
            map@ == views(sources@),
    {
        SourceMap { sources }
    }

    /// Appends one source.
    pub fn add(&mut self, source: Source)
        ensures
            final(self).sources@ == old(self).sources@.push(source),
            final(self)@ == old(self)@.push(source@),
    {
        self.sources.push(source);
    }

    /// The source with the 1-based `index`. An index that no source has, 0
    /// among them, is answered with `SourceNotFound` and the index in
    /// decimal.
    pub fn get(&self, index: usize) -> (result: Result<&Source, Error>)
        ensures
            match at(self@, index as int) {
                Some(view) => result matches Ok(source) && *source == self.sources@[index - 1]
                    && source@ == view,
                None => result matches Err(error) && error@ == ErrorView::SourceNotFound(
                    decimal(index as nat),
                ),
            },
    {
        if index == 0 || index > self.sources.len() {
            Err(Error::SourceNotFound(to_decimal(index)))
        } else {
            Ok(&self.sources[index - 1])
        }
    }

    /// The first source whose origin is `name`. Where no source has that
    /// origin the answer is `SourceNotFound` with the name.
    pub fn named(&self, name: &str) -> (result: Result<&Source, Error>)
        ensures
            match position(self@, name@) {
                Some(found) => result matches Ok(source) && *source == self.sources@[found]
                    && source@ == self@[found],
                None => result matches Err(error) && error@ == ErrorView::SourceNotFound(name@),
            },
    {
        let mut i: usize = 0;
        while i < self.sources.len()
            invariant
                i <= self.sources.len(),
                forall|j: int| 0 <= j < i ==> self@[j].origin != Some(name@),
            decreases self.sources.len() - i,
        {
            let found = match &self.sources[i].origin {
                Some(origin) => same_text(origin.as_str(), name),
                None => false,
            };
            if found {
                proof {
                    lemma_position(self@, name@);
                    assert(self@[i as int] == self.sources@[i as int]@);
                }
                return Ok(&self.sources[i]);
            }
            i += 1;
        }
        proof {
            lemma_position(self@, name@);
        }
        Err(Error::SourceNotFound(name.to_owned()))
    }

    /// Moves the sources of `other` behind those of `self`, in their order.
    /// `other` is left empty.
    pub fn merge(&mut self, other: &mut SourceMap)
        ensures
            final(self).sources@ == old(self).sources@ + old(other).sources@,
            final(self)@ == old(self)@ + old(other)@,
            final(other).sources@ == Seq::<Source>::empty(),
            final(other)@ == Seq::<SourceView>::empty(),
    {
        self.sources.append(&mut other.sources);
    }
}

/// `position` finds a source with the origin asked for, and the first such;
/// it finds none only where there is none.
pub proof fn lemma_position(sources: Seq<SourceView>, name: Seq<char>)
    ensures
        match position(sources, name) {
            Some(found) => {
                &&& 0 <= found < sources.len()
                &&& sources[found].origin == Some(name)
                &&& forall|i: int| 0 <= i < found ==> sources[i].origin != Some(name)
            },
            None => forall|i: int| 0 <= i < sources.len() ==> sources[i].origin != Some(name),
        },
    decreases sources.len(),
{
    if sources.len() > 0 {
        let before = sources.drop_last();
        lemma_position(before, name);
        assert(forall|i: int| 0 <= i < before.len() ==> before[i] == sources[i]);
    }
}

/// A source that was added is found. After a source with an origin was put
/// behind `sources`, a lookup of that origin finds a source that has it:
/// the first such, which is the added one unless an earlier source has the
/// same origin. Its position, counted from 1, leads to the same source.
pub proof fn lemma_added_source_is_found(
    sources: Seq<SourceView>,
    source: SourceView,
    origin: Seq<char>,
)
    requires
        source.origin == Some(origin),
    ensures
        position(sources.push(source), origin) matches Some(found) && {
            &&& sources.push(source)[found].origin == Some(origin)
            &&& at(sources.push(source), found + 1) == Some(sources.push(source)[found])
            &&& position(sources, origin) is None ==> found == sources.len() && sources.push(
                source,
            )[found] == source
            &&& position(sources, origin) is Some ==> position(sources, origin) == Some(found)
        },
{
    let grown = sources.push(source);
    assert(grown.drop_last() =~= sources);
    lemma_position(grown, origin);
    lemma_position(sources, origin);
}

/// No source has the index 0, and none the index behind the last.
pub proof fn lemma_no_source_outside(sources: Seq<SourceView>)
    ensures
        at(sources, 0) is None,
        at(sources, sources.len() as int + 1) is None,
{
}

/// Nothing is found in an empty collection, by index or by origin.
pub proof fn lemma_empty_finds_nothing(index: int, name: Seq<char>)
    ensures
        at(Seq::<SourceView>::empty(), index) is None,
        position(Seq::<SourceView>::empty(), name) is None,
{
}

/// A lookup by origin goes by the origins alone: what the sources hold as
/// content, and so the digests of their content, has no part in it.
pub proof fn lemma_lookup_goes_by_origin(
    first: Seq<SourceView>,
    second: Seq<SourceView>,
    name: Seq<char>,
)
    requires
        first.len() == second.len(),
        forall|i: int| 0 <= i < first.len() ==> first[i].origin == second[i].origin,
    ensures
        position(first, name) == position(second, name),
    decreases first.len(),
{
    if first.len() > 0 {
        lemma_lookup_goes_by_origin(first.drop_last(), second.drop_last(), name);
    }
}

} // verus!
