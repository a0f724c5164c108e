//! Paths as plain text.
//!
//! A path is a string whose pieces are separated by `/`. Everything here is
//! lexical: nothing looks at a disk. Two paths are compared by their parts, so
//! that repeated separators, a trailing separator and `.` pieces in the middle
//! of a path make no difference.

use vstd::prelude::*;
use vstd::string::*;

use crate::text::chars_of;
use crate::text::lemma_texts_push;
use crate::text::same_text;
use crate::text::texts;

verus! {

/// A path is rooted when it begins with a separator.
pub open spec fn rooted(path: Seq<char>) -> bool {
    path.len() > 0 && path[0] == '/'
}

/// `name` taken relative to `base`: a rooted `name` stands for itself, any
/// other is put behind `base`, with one separator between them unless `base`
/// is empty or already ends with one.
pub open spec fn joined(base: Seq<char>, name: Seq<char>) -> Seq<char> {
    if rooted(name) {
        name
    } else if base.len() == 0 || base.last() == '/' {
        base + name
    } else {
        base.push('/') + name
    }
}

/// The text of `path` cut at every separator, empty pieces included:
/// `a//b` gives `a`, the empty piece and `b`.
pub open spec fn pieces(path: Seq<char>) -> Seq<Seq<char>>
    decreases path.len(),
{
    if path.len() == 0 {
        seq![Seq::<char>::empty()]
    } else if path.last() == '/' {
        pieces(path.drop_last()).push(Seq::<char>::empty())
    } else {
        let before = pieces(path.drop_last());
        before.drop_last().push(before.last().push(path.last()))
    }
}

/// A piece that names something: neither empty nor `.`.
pub open spec fn naming(piece: Seq<char>) -> bool {
    piece.len() > 0 && piece != seq!['.']
}

/// Of the given pieces those that name something, in their order.
pub open spec fn kept(pieces: Seq<Seq<char>>) -> Seq<Seq<char>> {
    pieces.filter(|piece: Seq<char>| naming(piece))
}

/// The parts of a path. A rooted path begins with the part `/`, a path whose
/// first piece is `.` with the part `.`; then come the naming pieces in order.
pub open spec fn parts(path: Seq<char>) -> Seq<Seq<char>> {
    let body = kept(pieces(path));
    if rooted(path) {
        seq![seq!['/']] + body
    } else if pieces(path)[0] == seq!['.'] {
        seq![seq!['.']] + body
    } else {
        body
    }
}

/// `path` lies at or below `base`: the parts of `base` begin those of `path`.
pub open spec fn within(path: Seq<char>, base: Seq<char>) -> bool {
    parts(base).is_prefix_of(parts(path))
}

/// The given pieces with one separator between neighbours.
pub open spec fn glued(pieces: Seq<Seq<char>>) -> Seq<char>
    decreases pieces.len(),
{
    if pieces.len() == 0 {
        Seq::<char>::empty()
    } else if pieces.len() == 1 {
        pieces[0]
    } else {
        glued(pieces.drop_last()).push('/') + pieces.last()
    }
}

/// The text that has the given parts: a leading part `/` is the root itself,
/// the others are glued behind it.
pub open spec fn rendered(parts: Seq<Seq<char>>) -> Seq<char> {
    if parts.len() > 0 && parts[0] == seq!['/'] {
        seq!['/'] + glued(parts.skip(1))
    } else {
        glued(parts)
    }
}

/// What is left of `path` below `base`, as text: the parts of `path` behind
/// those of `base`, with one separator between neighbours. `None` when
/// `path` does not lie within `base`.
pub open spec fn below(path: Seq<char>, base: Seq<char>) -> Option<Seq<char>> {
    if within(path, base) {
        Some(rendered(parts(path).skip(parts(base).len() as int)))
    } else {
        None
    }
}

/// The last part of a path, when it names a file or a directory: the root,
/// `.` and `..` name none.
pub open spec fn file_name(path: Seq<char>) -> Option<Seq<char>> {
    let all = parts(path);
    if all.len() > 0 && all.last() != seq!['/'] && all.last() != seq!['.'] && all.last() != seq![
        '.',
        '.',
    ] {
        Some(all.last())
    } else {
        None
    }
}

/// Where the last `.` of `name` stands.
pub open spec fn last_dot(name: Seq<char>) -> Option<int>
    decreases name.len(),
{
    if name.len() == 0 {
        None
    } else if name.last() == '.' {
        Some(name.len() - 1)
    } else {
        last_dot(name.drop_last())
    }
}

/// The extension of a path: what follows the last `.` of its file name. A
/// file name without a `.`, or with its only `.` in front, has none.
pub open spec fn extension_of(path: Seq<char>) -> Option<Seq<char>> {
    match file_name(path) {
        Some(name) => match last_dot(name) {
            Some(dot) => if dot > 0 {
                Some(name.skip(dot + 1))
            } else {
                None
            },
            None => None,
        },
        None => None,
    }
}

/// Cutting a path always leaves at least one piece.
pub proof fn lemma_pieces_nonempty(path: Seq<char>)
    ensures
        pieces(path).len() >= 1,
    decreases path.len(),
{
    if path.len() > 0 {
        lemma_pieces_nonempty(path.drop_last());
    }
}

/// Cutting is the opposite of gluing: no piece holds a separator, and the
/// pieces glued together are the path again.
pub proof fn lemma_pieces_glued(path: Seq<char>)
    ensures
        glued(pieces(path)) == path,
        forall|i: int| 0 <= i < pieces(path).len() ==> !(#[trigger] pieces(path)[i]).contains('/'),
    decreases path.len(),
{
    if path.len() > 0 {
        let shorter = path.drop_last();
        let before = pieces(shorter);
        lemma_pieces_glued(shorter);
        lemma_pieces_nonempty(shorter);
        if path.last() == '/' {
            let all = before.push(Seq::<char>::empty());
            assert(all.drop_last() =~= before);
        } else {
            let all = before.drop_last().push(before.last().push(path.last()));
            assert(all.drop_last() =~= before.drop_last());
            if before.len() > 1 {
                assert(glued(all) =~= (glued(before.drop_last()).push('/') + before.last()).push(
                    path.last(),
                ));
            }
        }
    }
}

/// Whether `path` begins with a separator.
pub fn is_absolute(path: &str) -> (r: bool)
    ensures
        r == rooted(path@),
{
    !path.is_empty() && path.get_char(0) == '/'
}

/// `name` resolved against `base`.
pub fn join(base: &str, name: &str) -> (path: String)
    ensures
        path@ == joined(base@, name@),
{
    if is_absolute(name) {
        return name.to_owned();
    }
    let mut path = base.to_owned();
    let length = base.unicode_len();
    if length > 0 && base.get_char(length - 1) != '/' {
        proof {
            reveal_strlit("/");
        }
        path.append("/");
    }
    path.append(name);
    path
}

/// The pieces of `path` between its separators.
pub fn split(path: &str) -> (out: Vec<String>)
    ensures
        texts(out@) == pieces(path@),
{
    let chars = chars_of(path);
    let n = chars.len();
    let mut out: Vec<String> = Vec::new();
    let mut start: usize = 0;
    let mut i: usize = 0;
    proof {
        assert(path@.take(0) =~= Seq::<char>::empty());
    }
    while i < n
        invariant
            n == chars.len(),
            chars@ == path@,
            start <= i <= n,
            pieces(path@.take(i as int)) == texts(out@).push(
                path@.subrange(start as int, i as int),
            ),
        decreases n - i,
    {
        let ghost before = pieces(path@.take(i as int));
        proof {
            assert(path@.take(i + 1).drop_last() =~= path@.take(i as int));
        }
        if chars[i] == '/' {
            let piece = path.substring_char(start, i).to_owned();
            proof {
                lemma_texts_push(out@, piece);
                assert(path@.subrange(i + 1, i + 1) =~= Seq::<char>::empty());
            }
            out.push(piece);
            start = i + 1;
        } else {
            proof {
                assert(before.last().push(path@[i as int]) =~= path@.subrange(
                    start as int,
                    i + 1,
                ));
            }
        }
        i += 1;
    }
    let piece = path.substring_char(start, n).to_owned();
    proof {
        lemma_texts_push(out@, piece);
        assert(path@.take(n as int) =~= path@);
    }
    out.push(piece);
    out
}

/// The parts of `path`.
pub fn components(path: &str) -> (out: Vec<String>)
    ensures
        texts(out@) == parts(path@),
{
    let all = split(path);
    let ghost keep = |piece: Seq<char>| naming(piece);
    let mut out: Vec<String> = Vec::new();
    proof {
        lemma_pieces_nonempty(path@);
        reveal_strlit("/");
        reveal_strlit(".");
        assert("/"@ =~= seq!['/']);
    }
    if is_absolute(path) {
        let mark = "/".to_owned();
        proof {
            lemma_texts_push(out@, mark);
        }
        out.push(mark);
    } else if same_text(all[0].as_str(), ".") {
        let mark = ".".to_owned();
        proof {
            lemma_texts_push(out@, mark);
        }
        out.push(mark);
    }
    let ghost head = texts(out@);
    let mut k: usize = 0;
    while k < all.len()
        invariant
            k <= all.len(),
            texts(all@) == pieces(path@),
            keep == (|piece: Seq<char>| naming(piece)),
            "."@ == seq!['.'],
            texts(out@) == head + texts(all@).take(k as int).filter(keep),
        decreases all.len() - k,
    {
        let ghost upto = texts(all@).take(k as int);
        let ghost next = texts(all@).take(k + 1);
        proof {
            assert(next.drop_last() =~= upto);
            reveal(Seq::filter);
        }
        if !all[k].as_str().is_empty() && !same_text(all[k].as_str(), ".") {
            let piece = all[k].clone();
            proof {
                lemma_texts_push(out@, piece);
            }
            out.push(piece);
        }
        k += 1;
    }
    proof {
        assert(texts(all@).take(all.len() as int) =~= texts(all@));
    }
    out
}

/// How many leading strings of `base` are equal, one by one, to those of
/// `path`: whether all of them are.
fn begins_with(path: &Vec<String>, base: &Vec<String>) -> (r: bool)
    ensures
        r == texts(base@).is_prefix_of(texts(path@)),
{
    if base.len() > path.len() {
        return false;
    }
    let mut k: usize = 0;
    while k < base.len()
        invariant
            k <= base.len() <= path.len(),
            forall|j: int| 0 <= j < k ==> base@[j]@ == path@[j]@,
        decreases base.len() - k,
    {
        if base[k] != path[k] {
            proof {
                assert(texts(base@)[k as int] != texts(path@).subrange(
                    0,
                    base@.len() as int,
                )[k as int]);
            }
            return false;
        }
        k += 1;
    }
    true
}

/// Whether `path` lies at or below `base`.
pub fn starts_with(path: &str, base: &str) -> (r: bool)
    ensures
        r == within(path@, base@),
{
    let p = components(path);
    let b = components(base);
    begins_with(&p, &b)
}

/// The strings of `parts` from index `from` on, with one separator between
/// neighbours.
fn glue(parts: &Vec<String>, from: usize) -> (text: String)
    requires
        from <= parts.len(),
    ensures
        text@ == glued(texts(parts@).skip(from as int)),
{
    let ghost tail = texts(parts@).skip(from as int);
    let mut text = String::new();
    let mut k: usize = from;
    proof {
        reveal_strlit("/");
    }
    while k < parts.len()
        invariant
            from <= k <= parts.len(),
            tail == texts(parts@).skip(from as int),
            "/"@ == seq!['/'],
            text@ == glued(tail.take(k - from)),
        decreases parts.len() - k,
    {
        let ghost upto = tail.take(k - from);
        proof {
            assert(tail.take(k + 1 - from).drop_last() =~= upto);
        }
        if k > from {
            text.append("/");
        }
        text.append(parts[k].as_str());
        k += 1;
    }
    proof {
        assert(tail.take(parts.len() - from) =~= tail);
    }
    text
}

/// What is left of `path` below `base`.
pub fn strip_prefix(path: &str, base: &str) -> (rest: Option<String>)
    ensures
        match rest {
            Some(text) => below(path@, base@) == Some(text@),
            None => below(path@, base@) is None,
        },
{
    let p = components(path);
    let b = components(base);
    if !begins_with(&p, &b) {
        return None;
    }
    let from = b.len();
    let ghost tail = texts(p@).skip(from as int);
    proof {
        reveal_strlit("/");
        assert("/"@ =~= seq!['/']);
    }
    if from < p.len() && same_text(p[from].as_str(), "/") {
        let mut text = "/".to_owned();
        let rest = glue(&p, from + 1);
        text.append(rest.as_str());
        proof {
            assert(tail.skip(1) =~= texts(p@).skip(from + 1));
        }
        Some(text)
    } else {
        Some(glue(&p, from))
    }
}

/// The extension of `path`.
pub fn extension(path: &str) -> (ext: Option<String>)
    ensures
        match ext {
            Some(text) => extension_of(path@) == Some(text@),
            None => extension_of(path@) is None,
        },
{
    let all = components(path);
    if all.len() == 0 {
        return None;
    }
    let name = all[all.len() - 1].as_str();
    proof {
        reveal_strlit("/");
        reveal_strlit(".");
        reveal_strlit("..");
        assert("/"@ =~= seq!['/']);
        assert("."@ =~= seq!['.']);
        assert(".."@ =~= seq!['.', '.']);
    }
    if same_text(name, "/") || same_text(name, ".") || same_text(name, "..") {
        return None;
    }
    let chars = chars_of(name);
    let n = chars.len();
    let mut i: usize = n;
    proof {
        assert(name@.take(n as int) =~= name@);
    }
    while i > 0
        invariant
            i <= n,
            n == chars.len(),
            chars@ == name@,
            file_name(path@) == Some(name@),
            last_dot(name@) == last_dot(name@.take(i as int)),
        decreases i,
    {
        proof {
            assert(name@.take(i as int).drop_last() =~= name@.take(i - 1));
        }
        if chars[i - 1] == '.' {
            if i - 1 > 0 {
                let text = name.substring_char(i, n).to_owned();
                return Some(text);
            } else {
                return None;
            }
        }
        i -= 1;
    }
    None
}

/// A file name as a directory lists it: one piece that names something.
pub open spec fn plain(name: Seq<char>) -> bool {
    naming(name) && !name.contains('/')
}

/// Text without a separator, put behind a path, lengthens the last piece.
pub proof fn lemma_pieces_lengthened(path: Seq<char>, text: Seq<char>)
    requires
        !text.contains('/'),
    ensures
        pieces(path).len() >= 1,
        pieces(path + text) == pieces(path).drop_last().push(pieces(path).last() + text),
    decreases text.len(),
{
    lemma_pieces_nonempty(path);
    if text.len() > 0 {
        let shorter = text.drop_last();
        lemma_pieces_lengthened(path, shorter);
        assert((path + text).drop_last() =~= path + shorter);
        assert((pieces(path).last() + shorter).push(text.last()) =~= pieces(path).last() + text);
    }
}

/// A plain name behind a path is one more part.
pub proof fn lemma_parts_of_child(path: Seq<char>, name: Seq<char>)
    requires
        plain(name),
    ensures
        parts(joined(path, name)) == parts(path).push(name),
{
    let keep = |piece: Seq<char>| naming(piece);
    let nothing = Seq::<char>::empty();
    reveal(Seq::filter);
    if path.len() == 0 {
        lemma_pieces_lengthened(nothing, name);
        assert(pieces(name).drop_last() =~= Seq::<Seq<char>>::empty());
        assert(pieces(nothing).drop_last() =~= Seq::<Seq<char>>::empty());
    } else {
        let stem = if path.last() == '/' {
            path
        } else {
            path.push('/')
        };
        let before = if path.last() == '/' {
            pieces(path.drop_last())
        } else {
            pieces(path)
        };
        lemma_pieces_nonempty(path);
        lemma_pieces_nonempty(path.drop_last());
        assert(stem.drop_last() =~= if path.last() == '/' {
            path.drop_last()
        } else {
            path
        });
        lemma_pieces_lengthened(stem, name);
        assert(before.push(nothing).drop_last() =~= before);
        assert(before.push(name).drop_last() =~= before);
    }
}

/// Resolving against a base can be done in one step or in two: a name that
/// is not rooted, with a plain name behind it, leads to the same path.
pub proof fn lemma_joined_twice(base: Seq<char>, name: Seq<char>, child: Seq<char>)
    requires
        !rooted(name),
        plain(child),
    ensures
        joined(base, joined(name, child)) == joined(joined(base, name), child),
{
}

/// What a directory within `base` lists lies within `base` too: with
/// `name` resolved against `base` lying within `base`, so does `name` with a
/// plain name behind it.
pub proof fn lemma_child_within(base: Seq<char>, name: Seq<char>, child: Seq<char>)
    requires
        within(joined(base, name), base),
        plain(child),
    ensures
        within(joined(base, joined(name, child)), base),
        parts(joined(base, joined(name, child))) == parts(joined(base, name)).push(child),
{
    if rooted(name) {
        lemma_parts_of_child(name, child);
    } else {
        lemma_joined_twice(base, name, child);
        lemma_parts_of_child(joined(base, name), child);
    }
}

/// A separator at the end of a path adds no part.
pub proof fn lemma_parts_trailing_separator(path: Seq<char>)
    requires
        path.len() > 0,
    ensures
        parts(path.push('/')) == parts(path),
{
    lemma_pieces_nonempty(path);
    reveal(Seq::filter);
    assert(path.push('/').drop_last() =~= path);
    assert(pieces(path).push(Seq::<char>::empty()).drop_last() =~= pieces(path));
}

/// A path that does not begin with a separator has a first piece that is not
/// empty.
pub proof fn lemma_first_piece(path: Seq<char>)
    requires
        path.len() > 0,
        !rooted(path),
    ensures
        pieces(path).len() >= 1,
        pieces(path)[0].len() > 0,
    decreases path.len(),
{
    let shorter = path.drop_last();
    lemma_pieces_nonempty(shorter);
    if shorter.len() > 0 {
        lemma_first_piece(shorter);
    }
}

/// Where a piece names something, some piece is kept.
pub proof fn lemma_naming_piece_is_kept(all: Seq<Seq<char>>, at: int)
    requires
        0 <= at < all.len(),
        naming(all[at]),
    ensures
        kept(all).len() > 0,
    decreases all.len(),
{
    reveal(Seq::filter);
    if at < all.len() - 1 {
        lemma_naming_piece_is_kept(all.drop_last(), at);
    }
}

/// Only the empty path has no parts.
pub proof fn lemma_no_parts(path: Seq<char>)
    requires
        parts(path).len() == 0,
    ensures
        path.len() == 0,
{
    if path.len() > 0 && !rooted(path) {
        lemma_first_piece(path);
        if pieces(path)[0] != seq!['.'] {
            lemma_naming_piece_is_kept(pieces(path), 0);
        }
    }
}

/// Of pieces without a separator, the kept ones are plain names.
pub proof fn lemma_kept_pieces_are_plain(all: Seq<Seq<char>>)
    requires
        forall|i: int| 0 <= i < all.len() ==> !(#[trigger] all[i]).contains('/'),
    ensures
        forall|i: int| 0 <= i < kept(all).len() ==> plain(#[trigger] kept(all)[i]),
    decreases all.len(),
{
    reveal(Seq::filter);
    if all.len() > 0 {
        let before = all.drop_last();
        lemma_kept_pieces_are_plain(before);
        assert forall|i: int| 0 <= i < kept(all).len() implies plain(#[trigger] kept(all)[i]) by {
            if i < kept(before).len() {
                assert(kept(all)[i] == kept(before)[i]);
            } else {
                assert(kept(all)[i] == all.last());
            }
        }
    }
}

/// The parts of a path are plain names, but for a first part `/` or `.`.
pub proof fn lemma_parts_are_plain(path: Seq<char>)
    ensures
        forall|i: int| 1 <= i < parts(path).len() ==> plain(#[trigger] parts(path)[i]),
        parts(path).len() > 0 ==> parts(path)[0] == seq!['/'] || parts(path)[0] == seq!['.']
            || plain(parts(path)[0]),
{
    lemma_pieces_glued(path);
    lemma_kept_pieces_are_plain(pieces(path));
}

/// Plain names glued together make a path that neither begins nor ends with
/// a separator.
pub proof fn lemma_glued_names(names: Seq<Seq<char>>)
    requires
        forall|i: int| 0 <= i < names.len() ==> plain(#[trigger] names[i]),
    ensures
        !rooted(glued(names)),
        names.len() > 0 ==> glued(names).len() > 0 && glued(names).last() != '/',
    decreases names.len(),
{
    if names.len() > 1 {
        lemma_glued_names(names.drop_last());
    }
}

/// One more plain name is glued on as it is joined.
pub proof fn lemma_glued_longer(names: Seq<Seq<char>>, name: Seq<char>)
    requires
        forall|i: int| 0 <= i < names.len() ==> plain(#[trigger] names[i]),
        plain(name),
    ensures
        glued(names.push(name)) == joined(glued(names), name),
{
    lemma_glued_names(names);
    assert(names.push(name).drop_last() =~= names);
}

/// Plain names behind a path are that many more parts.
pub proof fn lemma_parts_of_descendant(path: Seq<char>, names: Seq<Seq<char>>)
    requires
        forall|i: int| 0 <= i < names.len() ==> plain(#[trigger] names[i]),
    ensures
        parts(joined(path, glued(names))) == parts(path) + names,
    decreases names.len(),
{
    if names.len() == 0 {
        if path.len() > 0 && path.last() != '/' {
            lemma_parts_trailing_separator(path);
        }
    } else {
        let before = names.drop_last();
        let last = names.last();
        lemma_glued_names(before);
        lemma_glued_longer(before, last);
        lemma_parts_of_descendant(path, before);
        lemma_joined_twice(path, glued(before), last);
        lemma_parts_of_child(joined(path, glued(before)), last);
    }
}

/// A first name, plain or `.`, glued before plain names is joined with them.
pub proof fn lemma_glued_behind(first: Seq<char>, names: Seq<Seq<char>>)
    requires
        first.len() > 0,
        !first.contains('/'),
        names.len() > 0,
        forall|i: int| 0 <= i < names.len() ==> plain(#[trigger] names[i]),
    ensures
        glued(seq![first] + names) == joined(first, glued(names)),
    decreases names.len(),
{
    let before = names.drop_last();
    assert((seq![first] + names).drop_last() =~= seq![first] + before);
    lemma_glued_names(before);
    lemma_glued_names(names);
    if before.len() == 0 {
        assert(glued(seq![first]) =~= first);
    } else {
        lemma_glued_behind(first, before);
    }
}

/// What is left below a base leads back: the rest of a path below a base,
/// resolved against that base, is the path again, part by part.
pub proof fn lemma_below_leads_back(path: Seq<char>, base: Seq<char>)
    requires
        within(path, base),
    ensures
        below(path, base) is Some,
        parts(joined(base, below(path, base)->0)) == parts(path),
{
    let all = parts(path);
    let count = parts(base).len() as int;
    let rest = all.skip(count);
    let root = seq!['/'];
    let here = seq!['.'];
    lemma_parts_are_plain(path);
    if rest.len() > 0 && (rest[0] == root || rest[0] == here) {
        assert(!plain(root) && !plain(here)) by {
            assert(root[0] == '/');
        }
        let names = rest.skip(1);
        assert(seq![rest[0]] + names =~= rest);
        if rest[0] == root {
            lemma_glued_names(names);
            lemma_parts_of_descendant(root, names);
            assert(pieces(root.drop_last()) =~= seq![Seq::<char>::empty()]);
            reveal_with_fuel(Seq::filter, 3);
        } else {
            lemma_no_parts(base);
            assert(pieces(here.drop_last()) =~= seq![Seq::<char>::empty()]);
            reveal_with_fuel(Seq::filter, 3);
            if names.len() > 0 {
                lemma_glued_behind(here, names);
                lemma_parts_of_descendant(here, names);
            }
        }
    } else {
        lemma_parts_of_descendant(base, rest);
    }
}

} // verus!
