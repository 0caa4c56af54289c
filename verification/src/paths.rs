//! File system paths: opaque paths that are carried through, and the text
//! forms on which decisions are made. Text paths separate their components by
//! `/`.

use vstd::prelude::*;

use crate::text;

verus! {

/// `std::path::PathBuf`, carried through unread.
#[verifier::external_type_specification]
#[verifier::external_body]
pub struct ExPathBuf(std::path::PathBuf);

/// Trusted: cloning a `PathBuf` gives the same path.
pub assume_specification[ <std::path::PathBuf as Clone>::clone ](path: &std::path::PathBuf) -> (r:
    std::path::PathBuf)
    ensures
        r == *path,
;

/// The parts of a path that name something: neither empty nor `.`.
pub open spec fn named_parts(path: Seq<char>) -> Seq<Seq<char>> {
    text::split_spec(path, '/').filter(
        |part: Seq<char>| part.len() > 0 && part != seq!['.'],
    )
}

/// The final component of a path, unless there is none or it is `..`.
pub open spec fn file_name_spec(path: Seq<char>) -> Option<Seq<char>> {
    let parts = named_parts(path);
    if parts.len() == 0 || parts.last() == seq!['.', '.'] {
        None
    } else {
        Some(parts.last())
    }
}

proof fn lemma_last_kept<T>(items: Seq<T>, keep: spec_fn(T) -> bool, last: int)
    requires
        0 <= last < items.len(),
        keep(items[last]),
        forall|k: int| last < k < items.len() ==> !keep(#[trigger] items[k]),
    ensures
        items.filter(keep).len() > 0,
        items.filter(keep).last() == items[last],
    decreases items.len(),
{
    reveal(Seq::filter);
    if last < items.len() - 1 {
        lemma_last_kept(items.drop_last(), keep, last);
    }
}

/// The final component of a path, unless there is none or it is `..`.
pub fn file_name(path: &str) -> (r: Option<String>)
    ensures
        match r {
            Some(name) => file_name_spec(path@) == Some(name@),
            None => file_name_spec(path@) is None,
        },
{
    let mut parts = text::split(path, '/');
    let ghost all = text::split_spec(path@, '/');
    let ghost keep = |part: Seq<char>| part.len() > 0 && part != seq!['.'];
    assert(all.take(parts@.len() as int) =~= all);
    while parts.len() > 0
        invariant
            text::texts(parts@) == all.take(parts@.len() as int),
            parts@.len() <= all.len(),
            all == text::split_spec(path@, '/'),
            keep == (|part: Seq<char>| part.len() > 0 && part != seq!['.']),
            forall|k: int| parts@.len() <= k < all.len() ==> !keep(#[trigger] all[k]),
        decreases parts@.len(),
    {
        let ghost before = parts@;
        let last = parts.pop().unwrap();
        assert(last@ == text::texts(before)[before.len() - 1]);
        assert(last@ == all[before.len() - 1]);
        proof {
            reveal_strlit(".");
            reveal_strlit("..");
            assert("."@ =~= seq!['.']);
            assert(".."@ =~= seq!['.', '.']);
        }
        if !last.as_str().is_empty() && !text::same_text(last.as_str(), ".") {
            proof {
                lemma_last_kept(all, keep, before.len() - 1);
            }
            if text::same_text(last.as_str(), "..") {
                return None;
            }
            return Some(last);
        }
        assert(text::texts(parts@) =~= all.take(parts@.len() as int));
    }
    proof {
        crate::ordering::lemma_filter_none(all, keep);
    }
    None
}

/// Whether the last dot of a file's name stands at a position other than the
/// first.
pub open spec fn is_last_dot(name: Seq<char>, dot: int) -> bool {
    0 < dot < name.len() && name[dot] == '.' && forall|k: int|
        dot < k < name.len() ==> name[k] != '.'
}

/// The part of a file's name behind its last dot, unless it has none or only a
/// leading one.
pub open spec fn name_extension(name: Seq<char>) -> Option<Seq<char>> {
    if exists|dot: int| #[trigger] is_last_dot(name, dot) {
        Some(name.skip((choose|dot: int| #[trigger] is_last_dot(name, dot)) + 1))
    } else {
        None
    }
}

proof fn lemma_last_dot(name: Seq<char>, dot: int)
    requires
        is_last_dot(name, dot),
    ensures
        name_extension(name) == Some(name.skip(dot + 1)),
{
    let found = choose|dot: int| #[trigger] is_last_dot(name, dot);
    assert(found == dot) by {
        if found < dot {
            assert(name[dot] != '.');
        } else if dot < found {
            assert(name[found] != '.');
        }
    }
}

/// The extension of the file that a path names.
pub open spec fn extension_spec(path: Seq<char>) -> Option<Seq<char>> {
    match file_name_spec(path) {
        None => None,
        Some(name) => name_extension(name),
    }
}

/// The extension of the file that a path names.
pub fn extension(path: &str) -> (r: Option<String>)
    ensures
        match r {
            Some(ext) => extension_spec(path@) == Some(ext@),
            None => extension_spec(path@) is None,
        },
{
    let name = match file_name(path) {
        Some(name) => name,
        None => return None,
    };
    let chars = text::to_chars(name.as_str());
    let mut i: usize = chars.len();
    while i > 1
        invariant
            chars@ == name@,
            file_name_spec(path@) == Some(name@),
            i <= chars@.len(),
            forall|k: int| i <= k < chars@.len() ==> chars@[k] != '.',
        decreases i,
    {
        i = i - 1;
        if chars[i] == '.' {
            proof {
                assert(is_last_dot(name@, i as int));
                lemma_last_dot(name@, i as int);
            }
            let ext = text::from_chars(&chars, i + 1, chars.len());
            assert(ext@ =~= name@.skip(i + 1));
            return Some(ext);
        }
    }
    assert forall|dot: int| !#[trigger] is_last_dot(name@, dot) by {
        if 0 < dot < name@.len() {
            assert(chars@[dot] != '.');
        }
    }
    None
}

/// A path with another one adjoined: an absolute one takes its place, a
/// relative one follows behind a separator.
pub open spec fn join_spec(base: Seq<char>, part: Seq<char>) -> Seq<char> {
    if part.len() > 0 && part[0] == '/' {
        part
    } else if base.len() == 0 || base.last() == '/' {
        base + part
    } else {
        base + seq!['/'] + part
    }
}

/// Adjoins a path to another.
pub fn join(base: &str, part: &str) -> (out: String)
    ensures
        out@ == join_spec(base@, part@),
{
    let p = text::to_chars(part);
    if p.len() > 0 && p[0] == '/' {
        return part.to_owned();
    }
    let b = text::to_chars(base);
    let mut out = base.to_owned();
    if b.len() > 0 && b[b.len() - 1] != '/' {
        out.push('/');
        assert(out@ =~= base@ + seq!['/']);
    }
    out.append(part);
    out
}

/// Whether a relative path stays inside the directory it is resolved against:
/// it is not empty, does not start at the root, and never goes to a parent.
pub open spec fn is_safe_relative(path: Seq<char>) -> bool {
    &&& path.len() > 0
    &&& path[0] != '/'
    &&& !text::split_spec(path, '/').contains(seq!['.', '.'])
}

/// Whether a relative path stays inside the directory it is resolved against.
pub fn is_safe_relative_path(relative_path: &str) -> (r: bool)
    ensures
        r == is_safe_relative(relative_path@),
{
    let chars = text::to_chars(relative_path);
    if chars.len() == 0 || chars[0] == '/' {
        return false;
    }
    let parts = text::split(relative_path, '/');
    let mut i: usize = 0;
    while i < parts.len()
        invariant
            i <= parts@.len(),
            text::texts(parts@) == text::split_spec(relative_path@, '/'),
            forall|k: int| 0 <= k < i ==> text::texts(parts@)[k] != seq!['.', '.'],
        decreases parts@.len() - i,
    {
        proof {
            reveal_strlit("..");
            assert(".."@ =~= seq!['.', '.']);
            assert(text::texts(parts@)[i as int] == parts@[i as int]@);
        }
        if text::same_text(parts[i].as_str(), "..") {
            return false;
        }
        i = i + 1;
    }
    assert(!text::split_spec(relative_path@, '/').contains(seq!['.', '.']));
    true
}

/// Relative names that are joined to the same directory keep apart: what stands at the
/// end of the path is the name.
pub proof fn lemma_joined_name_is_kept(dir: Seq<char>, a: Seq<char>, b: Seq<char>)
    requires
        a.len() > 0,
        b.len() > 0,
        a[0] != '/',
        b[0] != '/',
    ensures
        join_spec(dir, a).skip(join_spec(dir, a).len() - a.len()) == a,
        join_spec(dir, a).take(dir.len() as int) == dir,
        join_spec(dir, a) == join_spec(dir, b) <==> a == b,
{
    let ja = join_spec(dir, a);
    let jb = join_spec(dir, b);
    assert(ja.skip(ja.len() - a.len()) =~= a);
    assert(jb.skip(jb.len() - b.len()) =~= b);
    assert(ja.take(dir.len() as int) =~= dir);
}

/// An absolute path takes the place of the directory that it is joined to.
pub proof fn lemma_absolute_paths_replace(dir: Seq<char>, path: Seq<char>)
    requires
        path.len() > 0,
        path[0] == '/',
    ensures
        join_spec(dir, path) == path,
{
}

/// The last name of a path is the name that was joined to it last.
pub proof fn lemma_file_name_of_joined(dir: Seq<char>, name: Seq<char>)
    requires
        name.len() > 0,
        !name.contains('/'),
        name != seq!['.'],
        name != seq!['.', '.'],
        dir.len() == 0 || dir.last() != '/',
    ensures
        file_name_spec(join_spec(dir, name)) == Some(name),
{
    let path = join_spec(dir, name);
    let keep = |part: Seq<char>| part.len() > 0 && part != seq!['.'];
    assert(name.contains(name[0]));
    let head = if dir.len() == 0 {
        Seq::empty()
    } else {
        dir + seq!['/']
    };
    assert(path =~= head + name);
    text::lemma_split_append(head, name, '/');
    let pieces = text::split_spec(path, '/');
    if dir.len() > 0 {
        assert(head.drop_last() =~= dir);
        text::lemma_split(dir, '/');
    }
    assert(text::split_spec(head, '/').last() =~= Seq::<char>::empty());
    assert(pieces.last() =~= name);
    lemma_last_kept(pieces, keep, pieces.len() - 1);
}

/// The extension of a name is what follows its last dot, unless that dot comes first.
pub proof fn lemma_extension_of_name(stem: Seq<char>, ext: Seq<char>)
    requires
        !ext.contains('.'),
    ensures
        stem.len() > 0 ==> name_extension(stem + seq!['.'] + ext) == Some(ext),
        name_extension(ext) is None,
        name_extension(seq!['.'] + ext) is None,
{
    if stem.len() > 0 {
        let name = stem + seq!['.'] + ext;
        assert forall|k: int| stem.len() < k < name.len() implies name[k] != '.' by {
            assert(ext.contains(ext[k - stem.len() - 1]));
        }
        assert(is_last_dot(name, stem.len() as int));
        lemma_last_dot(name, stem.len() as int);
        assert(name.skip(stem.len() as int + 1) =~= ext);
    }
    assert forall|dot: int| !#[trigger] is_last_dot(ext, dot) by {
        if is_last_dot(ext, dot) {
            assert(ext.contains(ext[dot]));
        }
    }
    let hidden = seq!['.'] + ext;
    assert forall|dot: int| !#[trigger] is_last_dot(hidden, dot) by {
        if is_last_dot(hidden, dot) {
            assert(ext.contains(ext[dot - 1]));
        }
    }
}

/// A safe path that is resolved against a directory stays below it, and no part of it
/// goes to a parent.
pub proof fn lemma_safe_paths_stay_below(dir: Seq<char>, path: Seq<char>, i: int)
    requires
        is_safe_relative(path),
        0 <= i < text::split_spec(path, '/').len(),
    ensures
        join_spec(dir, path).take(dir.len() as int) == dir,
        join_spec(dir, path).len() > dir.len(),
        text::split_spec(path, '/')[i] != seq!['.', '.'],
{
    lemma_joined_name_is_kept(dir, path, path);
    if text::split_spec(path, '/')[i] == seq!['.', '.'] {
        assert(text::split_spec(path, '/').contains(seq!['.', '.']));
    }
}

/// Ordinary relative paths are safe: parts without separators, none of which goes to a
/// parent, the first of which is not empty.
pub proof fn lemma_ordinary_paths_are_safe(parts: Seq<Seq<char>>)
    requires
        parts.len() > 0,
        forall|i: int| 0 <= i < parts.len() ==> (#[trigger] parts[i]).len() > 0,
        forall|i: int| 0 <= i < parts.len() ==> !(#[trigger] parts[i]).contains('/'),
        forall|i: int| 0 <= i < parts.len() ==> #[trigger] parts[i] != seq!['.', '.'],
    ensures
        is_safe_relative(text::join_spec(parts, seq!['/'])),
{
    text::lemma_join(parts, '/');
    text::lemma_split_of_join(parts, '/');
    assert(parts[0].contains(parts[0][0]));
    assert(!parts.contains(seq!['.', '.']));
}

/// Slashes and dots at the end of a path do not change what it names, and a path that
/// ends with its parent names no file.
pub proof fn lemma_trailing_parts(path: Seq<char>)
    ensures
        named_parts(path + seq!['/']) == named_parts(path),
        named_parts(path + seq!['/', '.']) == named_parts(path),
        file_name_spec(path + seq!['/']) == file_name_spec(path),
        file_name_spec(path + seq!['/', '.', '.']) is None,
{
    reveal(Seq::filter);
    let keep = |part: Seq<char>| part.len() > 0 && part != seq!['.'];
    let pieces = text::split_spec(path, '/');
    let slash = path + seq!['/'];
    assert(slash.drop_last() =~= path);
    assert(text::split_spec(slash, '/') == pieces.push(Seq::<char>::empty()));
    assert(pieces.push(Seq::<char>::empty()).drop_last() =~= pieces);
    let after = text::split_spec(slash, '/');
    assert forall|tail: Seq<char>| !tail.contains('/') implies #[trigger] text::split_spec(
        slash + tail,
        '/',
    ) == pieces.push(tail) by {
        text::lemma_split_append(slash, tail, '/');
        assert(after.last() + tail =~= tail);
        assert(after.update(after.len() - 1, tail) =~= pieces.push(tail));
    }
    let dot = seq!['.'];
    let parent = seq!['.', '.'];
    assert(!dot.contains('/'));
    assert(!parent.contains('/'));
    assert(path + seq!['/', '.'] =~= slash + dot);
    assert(path + seq!['/', '.', '.'] =~= slash + parent);
    assert(text::split_spec(slash + dot, '/') == pieces.push(dot));
    assert(text::split_spec(slash + parent, '/') == pieces.push(parent));
    assert(pieces.push(dot).drop_last() =~= pieces);
    assert(pieces.push(parent).drop_last() =~= pieces);
    assert(parent.len() == 2);
    assert(dot.len() == 1);
    assert(pieces.push(parent).filter(keep) == pieces.filter(keep).push(parent));
}

} // verus!
