//! Paths as text: their parts, the extension of the file they name, their absolute form.

use crate::text;
use vstd::prelude::*;

verus! {

/// The last place of a character in a text, -1 if it has none.
pub open spec fn last_place(s: Seq<char>, c: char) -> int
    decreases s.len(),
{
    if s.len() == 0 {
        -1
    } else if s.last() == c {
        s.len() - 1
    } else {
        last_place(s.drop_last(), c)
    }
}

/// Whether `s` ends in `tail`.
pub open spec fn ends_in(s: Seq<char>, tail: Seq<char>) -> bool {
    text::occurs_at(s, tail, s.len() - tail.len())
}

/// Whether a part of a path says nothing: an empty one or `.`.
pub open spec fn idle(part: Seq<char>) -> bool {
    part.len() == 0 || part == seq!['.']
}

/// The parts of a path between its solidi, without those that say nothing.
pub open spec fn parts(path: Seq<char>) -> Seq<Seq<char>>
    decreases path.len(),
{
    let n = text::length_before(path, '/') as int;
    let first = path.take(n);
    let head = if idle(first) {
        seq![]
    } else {
        seq![first]
    };
    if n < path.len() {
        head + parts(path.skip(n + 1))
    } else {
        head
    }
}

/// Whether a part begins as the letter of a drive does.
pub open spec fn marks_drive(part: Seq<char>) -> bool {
    part.len() >= 2 && part[1] == ':'
}

/// Whether a path is read alike on every platform: single solidi alone separate its parts, and none
/// of them can be taken for a drive.
pub open spec fn portable(path: Seq<char>) -> bool {
    &&& !path.contains('\\')
    &&& path.len() < 2 || path[0] != '/' || path[1] != '/'
    &&& forall|i: int| 0 <= i < parts(path).len() ==> !marks_drive(#[trigger] parts(path)[i])
}

/// Whether a character separates names on some platform.
pub open spec fn separates(c: char) -> bool {
    c == '/' || c == '\\'
}

/// What follows the last character of a path that separates names or ends a drive on some platform.
pub open spec fn tail(path: Seq<char>) -> Seq<char>
    decreases path.len(),
{
    if path.len() == 0 || separates(path.last()) || path.last() == ':' {
        seq![]
    } else {
        tail(path.drop_last()).push(path.last())
    }
}

/// Parts with single solidi between them.
pub open spec fn joined(parts: Seq<Seq<char>>) -> Seq<char>
    decreases parts.len(),
{
    if parts.len() == 0 {
        seq![]
    } else if parts.len() == 1 {
        parts[0]
    } else {
        parts[0] + seq!['/'] + joined(parts.skip(1))
    }
}

/// A path without the parts that say nothing.  What it begins with stays, and so does a solidus
/// behind its last part.
pub open spec fn resolved(path: Seq<char>) -> Seq<char> {
    let kept = parts(path);
    let root = if path.len() > 0 && path[0] == '/' {
        seq!['/']
    } else {
        seq![]
    };
    let tail = if kept.len() > 0 && path.last() == '/' {
        seq!['/']
    } else {
        seq![]
    };
    root + joined(kept) + tail
}

/// The extension of a file name: what follows its last dot, unless the name begins with that dot.
pub open spec fn extension_of(name: Seq<char>) -> Option<Seq<char>> {
    let dot = last_place(name, '.');
    if dot > 0 {
        Some(name.skip(dot + 1))
    } else {
        None
    }
}

/// The extension of the file that a path names by its last part.  A path without parts names none,
/// and neither does one that ends in `..`.
pub open spec fn named_extension(path: Seq<char>) -> Option<Seq<char>> {
    let kept = parts(path);
    if kept.len() == 0 || kept.last() == seq!['.', '.'] {
        None
    } else {
        extension_of(kept.last())
    }
}

/// Whether the file that a path names ends in its tail on every platform, and in an extension
/// there: the path does not begin with two separators, and its tail holds a dot behind its first
/// character and is not `..`.
pub open spec fn ends_in_extension(path: Seq<char>) -> bool {
    &&& path.len() < 2 || !separates(path[0]) || !separates(path[1])
    &&& last_place(tail(path), '.') > 0
    &&& tail(path) != seq!['.', '.']
}

/// Whether a platform may read `extension` off a path.  It holds no dot and stands in the path
/// behind one.  Where the path is read alike on every platform it is the extension of the file
/// named, and where only the tail of the path is, it is that of the tail.
pub open spec fn may_end_in(path: Seq<char>, extension: Option<Seq<char>>) -> bool {
    &&& extension matches Some(extension) ==> !extension.contains('.') && text::occurs_in(
        path,
        seq!['.'] + extension,
    )
    &&& portable(path) ==> extension == named_extension(path)
    &&& ends_in_extension(path) ==> extension == extension_of(tail(path))
}

/// Whether `absolute` may be the absolute form of a path.  One that begins with a solidus is the
/// resolved path where that was absolute, and else ends in it, behind the working directory.  One
/// that does not holds the marks of another platform.
pub open spec fn may_become(path: Seq<char>, absolute: Seq<char>) -> bool {
    &&& absolute.len() > 0
    &&& absolute[0] == '/' || absolute.contains('\\') || absolute.contains(':')
    &&& absolute[0] == '/' && portable(path) ==> if path.len() > 0 && path[0] == '/' {
        absolute == resolved(path)
    } else {
        parts(path).len() > 0 ==> ends_in(absolute, seq!['/'] + resolved(path))
    }
}

/// Whether a text names a file in a directory: it holds nothing that separates or prefixes names
/// on any platform, and is neither empty nor `.` nor `..`.
pub open spec fn is_name(name: Seq<char>) -> bool {
    &&& !name.contains('/') && !name.contains('\\') && !name.contains(':')
    &&& !idle(name) && name != seq!['.', '.']
}

/// Whether a directory begins with the mark behind which one platform rewrites what is joined to it.
pub open spec fn verbatim(directory: Seq<char>) -> bool {
    text::occurs_at(directory, seq!['\\', '\\', '?', '\\'], 0)
}

/// Whether a platform may join a name to a directory with no separator between them: one ends the
/// directory already, or the directory is a drive.
pub open spec fn joins_bare(directory: Seq<char>) -> bool {
    ||| directory.len() == 0
    ||| separates(directory.last())
    ||| directory.len() == 2 && directory[1] == ':'
}

/// Whether `path` may be what joins a directory and the name of a file in it.  It ends in the name.
/// But for verbatim directories it is the directory and the name, with a separator between them
/// unless the directory joins bare; none is set behind a solidus.
pub open spec fn may_join(directory: Seq<char>, name: Seq<char>, path: Seq<char>) -> bool {
    is_name(name) ==> {
        &&& ends_in(path, name)
        &&& !verbatim(directory) ==> if directory.len() == 0 || directory.last() == '/' {
            path == directory + name
        } else {
            ||| path == directory + seq!['/'] + name
            ||| path == directory + seq!['\\'] + name
            ||| joins_bare(directory) && path == directory + name
        }
    }
}

/// Whether parts are as paths have them: none says nothing, none holds a solidus.
spec fn sound(parts: Seq<Seq<char>>) -> bool {
    forall|i: int| 0 <= i < parts.len() ==> !idle(#[trigger] parts[i]) && !parts[i].contains('/')
}

/// The length before a mark reaches no further than the mark.
proof fn lemma_length_before_bounds(s: Seq<char>, mark: char)
    ensures
        text::length_before(s, mark) <= s.len(),
        forall|k: int| 0 <= k < text::length_before(s, mark) ==> s[k] != mark,
        text::length_before(s, mark) < s.len() ==> s[text::length_before(s, mark) as int] == mark,
    decreases s.len(),
{
    if s.len() > 0 && s[0] != mark {
        lemma_length_before_bounds(s.skip(1), mark);
        assert forall|k: int| 0 <= k < text::length_before(s, mark) implies s[k] != mark by {
            if k > 0 {
                assert(s[k] == s.skip(1)[k - 1]);
            }
        }
    }
}

proof fn lemma_parts_are_sound(path: Seq<char>)
    ensures
        sound(parts(path)),
    decreases path.len(),
{
    let n = text::length_before(path, '/') as int;
    lemma_length_before_bounds(path, '/');
    let first = path.take(n);
    assert(!first.contains('/'));
    if n < path.len() {
        lemma_parts_are_sound(path.skip(n + 1));
    }
}

/// The parts of two paths with a solidus between them are the parts of both.
proof fn lemma_parts_append(a: Seq<char>, b: Seq<char>)
    ensures
        parts(a + seq!['/'] + b) == parts(a) + parts(b),
    decreases a.len(),
{
    let whole = a + seq!['/'] + b;
    let n = text::length_before(a, '/');
    lemma_length_before_bounds(a, '/');
    assert(forall|k: int| 0 <= k < a.len() ==> whole[k] == a[k]);
    text::lemma_length_before(whole, '/', n);
    assert(whole.take(n as int) == a.take(n as int));
    if n < a.len() {
        let rest = a.skip(n as int + 1);
        lemma_parts_append(rest, b);
        assert(whole.skip(n as int + 1) == rest + seq!['/'] + b);
        assert(parts(whole) =~= parts(a) + parts(b));
    } else {
        assert(whole.skip(n as int + 1) == b);
    }
}

/// A text without a solidus is one part, unless it says nothing.
proof fn lemma_single_part(part: Seq<char>)
    requires
        !part.contains('/'),
    ensures
        parts(part) == if idle(part) {
            seq![]
        } else {
            seq![part]
        },
{
    text::lemma_length_before(part, '/', part.len());
    assert(part.take(part.len() as int) == part);
}

/// Joined parts are parted again as they were, and no solidus stands at either end of them.
proof fn lemma_joined(kept: Seq<Seq<char>>)
    requires
        sound(kept),
    ensures
        parts(joined(kept)) == kept,
        kept.len() == 0 ==> joined(kept).len() == 0,
        kept.len() > 0 ==> joined(kept).len() > 0 && joined(kept)[0] != '/' && joined(kept).last()
            != '/',
    decreases kept.len(),
{
    if kept.len() == 0 {
        lemma_single_part(joined(kept));
    } else {
        let first = kept[0];
        lemma_single_part(first);
        assert(first.contains(first[0]) && first.contains(first.last()));
        if kept.len() == 1 {
            assert(kept =~= seq![first]);
        } else {
            let rest = kept.skip(1);
            assert forall|i: int| 0 <= i < rest.len() implies !idle(#[trigger] rest[i])
                && !rest[i].contains('/') by {
                assert(rest[i] == kept[i + 1]);
            }
            lemma_joined(rest);
            lemma_parts_append(first, joined(rest));
            assert(seq![first] + rest =~= kept);
            assert(joined(kept).last() == joined(rest).last());
        }
    }
}

/// Resolving a path leaves its parts.
proof fn lemma_resolved_parts(path: Seq<char>)
    ensures
        parts(resolved(path)) == parts(path),
        path.len() > 0 && path[0] == '/' ==> resolved(path).len() > 0 && resolved(path)[0] == '/',
        !(path.len() > 0 && path[0] == '/') ==> !(resolved(path).len() > 0 && resolved(path)[0]
            == '/'),
        parts(path).len() > 0 ==> resolved(path).len() > 0 && path.len() > 0 && (
        resolved(path).last() == '/' <==> path.last() == '/'),
        !(resolved(path).len() > 1 && resolved(path)[0] == '/' && resolved(path)[1] == '/'),
{
    let kept = parts(path);
    let body = joined(kept);
    let none = Seq::<char>::empty();
    lemma_parts_are_sound(path);
    lemma_joined(kept);
    lemma_single_part(none);
    let rooted = path.len() > 0 && path[0] == '/';
    let tailed = kept.len() > 0 && path.last() == '/';
    if path.len() == 0 {
        assert(path == none);
    }
    let inner = if tailed {
        body + seq!['/']
    } else {
        body
    };
    if tailed {
        lemma_parts_append(body, none);
        assert(body + seq!['/'] + none == inner);
        assert(kept + Seq::<Seq<char>>::empty() == kept);
    }
    if rooted {
        lemma_parts_append(none, inner);
        assert(none + seq!['/'] + inner == seq!['/'] + inner);
        assert(resolved(path) =~= seq!['/'] + inner);
        assert(Seq::<Seq<char>>::empty() + kept == kept);
    } else {
        assert(resolved(path) =~= inner);
    }
}

/// A resolved path is resolved already.
pub proof fn law_resolving_again_changes_nothing(path: Seq<char>)
    ensures
        resolved(resolved(path)) == resolved(path),
{
    lemma_resolved_parts(path);
    lemma_resolved_parts(resolved(path));
}

/// No character comes into a path by resolving it, but for solidi.
proof fn lemma_resolved_characters(path: Seq<char>, c: char)
    requires
        c != '/',
        !path.contains(c),
    ensures
        !resolved(path).contains(c),
{
    lemma_part_characters(path, c);
    lemma_joined_characters(parts(path), c);
    let kept = joined(parts(path));
    if resolved(path).contains(c) {
        let i = choose|i: int| 0 <= i < resolved(path).len() && resolved(path)[i] == c;
        let k = if path.len() > 0 && path[0] == '/' {
            i - 1
        } else {
            i
        };
        assert(kept[k] == c);
    }
}

proof fn lemma_part_characters(path: Seq<char>, c: char)
    requires
        !path.contains(c),
    ensures
        forall|i: int| 0 <= i < parts(path).len() ==> !(#[trigger] parts(path)[i]).contains(c),
    decreases path.len(),
{
    let n = text::length_before(path, '/') as int;
    lemma_length_before_bounds(path, '/');
    let first = path.take(n);
    if first.contains(c) {
        let i = choose|i: int| 0 <= i < first.len() && first[i] == c;
        assert(path[i] == c);
    }
    if n < path.len() {
        let rest = path.skip(n + 1);
        if rest.contains(c) {
            let i = choose|i: int| 0 <= i < rest.len() && rest[i] == c;
            assert(path[n + 1 + i] == c);
        }
        lemma_part_characters(rest, c);
        let head = if idle(first) {
            seq![]
        } else {
            seq![first]
        };
        assert forall|i: int| 0 <= i < parts(path).len() implies !(#[trigger] parts(path)[i]).contains(
            c,
        ) by {
            if i >= head.len() {
                assert(parts(path)[i] == parts(rest)[i - head.len()]);
            }
        }
    }
}

proof fn lemma_joined_characters(kept: Seq<Seq<char>>, c: char)
    requires
        c != '/',
        forall|i: int| 0 <= i < kept.len() ==> !(#[trigger] kept[i]).contains(c),
    ensures
        !joined(kept).contains(c),
    decreases kept.len(),
{
    if kept.len() > 0 {
        assert(!kept[0].contains(c));
    }
    if kept.len() > 1 {
        let rest = kept.skip(1);
        assert forall|i: int| 0 <= i < rest.len() implies !(#[trigger] rest[i]).contains(c) by {
            assert(rest[i] == kept[i + 1]);
        }
        lemma_joined_characters(rest, c);
        if joined(kept).contains(c) {
            let i = choose|i: int| 0 <= i < joined(kept).len() && joined(kept)[i] == c;
            let n = kept[0].len();
            if i < n {
                assert(kept[0][i] == c);
            } else {
                assert(i > n);
                assert(joined(rest)[i - n - 1] == c);
            }
        }
    }
}

/// What stands before the resolved path in its absolute form: the working directory.
pub open spec fn directory_of(path: Seq<char>, absolute: Seq<char>) -> Seq<char> {
    absolute.take(absolute.len() - resolved(path).len() - 1)
}

/// Whether a working directory is written as resolved paths are, without a solidus at its end; the
/// root is the empty text.
pub open spec fn settled_directory(directory: Seq<char>) -> bool {
    directory.len() == 0 || (directory.last() != '/' && resolved(directory) == directory)
}

/// Making a path absolute a second time changes nothing, where both forms begin with a solidus.
/// Of a relative path this holds where the working directory is written as resolved paths are.
pub proof fn law_absolute_form_is_final(path: Seq<char>, absolute: Seq<char>, again: Seq<char>)
    requires
        portable(path),
        path.len() > 0,
        may_become(path, absolute),
        absolute[0] == '/',
        path[0] != '/' ==> parts(path).len() > 0 && portable(absolute) && settled_directory(
            directory_of(path, absolute),
        ),
        may_become(absolute, again),
        again[0] == '/',
    ensures
        again == absolute,
{
    lemma_resolved_parts(path);
    if path[0] == '/' {
        law_resolving_again_changes_nothing(path);
        lemma_resolved_characters(path, '\\');
    } else {
        let tail = resolved(path);
        let directory = directory_of(path, absolute);
        let slash = seq!['/'];
        assert(absolute.subrange(absolute.len() - tail.len() - 1, absolute.len() as int) == slash
            + tail);
        assert(absolute =~= directory + absolute.skip(absolute.len() - tail.len() - 1));
        assert(absolute.skip(absolute.len() - tail.len() - 1) =~= slash + tail);
        assert(absolute =~= directory + slash + tail);
        lemma_parts_append(directory, tail);
        let outer = parts(directory);
        let inner = parts(tail);
        lemma_parts_are_sound(directory);
        lemma_single_part(Seq::empty());
        if directory.len() == 0 {
            assert(directory == Seq::<char>::empty());
            assert(outer + inner == inner);
        } else {
            assert(directory[0] == absolute[0]);
            lemma_resolved_parts(directory);
            if outer.len() == 0 {
                assert(joined(outer).len() == 0);
                assert(directory =~= slash);
            }
            lemma_joined_append(outer, inner);
            assert(directory == slash + joined(outer));
        }
        assert(absolute.last() == tail.last());
        assert(resolved(absolute) =~= absolute);
    }
}

proof fn lemma_joined_append(a: Seq<Seq<char>>, b: Seq<Seq<char>>)
    requires
        a.len() > 0,
        b.len() > 0,
    ensures
        joined(a + b) == joined(a) + seq!['/'] + joined(b),
    decreases a.len(),
{
    if a.len() == 1 {
        assert((a + b).skip(1) == b);
    } else {
        assert((a + b).skip(1) == a.skip(1) + b);
        lemma_joined_append(a.skip(1), b);
        assert(joined(a + b) =~= joined(a) + seq!['/'] + joined(b));
    }
}

/// A file that is joined to a directory lies directly in it: its path is the directory, a separator
/// unless the directory joins bare, and the name.  Where a solidus separates the two, the path has
/// the parts of the directory and one more, the name.
pub proof fn law_joined_files_lie_in_the_directory(
    directory: Seq<char>,
    name: Seq<char>,
    path: Seq<char>,
)
    requires
        !verbatim(directory),
        is_name(name),
        may_join(directory, name, path),
    ensures
        ({
            ||| path == directory + seq!['/'] + name
            ||| path == directory + seq!['\\'] + name
            ||| joins_bare(directory) && path == directory + name
        }),
        directory.len() == 0 || directory.last() == '/' || path == directory + seq!['/'] + name
            ==> parts(path) == parts(directory).push(name),
{
    let none = Seq::<char>::empty();
    lemma_single_part(name);
    lemma_single_part(none);
    if directory.len() == 0 {
        assert(directory == none);
        assert(path == name);
        assert(parts(path) =~= parts(directory).push(name));
    } else if directory.last() == '/' {
        let before = directory.drop_last();
        lemma_parts_append(before, none);
        assert(before + seq!['/'] + none == directory);
        lemma_parts_append(before, name);
        assert(before + seq!['/'] + name == path);
        assert(parts(path) =~= parts(directory).push(name));
    } else if path == directory + seq!['/'] + name {
        lemma_parts_append(directory, name);
        assert(parts(path) =~= parts(directory).push(name));
    }
}

/// Different names in one directory are different paths.
pub proof fn law_joined_files_are_distinct(
    directory: Seq<char>,
    a: Seq<char>,
    b: Seq<char>,
    first: Seq<char>,
    second: Seq<char>,
)
    requires
        !verbatim(directory),
        is_name(a),
        is_name(b),
        a != b,
        may_join(directory, a, first),
        may_join(directory, b, second),
    ensures
        first != second,
{
    if first == second {
        let n = directory.len() as int;
        let rest = first.skip(n);
        lemma_behind_the_directory(directory, a, first);
        lemma_behind_the_directory(directory, b, second);
        assert(a.contains(a[0]) && b.contains(b[0]));
        if separates(rest[0]) {
            assert(rest.skip(1) == a && rest.skip(1) == b);
        } else {
            assert(rest == a && rest == b);
        }
    }
}

/// What a joined path holds behind its directory: the name, or a separator and the name.
proof fn lemma_behind_the_directory(directory: Seq<char>, name: Seq<char>, path: Seq<char>)
    requires
        !verbatim(directory),
        is_name(name),
        may_join(directory, name, path),
    ensures
        ({
            let rest = path.skip(directory.len() as int);
            &&& rest.len() > 0
            &&& rest == name && !separates(rest[0]) || separates(rest[0]) && rest.skip(1) == name
        }),
{
    let n = directory.len() as int;
    let rest = path.skip(n);
    assert(name.contains(name[0]));
    if path == directory + name {
        assert(rest =~= name);
    } else if path == directory + seq!['/'] + name {
        assert(rest =~= seq!['/'] + name);
        assert(rest.skip(1) =~= name);
    } else {
        assert(rest =~= seq!['\\'] + name);
        assert(rest.skip(1) =~= name);
    }
}

} // verus!
