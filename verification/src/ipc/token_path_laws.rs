//! What holds of the token file's place.

use super::token_path;
use crate::text;
use crate::text_facts;
use vstd::prelude::*;

verus! {

// ---------------------------------------------------------------------------
// Laws of the text
// ---------------------------------------------------------------------------

/// Whether the text can be a file name.
pub open spec fn is_file_name(name: Seq<char>) -> bool {
    &&& name.len() > 0
    &&& !name.contains('/')
    &&& name != seq!['.']
    &&& name != seq!['.', '.']
}

/// Whether the text between two `/` counts as a component.
pub open spec fn counts(piece: Seq<char>) -> bool {
    piece.len() > 0 && piece != seq!['.']
}

/// Where the last `/` is, there is none behind it.
pub proof fn lemma_last_slash_at(s: Seq<char>, k: int)
    requires
        -1 <= k < s.len(),
        k >= 0 ==> s[k] == '/',
        forall|i: int| k < i < s.len() ==> s[i] != '/',
    ensures
        token_path::last_slash(s) == k,
{
    token_path::lemma_last_slash(s);
}

/// Behind the last `/` of a file in a directory stands the file's name.
pub proof fn lemma_pieces_of_file(dir: Seq<char>, file: Seq<char>)
    requires
        !file.contains('/'),
    ensures
        token_path::last_piece(dir.push('/') + file) == file,
        token_path::before_last(dir.push('/') + file) == dir,
{
    let whole = dir.push('/') + file;
    let k = dir.len() as int;
    assert forall|i: int| k < i < whole.len() implies whole[i] != '/' by {
        assert(file.contains(file[i - k - 1]));
    }
    lemma_last_slash_at(whole, k);
    assert(whole.skip(k + 1) == file);
    assert(whole.take(k) == dir);
}

/// A name alone is its own last piece.
proof fn lemma_piece_of_name(name: Seq<char>)
    requires
        !name.contains('/'),
    ensures
        token_path::last_piece(name) == name,
        token_path::before_last(name) == Seq::<char>::empty(),
{
    assert forall|i: int| 0 <= i < name.len() implies name[i] != '/' by {
        assert(name.contains(name[i]));
    }
    lemma_last_slash_at(name, -1);
    assert(name.skip(0) == name);
}

/// What stands in front does not change the last piece, if it ends in `/` or a `/`
/// follows it.
proof fn lemma_piece_behind(front: Seq<char>, s: Seq<char>)
    requires
        s.len() > 0,
        front.len() == 0 || front.last() == '/' || s[0] == '/',
    ensures
        token_path::last_piece(front + s) == token_path::last_piece(s),
{
    let whole = front + s;
    let n = front.len() as int;
    let k = token_path::last_slash(s);
    token_path::lemma_last_slash(s);
    assert forall|i: int| n + k < i < whole.len() implies whole[i] != '/' by {
        assert(s[i - n] != '/');
    }
    lemma_last_slash_at(whole, n + k);
    assert(whole.skip(n + k + 1) == s.skip(k + 1));
}

/// A file name begins no path of another kind.
proof fn lemma_name_has_no_lead(name: Seq<char>)
    requires
        is_file_name(name),
    ensures
        token_path::lead(name) == 0,
{
    assert(name.contains(name[0]));
    if name.len() == 1 {
        assert(name[0] == '.' ==> name == seq!['.']);
    } else {
        assert(name.contains(name[1]));
    }
}

/// A name alone has no directory in front.
pub proof fn lemma_directory_of_name(name: Seq<char>)
    requires
        is_file_name(name),
    ensures
        token_path::has_file_name(name),
        token_path::directory_of(name) == Seq::<char>::empty(),
{
    lemma_name_has_no_lead(name);
    assert(name.skip(0) == name);
    lemma_piece_of_name(name);
    assert(token_path::tail_trimmed(name) == name);
    assert(token_path::directory_of(name) == Seq::<char>::empty());
}

/// The directory of a file is what precedes its name.
proof fn lemma_directory_of_file(front: Seq<char>, dir: Seq<char>, file: Seq<char>)
    requires
        is_file_name(file),
        token_path::lead(front + dir.push('/') + file) == front.len(),
        token_path::tail_trimmed(dir) == dir,
    ensures
        token_path::has_file_name(front + dir.push('/') + file),
        token_path::directory_of(front + dir.push('/') + file) == front + dir,
{
    let path = front + dir.push('/') + file;
    let body = dir.push('/') + file;
    assert(path.skip(front.len() as int) == body);
    assert(path.take(front.len() as int) == front);
    lemma_pieces_of_file(dir, file);
    assert(token_path::tail_trimmed(body) == body);
}

/// A file in a directory begins as the directory does.
pub proof fn lemma_lead_of_file(dir: Seq<char>, rest: Seq<char>)
    requires
        dir.len() > 0,
    ensures
        token_path::lead(dir.push('/') + rest) == token_path::lead(dir),
{
    let path = dir.push('/') + rest;
    assert(path[0] == dir[0]);
    if dir.len() == 1 {
        assert(path[1] == '/');
    } else {
        assert(path[1] == dir[1]);
    }
}

/// The directory of a file is what the file was put in, if that is written without
/// a trailing separator or `.` component; alone, `.` is fine. So the sibling of the
/// file is in that directory.
pub proof fn law_sibling_in_same_directory(dir: Seq<char>, file: Seq<char>, name: Seq<char>)
    requires
        is_file_name(file),
        dir.len() > 0 ==> dir.last() != '/',
        token_path::last_piece(dir) == seq!['.'] ==> dir == seq!['.'],
    ensures
        token_path::has_file_name(dir.push('/') + file),
        token_path::directory_of(dir.push('/') + file) == if dir.len() == 0 {
            seq!['/']
        } else {
            dir
        },
        token_path::sibling(dir.push('/') + file, name) == dir.push('/') + name,
{
    let path = dir.push('/') + file;
    if dir.len() == 0 {
        assert(path.skip(1) == file);
        assert(path.take(1) == seq!['/']);
        lemma_piece_of_name(file);
        assert(token_path::tail_trimmed(file) == file);
        assert(token_path::directory_of(path) == seq!['/']);
    } else {
        lemma_lead_of_file(dir, file);
        let front = dir.take(token_path::lead(dir));
        let rest = dir.skip(token_path::lead(dir));
        assert(front + rest == dir);
        assert(front + rest.push('/') + file == path);
        lemma_trimmed_below_lead(dir);
        lemma_directory_of_file(front, rest, file);
    }
}

/// There is nothing to trim below the lead of a directory that is written without a
/// trailing separator or `.` component.
proof fn lemma_trimmed_below_lead(dir: Seq<char>)
    requires
        dir.len() > 0,
        dir.last() != '/',
        token_path::last_piece(dir) == seq!['.'] ==> dir == seq!['.'],
    ensures
        token_path::tail_trimmed(dir.skip(token_path::lead(dir))) == dir.skip(
            token_path::lead(dir),
        ),
{
    let front = dir.take(token_path::lead(dir));
    let rest = dir.skip(token_path::lead(dir));
    assert(front + rest == dir);
    if rest.len() > 0 {
        assert(rest.last() == dir.last());
        lemma_piece_behind(front, rest);
        token_path::lemma_last_slash(rest);
        assert(token_path::last_piece(rest).len() > 0);
    }
}

/// All files of a directory have the same sibling of a given name: the file of that
/// name in the directory.
pub proof fn law_siblings_shared(a: Seq<char>, b: Seq<char>, name: Seq<char>)
    requires
        token_path::has_file_name(a),
        token_path::has_file_name(b),
        token_path::directory_of(a) == token_path::directory_of(b),
    ensures
        token_path::sibling(a, name) == token_path::inside(token_path::directory_of(a), name),
        token_path::sibling(b, name) == token_path::sibling(a, name),
{
}

/// A sibling is in the same directory, and so is its own sibling of that name.
pub proof fn law_sibling_is_final(path: Seq<char>, name: Seq<char>)
    requires
        token_path::has_file_name(path),
        is_file_name(name),
    ensures
        token_path::has_file_name(token_path::sibling(path, name)),
        token_path::directory_of(token_path::sibling(path, name)) == token_path::directory_of(path),
        token_path::sibling(token_path::sibling(path, name), name) == token_path::sibling(
            path,
            name,
        ),
{
    let dir = token_path::directory_of(path);
    let none = Seq::<char>::empty();
    lemma_directory_shape(path);
    if dir == seq!['/'] {
        assert(token_path::inside(dir, name) == none.push('/') + name);
        assert(token_path::last_piece(none).len() == 0);
        law_sibling_in_same_directory(none, name, name);
    } else if dir.len() > 0 {
        law_sibling_in_same_directory(dir, name, name);
    } else {
        assert(token_path::inside(dir, name) == name);
        lemma_directory_of_name(name);
    }
}

/// Trimming keeps the components up to one that is neither empty nor `.`.
pub proof fn lemma_tail_trimmed_shape(body: Seq<char>)
    ensures
        token_path::tail_trimmed(body).len() <= body.len(),
        token_path::tail_trimmed(body).is_prefix_of(body),
        token_path::tail_trimmed(body).len() > 0 ==> counts(
            token_path::last_piece(token_path::tail_trimmed(body)),
        ),
    decreases body.len(),
{
    if body.len() > 0 && !counts(token_path::last_piece(body)) {
        let front = token_path::before_last(body);
        let kept = token_path::tail_trimmed(body);
        token_path::lemma_last_slash(body);
        lemma_tail_trimmed_shape(front);
        assert(front.take(kept.len() as int) == body.take(kept.len() as int));
    } else {
        assert(body.take(body.len() as int) == body);
    }
}

/// The directory of a path begins as the path does, and what follows is nothing or
/// ends in a component that is neither empty nor `.`.
proof fn lemma_directory_parts(path: Seq<char>)
    ensures
        ({
            let tail = token_path::tail_trimmed(token_path::before_last(token_path::named(path)));
            &&& tail.len() > 0 ==> tail[0] == path[token_path::lead(path)] && counts(
                token_path::last_piece(tail),
            )
            &&& tail.len() > 1 ==> tail[1] == path[token_path::lead(path) + 1]
            &&& token_path::lead(path) + tail.len() <= path.len()
        }),
{
    let rest = path.skip(token_path::lead(path));
    let all = token_path::named(path);
    let before = token_path::before_last(all);
    let tail = token_path::tail_trimmed(before);
    lemma_tail_trimmed_shape(rest);
    token_path::lemma_last_slash(all);
    lemma_tail_trimmed_shape(before);
    assert(all == rest.take(all.len() as int));
    assert(tail == before.take(tail.len() as int));
    assert forall|i: int| 0 <= i < tail.len() implies tail[i] == rest[i] by {
        assert(tail[i] == before[i]);
        assert(before[i] == all[i]);
        assert(all[i] == rest.take(all.len() as int)[i]);
    }
}

/// The directory of a path is written without a trailing separator or `.`
/// component, unless it is `/` or `.` alone.
proof fn lemma_directory_shape(path: Seq<char>)
    ensures
        ({
            let dir = token_path::directory_of(path);
            &&& dir.len() > 0 && dir != seq!['/'] ==> dir.last() != '/'
            &&& token_path::last_piece(dir) == seq!['.'] ==> dir == seq!['.']
        }),
{
    let front = path.take(token_path::lead(path));
    let tail = token_path::tail_trimmed(token_path::before_last(token_path::named(path)));
    lemma_directory_parts(path);
    if tail.len() == 0 {
        assert(token_path::directory_of(path) == front);
        if front.len() == 1 {
            assert(path[0] == '/' ==> front == seq!['/']);
            assert(path[0] == '.' ==> front == seq!['.']);
            if path[0] == '/' {
                lemma_last_slash_at(front, 0);
                assert(token_path::last_piece(front).len() == 0);
            }
        } else {
            assert(token_path::last_piece(front).len() == 0);
        }
    } else {
        token_path::lemma_last_slash(tail);
        lemma_piece_behind(front, tail);
    }
}

// ---------------------------------------------------------------------------
// Laws of the path
// ---------------------------------------------------------------------------

/// The components that follow the lead.
pub open spec fn counted(body: Seq<char>) -> Seq<Seq<char>> {
    text::split(body, seq!['/']).filter(|piece: Seq<char>| counts(piece))
}

/// The components of a path: the root or the `.` that it begins with, and what is
/// between its separators but empty pieces and `.`. Two texts are the same path if
/// they have the same components.
pub open spec fn components(path: Seq<char>) -> Seq<Seq<char>> {
    if token_path::lead(path) == 1 {
        seq![path.take(1)] + counted(path.skip(1))
    } else {
        counted(path)
    }
}

/// The path that contains the last component.
pub open spec fn parent(path: Seq<char>) -> Seq<Seq<char>> {
    components(path).drop_last()
}

/// An empty text has no components.
pub proof fn lemma_counted_empty()
    ensures
        counted(Seq::empty()) == Seq::<Seq<char>>::empty(),
{
    let keep = |piece: Seq<char>| counts(piece);
    let none = Seq::<Seq<char>>::empty();
    let all = text::split(Seq::<char>::empty(), seq!['/']);
    reveal(Seq::filter);
    assert(none.filter(keep) == none);
    assert(all.drop_last() == none);
    assert(all.last().len() == 0);
}

/// A piece is one component or none.
proof fn lemma_counted_piece(piece: Seq<char>)
    requires
        !piece.contains('/'),
    ensures
        counts(piece) ==> counted(piece) == seq![piece],
        !counts(piece) ==> counted(piece) == Seq::<Seq<char>>::empty(),
{
    let keep = |p: Seq<char>| counts(p);
    let none = Seq::<Seq<char>>::empty();
    let slash = seq!['/'];
    assert forall|i: int| 0 <= i < piece.len() implies !slash.contains(#[trigger] piece[i]) by {
        assert(piece.contains(piece[i]));
    }
    text_facts::lemma_split_whole(piece, slash);
    reveal(Seq::filter);
    assert(none.filter(keep) == none);
    assert(seq![piece].drop_last() == none);
    assert(seq![piece].last() == piece);
    assert(none.push(piece) == seq![piece]);
}

/// A `/` parts the components before it from those behind it.
proof fn lemma_counted_parts(a: Seq<char>, b: Seq<char>)
    ensures
        counted(a.push('/') + b) == counted(a) + counted(b),
{
    let slash = seq!['/'];
    assert(slash[0] == '/');
    text_facts::lemma_split_at_separator(a, '/', b, slash);
    Seq::filter_distributes_over_add(
        text::split(a, slash),
        text::split(b, slash),
        |piece: Seq<char>| counts(piece),
    );
}

/// The components of a text are those before its last `/` and the last piece.
pub proof fn lemma_counted_last(body: Seq<char>)
    ensures
        counted(body) == if counts(token_path::last_piece(body)) {
            counted(token_path::before_last(body)).push(token_path::last_piece(body))
        } else {
            counted(token_path::before_last(body))
        },
{
    let piece = token_path::last_piece(body);
    let k = token_path::last_slash(body);
    token_path::lemma_last_slash(body);
    assert(!piece.contains('/')) by {
        if piece.contains('/') {
            let i = choose|i: int| 0 <= i < piece.len() && piece[i] == '/';
            assert(body[k + 1 + i] == '/');
        }
    }
    lemma_counted_piece(piece);
    lemma_counted_empty();
    if k < 0 {
        assert(piece == body);
        assert(Seq::<Seq<char>>::empty().push(piece) == seq![piece]);
    } else {
        let front = token_path::before_last(body);
        assert(front.push('/') + piece == body);
        lemma_counted_parts(front, piece);
        assert(counted(front) + seq![piece] == counted(front).push(piece));
        assert(counted(front) + Seq::<Seq<char>>::empty() == counted(front));
    }
}

/// Trimming loses no component.
pub proof fn lemma_counted_trimmed(body: Seq<char>)
    ensures
        counted(token_path::tail_trimmed(body)) == counted(body),
    decreases body.len(),
{
    if body.len() > 0 && !counts(token_path::last_piece(body)) {
        token_path::lemma_last_slash(body);
        lemma_counted_last(body);
        lemma_counted_trimmed(token_path::before_last(body));
    }
}

/// A file in a directory has one component more than the directory.
pub proof fn law_components_inside(dir: Seq<char>, name: Seq<char>)
    requires
        is_file_name(name),
    ensures
        components(token_path::inside(dir, name)) == components(dir).push(name),
{
    let whole = token_path::inside(dir, name);
    let none = Seq::<Seq<char>>::empty();
    lemma_counted_piece(name);
    lemma_counted_empty();
    if dir.len() == 0 {
        assert(whole == name);
        assert(dir == Seq::<char>::empty());
        lemma_name_has_no_lead(name);
        assert(none.push(name) == seq![name]);
    } else if dir == seq!['/'] {
        assert(whole.take(1) == dir && whole.skip(1) == name);
        assert(dir.take(1) == dir && dir.skip(1) == Seq::<char>::empty());
        assert(seq![dir] + seq![name] == (seq![dir] + none).push(name));
    } else {
        lemma_components_below(dir, name);
    }
}

/// A file in a directory that is neither nothing nor the root alone has one
/// component more than the directory.
proof fn lemma_components_below(dir: Seq<char>, name: Seq<char>)
    requires
        is_file_name(name),
        dir.len() > 0,
        dir != seq!['/'],
    ensures
        components(token_path::inside(dir, name)) == components(dir).push(name),
{
    let whole = token_path::inside(dir, name);
    let base = if dir.last() == '/' {
        dir.drop_last()
    } else {
        dir
    };
    assert(base.len() > 0) by {
        if base.len() == 0 {
            assert(dir == seq!['/']);
        }
    }
    assert(whole == base.push('/') + name);
    lemma_lead_of_file(base, name);
    if dir.last() == '/' {
        lemma_lead_of_file(base, Seq::empty());
        assert(base.push('/') + Seq::<char>::empty() == dir);
    }
    let n = token_path::lead(dir);
    let body = base.skip(n);
    lemma_counted_piece(name);
    lemma_counted_empty();
    lemma_counted_parts(body, name);
    lemma_counted_parts(body, Seq::empty());
    assert(whole.skip(n) == body.push('/') + name);
    assert(whole.skip(0) == whole && dir.skip(0) == dir);
    assert(whole.take(1) == dir.take(1));
    if dir.last() == '/' {
        assert(dir.skip(n) == body.push('/') + Seq::<char>::empty());
    }
    let below = counted(body);
    assert(below + Seq::<Seq<char>>::empty() == below);
    assert(below + seq![name] == below.push(name));
    assert(counted(dir.skip(n)) == below);
    assert(counted(whole.skip(n)) == below.push(name));
    assert(seq![dir.take(1)] + below.push(name) == (seq![dir.take(1)] + below).push(name));
}

/// The directory of a path with a file name is the path without that name.
pub proof fn law_directory_is_parent(path: Seq<char>)
    requires
        token_path::has_file_name(path),
    ensures
        components(path).len() > 0,
        components(path).last() == token_path::last_piece(token_path::named(path)),
        components(token_path::directory_of(path)) == parent(path),
{
    let n = token_path::lead(path);
    let rest = path.skip(n);
    let all = token_path::named(path);
    let tail = token_path::tail_trimmed(token_path::before_last(all));
    let dir = token_path::directory_of(path);
    lemma_tail_trimmed_shape(rest);
    lemma_counted_trimmed(rest);
    lemma_counted_last(all);
    lemma_counted_trimmed(token_path::before_last(all));
    assert(counted(rest) == counted(tail).push(token_path::last_piece(all)));
    lemma_lead_of_directory(path);
    assert(dir.skip(n) == tail);
    assert(path.skip(0) == path && dir.skip(0) == dir);
    assert(counted(rest).drop_last() == counted(tail));
    if n == 1 {
        assert(dir.take(1) == path.take(1));
        let first = seq![path.take(1)];
        assert((first + counted(rest)).drop_last() == first + counted(tail));
        assert((first + counted(rest)).last() == token_path::last_piece(all));
    }
}

/// The directory of a path begins as the path does.
proof fn lemma_lead_of_directory(path: Seq<char>)
    ensures
        token_path::lead(token_path::directory_of(path)) == token_path::lead(path),
{
    let dir = token_path::directory_of(path);
    let tail = token_path::tail_trimmed(token_path::before_last(token_path::named(path)));
    lemma_directory_parts(path);
    if token_path::lead(path) == 1 {
        assert(dir[0] == path[0]);
        if tail.len() > 0 {
            assert(dir[1] == path[1]);
        }
    } else {
        assert(dir == tail);
        if tail.len() == 1 {
            assert(tail[0] == '.' ==> tail == seq!['.']);
            assert(tail == seq!['.'] ==> !tail.contains('/'));
            if tail == seq!['.'] {
                lemma_piece_of_name(tail);
            }
        }
    }
}

/// The sibling of a path is the path with the last component replaced, where that is
/// a file name, and with the name added, where it is not.
pub proof fn law_sibling_replaces_last(path: Seq<char>, name: Seq<char>)
    requires
        is_file_name(name),
    ensures
        components(token_path::sibling(path, name)) == if token_path::has_file_name(path) {
            parent(path).push(name)
        } else {
            components(path).push(name)
        },
{
    if token_path::has_file_name(path) {
        law_directory_is_parent(path);
        law_components_inside(token_path::directory_of(path), name);
    } else {
        law_components_inside(path, name);
    }
}

/// A path whose last component can be a file name has that file name.
proof fn lemma_last_component_names(path: Seq<char>, name: Seq<char>)
    requires
        is_file_name(name),
        components(path).len() > 0,
        components(path).last() == name,
    ensures
        token_path::has_file_name(path),
{
    let rest = path.skip(token_path::lead(path));
    let below = counted(rest);
    assert(path.skip(0) == path);
    lemma_counted_trimmed(rest);
    lemma_counted_empty();
    lemma_tail_trimmed_shape(rest);
    lemma_counted_last(token_path::named(path));
    assert(below.len() > 0) by {
        if below.len() == 0 {
            assert(components(path) == seq![path.take(1)] + below);
            assert(name == path.take(1));
            assert(name[0] == path[0]);
            assert(name.contains(name[0]));
            assert(name[0] == '.' ==> name == seq!['.']);
        }
    }
    assert(below.last() == name);
    if token_path::named(path).len() == 0 {
        assert(token_path::named(path) == Seq::<char>::empty());
    }
}

/// The sibling of a sibling is the same path, whatever the path.
pub proof fn law_sibling_path_is_final(path: Seq<char>, name: Seq<char>)
    requires
        is_file_name(name),
    ensures
        token_path::has_file_name(token_path::sibling(path, name)),
        components(token_path::sibling(token_path::sibling(path, name), name)) == components(
            token_path::sibling(path, name),
        ),
{
    let once = token_path::sibling(path, name);
    law_sibling_replaces_last(path, name);
    lemma_last_component_names(once, name);
    law_sibling_replaces_last(once, name);
    assert(components(once).drop_last().push(name) == components(once));
}

/// All sockets with the same parent share one token file, in that parent, and the
/// path of a token file leads to itself. Where the directories are spelled alike, or
/// the token file's path is taken again, the texts are the same too.
pub proof fn law_token_file_shared(a: Seq<char>, b: Seq<char>)
    requires
        token_path::has_file_name(a),
        token_path::has_file_name(b),
        parent(a) == parent(b),
    ensures
        ({
            let name = token_path::TOKEN_FILE_NAME@;
            let token_a = token_path::sibling(a, name);
            let token_b = token_path::sibling(b, name);
            &&& components(token_a) == parent(a).push(name)
            &&& components(token_b) == components(token_a)
            &&& token_a == token_path::inside(token_path::directory_of(a), name)
            &&& token_path::directory_of(a) == token_path::directory_of(b) ==> token_b == token_a
            &&& token_path::sibling(token_a, name) == token_a
        }),
{
    lemma_token_file_name();
    law_sibling_replaces_last(a, token_path::TOKEN_FILE_NAME@);
    law_sibling_replaces_last(b, token_path::TOKEN_FILE_NAME@);
    law_sibling_is_final(a, token_path::TOKEN_FILE_NAME@);
}

/// The token file's name is one.
proof fn lemma_token_file_name()
    ensures
        is_file_name(token_path::TOKEN_FILE_NAME@),
{
    reveal_strlit("ipc.token");
    assert(token_path::TOKEN_FILE_NAME@.len() == 9);
}

} // verus!
