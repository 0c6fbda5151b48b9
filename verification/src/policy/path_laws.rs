//! What holds of normal forms of paths.

use super::error::PolicyErrorView;
use super::path;
use crate::text;
use crate::text_facts;
use vstd::prelude::*;

verus! {

// ---------------------------------------------------------------------------
// The shape of a normal form
// ---------------------------------------------------------------------------

/// Whether the component moves down into a directory.
pub open spec fn moves_down(c: Seq<char>) -> bool {
    &&& c.len() > 0
    &&& c != path::current_dir()
    &&& c != path::parent_dir()
    &&& !c.contains('/')
    &&& !c.contains('\\')
}

/// Whether a path spells out steps down, from the root or from anywhere.
pub open spec fn spells(n: Seq<char>, steps: Seq<Seq<char>>) -> bool {
    &&& forall|i: int| 0 <= i < steps.len() ==> moves_down(#[trigger] steps[i])
    &&& n == text::joined(steps, '/') || n == seq!['/'] + text::joined(steps, '/')
}

/// A normal form is `.`, or it leads straight down: no component is empty, `.` or
/// `..`, and there is no other separator than `/`.
pub proof fn law_normal_form_leads_down(p: Seq<char>)
    requires
        path::normal_form(p) is Ok,
    ensures
        path::normal_form(p)->Ok_0 == path::current_dir() || exists|steps: Seq<Seq<char>>|
            spells(path::normal_form(p)->Ok_0, steps),
{
    if path::normal_form(p)->Ok_0 != path::current_dir() {
        let n = path::normalized(p);
        lemma_moves_lead_down(p);
        assert(spells(path::collapsed(n), path::moves(n)));
    }
}

/// The moving components of a path without `..` lead down.
pub proof fn lemma_moves_lead_down(p: Seq<char>)
    requires
        !path::components(path::normalized(p)).contains(path::parent_dir()),
    ensures
        forall|i: int|
            0 <= i < path::moves(path::normalized(p)).len() ==> moves_down(
                #[trigger] path::moves(path::normalized(p))[i],
            ),
{
    let n = path::normalized(p);
    let all = path::components(n);
    let keep = |c: Seq<char>| !path::is_idle(c);
    assert forall|i: int| 0 <= i < path::moves(n).len() implies moves_down(
        #[trigger] path::moves(n)[i],
    ) by {
        let c = path::moves(n)[i];
        lemma_filter_selects(all, keep, i);
        let k = choose|k: int| 0 <= k < all.len() && all[k] == c;
        assert(all.contains(c));
        if exists|j: int| 0 <= j < c.len() && c[j] == '/' {
            let j = choose|j: int| 0 <= j < c.len() && c[j] == '/';
            text_facts::lemma_pieces_hold_no_separator(n, seq!['/'], k, j);
            assert(seq!['/'][0] == '/');
        }
        if exists|j: int| 0 <= j < c.len() && c[j] == '\\' {
            let j = choose|j: int| 0 <= j < c.len() && c[j] == '\\';
            text_facts::lemma_pieces_hold_no_separator(n, seq!['/'], k, j);
            lemma_normalized_unified(p);
        }
    }
}

/// What a filter lets through satisfies it and was there before.
proof fn lemma_filter_selects(all: Seq<Seq<char>>, keep: spec_fn(Seq<char>) -> bool, i: int)
    requires
        0 <= i < all.filter(keep).len(),
    ensures
        keep(all.filter(keep)[i]),
        all.contains(all.filter(keep)[i]),
    decreases all.len(),
{
    reveal(Seq::filter);
    if all.len() > 0 {
        let front = all.drop_last();
        let kept = front.filter(keep);
        if i < kept.len() {
            lemma_filter_selects(front, keep, i);
            let k = choose|k: int| 0 <= k < front.len() && front[k] == kept[i];
            assert(all[k] == kept[i]);
        } else {
            assert(all[all.len() - 1] == all.last());
        }
    }
}

/// A filter that everything satisfies lets everything through.
proof fn lemma_filter_everything(all: Seq<Seq<char>>, keep: spec_fn(Seq<char>) -> bool)
    requires
        forall|i: int| 0 <= i < all.len() ==> keep(#[trigger] all[i]),
    ensures
        all.filter(keep) == all,
    decreases all.len(),
{
    reveal(Seq::filter);
    if all.len() > 0 {
        let front = all.drop_last();
        assert forall|i: int| 0 <= i < front.len() implies keep(#[trigger] front[i]) by {
            assert(front[i] == all[i]);
        }
        lemma_filter_everything(front, keep);
        assert(keep(all[all.len() - 1]));
        assert(front.push(all.last()) == all);
    }
}

/// Normalizing leaves no Windows separator.
proof fn lemma_normalized_unified(p: Seq<char>)
    ensures
        !path::normalized(p).contains('\\'),
{
    let t = text::trimmed(p);
    let u = path::namespace_stripped(t);
    assert forall|i: int| 0 <= i < u.len() implies u[i] != '\\' by {
        let w = path::unified(t);
        assert forall|k: int| 0 <= k < w.len() implies w[k] != '\\' by {}
    }
    text_facts::lemma_trimmed_end_of_shape(u, '/');
}

// ---------------------------------------------------------------------------
// Normal forms of normal forms
// ---------------------------------------------------------------------------

/// The components of a path that spells steps down are those steps.
proof fn lemma_components_of_steps(n: Seq<char>, steps: Seq<Seq<char>>)
    requires
        spells(n, steps),
    ensures
        path::moves(n) == steps,
        !path::components(n).contains(path::parent_dir()),
        n == text::joined(steps, '/') && steps.len() > 0 ==> path::components(n) == steps,
{
    let keep = |c: Seq<char>| !path::is_idle(c);
    let relative = text::joined(steps, '/');
    let empty = Seq::<char>::empty();
    assert forall|i: int| 0 <= i < steps.len() implies keep(#[trigger] steps[i]) && !steps[i].contains(
        '/',
    ) by {
        assert(moves_down(steps[i]));
    }
    lemma_filter_everything(steps, keep);
    let body = path::components(relative);
    if steps.len() > 0 {
        text_facts::law_split_undoes_join(steps, '/');
        assert(body == steps);
    } else {
        assert(relative == empty);
        assert(body == seq![empty]);
        assert(body.filter(keep) == steps) by {
            reveal(Seq::filter);
            let none = Seq::<Seq<char>>::empty();
            assert(none.filter(keep) == none);
            assert(body.drop_last() == none && steps == none);
            assert(body.last() == empty);
        }
    }
    assert(body.filter(keep) == steps);
    assert(!body.contains(path::parent_dir()));
    if n != relative {
        assert(empty.push('/') + relative == n);
        assert(seq!['/'].contains('/')) by {
            assert(seq!['/'][0] == '/');
        }
        text_facts::lemma_split_at_separator(empty, '/', relative, seq!['/']);
        assert(text::split(empty, seq!['/']) == seq![empty]);
        assert(path::components(n) == seq![empty] + body);
        lemma_filter_skips_first(empty, body, keep);
        assert(!(seq![empty] + body).contains(path::parent_dir())) by {
            if (seq![empty] + body).contains(path::parent_dir()) {
                let k = choose|k: int|
                    0 <= k < (seq![empty] + body).len() && (seq![empty] + body)[k]
                        == path::parent_dir();
                if k > 0 {
                    assert(body[k - 1] == path::parent_dir());
                }
            }
        }
    }
}

/// A filter drops a first piece that does not satisfy it.
pub proof fn lemma_filter_skips_first(
    first: Seq<char>,
    rest: Seq<Seq<char>>,
    keep: spec_fn(Seq<char>) -> bool,
)
    requires
        !keep(first),
    ensures
        (seq![first] + rest).filter(keep) == rest.filter(keep),
    decreases rest.len(),
{
    reveal(Seq::filter);
    let all = seq![first] + rest;
    if rest.len() == 0 {
        let none = Seq::<Seq<char>>::empty();
        assert(none.filter(keep) == none);
        assert(all.drop_last() == none && rest == none);
        assert(all.last() == first);
    } else {
        assert(all.drop_last() == seq![first] + rest.drop_last());
        assert(all.last() == rest.last());
        lemma_filter_skips_first(first, rest.drop_last(), keep);
    }
}

/// Steps joined begin and end with characters of the steps.
pub proof fn lemma_joined_ends(steps: Seq<Seq<char>>)
    requires
        forall|i: int| 0 <= i < steps.len() ==> moves_down(#[trigger] steps[i]),
    ensures
        steps.len() == 0 ==> text::joined(steps, '/').len() == 0,
        steps.len() > 0 ==> text::joined(steps, '/').len() > 0 && text::joined(steps, '/')[0]
            == steps[0][0] && text::joined(steps, '/').last() == steps.last().last(),
        !text::joined(steps, '/').contains('\\'),
    decreases steps.len(),
{
    if steps.len() == 1 {
        assert(moves_down(steps[0]));
    } else if steps.len() > 1 {
        let front = steps.drop_last();
        assert forall|i: int| 0 <= i < front.len() implies moves_down(#[trigger] front[i]) by {
            assert(front[i] == steps[i]);
        }
        lemma_joined_ends(front);
        assert(moves_down(steps[steps.len() - 1]));
        let a = text::joined(front, '/');
        let whole = a.push('/') + steps.last();
        assert(front[0] == steps[0]);
        if whole.contains('\\') {
            let k = choose|k: int| 0 <= k < whole.len() && whole[k] == '\\';
            if k < a.len() {
                assert(a[k] == '\\');
            } else if k > a.len() {
                assert(steps.last()[k - a.len() - 1] == '\\');
            }
        }
    }
}

/// A path that spells steps down, without white space at its ends or `UNC/` in
/// front, is its own normal form.
pub proof fn law_clean_path_kept(n: Seq<char>, steps: Seq<Seq<char>>)
    requires
        spells(n, steps),
        text::trimmed(n) == n,
        !seq!['U', 'N', 'C', '/'].is_prefix_of(n),
    ensures
        path::normal_form(n) == Ok::<Seq<char>, PolicyErrorView>(n),
{
    let both = seq!['/', '\\'];
    let slash = seq!['/'];
    lemma_joined_ends(steps);
    lemma_components_of_steps(n, steps);
    let relative = text::joined(steps, '/');
    assert(!n.contains('\\')) by {
        if n != relative && n.contains('\\') {
            let k = choose|k: int| 0 <= k < n.len() && n[k] == '\\';
            assert(relative[k - 1] == '\\');
        }
    }
    assert forall|i: int| 0 <= i < n.len() implies both.contains(#[trigger] n[i])
        == slash.contains(n[i]) by {
        assert(both[0] == '/' && slash[0] == '/');
        assert(n.contains(n[i]));
    }
    lemma_split_same(n, both, slash);
    assert(!path::traverses(n));
    assert forall|i: int| 0 <= i < n.len() implies n[i] != '\\' by {
        assert(n.contains(n[i]));
    }
    assert(path::unified(n) == n);
    if steps.len() > 0 {
        assert(moves_down(steps[0]));
        assert(moves_down(steps[steps.len() - 1]));
        assert(relative[0] != '/') by {
            assert(steps[0].contains(steps[0][0]));
        }
        assert(relative.last() != '/') by {
            assert(steps.last().contains(steps.last().last()));
        }
    }
    assert(!(n.len() >= 2 && n[0] == '/' && n[1] == '/'));
    assert(path::namespace_stripped(n) == n);
    assert(path::normalized(n) == n);
    assert(relative.len() == 0 || n.last() == relative.last());
    assert(path::collapsed(n) == n) by {
        if n == relative && steps.len() > 0 {
            assert(n[0] != '/');
        }
    }
}

/// A normal form is its own normal form, unless white space has come to stand at
/// one of its ends or it begins with `UNC/`.
pub proof fn law_normal_form_is_final(p: Seq<char>)
    requires
        path::normal_form(p) is Ok,
        text::trimmed(path::normal_form(p)->Ok_0) == path::normal_form(p)->Ok_0,
        !seq!['U', 'N', 'C', '/'].is_prefix_of(path::normal_form(p)->Ok_0),
    ensures
        path::normal_form(path::normal_form(p)->Ok_0) == path::normal_form(p),
{
    let n = path::normal_form(p)->Ok_0;
    let both = seq!['/', '\\'];
    let slash = seq!['/'];
    if n == path::current_dir() {
        assert(!both.contains('.'));
        text_facts::lemma_split_whole(n, both);
        assert(text::split(n, both) == seq![n]);
        assert(n.len() != path::parent_dir().len());
        assert(!seq![n].contains(path::parent_dir()));
        assert(path::unified(n) == n);
        assert(path::namespace_stripped(n) == n);
        assert(path::normalized(n) == n);
        assert(!slash.contains('.'));
        text_facts::lemma_split_whole(n, slash);
    } else {
        law_normal_form_leads_down(p);
        let steps = choose|steps: Seq<Seq<char>>| spells(n, steps);
        law_clean_path_kept(n, steps);
    }
}

/// Two sets of separators that agree on a text's characters split it alike.
proof fn lemma_split_same(s: Seq<char>, a: Seq<char>, b: Seq<char>)
    requires
        forall|i: int| 0 <= i < s.len() ==> a.contains(#[trigger] s[i]) == b.contains(s[i]),
    ensures
        text::split(s, a) == text::split(s, b),
    decreases s.len(),
{
    if s.len() > 0 {
        let head = s.drop_last();
        assert forall|i: int| 0 <= i < head.len() implies a.contains(#[trigger] head[i])
            == b.contains(head[i]) by {
            assert(head[i] == s[i]);
        }
        lemma_split_same(head, a, b);
        assert(a.contains(s[s.len() - 1]) == b.contains(s[s.len() - 1]));
    }
}

// ---------------------------------------------------------------------------
// Separators
// ---------------------------------------------------------------------------

/// A path normalizes alike whichever separators it is written with.
pub proof fn law_separators_alike(p: Seq<char>)
    ensures
        path::normalized(path::unified(p)) == path::normalized(p),
        path::normal_form(path::unified(p)) is Ok <==> path::normal_form(p) is Ok,
        path::normal_form(p) is Ok ==> path::normal_form(path::unified(p)) == path::normal_form(p),
{
    let f = |c: char|
        if c == '\\' {
            '/'
        } else {
            c
        };
    let both = seq!['/', '\\'];
    let q = path::unified(p);
    assert(q == text_facts::mapped(p, f));
    assert forall|c: char| text::white_space(#[trigger] f(c)) == text::white_space(c) by {}
    text_facts::lemma_trimmed_mapped(p, f);
    let t = text::trimmed(p);
    assert(text::trimmed(q) == path::unified(t));
    assert(path::unified(path::unified(t)) == path::unified(t));
    assert(path::normalized(q) == path::normalized(p));
    assert forall|c: char| both.contains(#[trigger] f(c)) == both.contains(c) by {
        assert(both[0] == '/' && both[1] == '\\');
    }
    text_facts::lemma_split_mapped(p, f, both, both);
    let pieces = text::split(p, both);
    assert(text_facts::all_mapped(pieces, f) == pieces) by {
        assert forall|i: int| 0 <= i < pieces.len() implies text_facts::mapped(
            #[trigger] pieces[i],
            f,
        ) == pieces[i] by {
            assert forall|j: int| 0 <= j < pieces[i].len() implies pieces[i][j] != '\\' by {
                text_facts::lemma_pieces_hold_no_separator(p, both, i, j);
                assert(both[1] == '\\');
            }
        }
    }
    assert(path::traverses(q) == path::traverses(p));
    if text::trimmed(q) == path::current_dir() {
        assert(t.len() == 1 && f(t[0]) == path::unified(t)[0]);
        assert(t == path::current_dir());
    }
    if t == path::current_dir() {
        assert(path::unified(t) == t);
    }
}

/// Which directories a root admits does not depend on the separators that either
/// is written with.
pub proof fn law_separators_admit_alike(root: Seq<char>, cwd: Seq<char>)
    ensures
        path::admits(path::unified(root), path::unified(cwd)) == path::admits(root, cwd),
{
    law_separators_alike(root);
    law_separators_alike(cwd);
}

// ---------------------------------------------------------------------------
// Windows namespaces
// ---------------------------------------------------------------------------

/// The prefixes that put a Windows path in another namespace.
pub open spec fn is_namespace_prefix(prefix: Seq<char>) -> bool {
    prefix == seq!['\\', '\\', '?', '\\'] || prefix == seq!['\\', '\\', '.', '\\']
}

/// Whether a path is without a namespace prefix and without leading white space.
pub open spec fn is_bare(p: Seq<char>) -> bool {
    &&& p.len() > 0 ==> !text::white_space(p[0])
    &&& !seq!['/', '/', '?', '/'].is_prefix_of(path::unified(text::trimmed(p)))
    &&& !seq!['/', '/', '.', '/'].is_prefix_of(path::unified(text::trimmed(p)))
}

/// A verbatim or device prefix makes no difference to a path in matching, nor to its
/// normal form, except that only a dot by itself keeps that form.
pub proof fn law_namespace_prefix_ignored(prefix: Seq<char>, p: Seq<char>)
    requires
        is_namespace_prefix(prefix),
        is_bare(p),
    ensures
        path::normalized(prefix + p) == path::normalized(p),
        path::normal_form(prefix + p) is Ok <==> path::normal_form(p) is Ok,
        path::normal_form(p) is Ok ==> path::matching_form(prefix + p) == path::matching_form(p),
        path::normal_form(p) is Ok && text::trimmed(p) != path::current_dir() ==> path::normal_form(
            prefix + p,
        ) == path::normal_form(p),
{
    let whole = prefix + p;
    let t = text::trimmed(p);
    text_facts::lemma_trimmed_behind(prefix, p);
    assert(text::trimmed(whole) == prefix + t);
    let u = path::unified(t);
    let w = path::unified(prefix + t);
    assert(w == path::unified(prefix) + u);
    assert(w.skip(4) == u);
    let verbatim = seq!['/', '/', '?', '/'];
    let device = seq!['/', '/', '.', '/'];
    if prefix == seq!['\\', '\\', '?', '\\'] {
        assert(path::unified(prefix) == verbatim);
        assert(w.take(4) == verbatim);
    } else {
        assert(path::unified(prefix) == device);
        assert(w.take(4) == device);
    }
    assert(path::namespace_stripped(prefix + t) == path::namespace_stripped(t));
    let both = seq!['/', '\\'];
    assert(both.contains('\\')) by {
        assert(both[1] == '\\');
    }
    let front = prefix.take(3);
    assert(front.push('\\') + p == whole);
    text_facts::lemma_split_at_separator(front, '\\', p, both);
    let a = text::split(front, both);
    let b = text::split(p, both);
    assert(text::split(whole, both) == a + b);
    lemma_pieces_of_namespace(front);
    if b.contains(path::parent_dir()) {
        let k = choose|k: int| 0 <= k < b.len() && b[k] == path::parent_dir();
        assert((a + b)[a.len() + k] == path::parent_dir());
    }
    if (a + b).contains(path::parent_dir()) {
        let k = choose|k: int| 0 <= k < (a + b).len() && (a + b)[k] == path::parent_dir();
        if k < a.len() {
            assert(a[k] == path::parent_dir());
        } else {
            assert(b[k - a.len()] == path::parent_dir());
        }
    }
    assert(path::traverses(whole) == path::traverses(p));
    assert((prefix + t).len() >= 4);
    if t == path::current_dir() {
        assert(path::normalized(p) == t) by {
            assert(path::unified(t) == t);
            assert(path::namespace_stripped(t) == t);
        }
        assert(!seq!['/'].contains('.'));
        text_facts::lemma_split_whole(t, seq!['/']);
        lemma_idle_moves(t);
    }
}

/// What a namespace prefix consists of has no `..` component.
proof fn lemma_pieces_of_namespace(front: Seq<char>)
    requires
        front.len() == 3,
        front[0] == '\\',
        front[1] == '\\',
    ensures
        !text::split(front, seq!['/', '\\']).contains(path::parent_dir()),
{
    let both = seq!['/', '\\'];
    assert(both.contains('\\')) by {
        assert(both[1] == '\\');
    }
    let two = front.drop_last();
    let one = two.drop_last();
    assert(one.drop_last() == Seq::<char>::empty());
    assert(text::split(Seq::empty(), both) == seq![Seq::<char>::empty()]);
    assert(text::split(one, both) == seq![Seq::<char>::empty(), Seq::empty()]);
    assert(text::split(two, both) == seq![Seq::<char>::empty(), Seq::empty(), Seq::empty()]);
    let pieces = text::split(front, both);
    assert forall|k: int| 0 <= k < pieces.len() implies (#[trigger] pieces[k]).len() < 2 by {}
    if pieces.contains(path::parent_dir()) {
        let k = choose|k: int| 0 <= k < pieces.len() && pieces[k] == path::parent_dir();
        assert(pieces[k].len() < 2);
    }
}

// ---------------------------------------------------------------------------
// Case
// ---------------------------------------------------------------------------

/// The normal form of a path with a drive letter follows the case of its letters.
pub proof fn law_drive_form_follows_case(p: Seq<char>)
    requires
        path::normal_form(p) is Ok,
        path::drive_path(path::normal_form(p)->Ok_0),
    ensures
        path::normal_form(text::ascii_lowered(p)) == Ok::<Seq<char>, PolicyErrorView>(
            text::ascii_lowered(path::normal_form(p)->Ok_0),
        ),
{
    let f = |c: char| text::ascii_lower(c);
    let both = seq!['/', '\\'];
    let slash = seq!['/'];
    let low = text::ascii_lowered(p);
    assert(low == text_facts::mapped(p, f));
    assert forall|c: char| text::white_space(#[trigger] f(c)) == text::white_space(c) by {}
    text_facts::lemma_trimmed_mapped(p, f);
    let t = text::trimmed(p);
    let n = path::normalized(p);
    assert(text::trimmed(low) != path::current_dir()) by {
        if text::trimmed(low) == path::current_dir() {
            assert(t.len() == 1 && text_facts::mapped(t, f)[0] == f(t[0]));
            assert(t == path::current_dir());
        }
    }
    lemma_lowered_normalized(p);
    assert(both[0] == '/' && both[1] == '\\' && slash[0] == '/');
    assert forall|c: char| both.contains(#[trigger] f(c)) == both.contains(c) by {}
    assert forall|c: char| slash.contains(#[trigger] f(c)) == slash.contains(c) by {}
    text_facts::lemma_split_mapped(p, f, both, both);
    lemma_lowered_holds_parent(text::split(p, both));
    text_facts::lemma_split_mapped(n, f, slash, slash);
    lemma_lowered_holds_parent(path::components(n));
    let keep = |c: Seq<char>| !path::is_idle(c);
    assert forall|c: Seq<char>| keep(#[trigger] text_facts::mapped(c, f)) == keep(c) by {
        let m = text_facts::mapped(c, f);
        assert(m.len() == c.len());
        if c.len() == 1 {
            assert(m[0] == f(c[0]));
            if m == path::current_dir() {
                assert(c == path::current_dir());
            }
            if c == path::current_dir() {
                assert(m == path::current_dir());
            }
        }
    }
    text_facts::lemma_filter_mapped(path::components(n), f, keep);
    text_facts::lemma_joined_mapped(path::moves(n), f, '/');
    let r = text::joined(path::moves(n), '/');
    assert(text_facts::mapped(r, f) == text::ascii_lowered(r));
}

/// Lower case neither makes nor removes a `..` component.
proof fn lemma_lowered_holds_parent(pieces: Seq<Seq<char>>)
    ensures
        text_facts::all_mapped(pieces, |c: char| text::ascii_lower(c)).contains(path::parent_dir())
            == pieces.contains(path::parent_dir()),
{
    let f = |c: char| text::ascii_lower(c);
    let low = text_facts::all_mapped(pieces, f);
    let dots = path::parent_dir();
    if low.contains(dots) {
        let k = choose|k: int| 0 <= k < low.len() && low[k] == dots;
        let piece = pieces[k];
        assert(low[k] == text_facts::mapped(piece, f));
        assert(piece.len() == 2);
        assert(f(piece[0]) == low[k][0] && f(piece[1]) == low[k][1]);
        assert(piece == dots);
        assert(pieces.contains(dots));
    }
    if pieces.contains(dots) {
        let k = choose|k: int| 0 <= k < pieces.len() && pieces[k] == dots;
        assert(text_facts::mapped(dots, f) == dots);
        assert(low[k] == dots);
    }
}

/// Lower case commutes with normalizing a path that begins with a drive letter.
proof fn lemma_lowered_normalized(p: Seq<char>)
    requires
        path::drive_path(path::collapsed(path::normalized(p))),
    ensures
        path::normalized(text::ascii_lowered(p)) == text_facts::mapped(
            path::normalized(p),
            |c: char| text::ascii_lower(c),
        ),
{
    let f = |c: char| text::ascii_lower(c);
    let low = text::ascii_lowered(p);
    assert(low == text_facts::mapped(p, f));
    assert forall|c: char| text::white_space(#[trigger] f(c)) == text::white_space(c) by {}
    text_facts::lemma_trimmed_mapped(p, f);
    let t = text::trimmed(p);
    let u = path::unified(t);
    let ul = path::unified(text::trimmed(low));
    assert(ul == text_facts::mapped(u, f));
    let verbatim = seq!['/', '/', '?', '/'];
    let device = seq!['/', '/', '.', '/'];
    let unc = seq!['U', 'N', 'C', '/'];
    lemma_lowered_prefix(u, verbatim);
    lemma_lowered_prefix(u, device);
    let cut = verbatim.is_prefix_of(u) || device.is_prefix_of(u);
    let v = if cut {
        u.skip(4)
    } else {
        u
    };
    let vl = if cut {
        ul.skip(4)
    } else {
        ul
    };
    assert(vl == text_facts::mapped(v, f));
    let s = path::namespace_stripped(t);
    text_facts::lemma_trimmed_end_of_shape(s, '/');
    assert(!unc.is_prefix_of(v)) by {
        if unc.is_prefix_of(v) {
            assert(s[0] == '/');
            let n = path::normalized(p);
            if n.len() > 0 {
                assert(n[0] == '/');
                assert(path::collapsed(n)[0] == '/');
            } else {
                assert(n == Seq::<char>::empty());
                lemma_idle_moves(n);
            }
        }
    }
    assert(!unc.is_prefix_of(vl)) by {
        if unc.is_prefix_of(vl) {
            assert(vl[0] == 'U');
            assert(vl[0] == f(v[0]));
        }
    }
    let sl = path::namespace_stripped(text::trimmed(low));
    assert(sl == text_facts::mapped(s, f));
    assert((sl == seq!['/']) == (s == seq!['/'])) by {
        if s.len() == 1 {
            assert(sl[0] == f(s[0]));
            if sl == seq!['/'] {
                assert(s == seq!['/']);
            }
            if s == seq!['/'] {
                assert(sl == seq!['/']);
            }
        }
    }
    assert forall|c: char| (#[trigger] f(c) == '/') == (c == '/') by {}
    text_facts::lemma_trimmed_end_of_mapped(s, f, '/');
}

/// A path of one component that moves nowhere has no moving components.
pub proof fn lemma_idle_moves(n: Seq<char>)
    requires
        path::components(n) == seq![n],
        path::is_idle(n),
    ensures
        text::joined(path::moves(n), '/').len() == 0,
{
    let keep = |c: Seq<char>| !path::is_idle(c);
    reveal(Seq::filter);
    let none = Seq::<Seq<char>>::empty();
    let all = path::components(n);
    assert(none.filter(keep) == none);
    assert(all.drop_last() == none);
    assert(all.last() == n);
    assert(path::moves(n) == none);
}

/// A prefix without letters is there in lower case exactly if it was there before.
proof fn lemma_lowered_prefix(s: Seq<char>, prefix: Seq<char>)
    requires
        forall|i: int|
            0 <= i < prefix.len() ==> !('A' <= #[trigger] prefix[i] <= 'Z') && !('a' <= prefix[i]
                <= 'z'),
    ensures
        prefix.is_prefix_of(text_facts::mapped(s, |c: char| text::ascii_lower(c)))
            == prefix.is_prefix_of(s),
{
    let f = |c: char| text::ascii_lower(c);
    let low = text_facts::mapped(s, f);
    let k = prefix.len() as int;
    if prefix.is_prefix_of(s) {
        assert forall|i: int| 0 <= i < k implies low[i] == prefix[i] by {
            assert(s.take(k)[i] == prefix[i]);
            assert(low[i] == f(s[i]));
        }
        assert(low.take(k) == prefix);
    }
    if prefix.is_prefix_of(low) {
        assert forall|i: int| 0 <= i < k implies s[i] == prefix[i] by {
            assert(low.take(k)[i] == prefix[i]);
            assert(low[i] == f(s[i]));
        }
        assert(s.take(k) == prefix);
    }
}

/// Whether the normal form of a path begins with a drive letter.
pub open spec fn has_drive(p: Seq<char>) -> bool {
    path::normal_form(p) matches Ok(n) && path::drive_path(n)
}

/// The case of the ASCII letters of a path with a drive letter makes no difference,
/// neither to what it admits as a root nor to what admits it.
pub proof fn law_drive_case_blind(root: Seq<char>, cwd: Seq<char>)
    ensures
        has_drive(root) ==> path::admits(text::ascii_lowered(root), cwd) == path::admits(root, cwd),
        has_drive(cwd) ==> path::admits(root, text::ascii_lowered(cwd)) == path::admits(root, cwd),
{
    let r = path::normal_form(root)->Ok_0;
    let c = path::normal_form(cwd)->Ok_0;
    assert(text::ascii_lowered(text::ascii_lowered(r)) == text::ascii_lowered(r));
    assert(text::ascii_lowered(text::ascii_lowered(c)) == text::ascii_lowered(c));
    if has_drive(root) {
        law_drive_form_follows_case(root);
        assert(path::drive_path(text::ascii_lowered(r)));
    }
    if has_drive(cwd) {
        law_drive_form_follows_case(cwd);
        assert(path::drive_path(text::ascii_lowered(c)));
    }
}

} // verus!
