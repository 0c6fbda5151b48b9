//! What the forms of paths come to, component by component.

use super::error::PolicyErrorView;
use super::path;
use super::path_laws;
use super::path_meaning;
use crate::text;
use crate::text_facts;
use vstd::prelude::*;

verus! {

// ---------------------------------------------------------------------------
// Normalized paths
// ---------------------------------------------------------------------------

/// The text behind a namespace prefix, where there is one.
pub open spec fn behind_namespace(u: Seq<char>) -> Seq<char> {
    if u.len() >= 4 && u[0] == '/' && u[1] == '/' && (u[2] == '?' || u[2] == '.') && u[3] == '/' {
        u.subrange(4, u.len() as int)
    } else {
        u
    }
}

/// The text with two separators in place of a `UNC/` in front, where there is one.
pub open spec fn share_rooted(v: Seq<char>) -> Seq<char> {
    if v.len() >= 4 && v[0] == 'U' && v[1] == 'N' && v[2] == 'C' && v[3] == '/' {
        seq!['/', '/'] + v.subrange(4, v.len() as int)
    } else {
        v
    }
}

/// What is left of a path without white space around it and with `/` as separator: it
/// loses one namespace prefix, if it has one, and then the separators at its end. What
/// then begins with `UNC/` begins with two separators instead. The root keeps its one.
pub proof fn law_normalized_drops_last_separators(p: Seq<char>)
    ensures
        ({
            let v = share_rooted(behind_namespace(path::unified(text::trimmed(p))));
            let n = path::normalized(p);
            &&& n.is_prefix_of(v)
            &&& forall|i: int| n.len() <= i < v.len() ==> v[i] == '/'
            &&& n.len() > 0 ==> n.last() != '/' || n == seq!['/']
            &&& n == seq!['/'] <==> v == seq!['/']
        }),
{
    let u = path::unified(text::trimmed(p));
    let s = path::namespace_stripped(text::trimmed(p));
    let n = path::normalized(p);
    lemma_four_in_front(u, seq!['/', '/', '?', '/']);
    lemma_four_in_front(u, seq!['/', '/', '.', '/']);
    lemma_four_in_front(u, seq!['U', 'N', 'C', '/']);
    if u.len() >= 4 {
        lemma_four_in_front(u.skip(4), seq!['U', 'N', 'C', '/']);
    }
    text_facts::lemma_trimmed_end_of_shape(s, '/');
    lemma_cut_off_separators(s);
    if s == seq!['/'] {
        assert(n.take(1) == n);
    } else if n == seq!['/'] {
        assert(n.last() == '/');
    }
}

/// A prefix of four is a matter of four characters.
proof fn lemma_four_in_front(u: Seq<char>, prefix: Seq<char>)
    requires
        prefix.len() == 4,
    ensures
        prefix.is_prefix_of(u) <==> u.len() >= 4 && u[0] == prefix[0] && u[1] == prefix[1] && u[2]
            == prefix[2] && u[3] == prefix[3],
{
    if prefix.is_prefix_of(u) {
        assert(u.take(4) == prefix);
        assert(u.take(4)[0] == u[0] && u.take(4)[1] == u[1] && u.take(4)[2] == u[2] && u.take(
            4,
        )[3] == u[3]);
    }
    if u.len() >= 4 && u[0] == prefix[0] && u[1] == prefix[1] && u[2] == prefix[2] && u[3]
        == prefix[3] {
        assert(u.take(4) == prefix);
    }
}

/// What is cut off at the end are separators.
proof fn lemma_cut_off_separators(s: Seq<char>)
    ensures
        text::trimmed_end_of(s, '/').len() <= s.len(),
        forall|i: int| text::trimmed_end_of(s, '/').len() <= i < s.len() ==> #[trigger] s[i] == '/',
    decreases s.len(),
{
    if s.len() > 0 && s.last() == '/' {
        let head = s.drop_last();
        lemma_cut_off_separators(head);
        assert forall|i: int| text::trimmed_end_of(s, '/').len() <= i < s.len() implies
            #[trigger] s[i] == '/' by {
            if i < s.len() - 1 {
                assert(head[i] == s[i]);
            }
        }
    }
}

/// Separators of either kind are `/` in the end, and all else stays as it is.
pub proof fn law_unified_by_characters(s: Seq<char>)
    ensures
        path::unified(s).len() == s.len(),
        forall|i: int|
            0 <= i < s.len() ==> #[trigger] path::unified(s)[i] == if s[i] == '\\' {
                '/'
            } else {
                s[i]
            },
{
}

// ---------------------------------------------------------------------------
// Components that move nowhere, and those that do
// ---------------------------------------------------------------------------

/// Whether a separator behind the path would complete a namespace prefix.
pub open spec fn opens_namespace(a: Seq<char>) -> bool {
    let u = path::unified(a);
    ||| u == seq!['/', '/', '?']
    ||| u == seq!['/', '/', '.']
    ||| u == seq!['U', 'N', 'C']
    ||| u == seq!['/', '/', '?', '/', 'U', 'N', 'C']
    ||| u == seq!['/', '/', '.', '/', 'U', 'N', 'C']
}

/// Whether the text holds no separator.
pub open spec fn is_one_piece(c: Seq<char>) -> bool {
    forall|i: int| 0 <= i < c.len() ==> !path_meaning::separates(#[trigger] c[i])
}

/// The same prefix of four characters stands in front of a text and of what follows it
/// behind a separator.
proof fn lemma_prefix_behind(u: Seq<char>, c: Seq<char>, prefix: Seq<char>)
    requires
        prefix.len() == 4,
        prefix[3] == '/',
        prefix.take(3) != u,
        is_one_piece(c),
    ensures
        prefix.is_prefix_of(u.push('/') + c) <==> prefix.is_prefix_of(u),
{
    let q = u.push('/') + c;
    if prefix.is_prefix_of(u) {
        assert(q.take(4) == u.take(4));
    }
    if prefix.is_prefix_of(q) {
        assert(q.take(4) == prefix);
        assert(q[3] == q.take(4)[3]);
        if u.len() >= 4 {
            assert(q.take(4) == u.take(4));
        } else if u.len() == 3 {
            assert(prefix.take(3) == u) by {
                assert forall|i: int| 0 <= i < 3 implies prefix.take(3)[i] == u[i] by {
                    assert(q.take(4)[i] == q[i]);
                }
            }
        } else {
            assert(q[3] == c[3 - u.len() - 1]);
        }
    }
}

/// What is left without the namespace grows as the path does.
proof fn lemma_stripped_behind(a: Seq<char>, c: Seq<char>)
    requires
        !opens_namespace(a),
        is_one_piece(c),
    ensures
        path::namespace_stripped(a.push('/') + c) == path::namespace_stripped(a).push('/') + c,
{
    let q = a.push('/') + c;
    let ua = path::unified(a);
    let uq = path::unified(q);
    let verbatim = seq!['/', '/', '?', '/'];
    let device = seq!['/', '/', '.', '/'];
    let unc = seq!['U', 'N', 'C', '/'];
    assert(uq == ua.push('/') + c) by {
        assert forall|i: int| 0 <= i < uq.len() implies uq[i] == (ua.push('/') + c)[i] by {
            if i > a.len() {
                assert(!path_meaning::separates(c[i - a.len() - 1]));
            }
        }
    }
    assert(verbatim.take(3) == seq!['/', '/', '?']);
    assert(device.take(3) == seq!['/', '/', '.']);
    assert(unc.take(3) == seq!['U', 'N', 'C']);
    lemma_prefix_behind(ua, c, verbatim);
    lemma_prefix_behind(ua, c, device);
    let cut = verbatim.is_prefix_of(ua) || device.is_prefix_of(ua);
    let va = if cut {
        ua.skip(4)
    } else {
        ua
    };
    let vq = if cut {
        uq.skip(4)
    } else {
        uq
    };
    assert(vq == va.push('/') + c);
    assert(va != unc.take(3)) by {
        if cut && va == unc.take(3) {
            if verbatim.is_prefix_of(ua) {
                assert(ua == verbatim + va);
                assert(ua == seq!['/', '/', '?', '/', 'U', 'N', 'C']);
            } else {
                assert(ua == device + va);
                assert(ua == seq!['/', '/', '.', '/', 'U', 'N', 'C']);
            }
        }
    }
    lemma_prefix_behind(va, c, unc);
    if unc.is_prefix_of(va) {
        assert(vq.skip(4) == va.skip(4).push('/') + c);
        let share = seq!['/', '/'] + va.skip(4);
        assert(seq!['/', '/'] + (va.skip(4).push('/') + c) == share.push('/') + c);
    }
}

/// The moving components behind a separator come last.
proof fn lemma_moves_behind(s: Seq<char>, c: Seq<char>)
    requires
        is_one_piece(c),
    ensures
        path::is_idle(c) ==> path::moves(s.push('/') + c) == path::moves(s),
        !path::is_idle(c) ==> path::moves(s.push('/') + c) == path::moves(s).push(c),
        path::components(s.push('/') + c) == path::components(s).push(c),
{
    let slash = seq!['/'];
    let keep = |x: Seq<char>| !path::is_idle(x);
    assert(slash[0] == '/');
    assert forall|i: int| 0 <= i < c.len() implies !slash.contains(#[trigger] c[i]) by {
        assert(!path_meaning::separates(c[i]));
    }
    text_facts::lemma_split_at_separator(s, '/', c, slash);
    text_facts::lemma_split_whole(c, slash);
    let all = path::components(s);
    assert(all + seq![c] == all.push(c));
    reveal(Seq::filter);
    assert(all.push(c).drop_last() == all);
    assert(all.push(c).last() == c);
}

/// Separators at the end add nothing that moves, and no `..`.
proof fn lemma_moves_cut(s: Seq<char>)
    ensures
        path::moves(text::trimmed_end_of(s, '/')) == path::moves(s),
        path::components(text::trimmed_end_of(s, '/')).contains(path::parent_dir())
            == path::components(s).contains(path::parent_dir()),
    decreases s.len(),
{
    if s.len() > 0 && s.last() == '/' {
        let head = s.drop_last();
        let none = Seq::<char>::empty();
        lemma_moves_cut(head);
        lemma_moves_behind(head, none);
        assert(head.push('/') + none == s);
        lemma_push_keeps(path::components(head), none);
    }
}

/// Another component than `..` does not make one be there.
proof fn lemma_push_keeps(all: Seq<Seq<char>>, c: Seq<char>)
    requires
        c != path::parent_dir(),
    ensures
        all.push(c).contains(path::parent_dir()) == all.contains(path::parent_dir()),
{
    let dots = path::parent_dir();
    if all.contains(dots) {
        let k = choose|k: int| 0 <= k < all.len() && all[k] == dots;
        assert(all.push(c)[k] == dots);
    }
    if all.push(c).contains(dots) {
        let k = choose|k: int| 0 <= k < all.push(c).len() && all.push(c)[k] == dots;
        assert(all[k] == dots);
    }
}

/// Steps joined are nothing, one step, or longer than two characters.
proof fn lemma_joined_length(steps: Seq<Seq<char>>)
    requires
        forall|i: int| 0 <= i < steps.len() ==> path_laws::moves_down(#[trigger] steps[i]),
    ensures
        steps.len() == 0 <==> text::joined(steps, '/').len() == 0,
        text::joined(steps, '/') != path::current_dir(),
        text::joined(steps, '/') != seq!['/'],
{
    if steps.len() == 1 {
        assert(path_laws::moves_down(steps[0]));
        if steps[0] == seq!['/'] {
            assert(steps[0].contains(steps[0][0]));
        }
    } else if steps.len() > 1 {
        let front = steps.drop_last();
        assert(path_laws::moves_down(steps[steps.len() - 1]));
        assert(path_laws::moves_down(steps[0]));
        if front.len() == 1 {
            assert(front[0] == steps[0]);
        }
        assert(text::joined(front, '/').len() > 0);
        assert(text::joined(steps, '/').len() > 2);
    }
}

/// Of a path with a matching form that is not empty: what it was normalized to is not
/// empty either, and the form is that of its moving components, or `.` without any.
proof fn lemma_form_by_moves(a: Seq<char>)
    requires
        path::matching_form(a) is Ok,
        path::matching_form(a)->Ok_0.len() > 0,
    ensures
        ({
            let n = path::normalized(a);
            let rel = text::joined(path::moves(n), '/');
            &&& n.len() > 0
            &&& forall|i: int|
                0 <= i < path::moves(n).len() ==> path_laws::moves_down(
                    #[trigger] path::moves(n)[i],
                )
            &&& path::matching_form(a)->Ok_0 == if n[0] == '/' {
                seq!['/'] + rel
            } else if rel.len() == 0 {
                path::current_dir()
            } else {
                rel
            }
        }),
{
    let n = path::normalized(a);
    path_laws::lemma_moves_lead_down(a);
    if text::trimmed(a) == path::current_dir() {
        let t = path::current_dir();
        assert(path::unified(t) == t);
        assert(path::namespace_stripped(t) == t);
        assert(n == t);
        assert(!seq!['/'].contains('.'));
        text_facts::lemma_split_whole(t, seq!['/']);
        path_laws::lemma_idle_moves(t);
    } else if n.len() == 0 {
        assert(n == Seq::<char>::empty());
        path_laws::lemma_idle_moves(n);
    }
}

/// A component that moves is added to the form of the path it stands behind; a `.`
/// adds nothing.
#[verifier::rlimit(40)]
pub proof fn law_form_grows_by_component(a: Seq<char>, c: Seq<char>)
    requires
        path::matching_form(a) is Ok,
        path::matching_form(a)->Ok_0.len() > 0,
        text::trimmed(a) == a,
        !opens_namespace(a),
        is_one_piece(c),
        c.len() > 0,
        c != seq!['.', '.'],
        !text::white_space(c.last()),
    ensures
        path::matching_form(a.push('/') + c) == Ok::<Seq<char>, PolicyErrorView>(
            {
                let m = path::matching_form(a)->Ok_0;
                if c == seq!['.'] {
                    m
                } else if m == seq!['.'] {
                    c
                } else if m == seq!['/'] {
                    m + c
                } else {
                    m + seq!['/'] + c
                }
            },
        ),
        c != seq!['.'] ==> path::normal_form(a.push('/') + c) == path::matching_form(
            a.push('/') + c,
        ),
{
    let q = a.push('/') + c;
    let m = path::matching_form(a)->Ok_0;
    let s = path::namespace_stripped(a);
    let n = path::normalized(a);
    lemma_form_by_moves(a);
    assert(a.len() > 0) by {
        if a.len() == 0 {
            assert(path::unified(a) == a);
            assert(s == a);
            assert(text::trimmed_end_of(s, '/') == s);
        }
    }
    text_facts::lemma_trimmed_ends(a);
    text_facts::lemma_trimmed_ends(q);
    assert(q[0] == a[0] && q.last() == c.last());
    assert(text::trimmed(q) == q);
    lemma_stripped_behind(a, c);
    let sq = s.push('/') + c;
    assert(sq.last() == c.last());
    assert(!path_meaning::separates(c[c.len() - 1]));
    assert(sq.len() >= 2);
    assert(path::normalized(q) == sq);
    lemma_moves_cut(s);
    assert(path::moves(n) == path::moves(s));
    lemma_moves_behind(s, c);
    text_facts::lemma_trimmed_end_of_shape(s, '/');
    assert(sq[0] == n[0]) by {
        if s != seq!['/'] {
            assert(n[0] == s[0]);
        }
    }
    lemma_step_does_not_go_up(a, c);
    assert(path::components(s).contains(path::parent_dir()) == false);
    lemma_push_keeps(path::components(s), c);
    let steps = path::moves(s);
    let rel = text::joined(steps, '/');
    lemma_joined_length(steps);
    if path::is_idle(c) {
        assert(text::joined(path::moves(sq), '/') == rel);
    } else {
        let more = steps.push(c);
        assert(more.drop_last() == steps && more.last() == c);
        if steps.len() == 0 {
            assert(text::joined(more, '/') == c);
        } else {
            assert(text::joined(more, '/') == rel.push('/') + c);
        }
        assert(seq!['/'] + rel == seq!['/'] <==> rel.len() == 0) by {
            if rel.len() > 0 {
                assert((seq!['/'] + rel).len() > 1);
            } else {
                assert(seq!['/'] + rel == seq!['/']);
            }
        }
        assert(seq!['/'] + rel != path::current_dir()) by {
            assert((seq!['/'] + rel)[0] == '/');
        }
        assert(rel.push('/') + c == rel + seq!['/'] + c);
        assert(seq!['/'] + (rel.push('/') + c) == seq!['/'] + rel + seq!['/'] + c);
    }
}

/// A component other than `..` behind a path does not make it go up.
proof fn lemma_step_does_not_go_up(a: Seq<char>, c: Seq<char>)
    requires
        !path::traverses(a),
        is_one_piece(c),
        c != path::parent_dir(),
    ensures
        !path::traverses(a.push('/') + c),
{
    let both = seq!['/', '\\'];
    assert(both[0] == '/' && both[1] == '\\');
    assert forall|i: int| 0 <= i < c.len() implies !both.contains(#[trigger] c[i]) by {
        assert(!path_meaning::separates(c[i]));
    }
    text_facts::lemma_split_at_separator(a, '/', c, both);
    text_facts::lemma_split_whole(c, both);
    let all = text::split(a, both);
    assert(all + seq![c] == all.push(c));
    lemma_push_keeps(all, c);
}

/// A separator at the end adds nothing to the form of a path.
pub proof fn law_form_ignores_last_separator(a: Seq<char>)
    requires
        path::matching_form(a) is Ok,
        path::matching_form(a)->Ok_0.len() > 0,
        text::trimmed(a) == a,
        !opens_namespace(a),
        path::normalized(a) != seq!['/'],
    ensures
        path::matching_form(a.push('/')) == path::matching_form(a),
        path::normalized(a.push('/')) == path::normalized(a),
{
    let none = Seq::<char>::empty();
    let q = a.push('/');
    let s = path::namespace_stripped(a);
    let n = path::normalized(a);
    lemma_form_by_moves(a);
    assert(q + none == q);
    lemma_stripped_behind(a, none);
    assert(s.push('/') + none == s.push('/'));
    assert(a.len() > 0) by {
        if a.len() == 0 {
            assert(path::unified(a) == a);
            assert(s == a);
        }
    }
    text_facts::lemma_trimmed_ends(a);
    text_facts::lemma_trimmed_ends(q);
    assert(q[0] == a[0] && q.last() == '/');
    assert(text::trimmed(q) == q);
    text_facts::lemma_trimmed_end_of_shape(s, '/');
    assert(s.push('/').drop_last() == s);
    assert(s.push('/').len() >= 2);
    assert(path::normalized(q) == n);
    lemma_step_does_not_go_up(a, none);
    if a == path::current_dir() {
        assert(n == a) by {
            assert(path::unified(a) == a);
            assert(s == a);
        }
        assert(!seq!['/'].contains('.'));
        text_facts::lemma_split_whole(a, seq!['/']);
        path_laws::lemma_idle_moves(a);
    }
}

// ---------------------------------------------------------------------------
// Ends and shares
// ---------------------------------------------------------------------------

/// White space around a path makes no difference to its forms.
pub proof fn law_form_ignores_spacing(p: Seq<char>)
    requires
        path::normal_form(p) is Ok,
    ensures
        path::normalized(text::trimmed(p)) == path::normalized(p),
        path::normal_form(text::trimmed(p)) == path::normal_form(p),
        path::matching_form(text::trimmed(p)) == path::matching_form(p),
{
    text_facts::law_trim_once(p);
    path_meaning::law_form_refused_for_two_dots(p);
    path_meaning::law_form_refused_for_two_dots(text::trimmed(p));
}

/// A path of nothing but white space has an empty form.
pub proof fn law_blank_has_empty_form(p: Seq<char>)
    requires
        forall|i: int| 0 <= i < p.len() ==> text::white_space(#[trigger] p[i]),
    ensures
        path::normalized(p) == Seq::<char>::empty(),
        path::matching_form(p) == Ok::<Seq<char>, PolicyErrorView>(Seq::empty()),
        path::normal_form(p) == path::matching_form(p),
{
    let none = Seq::<char>::empty();
    assert(p.subrange(0, 0) == none);
    assert(text_facts::is_middle(p, none, 0, 0));
    text_facts::law_middle_is_trimmed(p, none, 0, 0);
    assert(path::unified(none) == none);
    assert(path::namespace_stripped(none) == none);
    path_meaning::law_form_refused_for_two_dots(p);
    assert(!path_meaning::goes_up(p)) by {
        if path_meaning::goes_up(p) {
            let i = choose|i: int| path_meaning::goes_up_at(p, i);
            assert(text::white_space(p[i]));
        }
    }
    assert(!path_meaning::goes_up(none));
    path_laws::lemma_idle_moves(none);
}

/// A network share has the form of a path from the root: `UNC/` in front counts as
/// the root.
pub proof fn law_share_is_absolute(rest: Seq<char>)
    requires
        rest.len() > 0,
        !text::white_space(rest.last()),
        path::normal_form(seq!['/'] + rest) is Ok,
        !seq!['/', '/', '?', '/'].is_prefix_of(path::unified(seq!['/'] + rest)),
        !seq!['/', '/', '.', '/'].is_prefix_of(path::unified(seq!['/'] + rest)),
    ensures
        path::normal_form(seq!['U', 'N', 'C', '/'] + rest) == path::normal_form(seq!['/'] + rest),
        path::matching_form(seq!['U', 'N', 'C', '/'] + rest) == path::matching_form(
            seq!['/'] + rest,
        ),
{
    let unc = seq!['U', 'N', 'C', '/'];
    let one = seq!['/'];
    let a = unc + rest;
    let b = one + rest;
    let ur = path::unified(rest);
    text_facts::lemma_trimmed_ends(a);
    text_facts::lemma_trimmed_ends(b);
    assert(a[0] == 'U' && b[0] == '/' && a.last() == rest.last() && b.last() == rest.last());
    assert(path::unified(a) == unc + ur);
    assert(path::unified(b) == one + ur);
    assert((unc + ur).take(4) == unc && (unc + ur).skip(4) == ur);
    assert(!seq!['/', '/', '?', '/'].is_prefix_of(unc + ur)) by {
        assert((unc + ur).take(4)[0] == 'U');
    }
    assert(!seq!['/', '/', '.', '/'].is_prefix_of(unc + ur)) by {
        assert((unc + ur).take(4)[0] == 'U');
    }
    assert(!unc.is_prefix_of(one + ur)) by {
        if unc.is_prefix_of(one + ur) {
            assert((one + ur).take(4)[0] == '/');
        }
    }
    let sa = path::namespace_stripped(a);
    let sb = path::namespace_stripped(b);
    assert(sa == seq!['/', '/'] + ur);
    assert(sb == one + ur);
    assert(sa == one + sb);
    assert(sb.len() > 1 && sa.len() > 1);
    path_meaning::law_form_refused_for_two_dots(a);
    path_meaning::law_form_refused_for_two_dots(b);
    path_meaning::lemma_front_goes_up(unc, rest);
    path_meaning::lemma_front_goes_up(one, rest);
    lemma_moves_cut(sa);
    lemma_moves_cut(sb);
    lemma_moves_behind_first(sb);
    lemma_cut_one_more(sb);
    let na = path::normalized(a);
    let nb = path::normalized(b);
    text_facts::lemma_trimmed_end_of_shape(sa, '/');
    text_facts::lemma_trimmed_end_of_shape(sb, '/');
    if nb.len() > 0 {
        assert(nb[0] == '/' && na[0] == '/');
    }
}

/// The form in which a path is matched is its normal form, or `.` where that is empty;
/// it is empty exactly if nothing is left of the path once normalized. A dot by itself
/// stands for the directory.
pub proof fn law_matching_form_beside_normal_form(p: Seq<char>)
    requires
        path::normal_form(p) is Ok,
    ensures
        ({
            let n = path::normal_form(p)->Ok_0;
            let m = path::matching_form(p)->Ok_0;
            &&& path::matching_form(p) is Ok
            &&& m == n || (n.len() == 0 && m == seq!['.'])
            &&& m.len() == 0 <==> path::normalized(p).len() == 0
            &&& text::trimmed(p) == seq!['.'] ==> n == seq!['.']
            &&& path::normalized(p).len() > 0 ==> (m[0] == '/' <==> path::normalized(p)[0] == '/')
        }),
{
    let n = path::normalized(p);
    if n.len() == 0 {
        assert(n == Seq::<char>::empty());
        path_laws::lemma_idle_moves(n);
        if text::trimmed(p) == path::current_dir() {
            let t = path::current_dir();
            assert(path::unified(t) == t);
            assert(path::namespace_stripped(t) == t);
            assert(n == t);
        }
    } else {
        lemma_form_by_moves(p);
        let steps = path::moves(n);
        if steps.len() > 0 && n[0] != '/' {
            path_laws::lemma_joined_ends(steps);
            assert(path_laws::moves_down(steps[0]));
            assert(steps[0].contains(steps[0][0]));
        }
    }
}

/// Another separator in front of a path from the root makes no difference, unless it
/// completes a namespace prefix.
pub proof fn law_form_ignores_doubled_root(p: Seq<char>)
    requires
        path::normal_form(p) is Ok,
        text::trimmed(p) == p,
        p.len() > 1,
        p[0] == '/',
        !seq!['/', '/', '?', '/'].is_prefix_of(path::unified(p)),
        !seq!['/', '/', '.', '/'].is_prefix_of(path::unified(p)),
        !seq!['/', '/', '?', '/'].is_prefix_of(path::unified(seq!['/'] + p)),
        !seq!['/', '/', '.', '/'].is_prefix_of(path::unified(seq!['/'] + p)),
    ensures
        path::normal_form(seq!['/'] + p) == path::normal_form(p),
        path::matching_form(seq!['/'] + p) == path::matching_form(p),
{
    let one = seq!['/'];
    let unc = seq!['U', 'N', 'C', '/'];
    let q = one + p;
    let up = path::unified(p);
    let uq = path::unified(q);
    text_facts::lemma_trimmed_ends(p);
    text_facts::lemma_trimmed_ends(q);
    assert(q[0] == '/' && q.last() == p.last());
    assert(uq == one + up);
    lemma_four_in_front(up, unc);
    lemma_four_in_front(uq, unc);
    assert(up[0] == '/' && uq[0] == '/');
    let sp = path::namespace_stripped(p);
    let sq = path::namespace_stripped(q);
    assert(sp == up && sq == one + sp);
    path_meaning::law_form_refused_for_two_dots(p);
    path_meaning::law_form_refused_for_two_dots(q);
    path_meaning::lemma_front_goes_up(one, p);
    lemma_moves_cut(sp);
    lemma_moves_cut(sq);
    lemma_moves_behind_first(sp);
    lemma_cut_one_more(sp);
    text_facts::lemma_trimmed_end_of_shape(sp, '/');
    text_facts::lemma_trimmed_end_of_shape(sq, '/');
    assert(sp.len() > 1 && sq.len() > 1);
    let np = path::normalized(p);
    let nq = path::normalized(q);
    if np.len() > 0 {
        assert(np[0] == '/' && nq[0] == '/');
    }
}

/// One more separator in front adds nothing that moves.
proof fn lemma_moves_behind_first(s: Seq<char>)
    ensures
        path::moves(seq!['/'] + s) == path::moves(s),
{
    let slash = seq!['/'];
    let none = Seq::<char>::empty();
    let keep = |x: Seq<char>| !path::is_idle(x);
    assert(slash[0] == '/');
    assert(none.push('/') + s == slash + s);
    text_facts::lemma_split_at_separator(none, '/', s, slash);
    assert(text::split(none, slash) == seq![none]);
    path_laws::lemma_filter_skips_first(none, path::components(s), keep);
}

/// Separators at the end are cut alike behind one more separator, unless nothing is
/// left of the text.
proof fn lemma_cut_one_more(s: Seq<char>)
    ensures
        text::trimmed_end_of(s, '/').len() == 0 <==> text::trimmed_end_of(
            seq!['/'] + s,
            '/',
        ).len() == 0,
    decreases s.len(),
{
    let whole = seq!['/'] + s;
    if s.len() == 0 {
        assert(whole.drop_last() == s);
        assert(whole.last() == '/');
    } else if s.last() == '/' {
        assert(whole.drop_last() == seq!['/'] + s.drop_last());
        assert(whole.last() == '/');
        lemma_cut_one_more(s.drop_last());
    } else {
        assert(whole.last() == s.last());
    }
}

} // verus!
