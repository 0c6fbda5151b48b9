//! What the rules on paths come to, in terms of the characters that callers hand in.

use super::error::PolicyErrorView;
use super::meaning;
use super::path;
use super::path_laws;
use crate::text;
use crate::text_facts;
use vstd::prelude::*;

verus! {

// ---------------------------------------------------------------------------
// Which directories a root admits
// ---------------------------------------------------------------------------

/// Whether the text begins with an ASCII letter and a colon.
pub open spec fn on_a_drive(p: Seq<char>) -> bool {
    &&& p.len() >= 2
    &&& p[1] == ':'
    &&& 'A' <= p[0] <= 'Z' || 'a' <= p[0] <= 'z'
}

/// Whether `c` begins with all characters of `r`, and ends there or goes on with `/`.
pub open spec fn goes_on_from(c: Seq<char>, r: Seq<char>) -> bool {
    &&& c.len() >= r.len()
    &&& forall|i: int| 0 <= i < r.len() ==> c[i] == #[trigger] r[i]
    &&& c.len() > r.len() ==> c[r.len() as int] == '/'
}

/// The same, with the case of ASCII letters set aside.
pub open spec fn goes_on_from_in_any_case(c: Seq<char>, r: Seq<char>) -> bool {
    &&& c.len() >= r.len()
    &&& forall|i: int|
        0 <= i < r.len() ==> text::ascii_lower(c[i]) == text::ascii_lower(#[trigger] r[i])
    &&& c.len() > r.len() ==> c[r.len() as int] == '/'
}

/// Being within a directory is a matter of the first characters, all of them.
proof fn lemma_within_by_characters(c: Seq<char>, r: Seq<char>)
    ensures
        path::is_within(c, r) <==> goes_on_from(c, r),
{
    let n = r.len() as int;
    if path::is_within(c, r) && c != r {
        assert(c.take(n + 1) == r.push('/'));
        assert forall|i: int| 0 <= i < n implies c[i] == #[trigger] r[i] by {
            assert(c.take(n + 1)[i] == r.push('/')[i]);
        }
        assert(c.take(n + 1)[n] == '/');
    }
    if goes_on_from(c, r) {
        if c.len() == r.len() {
            assert(c == r);
        } else {
            assert(c.take(n + 1) == r.push('/'));
        }
    }
}

/// The same for texts in lower case.
proof fn lemma_within_in_any_case(c: Seq<char>, r: Seq<char>)
    ensures
        path::is_within(text::ascii_lowered(c), text::ascii_lowered(r))
            <==> goes_on_from_in_any_case(c, r),
{
    let cl = text::ascii_lowered(c);
    let rl = text::ascii_lowered(r);
    lemma_within_by_characters(cl, rl);
    if goes_on_from(cl, rl) {
        assert forall|i: int| 0 <= i < r.len() implies text::ascii_lower(c[i])
            == text::ascii_lower(#[trigger] r[i]) by {
            assert(cl[i] == rl[i]);
        }
        if c.len() > r.len() {
            assert(cl[r.len() as int] == text::ascii_lower(c[r.len() as int]));
        }
    }
    if goes_on_from_in_any_case(c, r) {
        assert forall|i: int| 0 <= i < rl.len() implies cl[i] == #[trigger] rl[i] by {
            assert(text::ascii_lower(c[i]) == text::ascii_lower(r[i]));
        }
    }
}

/// A root admits a directory exactly if both have a form, neither is empty, and: the
/// root is `/`; or it is `.` and the directory starts neither at `/` nor on a drive;
/// or the directory begins with every character of the root and goes on with `/`, if
/// at all. On a drive the case of letters does not count; which letter it is does.
pub proof fn law_admitted_by_characters(root: Seq<char>, cwd: Seq<char>)
    ensures
        path::admits(root, cwd) <==> {
            let r = path::matching_form(root)->Ok_0;
            let c = path::matching_form(cwd)->Ok_0;
            &&& path::matching_form(root) is Ok
            &&& path::matching_form(cwd) is Ok
            &&& r.len() > 0
            &&& c.len() > 0
            &&& {
                ||| r == seq!['/']
                ||| r == seq!['.'] && c[0] != '/' && !on_a_drive(c)
                ||| goes_on_from(c, r)
                ||| (on_a_drive(c) || on_a_drive(r)) && goes_on_from_in_any_case(c, r)
            }
        },
{
    if path::matching_form(root) is Ok && path::matching_form(cwd) is Ok {
        let r = path::matching_form(root)->Ok_0;
        let c = path::matching_form(cwd)->Ok_0;
        lemma_within_by_characters(c, r);
        lemma_within_in_any_case(c, r);
    }
}

/// No root but `/` and `.` admits a directory that does not begin with its characters,
/// one by one from the first, letters in either case.
pub proof fn law_admitted_begins_with_root(root: Seq<char>, cwd: Seq<char>)
    requires
        path::admits(root, cwd),
        path::matching_form(root)->Ok_0 != seq!['/'],
        path::matching_form(root)->Ok_0 != seq!['.'],
    ensures
        ({
            let r = text::ascii_lowered(path::matching_form(root)->Ok_0);
            let c = text::ascii_lowered(path::matching_form(cwd)->Ok_0);
            &&& r.len() <= c.len()
            &&& c.subrange(0, r.len() as int) == r
            &&& c.len() > r.len() ==> c[r.len() as int] == '/'
        }),
{
    let r = path::matching_form(root)->Ok_0;
    let c = path::matching_form(cwd)->Ok_0;
    law_admitted_by_characters(root, cwd);
    let rl = text::ascii_lowered(r);
    let cl = text::ascii_lowered(c);
    assert forall|i: int| 0 <= i < r.len() implies cl[i] == rl[i] by {
        if goes_on_from(c, r) {
            assert(c[i] == r[i]);
        } else {
            assert(text::ascii_lower(c[i]) == text::ascii_lower(r[i]));
        }
    }
    assert(cl.subrange(0, r.len() as int) == rl);
}

/// A root on a drive admits nothing that is not on the same drive.
pub proof fn law_drives_kept_apart(root: Seq<char>, cwd: Seq<char>)
    requires
        path::admits(root, cwd),
        on_a_drive(path::matching_form(root)->Ok_0),
    ensures
        on_a_drive(path::matching_form(cwd)->Ok_0),
        text::ascii_lower(path::matching_form(cwd)->Ok_0[0]) == text::ascii_lower(
            path::matching_form(root)->Ok_0[0],
        ),
{
    let r = path::matching_form(root)->Ok_0;
    let c = path::matching_form(cwd)->Ok_0;
    law_admitted_by_characters(root, cwd);
    assert(r.len() >= 2 && seq!['/'].len() == 1 && seq!['.'].len() == 1);
    if goes_on_from(c, r) {
        assert(c[0] == r[0] && c[1] == r[1]);
    } else {
        assert(text::ascii_lower(c[0]) == text::ascii_lower(r[0]));
        assert(text::ascii_lower(c[1]) == text::ascii_lower(r[1]));
    }
}

/// Off the drives, case counts: a root other than `/` and `.` admits only what begins
/// with it letter for letter.
pub proof fn law_case_counts_off_drives(root: Seq<char>, cwd: Seq<char>)
    requires
        path::admits(root, cwd),
        path::matching_form(root)->Ok_0 != seq!['/'],
        path::matching_form(root)->Ok_0 != seq!['.'],
        !on_a_drive(path::matching_form(root)->Ok_0),
        !on_a_drive(path::matching_form(cwd)->Ok_0),
    ensures
        path::matching_form(root)->Ok_0.is_prefix_of(path::matching_form(cwd)->Ok_0),
{
    let r = path::matching_form(root)->Ok_0;
    let c = path::matching_form(cwd)->Ok_0;
    law_admitted_by_characters(root, cwd);
    assert(c.take(r.len() as int) == r);
}

// ---------------------------------------------------------------------------
// The verdict on a working directory
// ---------------------------------------------------------------------------

/// Whether either separator.
pub open spec fn separates(c: char) -> bool {
    c == '/' || c == '\\'
}

/// Whether the two characters from `i` are dots and stand between separators or ends.
pub open spec fn goes_up_at(p: Seq<char>, i: int) -> bool {
    &&& 0 <= i <= p.len() - 2
    &&& p[i] == '.'
    &&& p[i + 1] == '.'
    &&& i == 0 || separates(p[i - 1])
    &&& i + 2 == p.len() || separates(p[i + 2])
}

/// Whether two dots stand anywhere between separators or ends.
pub open spec fn goes_up(p: Seq<char>) -> bool {
    exists|i: int| goes_up_at(p, i)
}

/// Splitting at `seps` yields `..` exactly if the text goes up, where `seps` are the
/// separators it holds.
proof fn lemma_split_goes_up(p: Seq<char>, seps: Seq<char>)
    requires
        forall|i: int| 0 <= i < p.len() ==> seps.contains(#[trigger] p[i]) == separates(p[i]),
    ensures
        text::split(p, seps).contains(path::parent_dir()) <==> goes_up(p),
{
    let dots = path::parent_dir();
    text_facts::law_split_holds(p, seps, dots);
    if text::split(p, seps).contains(dots) {
        let (i, j) = choose|i: int, j: int| #[trigger]
            text_facts::stands_between(p, seps, i, j) && p.subrange(i, j) == dots;
        assert(p.subrange(i, j).len() == dots.len());
        assert(j - i == 2);
        assert(p[i] == p.subrange(i, j)[0] && p[i + 1] == p.subrange(i, j)[1]);
        if i > 0 {
            assert(seps.contains(p[i - 1]) == separates(p[i - 1]));
        }
        if j < p.len() {
            assert(seps.contains(p[j]) == separates(p[j]));
        }
        assert(goes_up_at(p, i));
    }
    if goes_up(p) {
        let i = choose|i: int| goes_up_at(p, i);
        if i > 0 {
            assert(seps.contains(p[i - 1]) == separates(p[i - 1]));
        }
        if i + 2 < p.len() {
            assert(seps.contains(p[i + 2]) == separates(p[i + 2]));
        }
        assert(seps.contains(p[i]) == separates(p[i]));
        assert(seps.contains(p[i + 1]) == separates(p[i + 1]));
        assert(text_facts::stands_between(p, seps, i, i + 2));
        assert(p.subrange(i, i + 2) == dots);
    }
}

/// A path traverses exactly if two dots by themselves stand between its separators,
/// of either kind, or ends.
pub proof fn law_traversal_is_two_dots(p: Seq<char>)
    ensures
        path::traverses(p) <==> goes_up(p),
{
    let both = seq!['/', '\\'];
    assert(both[0] == '/' && both[1] == '\\');
    lemma_split_goes_up(p, both);
}

/// A path has no form exactly if it goes up, as written or without white space around
/// it; the refusal names it as written. No other path is refused a form.
pub proof fn law_form_refused_for_two_dots(p: Seq<char>)
    ensures
        path::normal_form(p) is Err <==> goes_up(p) || goes_up(text::trimmed(p)),
        path::matching_form(p) is Err <==> path::normal_form(p) is Err,
        path::normal_form(p) is Err ==> path::normal_form(p) == Err::<Seq<char>, _>(
            PolicyErrorView::PathTraversal { path: p },
        ),
{
    let t = text::trimmed(p);
    let u = path::unified(t);
    let n = path::normalized(p);
    law_traversal_is_two_dots(p);
    lemma_unified_goes_up(t);
    lemma_stripped_goes_up(t);
    lemma_cut_goes_up(path::namespace_stripped(t));
    lemma_no_backslash(t);
    text_facts::lemma_trimmed_end_of_shape(path::namespace_stripped(t), '/');
    assert(seq!['/'][0] == '/');
    assert forall|i: int| 0 <= i < n.len() implies seq!['/'].contains(#[trigger] n[i])
        == separates(n[i]) by {
        assert(n[i] == path::namespace_stripped(t)[i]);
    }
    lemma_split_goes_up(n, seq!['/']);
}

/// One kind of separators or the other makes no difference to going up.
proof fn lemma_unified_goes_up(t: Seq<char>)
    ensures
        goes_up(path::unified(t)) <==> goes_up(t),
{
    let u = path::unified(t);
    assert forall|i: int| goes_up_at(u, i) == goes_up_at(t, i) by {
        if 0 <= i <= t.len() - 2 {
            assert(u[i] == '.' <==> t[i] == '.');
            assert(u[i + 1] == '.' <==> t[i + 1] == '.');
            if i > 0 {
                assert(separates(u[i - 1]) == separates(t[i - 1]));
            }
            if i + 2 < t.len() {
                assert(separates(u[i + 2]) == separates(t[i + 2]));
            }
        }
    }
    if goes_up(u) {
        let i = choose|i: int| goes_up_at(u, i);
        assert(goes_up_at(t, i));
    }
    if goes_up(t) {
        let i = choose|i: int| goes_up_at(t, i);
        assert(goes_up_at(u, i));
    }
}

/// No Windows separator is left without the namespace.
proof fn lemma_no_backslash(t: Seq<char>)
    ensures
        forall|i: int|
            0 <= i < path::namespace_stripped(t).len() ==> path::namespace_stripped(t)[i] != '\\',
{
    let u = path::unified(t);
    assert forall|i: int| 0 <= i < u.len() implies u[i] != '\\' by {}
}

/// Behind a front of characters that ends in a separator and does not go up by itself,
/// a text goes up as it does alone or behind another such front.
pub proof fn lemma_front_goes_up(front: Seq<char>, rest: Seq<char>)
    requires
        front.len() > 0,
        separates(front.last()),
        forall|i: int|
            0 <= i < front.len() - 1 ==> !(#[trigger] front[i] == '.' && front[i + 1] == '.'),
    ensures
        goes_up(front + rest) <==> goes_up(rest),
{
    let whole = front + rest;
    let n = front.len() as int;
    assert forall|i: int| 0 <= i < rest.len() implies whole[n + i] == #[trigger] rest[i] by {}
    if goes_up(whole) {
        let i = choose|i: int| goes_up_at(whole, i);
        if i < n - 1 {
            assert(front[i] == whole[i] && front[i + 1] == whole[i + 1]);
        }
        if i == n - 1 {
            assert(whole[i] == front.last());
        }
        let k = i - n;
        assert(k >= 0);
        assert(rest[k] == '.' && rest[k + 1] == '.');
        if k > 0 {
            assert(rest[k - 1] == whole[i - 1]);
        }
        if k + 2 < rest.len() {
            assert(rest[k + 2] == whole[i + 2]);
        }
        assert(goes_up_at(rest, k));
    }
    if goes_up(rest) {
        let k = choose|k: int| goes_up_at(rest, k);
        let i = n + k;
        assert(whole[i] == rest[k] && whole[i + 1] == rest[k + 1]);
        if k == 0 {
            assert(whole[i - 1] == front.last());
        } else {
            assert(whole[i - 1] == rest[k - 1]);
        }
        if k + 2 < rest.len() {
            assert(whole[i + 2] == rest[k + 2]);
        }
        assert(goes_up_at(whole, i));
    }
}

/// A namespace in front makes no difference to going up.
proof fn lemma_stripped_goes_up(t: Seq<char>)
    ensures
        goes_up(path::namespace_stripped(t)) <==> goes_up(path::unified(t)),
{
    let u = path::unified(t);
    let verbatim = seq!['/', '/', '?', '/'];
    let device = seq!['/', '/', '.', '/'];
    let unc = seq!['U', 'N', 'C', '/'];
    let share = seq!['/', '/'];
    let cut = verbatim.is_prefix_of(u) || device.is_prefix_of(u);
    let v = if cut {
        u.skip(4)
    } else {
        u
    };
    if verbatim.is_prefix_of(u) {
        assert(verbatim + u.skip(4) == u);
        lemma_front_goes_up(verbatim, u.skip(4));
    } else if device.is_prefix_of(u) {
        assert(device + u.skip(4) == u);
        assert(device[1] == '/' && device[2] == '.' && device[3] == '/');
        lemma_front_goes_up(device, u.skip(4));
    }
    if unc.is_prefix_of(v) {
        assert(unc + v.skip(4) == v);
        lemma_front_goes_up(unc, v.skip(4));
        lemma_front_goes_up(share, v.skip(4));
    }
}

/// Separators at the end make no difference to going up.
proof fn lemma_cut_goes_up(s: Seq<char>)
    ensures
        goes_up(text::trimmed_end_of(s, '/')) <==> goes_up(s),
    decreases s.len(),
{
    if s.len() > 0 && s.last() == '/' {
        let head = s.drop_last();
        lemma_cut_goes_up(head);
        if goes_up(s) {
            let i = choose|i: int| goes_up_at(s, i);
            assert(goes_up_at(head, i));
        }
        if goes_up(head) {
            let i = choose|i: int| goes_up_at(head, i);
            assert(goes_up_at(s, i));
        }
    }
}

/// A path that goes up is refused whatever the allowlist; with `*` all others may be
/// worked in; without it, exactly those that some root admits by what was written or
/// by its normal form. The refusal names the normal form; under an empty allowlist,
/// the path as it was normalized.
pub proof fn law_cwd_verdict_by_roots(cwd: Seq<char>, allowed: Seq<Seq<char>>)
    ensures
        goes_up(cwd) ==> path::cwd_verdict(cwd, allowed) == Err::<(), _>(
            PolicyErrorView::PathTraversal { path: cwd },
        ),
        allowed.contains(seq!['*']) && !goes_up(cwd) ==> path::cwd_verdict(cwd, allowed) is Ok,
        !allowed.contains(seq!['*']) ==> {
            path::cwd_verdict(cwd, allowed) is Ok <==> path::normal_form(cwd) is Ok && exists|
                i: int,
            | #![trigger allowed[i]]
                0 <= i < allowed.len() && (path::admits(allowed[i], cwd) || path::admits(
                    allowed[i],
                    path::normal_form(cwd)->Ok_0,
                ))
        },
        !goes_up(cwd) && path::cwd_verdict(cwd, allowed) is Err ==> path::cwd_verdict(cwd, allowed)
            == Err::<(), _>(
            if allowed.len() == 0 {
                PolicyErrorView::CwdNotAllowed { cwd: path::normalized(cwd) }
            } else if path::normal_form(cwd) is Err {
                PolicyErrorView::PathTraversal { path: cwd }
            } else {
                PolicyErrorView::CwdNotAllowed { cwd: path::normal_form(cwd)->Ok_0 }
            },
        ),
{
    law_traversal_is_two_dots(cwd);
    meaning::lemma_wildcard_is_star(allowed);
    let c = path::normal_form(cwd)->Ok_0;
    if path::normal_form(cwd) is Ok {
        if exists|i: int| 0 <= i < allowed.len() && path::admits_either(
            #[trigger] allowed[i],
            cwd,
            c,
        ) {
            let i = choose|i: int|
                0 <= i < allowed.len() && path::admits_either(#[trigger] allowed[i], cwd, c);
            assert(path::admits(allowed[i], cwd) || path::admits(allowed[i], c));
        }
        if exists|i: int| #![trigger allowed[i]]
            0 <= i < allowed.len() && (path::admits(allowed[i], cwd) || path::admits(
                allowed[i],
                c,
            )) {
            let i = choose|i: int| #![trigger allowed[i]]
                0 <= i < allowed.len() && (path::admits(allowed[i], cwd) || path::admits(
                    allowed[i],
                    c,
                ));
            assert(path::admits_either(allowed[i], cwd, c));
        }
    }
}

} // verus!
