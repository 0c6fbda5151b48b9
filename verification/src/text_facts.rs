//! What trimming, splitting, joining and mapping texts have to do with each other.

use crate::text;
use vstd::prelude::*;

verus! {

// ---------------------------------------------------------------------------
// Trimming
// ---------------------------------------------------------------------------

/// Trimming at the start leaves a tail that does not begin with white space.
proof fn lemma_trimmed_start_shape(s: Seq<char>)
    ensures
        text::trimmed_start(s).len() <= s.len(),
        text::trimmed_start(s) == s.skip(s.len() - text::trimmed_start(s).len()),
        text::trimmed_start(s).len() > 0 ==> !text::white_space(text::trimmed_start(s)[0]),
    decreases s.len(),
{
    if s.len() > 0 && text::white_space(s[0]) {
        lemma_trimmed_start_shape(s.skip(1));
        let t = text::trimmed_start(s);
        assert(s.skip(1).skip(s.len() - 1 - t.len()) == s.skip(s.len() - t.len()));
    } else {
        assert(s.skip(0) == s);
    }
}

/// Trimming at the end leaves a prefix that does not end in white space.
proof fn lemma_trimmed_end_shape(s: Seq<char>)
    ensures
        text::trimmed_end(s).len() <= s.len(),
        text::trimmed_end(s) == s.take(text::trimmed_end(s).len() as int),
        text::trimmed_end(s).len() > 0 ==> !text::white_space(text::trimmed_end(s).last()),
    decreases s.len(),
{
    if s.len() > 0 && text::white_space(s.last()) {
        lemma_trimmed_end_shape(s.drop_last());
        let t = text::trimmed_end(s);
        assert(s.drop_last().take(t.len() as int) == s.take(t.len() as int));
    } else {
        assert(s.take(s.len() as int) == s);
    }
}

/// A trimmed text has no white space at its ends, and a text without white space
/// at its ends is as trimming leaves it.
pub proof fn lemma_trimmed_ends(s: Seq<char>)
    ensures
        text::trimmed(s).len() > 0 ==> !text::white_space(text::trimmed(s)[0])
            && !text::white_space(text::trimmed(s).last()),
        s.len() > 0 && !text::white_space(s[0]) && !text::white_space(s.last())
            ==> text::trimmed(s) == s,
        s.len() == 0 ==> text::trimmed(s) == s,
{
    let t = text::trimmed_start(s);
    lemma_trimmed_start_shape(s);
    lemma_trimmed_end_shape(t);
    let r = text::trimmed(s);
    if r.len() > 0 {
        assert(r[0] == t[0]);
    }
}

/// Trimming twice is trimming once.
pub proof fn law_trim_once(s: Seq<char>)
    ensures
        text::trimmed(text::trimmed(s)) == text::trimmed(s),
{
    lemma_trimmed_ends(s);
    lemma_trimmed_ends(text::trimmed(s));
}

/// Trimming at the end stops at the first character that is no white space.
proof fn lemma_trimmed_end_behind(a: Seq<char>, b: Seq<char>)
    requires
        a.len() > 0,
        !text::white_space(a.last()),
    ensures
        text::trimmed_end(a + b) == a + text::trimmed_end(b),
    decreases b.len(),
{
    let whole = a + b;
    if b.len() == 0 {
        assert(whole == a);
        assert(b == Seq::<char>::empty());
        assert(a + Seq::<char>::empty() == a);
    } else {
        assert(whole.last() == b.last());
        if text::white_space(b.last()) {
            assert(whole.drop_last() == a + b.drop_last());
            lemma_trimmed_end_behind(a, b.drop_last());
        }
    }
}

/// A text in front without white space at its ends keeps what follows from being
/// trimmed at its start, which here has nothing to trim.
pub proof fn lemma_trimmed_behind(a: Seq<char>, b: Seq<char>)
    requires
        a.len() > 0,
        !text::white_space(a[0]),
        !text::white_space(a.last()),
        b.len() > 0 ==> !text::white_space(b[0]),
    ensures
        text::trimmed(a + b) == a + text::trimmed(b),
{
    assert((a + b)[0] == a[0]);
    assert(text::trimmed_start(a + b) == a + b);
    assert(text::trimmed_start(b) == b);
    lemma_trimmed_end_behind(a, b);
}

/// Trimming a character leaves a prefix that does not end in it.
pub proof fn lemma_trimmed_end_of_shape(s: Seq<char>, c: char)
    ensures
        text::trimmed_end_of(s, c).len() <= s.len(),
        text::trimmed_end_of(s, c) == s.take(text::trimmed_end_of(s, c).len() as int),
        text::trimmed_end_of(s, c).len() > 0 ==> text::trimmed_end_of(s, c).last() != c,
    decreases s.len(),
{
    if s.len() > 0 && s.last() == c {
        lemma_trimmed_end_of_shape(s.drop_last(), c);
        let t = text::trimmed_end_of(s, c);
        assert(s.drop_last().take(t.len() as int) == s.take(t.len() as int));
    } else {
        assert(s.take(s.len() as int) == s);
    }
}

// ---------------------------------------------------------------------------
// Splitting and joining
// ---------------------------------------------------------------------------

/// Splitting gives at least one piece.
pub proof fn lemma_split_some(s: Seq<char>, seps: Seq<char>)
    ensures
        text::split(s, seps).len() > 0,
    decreases s.len(),
{
    if s.len() > 0 {
        lemma_split_some(s.drop_last(), seps);
    }
}

/// No piece holds a separator.
pub proof fn lemma_pieces_hold_no_separator(s: Seq<char>, seps: Seq<char>, i: int, j: int)
    requires
        0 <= i < text::split(s, seps).len(),
        0 <= j < text::split(s, seps)[i].len(),
    ensures
        !seps.contains(text::split(s, seps)[i][j]),
        s.contains(text::split(s, seps)[i][j]),
    decreases s.len(),
{
    if s.len() > 0 {
        let head = s.drop_last();
        let before = text::split(head, seps);
        lemma_split_some(head, seps);
        let c = text::split(s, seps)[i][j];
        if seps.contains(s.last()) {
            if i < before.len() {
                lemma_pieces_hold_no_separator(head, seps, i, j);
                let k = choose|k: int| 0 <= k < head.len() && head[k] == c;
                assert(s[k] == c);
            }
        } else if i == before.len() - 1 && j == before.last().len() {
            assert(c == s.last());
            assert(s[s.len() - 1] == c);
        } else {
            lemma_pieces_hold_no_separator(head, seps, i, j);
            let k = choose|k: int| 0 <= k < head.len() && head[k] == c;
            assert(s[k] == c);
        }
    }
}

/// A text without separators is its only piece.
pub proof fn lemma_split_whole(s: Seq<char>, seps: Seq<char>)
    requires
        forall|i: int| 0 <= i < s.len() ==> !seps.contains(#[trigger] s[i]),
    ensures
        text::split(s, seps) == seq![s],
    decreases s.len(),
{
    if s.len() > 0 {
        let head = s.drop_last();
        assert forall|i: int| 0 <= i < head.len() implies !seps.contains(#[trigger] head[i]) by {
            assert(head[i] == s[i]);
        }
        lemma_split_whole(head, seps);
        assert(seps.contains(s.last()) == false);
        assert(seq![head].drop_last() == Seq::<Seq<char>>::empty());
        assert(head.push(s.last()) == s);
        assert(Seq::<Seq<char>>::empty().push(s) == seq![s]);
    } else {
        assert(s == Seq::<char>::empty());
    }
}

/// A separator between two texts parts their pieces.
pub proof fn lemma_split_at_separator(a: Seq<char>, sep: char, b: Seq<char>, seps: Seq<char>)
    requires
        seps.contains(sep),
    ensures
        text::split(a.push(sep) + b, seps) == text::split(a, seps) + text::split(b, seps),
    decreases b.len(),
{
    let whole = a.push(sep) + b;
    let pa = text::split(a, seps);
    if b.len() == 0 {
        assert(whole.drop_last() == a);
        assert(text::split(b, seps) == seq![Seq::<char>::empty()]);
        assert(pa.push(Seq::empty()) == pa + seq![Seq::<char>::empty()]);
    } else {
        let head = b.drop_last();
        assert(whole.drop_last() == a.push(sep) + head);
        assert(whole.last() == b.last());
        lemma_split_at_separator(a, sep, head, seps);
        lemma_split_some(head, seps);
        let pb = text::split(head, seps);
        if seps.contains(b.last()) {
            assert((pa + pb).push(Seq::empty()) == pa + pb.push(Seq::empty()));
        } else {
            let grown = pb.last().push(b.last());
            assert((pa + pb).drop_last() == pa + pb.drop_last());
            assert((pa + pb).drop_last().push(grown) == pa + pb.drop_last().push(grown));
        }
    }
}

/// Splitting gives back what was joined, if no piece holds the separator.
pub proof fn law_split_undoes_join(pieces: Seq<Seq<char>>, sep: char)
    requires
        pieces.len() > 0,
        forall|i: int| 0 <= i < pieces.len() ==> !(#[trigger] pieces[i]).contains(sep),
    ensures
        text::split(text::joined(pieces, sep), seq![sep]) == pieces,
    decreases pieces.len(),
{
    let seps = seq![sep];
    assert(seps.contains(sep)) by {
        assert(seps[0] == sep);
    }
    assert forall|p: Seq<char>| !#[trigger] p.contains(sep) implies text::split(p, seps) == seq![
        p,
    ] by {
        lemma_split_whole(p, seps);
    }
    if pieces.len() == 1 {
        assert(pieces == seq![pieces[0]]);
    } else {
        let front = pieces.drop_last();
        assert forall|i: int| 0 <= i < front.len() implies !(#[trigger] front[i]).contains(
            sep,
        ) by {
            assert(front[i] == pieces[i]);
        }
        law_split_undoes_join(front, sep);
        lemma_split_at_separator(text::joined(front, sep), sep, pieces.last(), seps);
        assert(!pieces[pieces.len() - 1].contains(sep));
        assert(front + seq![pieces.last()] == pieces);
    }
}

/// Joining gives back what was split.
pub proof fn law_join_undoes_split(s: Seq<char>, sep: char)
    ensures
        text::joined(text::split(s, seq![sep]), sep) == s,
    decreases s.len(),
{
    let seps = seq![sep];
    if s.len() == 0 {
        assert(s == Seq::<char>::empty());
    } else {
        let head = s.drop_last();
        let before = text::split(head, seps);
        lemma_split_some(head, seps);
        law_join_undoes_split(head, sep);
        assert(head.push(s.last()) == s);
        assert(seps.contains(s.last()) <==> s.last() == sep) by {
            assert(seps[0] == sep);
        }
        if s.last() == sep {
            let all = before.push(Seq::empty());
            assert(all.drop_last() == before);
            assert(text::joined(all, sep) == head.push(sep) + Seq::<char>::empty());
            assert(head.push(sep) + Seq::<char>::empty() == s);
        } else {
            let all = before.drop_last().push(before.last().push(s.last()));
            assert(all.drop_last() == before.drop_last());
            if before.len() > 1 {
                let front = text::joined(before.drop_last(), sep).push(sep);
                assert(front + before.last().push(s.last()) == (front + before.last()).push(
                    s.last(),
                ));
            }
        }
    }
}

// ---------------------------------------------------------------------------
// Mapping characters
// ---------------------------------------------------------------------------

/// `s` with each character put through `f`.
pub open spec fn mapped(s: Seq<char>, f: spec_fn(char) -> char) -> Seq<char> {
    Seq::new(s.len(), |i: int| f(s[i]))
}

/// Each text with each of its characters put through `f`.
pub open spec fn all_mapped(pieces: Seq<Seq<char>>, f: spec_fn(char) -> char) -> Seq<Seq<char>> {
    Seq::new(pieces.len(), |i: int| mapped(pieces[i], f))
}

/// Trimming commutes with a map that keeps white space apart.
pub proof fn lemma_trimmed_mapped(s: Seq<char>, f: spec_fn(char) -> char)
    requires
        forall|c: char| text::white_space(#[trigger] f(c)) == text::white_space(c),
    ensures
        text::trimmed(mapped(s, f)) == mapped(text::trimmed(s), f),
{
    lemma_trimmed_start_mapped(s, f);
    lemma_trimmed_end_mapped(text::trimmed_start(s), f);
}

proof fn lemma_trimmed_start_mapped(s: Seq<char>, f: spec_fn(char) -> char)
    requires
        forall|c: char| text::white_space(#[trigger] f(c)) == text::white_space(c),
    ensures
        text::trimmed_start(mapped(s, f)) == mapped(text::trimmed_start(s), f),
    decreases s.len(),
{
    if s.len() > 0 {
        assert(mapped(s, f)[0] == f(s[0]));
        if text::white_space(s[0]) {
            assert(mapped(s, f).skip(1) == mapped(s.skip(1), f));
            lemma_trimmed_start_mapped(s.skip(1), f);
        }
    }
}

proof fn lemma_trimmed_end_mapped(s: Seq<char>, f: spec_fn(char) -> char)
    requires
        forall|c: char| text::white_space(#[trigger] f(c)) == text::white_space(c),
    ensures
        text::trimmed_end(mapped(s, f)) == mapped(text::trimmed_end(s), f),
    decreases s.len(),
{
    if s.len() > 0 {
        assert(mapped(s, f).last() == f(s.last()));
        if text::white_space(s.last()) {
            assert(mapped(s, f).drop_last() == mapped(s.drop_last(), f));
            lemma_trimmed_end_mapped(s.drop_last(), f);
        }
    }
}

/// Trimming a character commutes with a map that keeps it apart.
pub proof fn lemma_trimmed_end_of_mapped(s: Seq<char>, f: spec_fn(char) -> char, c: char)
    requires
        forall|x: char| (#[trigger] f(x) == c) == (x == c),
    ensures
        text::trimmed_end_of(mapped(s, f), c) == mapped(text::trimmed_end_of(s, c), f),
    decreases s.len(),
{
    if s.len() > 0 {
        assert(mapped(s, f).last() == f(s.last()));
        if s.last() == c {
            assert(mapped(s, f).drop_last() == mapped(s.drop_last(), f));
            lemma_trimmed_end_of_mapped(s.drop_last(), f, c);
        }
    }
}

/// Splitting commutes with a map that keeps the separators apart.
pub proof fn lemma_split_mapped(
    s: Seq<char>,
    f: spec_fn(char) -> char,
    seps: Seq<char>,
    mapped_seps: Seq<char>,
)
    requires
        forall|c: char| mapped_seps.contains(#[trigger] f(c)) == seps.contains(c),
    ensures
        text::split(mapped(s, f), mapped_seps) == all_mapped(text::split(s, seps), f),
    decreases s.len(),
{
    if s.len() == 0 {
        assert(mapped(Seq::<char>::empty(), f) == Seq::<char>::empty());
        assert(mapped(s, f) == Seq::<char>::empty());
        assert(all_mapped(seq![Seq::<char>::empty()], f) == seq![Seq::<char>::empty()]);
    } else {
        let head = s.drop_last();
        let before = text::split(head, seps);
        lemma_split_some(head, seps);
        lemma_split_mapped(head, f, seps, mapped_seps);
        assert(mapped(s, f).drop_last() == mapped(head, f));
        assert(mapped(s, f).last() == f(s.last()));
        assert(mapped(Seq::<char>::empty(), f) == Seq::<char>::empty());
        if seps.contains(s.last()) {
            assert(all_mapped(before.push(Seq::empty()), f) == all_mapped(before, f).push(
                Seq::empty(),
            ));
        } else {
            let grown = before.last().push(s.last());
            assert(mapped(grown, f) == mapped(before.last(), f).push(f(s.last())));
            assert(all_mapped(before, f).last() == mapped(before.last(), f));
            assert(all_mapped(before.drop_last().push(grown), f) == all_mapped(
                before,
                f,
            ).drop_last().push(mapped(grown, f)));
        }
    }
}

/// Selecting pieces commutes with a map that keeps the choice.
pub proof fn lemma_filter_mapped(
    pieces: Seq<Seq<char>>,
    f: spec_fn(char) -> char,
    keep: spec_fn(Seq<char>) -> bool,
)
    requires
        forall|p: Seq<char>| keep(#[trigger] mapped(p, f)) == keep(p),
    ensures
        all_mapped(pieces, f).filter(keep) == all_mapped(pieces.filter(keep), f),
    decreases pieces.len(),
{
    reveal(Seq::filter);
    if pieces.len() == 0 {
        assert(all_mapped(pieces, f) == Seq::<Seq<char>>::empty());
        assert(all_mapped(Seq::<Seq<char>>::empty(), f) == Seq::<Seq<char>>::empty());
    } else {
        let front = pieces.drop_last();
        lemma_filter_mapped(front, f, keep);
        assert(all_mapped(pieces, f).drop_last() == all_mapped(front, f));
        assert(all_mapped(pieces, f).last() == mapped(pieces.last(), f));
        let kept = front.filter(keep);
        assert(all_mapped(kept.push(pieces.last()), f) == all_mapped(kept, f).push(
            mapped(pieces.last(), f),
        ));
    }
}

/// Joining commutes with a map that keeps the separator.
pub proof fn lemma_joined_mapped(pieces: Seq<Seq<char>>, f: spec_fn(char) -> char, sep: char)
    requires
        f(sep) == sep,
    ensures
        text::joined(all_mapped(pieces, f), sep) == mapped(text::joined(pieces, sep), f),
    decreases pieces.len(),
{
    if pieces.len() == 0 {
        assert(mapped(Seq::<char>::empty(), f) == Seq::<char>::empty());
    } else if pieces.len() > 1 {
        let front = pieces.drop_last();
        lemma_joined_mapped(front, f, sep);
        assert(all_mapped(pieces, f).drop_last() == all_mapped(front, f));
        let a = text::joined(front, sep);
        assert(mapped(a.push(sep) + pieces.last(), f) == mapped(a, f).push(sep) + mapped(
            pieces.last(),
            f,
        ));
    }
}

// ---------------------------------------------------------------------------
// The operations, character by character
// ---------------------------------------------------------------------------

/// Whether `t` is what is left of `s` from `lo` up to `hi`, with nothing but white
/// space around it and none at its own ends.
pub open spec fn is_middle(s: Seq<char>, t: Seq<char>, lo: int, hi: int) -> bool {
    &&& 0 <= lo <= hi <= s.len()
    &&& t == s.subrange(lo, hi)
    &&& forall|i: int| 0 <= i < lo ==> text::white_space(#[trigger] s[i])
    &&& forall|i: int| hi <= i < s.len() ==> text::white_space(#[trigger] s[i])
    &&& lo < hi ==> !text::white_space(s[lo]) && !text::white_space(s[hi - 1])
}

/// Trimming cuts white space off both ends, all of it and nothing else.
pub proof fn law_trimmed_is_middle(s: Seq<char>)
    ensures
        exists|lo: int, hi: int| is_middle(s, text::trimmed(s), lo, hi),
{
    let front = text::trimmed_start(s);
    let t = text::trimmed(s);
    lemma_start_was_white(s);
    lemma_end_was_white(front);
    let lo = s.len() - front.len();
    let hi = lo + t.len();
    assert(t == s.subrange(lo, hi));
    assert forall|i: int| hi <= i < s.len() implies text::white_space(#[trigger] s[i]) by {
        assert(front[i - lo] == s[i]);
    }
    lemma_trimmed_ends(s);
    assert(is_middle(s, t, lo, hi));
}

/// There is only one middle.
pub proof fn law_middle_is_trimmed(s: Seq<char>, t: Seq<char>, lo: int, hi: int)
    requires
        is_middle(s, t, lo, hi),
    ensures
        t == text::trimmed(s),
{
    law_trimmed_is_middle(s);
    let (l, h) = choose|l: int, h: int| is_middle(s, text::trimmed(s), l, h);
    if lo < hi {
        assert(text::white_space(s[lo]) == false && text::white_space(s[hi - 1]) == false);
        assert(l <= lo && hi <= h);
        assert(text::white_space(s[l]) == false && text::white_space(s[h - 1]) == false);
    } else {
        if l < h {
            assert(text::white_space(s[l]));
        }
    }
}

/// What is cut off in front is white space.
proof fn lemma_start_was_white(s: Seq<char>)
    ensures
        text::trimmed_start(s).len() <= s.len(),
        text::trimmed_start(s) == s.skip(s.len() - text::trimmed_start(s).len()),
        forall|i: int|
            0 <= i < s.len() - text::trimmed_start(s).len() ==> text::white_space(
                #[trigger] s[i],
            ),
    decreases s.len(),
{
    lemma_trimmed_start_shape(s);
    if s.len() > 0 && text::white_space(s[0]) {
        let rest = s.skip(1);
        lemma_start_was_white(rest);
        assert forall|i: int| 0 <= i < s.len() - text::trimmed_start(s).len() implies
            text::white_space(#[trigger] s[i]) by {
            if i > 0 {
                assert(rest[i - 1] == s[i]);
            }
        }
    }
}

/// What is cut off at the end is white space.
proof fn lemma_end_was_white(s: Seq<char>)
    ensures
        text::trimmed_end(s).len() <= s.len(),
        text::trimmed_end(s) == s.take(text::trimmed_end(s).len() as int),
        forall|i: int|
            text::trimmed_end(s).len() <= i < s.len() ==> text::white_space(#[trigger] s[i]),
    decreases s.len(),
{
    lemma_trimmed_end_shape(s);
    if s.len() > 0 && text::white_space(s.last()) {
        let head = s.drop_last();
        lemma_end_was_white(head);
        assert forall|i: int| text::trimmed_end(s).len() <= i < s.len() implies
            text::white_space(#[trigger] s[i]) by {
            if i < s.len() - 1 {
                assert(head[i] == s[i]);
            }
        }
    }
}

/// Lower and upper case move the 26 letters of ASCII by 32 and leave all else.
pub proof fn law_ascii_case(s: Seq<char>)
    ensures
        text::ascii_lowered(s).len() == s.len(),
        text::ascii_uppered(s).len() == s.len(),
        forall|i: int|
            #![trigger text::ascii_lowered(s)[i]]
            0 <= i < s.len() ==> if 'A' <= s[i] <= 'Z' {
                text::ascii_lowered(s)[i] as int == s[i] as int + 32
            } else {
                text::ascii_lowered(s)[i] == s[i]
            },
        forall|i: int|
            #![trigger text::ascii_uppered(s)[i]]
            0 <= i < s.len() ==> if 'a' <= s[i] <= 'z' {
                text::ascii_uppered(s)[i] as int == s[i] as int - 32
            } else {
                text::ascii_uppered(s)[i] == s[i]
            },
{
}

/// Whether the characters from `i` up to `j` stand between separators, or ends of the
/// text, and are none themselves.
pub open spec fn stands_between(s: Seq<char>, seps: Seq<char>, i: int, j: int) -> bool {
    &&& 0 <= i <= j <= s.len()
    &&& i == 0 || seps.contains(s[i - 1])
    &&& j == s.len() || seps.contains(s[j])
    &&& forall|k: int| i <= k < j ==> !seps.contains(#[trigger] s[k])
}

/// Splitting yields what stands between separators, and nothing else.
pub proof fn law_split_holds(s: Seq<char>, seps: Seq<char>, piece: Seq<char>)
    ensures
        text::split(s, seps).contains(piece) <==> exists|i: int, j: int| #[trigger]
            stands_between(s, seps, i, j) && s.subrange(i, j) == piece,
{
    let pieces = text::split(s, seps);
    if pieces.contains(piece) {
        let k = choose|k: int| 0 <= k < pieces.len() && pieces[k] == piece;
        lemma_piece_stands_between(s, seps, k);
    }
    if exists|i: int, j: int| #[trigger]
        stands_between(s, seps, i, j) && s.subrange(i, j) == piece {
        let (i, j) = choose|i: int, j: int| #[trigger]
            stands_between(s, seps, i, j) && s.subrange(i, j) == piece;
        lemma_between_is_piece(s, seps, i, j);
    }
}

/// A piece stands between separators, the last one up to the end.
proof fn lemma_piece_stands_between(s: Seq<char>, seps: Seq<char>, k: int)
    requires
        0 <= k < text::split(s, seps).len(),
    ensures
        exists|i: int, j: int| #[trigger]
            stands_between(s, seps, i, j) && s.subrange(i, j) == text::split(s, seps)[k] && (j
                == s.len() <==> k == text::split(s, seps).len() - 1),
    decreases s.len(),
{
    let pieces = text::split(s, seps);
    if s.len() == 0 {
        assert(stands_between(s, seps, 0, 0));
        assert(s.subrange(0, 0) == pieces[k]);
    } else {
        let head = s.drop_last();
        let before = text::split(head, seps);
        lemma_split_some(head, seps);
        let n = s.len() as int;
        if seps.contains(s.last()) && k == before.len() {
            assert(stands_between(s, seps, n, n));
            assert(s.subrange(n, n) == pieces[k]);
        } else {
            lemma_piece_stands_between(head, seps, k);
            let (i, j) = choose|i: int, j: int| #[trigger]
                stands_between(head, seps, i, j) && head.subrange(i, j) == before[k] && (j
                    == head.len() <==> k == before.len() - 1);
            assert forall|x: int| 0 <= x < n - 1 implies head[x] == #[trigger] s[x] by {}
            if seps.contains(s.last()) || k < before.len() - 1 {
                assert(stands_between(s, seps, i, j));
                assert(s.subrange(i, j) == head.subrange(i, j));
            } else {
                assert(stands_between(s, seps, i, n));
                assert(s.subrange(i, n) == head.subrange(i, j).push(s.last()));
            }
        }
    }
}

/// What stands between separators is a piece.
proof fn lemma_between_is_piece(s: Seq<char>, seps: Seq<char>, i: int, j: int)
    requires
        stands_between(s, seps, i, j),
    ensures
        text::split(s, seps).contains(s.subrange(i, j)),
{
    let upto = s.take(j);
    let piece = s.subrange(i, j);
    assert forall|k: int| 0 <= k < piece.len() implies !seps.contains(#[trigger] piece[k]) by {
        assert(piece[k] == s[i + k]);
    }
    lemma_split_whole(piece, seps);
    let head = text::split(upto, seps);
    if i == 0 {
        assert(upto == piece);
        assert(head[0] == piece);
    } else {
        let a = s.take(i - 1);
        assert(upto == a.push(s[i - 1]) + piece);
        lemma_split_at_separator(a, s[i - 1], piece, seps);
        assert(head.last() == piece);
    }
    let at = head.len() - 1;
    assert(head[at] == piece);
    if j < s.len() {
        let rest = s.skip(j + 1);
        assert(s == upto.push(s[j]) + rest);
        lemma_split_at_separator(upto, s[j], rest, seps);
        assert(text::split(s, seps)[at] == piece);
    } else {
        assert(upto == s);
    }
}

/// The texts of strings are those strings, one for one and in order.
pub proof fn law_texts_one_for_one(v: Seq<String>, w: Seq<&str>)
    ensures
        text::texts(v).len() == v.len(),
        forall|i: int| 0 <= i < v.len() ==> #[trigger] text::texts(v)[i] == v[i]@,
        text::slice_texts(w).len() == w.len(),
        forall|i: int| 0 <= i < w.len() ==> #[trigger] text::slice_texts(w)[i] == w[i]@,
{
}

/// The lower-case form of ASCII text is that of its letters; of other text it is what
/// the Unicode mapping makes of the whole.
pub proof fn law_lowered(s: Seq<char>)
    ensures
        vstd::utf8::is_ascii_chars(s) ==> text::lowered(s) == text::ascii_lowered(s),
        !vstd::utf8::is_ascii_chars(s) ==> text::lowered(s) == text::unicode_lowered(s),
{
}

} // verus!
