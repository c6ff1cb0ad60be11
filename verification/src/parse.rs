//! Splitting a PATH string into its segments.
use crate::text::{
    chars_of, is_space, join_seq, rows, split, split_seq, string_of, texts, trim, trim_end_seq, trim_seq,
    trim_start_seq,
};
use vstd::prelude::*;

verus! {

/// The character that separates the segments of a PATH string.
pub open spec fn list_separator() -> Seq<char> {
    seq![';']
}

/// The trimmed pieces, in order, without those that are empty after
/// trimming.
pub open spec fn kept_segments(raw: Seq<Seq<char>>) -> Seq<Seq<char>>
    decreases raw.len(),
{
    if raw.len() == 0 {
        Seq::<Seq<char>>::empty()
    } else {
        let init = kept_segments(raw.drop_last());
        let t = trim_seq(raw.last());
        if t.len() > 0 {
            init.push(t)
        } else {
            init
        }
    }
}

/// The segments of a PATH string: split at each semicolon, each piece
/// trimmed, empty pieces dropped.
pub open spec fn parse_seq(s: Seq<char>) -> Seq<Seq<char>> {
    kept_segments(split_seq(s, list_separator()))
}

/// Whether no character of `t` is a separator.
pub open spec fn free_of(t: Seq<char>, seps: Seq<char>) -> bool {
    forall|i: int| 0 <= i < t.len() ==> !seps.contains(#[trigger] t[i])
}

proof fn lemma_split_pieces_free(s: Seq<char>, seps: Seq<char>)
    ensures
        split_seq(s, seps).len() >= 1,
        forall|i: int| 0 <= i < split_seq(s, seps).len() ==> free_of(#[trigger] split_seq(s, seps)[i], seps),
    decreases s.len(),
{
    if s.len() > 0 {
        lemma_split_pieces_free(s.drop_last(), seps);
        let init = split_seq(s.drop_last(), seps);
        let all = split_seq(s, seps);
        assert forall|i: int| 0 <= i < all.len() implies free_of(#[trigger] all[i], seps) by {
            if i < all.len() - 1 {
                assert(all[i] == init[i]);
            } else if !seps.contains(s.last()) {
                assert(free_of(init.last(), seps));
                assert(all[i] == init.last().push(s.last()));
            }
        }
    }
}

proof fn lemma_split_free(t: Seq<char>, seps: Seq<char>)
    requires
        free_of(t, seps),
    ensures
        split_seq(t, seps) == seq![t],
    decreases t.len(),
{
    if t.len() == 0 {
        assert(t =~= Seq::<char>::empty());
    } else {
        lemma_split_free(t.drop_last(), seps);
        let init = split_seq(t.drop_last(), seps);
        assert(!seps.contains(t[t.len() - 1]));
        assert(init.last().push(t.last()) =~= t);
        assert(init.drop_last().push(t) =~= seq![t]);
    }
}

proof fn lemma_split_after_separator(a: Seq<char>, c: char, b: Seq<char>, seps: Seq<char>)
    requires
        seps.contains(c),
        free_of(b, seps),
    ensures
        split_seq(a.push(c) + b, seps) == split_seq(a, seps).push(b),
    decreases b.len(),
{
    let s = a.push(c) + b;
    if b.len() == 0 {
        assert(s.drop_last() =~= a);
        assert(b =~= Seq::<char>::empty());
    } else {
        lemma_split_after_separator(a, c, b.drop_last(), seps);
        assert(s.drop_last() =~= a.push(c) + b.drop_last());
        assert(s.last() == b[b.len() - 1]);
        assert(!seps.contains(s.last()));
        let init = split_seq(s.drop_last(), seps);
        assert(init.drop_last() =~= split_seq(a, seps));
        assert(init.last().push(s.last()) =~= b);
    }
}

proof fn lemma_split_of_join(xs: Seq<Seq<char>>, c: char)
    requires
        xs.len() >= 1,
        forall|i: int| 0 <= i < xs.len() ==> free_of(#[trigger] xs[i], seq![c]),
    ensures
        split_seq(join_seq(xs, seq![c]), seq![c]) == xs,
    decreases xs.len(),
{
    let seps = seq![c];
    if xs.len() == 1 {
        lemma_split_free(xs[0], seps);
        assert(seq![xs[0]] =~= xs);
    } else {
        let front = xs.drop_last();
        assert forall|i: int| 0 <= i < front.len() implies free_of(#[trigger] front[i], seps) by {
            assert(front[i] == xs[i]);
        }
        lemma_split_of_join(front, c);
        let a = join_seq(front, seps);
        assert(seps[0] == c);
        assert(free_of(xs[xs.len() - 1], seps));
        lemma_split_after_separator(a, c, xs.last(), seps);
        assert(a + seps + xs.last() =~= a.push(c) + xs.last());
        assert(front.push(xs.last()) =~= xs);
    }
}

proof fn lemma_trim_start(x: Seq<char>, seps: Seq<char>)
    ensures
        trim_start_seq(x).len() == 0 || !is_space(trim_start_seq(x)[0]),
        free_of(x, seps) ==> free_of(trim_start_seq(x), seps),
    decreases x.len(),
{
    if x.len() > 0 && is_space(x[0]) {
        lemma_trim_start(x.skip(1), seps);
        if free_of(x, seps) {
            assert forall|i: int| 0 <= i < x.skip(1).len() implies !seps.contains(
                #[trigger] x.skip(1)[i],
            ) by {
                assert(x.skip(1)[i] == x[i + 1]);
            }
        }
    }
}

proof fn lemma_trim_end(t: Seq<char>, seps: Seq<char>)
    ensures
        trim_end_seq(t).len() == 0 || !is_space(trim_end_seq(t).last()),
        t.len() > 0 && !is_space(t[0]) ==> trim_end_seq(t).len() > 0 && trim_end_seq(t)[0] == t[0],
        free_of(t, seps) ==> free_of(trim_end_seq(t), seps),
    decreases t.len(),
{
    if t.len() > 0 && is_space(t.last()) {
        lemma_trim_end(t.drop_last(), seps);
        if free_of(t, seps) {
            assert forall|i: int| 0 <= i < t.drop_last().len() implies !seps.contains(
                #[trigger] t.drop_last()[i],
            ) by {
                assert(t.drop_last()[i] == t[i]);
            }
        }
        if !is_space(t[0]) {
            assert(t.len() >= 2);
            assert(t.drop_last()[0] == t[0]);
        }
    }
}

/// Trimming a trimmed string changes nothing, and trimming brings no
/// separator into a string that had none.
pub proof fn lemma_trim_idempotent(x: Seq<char>, seps: Seq<char>)
    ensures
        trim_seq(trim_seq(x)) == trim_seq(x),
        free_of(x, seps) ==> free_of(trim_seq(x), seps),
{
    let t = trim_start_seq(x);
    lemma_trim_start(x, seps);
    lemma_trim_end(t, seps);
    let u = trim_end_seq(t);
    assert(trim_start_seq(u) == u);
    assert(trim_end_seq(u) == u);
}

proof fn lemma_kept_segments_trimmed(raw: Seq<Seq<char>>, seps: Seq<char>)
    requires
        forall|j: int| 0 <= j < raw.len() ==> free_of(#[trigger] raw[j], seps),
    ensures
        forall|i: int|
            0 <= i < kept_segments(raw).len() ==> {
                let k = #[trigger] kept_segments(raw)[i];
                k.len() > 0 && trim_seq(k) == k && free_of(k, seps)
            },
    decreases raw.len(),
{
    if raw.len() > 0 {
        let front = raw.drop_last();
        assert forall|j: int| 0 <= j < front.len() implies free_of(#[trigger] front[j], seps) by {
            assert(front[j] == raw[j]);
        }
        lemma_kept_segments_trimmed(front, seps);
        assert(free_of(raw[raw.len() - 1], seps));
        lemma_trim_idempotent(raw.last(), seps);
        let init = kept_segments(front);
        let all = kept_segments(raw);
        assert forall|i: int| 0 <= i < all.len() implies {
            let k = #[trigger] all[i];
            k.len() > 0 && trim_seq(k) == k && free_of(k, seps)
        } by {
            if i < init.len() {
                assert(all[i] == init[i]);
            }
        }
    }
}

proof fn lemma_kept_segments_fixed(xs: Seq<Seq<char>>)
    requires
        forall|i: int| 0 <= i < xs.len() ==> (#[trigger] xs[i]).len() > 0 && trim_seq(xs[i]) == xs[i],
    ensures
        kept_segments(xs) == xs,
    decreases xs.len(),
{
    if xs.len() == 0 {
        assert(xs =~= Seq::<Seq<char>>::empty());
    } else {
        let front = xs.drop_last();
        assert forall|i: int| 0 <= i < front.len() implies (#[trigger] front[i]).len() > 0
            && trim_seq(front[i]) == front[i] by {
            assert(front[i] == xs[i]);
        }
        lemma_kept_segments_fixed(front);
        assert(xs[xs.len() - 1].len() > 0);
        assert(front.push(xs.last()) =~= xs);
    }
}

/// Every segment of a parsed string is non-empty, has no white space at
/// either end, and holds no semicolon.
pub proof fn lemma_parse_segments(s: Seq<char>)
    ensures
        forall|i: int|
            0 <= i < parse_seq(s).len() ==> {
                let k = #[trigger] parse_seq(s)[i];
                k.len() > 0 && trim_seq(k) == k && free_of(k, list_separator())
            },
{
    lemma_split_pieces_free(s, list_separator());
    lemma_kept_segments_trimmed(split_seq(s, list_separator()), list_separator());
}

/// Parsing is idempotent: the segments of a string, joined by semicolons
/// and parsed again, are the same segments.
pub proof fn lemma_parse_of_join(s: Seq<char>)
    ensures
        parse_seq(join_seq(parse_seq(s), list_separator())) == parse_seq(s),
{
    let seps = list_separator();
    let xs = parse_seq(s);
    lemma_parse_segments(s);
    if xs.len() == 0 {
        let blank = seq![Seq::<char>::empty()];
        assert(join_seq(xs, seps) =~= Seq::<char>::empty());
        assert(split_seq(Seq::<char>::empty(), seps) == blank);
        assert(blank.drop_last() =~= Seq::<Seq<char>>::empty());
        assert(kept_segments(blank.drop_last()) =~= Seq::<Seq<char>>::empty());
        assert(blank.last() =~= Seq::<char>::empty());
        assert(trim_start_seq(Seq::<char>::empty()) =~= Seq::<char>::empty());
        assert(trim_seq(blank.last()) =~= Seq::<char>::empty());
        assert(kept_segments(blank) =~= Seq::<Seq<char>>::empty());
        assert(xs =~= Seq::<Seq<char>>::empty());
    } else {
        assert(seps =~= seq![';']);
        lemma_split_of_join(xs, ';');
        lemma_kept_segments_fixed(xs);
    }
}

/// Splits a PATH string into its trimmed, non-empty segments, in the order
/// in which they stand in the string.
pub fn parse_path(path_string: &str) -> (r: Vec<String>)
    ensures
        texts(r@) == parse_seq(path_string@),
        forall|i: int| 0 <= i < r@.len() ==> #[trigger] r@[i]@.len() > 0,
{
    let chars: Vec<char> = chars_of(path_string);
    let seps: Vec<char> = vec![';'];
    assert(seps@ =~= list_separator());
    let pieces: Vec<Vec<char>> = split(&chars, &seps);
    let mut out: Vec<String> = Vec::new();
    let mut i: usize = 0;
    assert(texts(out@) =~= kept_segments(rows(pieces@).take(0)));
    while i < pieces.len()
        invariant
            i <= pieces@.len(),
            texts(out@) == kept_segments(rows(pieces@).take(i as int)),
            forall|k: int| 0 <= k < out@.len() ==> #[trigger] out@[k]@.len() > 0,
        decreases pieces.len() - i,
    {
        let trimmed: Vec<char> = trim(&pieces[i]);
        let ghost before = texts(out@);
        proof {
            assert(rows(pieces@).take(i + 1).drop_last() =~= rows(pieces@).take(i as int));
            assert(rows(pieces@).take(i + 1).last() == pieces@[i as int]@);
        }
        if trimmed.len() > 0 {
            let segment: String = string_of(&trimmed);
            out.push(segment);
            assert(texts(out@) =~= before.push(trimmed@));
        }
        i += 1;
    }
    assert(rows(pieces@).take(pieces@.len() as int) =~= rows(pieces@));
    out
}

} // verus!
