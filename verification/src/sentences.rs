//! Splitting a text into the sentences that are read aloud one by one.
use vstd::prelude::*;
use crate::text::{
    chars_of, is_blank, is_whitespace, push_char, spec_is_whitespace, lemma_blank_push, lemma_visible_concat, lemma_visible_empty,
    visible,
};

verus! {

/// Characters that close a sentence.
pub open spec fn is_sentence_end(c: char) -> bool {
    c == '.' || c == '?' || c == '!' || c == '\n'
}

fn is_sentence_end_char(c: char) -> (r: bool)
    ensures
        r == is_sentence_end(c),
{
    c == '.' || c == '?' || c == '!' || c == '\n'
}

/// Length of the first piece of `s`: everything up to and including the
/// first sentence end, or all of `s` when it holds none.
pub open spec fn first_piece_len(s: Seq<char>) -> nat
    decreases s.len(),
{
    if s.len() == 0 {
        0
    } else if is_sentence_end(s[0]) {
        1
    } else {
        1 + first_piece_len(s.drop_first())
    }
}

/// The first piece is non-empty (for a non-empty text), holds no sentence
/// mark before its last character, and ends with one unless it is all of `s`.
pub proof fn lemma_first_piece_len(s: Seq<char>)
    ensures
        s.len() > 0 ==> 1 <= first_piece_len(s) <= s.len(),
        s.len() == 0 ==> first_piece_len(s) == 0,
        forall|j: int| 0 <= j < first_piece_len(s) - 1 ==> !is_sentence_end(#[trigger] s[j]),
        0 < first_piece_len(s) < s.len() ==> is_sentence_end(s[first_piece_len(s) - 1]),
    decreases s.len(),
{
    if s.len() > 0 && !is_sentence_end(s[0]) {
        let t = s.drop_first();
        lemma_first_piece_len(t);
        assert forall|j: int| 0 <= j < first_piece_len(s) - 1 implies !is_sentence_end(
            #[trigger] s[j],
        ) by {
            if j > 0 {
                assert(s[j] == t[j - 1]);
            }
        }
        if 0 < first_piece_len(s) < s.len() {
            assert(s[first_piece_len(s) - 1] == t[first_piece_len(t) - 1]);
        }
    }
}

/// `s` cut after every sentence end; the last piece may lack one.
pub open spec fn pieces(s: Seq<char>) -> Seq<Seq<char>>
    decreases s.len(),
{
    if s.len() == 0 {
        Seq::empty()
    } else {
        proof {
            lemma_first_piece_len(s);
        }
        let k = first_piece_len(s) as int;
        seq![s.take(k)] + pieces(s.skip(k))
    }
}

/// The pieces that hold something other than white space, in order.
pub open spec fn spoken(ps: Seq<Seq<char>>) -> Seq<Seq<char>>
    decreases ps.len(),
{
    if ps.len() == 0 {
        ps
    } else if is_blank(ps.last()) {
        spoken(ps.drop_last())
    } else {
        spoken(ps.drop_last()).push(ps.last())
    }
}

/// The sentences of a text, as the reader speaks them.
pub open spec fn sentences(s: Seq<char>) -> Seq<Seq<char>> {
    spoken(pieces(s))
}

proof fn lemma_first_piece_of_concat(a: Seq<char>, b: Seq<char>)
    requires
        a.len() > 0,
        is_sentence_end(a.last()),
    ensures
        first_piece_len(a + b) == first_piece_len(a),
    decreases a.len(),
{
    assert((a + b)[0] == a[0]);
    if !is_sentence_end(a[0]) {
        assert(a.len() > 1);
        assert((a + b).drop_first() =~= a.drop_first() + b);
        assert(a.drop_first().last() == a.last());
        lemma_first_piece_of_concat(a.drop_first(), b);
    }
}

proof fn lemma_pieces_concat(a: Seq<char>, b: Seq<char>)
    requires
        a.len() == 0 || is_sentence_end(a.last()),
    ensures
        pieces(a + b) == pieces(a) + pieces(b),
    decreases a.len(),
{
    if a.len() == 0 {
        assert(a + b =~= b);
        assert(pieces(a) + pieces(b) =~= pieces(b));
    } else {
        lemma_first_piece_of_concat(a, b);
        lemma_first_piece_len(a);
        let k = first_piece_len(a) as int;
        let s = a + b;
        let rest = a.skip(k);
        assert(s.take(k) =~= a.take(k));
        assert(s.skip(k) =~= rest + b);
        if rest.len() > 0 {
            assert(rest.last() == a.last());
        }
        lemma_pieces_concat(rest, b);
        assert(pieces(s) == seq![a.take(k)] + pieces(rest + b));
        assert(pieces(a) == seq![a.take(k)] + pieces(rest));
        assert(pieces(s) =~= pieces(a) + pieces(b));
    }
}

proof fn lemma_first_piece_whole(c: Seq<char>)
    requires
        c.len() > 0,
        forall|j: int| 0 <= j < c.len() - 1 ==> !is_sentence_end(#[trigger] c[j]),
    ensures
        first_piece_len(c) == c.len(),
    decreases c.len(),
{
    if c.len() > 1 {
        assert(!is_sentence_end(c[0]));
        assert forall|j: int| 0 <= j < c.drop_first().len() - 1 implies !is_sentence_end(
            #[trigger] c.drop_first()[j],
        ) by {
            assert(c.drop_first()[j] == c[j + 1]);
        }
        lemma_first_piece_whole(c.drop_first());
    } else {
        assert(c.drop_first().len() == 0);
        assert(first_piece_len(c.drop_first()) == 0);
    }
}

proof fn lemma_pieces_single(c: Seq<char>)
    requires
        c.len() > 0,
        forall|j: int| 0 <= j < c.len() - 1 ==> !is_sentence_end(#[trigger] c[j]),
    ensures
        pieces(c) == seq![c],
{
    lemma_first_piece_whole(c);
    assert(c.take(c.len() as int) =~= c);
    assert(c.skip(c.len() as int) =~= Seq::<char>::empty());
    assert(pieces(Seq::<char>::empty()) =~= Seq::<Seq<char>>::empty());
    assert(pieces(c) =~= seq![c]);
}

proof fn lemma_spoken_push(ps: Seq<Seq<char>>, p: Seq<char>)
    ensures
        spoken(ps.push(p)) == (if is_blank(p) {
            spoken(ps)
        } else {
            spoken(ps).push(p)
        }),
{
    assert(ps.push(p).drop_last() =~= ps);
    assert(ps.push(p).last() == p);
}

/// The sentences of `s[..end]` are those of `s[..start]` and, when it holds
/// words, the stretch `s[start..end]`, provided `start` follows a sentence
/// end (or is 0) and no sentence end occurs before the last character of
/// the stretch.
proof fn lemma_sentences_extend(s: Seq<char>, start: int, end: int)
    requires
        0 <= start < end <= s.len(),
        start == 0 || is_sentence_end(s[start - 1]),
        forall|j: int| start <= j < end - 1 ==> !is_sentence_end(#[trigger] s[j]),
    ensures
        sentences(s.take(end)) == (if is_blank(s.subrange(start, end)) {
            sentences(s.take(start))
        } else {
            sentences(s.take(start)).push(s.subrange(start, end))
        }),
{
    let a = s.take(start);
    let c = s.subrange(start, end);
    assert(s.take(end) =~= a + c);
    if start > 0 {
        assert(a.last() == s[start - 1]);
    }
    lemma_pieces_concat(a, c);
    assert forall|j: int| 0 <= j < c.len() - 1 implies !is_sentence_end(#[trigger] c[j]) by {
        assert(c[j] == s[start + j]);
    }
    lemma_pieces_single(c);
    assert(pieces(a) + seq![c] =~= pieces(a).push(c));
    lemma_spoken_push(pieces(a), c);
}

/// Cuts `text` after every `.`, `?`, `!` and line break and keeps the pieces
/// that hold more than white space, each with its closing mark and the white
/// space around it.
pub fn split_into_sentences(text: &str) -> (out: Vec<String>)
    ensures
        out@.len() == sentences(text@).len(),
        forall|i: int| 0 <= i < out@.len() ==> #[trigger] out@[i]@ == sentences(text@)[i],
{
    let cs = chars_of(text);
    let ghost s = text@;
    let n = cs.len();
    let mut out: Vec<String> = Vec::new();
    let mut current = String::new();
    let mut has_words = false;
    let mut start: usize = 0;
    let mut i: usize = 0;
    assert(s.take(0) =~= Seq::<char>::empty());
    assert(s.subrange(0, 0) =~= Seq::<char>::empty());
    while i < n
        invariant
            cs@ == s,
            n == s.len(),
            start <= i <= n,
            start == 0 || is_sentence_end(s[start - 1]),
            forall|j: int| start <= j < i ==> !is_sentence_end(#[trigger] s[j]),
            current@ == s.subrange(start as int, i as int),
            has_words == !is_blank(s.subrange(start as int, i as int)),
            out@.len() == sentences(s.take(start as int)).len(),
            forall|k: int|
                0 <= k < out@.len() ==> #[trigger] out@[k]@ == sentences(s.take(start as int))[k],
        decreases n - i,
    {
        let c = cs[i];
        push_char(&mut current, c);
        proof {
            assert(s.subrange(start as int, i + 1) =~= s.subrange(start as int, i as int).push(c));
            lemma_blank_push(s.subrange(start as int, i as int), c);
        }
        if !is_whitespace(c) {
            has_words = true;
        }
        if is_sentence_end_char(c) {
            proof {
                lemma_sentences_extend(s, start as int, i + 1);
            }
            if has_words {
                out.push(current.clone());
            }
            current = String::new();
            has_words = false;
            start = i + 1;
            assert(s.subrange(start as int, start as int) =~= Seq::<char>::empty());
        }
        i += 1;
    }
    proof {
        assert(s.take(n as int) =~= s);
        if start < n {
            lemma_sentences_extend(s, start as int, n as int);
        }
    }
    if has_words {
        out.push(current);
    }
    out
}

/// A sentence mark, if any, stands only as the last character.
pub open spec fn marks_only_at_end(p: Seq<char>) -> bool {
    forall|j: int| 0 <= j < p.len() - 1 ==> !is_sentence_end(#[trigger] p[j])
}

/// Cutting a text into pieces loses, adds and reorders nothing: the pieces
/// put back together give the text.
pub proof fn lemma_pieces_rebuild_text(s: Seq<char>)
    ensures
        pieces(s).flatten() == s,
    decreases s.len(),
{
    if s.len() > 0 {
        lemma_first_piece_len(s);
        let k = first_piece_len(s) as int;
        lemma_pieces_rebuild_text(s.skip(k));
        let ps = pieces(s);
        assert(ps.first() == s.take(k));
        assert(ps.drop_first() =~= pieces(s.skip(k)));
        assert(s.take(k) + s.skip(k) =~= s);
    }
}

/// Every piece is non-empty, holds a sentence mark only as its last
/// character, and every piece but the last is closed by one.
pub proof fn lemma_pieces_shape(s: Seq<char>)
    ensures
        forall|i: int|
            0 <= i < pieces(s).len() ==> (#[trigger] pieces(s)[i]).len() > 0 && marks_only_at_end(
                pieces(s)[i],
            ),
        forall|i: int|
            0 <= i < pieces(s).len() - 1 ==> is_sentence_end((#[trigger] pieces(s)[i]).last()),
    decreases s.len(),
{
    if s.len() > 0 {
        lemma_first_piece_len(s);
        let k = first_piece_len(s) as int;
        let rest = s.skip(k);
        lemma_pieces_shape(rest);
        let ps = pieces(s);
        let p0 = s.take(k);
        assert(ps == seq![p0] + pieces(rest));
        assert forall|j: int| 0 <= j < p0.len() - 1 implies !is_sentence_end(#[trigger] p0[j]) by {
            assert(p0[j] == s[j]);
        }
        if rest.len() == 0 {
            assert(pieces(rest) =~= Seq::<Seq<char>>::empty());
        } else {
            assert(p0.last() == s[k - 1]);
        }
        assert forall|i: int| 0 <= i < ps.len() implies (#[trigger] ps[i]).len() > 0
            && marks_only_at_end(ps[i]) by {
            if i > 0 {
                assert(ps[i] == pieces(rest)[i - 1]);
            }
        }
        assert forall|i: int| 0 <= i < ps.len() - 1 implies is_sentence_end(
            (#[trigger] ps[i]).last(),
        ) by {
            if i > 0 {
                assert(ps[i] == pieces(rest)[i - 1]);
            }
        }
    }
}

proof fn lemma_spoken_keeps(ps: Seq<Seq<char>>, pred: spec_fn(Seq<char>) -> bool)
    requires
        forall|k: int| 0 <= k < ps.len() ==> pred(#[trigger] ps[k]),
    ensures
        forall|i: int|
            0 <= i < spoken(ps).len() ==> pred(#[trigger] spoken(ps)[i]) && !is_blank(
                spoken(ps)[i],
            ),
    decreases ps.len(),
{
    if ps.len() > 0 {
        let x = ps.drop_last();
        assert forall|k: int| 0 <= k < x.len() implies pred(#[trigger] x[k]) by {
            assert(x[k] == ps[k]);
        }
        lemma_spoken_keeps(x, pred);
        let last = ps.last();
        assert(pred(last));
        if !is_blank(last) {
            let sp = spoken(ps);
            assert(sp == spoken(x).push(last));
            assert forall|i: int| 0 <= i < sp.len() implies pred(#[trigger] sp[i]) && !is_blank(
                sp[i],
            ) by {
                if i < spoken(x).len() {
                    assert(sp[i] == spoken(x)[i]);
                } else {
                    assert(sp[i] == last);
                }
            }
        }
    }
}

/// Every sentence holds words, and a sentence mark can only be its last
/// character.
pub proof fn lemma_sentence_shape(s: Seq<char>)
    ensures
        forall|i: int|
            0 <= i < sentences(s).len() ==> !is_blank(#[trigger] sentences(s)[i])
                && marks_only_at_end(sentences(s)[i]),
{
    lemma_pieces_shape(s);
    lemma_spoken_keeps(pieces(s), |p: Seq<char>| marks_only_at_end(p));
}

proof fn lemma_spoken_all_but_last(ps: Seq<Seq<char>>, pred: spec_fn(Seq<char>) -> bool)
    requires
        forall|k: int| 0 <= k < ps.len() - 1 ==> pred(#[trigger] ps[k]),
    ensures
        forall|i: int| 0 <= i < spoken(ps).len() - 1 ==> pred(#[trigger] spoken(ps)[i]),
{
    if ps.len() > 0 {
        let x = ps.drop_last();
        assert forall|k: int| 0 <= k < x.len() implies pred(#[trigger] x[k]) by {
            assert(x[k] == ps[k]);
        }
        lemma_spoken_keeps(x, pred);
        let last = ps.last();
        if !is_blank(last) {
            let sp = spoken(ps);
            assert(sp == spoken(x).push(last));
            assert forall|i: int| 0 <= i < sp.len() - 1 implies pred(#[trigger] sp[i]) by {
                assert(sp[i] == spoken(x)[i]);
            }
        }
    }
}

/// Sentences are cut right after '.', '?', '!' and line breaks and nowhere
/// else: every sentence but the last ends with one of these four
/// characters, and no sentence holds one before its last character.
pub proof fn lemma_sentences_cut_at_marks(s: Seq<char>)
    ensures
        forall|i: int|
            0 <= i < sentences(s).len() - 1 ==> (#[trigger] sentences(s)[i]).len() > 0 && ({
                let c = sentences(s)[i].last();
                c == '.' || c == '?' || c == '!' || c == '\n'
            }),
        forall|i: int, j: int|
            0 <= i < sentences(s).len() && 0 <= j < (#[trigger] sentences(s)[i]).len() - 1 ==> ({
                let c = #[trigger] sentences(s)[i][j];
                c != '.' && c != '?' && c != '!' && c != '\n'
            }),
{
    lemma_pieces_shape(s);
    lemma_sentence_shape(s);
    let ps = pieces(s);
    assert forall|k: int| 0 <= k < ps.len() - 1 implies (|p: Seq<char>|
        p.len() > 0 && is_sentence_end(p.last()))(#[trigger] ps[k]) by {}
    lemma_spoken_all_but_last(ps, |p: Seq<char>| p.len() > 0 && is_sentence_end(p.last()));
    assert forall|i: int, j: int|
        0 <= i < sentences(s).len() && 0 <= j < (#[trigger] sentences(s)[i]).len() - 1 implies ({
        let c = #[trigger] sentences(s)[i][j];
        c != '.' && c != '?' && c != '!' && c != '\n'
    }) by {
        assert(marks_only_at_end(sentences(s)[i]));
        assert(!is_sentence_end(sentences(s)[i][j]));
    }
}

/// A text holding none of '.', '?', '!' or a line break is read as one
/// sentence, the whole text, unless it is blank.
pub proof fn lemma_unmarked_text_is_one_sentence(s: Seq<char>)
    requires
        !is_blank(s),
        forall|j: int|
            0 <= j < s.len() ==> #[trigger] s[j] != '.' && s[j] != '?' && s[j] != '!' && s[j]
                != '\n',
    ensures
        sentences(s) == seq![s],
{
    assert(s.len() > 0);
    assert forall|j: int| 0 <= j < s.len() - 1 implies !is_sentence_end(#[trigger] s[j]) by {}
    lemma_pieces_single(s);
    assert(seq![s].drop_last() =~= Seq::<Seq<char>>::empty());
    assert(seq![s].last() == s);
    assert(spoken(Seq::<Seq<char>>::empty()) =~= Seq::<Seq<char>>::empty());
    assert(Seq::<Seq<char>>::empty().push(s) =~= seq![s]);
}

/// The text made of `gaps[0]`, `ss[0]`, `gaps[1]`, `ss[1]`, ..., ending
/// with the last gap.
pub open spec fn interleave(gaps: Seq<Seq<char>>, ss: Seq<Seq<char>>) -> Seq<char>
    decreases ss.len(),
{
    if gaps.len() == 0 {
        Seq::empty()
    } else if ss.len() == 0 {
        gaps[0]
    } else {
        interleave(gaps.drop_last(), ss.drop_last()) + ss.last() + gaps.last()
    }
}

proof fn lemma_interleave_extend_last(g: Seq<Seq<char>>, ss: Seq<Seq<char>>, p: Seq<char>)
    requires
        g.len() == ss.len() + 1,
    ensures
        interleave(g.update(g.len() - 1, g.last() + p), ss) == interleave(g, ss) + p,
{
    let g2 = g.update(g.len() - 1, g.last() + p);
    if ss.len() == 0 {
        assert(g2[0] == g[0] + p);
    } else {
        assert(g2.drop_last() =~= g.drop_last());
        assert(g2.last() == g.last() + p);
        assert(interleave(g2, ss) == interleave(g.drop_last(), ss.drop_last()) + ss.last() + (
        g.last() + p));
        assert(interleave(g.drop_last(), ss.drop_last()) + ss.last() + (g.last() + p)
            =~= interleave(g.drop_last(), ss.drop_last()) + ss.last() + g.last() + p);
    }
}

proof fn lemma_spoken_gaps(ps: Seq<Seq<char>>) -> (gaps: Seq<Seq<char>>)
    requires
        forall|k: int| 0 <= k < ps.len() ==> (#[trigger] ps[k]).len() > 0,
        forall|k: int| 0 <= k < ps.len() - 1 ==> is_sentence_end((#[trigger] ps[k]).last()),
    ensures
        gaps.len() == spoken(ps).len() + 1,
        forall|k: int| 0 <= k < gaps.len() ==> is_blank(#[trigger] gaps[k]),
        forall|k: int|
            0 <= k < gaps.len() - 1 ==> (#[trigger] gaps[k]).len() == 0 || gaps[k].last()
                == '\n',
        interleave(gaps, spoken(ps)) == ps.flatten(),
        gaps.last().len() > 0 ==> ps.len() > 0 && is_blank(ps.last()) && gaps.last().last()
            == ps.last().last(),
    decreases ps.len(),
{
    if ps.len() == 0 {
        let gaps = seq![Seq::<char>::empty()];
        assert(ps.flatten() =~= Seq::<char>::empty());
        assert(is_blank(gaps[0]));
        gaps
    } else {
        let x = ps.drop_last();
        let p = ps.last();
        assert(ps =~= x.push(p));
        x.lemma_flatten_push(p);
        assert forall|k: int| 0 <= k < x.len() implies (#[trigger] x[k]).len() > 0 by {
            assert(x[k] == ps[k]);
        }
        assert forall|k: int| 0 <= k < x.len() - 1 implies is_sentence_end(
            (#[trigger] x[k]).last(),
        ) by {
            assert(x[k] == ps[k]);
        }
        let g = lemma_spoken_gaps(x);
        if is_blank(p) {
            let g2 = g.update(g.len() - 1, g.last() + p);
            lemma_interleave_extend_last(g, spoken(x), p);
            assert forall|k: int| 0 <= k < g2.len() implies is_blank(#[trigger] g2[k]) by {
                if k == g2.len() - 1 {
                    let w = g.last() + p;
                    assert(is_blank(g.last()));
                    assert forall|i: int| 0 <= i < w.len() implies spec_is_whitespace(
                        #[trigger] w[i],
                    ) by {
                        if i < g.last().len() {
                            assert(w[i] == g.last()[i]);
                        } else {
                            assert(w[i] == p[i - g.last().len()]);
                        }
                    }
                }
            }
            assert forall|k: int| 0 <= k < g2.len() - 1 implies (#[trigger] g2[k]).len() == 0
                || g2[k].last() == '\n' by {
                assert(g2[k] == g[k]);
            }
            assert(g2.last() == g.last() + p);
            assert((g.last() + p).last() == p.last());
            g2
        } else {
            let g2 = g.push(Seq::<char>::empty());
            let sx = spoken(x);
            assert(spoken(ps) == sx.push(p));
            assert(g2.drop_last() =~= g);
            assert(sx.push(p).drop_last() =~= sx);
            assert(interleave(g2, sx.push(p)) == interleave(g, sx) + p + Seq::<char>::empty());
            assert(interleave(g, sx) + p + Seq::<char>::empty() =~= interleave(g, sx) + p);
            assert(is_blank(g2[g2.len() - 1]));
            assert forall|k: int| 0 <= k < g2.len() - 1 implies (#[trigger] g2[k]).len() == 0
                || g2[k].last() == '\n' by {
                assert(g2[k] == g[k]);
                if k == g.len() - 1 && g[k].len() > 0 {
                    // the gap before this sentence ends with the blank piece just before it,
                    // which is not the last piece and so ends with a sentence mark
                    assert(x.len() > 0);
                    assert(x.last() == ps[x.len() - 1]);
                    assert(is_sentence_end(x.last().last()));
                    assert(is_blank(x.last()));
                    assert(x.last().last() == x.last()[x.last().len() - 1]);
                    assert(spec_is_whitespace(x.last().last()));
                }
            }
            assert forall|k: int| 0 <= k < g2.len() implies is_blank(#[trigger] g2[k]) by {
                if k < g.len() {
                    assert(g2[k] == g[k]);
                }
            }
            g2
        }
    }
}

/// The sentences fill the text apart from blank gaps: the text is gap,
/// sentence, gap, sentence, ..., gap, where every gap holds only white
/// space, every gap but the last is empty or ends with a line break (so no
/// white space is moved out of a sentence), and the last gap is empty
/// unless the last sentence ends with '.', '?', '!' or a line break.
pub proof fn lemma_sentences_fill_text(s: Seq<char>) -> (gaps: Seq<Seq<char>>)
    ensures
        gaps.len() == sentences(s).len() + 1,
        forall|k: int| 0 <= k < gaps.len() ==> is_blank(#[trigger] gaps[k]),
        forall|k: int|
            0 <= k < gaps.len() - 1 ==> (#[trigger] gaps[k]).len() == 0 || gaps[k].last()
                == '\n',
        interleave(gaps, sentences(s)) == s,
        gaps.last().len() > 0 && sentences(s).len() > 0 ==> ({
            let c = sentences(s).last().last();
            c == '.' || c == '?' || c == '!' || c == '\n'
        }),
{
    lemma_pieces_shape(s);
    lemma_pieces_rebuild_text(s);
    lemma_sentence_shape(s);
    let ps = pieces(s);
    let gaps = lemma_spoken_gaps(ps);
    if gaps.last().len() > 0 && sentences(s).len() > 0 {
        let x = ps.drop_last();
        assert(spoken(ps) == spoken(x));
        assert forall|k: int| 0 <= k < x.len() implies (|p: Seq<char>|
            p.len() > 0 && is_sentence_end(p.last()))(#[trigger] x[k]) by {
            assert(x[k] == ps[k]);
        }
        lemma_spoken_keeps(x, |p: Seq<char>| p.len() > 0 && is_sentence_end(p.last()));
        let last = spoken(x).len() - 1;
        assert((|p: Seq<char>| p.len() > 0 && is_sentence_end(p.last()))(spoken(x)[last]));
    }
    gaps
}

proof fn lemma_spoken_visible(ps: Seq<Seq<char>>)
    ensures
        visible(spoken(ps).flatten()) == visible(ps.flatten()),
    decreases ps.len(),
{
    if ps.len() > 0 {
        let x = ps.drop_last();
        let p = ps.last();
        assert(ps =~= x.push(p));
        x.lemma_flatten_push(p);
        lemma_spoken_visible(x);
        lemma_visible_concat(x.flatten(), p);
        if is_blank(p) {
            lemma_visible_empty(p);
            assert(visible(x.flatten()) + visible(p) =~= visible(x.flatten()));
        } else {
            spoken(x).lemma_flatten_push(p);
            lemma_visible_concat(spoken(x).flatten(), p);
        }
    }
}

/// Splitting drops nothing but white space: the sentences, put together,
/// hold every other character of the text, in order.
pub proof fn lemma_split_keeps_words(s: Seq<char>)
    ensures
        visible(sentences(s).flatten()) == visible(s),
{
    lemma_spoken_visible(pieces(s));
    lemma_pieces_rebuild_text(s);
}

/// A text gives no sentence exactly when it is blank.
pub proof fn lemma_sentence_count(s: Seq<char>)
    ensures
        (sentences(s).len() == 0) == is_blank(s),
{
    lemma_split_keeps_words(s);
    lemma_visible_empty(s);
    let ss = sentences(s);
    if ss.len() > 0 {
        lemma_sentence_shape(s);
        assert(!is_blank(ss[0]));
        lemma_visible_concat(ss.first(), ss.drop_first().flatten());
        lemma_visible_empty(ss.first());
    } else {
        assert(ss.flatten() =~= Seq::<char>::empty());
        assert(visible(Seq::<char>::empty()) =~= Seq::<char>::empty());
    }
}

proof fn lemma_pieces_len(s: Seq<char>)
    ensures
        pieces(s).len() <= s.len(),
    decreases s.len(),
{
    if s.len() > 0 {
        lemma_first_piece_len(s);
        lemma_pieces_len(s.skip(first_piece_len(s) as int));
    }
}

proof fn lemma_spoken_len(ps: Seq<Seq<char>>)
    ensures
        spoken(ps).len() <= ps.len(),
    decreases ps.len(),
{
    if ps.len() > 0 {
        lemma_spoken_len(ps.drop_last());
    }
}

/// A text has no more sentences than characters.
pub proof fn lemma_sentence_count_bound(s: Seq<char>)
    ensures
        sentences(s).len() <= s.len(),
{
    lemma_pieces_len(s);
    lemma_spoken_len(pieces(s));
}

} // verus!
