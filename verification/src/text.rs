//! Greedy word-wrapping. Text may contain `'\n'`-separated paragraphs; each
//! paragraph is wrapped independently and contributes at least one (possibly
//! blank) line, so paragraph count is preserved. Within a paragraph the text
//! is cut after each space, and the resulting tokens — trailing space
//! attached — are packed greedily; a token wider than the whole width is
//! hard-split into width-sized chunks.

use vstd::prelude::*;

use crate::chars::chars_to_string;
use crate::chars::str_chars;

verus! {

/// The pieces of `s` delimited by `sep`, in order. As with `str::split`,
/// there is always exactly one piece more than there are separators, so the
/// empty sequence yields one empty piece.
pub open spec fn split_on(s: Seq<char>, sep: char) -> Seq<Seq<char>>
    decreases s.len(),
{
    if s.len() == 0 {
        seq![Seq::<char>::empty()]
    } else if s.last() == sep {
        split_on(s.drop_last(), sep).push(Seq::<char>::empty())
    } else {
        let r = split_on(s.drop_last(), sep);
        r.update(r.len() - 1, r.last().push(s.last()))
    }
}

/// Splitting always yields at least one piece.
pub proof fn lemma_split_on_len(s: Seq<char>, sep: char)
    ensures
        split_on(s, sep).len() >= 1,
    decreases s.len(),
{
    if s.len() > 0 {
        lemma_split_on_len(s.drop_last(), sep);
    }
}

/// Splitting yields at most one piece more than there are characters, and
/// no piece is longer than the whole.
pub proof fn lemma_split_on_bounds(s: Seq<char>, sep: char)
    ensures
        split_on(s, sep).len() <= s.len() + 1,
        forall|i: int|
            0 <= i < split_on(s, sep).len() ==> #[trigger] split_on(s, sep)[i].len() <= s.len(),
    decreases s.len(),
{
    if s.len() > 0 {
        lemma_split_on_bounds(s.drop_last(), sep);
        lemma_split_on_len(s.drop_last(), sep);
        let prev = split_on(s.drop_last(), sep);
        assert forall|i: int|
            0 <= i < split_on(s, sep).len() implies #[trigger] split_on(s, sep)[i].len()
            <= s.len() by {
            if s.last() == sep {
                if i < prev.len() {
                    assert(split_on(s, sep)[i] == prev[i]);
                    assert(prev[i].len() <= s.drop_last().len());
                } else {
                    assert(split_on(s, sep)[i] == Seq::<char>::empty());
                }
            } else {
                if i < prev.len() - 1 {
                    assert(split_on(s, sep)[i] == prev[i]);
                    assert(prev[i].len() <= s.drop_last().len());
                } else {
                    assert(i == prev.len() - 1);
                    assert(split_on(s, sep)[i] == prev.last().push(s.last()));
                    assert(prev.last().len() <= s.drop_last().len());
                }
            }
        }
    }
}

/// The tokens of `s` cut after each `sep`, as `str::split_inclusive` cuts
/// them: every token but the last keeps its trailing separator, an empty
/// trailing token is dropped, and the empty sequence has no tokens.
pub open spec fn split_inclusive_on(s: Seq<char>, sep: char) -> Seq<Seq<char>> {
    let ps = split_on(s, sep);
    let kept = Seq::new((ps.len() - 1) as nat, |i: int| ps[i].push(sep));
    if ps.last().len() == 0 {
        kept
    } else {
        kept.push(ps.last())
    }
}

/// Hard-split the front of an over-wide token into `w`-sized chunks,
/// appending each chunk as a finished line; returns the finished lines and
/// the remainder (of length at most `w`).
pub open spec fn chunk_fold(tok: Seq<char>, w: int, acc: Seq<Seq<char>>) -> (Seq<Seq<char>>, Seq<
    char,
>)
    decreases tok.len(),
{
    if w >= 1 && tok.len() > w {
        chunk_fold(tok.skip(w), w, acc.push(tok.take(w)))
    } else {
        (acc, tok)
    }
}

/// Pack tokens greedily: a token that no longer fits first closes the
/// current line; an over-wide token is hard-split; whatever remains is
/// appended to the current line. Returns the finished lines and the open
/// line.
pub open spec fn wrap_fold(
    tokens: Seq<Seq<char>>,
    w: int,
    acc: Seq<Seq<char>>,
    cur: Seq<char>,
) -> (Seq<Seq<char>>, Seq<char>)
    decreases tokens.len(),
{
    if tokens.len() == 0 {
        (acc, cur)
    } else {
        let tok = tokens[0];
        let flushed = cur.len() + tok.len() > w && cur.len() > 0;
        let acc1 = if flushed {
            acc.push(cur)
        } else {
            acc
        };
        let cur1: Seq<char> = if flushed {
            Seq::empty()
        } else {
            cur
        };
        let folded = chunk_fold(tok, w, acc1);
        wrap_fold(tokens.drop_first(), w, folded.0, cur1 + folded.1)
    }
}

/// The lines of one wrapped paragraph: the greedy packing of its tokens,
/// with the open line closed at the end, and at least one (possibly blank)
/// line even for an empty paragraph.
pub open spec fn wrap_paragraph(p: Seq<char>, w: int) -> Seq<Seq<char>> {
    let toks = split_inclusive_on(p, ' ');
    let folded = wrap_fold(toks, w, Seq::empty(), Seq::empty());
    let lines = if folded.1.len() > 0 {
        folded.0.push(folded.1)
    } else {
        folded.0
    };
    if lines.len() == 0 {
        seq![Seq::<char>::empty()]
    } else {
        lines
    }
}

/// The wrapped paragraphs, concatenated in order.
pub open spec fn wrap_all(ps: Seq<Seq<char>>, w: int) -> Seq<Seq<char>>
    decreases ps.len(),
{
    if ps.len() == 0 {
        Seq::empty()
    } else {
        wrap_all(ps.drop_last(), w) + wrap_paragraph(ps.last(), w)
    }
}

/// What `wrap_text` returns: nothing at width zero, otherwise every
/// paragraph of the text wrapped at width `w` and the resulting lines
/// concatenated.
pub open spec fn spec_wrap(text: Seq<char>, w: int) -> Seq<Seq<char>> {
    if w <= 0 {
        Seq::empty()
    } else {
        wrap_all(split_on(text, '\n'), w)
    }
}

proof fn lemma_chunk_fold_bounds(tok: Seq<char>, w: int, acc: Seq<Seq<char>>)
    requires
        w >= 1,
        forall|i: int| 0 <= i < acc.len() ==> #[trigger] acc[i].len() <= w,
    ensures
        forall|i: int|
            0 <= i < chunk_fold(tok, w, acc).0.len() ==> #[trigger] chunk_fold(
                tok,
                w,
                acc,
            ).0[i].len() <= w,
        chunk_fold(tok, w, acc).1.len() <= w,
    decreases tok.len(),
{
    if tok.len() > w {
        assert(tok.take(w).len() == w);
        lemma_chunk_fold_bounds(tok.skip(w), w, acc.push(tok.take(w)));
    }
}

proof fn lemma_wrap_fold_bounds(tokens: Seq<Seq<char>>, w: int, acc: Seq<Seq<char>>, cur: Seq<char>)
    requires
        w >= 1,
        forall|i: int| 0 <= i < acc.len() ==> #[trigger] acc[i].len() <= w,
        cur.len() <= w,
    ensures
        forall|i: int|
            0 <= i < wrap_fold(tokens, w, acc, cur).0.len() ==> #[trigger] wrap_fold(
                tokens,
                w,
                acc,
                cur,
            ).0[i].len() <= w,
        wrap_fold(tokens, w, acc, cur).1.len() <= w,
    decreases tokens.len(),
{
    if tokens.len() > 0 {
        let tok = tokens[0];
        let flushed = cur.len() + tok.len() > w && cur.len() > 0;
        let acc1 = if flushed {
            acc.push(cur)
        } else {
            acc
        };
        let cur1: Seq<char> = if flushed {
            Seq::empty()
        } else {
            cur
        };
        lemma_chunk_fold_bounds(tok, w, acc1);
        let folded = chunk_fold(tok, w, acc1);
        if !flushed && cur.len() > 0 {
            assert(folded.1 == tok);
        }
        lemma_wrap_fold_bounds(tokens.drop_first(), w, folded.0, cur1 + folded.1);
    }
}

proof fn lemma_wrap_paragraph_bounds(p: Seq<char>, w: int)
    requires
        w >= 1,
    ensures
        wrap_paragraph(p, w).len() >= 1,
        forall|i: int|
            0 <= i < wrap_paragraph(p, w).len() ==> #[trigger] wrap_paragraph(p, w)[i].len() <= w,
{
    let toks = split_inclusive_on(p, ' ');
    lemma_wrap_fold_bounds(toks, w, Seq::empty(), Seq::empty());
}

proof fn lemma_wrap_all_bounds(ps: Seq<Seq<char>>, w: int)
    requires
        w >= 1,
    ensures
        forall|i: int| 0 <= i < wrap_all(ps, w).len() ==> #[trigger] wrap_all(ps, w)[i].len() <= w,
    decreases ps.len(),
{
    if ps.len() > 0 {
        lemma_wrap_all_bounds(ps.drop_last(), w);
        lemma_wrap_paragraph_bounds(ps.last(), w);
        let a = wrap_all(ps.drop_last(), w);
        let b = wrap_paragraph(ps.last(), w);
        assert forall|i: int| 0 <= i < wrap_all(ps, w).len() implies #[trigger] wrap_all(
            ps,
            w,
        )[i].len() <= w by {
            if i < a.len() {
                assert(wrap_all(ps, w)[i] == a[i]);
            } else {
                assert(wrap_all(ps, w)[i] == b[i - a.len()]);
            }
        }
    }
}

/// At any positive width, no wrapped line is longer than the width.
pub proof fn lemma_wrap_line_width(text: Seq<char>, w: int)
    requires
        w >= 1,
    ensures
        forall|i: int|
            0 <= i < spec_wrap(text, w).len() ==> #[trigger] spec_wrap(text, w)[i].len() <= w,
{
    lemma_wrap_all_bounds(split_on(text, '\n'), w);
}

/// The wrapped lines of each paragraph, one block per paragraph.
pub open spec fn wrap_blocks(text: Seq<char>, w: int) -> Seq<Seq<Seq<char>>> {
    Seq::new(split_on(text, '\n').len(), |i: int| wrap_paragraph(split_on(text, '\n')[i], w))
}

proof fn lemma_wrap_all_is_flatten(ps: Seq<Seq<char>>, w: int)
    ensures
        Seq::new(ps.len(), |i: int| wrap_paragraph(ps[i], w)).flatten_alt() == wrap_all(ps, w),
    decreases ps.len(),
{
    let blocks = Seq::new(ps.len(), |i: int| wrap_paragraph(ps[i], w));
    if ps.len() == 0 {
        assert(blocks =~= Seq::<Seq<Seq<char>>>::empty());
    } else {
        lemma_wrap_all_is_flatten(ps.drop_last(), w);
        assert(blocks.drop_last() =~= Seq::new(
            ps.drop_last().len(),
            |i: int| wrap_paragraph(ps.drop_last()[i], w),
        ));
        assert(blocks.last() == wrap_paragraph(ps.last(), w));
    }
}

/// Wrapping at a positive width yields exactly one non-empty block of lines
/// per paragraph of the text, concatenated in order: the paragraph count is
/// preserved, and a blank paragraph still contributes a blank line.
pub proof fn lemma_wrap_paragraph_blocks(text: Seq<char>, w: int)
    requires
        w >= 1,
    ensures
        wrap_blocks(text, w).len() == split_on(text, '\n').len(),
        forall|b: int|
            0 <= b < wrap_blocks(text, w).len() ==> #[trigger] wrap_blocks(text, w)[b].len() >= 1,
        spec_wrap(text, w) == wrap_blocks(text, w).flatten(),
{
    let ps = split_on(text, '\n');
    assert forall|b: int| 0 <= b < wrap_blocks(text, w).len() implies #[trigger] wrap_blocks(
        text,
        w,
    )[b].len() >= 1 by {
        lemma_wrap_paragraph_bounds(ps[b], w);
    }
    lemma_wrap_all_is_flatten(ps, w);
    wrap_blocks(text, w).lemma_flatten_and_flatten_alt_are_equivalent();
}

/// The views of a sequence of character vectors.
pub open spec fn views_of(v: Seq<Vec<char>>) -> Seq<Seq<char>> {
    Seq::new(v.len(), |i: int| v[i]@)
}

/// The views of a sequence of strings.
pub open spec fn string_views_of(v: Seq<String>) -> Seq<Seq<char>> {
    Seq::new(v.len(), |i: int| v[i]@)
}

/// The pieces of `chars` delimited by `sep`, as vectors.
pub fn split_chars(chars: &Vec<char>, sep: char) -> (r: Vec<Vec<char>>)
    ensures
        views_of(r@) == split_on(chars@, sep),
        r@.len() >= 1,
{
    let mut pieces: Vec<Vec<char>> = Vec::new();
    let mut cur: Vec<char> = Vec::new();
    let n = chars.len();
    proof {
        assert(chars@.take(0) =~= Seq::<char>::empty());
        assert(views_of(pieces@).push(cur@) =~= seq![Seq::<char>::empty()]);
    }
    for i in 0..n
        invariant
            n == chars@.len(),
            views_of(pieces@).push(cur@) == split_on(chars@.take(i as int), sep),
    {
        proof {
            assert(chars@.take(i + 1).drop_last() =~= chars@.take(i as int));
            assert(chars@.take(i + 1).last() == chars@[i as int]);
            lemma_split_on_len(chars@.take(i as int), sep);
        }
        let ghost prev = pieces@;
        let ghost prev_cur = cur@;
        let c = chars[i];
        if c == sep {
            pieces.push(cur);
            cur = Vec::new();
            proof {
                assert(views_of(pieces@) =~= views_of(prev).push(prev_cur));
                assert(views_of(pieces@).push(cur@) =~= split_on(chars@.take(i + 1), sep));
            }
        } else {
            cur.push(c);
            proof {
                let s = split_on(chars@.take(i as int), sep);
                assert(s.last() == prev_cur);
                assert(views_of(pieces@).push(cur@) =~= s.update(s.len() - 1, s.last().push(c)));
            }
        }
    }
    proof {
        assert(chars@.take(n as int) =~= chars@);
    }
    let ghost prev = pieces@;
    let ghost prev_cur = cur@;
    pieces.push(cur);
    proof {
        assert(views_of(pieces@) =~= views_of(prev).push(prev_cur));
    }
    pieces
}

/// A copy of a character vector.
fn clone_chars(v: &Vec<char>) -> (r: Vec<char>)
    ensures
        r@ == v@,
{
    let mut r: Vec<char> = Vec::new();
    let n = v.len();
    for i in 0..n
        invariant
            n == v@.len(),
            r@ =~= v@.take(i as int),
    {
        r.push(v[i]);
        proof {
            assert(r@ =~= v@.take(i + 1));
        }
    }
    proof {
        assert(v@.take(n as int) =~= v@);
    }
    r
}

/// The characters `v[a..b]` as a fresh vector.
fn subvec(v: &Vec<char>, a: usize, b: usize) -> (r: Vec<char>)
    requires
        a <= b <= v@.len(),
    ensures
        r@ == v@.subrange(a as int, b as int),
{
    let mut r: Vec<char> = Vec::new();
    for i in a..b
        invariant
            a <= i <= b <= v@.len(),
            r@ =~= v@.subrange(a as int, i as int),
    {
        r.push(v[i]);
        proof {
            assert(r@ =~= v@.subrange(a as int, i + 1));
        }
    }
    r
}

/// Append the characters `src[a..b]` to `dst`.
fn append_range(dst: &mut Vec<char>, src: &Vec<char>, a: usize, b: usize)
    requires
        a <= b <= src@.len(),
    ensures
        final(dst)@ == old(dst)@ + src@.subrange(a as int, b as int),
{
    let ghost base = dst@;
    for i in a..b
        invariant
            a <= i <= b <= src@.len(),
            dst@ =~= base + src@.subrange(a as int, i as int),
    {
        dst.push(src[i]);
        proof {
            assert(dst@ =~= base + src@.subrange(a as int, i + 1));
        }
    }
}

/// The tokens of `p` cut after each space, each keeping its trailing space.
fn tokenize(p: &Vec<char>) -> (r: Vec<Vec<char>>)
    ensures
        views_of(r@) == split_inclusive_on(p@, ' '),
{
    let pieces = split_chars(p, ' ');
    let ghost ps = split_on(p@, ' ');
    proof {
        lemma_split_on_len(p@, ' ');
    }
    let np = pieces.len();
    let mut toks: Vec<Vec<char>> = Vec::new();
    for i in 0..np - 1
        invariant
            np == pieces@.len(),
            np >= 1,
            views_of(pieces@) == ps,
            toks@.len() == i,
            forall|j: int| 0 <= j < i ==> #[trigger] toks@[j]@ == ps[j].push(' '),
    {
        let mut t = clone_chars(&pieces[i]);
        t.push(' ');
        proof {
            assert(views_of(pieces@)[i as int] == pieces@[i as int]@);
        }
        toks.push(t);
    }
    let last = clone_chars(&pieces[np - 1]);
    proof {
        assert(views_of(pieces@)[np - 1] == pieces@[np - 1]@);
    }
    let ghost kept = Seq::new((ps.len() - 1) as nat, |i: int| ps[i].push(' '));
    if last.len() > 0 {
        toks.push(last);
        proof {
            assert(views_of(toks@) =~= kept.push(ps.last()));
        }
    } else {
        proof {
            assert(views_of(toks@) =~= kept);
        }
    }
    toks
}

/// Wrap one paragraph at width `w`, returning its lines as vectors.
fn wrap_paragraph_chars(p: &Vec<char>, w: u16) -> (r: Vec<Vec<char>>)
    requires
        w >= 1,
    ensures
        views_of(r@) == wrap_paragraph(p@, w as int),
{
    let toks = tokenize(p);
    let ghost tv = split_inclusive_on(p@, ' ');
    let mut acc: Vec<Vec<char>> = Vec::new();
    let mut cur: Vec<char> = Vec::new();
    let nt = toks.len();
    proof {
        assert(tv.skip(0) =~= tv);
        assert(views_of(acc@) =~= Seq::<Seq<char>>::empty());
    }
    for i in 0..nt
        invariant
            nt == toks@.len(),
            views_of(toks@) == tv,
            w >= 1,
            cur@.len() <= w,
            wrap_fold(tv, w as int, Seq::empty(), Seq::empty()) == wrap_fold(
                tv.skip(i as int),
                w as int,
                views_of(acc@),
                cur@,
            ),
    {
        let tok = &toks[i];
        proof {
            assert(views_of(toks@)[i as int] == toks@[i as int]@);
            assert(tv.skip(i as int)[0] == tv[i as int]);
            assert(tv.skip(i as int).drop_first() =~= tv.skip(i + 1));
        }
        if cur.len() > 0 && tok.len() > w as usize - cur.len() {
            let ghost prev = acc@;
            let ghost prev_cur = cur@;
            acc.push(cur);
            cur = Vec::new();
            proof {
                assert(views_of(acc@) =~= views_of(prev).push(prev_cur));
            }
        }
        let ghost acc1 = views_of(acc@);
        let ghost cur1 = cur@;
        let mut start: usize = 0;
        proof {
            assert(tok@.skip(0) =~= tok@);
        }
        while tok.len() - start > w as usize
            invariant
                w >= 1,
                start <= tok@.len(),
                tok@ == tv[i as int],
                chunk_fold(tv[i as int], w as int, acc1) == chunk_fold(
                    tok@.skip(start as int),
                    w as int,
                    views_of(acc@),
                ),
            decreases tok@.len() - start,
        {
            let piece = subvec(tok, start, start + w as usize);
            let ghost prev = acc@;
            acc.push(piece);
            proof {
                assert(tok@.skip(start as int).skip(w as int) =~= tok@.skip(start + w));
                assert(tok@.skip(start as int).take(w as int) =~= tok@.subrange(
                    start as int,
                    start + w,
                ));
                assert(views_of(acc@) =~= views_of(prev).push(
                    tok@.skip(start as int).take(w as int),
                ));
            }
            start += w as usize;
        }
        proof {
            assert(chunk_fold(tok@.skip(start as int), w as int, views_of(acc@)) == (
                views_of(acc@),
                tok@.skip(start as int),
            ));
        }
        append_range(&mut cur, tok, start, tok.len());
        proof {
            assert(tok@.subrange(start as int, tok@.len() as int) =~= tok@.skip(start as int));
            assert(wrap_fold(tv, w as int, Seq::empty(), Seq::empty()) == wrap_fold(
                tv.skip(i + 1),
                w as int,
                views_of(acc@),
                cur@,
            ));
        }
    }
    proof {
        assert(tv.skip(nt as int) =~= Seq::<Seq<char>>::empty());
        assert(wrap_fold(tv, w as int, Seq::empty(), Seq::empty()) == (views_of(acc@), cur@));
    }
    let ghost folded = wrap_fold(tv, w as int, Seq::empty(), Seq::empty());
    if cur.len() > 0 {
        let ghost prev = acc@;
        let ghost prev_cur = cur@;
        acc.push(cur);
        proof {
            assert(views_of(acc@) =~= views_of(prev).push(prev_cur));
        }
    }
    if acc.len() == 0 {
        let ghost prev = acc@;
        acc.push(Vec::new());
        proof {
            assert(views_of(acc@) =~= seq![Seq::<char>::empty()]);
        }
    }
    acc
}

/// Append each line, as a string, to `out`.
fn push_lines(out: &mut Vec<String>, lines: &Vec<Vec<char>>)
    ensures
        final(out)@.len() == old(out)@.len() + lines@.len(),
        forall|j: int|
            0 <= j < old(out)@.len() ==> #[trigger] final(out)@[j]@ == old(out)@[j]@,
        forall|j: int|
            0 <= j < lines@.len() ==> #[trigger] final(out)@[old(out)@.len() + j]@ == lines@[j]@,
{
    let ghost base = out@;
    let nl = lines.len();
    for k in 0..nl
        invariant
            nl == lines@.len(),
            out@.len() == base.len() + k,
            forall|j: int| 0 <= j < base.len() ==> #[trigger] out@[j]@ == base[j]@,
            forall|j: int|
                0 <= j < k ==> #[trigger] out@[base.len() + j]@ == lines@[j]@,
    {
        out.push(chars_to_string(&lines[k]));
    }
}

/// Greedy word-wrap of `text` at width `max_width`, the lines as character
/// vectors.
pub fn wrap_chars(text: &str, max_width: u16) -> (r: Vec<Vec<char>>)
    ensures
        views_of(r@) == spec_wrap(text@, max_width as int),
{
    let mut out: Vec<Vec<char>> = Vec::new();
    if max_width == 0 {
        proof {
            assert(views_of(out@) =~= spec_wrap(text@, 0));
        }
        return out;
    }
    let chars = str_chars(text);
    let paragraphs = split_chars(&chars, '\n');
    let ghost ps = split_on(text@, '\n');
    let np = paragraphs.len();
    proof {
        assert(ps.take(0) =~= Seq::<Seq<char>>::empty());
        assert(views_of(out@) =~= Seq::<Seq<char>>::empty());
    }
    for i in 0..np
        invariant
            np == paragraphs@.len(),
            views_of(paragraphs@) == ps,
            max_width >= 1,
            views_of(out@) == wrap_all(ps.take(i as int), max_width as int),
    {
        proof {
            assert(views_of(paragraphs@)[i as int] == paragraphs@[i as int]@);
        }
        let lines = wrap_paragraph_chars(&paragraphs[i], max_width);
        let ghost before = views_of(out@);
        let ghost prev_len = out@.len();
        push_char_lines(&mut out, &lines);
        proof {
            assert(before.len() == prev_len);
            assert forall|j: int|
                0 <= j < out@.len() implies views_of(out@)[j] == (before + views_of(lines@))[j] by {
                if j < prev_len {
                    assert(out@[j]@ == before[j]);
                } else {
                    let jj = j - prev_len;
                    assert(out@[prev_len + jj]@ == lines@[jj]@);
                    assert(views_of(lines@)[jj] == lines@[jj]@);
                }
            }
            assert(views_of(out@) =~= before + views_of(lines@));
            assert(ps.take(i + 1).drop_last() =~= ps.take(i as int));
            assert(ps.take(i + 1).last() == ps[i as int]);
            assert(views_of(out@) =~= wrap_all(ps.take(i + 1), max_width as int));
        }
    }
    proof {
        assert(ps.take(np as int) =~= ps);
    }
    out
}

/// Append a copy of each line to `out`.
fn push_char_lines(out: &mut Vec<Vec<char>>, lines: &Vec<Vec<char>>)
    ensures
        final(out)@.len() == old(out)@.len() + lines@.len(),
        forall|j: int| 0 <= j < old(out)@.len() ==> #[trigger] final(out)@[j]@ == old(out)@[j]@,
        forall|j: int|
            0 <= j < lines@.len() ==> #[trigger] final(out)@[old(out)@.len() + j]@ == lines@[j]@,
{
    let ghost base = out@;
    let nl = lines.len();
    for k in 0..nl
        invariant
            nl == lines@.len(),
            out@.len() == base.len() + k,
            forall|j: int| 0 <= j < base.len() ==> #[trigger] out@[j]@ == base[j]@,
            forall|j: int| 0 <= j < k ==> #[trigger] out@[base.len() + j]@ == lines@[j]@,
    {
        out.push(clone_chars(&lines[k]));
    }
}

/// Greedy word-wrap of `text` at width `max_width`. Paragraphs are wrapped
/// independently; each contributes at least one line; tokens keep their
/// trailing space; an over-wide token is hard-split; width zero yields no
/// lines at all. Pure: the result is a function of the two arguments alone.
pub fn wrap_text(text: &str, max_width: u16) -> (r: Vec<String>)
    ensures
        string_views_of(r@) == spec_wrap(text@, max_width as int),
{
    let cl = wrap_chars(text, max_width);
    let mut out: Vec<String> = Vec::new();
    push_lines(&mut out, &cl);
    proof {
        assert forall|j: int|
            0 <= j < out@.len() implies string_views_of(out@)[j] == views_of(cl@)[j] by {
            assert(out@[0 + j]@ == cl@[j]@);
            assert(views_of(cl@)[j] == cl@[j]@);
        }
        assert(string_views_of(out@) =~= views_of(cl@));
    }
    out
}

} // verus!
