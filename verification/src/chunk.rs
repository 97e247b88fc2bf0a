//! Splitting a long markdown body into pieces that fit one request each.
use vstd::prelude::*;

use crate::text;

verus! {

/// Bodies of more bytes than this are translated in pieces, so that each call
/// stays under the output cap of the model.
pub const BODY_CHUNK_CHARS: usize = 6_000;

/// Pieces that are done, and the piece that is being filled.
pub struct Chunking {
    pub done: Seq<Seq<char>>,
    pub current: Seq<char>,
}

/// The current piece ends here.
pub open spec fn flushed(c: Chunking) -> Chunking {
    Chunking { done: c.done.push(text::trim_end_of(c.current)), current: Seq::empty() }
}

/// A second-level heading starts a new piece where the current one is at least
/// half full.
pub open spec fn opened(c: Chunking, line: Seq<char>) -> Chunking {
    if "## "@.is_prefix_of(line) && c.current.len() > 0 && text::byte_len(c.current)
        >= BODY_CHUNK_CHARS / 2 {
        flushed(c)
    } else {
        c
    }
}

/// The line goes below what the current piece holds.
pub open spec fn filled(c: Chunking, line: Seq<char>) -> Chunking {
    Chunking {
        done: c.done,
        current: if c.current.len() > 0 {
            c.current.push('\n') + line
        } else {
            line
        },
    }
}

/// A piece that is full ends.
pub open spec fn closed_if_full(c: Chunking) -> Chunking {
    if text::byte_len(c.current) >= BODY_CHUNK_CHARS {
        flushed(c)
    } else {
        c
    }
}

/// All lines taken in, from the first.
pub open spec fn chunking(lines: Seq<Seq<char>>) -> Chunking
    decreases lines.len(),
{
    if lines.len() == 0 {
        Chunking { done: Seq::empty(), current: Seq::empty() }
    } else {
        let line = lines.last();
        closed_if_full(filled(opened(chunking(lines.drop_last()), line), line))
    }
}

/// The pieces of a body.
pub open spec fn chunks_of(body: Seq<char>) -> Seq<Seq<char>> {
    let trimmed = text::trim_of(body);
    if text::byte_len(trimmed) <= BODY_CHUNK_CHARS {
        seq![trimmed]
    } else {
        let c = chunking(text::lines_of(trimmed));
        if c.current.len() > 0 {
            flushed(c).done
        } else {
            c.done
        }
    }
}

/// Splits a long markdown body on second-level headings for translation in pieces.
pub fn chunk_body(body: &str) -> (chunks: Vec<String>)
    ensures
        text::views(chunks@) == chunks_of(body@),
        chunks@.len() > 0,
{
    let trimmed: String = text::trim(body);
    let mut chunks: Vec<String> = Vec::new();
    if text::byte_count(trimmed.as_str()) <= BODY_CHUNK_CHARS {
        chunks.push(trimmed);
        assert(text::views(chunks@) =~= chunks_of(body@));
        return chunks;
    }
    let lines: Vec<String> = text::lines(trimmed.as_str());
    let mut current: String = String::new();
    let ghost all = text::lines_of(trimmed@);
    assert(all.take(0) =~= Seq::<Seq<char>>::empty());
    assert(text::views(chunks@) =~= Seq::<Seq<char>>::empty());
    for i in 0..lines.len()
        invariant
            all == text::views(lines@),
            text::views(chunks@) == chunking(all.take(i as int)).done,
            current@ == chunking(all.take(i as int)).current,
    {
        let line: &str = lines[i].as_str();
        let ghost c0 = chunking(all.take(i as int));
        proof {
            assert(all.take(i + 1).drop_last() =~= all.take(i as int));
            assert(all.take(i + 1).last() == line@);
        }
        if text::starts_with(line, "## ") && !current.as_str().is_empty() && text::byte_count(
            current.as_str(),
        ) >= BODY_CHUNK_CHARS / 2 {
            let ghost before = chunks@;
            chunks.push(text::trim_end(current.as_str()));
            assert(text::views(chunks@) =~= text::views(before).push(text::trim_end_of(c0.current)));
            current = String::new();
            assert(current@ =~= opened(c0, line@).current);
        }
        if !current.as_str().is_empty() {
            current.push('\n');
        }
        current.append(line);
        assert(current@ =~= filled(opened(c0, line@), line@).current);
        if text::byte_count(current.as_str()) >= BODY_CHUNK_CHARS {
            let ghost before = chunks@;
            let ghost full = current@;
            chunks.push(text::trim_end(current.as_str()));
            assert(text::views(chunks@) =~= text::views(before).push(text::trim_end_of(full)));
            current = String::new();
            assert(current@ =~= Seq::<char>::empty());
        }
    }
    assert(all.take(all.len() as int) =~= all);
    if !current.as_str().is_empty() {
        let ghost before = chunks@;
        chunks.push(text::trim_end(current.as_str()));
        assert(text::views(chunks@) =~= text::views(before).push(text::trim_end_of(current@)));
    }
    proof {
        lemma_chunks_exist(body@);
    }
    chunks
}

/// The ink of the pieces and of the piece being filled.
spec fn ink_in(c: Chunking) -> Seq<char> {
    text::ink_of(text::concat_of(c.done) + c.current)
}

proof fn lemma_ink_flushed(c: Chunking)
    ensures
        ink_in(flushed(c)) == ink_in(c),
{
    let done = flushed(c).done;
    let end = text::trim_end_of(c.current);
    assert(done.drop_last() =~= c.done);
    assert(text::concat_of(done) + flushed(c).current =~= text::concat_of(c.done) + end);
    text::lemma_ink_concat(text::concat_of(c.done), end);
    text::lemma_ink_concat(text::concat_of(c.done), c.current);
    text::lemma_ink_trim_end(c.current);
}

proof fn lemma_ink_filled(c: Chunking, line: Seq<char>)
    ensures
        ink_in(filled(c, line)) == ink_in(c) + text::ink_of(line),
{
    let all = text::concat_of(c.done);
    if c.current.len() > 0 {
        let gap = seq!['\n'];
        assert(all + filled(c, line).current =~= (all + c.current) + (gap + line));
        text::lemma_ink_of_blank(gap);
        text::lemma_ink_concat(gap, line);
        text::lemma_ink_concat(all + c.current, gap + line);
        assert(Seq::<char>::empty() + text::ink_of(line) =~= text::ink_of(line));
    } else {
        assert(all + c.current =~= all);
        text::lemma_ink_concat(all, line);
    }
}

proof fn lemma_ink_chunking(lines: Seq<Seq<char>>)
    ensures
        ink_in(chunking(lines)) == text::ink_of(text::concat_of(lines)),
    decreases lines.len(),
{
    if lines.len() == 0 {
        assert(text::concat_of(chunking(lines).done) + chunking(lines).current =~= text::concat_of(
            lines,
        ));
    } else {
        let before = chunking(lines.drop_last());
        let line = lines.last();
        lemma_ink_chunking(lines.drop_last());
        lemma_ink_flushed(before);
        lemma_ink_filled(opened(before, line), line);
        lemma_ink_flushed(filled(opened(before, line), line));
        text::lemma_ink_concat(text::concat_of(lines.drop_last()), line);
    }
}

/// Nothing of a body is lost or put in another order by splitting it: but for
/// white space, its pieces in a row are the body.
pub proof fn law_chunks_keep_the_body(body: Seq<char>)
    ensures
        text::ink_of(text::concat_of(chunks_of(body))) == text::ink_of(body),
{
    let trimmed = text::trim_of(body);
    text::lemma_ink_trim(body);
    if text::byte_len(trimmed) <= BODY_CHUNK_CHARS {
        reveal_with_fuel(text::concat_of, 2);
        assert(seq![trimmed].drop_last() =~= Seq::<Seq<char>>::empty());
        assert(text::concat_of(seq![trimmed]) =~= trimmed);
    } else {
        let c = chunking(text::lines_of(trimmed));
        lemma_ink_chunking(text::lines_of(trimmed));
        text::lemma_ink_lines(trimmed);
        lemma_ink_flushed(c);
        assert(text::concat_of(flushed(c).done) + flushed(c).current =~= text::concat_of(
            flushed(c).done,
        ));
        if c.current.len() == 0 {
            assert(text::concat_of(c.done) + c.current =~= text::concat_of(c.done));
        }
    }
}

/// A body has at least one piece.
pub proof fn lemma_chunks_exist(body: Seq<char>)
    ensures
        chunks_of(body).len() > 0,
{
    let trimmed = text::trim_of(body);
    if text::byte_len(trimmed) > BODY_CHUNK_CHARS {
        law_chunks_keep_the_body(body);
        text::lemma_ink_trim(body);
        text::lemma_trimmed_has_ink(body);
        assert(chunks_of(body).len() == 0 ==> text::concat_of(chunks_of(body)) =~= Seq::<char>::empty());
        text::lemma_ink_of_blank(Seq::empty());
    }
}

/// A body of at most [`BODY_CHUNK_CHARS`] bytes is one piece, the trimmed body.
pub proof fn law_short_body_is_one_chunk(body: Seq<char>)
    requires
        text::byte_len(text::trim_of(body)) <= BODY_CHUNK_CHARS,
    ensures
        chunks_of(body) == seq![text::trim_of(body)],
{
}

proof fn lemma_chunking_bounded(lines: Seq<Seq<char>>, longest: nat)
    requires
        forall|i: int| 0 <= i < lines.len() ==> text::byte_len(#[trigger] lines[i]) <= longest,
    ensures
        text::byte_len(chunking(lines).current) < BODY_CHUNK_CHARS,
        forall|i: int|
            0 <= i < chunking(lines).done.len() ==> text::byte_len(
                #[trigger] chunking(lines).done[i],
            ) <= BODY_CHUNK_CHARS + longest,
    decreases lines.len(),
{
    if lines.len() > 0 {
        let before = chunking(lines.drop_last());
        let line = lines.last();
        assert(forall|i: int| 0 <= i < lines.len() - 1 ==> lines.drop_last()[i] == lines[i]);
        assert(text::byte_len(lines[lines.len() - 1]) <= longest);
        lemma_chunking_bounded(lines.drop_last(), longest);
        let o = opened(before, line);
        text::lemma_trim_end_prefix(before.current);
        text::lemma_byte_len_take(before.current, text::trim_end_of(before.current).len() as int);
        let f = filled(o, line);
        text::lemma_byte_len_newline(o.current, line);
        text::lemma_trim_end_prefix(f.current);
        text::lemma_byte_len_take(f.current, text::trim_end_of(f.current).len() as int);
    } else {
        assert(text::byte_len(Seq::<char>::empty()) == 0);
    }
}

/// Every piece of a body that is split has at most [`BODY_CHUNK_CHARS`] bytes
/// more than the longest line of the trimmed body.
pub proof fn law_chunks_are_bounded(body: Seq<char>, longest: nat)
    requires
        text::byte_len(text::trim_of(body)) > BODY_CHUNK_CHARS,
        forall|i: int|
            0 <= i < text::lines_of(text::trim_of(body)).len() ==> text::byte_len(
                #[trigger] text::lines_of(text::trim_of(body))[i],
            ) <= longest,
    ensures
        forall|i: int|
            0 <= i < chunks_of(body).len() ==> text::byte_len(#[trigger] chunks_of(body)[i])
                <= BODY_CHUNK_CHARS + longest,
{
    let c = chunking(text::lines_of(text::trim_of(body)));
    lemma_chunking_bounded(text::lines_of(text::trim_of(body)), longest);
    text::lemma_trim_end_prefix(c.current);
    text::lemma_byte_len_take(c.current, text::trim_end_of(c.current).len() as int);
}

// ---- which lines make up a piece ----

/// Lines in a row, with a line feed between two.
pub open spec fn joined(lines: Seq<Seq<char>>) -> Seq<char>
    decreases lines.len(),
{
    if lines.len() == 0 {
        Seq::empty()
    } else if lines.len() == 1 {
        lines[0]
    } else {
        joined(lines.drop_last()).push('\n') + lines.last()
    }
}

/// Whether a piece of the lines `from` up to `to` is to end there: it has 6000 bytes
/// or more, or it has at least half of that and a second-level heading follows.
pub open spec fn ends_at(lines: Seq<Seq<char>>, from: int, to: int) -> bool {
    let size = text::byte_len(joined(lines.subrange(from, to)));
    ||| size >= 6000
    ||| to < lines.len() && "## "@.is_prefix_of(lines[to]) && size >= 3000
}

/// Whether a text is the lines `from` up to `to` as they stand, but for white space at
/// the end: the first of them is not empty, and the piece was not to end before `to`.
pub open spec fn is_piece(lines: Seq<Seq<char>>, from: int, to: int, piece: Seq<char>) -> bool {
    &&& 0 <= from < to <= lines.len()
    &&& lines[from].len() > 0
    &&& piece == text::trim_end_of(joined(lines.subrange(from, to)))
    &&& forall|k: int| from < k < to ==> !#[trigger] ends_at(lines, from, k)
}

/// Whether the lines from `a` up to `b` are all empty.
pub open spec fn no_text(lines: Seq<Seq<char>>, a: int, b: int) -> bool {
    &&& 0 <= a <= b <= lines.len()
    &&& forall|j: int| a <= j < b ==> (#[trigger] lines[j]).len() == 0
}

/// Whether pieces are made of lines in a row, from the first on: piece `i` of the
/// lines `from[i]` up to `to[i]`, with nothing but empty lines between two, and each
/// of those pieces ends where it is to.
pub open spec fn in_pieces(
    lines: Seq<Seq<char>>,
    from: Seq<int>,
    to: Seq<int>,
    pieces: Seq<Seq<char>>,
) -> bool {
    &&& from.len() == pieces.len()
    &&& to.len() == pieces.len()
    &&& forall|i: int|
        0 <= i < pieces.len() ==> is_piece(lines, from[i], to[i], #[trigger] pieces[i])
    &&& pieces.len() > 0 ==> no_text(lines, 0, from[0])
    &&& forall|i: int|
        0 < i < pieces.len() ==> no_text(lines, to[i - 1], #[trigger] from[i]) && ends_at(
            lines,
            from[i - 1],
            to[i - 1],
        )
}

proof fn lemma_piece_extends(lines: Seq<Seq<char>>, from: int, to: int, piece: Seq<char>)
    requires
        lines.len() > 0,
        is_piece(lines.drop_last(), from, to, piece),
    ensures
        is_piece(lines, from, to, piece),
{
    let less = lines.drop_last();
    assert(less.subrange(from, to) =~= lines.subrange(from, to));
    assert forall|k: int| from < k < to implies !#[trigger] ends_at(lines, from, k) by {
        assert(!ends_at(less, from, k));
        assert(less.subrange(from, k) =~= lines.subrange(from, k));
        assert(less[k] == lines[k]);
    }
}

/// Where the pieces are of which a body is made, and where the piece begins that is
/// being filled.
pub struct Cuts {
    pub from: Seq<int>,
    pub to: Seq<int>,
    pub start: int,
}

/// Whether pieces that are done, and one that is being filled, hold the lines.
spec fn run_of(lines: Seq<Seq<char>>, c: Chunking, cuts: Cuts) -> bool {
    let n = lines.len() as int;
    let last = if c.done.len() > 0 {
        cuts.to[c.done.len() - 1]
    } else {
        0
    };
    &&& in_pieces(lines, cuts.from, cuts.to, c.done)
    &&& no_text(lines, last, cuts.start)
    &&& c.current == joined(lines.subrange(cuts.start, n))
    &&& if cuts.start < n {
        &&& lines[cuts.start].len() > 0
        &&& forall|k: int| cuts.start < k < n ==> !#[trigger] ends_at(lines, cuts.start, k)
        &&& text::byte_len(c.current) < 6000
    } else {
        c.current.len() == 0
    }
    &&& c.done.len() > 0 ==> ends_at(lines, cuts.from[c.done.len() - 1], last)
}

proof fn lemma_joined_nonempty(lines: Seq<Seq<char>>)
    requires
        lines.len() > 0,
        lines[0].len() > 0,
    ensures
        joined(lines).len() > 0,
{
}

/// The pieces that are done, with one more that ends before the line `to`.
proof fn lemma_one_more(
    lines: Seq<Seq<char>>,
    done: Seq<Seq<char>>,
    from: Seq<int>,
    to: Seq<int>,
    a: int,
    b: int,
    piece: Seq<char>,
)
    requires
        in_pieces(lines, from, to, done),
        no_text(
            lines,
            if done.len() > 0 {
                to[done.len() - 1]
            } else {
                0
            },
            a,
        ),
        done.len() > 0 ==> ends_at(lines, from[done.len() - 1], to[done.len() - 1]),
        is_piece(lines, a, b, piece),
    ensures
        in_pieces(lines, from.push(a), to.push(b), done.push(piece)),
{
    let f = from.push(a);
    let t = to.push(b);
    let all = done.push(piece);
    assert forall|i: int| 0 <= i < all.len() implies is_piece(
        lines,
        f[i],
        t[i],
        #[trigger] all[i],
    ) by {
        if i < done.len() {
            assert(is_piece(lines, from[i], to[i], done[i]));
        }
    }
    assert forall|i: int| 0 < i < all.len() implies no_text(lines, t[i - 1], #[trigger] f[i])
        && ends_at(lines, f[i - 1], t[i - 1]) by {
        if i < done.len() {
            assert(no_text(lines, to[i - 1], from[i]));
        }
    }
}

proof fn lemma_ends_extends(lines: Seq<Seq<char>>, from: int, to: int)
    requires
        lines.len() > 0,
        0 <= from <= to < lines.len(),
    ensures
        to < lines.len() - 1 ==> ends_at(lines.drop_last(), from, to) == ends_at(lines, from, to),
        ends_at(lines.drop_last(), from, to) ==> ends_at(lines, from, to),
{
    assert(lines.drop_last().subrange(from, to) =~= lines.subrange(from, to));
}

proof fn lemma_run_extends(lines: Seq<Seq<char>>, done: Seq<Seq<char>>, from: Seq<int>, to: Seq<int>)
    requires
        lines.len() > 0,
        in_pieces(lines.drop_last(), from, to, done),
    ensures
        in_pieces(lines, from, to, done),
{
    let less = lines.drop_last();
    assert forall|i: int| 0 <= i < done.len() implies is_piece(
        lines,
        from[i],
        to[i],
        #[trigger] done[i],
    ) by {
        lemma_piece_extends(lines, from[i], to[i], done[i]);
    }
    assert(forall|j: int| 0 <= j < less.len() ==> less[j] == lines[j]);
    assert forall|i: int| 0 < i < done.len() implies no_text(lines, to[i - 1], #[trigger] from[i])
        && ends_at(lines, from[i - 1], to[i - 1]) by {
        assert(no_text(less, to[i - 1], from[i]));
        assert(is_piece(less, from[i - 1], to[i - 1], done[i - 1]));
        lemma_ends_extends(lines, from[i - 1], to[i - 1]);
    }
    if done.len() > 0 {
        assert(no_text(less, 0, from[0]));
        assert(no_text(lines, 0, from[0]));
    }
}

/// Whether the pieces that are done hold the lines before `start`, where the line
/// `n` comes next.
spec fn done_before(lines: Seq<Seq<char>>, done: Seq<Seq<char>>, cuts: Cuts) -> bool {
    let last = if done.len() > 0 {
        cuts.to[done.len() - 1]
    } else {
        0
    };
    &&& in_pieces(lines, cuts.from, cuts.to, done)
    &&& no_text(lines, last, cuts.start)
    &&& done.len() > 0 ==> ends_at(lines, cuts.from[done.len() - 1], last)
}

/// What holds of the lines but the last holds of all of them.
proof fn lemma_done_before(lines: Seq<Seq<char>>, c: Chunking, was: Cuts)
    requires
        lines.len() > 0,
        run_of(lines.drop_last(), c, was),
    ensures
        done_before(lines, c.done, was),
        c.current == joined(lines.subrange(was.start, lines.len() - 1)),
        was.start < lines.len() - 1 ==> c.current.len() > 0 && lines[was.start].len() > 0,
        forall|k: int|
            was.start < k < lines.len() - 1 ==> !#[trigger] ends_at(lines, was.start, k),
{
    let less = lines.drop_last();
    let n = less.len() as int;
    lemma_run_extends(lines, c.done, was.from, was.to);
    assert(less.subrange(was.start, n) =~= lines.subrange(was.start, n));
    assert(forall|j: int| 0 <= j < n ==> less[j] == lines[j]);
    let k = c.done.len() - 1;
    if k >= 0 {
        assert(is_piece(less, was.from[k], was.to[k], c.done[k]));
        lemma_ends_extends(lines, was.from[k], was.to[k]);
    }
    if was.start < n {
        lemma_joined_nonempty(less.subrange(was.start, n));
        assert forall|m: int| was.start < m < n implies !#[trigger] ends_at(
            lines,
            was.start,
            m,
        ) by {
            assert(!ends_at(less, was.start, m));
            lemma_ends_extends(lines, was.start, m);
        }
    }
}

/// A second-level heading may end the piece that is being filled.
proof fn lemma_opened_run(lines: Seq<Seq<char>>, c: Chunking, was: Cuts) -> (mid: Cuts)
    requires
        lines.len() > 0,
        was.start <= lines.len() - 1,
        done_before(lines, c.done, was),
        c.current == joined(lines.subrange(was.start, lines.len() - 1)),
        text::byte_len(c.current) < 6000,
        was.start == lines.len() - 1 ==> c.current.len() == 0,
        was.start < lines.len() - 1 ==> c.current.len() > 0 && lines[was.start].len() > 0,
        forall|k: int|
            was.start < k < lines.len() - 1 ==> !#[trigger] ends_at(lines, was.start, k),
    ensures
        mid.start <= lines.len() - 1,
        done_before(lines, opened(c, lines.last()).done, mid),
        opened(c, lines.last()).current == joined(lines.subrange(mid.start, lines.len() - 1)),
        mid.start == lines.len() - 1 ==> opened(c, lines.last()).current.len() == 0,
        mid.start < lines.len() - 1 ==> lines[mid.start].len() > 0 && opened(
            c,
            lines.last(),
        ).current.len() > 0,
        forall|k: int| mid.start < k < lines.len() ==> !#[trigger] ends_at(lines, mid.start, k),
{
    let n = lines.len() - 1;
    let line = lines.last();
    let cut = "## "@.is_prefix_of(line) && c.current.len() > 0 && text::byte_len(c.current)
        >= BODY_CHUNK_CHARS / 2;
    assert(was.start < n ==> (cut <==> ends_at(lines, was.start, n)));
    if cut {
        lemma_one_more(
            lines,
            c.done,
            was.from,
            was.to,
            was.start,
            n,
            text::trim_end_of(c.current),
        );
        assert(lines.subrange(n, n) =~= Seq::<Seq<char>>::empty());
        Cuts { from: was.from.push(was.start), to: was.to.push(n), start: n }
    } else {
        was
    }
}

proof fn lemma_chunking_run(lines: Seq<Seq<char>>) -> (cuts: Cuts)
    ensures
        run_of(lines, chunking(lines), cuts),
    decreases lines.len(),
{
    assert(text::byte_len(Seq::<char>::empty()) == 0);
    if lines.len() == 0 {
        let cuts = Cuts { from: Seq::empty(), to: Seq::empty(), start: 0 };
        assert(lines.subrange(0, 0) =~= Seq::<Seq<char>>::empty());
        cuts
    } else {
        let n = lines.len() - 1;
        let line = lines.last();
        let c = chunking(lines.drop_last());
        let was = lemma_chunking_run(lines.drop_last());
        if was.start == n {
            assert(c.current =~= Seq::<char>::empty());
        }
        lemma_done_before(lines, c, was);
        let mid = lemma_opened_run(lines, c, was);
        let o = opened(c, line);
        lemma_filled_run(lines, o, mid)
    }
}

/// The line goes below what the piece holds, which may then be full.
proof fn lemma_filled_run(lines: Seq<Seq<char>>, o: Chunking, mid: Cuts) -> (cuts: Cuts)
    requires
        lines.len() > 0,
        mid.start <= lines.len() - 1,
        done_before(lines, o.done, mid),
        o.current == joined(lines.subrange(mid.start, lines.len() - 1)),
        mid.start == lines.len() - 1 ==> o.current.len() == 0,
        mid.start < lines.len() - 1 ==> lines[mid.start].len() > 0 && o.current.len() > 0,
        forall|k: int| mid.start < k < lines.len() ==> !#[trigger] ends_at(lines, mid.start, k),
    ensures
        run_of(lines, closed_if_full(filled(o, lines.last())), cuts),
{
    let n = lines.len() - 1;
    let line = lines.last();
    let f = filled(o, line);
    assert(text::byte_len(Seq::<char>::empty()) == 0);
    assert(lines.subrange(n, n + 1) =~= seq![line]);
    assert(lines.subrange(n + 1, n + 1) =~= Seq::<Seq<char>>::empty());
    let start = if mid.start == n && line.len() == 0 {
        n + 1
    } else {
        mid.start
    };
    if mid.start < n {
        let here = lines.subrange(mid.start, n + 1);
        assert(here.drop_last() =~= lines.subrange(mid.start, n));
        assert(here.last() == line);
        assert(f.current == joined(here));
    } else {
        assert(f.current =~= line);
        if line.len() == 0 {
            assert(line =~= Seq::<char>::empty());
        }
    }
    assert(f.current == joined(lines.subrange(start, n + 1)));
    if text::byte_len(f.current) >= 6000 {
        assert(start <= n);
        let piece = text::trim_end_of(f.current);
        assert(is_piece(lines, start, n + 1, piece));
        lemma_one_more(lines, o.done, mid.from, mid.to, start, n + 1, piece);
        assert(ends_at(lines, start, n + 1));
        Cuts { from: mid.from.push(start), to: mid.to.push(n + 1), start: n + 1 }
    } else {
        Cuts { from: mid.from, to: mid.to, start }
    }
}

/// A long body is cut into pieces of whole lines, and nothing in a line is changed: the
/// pieces are the lines of the trimmed body as they stand, in order and each once, with
/// line feeds between them. All that is left out is white space at the end of a piece
/// and empty lines before one. A piece ends with the line that brings it to 6000 bytes,
/// or before a second-level heading where it has at least half of that, and nowhere
/// else.
pub proof fn law_chunks_are_whole_lines(body: Seq<char>)
    requires
        text::byte_len(text::trim_of(body)) > 6000,
    ensures
        exists|from: Seq<int>, to: Seq<int>|
            {
                &&& #[trigger] in_pieces(
                    text::lines_of(text::trim_of(body)),
                    from,
                    to,
                    chunks_of(body),
                )
                &&& chunks_of(body).len() > 0
                &&& from[0] == 0
                &&& to[chunks_of(body).len() - 1] == text::lines_of(text::trim_of(body)).len()
            },
{
    let trimmed = text::trim_of(body);
    let lines = text::lines_of(trimmed);
    let n = lines.len() as int;
    text::law_trim(body);
    assert(text::byte_len(Seq::<char>::empty()) == 0);
    if trimmed.len() == 0 {
        assert(trimmed =~= Seq::<char>::empty());
    }
    text::lemma_outer_lines(trimmed);
    let c = chunking(lines);
    let cuts = lemma_chunking_run(lines);
    let k = c.done.len() - 1;
    let last = if k >= 0 {
        cuts.to[k]
    } else {
        0
    };
    assert(no_text(lines, last, cuts.start));
    if cuts.start < n {
        lemma_joined_nonempty(lines.subrange(cuts.start, n));
        let piece = text::trim_end_of(c.current);
        lemma_one_more(lines, c.done, cuts.from, cuts.to, cuts.start, n, piece);
        let from = cuts.from.push(cuts.start);
        let to = cuts.to.push(n);
        assert(no_text(lines, 0, from[0]));
        assert(from[0] == 0 || lines[0].len() == 0);
        assert(in_pieces(lines, from, to, chunks_of(body)));
    } else {
        assert(last == n || lines[n - 1].len() == 0);
        assert(k >= 0);
        assert(no_text(lines, 0, cuts.from[0]));
        assert(cuts.from[0] == 0 || lines[0].len() == 0);
        assert(in_pieces(lines, cuts.from, cuts.to, chunks_of(body)));
    }
}

/// A body of at most 6000 bytes without the white space around it is one piece, as it
/// stands.
pub proof fn law_short_body_is_kept(body: Seq<char>)
    requires
        text::byte_len(text::trim_of(body)) <= 6000,
    ensures
        chunks_of(body).len() == 1,
        chunks_of(body)[0] == text::trim_of(body),
{
}

/// Joining lines and taking a text apart into lines undo one another, where no line has
/// a line end in it and the last is not empty.
pub proof fn law_joined_lines_come_apart(lines: Seq<Seq<char>>)
    requires
        lines.len() > 0,
        lines[lines.len() - 1].len() > 0,
        forall|i: int|
            0 <= i < lines.len() ==> !(#[trigger] lines[i]).contains('\n') && !lines[i].contains(
                '\r',
            ),
    ensures
        text::lines_of(joined(lines)) == lines,
    decreases lines.len(),
{
    if lines.len() == 1 {
        text::law_lines(lines[0], Seq::empty());
        assert(lines =~= seq![lines[0]]);
    } else {
        let rest = lines.skip(1);
        assert forall|i: int| 0 <= i < rest.len() implies !(#[trigger] rest[i]).contains('\n')
            && !rest[i].contains('\r') by {
            assert(rest[i] == lines[i + 1]);
        }
        law_joined_lines_come_apart(rest);
        lemma_joined_cons(lines);
        assert(!lines[0].contains('\n') && !lines[0].contains('\r'));
        text::law_lines(lines[0], joined(rest));
        if lines[0].len() > 0 {
            assert(lines[0].contains(lines[0][lines[0].len() - 1]));
        }
        assert(lines =~= seq![lines[0]] + rest);
    }
}

proof fn lemma_joined_cons(lines: Seq<Seq<char>>)
    requires
        lines.len() > 1,
    ensures
        joined(lines) == lines[0].push('\n') + joined(lines.skip(1)),
    decreases lines.len(),
{
    let rest = lines.skip(1);
    let less = lines.drop_last();
    if lines.len() == 2 {
        assert(joined(less) == lines[0]);
        assert(joined(rest) == lines[1]);
    } else {
        lemma_joined_cons(less);
        assert(less.skip(1) =~= rest.drop_last());
        assert(joined(lines) =~= lines[0].push('\n') + joined(rest));
    }
}

} // verus!
