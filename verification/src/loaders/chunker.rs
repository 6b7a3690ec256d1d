//! Cutting a document into chunks: by a sliding window of words, by
//! paragraphs, or by lines with a few lines carried over.

use crate::text::{
    all_parts_white, all_solid, all_white, append_chars, blank, count_range_words, count_words, is_blank, join, join_range,
    law_joined_words_are_trimmed, law_words_are_solid, law_words_of_joined,
    lemma_lines_of_white, lemma_paragraphs_of_white, lemma_range_words_bound,
    lemma_white_is_blank, lemma_word_count_bound, lines, paragraphs, rows, solid,
    split_lines, split_paragraphs, split_words, to_chars, to_string, total_chars, total_words,
    trim, trim_range, white_space, word_count, words,
};
use vstd::prelude::*;

verus! {

/// How many lines of a chunk of code are repeated at the head of the next.
pub const CARRIED_LINES: usize = 5;

/// Cuts text into chunks of about `chunk_size` words.
pub struct TextChunker {
    chunk_size: usize,
    chunk_overlap: usize,
}

/// One piece of a document, with its position among the pieces.
#[derive(Debug, Clone)]
pub struct Chunk {
    pub content: String,
    pub index: usize,
}

/// What a chunk is: its text and its position.
pub struct ChunkView {
    pub content: Seq<char>,
    pub index: nat,
}

impl View for Chunk {
    type V = ChunkView;

    open spec fn view(&self) -> ChunkView {
        ChunkView { content: self.content@, index: self.index as nat }
    }
}

/// The views of a sequence of chunks.
pub open spec fn chunk_views(chunks: Seq<Chunk>) -> Seq<ChunkView> {
    Seq::new(chunks.len(), |i: int| chunks[i]@)
}

/// The chunks with the given texts, numbered from 0.
pub open spec fn numbered(contents: Seq<Seq<char>>) -> Seq<ChunkView> {
    Seq::new(contents.len(), |i: int| ChunkView { content: contents[i], index: i as nat })
}

// ---------------------------------------------------------------------------
// Sliding window over words
// ---------------------------------------------------------------------------

/// The windows of `size` words over `tokens`, each starting `size - overlap`
/// words after the one before; the last one is the first to reach the end and
/// may be shorter. (Where `overlap` is not below `size` there is no next
/// window to go to: what this gives for more than `size` words is of no
/// use, and nothing asks for it.)
pub open spec fn windows(tokens: Seq<Seq<char>>, size: nat, overlap: nat) -> Seq<Seq<Seq<char>>>
    decreases tokens.len(),
{
    if tokens.len() == 0 {
        Seq::empty()
    } else if tokens.len() <= size || overlap >= size {
        seq![tokens]
    } else {
        seq![tokens.take(size as int)] + windows(
            tokens.skip(size - overlap),
            size,
            overlap,
        )
    }
}

/// Each group joined with `sep`.
pub open spec fn joined(groups: Seq<Seq<Seq<char>>>, sep: Seq<char>) -> Seq<Seq<char>> {
    Seq::new(groups.len(), |i: int| join(groups[i], sep))
}

/// The texts of the chunks that the sliding window makes of `text`.
pub open spec fn window_chunks(text: Seq<char>, size: nat, overlap: nat) -> Seq<Seq<char>> {
    joined(windows(words(text), size, overlap), seq![' '])
}

/// Whether the window moves forward over `count` words: either one window
/// holds them all, or each window starts after the one before.
pub open spec fn window_advances(count: nat, size: nat, overlap: nat) -> bool {
    count <= size || overlap < size
}

// ---------------------------------------------------------------------------
// Groups of paragraphs and of lines
// ---------------------------------------------------------------------------

/// Pieces gathered so far: the groups that are complete, and the one that is
/// still growing.
pub struct Grouping {
    pub done: Seq<Seq<Seq<char>>>,
    pub open: Seq<Seq<char>>,
}

/// The buffer that holds the paragraphs of a group: each paragraph is added
/// after a blank line, unless the buffer is still empty.
pub open spec fn glue(paras: Seq<Seq<char>>) -> Seq<char>
    decreases paras.len(),
{
    if paras.len() == 0 {
        Seq::empty()
    } else {
        let buffer = glue(paras.drop_last());
        if buffer.len() > 0 {
            buffer + seq!['\n', '\n'] + paras.last()
        } else {
            paras.last()
        }
    }
}

/// Takes one more paragraph: if it would bring the words of the open group
/// over `limit` and the buffer is not empty, the open group is complete and
/// the paragraph starts a new one; else it joins the open group.
pub open spec fn paragraph_step(g: Grouping, para: Seq<char>, limit: nat) -> Grouping {
    if total_words(g.open) + word_count(para) > limit && glue(g.open).len() > 0 {
        Grouping { done: g.done.push(g.open), open: seq![para] }
    } else {
        Grouping { done: g.done, open: g.open.push(para) }
    }
}

/// The grouping after all of `paras`, taken from left to right.
pub open spec fn paragraph_fold(paras: Seq<Seq<char>>, limit: nat) -> Grouping
    decreases paras.len(),
{
    if paras.len() == 0 {
        Grouping { done: Seq::empty(), open: Seq::empty() }
    } else {
        paragraph_step(paragraph_fold(paras.drop_last(), limit), paras.last(), limit)
    }
}

/// The groups into which `paras` fall.
pub open spec fn paragraph_groups(paras: Seq<Seq<char>>, limit: nat) -> Seq<Seq<Seq<char>>> {
    let g = paragraph_fold(paras, limit);
    g.done.push(g.open)
}

/// The buffer of each group.
pub open spec fn glued(groups: Seq<Seq<Seq<char>>>) -> Seq<Seq<char>> {
    Seq::new(groups.len(), |i: int| glue(groups[i]))
}

/// The texts that are not blank, each trimmed.
pub open spec fn trimmed_nonblank(contents: Seq<Seq<char>>) -> Seq<Seq<char>>
    decreases contents.len(),
{
    if contents.len() == 0 {
        Seq::empty()
    } else {
        let before = trimmed_nonblank(contents.drop_last());
        if blank(contents.last()) {
            before
        } else {
            before.push(trim(contents.last()))
        }
    }
}

/// The texts of the chunks that paragraph mode makes of `text`.
pub open spec fn paragraph_chunks(text: Seq<char>, limit: nat) -> Seq<Seq<char>> {
    trimmed_nonblank(glued(paragraph_groups(paragraphs(text), limit)))
}

/// The last `n` items of `s`, or all of `s` if it has fewer.
pub open spec fn keep_last(s: Seq<Seq<char>>, n: nat) -> Seq<Seq<char>> {
    if s.len() > n {
        s.skip(s.len() - n)
    } else {
        s
    }
}

/// Takes one more line: if it would bring the words of the open group over
/// `limit` and the group is not empty, the group is complete and the next
/// one starts with its last lines, then this line; else the line joins the
/// open group.
pub open spec fn line_step(g: Grouping, line: Seq<char>, limit: nat) -> Grouping {
    if total_words(g.open) + word_count(line) > limit && g.open.len() > 0 {
        Grouping {
            done: g.done.push(g.open),
            open: keep_last(g.open, CARRIED_LINES as nat).push(line),
        }
    } else {
        Grouping { done: g.done, open: g.open.push(line) }
    }
}

/// The grouping after all of `code_lines`, taken from left to right.
pub open spec fn line_fold(code_lines: Seq<Seq<char>>, limit: nat) -> Grouping
    decreases code_lines.len(),
{
    if code_lines.len() == 0 {
        Grouping { done: Seq::empty(), open: Seq::empty() }
    } else {
        line_step(line_fold(code_lines.drop_last(), limit), code_lines.last(), limit)
    }
}

/// The groups into which `code_lines` fall.
pub open spec fn line_groups(code_lines: Seq<Seq<char>>, limit: nat) -> Seq<Seq<Seq<char>>> {
    let g = line_fold(code_lines, limit);
    if g.open.len() > 0 {
        g.done.push(g.open)
    } else {
        g.done
    }
}

/// The texts that are not blank, as they are.
pub open spec fn nonblank(contents: Seq<Seq<char>>) -> Seq<Seq<char>>
    decreases contents.len(),
{
    if contents.len() == 0 {
        Seq::empty()
    } else {
        let before = nonblank(contents.drop_last());
        if blank(contents.last()) {
            before
        } else {
            before.push(contents.last())
        }
    }
}

/// The texts of the chunks that line mode makes of `code`.
pub open spec fn code_chunks(code: Seq<char>, limit: nat) -> Seq<Seq<char>> {
    nonblank(joined(line_groups(lines(code), limit), seq!['\n']))
}

// ---------------------------------------------------------------------------
// Laws of the sliding window
// ---------------------------------------------------------------------------

/// The windows put back together: the first window, then the others without
/// the words they share with the window before.
pub open spec fn rejoin(wins: Seq<Seq<Seq<char>>>, overlap: nat) -> Seq<Seq<char>>
    decreases wins.len(),
{
    if wins.len() == 0 {
        Seq::empty()
    } else if wins.len() == 1 {
        wins[0]
    } else {
        wins[0] + rejoin(wins.drop_first(), overlap).skip(overlap as int)
    }
}

/// Over words that are there, the first window holds the first `size` of
/// them, or all of them if they are fewer.
pub proof fn lemma_first_window(tokens: Seq<Seq<char>>, size: nat, overlap: nat)
    requires
        tokens.len() > 0,
        window_advances(tokens.len(), size, overlap),
    ensures
        windows(tokens, size, overlap).len() > 0,
        windows(tokens, size, overlap)[0] == if tokens.len() <= size {
            tokens
        } else {
            tokens.take(size as int)
        },
        tokens.len() > size ==> windows(tokens, size, overlap).drop_first() == windows(
            tokens.skip(size - overlap),
            size,
            overlap,
        ),
        tokens.len() <= size ==> windows(tokens, size, overlap).len() == 1,
{
    if tokens.len() > size {
        let rest = windows(tokens.skip(size - overlap), size, overlap);
        assert((seq![tokens.take(size as int)] + rest).drop_first() =~= rest);
    }
}

/// Put back together, the windows give the words of the text, each once and
/// in order.
pub proof fn law_windows_cover(tokens: Seq<Seq<char>>, size: nat, overlap: nat)
    requires
        window_advances(tokens.len(), size, overlap),
    ensures
        rejoin(windows(tokens, size, overlap), overlap) == tokens,
    decreases tokens.len(),
{
    if tokens.len() == 0 {
    } else if tokens.len() <= size {
        lemma_first_window(tokens, size, overlap);
    } else {
        let rest = tokens.skip(size - overlap);
        lemma_first_window(tokens, size, overlap);
        lemma_first_window(rest, size, overlap);
        law_windows_cover(rest, size, overlap);
        let wins = windows(tokens, size, overlap);
        assert(wins.len() >= 2);
        assert(rejoin(wins, overlap) == wins[0] + rest.skip(overlap as int));
        assert(tokens.take(size as int) + rest.skip(overlap as int) =~= tokens);
    }
}

/// Two windows in a row share exactly `overlap` words: the last `overlap`
/// words of the first are the first `overlap` words of the second. Every
/// window but the last holds `size` words, and a window that follows another
/// holds at least one word more than it shares.
pub proof fn law_windows_overlap(tokens: Seq<Seq<char>>, size: nat, overlap: nat, k: int)
    requires
        window_advances(tokens.len(), size, overlap),
        0 <= k,
        k + 1 < windows(tokens, size, overlap).len(),
    ensures
        overlap < size,
        windows(tokens, size, overlap)[k].len() == size,
        windows(tokens, size, overlap)[k + 1].len() > overlap,
        windows(tokens, size, overlap)[k].skip(size - overlap) == windows(
            tokens,
            size,
            overlap,
        )[k + 1].take(overlap as int),
    decreases k,
{
    let wins = windows(tokens, size, overlap);
    lemma_first_window(tokens, size, overlap);
    let rest = tokens.skip(size - overlap);
    lemma_first_window(rest, size, overlap);
    let later = windows(rest, size, overlap);
    assert(wins[k + 1] == later[k]);
    if k == 0 {
        assert(wins[0].skip(size - overlap) =~= later[0].take(overlap as int));
    } else {
        assert(wins[k] == later[k - 1]);
        law_windows_overlap(rest, size, overlap, k - 1);
    }
}

/// Window `k` starts `k * (size - overlap)` words into the text and ends
/// `size` words later, or with the text.
pub proof fn law_window_position(tokens: Seq<Seq<char>>, size: nat, overlap: nat, k: int)
    requires
        window_advances(tokens.len(), size, overlap),
        0 <= k < windows(tokens, size, overlap).len(),
    ensures
        k * (size - overlap) < tokens.len(),
        windows(tokens, size, overlap)[k] == tokens.subrange(
            k * (size - overlap),
            if k * (size - overlap) + size <= tokens.len() {
                k * (size - overlap) + size
            } else {
                tokens.len() as int
            },
        ),
    decreases k,
{
    let wins = windows(tokens, size, overlap);
    lemma_first_window(tokens, size, overlap);
    if k == 0 {
        assert(0 * (size - overlap) == 0) by (nonlinear_arith);
        assert(wins[0] =~= tokens.subrange(
            0,
            if size <= tokens.len() {
                size as int
            } else {
                tokens.len() as int
            },
        ));
    } else {
        let stride = size - overlap;
        let rest = tokens.skip(stride);
        let later = windows(rest, size, overlap);
        assert(wins[k] == later[k - 1]);
        law_window_position(rest, size, overlap, k - 1);
        assert(k * stride == (k - 1) * stride + stride) by (nonlinear_arith);
        let from = (k - 1) * stride;
        let to = if from + size <= rest.len() {
            from + size
        } else {
            rest.len() as int
        };
        assert((k - 1) * stride >= 0) by (nonlinear_arith)
            requires
                k >= 1,
                stride >= 0,
        ;
        assert(rest.subrange(from, to) =~= tokens.subrange(from + stride, to + stride));
    }
}

/// Every window holds at least one word, and nothing but words.
pub proof fn lemma_windows_hold_words(tokens: Seq<Seq<char>>, size: nat, overlap: nat)
    requires
        window_advances(tokens.len(), size, overlap),
        all_solid(tokens),
    ensures
        forall|k: int|
            0 <= k < windows(tokens, size, overlap).len() ==> (#[trigger] windows(
                tokens,
                size,
                overlap,
            )[k]).len() > 0 && all_solid(windows(tokens, size, overlap)[k]),
    decreases tokens.len(),
{
    if tokens.len() == 0 {
    } else if tokens.len() <= size {
    } else {
        let first = tokens.take(size as int);
        let rest = tokens.skip(size - overlap);
        assert(all_solid(first)) by {
            assert forall|j: int| 0 <= j < first.len() implies solid(#[trigger] first[j]) by {
                assert(first[j] == tokens[j]);
            }
        }
        assert(all_solid(rest)) by {
            assert forall|j: int| 0 <= j < rest.len() implies solid(#[trigger] rest[j]) by {
                assert(rest[j] == tokens[j + size - overlap]);
            }
        }
        lemma_windows_hold_words(rest, size, overlap);
        let wins = windows(tokens, size, overlap);
        let later = windows(rest, size, overlap);
        assert forall|k: int| 0 <= k < wins.len() implies (#[trigger] wins[k]).len() > 0
            && all_solid(wins[k]) by {
            if k > 0 {
                assert(wins[k] == later[k - 1]);
            }
        }
    }
}

/// The words of each text.
pub open spec fn words_of_each(texts: Seq<Seq<char>>) -> Seq<Seq<Seq<char>>> {
    Seq::new(texts.len(), |k: int| words(texts[k]))
}

/// No chunk of the sliding window is blank, and none has white space at
/// its ends: there is no window that would have to be dropped.
pub proof fn law_window_chunks_are_trimmed(text: Seq<char>, size: nat, overlap: nat, k: int)
    requires
        window_advances(word_count(text), size, overlap),
        0 <= k < window_chunks(text, size, overlap).len(),
    ensures
        !blank(window_chunks(text, size, overlap)[k]),
        trim(window_chunks(text, size, overlap)[k]) == window_chunks(text, size, overlap)[k],
{
    law_words_are_solid(text);
    lemma_windows_hold_words(words(text), size, overlap);
    let window = windows(words(text), size, overlap)[k];
    law_joined_words_are_trimmed(window, seq![' ']);
}

/// The words of the chunks are the windows: chunk `k` reads as the words
/// of window `k`, and the chunks put back together, each without the words
/// it shares with the chunk before, give the words of the text, each once
/// and in order.
pub proof fn law_window_chunks_cover(text: Seq<char>, size: nat, overlap: nat)
    requires
        window_advances(word_count(text), size, overlap),
    ensures
        words_of_each(window_chunks(text, size, overlap)) == windows(words(text), size, overlap),
        rejoin(words_of_each(window_chunks(text, size, overlap)), overlap) == words(text),
{
    law_words_are_solid(text);
    lemma_windows_hold_words(words(text), size, overlap);
    let wins = windows(words(text), size, overlap);
    let chunks = window_chunks(text, size, overlap);
    assert forall|k: int| 0 <= k < wins.len() implies words_of_each(chunks)[k] == wins[k] by {
        assert(all_solid(wins[k]));
        law_words_of_joined(wins[k], ' ');
    }
    assert(words_of_each(chunks) =~= wins);
    law_windows_cover(words(text), size, overlap);
}

/// Two chunks in a row share exactly `overlap` words: the last `overlap`
/// words of the first are the first `overlap` words of the second, and
/// every chunk but the last holds `size` words.
pub proof fn law_window_chunks_overlap(text: Seq<char>, size: nat, overlap: nat, k: int)
    requires
        window_advances(word_count(text), size, overlap),
        0 <= k,
        k + 1 < window_chunks(text, size, overlap).len(),
    ensures
        overlap < size,
        words(window_chunks(text, size, overlap)[k]).len() == size,
        words(window_chunks(text, size, overlap)[k + 1]).len() > overlap,
        words(window_chunks(text, size, overlap)[k]).skip(size - overlap) == words(
            window_chunks(text, size, overlap)[k + 1],
        ).take(overlap as int),
{
    law_window_chunks_cover(text, size, overlap);
    law_windows_overlap(words(text), size, overlap, k);
    let chunks = window_chunks(text, size, overlap);
    assert(words_of_each(chunks)[k] == words(chunks[k]));
    assert(words_of_each(chunks)[k + 1] == words(chunks[k + 1]));
}

// ---------------------------------------------------------------------------
// Laws of the groups
// ---------------------------------------------------------------------------

/// The pieces of all groups, in order.
pub open spec fn concat(groups: Seq<Seq<Seq<char>>>) -> Seq<Seq<char>>
    decreases groups.len(),
{
    if groups.len() == 0 {
        Seq::empty()
    } else {
        concat(groups.drop_last()) + groups.last()
    }
}

/// No paragraph is split: the groups of paragraph mode, one after the other,
/// are the paragraphs of the text, each whole, each once and in order. (Each
/// chunk is the trimmed buffer of one group.)
pub proof fn law_paragraphs_stay_whole(paras: Seq<Seq<char>>, limit: nat)
    ensures
        concat(paragraph_groups(paras, limit)) == paras,
    decreases paras.len(),
{
    let g = paragraph_fold(paras, limit);
    assert(g.done.push(g.open).drop_last() == g.done);
    if paras.len() == 0 {
        assert(concat(g.done) =~= Seq::<Seq<char>>::empty());
        assert(concat(g.done) + g.open =~= paras);
    } else {
        let before = paragraph_fold(paras.drop_last(), limit);
        law_paragraphs_stay_whole(paras.drop_last(), limit);
        assert(before.done.push(before.open).drop_last() == before.done);
        assert(concat(before.done) + before.open == paras.drop_last());
        if total_words(before.open) + word_count(paras.last()) > limit && glue(before.open).len()
            > 0 {
            assert(concat(g.done) + g.open =~= paras.drop_last().push(paras.last()));
        } else {
            assert(concat(g.done) + g.open =~= paras.drop_last().push(paras.last()));
        }
        assert(paras.drop_last().push(paras.last()) =~= paras);
    }
}

/// Whether `next` starts with the last lines of `prev`, as many as are
/// carried over, and goes on after them.
pub open spec fn carries(prev: Seq<Seq<char>>, next: Seq<Seq<char>>) -> bool {
    let kept = keep_last(prev, CARRIED_LINES as nat);
    next.len() > kept.len() && next.take(kept.len() as int) == kept
}

/// While the lines are taken in, each complete group is carried into the
/// one after it, and the last complete group into the open one.
proof fn lemma_line_fold_carries(code_lines: Seq<Seq<char>>, limit: nat)
    ensures
        forall|j: int|
            0 <= j && j + 1 < line_fold(code_lines, limit).done.len() ==> carries(
                #[trigger] line_fold(code_lines, limit).done[j],
                line_fold(code_lines, limit).done[j + 1],
            ),
        line_fold(code_lines, limit).done.len() > 0 ==> carries(
            line_fold(code_lines, limit).done.last(),
            line_fold(code_lines, limit).open,
        ),
        forall|j: int|
            0 <= j < line_fold(code_lines, limit).done.len() ==> (#[trigger] line_fold(
                code_lines,
                limit,
            ).done[j]).len() > 0,
    decreases code_lines.len(),
{
    if code_lines.len() > 0 {
        let before = line_fold(code_lines.drop_last(), limit);
        let line = code_lines.last();
        let g = line_fold(code_lines, limit);
        lemma_line_fold_carries(code_lines.drop_last(), limit);
        if total_words(before.open) + word_count(line) > limit && before.open.len() > 0 {
            let kept = keep_last(before.open, CARRIED_LINES as nat);
            assert(g.open.take(kept.len() as int) =~= kept);
            assert forall|j: int| 0 <= j && j + 1 < g.done.len() implies carries(
                #[trigger] g.done[j],
                g.done[j + 1],
            ) by {
                if j + 1 < before.done.len() {
                    assert(carries(before.done[j], before.done[j + 1]));
                }
            }
        } else {
            if before.done.len() > 0 {
                let kept = keep_last(before.done.last(), CARRIED_LINES as nat);
                assert(g.open.take(kept.len() as int) =~= before.open.take(kept.len() as int));
            }
        }
    }
}

/// After a group of lines is complete, the next group starts with its last
/// `min(5, length)` lines.
pub proof fn law_lines_carried(code_lines: Seq<Seq<char>>, limit: nat, j: int)
    requires
        0 <= j,
        j + 1 < line_groups(code_lines, limit).len(),
    ensures
        carries(line_groups(code_lines, limit)[j], line_groups(code_lines, limit)[j + 1]),
{
    lemma_line_fold_carries(code_lines, limit);
    let g = line_fold(code_lines, limit);
    if j + 1 < g.done.len() {
        assert(carries(g.done[j], g.done[j + 1]));
    }
}

/// Where nothing is blank, nothing is left out.
pub proof fn lemma_nonblank_all(contents: Seq<Seq<char>>)
    requires
        forall|i: int| 0 <= i < contents.len() ==> !blank(#[trigger] contents[i]),
    ensures
        nonblank(contents) == contents,
    decreases contents.len(),
{
    if contents.len() > 0 {
        lemma_nonblank_all(contents.drop_last());
        assert(contents.drop_last().push(contents.last()) =~= contents);
    }
}

/// In code where no group of lines is blank, chunk `j` is group `j` joined
/// by line feeds, so each chunk after the first starts with the last
/// `min(5, length)` lines of the chunk before it.
pub proof fn law_code_chunks_carry(code: Seq<char>, limit: nat, j: int)
    requires
        forall|i: int|
            0 <= i < line_groups(lines(code), limit).len() ==> !blank(
                join(#[trigger] line_groups(lines(code), limit)[i], seq!['\n']),
            ),
        0 <= j,
        j + 1 < code_chunks(code, limit).len(),
    ensures
        code_chunks(code, limit).len() == line_groups(lines(code), limit).len(),
        code_chunks(code, limit)[j] == join(line_groups(lines(code), limit)[j], seq!['\n']),
        code_chunks(code, limit)[j + 1] == join(
            line_groups(lines(code), limit)[j + 1],
            seq!['\n'],
        ),
        carries(line_groups(lines(code), limit)[j], line_groups(lines(code), limit)[j + 1]),
{
    let groups = line_groups(lines(code), limit);
    let contents = joined(groups, seq!['\n']);
    assert forall|i: int| 0 <= i < contents.len() implies !blank(#[trigger] contents[i]) by {
        assert(contents[i] == join(groups[i], seq!['\n']));
    }
    lemma_nonblank_all(contents);
    law_lines_carried(lines(code), limit, j);
}

// ---------------------------------------------------------------------------
// Texts of white space
// ---------------------------------------------------------------------------

/// Pieces of white space, glued, are white space.
proof fn lemma_glue_of_white(group: Seq<Seq<char>>)
    requires
        all_parts_white(group),
        group.len() > 1 ==> white_space('\n'),
    ensures
        all_white(glue(group)),
    decreases group.len(),
{
    if group.len() > 0 {
        let init = group.drop_last();
        assert(all_parts_white(init)) by {
            assert forall|k: int| 0 <= k < init.len() implies all_white(#[trigger] init[k]) by {
                assert(init[k] == group[k]);
            }
        }
        lemma_glue_of_white(init);
        assert(all_white(group[group.len() - 1]));
    }
}

/// Pieces of white space, joined, are white space.
proof fn lemma_join_of_white(group: Seq<Seq<char>>, sep: char)
    requires
        all_parts_white(group),
        group.len() > 1 ==> white_space(sep),
    ensures
        all_white(join(group, seq![sep])),
    decreases group.len(),
{
    if group.len() > 0 {
        let init = group.drop_last();
        assert(all_parts_white(init)) by {
            assert forall|k: int| 0 <= k < init.len() implies all_white(#[trigger] init[k]) by {
                assert(init[k] == group[k]);
            }
        }
        lemma_join_of_white(init, sep);
        assert(all_white(group[group.len() - 1]));
        assert(all_white(group[0]));
    }
}

/// Whether a group is made of white space, and is no longer than `bound`.
spec fn white_group(group: Seq<Seq<char>>, bound: nat) -> bool {
    all_parts_white(group) && group.len() <= bound
}

/// Paragraphs of white space fall into groups of white space.
proof fn lemma_paragraph_groups_of_white(paras: Seq<Seq<char>>, limit: nat)
    requires
        all_parts_white(paras),
    ensures
        white_group(paragraph_fold(paras, limit).open, paras.len()),
        forall|j: int|
            0 <= j < paragraph_fold(paras, limit).done.len() ==> white_group(
                #[trigger] paragraph_fold(paras, limit).done[j],
                paras.len(),
            ),
    decreases paras.len(),
{
    if paras.len() > 0 {
        let init = paras.drop_last();
        assert(all_parts_white(init)) by {
            assert forall|k: int| 0 <= k < init.len() implies all_white(#[trigger] init[k]) by {
                assert(init[k] == paras[k]);
            }
        }
        lemma_paragraph_groups_of_white(init, limit);
        let before = paragraph_fold(init, limit);
        let g = paragraph_fold(paras, limit);
        assert(all_white(paras[paras.len() - 1]));
        assert forall|j: int| 0 <= j < g.done.len() implies white_group(
            #[trigger] g.done[j],
            paras.len(),
        ) by {
            if j < before.done.len() {
                assert(white_group(before.done[j], init.len()));
            }
        }
    }
}

/// Lines of white space fall into groups of white space.
proof fn lemma_line_groups_of_white(code_lines: Seq<Seq<char>>, limit: nat)
    requires
        all_parts_white(code_lines),
    ensures
        white_group(line_fold(code_lines, limit).open, code_lines.len()),
        forall|j: int|
            0 <= j < line_fold(code_lines, limit).done.len() ==> white_group(
                #[trigger] line_fold(code_lines, limit).done[j],
                code_lines.len(),
            ),
    decreases code_lines.len(),
{
    if code_lines.len() > 0 {
        let init = code_lines.drop_last();
        assert(all_parts_white(init)) by {
            assert forall|k: int| 0 <= k < init.len() implies all_white(#[trigger] init[k]) by {
                assert(init[k] == code_lines[k]);
            }
        }
        lemma_line_groups_of_white(init, limit);
        let before = line_fold(init, limit);
        let g = line_fold(code_lines, limit);
        assert(all_white(code_lines[code_lines.len() - 1]));
        let kept = keep_last(before.open, CARRIED_LINES as nat);
        assert(all_parts_white(kept)) by {
            assert forall|k: int| 0 <= k < kept.len() implies all_white(#[trigger] kept[k]) by {
                assert(kept[k] == before.open[k + before.open.len() - kept.len()]);
            }
        }
        assert forall|j: int| 0 <= j < g.done.len() implies white_group(
            #[trigger] g.done[j],
            code_lines.len(),
        ) by {
            if j < before.done.len() {
                assert(white_group(before.done[j], init.len()));
            }
        }
    }
}

/// Of texts that are all blank, nothing is kept.
proof fn lemma_nothing_of_blank(contents: Seq<Seq<char>>)
    requires
        forall|i: int| 0 <= i < contents.len() ==> blank(#[trigger] contents[i]),
    ensures
        trimmed_nonblank(contents).len() == 0,
        nonblank(contents).len() == 0,
    decreases contents.len(),
{
    if contents.len() > 0 {
        let init = contents.drop_last();
        assert forall|i: int| 0 <= i < init.len() implies blank(#[trigger] init[i]) by {
            assert(init[i] == contents[i]);
        }
        lemma_nothing_of_blank(init);
        assert(blank(contents[contents.len() - 1]));
    }
}

/// A text that holds nothing but white space, the empty text among them,
/// gives no chunk, however it is cut.
pub proof fn law_white_text_gives_no_chunks(text: Seq<char>, size: nat, overlap: nat)
    requires
        all_white(text),
    ensures
        window_chunks(text, size, overlap).len() == 0,
        paragraph_chunks(text, size).len() == 0,
        code_chunks(text, size).len() == 0,
{
    lemma_white_is_blank(text);
    let paras = paragraphs(text);
    lemma_paragraphs_of_white(text);
    lemma_paragraph_groups_of_white(paras, size);
    let groups = paragraph_groups(paras, size);
    let glued_groups = glued(groups);
    assert forall|i: int| 0 <= i < glued_groups.len() implies blank(#[trigger] glued_groups[i]) by {
        let fold = paragraph_fold(paras, size);
        if i < fold.done.len() {
            assert(groups[i] == fold.done[i]);
            assert(white_group(fold.done[i], paras.len()));
        } else {
            assert(groups[i] == fold.open);
        }
        lemma_glue_of_white(groups[i]);
        lemma_white_is_blank(glue(groups[i]));
    }
    lemma_nothing_of_blank(glued_groups);
    let code_lines = lines(text);
    lemma_lines_of_white(text);
    lemma_line_groups_of_white(code_lines, size);
    let line_sets = line_groups(code_lines, size);
    let joined_sets = joined(line_sets, seq!['\n']);
    assert forall|i: int| 0 <= i < joined_sets.len() implies blank(#[trigger] joined_sets[i]) by {
        let fold = line_fold(code_lines, size);
        if i < fold.done.len() {
            assert(line_sets[i] == fold.done[i]);
            assert(white_group(fold.done[i], code_lines.len()));
        } else {
            assert(line_sets[i] == fold.open);
        }
        lemma_join_of_white(line_sets[i], '\n');
        lemma_white_is_blank(join(line_sets[i], seq!['\n']));
    }
    lemma_nothing_of_blank(joined_sets);
}

// ---------------------------------------------------------------------------
// Helpers
// ---------------------------------------------------------------------------

/// Adds a chunk with the text `chars[from..to]`, numbered after the last.
fn push_chunk(chunks: &mut Vec<Chunk>, chars: &Vec<char>, from: usize, to: usize)
    requires
        from <= to <= chars.len(),
        exists|contents: Seq<Seq<char>>| chunk_views(old(chunks)@) == numbered(contents),
    ensures
        forall|contents: Seq<Seq<char>>|
            chunk_views(old(chunks)@) == numbered(contents) ==> chunk_views(final(chunks)@)
                == numbered(contents.push(chars@.subrange(from as int, to as int))),
{
    let content = to_string(chars, from, to);
    let index = chunks.len();
    let ghost before = chunk_views(chunks@);
    chunks.push(Chunk { content, index });
    proof {
        assert forall|contents: Seq<Seq<char>>| before == numbered(contents) implies chunk_views(
            chunks@,
        ) == numbered(contents.push(chars@.subrange(from as int, to as int))) by {
            let grown = contents.push(chars@.subrange(from as int, to as int));
            assert(before.len() == contents.len());
            assert forall|i: int| 0 <= i < chunks@.len() implies chunk_views(chunks@)[i]
                == numbered(grown)[i] by {
                if i < before.len() {
                    assert(chunk_views(chunks@)[i] == before[i]);
                    assert(before[i] == numbered(contents)[i]);
                }
            }
            assert(chunk_views(chunks@) =~= numbered(grown));
        }
    }
}

impl TextChunker {
    /// The number of words that a chunk should hold.
    pub closed spec fn size(&self) -> nat {
        self.chunk_size as nat
    }

    /// The number of words that two neighbouring windows share.
    pub closed spec fn overlap(&self) -> nat {
        self.chunk_overlap as nat
    }

    /// A chunker for chunks of `chunk_size` words, of which the sliding
    /// window repeats `chunk_overlap`.
    pub fn new(chunk_size: usize, chunk_overlap: usize) -> (chunker: Self)
        ensures
            chunker.size() == chunk_size,
            chunker.overlap() == chunk_overlap,
    {
        Self { chunk_size, chunk_overlap }
    }

    /// Cuts `text` by a sliding window of words.
    pub fn chunk(&self, text: &str) -> (chunks: Vec<Chunk>)
        requires
            window_advances(word_count(text@), self.size(), self.overlap()),
        ensures
            chunk_views(chunks@) == numbered(window_chunks(text@, self.size(), self.overlap())),
    {
        let chars = to_chars(text);
        let tokens = split_words(&chars);
        let mut chunks: Vec<Chunk> = Vec::new();
        let mut start: usize = 0;
        let ghost all = rows(tokens@);
        let ghost size = self.size();
        let ghost overlap = self.overlap();
        let ghost mut made: Seq<Seq<char>> = Seq::empty();
        proof {
            assert(all.skip(0) == all);
            assert(chunk_views(chunks@) =~= numbered(made));
            assert(made + joined(windows(all, size, overlap), seq![' ']) =~= window_chunks(
                text@,
                size,
                overlap,
            ));
        }
        while start < tokens.len()
            invariant
                all == rows(tokens@),
                all == words(text@),
                size == self.chunk_size,
                overlap == self.chunk_overlap,
                start <= tokens.len(),
                window_advances(all.len(), size, overlap),
                chunk_views(chunks@) == numbered(made),
                start == tokens.len() ==> made == window_chunks(text@, size, overlap),
                start < tokens.len() ==> made + joined(
                    windows(all.skip(start as int), size, overlap),
                    seq![' '],
                ) == window_chunks(text@, size, overlap),
            decreases tokens.len() - start,
        {
            let rest = tokens.len() - start;
            let ghost tail = all.skip(start as int);
            let ghost sep = seq![' '];
            if rest <= self.chunk_size || self.chunk_overlap >= self.chunk_size {
                let content = join_range(&tokens, start, tokens.len(), ' ');
                proof {
                    assert(all.subrange(start as int, all.len() as int) == tail);
                    assert(windows(tail, size, overlap) == seq![tail]);
                    assert(joined(seq![tail], sep) =~= seq![join(tail, sep)]);
                    assert(content@.subrange(0, content@.len() as int) == content@);
                }
                push_chunk(&mut chunks, &content, 0, content.len());
                proof {
                    made = made.push(content@);
                    assert(made =~= window_chunks(text@, size, overlap));
                }
                start = tokens.len();
            } else {
                let end = start + self.chunk_size;
                let content = join_range(&tokens, start, end, ' ');
                proof {
                    let next = tail.skip(size - overlap);
                    assert(all.subrange(start as int, end as int) == tail.take(size as int));
                    assert(windows(tail, size, overlap) == seq![tail.take(size as int)] + windows(
                        next,
                        size,
                        overlap,
                    ));
                    assert(next == all.skip(end - self.chunk_overlap));
                    assert(joined(windows(tail, size, overlap), sep) =~= seq![
                        join(tail.take(size as int), sep),
                    ] + joined(windows(next, size, overlap), sep));
                    assert(content@.subrange(0, content@.len() as int) == content@);
                }
                push_chunk(&mut chunks, &content, 0, content.len());
                proof {
                    let next = tail.skip(size - overlap);
                    assert(made.push(content@) + joined(windows(next, size, overlap), sep) =~= made
                        + joined(windows(tail, size, overlap), sep));
                    made = made.push(content@);
                }
                start = end - self.chunk_overlap;
            }
        }
        chunks
    }

    /// Cuts `text` by a sliding window of words, if the window can move
    /// forward; `None` if it cannot, which is when the text has more than
    /// `chunk_size` words and `chunk_overlap` is not below `chunk_size`.
    pub fn try_chunk(&self, text: &str) -> (chunks: Option<Vec<Chunk>>)
        ensures
            chunks is Some <==> window_advances(word_count(text@), self.size(), self.overlap()),
            chunks matches Some(made) ==> chunk_views(made@) == numbered(
                window_chunks(text@, self.size(), self.overlap()),
            ),
    {
        let chars = to_chars(text);
        let count = count_words(&chars);
        if count <= self.chunk_size || self.chunk_overlap < self.chunk_size {
            Some(self.chunk(text))
        } else {
            None
        }
    }

    /// Cuts `text` into groups of whole paragraphs.
    pub fn chunk_by_paragraphs(&self, text: &str) -> (chunks: Vec<Chunk>)
        ensures
            chunk_views(chunks@) == numbered(paragraph_chunks(text@, self.size())),
    {
        let chars = to_chars(text);
        let paras = split_paragraphs(&chars);
        let mut chunks: Vec<Chunk> = Vec::new();
        let mut buffer: Vec<char> = Vec::new();
        let mut current_size: usize = 0;
        let mut i: usize = 0;
        let ghost all = rows(paras@);
        let ghost limit = self.size();
        let ghost mut g = Grouping { done: Seq::empty(), open: Seq::empty() };
        proof {
            assert(chunk_views(chunks@) =~= numbered(trimmed_nonblank(glued(g.done))));
            assert(all.take(0) =~= Seq::<Seq<char>>::empty());
        }
        while i < paras.len()
            invariant
                all == rows(paras@),
                limit == self.chunk_size,
                i <= paras.len(),
                g == paragraph_fold(all.take(i as int), limit),
                buffer@ == glue(g.open),
                current_size == total_words(g.open),
                current_size <= buffer@.len(),
                chunk_views(chunks@) == numbered(trimmed_nonblank(glued(g.done))),
            decreases paras.len() - i,
        {
            let para = &paras[i];
            let para_words = count_words(para);
            proof {
                assert(all.take(i as int + 1).drop_last() == all.take(i as int));
                assert(all.take(i as int + 1).last() == para@);
                lemma_word_count_bound(para@);
            }
            let ghost g0 = g;
            let ghost g1 = paragraph_step(g0, para@, limit);
            let ghost flushed = total_words(g0.open) + word_count(para@) > limit && glue(
                g0.open,
            ).len() > 0;
            if (para_words > self.chunk_size || current_size > self.chunk_size - para_words)
                && buffer.len() > 0 {
                let (from, to) = trim_range(&buffer);
                if from < to {
                    push_chunk(&mut chunks, &buffer, from, to);
                }
                proof {
                    let after = glued(g1.done);
                    assert(after.drop_last() =~= glued(g0.done));
                    assert(after.last() == buffer@);
                }
                buffer = Vec::new();
                current_size = 0;
            }
            if buffer.len() > 0 {
                buffer.push('\n');
                buffer.push('\n');
                assert(buffer@ == glue(g0.open) + seq!['\n', '\n']);
            }
            append_chars(&mut buffer, para);
            proof {
                if flushed {
                    assert(g1.open.drop_last() =~= Seq::<Seq<char>>::empty());
                    assert(glue(g1.open.drop_last()).len() == 0);
                    assert(total_words(g1.open.drop_last()) == 0);
                    assert(buffer@ =~= para@);
                } else {
                    assert(g1.open.drop_last() == g0.open);
                    assert(buffer@ =~= glue(g1.open));
                }
                assert(g1.open.last() == para@);
                g = g1;
            }
            let filled = buffer.len();
            current_size += para_words;
            i += 1;
        }
        proof {
            assert(all.take(i as int) == all);
        }
        let ghost before = glued(g.done);
        let (from, to) = trim_range(&buffer);
        if from < to {
            push_chunk(&mut chunks, &buffer, from, to);
        }
        proof {
            let after = glued(g.done.push(g.open));
            assert(after.drop_last() =~= before);
            assert(after.last() == buffer@);
        }
        chunks
    }

    /// Cuts `code` into groups of whole lines; each group after the first
    /// starts with the last lines of the group before it.
    pub fn chunk_code(&self, code: &str) -> (chunks: Vec<Chunk>)
        ensures
            chunk_views(chunks@) == numbered(code_chunks(code@, self.size())),
    {
        let chars = to_chars(code);
        let code_lines = split_lines(&chars);
        let mut chunks: Vec<Chunk> = Vec::new();
        let mut first: usize = 0;
        let mut current_size: usize = 0;
        let mut i: usize = 0;
        let ghost all = rows(code_lines@);
        let ghost limit = self.size();
        let ghost sep = seq!['\n'];
        let ghost mut g = Grouping { done: Seq::empty(), open: Seq::empty() };
        proof {
            assert(chunk_views(chunks@) =~= numbered(nonblank(joined(g.done, sep))));
            assert(all.take(0) =~= Seq::<Seq<char>>::empty());
            assert(all.subrange(0, 0) =~= Seq::<Seq<char>>::empty());
        }
        while i < code_lines.len()
            invariant
                all == rows(code_lines@),
                total_chars(all) <= usize::MAX,
                limit == self.chunk_size,
                sep == seq!['\n'],
                first <= i <= code_lines.len(),
                g == line_fold(all.take(i as int), limit),
                g.open == all.subrange(first as int, i as int),
                current_size == total_words(g.open),
                chunk_views(chunks@) == numbered(nonblank(joined(g.done, sep))),
            decreases code_lines.len() - i,
        {
            let line = &code_lines[i];
            let line_words = count_words(line);
            let ghost g0 = g;
            let ghost g1 = line_step(g0, line@, limit);
            proof {
                assert(all.take(i as int + 1).drop_last() == all.take(i as int));
                assert(all.take(i as int + 1).last() == line@);
            }
            if (line_words > self.chunk_size || current_size > self.chunk_size - line_words) && i
                > first {
                let content = join_range(&code_lines, first, i, '\n');
                if !is_blank(&content) {
                    proof {
                        assert(content@.subrange(0, content@.len() as int) == content@);
                    }
                    push_chunk(&mut chunks, &content, 0, content.len());
                }
                proof {
                    let after = joined(g1.done, sep);
                    assert(after.drop_last() =~= joined(g0.done, sep));
                    assert(after.last() == content@);
                }
                if i - first > CARRIED_LINES {
                    first = i - CARRIED_LINES;
                }
                proof {
                    assert(all.subrange(first as int, i as int) =~= keep_last(
                        g0.open,
                        CARRIED_LINES as nat,
                    ));
                }
                current_size = count_range_words(&code_lines, first, i);
            }
            proof {
                let grown = all.subrange(first as int, i as int + 1);
                assert(grown =~= all.subrange(first as int, i as int).push(line@));
                assert(grown.drop_last() == all.subrange(first as int, i as int));
                assert(g1.open == grown);
                lemma_range_words_bound(all, first as int, i as int + 1);
                g = g1;
            }
            current_size += line_words;
            i += 1;
        }
        proof {
            assert(all.take(i as int) == all);
        }
        if i > first {
            let content = join_range(&code_lines, first, i, '\n');
            if !is_blank(&content) {
                proof {
                    assert(content@.subrange(0, content@.len() as int) == content@);
                }
                push_chunk(&mut chunks, &content, 0, content.len());
            }
            proof {
                let after = joined(g.done.push(g.open), sep);
                assert(after.drop_last() =~= joined(g.done, sep));
                assert(after.last() == content@);
            }
        }
        chunks
    }
}

} // verus!
