//! Text as sequences of characters: words, trimming, joining and the two
//! ways a document is cut into pieces (blank-line paragraphs and lines).
//!
//! Every function here has a mathematical counterpart on `Seq<char>`; the
//! executable versions work on `Vec<char>` and are proved to compute it.

use vstd::prelude::*;
use vstd::string::StringExecFns;

verus! {

/// Whether `c` is white space: whether it has the property White_Space of
/// the Unicode character database. These are the tab, the line feed, the
/// vertical tab, the form feed and the carriage return, the space, the
/// next-line character, the no-break space, the Ogham space mark, the
/// spaces from the en quad to the hair space, the line and paragraph
/// separators, the narrow no-break space, the medium mathematical space
/// and the ideographic space.
pub open spec fn white_space(c: char) -> bool {
    let n = c as u32;
    (0x09 <= n <= 0x0D) || n == 0x20 || n == 0x85 || n == 0xA0 || n == 0x1680 || (0x2000 <= n
        <= 0x200A) || n == 0x2028 || n == 0x2029 || n == 0x202F || n == 0x205F || n == 0x3000
}

/// `char::is_whitespace` tells whether a character has the Unicode property
/// White_Space. Not proved.
pub assume_specification[ char::is_whitespace ](c: char) -> (b: bool)
    ensures
        b == white_space(c),
;

/// `String::push` appends one character. Not proved.
#[verifier::external_body]
fn push_char(s: &mut String, c: char)
    ensures
        final(s)@ == old(s)@.push(c),
{
    s.push(c)
}

/// The words of `s`: its maximal runs of characters that are not white space,
/// from left to right.
pub open spec fn words(s: Seq<char>) -> Seq<Seq<char>>
    decreases s.len(),
{
    if s.len() == 0 {
        Seq::empty()
    } else {
        let before = words(s.drop_last());
        let c = s.last();
        if white_space(c) {
            before
        } else if s.len() >= 2 && !white_space(s[s.len() - 2]) {
            before.drop_last().push(before.last().push(c))
        } else {
            before.push(seq![c])
        }
    }
}

/// How many words `s` holds.
pub open spec fn word_count(s: Seq<char>) -> nat {
    words(s).len()
}

/// `s` without its leading white space.
pub open spec fn trim_start(s: Seq<char>) -> Seq<char>
    decreases s.len(),
{
    if s.len() > 0 && white_space(s[0]) {
        trim_start(s.drop_first())
    } else {
        s
    }
}

/// `s` without its trailing white space.
pub open spec fn trim_end(s: Seq<char>) -> Seq<char>
    decreases s.len(),
{
    if s.len() > 0 && white_space(s.last()) {
        trim_end(s.drop_last())
    } else {
        s
    }
}

/// `s` without leading and trailing white space.
pub open spec fn trim(s: Seq<char>) -> Seq<char> {
    trim_end(trim_start(s))
}

/// Whether `s` holds nothing but white space.
pub open spec fn blank(s: Seq<char>) -> bool {
    trim(s).len() == 0
}

/// The parts, in order, with `sep` between each two neighbours.
pub open spec fn join(parts: Seq<Seq<char>>, sep: Seq<char>) -> Seq<char>
    decreases parts.len(),
{
    if parts.len() == 0 {
        Seq::empty()
    } else if parts.len() == 1 {
        parts[0]
    } else {
        join(parts.drop_last(), sep) + sep + parts.last()
    }
}

/// The sum of the word counts of the parts.
pub open spec fn total_words(parts: Seq<Seq<char>>) -> nat
    decreases parts.len(),
{
    if parts.len() == 0 {
        0
    } else {
        total_words(parts.drop_last()) + word_count(parts.last())
    }
}

/// The sum of the lengths of the parts.
pub open spec fn total_chars(parts: Seq<Seq<char>>) -> nat
    decreases parts.len(),
{
    if parts.len() == 0 {
        0
    } else {
        total_chars(parts.drop_last()) + parts.last().len()
    }
}

/// The views of the rows of a vector of character vectors.
pub open spec fn rows(v: Seq<Vec<char>>) -> Seq<Seq<char>> {
    Seq::new(v.len(), |i: int| v[i]@)
}

// ---------------------------------------------------------------------------
// Facts about words
// ---------------------------------------------------------------------------

/// A text that ends in a character that is not white space has a last word.
pub proof fn lemma_words_nonempty(s: Seq<char>)
    requires
        s.len() > 0,
        !white_space(s.last()),
    ensures
        words(s).len() > 0,
    decreases s.len(),
{
    if s.len() >= 2 && !white_space(s[s.len() - 2]) {
        assert(s.drop_last().last() == s[s.len() - 2]);
        lemma_words_nonempty(s.drop_last());
    }
}

/// A text has no more words than characters.
pub proof fn lemma_word_count_bound(s: Seq<char>)
    ensures
        word_count(s) <= s.len(),
    decreases s.len(),
{
    if s.len() > 0 {
        lemma_word_count_bound(s.drop_last());
        if !white_space(s.last()) && s.len() >= 2 && !white_space(s[s.len() - 2]) {
            assert(s.drop_last().last() == s[s.len() - 2]);
            lemma_words_nonempty(s.drop_last());
        }
    }
}

/// Whether `w` could be a word: it is not empty and holds no white space.
pub open spec fn solid(w: Seq<char>) -> bool {
    w.len() > 0 && forall|j: int| 0 <= j < w.len() ==> !white_space(#[trigger] w[j])
}

/// Whether each of `parts` could be a word.
pub open spec fn all_solid(parts: Seq<Seq<char>>) -> bool {
    forall|k: int| 0 <= k < parts.len() ==> solid(#[trigger] parts[k])
}

/// Every word is non-empty and free of white space.
pub proof fn law_words_are_solid(s: Seq<char>)
    ensures
        all_solid(words(s)),
    decreases s.len(),
{
    if s.len() > 0 {
        let init = s.drop_last();
        law_words_are_solid(init);
        let before = words(init);
        let c = s.last();
        if white_space(c) {
        } else if s.len() >= 2 && !white_space(s[s.len() - 2]) {
            assert(init.last() == s[s.len() - 2]);
            lemma_words_nonempty(init);
            let grown = before.last().push(c);
            assert(solid(before[before.len() - 1]));
            assert(solid(grown)) by {
                assert forall|j: int| 0 <= j < grown.len() implies !white_space(
                    #[trigger] grown[j],
                ) by {
                    if j < before.last().len() {
                        assert(grown[j] == before.last()[j]);
                    }
                }
            }
            assert forall|k: int| 0 <= k < words(s).len() implies solid(#[trigger] words(s)[k]) by {
                if k < before.len() - 1 {
                    assert(words(s)[k] == before[k]);
                } else {
                    assert(words(s)[k] == grown);
                }
            }
        } else {
            assert(solid(seq![c]));
            assert forall|k: int| 0 <= k < words(s).len() implies solid(#[trigger] words(s)[k]) by {
                if k < before.len() {
                    assert(words(s)[k] == before[k]);
                } else {
                    assert(words(s)[k] == seq![c]);
                }
            }
        }
    }
}

/// A word written after white space, or at the start, is one more word.
pub proof fn lemma_words_append_word(s: Seq<char>, w: Seq<char>)
    requires
        s.len() == 0 || white_space(s.last()),
        solid(w),
    ensures
        words(s + w) == words(s).push(w),
    decreases w.len(),
{
    let c = w.last();
    let head = w.drop_last();
    let whole = s + w;
    assert(whole.drop_last() == s + head);
    assert(whole.last() == c);
    assert(!white_space(w[w.len() - 1]));
    if head.len() == 0 {
        assert(s + head == s);
        assert(w == seq![c]);
        if s.len() > 0 {
            assert(whole[whole.len() - 2] == s.last());
        }
    } else {
        assert(solid(head)) by {
            assert forall|j: int| 0 <= j < head.len() implies !white_space(#[trigger] head[j]) by {
                assert(head[j] == w[j]);
            }
        }
        lemma_words_append_word(s, head);
        assert(whole[whole.len() - 2] == head.last());
        assert(!white_space(w[w.len() - 2]));
        assert(words(s).push(head).drop_last() == words(s));
        assert(head.push(c) == w);
    }
}

/// A text joined of parts that are not empty starts as its first part
/// starts, and ends as its last part ends.
pub proof fn lemma_join_ends(parts: Seq<Seq<char>>, sep: Seq<char>)
    requires
        parts.len() > 0,
        forall|k: int| 0 <= k < parts.len() ==> (#[trigger] parts[k]).len() > 0,
    ensures
        join(parts, sep).len() > 0,
        join(parts, sep)[0] == parts[0][0],
        join(parts, sep).last() == parts.last().last(),
    decreases parts.len(),
{
    if parts.len() > 1 {
        let init = parts.drop_last();
        assert forall|k: int| 0 <= k < init.len() implies (#[trigger] init[k]).len() > 0 by {
            assert(init[k] == parts[k]);
        }
        lemma_join_ends(init, sep);
    }
}

/// Words joined by a character that is white space are the words of the
/// text they make.
pub proof fn law_words_of_joined(parts: Seq<Seq<char>>, sep: char)
    requires
        all_solid(parts),
    ensures
        white_space(sep) ==> words(join(parts, seq![sep])) == parts,
    decreases parts.len(),
{
    if !white_space(sep) {
    } else if parts.len() == 0 {
    } else if parts.len() == 1 {
        lemma_words_append_word(Seq::empty(), parts[0]);
        assert(Seq::<char>::empty() + parts[0] == parts[0]);
        assert(Seq::<Seq<char>>::empty().push(parts[0]) == parts);
    } else {
        let init = parts.drop_last();
        let last = parts.last();
        assert(all_solid(init)) by {
            assert forall|k: int| 0 <= k < init.len() implies solid(#[trigger] init[k]) by {
                assert(init[k] == parts[k]);
            }
        }
        law_words_of_joined(init, sep);
        let left = join(init, seq![sep]) + seq![sep];
        assert(left == join(init, seq![sep]).push(sep));
        assert(left.drop_last() == join(init, seq![sep]));
        assert(words(left) == init);
        assert(solid(parts[parts.len() - 1]));
        lemma_words_append_word(left, last);
        assert(init.push(last) == parts);
    }
}

/// A text joined of words is not blank, and trimming leaves it as it is.
pub proof fn law_joined_words_are_trimmed(parts: Seq<Seq<char>>, sep: Seq<char>)
    requires
        parts.len() > 0,
        all_solid(parts),
    ensures
        trim(join(parts, sep)) == join(parts, sep),
        !blank(join(parts, sep)),
{
    assert(solid(parts[0]));
    assert(solid(parts[parts.len() - 1]));
    assert forall|k: int| 0 <= k < parts.len() implies (#[trigger] parts[k]).len() > 0 by {
        assert(solid(parts[k]));
    }
    lemma_join_ends(parts, sep);
    assert(!white_space(parts[0][0]));
    let last = parts.last();
    assert(!white_space(last[last.len() - 1]));
}

/// Whether `s` holds nothing but white space, character by character.
pub open spec fn all_white(s: Seq<char>) -> bool {
    forall|i: int| 0 <= i < s.len() ==> white_space(#[trigger] s[i])
}

/// Whether each of `parts` holds nothing but white space.
pub open spec fn all_parts_white(parts: Seq<Seq<char>>) -> bool {
    forall|k: int| 0 <= k < parts.len() ==> all_white(#[trigger] parts[k])
}

/// A text of white space is blank and has no words.
pub proof fn lemma_white_is_blank(s: Seq<char>)
    requires
        all_white(s),
    ensures
        blank(s),
        words(s).len() == 0,
    decreases s.len(),
{
    if s.len() > 0 {
        assert(white_space(s[0]));
        assert(white_space(s[s.len() - 1]));
        assert(all_white(s.drop_first())) by {
            assert forall|i: int| 0 <= i < s.drop_first().len() implies white_space(
                #[trigger] s.drop_first()[i],
            ) by {
                assert(s.drop_first()[i] == s[i + 1]);
            }
        }
        assert(all_white(s.drop_last())) by {
            assert forall|i: int| 0 <= i < s.drop_last().len() implies white_space(
                #[trigger] s.drop_last()[i],
            ) by {
                assert(s.drop_last()[i] == s[i]);
            }
        }
        lemma_white_is_blank(s.drop_first());
        lemma_white_is_blank(s.drop_last());
    }
}

/// The lengths of two runs of parts add up.
pub proof fn lemma_total_chars_add(a: Seq<Seq<char>>, b: Seq<Seq<char>>)
    ensures
        total_chars(a + b) == total_chars(a) + total_chars(b),
    decreases b.len(),
{
    if b.len() == 0 {
        assert(a + b == a);
    } else {
        assert((a + b).drop_last() == a + b.drop_last());
        lemma_total_chars_add(a, b.drop_last());
    }
}

/// Parts hold no more words than characters.
pub proof fn lemma_total_words_bound(parts: Seq<Seq<char>>)
    ensures
        total_words(parts) <= total_chars(parts),
    decreases parts.len(),
{
    if parts.len() > 0 {
        lemma_total_words_bound(parts.drop_last());
        lemma_word_count_bound(parts.last());
    }
}

/// A run of neighbouring parts holds no more words than all the parts have
/// characters.
pub proof fn lemma_range_words_bound(parts: Seq<Seq<char>>, from: int, to: int)
    requires
        0 <= from <= to <= parts.len(),
    ensures
        total_words(parts.subrange(from, to)) <= total_chars(parts),
{
    let mid = parts.subrange(from, to);
    assert(parts == parts.take(from) + mid + parts.skip(to));
    lemma_total_chars_add(parts.take(from) + mid, parts.skip(to));
    lemma_total_chars_add(parts.take(from), mid);
    lemma_total_words_bound(mid);
}

// ---------------------------------------------------------------------------
// Conversions
// ---------------------------------------------------------------------------

/// The characters of `text`, in order.
pub fn to_chars(text: &str) -> (chars: Vec<char>)
    ensures
        chars@ == text@,
{
    let mut chars: Vec<char> = Vec::new();
    for c in it: text.chars()
        invariant
            it.seq() == text@,
            chars@ == text@.take(it.index()),
    {
        chars.push(c);
        assert(text@.take(it.index() + 1) == text@.take(it.index()).push(c));
    }
    chars
}

/// The string made of `chars[from..to]`.
pub fn to_string(chars: &Vec<char>, from: usize, to: usize) -> (s: String)
    requires
        from <= to <= chars.len(),
    ensures
        s@ == chars@.subrange(from as int, to as int),
{
    let mut s = String::new();
    let mut i: usize = from;
    while i < to
        invariant
            from <= i <= to <= chars.len(),
            s@ == chars@.subrange(from as int, i as int),
        decreases to - i,
    {
        push_char(&mut s, chars[i]);
        i += 1;
    }
    s
}

/// Counts the words of `chars`.
pub fn count_words(chars: &Vec<char>) -> (n: usize)
    ensures
        n == word_count(chars@),
{
    let mut n: usize = 0;
    let mut in_word = false;
    let mut i: usize = 0;
    while i < chars.len()
        invariant
            i <= chars.len(),
            n == word_count(chars@.take(i as int)),
            in_word == (i > 0 && !white_space(chars@[i - 1])),
        decreases chars.len() - i,
    {
        let here = !chars[i].is_whitespace();
        proof {
            let s = chars@.take(i as int + 1);
            assert(s.drop_last() == chars@.take(i as int));
            lemma_word_count_bound(s);
            if here && in_word {
                lemma_words_nonempty(chars@.take(i as int));
            }
        }
        if here && !in_word {
            n += 1;
        }
        in_word = here;
        i += 1;
    }
    assert(chars@.take(i as int) == chars@);
    n
}

/// Splits `chars` into its words.
pub fn split_words(chars: &Vec<char>) -> (found: Vec<Vec<char>>)
    ensures
        rows(found@) == words(chars@),
{
    let mut found: Vec<Vec<char>> = Vec::new();
    let mut word: Vec<char> = Vec::new();
    let mut i: usize = 0;
    while i < chars.len()
        invariant
            i <= chars.len(),
            word@.len() > 0 <==> (i > 0 && !white_space(chars@[i - 1])),
            words(chars@.take(i as int)) == if word@.len() > 0 {
                rows(found@).push(word@)
            } else {
                rows(found@)
            },
        decreases chars.len() - i,
    {
        let c = chars[i];
        let ghost before = words(chars@.take(i as int));
        let ghost old_rows = rows(found@);
        let ghost old_word = word@;
        proof {
            assert(chars@.take(i as int + 1).drop_last() == chars@.take(i as int));
        }
        if c.is_whitespace() {
            if word.len() > 0 {
                found.push(word);
                word = Vec::new();
                assert(rows(found@) == old_rows.push(old_word));
            }
        } else {
            word.push(c);
            proof {
                let s = chars@.take(i as int + 1);
                assert(s.last() == c);
                if old_word.len() > 0 {
                    assert(s[s.len() - 2] == chars@[i - 1]);
                    assert(before.drop_last() == old_rows);
                    assert(before.last() == old_word);
                    assert(words(s) == old_rows.push(old_word.push(c)));
                } else {
                    assert(word@ == seq![c]);
                    assert(words(s) == old_rows.push(seq![c]));
                }
                assert(rows(found@) == old_rows);
            }
        }
        i += 1;
    }
    assert(chars@.take(i as int) == chars@);
    if word.len() > 0 {
        let ghost old_rows = rows(found@);
        let ghost old_word = word@;
        found.push(word);
        assert(rows(found@) == old_rows.push(old_word));
    }
    found
}

/// Appends the characters of `src` to `dst`.
pub fn append_chars(dst: &mut Vec<char>, src: &Vec<char>)
    ensures
        final(dst)@ == old(dst)@ + src@,
{
    let mut i: usize = 0;
    while i < src.len()
        invariant
            i <= src.len(),
            dst@ == old(dst)@ + src@.take(i as int),
        decreases src.len() - i,
    {
        dst.push(src[i]);
        assert(src@.take(i as int + 1) == src@.take(i as int).push(src@[i as int]));
        i += 1;
    }
    assert(src@.take(i as int) == src@);
}

// ---------------------------------------------------------------------------
// Trimming
// ---------------------------------------------------------------------------

/// Finds the part of `chars` that is left once the white space at both ends
/// is taken away.
pub fn trim_range(chars: &Vec<char>) -> (range: (usize, usize))
    ensures
        range.0 <= range.1 <= chars.len(),
        chars@.subrange(range.0 as int, range.1 as int) == trim(chars@),
{
    let mut from: usize = 0;
    assert(chars@.skip(0) == chars@);
    while from < chars.len() && chars[from].is_whitespace()
        invariant
            from <= chars.len(),
            trim_start(chars@) == trim_start(chars@.skip(from as int)),
        decreases chars.len() - from,
    {
        assert(chars@.skip(from as int).drop_first() == chars@.skip(from as int + 1));
        from += 1;
    }
    assert(trim_start(chars@) == chars@.skip(from as int));
    let mut to: usize = chars.len();
    assert(chars@.skip(from as int) == chars@.subrange(from as int, to as int));
    while to > from && chars[to - 1].is_whitespace()
        invariant
            from <= to <= chars.len(),
            trim(chars@) == trim_end(chars@.subrange(from as int, to as int)),
        decreases to,
    {
        assert(chars@.subrange(from as int, to as int).drop_last() == chars@.subrange(
            from as int,
            to as int - 1,
        ));
        to -= 1;
    }
    (from, to)
}

/// Whether `chars` holds nothing but white space.
pub fn is_blank(chars: &Vec<char>) -> (b: bool)
    ensures
        b == blank(chars@),
{
    let (from, to) = trim_range(chars);
    from == to
}

// ---------------------------------------------------------------------------
// Joining
// ---------------------------------------------------------------------------

/// Joins `parts[from..to]` with `sep` between neighbours.
pub fn join_range(parts: &Vec<Vec<char>>, from: usize, to: usize, sep: char) -> (joined: Vec<char>)
    requires
        from <= to <= parts.len(),
    ensures
        joined@ == join(rows(parts@).subrange(from as int, to as int), seq![sep]),
{
    let mut joined: Vec<char> = Vec::new();
    let mut i: usize = from;
    while i < to
        invariant
            from <= i <= to <= parts.len(),
            joined@ == join(rows(parts@).subrange(from as int, i as int), seq![sep]),
        decreases to - i,
    {
        let ghost done = rows(parts@).subrange(from as int, i as int);
        let ghost next = rows(parts@).subrange(from as int, i as int + 1);
        proof {
            assert(next.drop_last() == done);
            assert(next.last() == parts@[i as int]@);
        }
        if i > from {
            joined.push(sep);
            assert(joined@ == join(done, seq![sep]) + seq![sep]);
        }
        append_chars(&mut joined, &parts[i]);
        i += 1;
    }
    joined
}

// ---------------------------------------------------------------------------
// Paragraphs
// ---------------------------------------------------------------------------

/// Whether a blank line (two line feeds in a row) starts at position `i`.
pub open spec fn break_at(s: Seq<char>, i: int) -> bool {
    0 <= i && i + 1 < s.len() && s[i] == '\n' && s[i + 1] == '\n'
}

/// Where the first blank line of `s` starts, or the length of `s` if it has
/// none.
pub open spec fn first_break(s: Seq<char>) -> nat
    decreases s.len(),
{
    if s.len() < 2 {
        s.len()
    } else if s[0] == '\n' && s[1] == '\n' {
        0
    } else {
        1 + first_break(s.drop_first())
    }
}

/// The paragraphs of `s`: what stands between its blank lines, taken from the
/// left without overlap. A text without a blank line is one paragraph, the
/// empty text included.
pub open spec fn paragraphs(s: Seq<char>) -> Seq<Seq<char>>
    decreases s.len(),
{
    let k = first_break(s);
    if k + 2 <= s.len() {
        seq![s.take(k as int)] + paragraphs(s.skip(k as int + 2))
    } else {
        seq![s]
    }
}

/// `first_break` is the least position of a blank line.
pub proof fn lemma_first_break(s: Seq<char>, k: int)
    requires
        0 <= k <= s.len(),
        forall|j: int| 0 <= j < k ==> !break_at(s, j),
        break_at(s, k) || k == s.len(),
    ensures
        first_break(s) == k,
    decreases s.len(),
{
    if s.len() < 2 {
    } else if s[0] == '\n' && s[1] == '\n' {
        assert(break_at(s, 0));
    } else {
        assert(!break_at(s, 0));
        let t = s.drop_first();
        assert forall|j: int| 0 <= j < k - 1 implies !break_at(t, j) by {
            assert(!break_at(s, j + 1));
        }
        if break_at(s, k) {
            assert(break_at(t, k - 1));
        }
        lemma_first_break(t, k - 1);
    }
}

/// Splits `chars` into its paragraphs.
pub fn split_paragraphs(chars: &Vec<char>) -> (found: Vec<Vec<char>>)
    ensures
        rows(found@) == paragraphs(chars@),
        found.len() > 0,
{
    let mut found: Vec<Vec<char>> = Vec::new();
    let mut piece: Vec<char> = Vec::new();
    let mut i: usize = 0;
    let ghost mut start: int = 0;
    assert(chars@.skip(0) == chars@);
    assert(rows(found@) == Seq::<Seq<char>>::empty());
    while i < chars.len()
        invariant
            0 <= start <= i <= chars.len(),
            piece@ == chars@.subrange(start, i as int),
            forall|j: int| start <= j < i ==> !break_at(chars@, j),
            paragraphs(chars@) == rows(found@) + paragraphs(chars@.skip(start)),
        decreases chars.len() - i,
    {
        if chars[i] == '\n' && i + 1 < chars.len() && chars[i + 1] == '\n' {
            let ghost rest = chars@.skip(start);
            let ghost old_rows = rows(found@);
            let ghost first = piece@;
            proof {
                assert forall|j: int| 0 <= j < i - start implies !break_at(rest, j) by {
                    assert(!break_at(chars@, start + j));
                }
                assert(break_at(rest, i - start));
                lemma_first_break(rest, i - start);
                assert(rest.take(i - start) == first);
                assert(rest.skip(i - start + 2) == chars@.skip(i + 2));
            }
            found.push(piece);
            piece = Vec::new();
            i += 2;
            proof {
                start = i as int;
                assert(rows(found@) == old_rows + seq![first]);
            }
        } else {
            piece.push(chars[i]);
            i += 1;
        }
    }
    let ghost rest = chars@.skip(start);
    let ghost old_rows = rows(found@);
    proof {
        assert forall|j: int| 0 <= j < rest.len() implies !break_at(rest, j) by {
            assert(!break_at(chars@, start + j));
        }
        lemma_first_break(rest, rest.len() as int);
        assert(piece@ == rest);
    }
    found.push(piece);
    assert(rows(found@) == old_rows + seq![rest]);
    found
}

// ---------------------------------------------------------------------------
// Lines
// ---------------------------------------------------------------------------

/// Where the first line feed of `s` stands, or the length of `s` if it has
/// none.
pub open spec fn first_newline(s: Seq<char>) -> nat
    decreases s.len(),
{
    if s.len() == 0 {
        0
    } else if s[0] == '\n' {
        0
    } else {
        1 + first_newline(s.drop_first())
    }
}

/// `line` without one carriage return at its end.
pub open spec fn strip_cr(line: Seq<char>) -> Seq<char> {
    if line.len() > 0 && line.last() == '\r' {
        line.drop_last()
    } else {
        line
    }
}

/// The lines of `s`. A line ends at a line feed; the line feed, and one
/// carriage return just before it, belong to no line. What follows the last
/// line feed is a line only if it is not empty, and keeps a carriage return
/// at its end.
pub open spec fn lines(s: Seq<char>) -> Seq<Seq<char>>
    decreases s.len(),
{
    if s.len() == 0 {
        Seq::empty()
    } else {
        let k = first_newline(s);
        if k < s.len() {
            seq![strip_cr(s.take(k as int))] + lines(s.skip(k as int + 1))
        } else {
            seq![s]
        }
    }
}

/// `first_newline` is the least position of a line feed.
pub proof fn lemma_first_newline(s: Seq<char>, k: int)
    requires
        0 <= k <= s.len(),
        forall|j: int| 0 <= j < k ==> s[j] != '\n',
        k == s.len() || s[k] == '\n',
    ensures
        first_newline(s) == k,
    decreases s.len(),
{
    if s.len() == 0 {
    } else if s[0] == '\n' {
    } else {
        let t = s.drop_first();
        assert forall|j: int| 0 <= j < k - 1 implies t[j] != '\n' by {
            assert(t[j] == s[j + 1]);
        }
        lemma_first_newline(t, k - 1);
    }
}

/// Splits `chars` into its lines.
pub fn split_lines(chars: &Vec<char>) -> (found: Vec<Vec<char>>)
    ensures
        rows(found@) == lines(chars@),
        total_chars(rows(found@)) <= chars.len(),
{
    let mut found: Vec<Vec<char>> = Vec::new();
    let mut piece: Vec<char> = Vec::new();
    let mut i: usize = 0;
    let ghost mut start: int = 0;
    assert(chars@.skip(0) == chars@);
    assert(rows(found@) == Seq::<Seq<char>>::empty());
    while i < chars.len()
        invariant
            0 <= start <= i <= chars.len(),
            piece@ == chars@.subrange(start, i as int),
            forall|j: int| start <= j < i ==> chars@[j] != '\n',
            lines(chars@) == rows(found@) + lines(chars@.skip(start)),
            total_chars(rows(found@)) <= start,
        decreases chars.len() - i,
    {
        let c = chars[i];
        if c == '\n' {
            let ghost rest = chars@.skip(start);
            let ghost old_rows = rows(found@);
            let ghost whole = piece@;
            proof {
                assert forall|j: int| 0 <= j < i - start implies rest[j] != '\n' by {
                    assert(rest[j] == chars@[start + j]);
                }
                lemma_first_newline(rest, i - start);
                assert(rest.take(i - start) == whole);
                assert(rest.skip(i - start + 1) == chars@.skip(i + 1));
            }
            let n = piece.len();
            if n > 0 && piece[n - 1] == '\r' {
                piece.pop();
                assert(piece@ == strip_cr(whole));
            }
            found.push(piece);
            piece = Vec::new();
            i += 1;
            proof {
                start = i as int;
                assert(rows(found@) == old_rows + seq![strip_cr(whole)]);
                assert(rows(found@).drop_last() == old_rows);
            }
        } else {
            piece.push(c);
            i += 1;
        }
    }
    if piece.len() > 0 {
        let ghost rest = chars@.skip(start);
        let ghost old_rows = rows(found@);
        proof {
            assert forall|j: int| 0 <= j < rest.len() implies rest[j] != '\n' by {
                assert(rest[j] == chars@[start + j]);
            }
            lemma_first_newline(rest, rest.len() as int);
            assert(piece@ == rest);
        }
        found.push(piece);
        proof {
            assert(rows(found@) == old_rows + seq![rest]);
            assert(rows(found@).drop_last() == old_rows);
        }
    } else {
        assert(chars@.skip(start).len() == 0);
        assert(rows(found@) + Seq::<Seq<char>>::empty() == rows(found@));
    }
    found
}

/// Counts the words of `parts[from..to]`.
pub fn count_range_words(parts: &Vec<Vec<char>>, from: usize, to: usize) -> (n: usize)
    requires
        from <= to <= parts.len(),
        total_chars(rows(parts@)) <= usize::MAX,
    ensures
        n == total_words(rows(parts@).subrange(from as int, to as int)),
{
    let mut n: usize = 0;
    let mut i: usize = from;
    while i < to
        invariant
            from <= i <= to <= parts.len(),
            total_chars(rows(parts@)) <= usize::MAX,
            n == total_words(rows(parts@).subrange(from as int, i as int)),
        decreases to - i,
    {
        let here = count_words(&parts[i]);
        proof {
            let next = rows(parts@).subrange(from as int, i as int + 1);
            assert(next.drop_last() == rows(parts@).subrange(from as int, i as int));
            assert(next.last() == parts@[i as int]@);
            lemma_range_words_bound(rows(parts@), from as int, i as int + 1);
        }
        n += here;
        i += 1;
    }
    n
}

// ---------------------------------------------------------------------------
// Pieces of white space
// ---------------------------------------------------------------------------

/// A stretch of a text of white space is white space.
pub proof fn lemma_white_stretch(s: Seq<char>, from: int, to: int)
    requires
        all_white(s),
        0 <= from <= to <= s.len(),
    ensures
        all_white(s.subrange(from, to)),
{
    assert forall|i: int| 0 <= i < to - from implies white_space(
        #[trigger] s.subrange(from, to)[i],
    ) by {
        assert(s.subrange(from, to)[i] == s[from + i]);
    }
}

/// Where `first_break` says a blank line starts, two line feeds stand.
pub proof fn lemma_first_break_found(s: Seq<char>)
    ensures
        first_break(s) <= s.len(),
        first_break(s) + 2 <= s.len() ==> break_at(s, first_break(s) as int),
    decreases s.len(),
{
    if s.len() >= 2 && !(s[0] == '\n' && s[1] == '\n') {
        lemma_first_break_found(s.drop_first());
        let k = first_break(s.drop_first()) as int;
        if k + 2 <= s.drop_first().len() {
            assert(s.drop_first()[k] == s[k + 1]);
            assert(s.drop_first()[k + 1] == s[k + 2]);
        }
    }
}

/// The paragraphs of a text of white space are white space, and where
/// there is more than one, the line feed is white space.
pub proof fn lemma_paragraphs_of_white(s: Seq<char>)
    requires
        all_white(s),
    ensures
        all_parts_white(paragraphs(s)),
        paragraphs(s).len() > 1 ==> white_space('\n'),
    decreases s.len(),
{
    let k = first_break(s) as int;
    lemma_first_break_found(s);
    if k + 2 <= s.len() {
        assert(white_space(s[k]));
        lemma_white_stretch(s, 0, k);
        lemma_white_stretch(s, k + 2, s.len() as int);
        assert(s.take(k) == s.subrange(0, k));
        assert(s.skip(k + 2) == s.subrange(k + 2, s.len() as int));
        lemma_paragraphs_of_white(s.skip(k + 2));
        let rest = paragraphs(s.skip(k + 2));
        assert forall|i: int| 0 <= i < paragraphs(s).len() implies all_white(
            #[trigger] paragraphs(s)[i],
        ) by {
            if i > 0 {
                assert(paragraphs(s)[i] == rest[i - 1]);
            }
        }
    }
}

/// Where `first_newline` says a line ends, a line feed stands.
pub proof fn lemma_first_newline_found(s: Seq<char>)
    ensures
        first_newline(s) <= s.len(),
        first_newline(s) < s.len() ==> s[first_newline(s) as int] == '\n',
    decreases s.len(),
{
    if s.len() > 0 && s[0] != '\n' {
        lemma_first_newline_found(s.drop_first());
        let k = first_newline(s.drop_first()) as int;
        if k < s.drop_first().len() {
            assert(s.drop_first()[k] == s[k + 1]);
        }
    }
}

/// The lines of a text of white space are white space, and where there is
/// more than one, the line feed is white space.
pub proof fn lemma_lines_of_white(s: Seq<char>)
    requires
        all_white(s),
    ensures
        all_parts_white(lines(s)),
        lines(s).len() > 1 ==> white_space('\n'),
    decreases s.len(),
{
    if s.len() > 0 {
        let k = first_newline(s) as int;
        lemma_first_newline_found(s);
        if k < s.len() {
            assert(white_space(s[k]));
            lemma_white_stretch(s, 0, k);
            lemma_white_stretch(s, k + 1, s.len() as int);
            assert(s.take(k) == s.subrange(0, k));
            assert(s.skip(k + 1) == s.subrange(k + 1, s.len() as int));
            let line = s.take(k);
            if line.len() > 0 {
                lemma_white_stretch(line, 0, line.len() - 1);
            }
            assert(all_white(strip_cr(line)));
            lemma_lines_of_white(s.skip(k + 1));
            let rest = lines(s.skip(k + 1));
            assert forall|i: int| 0 <= i < lines(s).len() implies all_white(
                #[trigger] lines(s)[i],
            ) by {
                if i > 0 {
                    assert(lines(s)[i] == rest[i - 1]);
                }
            }
        }
    }
}

// ---------------------------------------------------------------------------
// Comparing and searching
// ---------------------------------------------------------------------------

/// The text of `s` in lower case, as `str::to_lowercase` gives it.
pub uninterp spec fn lowercase(s: Seq<char>) -> Seq<char>;

/// `str::to_lowercase`. Not proved: it is the definition of the name. The
/// result depends on the text alone.
#[verifier::external_body]
pub(crate) fn to_lowercase(s: &str) -> (lower: String)
    ensures
        lower@ == lowercase(s@),
{
    s.to_lowercase()
}

/// Whether two texts are the same.
pub fn same_text(a: &str, b: &str) -> (same: bool)
    ensures
        same == (a@ == b@),
{
    let left = String::from_str(a);
    let right = String::from_str(b);
    left == right
}

/// Whether `part` stands in `s` at position `i`.
pub open spec fn occurs_at(s: Seq<char>, part: Seq<char>, i: int) -> bool {
    0 <= i && i + part.len() <= s.len() && s.subrange(i, i + part.len()) == part
}

/// Whether `part` stands somewhere in `s`.
pub open spec fn contains_text(s: Seq<char>, part: Seq<char>) -> bool {
    exists|i: int| occurs_at(s, part, i)
}

/// Whether `part` stands in `chars` at position `at`.
fn found_at(chars: &Vec<char>, part: &Vec<char>, at: usize) -> (found: bool)
    requires
        at + part.len() <= chars.len(),
    ensures
        found == occurs_at(chars@, part@, at as int),
{
    let mut k: usize = 0;
    while k < part.len()
        invariant
            k <= part.len(),
            at + part.len() <= chars.len(),
            chars@.subrange(at as int, at + k) == part@.take(k as int),
        decreases part.len() - k,
    {
        if chars[at + k] != part[k] {
            proof {
                let window = chars@.subrange(at as int, at + part.len());
                assert(window[k as int] != part@[k as int]);
            }
            return false;
        }
        proof {
            assert(chars@.subrange(at as int, at + k + 1) == chars@.subrange(
                at as int,
                at + k,
            ).push(chars@[at + k]));
            assert(part@.take(k + 1) == part@.take(k as int).push(part@[k as int]));
        }
        k += 1;
    }
    assert(part@.take(k as int) == part@);
    true
}

/// Whether `part` stands somewhere in `s`.
pub fn has_text(s: &str, part: &str) -> (found: bool)
    ensures
        found == contains_text(s@, part@),
{
    let chars = to_chars(s);
    let wanted = to_chars(part);
    if wanted.len() > chars.len() {
        return false;
    }
    let last = chars.len() - wanted.len();
    let mut i: usize = 0;
    while i < last
        invariant
            chars@ == s@,
            wanted@ == part@,
            last == chars.len() - wanted.len(),
            wanted.len() <= chars.len(),
            i <= last,
            forall|j: int| 0 <= j < i ==> !occurs_at(chars@, wanted@, j),
        decreases last - i,
    {
        if found_at(&chars, &wanted, i) {
            return true;
        }
        i += 1;
    }
    found_at(&chars, &wanted, last)
}

} // verus!
