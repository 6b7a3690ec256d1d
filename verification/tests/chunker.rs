use brain::loaders::chunker::{Chunk, TextChunker};
use brain::loaders::TextChunker as ReexportedChunker;

fn contents(chunks: &[Chunk]) -> Vec<String> {
    chunks.iter().map(|c| c.content.clone()).collect()
}

fn numbered_from_zero(chunks: &[Chunk]) -> bool {
    chunks.iter().enumerate().all(|(i, c)| c.index == i)
}

fn words_of(chunk: &Chunk) -> Vec<String> {
    chunk.content.split(' ').map(|w| w.to_string()).collect()
}

#[test]
fn window_of_three_with_overlap_one() {
    let chunker = TextChunker::new(3, 1);
    let chunks = chunker.chunk("a b c d e f g");
    assert_eq!(contents(&chunks), vec!["a b c", "c d e", "e f g"]);
    assert!(numbered_from_zero(&chunks));
}

#[test]
fn window_last_chunk_may_be_short() {
    let chunker = TextChunker::new(4, 1);
    let chunks = chunker.chunk("w0 w1 w2 w3 w4 w5 w6 w7 w8");
    assert_eq!(contents(&chunks), vec!["w0 w1 w2 w3", "w3 w4 w5 w6", "w6 w7 w8"]);
    assert!(numbered_from_zero(&chunks));
}

#[test]
fn window_stops_when_it_reaches_the_end() {
    let chunker = TextChunker::new(4, 2);
    let chunks = chunker.chunk("0 1 2 3 4 5 6 7 8 9");
    assert_eq!(contents(&chunks), vec!["0 1 2 3", "2 3 4 5", "4 5 6 7", "6 7 8 9"]);
}

#[test]
fn window_without_overlap_partitions_the_words() {
    let chunker = TextChunker::new(2, 0);
    let chunks = chunker.chunk("a b c d e");
    assert_eq!(contents(&chunks), vec!["a b", "c d", "e"]);
}

#[test]
fn window_rejoined_gives_the_words_back() {
    let text = "the quick  brown\tfox jumps\nover the lazy dog and runs far away today";
    let expected: Vec<String> = text.split_whitespace().map(|w| w.to_string()).collect();
    for (size, overlap) in [(1usize, 0usize), (3, 1), (4, 3), (5, 2), (7, 0), (20, 19), (50, 10)] {
        let chunks = TextChunker::new(size, overlap).chunk(text);
        assert!(numbered_from_zero(&chunks));
        let mut rejoined: Vec<String> = Vec::new();
        for (k, chunk) in chunks.iter().enumerate() {
            let words = words_of(chunk);
            if k == 0 {
                rejoined.extend(words);
            } else {
                let previous = words_of(&chunks[k - 1]);
                assert_eq!(previous.len(), size);
                assert!(words.len() > overlap);
                assert_eq!(previous[size - overlap..], words[..overlap]);
                rejoined.extend(words[overlap..].iter().cloned());
            }
        }
        assert_eq!(rejoined, expected);
    }
}

#[test]
fn window_splits_on_every_kind_of_white_space() {
    let chunker = TextChunker::new(10, 0);
    let chunks = chunker.chunk("  one\ttwo\n\nthree\u{a0}four\u{3000}five\r\n");
    assert_eq!(contents(&chunks), vec!["one two three four five"]);
}

#[test]
fn window_that_holds_all_words_ignores_the_overlap() {
    let chunker = TextChunker::new(3, 7);
    let chunks = chunker.chunk("a b c");
    assert_eq!(contents(&chunks), vec!["a b c"]);
}

#[test]
fn try_chunk_refuses_a_window_that_cannot_advance() {
    assert!(TextChunker::new(3, 3).try_chunk("a b c d").is_none());
    assert!(TextChunker::new(3, 5).try_chunk("a b c d").is_none());
    assert!(TextChunker::new(0, 0).try_chunk("a").is_none());
    let all = TextChunker::new(3, 3).try_chunk("a b c").unwrap();
    assert_eq!(contents(&all), vec!["a b c"]);
    let ok = TextChunker::new(3, 2).try_chunk("a b c d").unwrap();
    assert_eq!(contents(&ok), vec!["a b c", "b c d"]);
}

#[test]
fn empty_text_gives_no_chunks() {
    let chunker = TextChunker::new(3, 1);
    assert!(chunker.chunk("").is_empty());
    assert!(chunker.chunk("  \n\t ").is_empty());
    assert!(TextChunker::new(0, 0).try_chunk("   ").unwrap().is_empty());
    assert!(chunker.chunk_by_paragraphs("").is_empty());
    assert!(chunker.chunk_by_paragraphs("   \n\n  ").is_empty());
    assert!(chunker.chunk_code("").is_empty());
    assert!(chunker.chunk_code("\n\n").is_empty());
    assert!(chunker.chunk_code("  \n\t\n").is_empty());
}

#[test]
fn reexported_chunker_is_the_chunker() {
    let chunks = ReexportedChunker::new(2, 1).chunk("x y z");
    assert_eq!(contents(&chunks), vec!["x y", "y z"]);
}

#[test]
fn paragraphs_are_grouped_up_to_the_limit() {
    let chunker = TextChunker::new(4, 0);
    let chunks = chunker.chunk_by_paragraphs("one two\n\nthree four five\n\nsix");
    assert_eq!(contents(&chunks), vec!["one two", "three four five\n\nsix"]);
    assert!(numbered_from_zero(&chunks));
}

#[test]
fn paragraph_larger_than_the_limit_stays_whole() {
    let chunker = TextChunker::new(2, 0);
    let chunks = chunker.chunk_by_paragraphs("a\n\nb c d e f\n\ng");
    assert_eq!(contents(&chunks), vec!["a", "b c d e f", "g"]);
}

#[test]
fn paragraphs_are_never_split() {
    let text = "p one\n\np two is longer\n\n\n\np three\n\n  \n\np four has five words\n\nlast";
    let paragraphs: Vec<&str> = text.split("\n\n").collect();
    for limit in [0usize, 1, 2, 3, 5, 8, 100] {
        let chunks = TextChunker::new(limit, 0).chunk_by_paragraphs(text);
        assert!(numbered_from_zero(&chunks));
        for paragraph in &paragraphs {
            let wanted = paragraph.trim();
            if wanted.is_empty() {
                continue;
            }
            let holders = chunks.iter().filter(|c| c.content.contains(wanted)).count();
            assert_eq!(holders, 1);
        }
        let words: usize = chunks.iter().map(|c| c.content.split_whitespace().count()).sum();
        assert_eq!(words, text.split_whitespace().count());
    }
}

#[test]
fn paragraph_chunks_are_trimmed() {
    let chunker = TextChunker::new(100, 0);
    let chunks = chunker.chunk_by_paragraphs("  \n a b  \n\n c \n\n");
    assert_eq!(contents(&chunks), vec!["a b  \n\n c"]);
}

#[test]
fn paragraph_break_takes_two_line_feeds_at_a_time() {
    let chunker = TextChunker::new(1, 0);
    let chunks = chunker.chunk_by_paragraphs("a\n\n\nb");
    assert_eq!(contents(&chunks), vec!["a", "b"]);
    let chunks = TextChunker::new(100, 0).chunk_by_paragraphs("a\n\n\nb");
    assert_eq!(contents(&chunks), vec!["a\n\n\nb"]);
    let chunks = TextChunker::new(100, 0).chunk_by_paragraphs("\n\nabc");
    assert_eq!(contents(&chunks), vec!["abc"]);
}

#[test]
fn paragraph_limit_is_reached_but_not_passed() {
    let chunker = TextChunker::new(3, 0);
    let chunks = chunker.chunk_by_paragraphs("a b\n\nc\n\nd");
    assert_eq!(contents(&chunks), vec!["a b\n\nc", "d"]);
}

#[test]
fn code_chunks_carry_five_lines() {
    let chunker = TextChunker::new(3, 0);
    let chunks = chunker.chunk_code("a\nb\nc\nd\ne\nf\ng\nh");
    assert_eq!(
        contents(&chunks),
        vec![
            "a\nb\nc",
            "a\nb\nc\nd",
            "a\nb\nc\nd\ne",
            "a\nb\nc\nd\ne\nf",
            "b\nc\nd\ne\nf\ng",
            "c\nd\ne\nf\ng\nh",
        ]
    );
    assert!(numbered_from_zero(&chunks));
}

#[test]
fn code_chunk_starts_with_the_tail_of_the_one_before() {
    let code = "fn main() {\n    let a = 1;\n    let b = 2;\n    let c = a + b;\n    println!(\"{}\", c);\n    if c > 2 {\n        return;\n    }\n    loop {}\n}\n";
    for limit in [1usize, 2, 4, 6, 9, 12] {
        let chunks = TextChunker::new(limit, 0).chunk_code(code);
        assert!(chunks.len() >= 2);
        for k in 1..chunks.len() {
            let previous: Vec<&str> = chunks[k - 1].content.split('\n').collect();
            let next: Vec<&str> = chunks[k].content.split('\n').collect();
            let carried = previous.len().min(5);
            assert!(next.len() > carried);
            assert_eq!(previous[previous.len() - carried..], next[..carried]);
        }
    }
}

#[test]
fn code_in_one_chunk_when_it_fits() {
    let chunker = TextChunker::new(100, 0);
    let chunks = chunker.chunk_code("let a = 1;\r\nlet b = 2;\r\n\r\nend\r");
    assert_eq!(contents(&chunks), vec!["let a = 1;\nlet b = 2;\n\nend\r"]);
}

#[test]
fn code_chunk_is_not_trimmed() {
    let chunker = TextChunker::new(100, 0);
    let chunks = chunker.chunk_code("\n  indented\n\n");
    assert_eq!(contents(&chunks), vec!["\n  indented\n"]);
}

#[test]
fn code_group_of_blank_lines_gives_no_chunk() {
    let chunker = TextChunker::new(1, 0);
    let chunks = chunker.chunk_code("a b\n \n \n \n \n \n\n\nc d");
    assert_eq!(
        contents(&chunks),
        vec![
            "a b",
            "a b\n ",
            "a b\n \n ",
            "a b\n \n \n ",
            "a b\n \n \n \n ",
            "a b\n \n \n \n \n ",
            " \n \n \n\n\nc d",
        ]
    );
    assert!(numbered_from_zero(&chunks));
}
