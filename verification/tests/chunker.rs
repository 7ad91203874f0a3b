use silo::vault::DocumentChunker;

#[test]
fn chunk_text_cuts_overlapping_windows() {
    let chunker = DocumentChunker::new(3, 1);
    let chunks = chunker.chunk_text("a b c d e f g");
    assert_eq!(chunks, vec!["a b c", "c d e", "e f g", "g"]);
    let chunks = chunker.chunk_text("a b c d e");
    assert_eq!(chunks, vec!["a b c", "c d e", "e"]);
}

#[test]
fn chunk_text_last_windows_are_shorter() {
    let chunker = DocumentChunker::new(5, 2);
    let chunks = chunker.chunk_text("w0 w1 w2 w3 w4 w5 w6 w7 w8 w9");
    assert_eq!(
        chunks,
        vec!["w0 w1 w2 w3 w4", "w3 w4 w5 w6 w7", "w6 w7 w8 w9", "w9"]
    );
}

#[test]
fn chunk_text_goes_on_while_a_window_begins_before_the_end() {
    let chunker = DocumentChunker::new(10, 8);
    let chunks = chunker.chunk_text("0 1 2 3 4 5 6 7 8 9");
    assert_eq!(
        chunks,
        vec!["0 1 2 3 4 5 6 7 8 9", "2 3 4 5 6 7 8 9", "4 5 6 7 8 9", "6 7 8 9", "8 9"]
    );
    let chunker = DocumentChunker::new(3, 2);
    assert_eq!(chunker.chunk_text("a b c"), vec!["a b c", "b c", "c"]);
    let chunker = DocumentChunker::new(4, 0);
    assert_eq!(chunker.chunk_text("a b c d"), vec!["a b c d"]);
}

#[test]
fn chunk_text_without_overlap() {
    let chunker = DocumentChunker::new(2, 0);
    let chunks = chunker.chunk_text("a b c d e");
    assert_eq!(chunks, vec!["a b", "c d", "e"]);
}

#[test]
fn chunk_text_of_no_words_is_empty() {
    let chunker = DocumentChunker::new(3, 1);
    assert!(chunker.chunk_text("").is_empty());
    assert!(chunker.chunk_text(" \t\n\u{3000} ").is_empty());
}

#[test]
fn chunk_text_takes_any_white_space_between_words() {
    let chunker = DocumentChunker::new(5, 0);
    let chunks = chunker.chunk_text("  a\tb\nc\u{a0}d\u{2003}e  ");
    assert_eq!(chunks, vec!["a b c d e"]);
}

#[test]
fn chunk_text_windows_share_the_overlap() {
    let words: Vec<String> = (0..23).map(|i| format!("w{}", i)).collect();
    let text = words.join(" ");
    let chunker = DocumentChunker::new(6, 2);
    let chunks = chunker.chunk_text(&text);
    assert!(!chunks.is_empty());
    for (k, chunk) in chunks.iter().enumerate() {
        let tokens: Vec<&str> = chunk.split_whitespace().collect();
        assert!(!tokens.is_empty() && tokens.len() <= 6);
        if k > 0 {
            let before: Vec<&str> = chunks[k - 1].split_whitespace().collect();
            if tokens.len() == 6 {
                assert_eq!(before.len(), 6);
            }
            if before.len() == 6 {
                let shared = tokens.len().min(2);
                assert_eq!(&tokens[..shared], &before[4..4 + shared]);
            }
        }
    }
    assert_eq!(chunks.len(), 6);
    assert_eq!(chunks[4], "w16 w17 w18 w19 w20 w21");
    assert_eq!(chunks[5], "w20 w21 w22");
    let chunks = DocumentChunker::new(6, 2).chunk_text(&words[..21].join(" "));
    assert_eq!(chunks.len(), 6);
    assert_eq!(chunks[4], "w16 w17 w18 w19 w20");
    assert_eq!(chunks[5], "w20");
}

#[test]
fn default_chunker_takes_five_hundred_words() {
    let words: Vec<String> = (0..501).map(|i| format!("w{}", i)).collect();
    let text = words.join(" ");
    let chunks = DocumentChunker::default().chunk_text(&text);
    assert_eq!(chunks.len(), 2);
    assert_eq!(chunks[0].split_whitespace().count(), 500);
    let second: Vec<&str> = chunks[1].split_whitespace().collect();
    assert_eq!(second.len(), 51);
    assert_eq!(second[0], "w450");
    assert_eq!(second[50], "w500");
}

#[test]
fn paragraphs_are_gathered_into_one_chunk() {
    let chunker = DocumentChunker::new(500, 50);
    let chunks = chunker.chunk_by_paragraphs("one w\n\ntwo w\n\n\n\nthree");
    assert_eq!(chunks, vec!["one w\n\ntwo w\n\nthree"]);
}

#[test]
fn paragraphs_that_do_not_fit_start_a_new_chunk() {
    let chunker = DocumentChunker::new(3, 0);
    let chunks = chunker.chunk_by_paragraphs("a b\n\nc d\n\ne");
    assert_eq!(chunks, vec!["a b", "c d\n\ne"]);
}

#[test]
fn a_long_paragraph_stays_whole() {
    let chunker = DocumentChunker::new(2, 0);
    let chunks = chunker.chunk_by_paragraphs("a b c d");
    assert_eq!(chunks, vec!["a b c d"]);
    let chunks = chunker.chunk_by_paragraphs("x\n\na b c d\n\ny");
    assert_eq!(chunks, vec!["x", "a b c d", "y"]);
}

#[test]
fn chunks_of_paragraphs_are_trimmed() {
    let chunker = DocumentChunker::new(100, 0);
    let chunks = chunker.chunk_by_paragraphs(" a \n\n b ");
    assert_eq!(chunks, vec!["a \n\n b"]);
}

#[test]
fn paragraphs_of_white_space_are_dropped() {
    let chunker = DocumentChunker::new(100, 0);
    assert!(chunker.chunk_by_paragraphs("").is_empty());
    assert!(chunker.chunk_by_paragraphs(" \n\n\t\n\n  ").is_empty());
    let chunks = chunker.chunk_by_paragraphs("a\n\n   \n\nb");
    assert_eq!(chunks, vec!["a\n\nb"]);
}

#[test]
fn three_line_feeds_leave_one_with_the_next_paragraph() {
    let chunker = DocumentChunker::new(1, 0);
    let chunks = chunker.chunk_by_paragraphs("a\n\n\nb");
    assert_eq!(chunks, vec!["a", "b"]);
    let chunker = DocumentChunker::new(10, 0);
    let chunks = chunker.chunk_by_paragraphs("a\n\n\nb");
    assert_eq!(chunks, vec!["a\n\n\nb"]);
}

#[test]
fn a_chunk_size_of_zero_gives_one_chunk_for_each_paragraph() {
    let chunker = DocumentChunker::new(0, 0);
    let chunks = chunker.chunk_by_paragraphs("a b\n\nc");
    assert_eq!(chunks, vec!["a b", "c"]);
}
