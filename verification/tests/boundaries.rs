//! Byte-boundary and segmentation behaviour of the text utilities.

use udv_qna_bot::text::{chunk_answer, find_nex_char_boundary, truncate_answer, ANSWER_CHUNK_SIZE};

#[test]
fn test_find_boundary() {
    let s = "some string";
    assert_eq!(find_nex_char_boundary(3, s), 3)
}

#[test]
fn test_find_boundary_cyrillic() {
    let s = "немного текста";
    assert_eq!(find_nex_char_boundary(3, s), 4)
}

#[test]
fn test_find_boundary_end_of_text() {
    let s = "short";
    assert_eq!(find_nex_char_boundary(10, s), 10)
}

#[test]
fn find_boundary_at_start_and_end() {
    let s = "немного";
    assert_eq!(find_nex_char_boundary(0, s), 0);
    assert_eq!(find_nex_char_boundary(s.len(), s), s.len());
    assert_eq!(find_nex_char_boundary(1, s), 2);
}

#[test]
fn chunking_ascii_5000_gives_exact_segments() {
    let answer: String = std::iter::repeat('a').take(5000).collect();
    let chunks = chunk_answer(&answer, ANSWER_CHUNK_SIZE);
    let lens: Vec<usize> = chunks.iter().map(|c| c.len()).collect();
    assert_eq!(lens, vec![2048, 2048, 904]);
    assert_eq!(chunks.concat(), answer);
}

#[test]
fn chunking_shifts_boundary_off_a_two_byte_char() {
    let mut answer: String = std::iter::repeat('a').take(2047).collect();
    answer.push('é');
    for _ in 0..100 {
        answer.push('b');
    }
    let chunks = chunk_answer(&answer, ANSWER_CHUNK_SIZE);
    let lens: Vec<usize> = chunks.iter().map(|c| c.len()).collect();
    assert_eq!(lens, vec![2049, 100]);
    assert!(chunks[0].ends_with('é'));
    assert_eq!(chunks.concat(), answer);
}

#[test]
fn chunking_short_answer_is_one_segment() {
    let chunks = chunk_answer("hello", ANSWER_CHUNK_SIZE);
    assert_eq!(chunks, vec!["hello".to_string()]);
}

#[test]
fn chunking_empty_answer_sends_nothing() {
    let chunks = chunk_answer("", ANSWER_CHUNK_SIZE);
    assert!(chunks.is_empty());
}

#[test]
fn truncation_leaves_short_answers_alone() {
    assert_eq!(truncate_answer("short answer"), "short answer");
}

#[test]
fn truncation_cuts_long_answers_at_a_boundary() {
    let long = "abcdefghijklmnopqrstuvwxyz0123456789";
    assert_eq!(truncate_answer(long), "abcdefghijklmnopqrstuvwxy ...");
    let cyrillic = "ααααααααααααααααα";
    let trunk = truncate_answer(cyrillic);
    assert!(trunk.ends_with(" ..."));
    assert_eq!(&trunk[..trunk.len() - 4], "ααααααααααααα");
}
