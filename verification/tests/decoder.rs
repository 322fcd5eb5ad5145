use open_flow::asr::decoder::{is_special_token, postprocess_tokens};
use open_flow::asr::decoder::{CTCDecoder, TokensDocument, TokensError};
use open_flow::asr::diagnostics::{shown_frames, top_classes, SHOWN_CLASSES};
use open_flow::asr::logits::{select_frames, Logits, OutputError, CONTROL_FRAMES};

fn logits(frames: usize, classes: usize, scores: Vec<f32>) -> Logits {
    assert_eq!(scores.len(), frames * classes);
    let rows = (0..frames)
        .map(|i| scores[i * classes..(i + 1) * classes].iter().map(|s| s.to_bits()).collect())
        .collect();
    Logits { rows, classes }
}

fn make_decoder(tokens: &[(&str, i32)]) -> CTCDecoder {
    let mapping = tokens.iter().map(|(t, id)| (t.to_string(), Some(*id as i64))).collect();
    CTCDecoder::from_document(TokensDocument::Mapping(mapping)).unwrap()
}

fn bits(scores: &[f32]) -> Vec<u32> {
    scores.iter().map(|s| s.to_bits()).collect()
}

#[test]
fn test_ctc_decode_simple() {
    let decoder = make_decoder(&[("<blank>", 0), ("a", 1), ("b", 2)]);
    // 5 frames, 3 classes (blank=0, a=1, b=2)
    let logits = logits(
        5,
        3,
        vec![
            1.0, 0.0, 0.0, // blank
            0.0, 1.0, 0.0, // a
            1.0, 0.0, 0.0, // blank
            0.0, 0.0, 1.0, // b
            1.0, 0.0, 0.0, // blank
        ],
    );
    assert_eq!(decoder.decode(&logits, false), "ab");
}

/// All blank -> empty string
#[test]
fn test_decode_all_blank_returns_empty() {
    let dec = make_decoder(&[("<blank>", 0), ("你", 1), ("好", 2)]);
    let logits = logits(
        4,
        3,
        vec![1.0f32, 0.0, 0.0, 1.0, 0.0, 0.0, 1.0, 0.0, 0.0, 1.0, 0.0, 0.0],
    );
    assert_eq!(dec.decode(&logits, false), "");
}

/// 0-frame logits -> empty string, no panic
#[test]
fn test_decode_empty_logits_no_panic() {
    let dec = make_decoder(&[("<blank>", 0), ("a", 1)]);
    let logits = logits(0, 2, vec![]);
    assert_eq!(dec.decode(&logits, false), "");
}

/// Special tokens (<|zh|> etc.) should not appear in results
#[test]
fn test_decode_special_tokens_filtered() {
    let dec = make_decoder(&[
        ("<blank>", 0),
        ("<|zh|>", 1),
        ("<|HAPPY|>", 2),
        ("你", 3),
        ("好", 4),
    ]);
    // Frame sequence: lang_tag, emotion_tag, 你, 好
    let logits = logits(
        4,
        5,
        vec![
            0.0f32, 1.0, 0.0, 0.0, 0.0, // <|zh|>
            0.0, 0.0, 1.0, 0.0, 0.0, // <|HAPPY|>
            0.0, 0.0, 0.0, 1.0, 0.0, // 你
            0.0, 0.0, 0.0, 0.0, 1.0, // 好
        ],
    );
    let result = dec.decode(&logits, false);
    assert!(
        !result.contains("<|"),
        "Special tokens should not appear in results, got: {:?}",
        result
    );
    assert!(
        result.contains("你") && result.contains("好"),
        "Normal CJK characters should appear in results, got: {:?}",
        result
    );
}

/// Consecutive identical tokens are collapsed (CTC rule)
#[test]
fn test_decode_consecutive_same_token_collapsed() {
    let dec = make_decoder(&[("<blank>", 0), ("a", 1)]);
    // a a a blank a -> "aa" (three consecutive a's collapse to 1, a after blank is new)
    let logits = logits(
        5,
        2,
        vec![
            0.0f32, 1.0, // a
            0.0, 1.0, // a
            0.0, 1.0, // a
            1.0, 0.0, // blank
            0.0, 1.0, // a
        ],
    );
    assert_eq!(dec.decode(&logits, false), "aa");
}

/// ▁ prefix correctly converted to space
#[test]
fn test_decode_triangle_space_prefix() {
    let dec = make_decoder(&[("<blank>", 0), ("▁hello", 1), ("▁world", 2)]);
    let logits = logits(2, 3, vec![0.0f32, 1.0, 0.0, 0.0, 0.0, 1.0]);
    assert_eq!(dec.decode(&logits, false), "hello world");
}

#[test]
fn special_tokens_in_any_case() {
    for s in ["", "<|zh|>", "<||>", "<|>", "<unk>", "<UNK>", "<s>", "</S>", "<Blank>", "<BLK>", "<space>"] {
        assert!(is_special_token(s), "{:?}", s);
    }
    for s in ["a", "<|zh", "zh|>", "<unk", "<pad>", "▁", " ", "<|", "|>"] {
        assert!(!is_special_token(s), "{:?}", s);
    }
    // The Kelvin sign is a capital of `k`.
    assert!(is_special_token("<un\u{212a}>"));
}

#[test]
fn tokens_read_as_single_spaced_text() {
    let read = |tokens: &[&str]| postprocess_tokens(tokens.iter().map(|t| t.to_string()).collect());
    assert_eq!(read(&[]), "");
    assert_eq!(read(&["▁", "▁a", "▁▁b", "c▁"]), "a bc");
    assert_eq!(read(&["▁a", "▁", "▁▁b"]), "a b");
    assert_eq!(read(&["a<space>b", "<spa", "ce>c"]), "a b c");
    assert_eq!(read(&["\u{3000}a\t\n", "b "]), "a b");
}

#[test]
fn decoded_text_reads_as_itself() {
    let read = |tokens: &[&str]| postprocess_tokens(tokens.iter().map(|t| t.to_string()).collect());
    for tokens in [
        vec!["▁a", "<space>b", " \u{2003}c"],
        vec!["<spa<space>ce>", "<<space>space>", "x"],
        vec!["<space><space>", "▁"],
        vec!["<spa▁ce>"],
    ] {
        let text = read(&tokens);
        assert!(!text.contains("<space>") && !text.contains('▁'));
        assert_eq!(read(&[&text]), text);
        assert_eq!(read(&[&tokens.concat()]), text);
    }
    assert_eq!(read(&["<spa<space>ce>"]), "<spa ce>");
}

#[test]
fn tokens_file_mapping() {
    let dec = CTCDecoder::from_tokens_file(
        r#"{"<blank>": 2, "a": 0, "b": 1, "x": "no id", "y": 1.5, "z": null}"#,
    )
    .unwrap();
    assert_eq!(dec.vocab_size(), 3);
    let logits = logits(3, 3, vec![1.0, 0.0, 0.0, 0.0, 0.0, 1.0, 0.0, 1.0, 0.0]);
    assert_eq!(dec.decode(&logits, false), "ab");
    assert_eq!(dec.token_name(2), "<blank>");
    assert_eq!(dec.token_name(7), "?");
    assert_eq!(dec.non_blank_frames(&logits), 2);
}

#[test]
fn tokens_file_listing() {
    let dec = CTCDecoder::from_tokens_file(r#"["<blk>", "a", 17, "b"]"#).unwrap();
    assert_eq!(dec.vocab_size(), 3);
    assert_eq!(dec.token_name(3), "b");
    assert_eq!(dec.token_name(2), "?");
    let logits = logits(2, 4, vec![0.0, 1.0, 0.0, 0.0, 0.0, 0.0, 0.0, 1.0]);
    assert_eq!(dec.decode(&logits, false), "ab");
}

#[test]
fn tokens_file_errors() {
    assert!(matches!(CTCDecoder::from_tokens_file("{"), Err(TokensError::InvalidJson(_))));
    for content in ["{}", "[]", "[1, 2]", "\"a\"", "3", "null", r#"{"a": "b"}"#] {
        assert!(
            matches!(CTCDecoder::from_tokens_file(content), Err(TokensError::NoTokens)),
            "{}",
            content
        );
    }
    assert!(matches!(
        CTCDecoder::from_document(TokensDocument::Other),
        Err(TokensError::NoTokens)
    ));
}

#[test]
fn ids_wrap_and_the_last_entry_counts() {
    // 2^32 + 1 keeps its low 32 bits.
    let dec = CTCDecoder::from_tokens_file(r#"{"a": 4294967297, "b": 1}"#).unwrap();
    assert_eq!(dec.vocab_size(), 2);
    assert_eq!(dec.token_name(1), "b");
    let dec = CTCDecoder::from_document(TokensDocument::Listing(vec![
        Some("a".to_string()),
        Some("a".to_string()),
    ]))
    .unwrap();
    assert_eq!(dec.vocab_size(), 1);
    assert_eq!(dec.token_name(0), "a");
    assert_eq!(dec.token_name(1), "a");
}

#[test]
fn blank_defaults_to_class_zero() {
    let dec = make_decoder(&[("a", 0), ("b", 1)]);
    let logits = logits(2, 2, vec![1.0, 0.0, 0.0, 1.0]);
    assert_eq!(dec.decode(&logits, false), "b");
}

#[test]
fn ties_and_missing_numbers() {
    let dec = make_decoder(&[("<blank>", 0), ("a", 1), ("b", 2)]);
    // The first of equal scores wins, and what is no number never does.
    assert_eq!(dec.decode(&logits(1, 3, vec![0.0, 1.0, 1.0]), false), "a");
    assert_eq!(dec.decode(&logits(1, 3, vec![f32::NAN, f32::NAN, -1.0]), false), "b");
    assert_eq!(dec.decode(&logits(1, 3, vec![-0.0, 0.0, f32::NAN]), false), "");
    // No score above negative infinity reads as class 0.
    let none = vec![f32::NEG_INFINITY, f32::NEG_INFINITY, f32::NAN];
    assert_eq!(dec.decode(&logits(1, 3, none), false), "");
}

#[test]
fn best_non_blank_reads_blank_frames() {
    let dec = make_decoder(&[("<blank>", 0), ("a", 1), ("b", 2)]);
    let frames = logits(2, 3, vec![1.0, 0.5, 0.0, 1.0, 0.0, 0.5]);
    assert_eq!(dec.decode(&frames, false), "");
    assert_eq!(dec.decode(&frames, true), "ab");
    // The second blank frame repeats the class before it and leaves the blank
    // behind, so that the third emits it again.
    let frames = logits(3, 3, vec![1.0, 0.5, 0.0, 1.0, 0.5, 0.0, 1.0, 0.5, 0.0]);
    assert_eq!(dec.decode(&frames, true), "aa");
}

#[test]
fn outer_blanks_change_nothing() {
    let dec = make_decoder(&[("<blank>", 0), ("a", 1), ("b", 2)]);
    let inner = vec![0.0, 1.0, 0.0, 0.0, 0.0, 1.0];
    let blank = vec![1.0, 0.0, 0.0];
    let led: Vec<f32> = blank.iter().chain(&inner).copied().collect();
    let ended: Vec<f32> = inner.iter().chain(&blank).copied().collect();
    assert_eq!(dec.decode(&logits(2, 3, inner), false), "ab");
    assert_eq!(dec.decode(&logits(3, 3, led), false), "ab");
    assert_eq!(dec.decode(&logits(3, 3, ended), false), "ab");
}

#[test]
fn a_class_without_a_token_separates() {
    let dec = make_decoder(&[("<blank>", 0), ("a", 1)]);
    let frames = logits(3, 3, vec![0.0, 1.0, 0.0, 0.0, 0.0, 1.0, 0.0, 1.0, 0.0]);
    assert_eq!(dec.decode(&frames, false), "aa");
}

#[test]
fn top_classes_by_score() {
    let frame = bits(&[0.5, -1.0, 2.0, 0.5, f32::NEG_INFINITY, 7.0, -0.0]);
    assert_eq!(top_classes(&frame, SHOWN_CLASSES), vec![5, 2, 0, 3, 6]);
    assert_eq!(top_classes(&frame, 0), Vec::<usize>::new());
    assert_eq!(top_classes(&frame, 99), vec![5, 2, 0, 3, 6, 1, 4]);
    assert_eq!(top_classes(&vec![], 5), Vec::<usize>::new());
    let mut with_nan = top_classes(&bits(&[f32::NAN, 1.0, f32::NAN]), 3);
    with_nan.sort();
    assert_eq!(with_nan, vec![0, 1, 2]);
}

#[test]
fn first_middle_and_last_frame_are_shown() {
    assert_eq!(shown_frames(&logits(0, 1, vec![])), Vec::<usize>::new());
    assert_eq!(shown_frames(&logits(1, 1, vec![0.0])), vec![0, 0, 0]);
    assert_eq!(shown_frames(&logits(5, 1, vec![0.0; 5])), vec![0, 2, 4]);
}

#[test]
fn control_frames_are_skipped() {
    assert_eq!(CONTROL_FRAMES, 4);
    let data: Vec<u32> = (0..14).collect();
    // Seven frames of two classes, of which six are vouched for.
    let (frames, lens) = select_frames(&vec![1, 7, 2], &data, Some(vec![6])).unwrap();
    assert_eq!(frames.rows, vec![vec![8, 9], vec![10, 11]]);
    assert_eq!(frames.classes, 2);
    assert_eq!(lens, vec![6]);
    // Without a reported length the second dimension counts, also where that is
    // the number of classes.
    let (frames, lens) = select_frames(&vec![1, 7, 2], &data, None).unwrap();
    assert_eq!(frames.rows, vec![vec![8, 9], vec![10, 11], vec![12, 13]]);
    assert_eq!(lens, vec![7]);
    let (frames, lens) = select_frames(&vec![7, 2], &data, None).unwrap();
    assert_eq!(frames.rows, vec![vec![0, 1], vec![2, 3]]);
    assert_eq!(lens, vec![2]);
}

#[test]
fn short_outputs_are_kept_whole() {
    let data: Vec<u32> = (0..8).collect();
    let (frames, _) = select_frames(&vec![1, 4, 2], &data, Some(vec![4])).unwrap();
    assert_eq!(frames.rows.len(), 4);
    // At least one frame is kept, and lengths beyond the output do no harm.
    let (frames, _) = select_frames(&vec![1, 4, 2], &data, Some(vec![0])).unwrap();
    assert_eq!(frames.rows, vec![vec![0, 1]]);
    let (frames, lens) = select_frames(&vec![1, 4, 2], &data, Some(vec![99, 1])).unwrap();
    assert_eq!(frames.rows.len(), 4);
    assert_eq!(lens, vec![99, 1]);
    let (frames, lens) = select_frames(&vec![1, 4, 2], &data, Some(vec![])).unwrap();
    assert_eq!(frames.rows.len(), 4);
    assert_eq!(lens, Vec::<i32>::new());
    // Of several items the first is read.
    let (frames, _) = select_frames(&vec![2, 2, 2], &data, Some(vec![2, 2])).unwrap();
    assert_eq!(frames.rows, vec![vec![0, 1], vec![2, 3]]);
}

#[test]
fn other_dimensions_are_refused() {
    let r = select_frames(&vec![1, 1, 1, 1], &vec![7], None);
    assert!(matches!(r, Err(OutputError::UnexpectedDimensions(4))));
}
