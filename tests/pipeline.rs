use subtitle_translator::formatter::Formatter;
use subtitle_translator::handler::Handler;
use subtitle_translator::subtitle_combiner::{
    CombineInput, MergeMismatchWarning, SubtitleCombiner, SubtitleError,
};
use subtitle_translator::subtitle_extractor::{Entry, SubtitleExtractor};
use subtitle_translator::text_splitter::TextSplitter;
use subtitle_translator::translator::{Translator, TranslatorError};
use subtitle_translator::GROUP_SIZE;

fn strings(items: &[&str]) -> Vec<String> {
    items.iter().map(|s| s.to_string()).collect()
}

fn entry(start_ms: i64, end_ms: i64, line: &str) -> Entry {
    Entry { start_ms, end_ms, line: Some(line.to_string()) }
}

fn entries(n: usize) -> Vec<Entry> {
    (0..n).map(|i| entry(1000 * i as i64, 1000 * i as i64 + 500, &format!("line {}", i))).collect()
}

#[test]
fn matched_chunk_merges_both_lines() {
    let mut combiner = SubtitleCombiner::new();
    let input = CombineInput {
        combined_text: "one<T>two".to_string(),
        translated_text: "A<T>B".to_string(),
        time_info: strings(&["t1", "t2"]),
        number_info: strings(&["1", "2"]),
    };
    assert_eq!(combiner.combine(input), Ok(()));
    assert_eq!(combiner.get_content(), "1\nt1\nA\none\n\n2\nt2\nB\ntwo\n");
    assert_eq!(combiner.get_current_index(), 2);
    assert!(combiner.get_warnings().is_empty());
}

#[test]
fn mismatched_chunk_keeps_source_lines() {
    let mut combiner = SubtitleCombiner::new();
    let input = CombineInput {
        combined_text: "one<T>two".to_string(),
        translated_text: "A".to_string(),
        time_info: strings(&["t1", "t2"]),
        number_info: strings(&["1", "2"]),
    };
    assert_eq!(combiner.combine(input), Ok(()));
    assert_eq!(combiner.get_content(), "1\nt1\none\n\n2\nt2\ntwo\n");
    assert_eq!(combiner.get_current_index(), 2);
    assert_eq!(combiner.get_warnings(), &[MergeMismatchWarning { start: 0, end: 2 }]);
}

#[test]
fn merge_restores_line_breaks_and_trims_translation() {
    let mut combiner = SubtitleCombiner::new();
    let input = CombineInput {
        combined_text: "a<nl>b".to_string(),
        translated_text: "  X<nl>Y ".to_string(),
        time_info: strings(&["t1"]),
        number_info: strings(&["1"]),
    };
    assert_eq!(combiner.combine(input), Ok(()));
    assert_eq!(combiner.get_content(), "1\nt1\nX\nY\na\nb\n");
}

#[test]
fn merge_past_known_entries_fails_without_change() {
    let mut combiner = SubtitleCombiner::new().current_index(1);
    let input = CombineInput {
        combined_text: "one<T>two".to_string(),
        translated_text: "A<T>B".to_string(),
        time_info: strings(&["t1", "t2"]),
        number_info: strings(&["1", "2"]),
    };
    assert_eq!(combiner.combine(input), Err(SubtitleError::IndexOutOfRange(2)));
    assert_eq!(combiner.get_current_index(), 1);
    assert_eq!(combiner.get_content(), "");
}

#[test]
fn three_entries_in_groups_of_two() {
    let texts = strings(&["one", "two", "three"]);
    let splitter = TextSplitter::split_text_by(&texts, 2).unwrap();
    assert_eq!(splitter.split_result, strings(&["one<T>two", "three"]));
    let formatter = Formatter::format(0, &splitter.split_result).unwrap();
    assert_eq!(formatter.chunk_to_translate, "one<T>two");
    assert_eq!(formatter.tagged_text, "<TRANSLATE_THIS>one<T>two</TRANSLATE_THIS>three");
    let formatter = Formatter::format(1, &splitter.split_result).unwrap();
    assert_eq!(formatter.tagged_text, "one<T>two<TRANSLATE_THIS>three</TRANSLATE_THIS>");
}

#[test]
fn chunk_count_rounds_up() {
    for (n, expected) in [(1usize, 1usize), (20, 1), (21, 2), (45, 3), (60, 3)] {
        let texts: Vec<String> = (0..n).map(|i| format!("t{}", i)).collect();
        let splitter = TextSplitter::split_text(&texts).unwrap();
        assert_eq!(splitter.split_result.len(), expected);
        assert_eq!(splitter.split_result.len(), (n + GROUP_SIZE - 1) / GROUP_SIZE);
    }
}

#[test]
fn splitting_nothing_fails() {
    let texts: Vec<String> = Vec::new();
    assert!(matches!(TextSplitter::split_text(&texts), Err(SubtitleError::EmptyInput)));
}

#[test]
fn format_rejects_missing_chunk() {
    let chunks = strings(&["a", "b"]);
    assert!(matches!(Formatter::format(2, &chunks), Err(SubtitleError::IndexOutOfRange(2))));
}

#[test]
fn removing_markers_gives_the_document() {
    let chunks = strings(&["a<T>b", "c", "d<T>e"]);
    for i in 0..chunks.len() {
        let f = Formatter::format(i, &chunks).unwrap();
        let plain = f.tagged_text.replace("<TRANSLATE_THIS>", "").replace("</TRANSLATE_THIS>", "");
        assert_eq!(plain, chunks.join(""));
        assert_eq!(f.chunk_to_translate, chunks[i]);
    }
}

#[test]
fn answer_is_last_fenced_block() {
    let mut t = Translator::new();
    t.translated_result = "```x```".to_string() + "```y```";
    assert_eq!(t.format_translated_result().unwrap(), "y");
    t.translated_result = "round one\n``` \n A<T>B \n```\n".to_string();
    assert_eq!(t.format_translated_result().unwrap(), "A<T>B");
}

#[test]
fn answer_without_content_is_an_error() {
    let mut t = Translator::new();
    for raw in ["", "   \n\t", "abc", "A<T>B\nno fence here", "``````", "```  ```\n"] {
        t.translated_result = raw.to_string();
        assert!(matches!(t.format_translated_result(), Err(TranslatorError::NoTranslationFound)));
    }
}

#[test]
fn test_format_time_info() {
    let e = entry(94095, 96180, "x");
    assert_eq!(SubtitleExtractor::format_time_info(&e), "0:01:34.095 --> 0:01:36.180");
    let e = entry(-1500, 3_723_004, "x");
    assert_eq!(SubtitleExtractor::format_time_info(&e), "-0:00:01.500 --> 1:02:03.004");
}

#[test]
fn test_process_text_info() {
    let e = entry(0, 1, "Where in hell is\nyour so-called magician?");
    assert_eq!(
        SubtitleExtractor::process_text_info(&e),
        Some("Where in hell is<nl>your so-called magician?".to_string())
    );
    let none = Entry { start_ms: 0, end_ms: 1, line: None };
    assert_eq!(SubtitleExtractor::process_text_info(&none), None);
}

#[test]
fn extraction_gives_parallel_arrays() {
    let x = SubtitleExtractor::extractor(&entries(12)).unwrap();
    assert_eq!(x.number_info.len(), 12);
    assert_eq!(x.time_info.len(), 12);
    assert_eq!(x.text_info.len(), 12);
    assert_eq!(x.number_info[0], "1");
    assert_eq!(x.number_info[11], "12");
    assert_eq!(x.time_info[2], "0:00:02.000 --> 0:00:02.500");
    assert_eq!(x.text_info[3], "line 3");
}

#[test]
fn extraction_stops_at_missing_text() {
    let mut es = entries(3);
    es[1].line = None;
    es[2].line = None;
    assert!(matches!(SubtitleExtractor::extractor(&es), Err(SubtitleError::MissingText(1))));
}

#[test]
fn handler_refuses_empty_document() {
    assert!(matches!(Handler::new(&Vec::new()), Err(SubtitleError::EmptyInput)));
}

fn upper_translations(handler: &Handler) -> Vec<(String, String)> {
    (0..handler.chunk_count())
        .map(|i| {
            let f = handler.translation_request(i).unwrap();
            (f.chunk_to_translate.to_uppercase(), f.chunk_to_translate)
        })
        .collect()
}

#[test]
fn completion_order_does_not_change_the_document() {
    let es = entries(45);
    let mut sequential = Handler::new(&es).unwrap();
    assert_eq!(sequential.chunk_count(), 3);
    let pairs = upper_translations(&sequential);
    let mut seq_doc = String::new();
    for (translated, chunk) in pairs.clone() {
        seq_doc.push_str(&sequential.combine_chunk(Some(translated), chunk).unwrap());
    }
    assert_eq!(sequential.subtitle_combiner.get_current_index(), 45);

    for order in [[2usize, 0, 1], [1, 2, 0], [0, 1, 2]] {
        let mut concurrent = Handler::new(&es).unwrap();
        let results: Vec<(usize, Option<String>, String)> =
            order.iter().map(|&k| (k, Some(pairs[k].0.clone()), pairs[k].1.clone())).collect();
        let doc = concurrent.combine_translation_results(results).unwrap();
        assert_eq!(doc, seq_doc);
        assert_eq!(concurrent.subtitle_combiner.get_current_index(), 45);
    }
    assert!(seq_doc.starts_with("1\n0:00:00.000 --> 0:00:00.500\nLINE 0\nline 0\n\n2\n"));
}

#[test]
fn incomplete_results_are_refused() {
    let es = entries(45);
    let mut handler = Handler::new(&es).unwrap();
    let pairs = upper_translations(&handler);
    let twice: Vec<(usize, Option<String>, String)> =
        [0usize, 1, 1].iter().map(|&k| (k, Some(pairs[k].0.clone()), pairs[k].1.clone())).collect();
    assert_eq!(handler.combine_translation_results(twice), Err(SubtitleError::IncompleteResults));
    let short: Vec<(usize, Option<String>, String)> =
        [0usize, 1].iter().map(|&k| (k, Some(pairs[k].0.clone()), pairs[k].1.clone())).collect();
    assert_eq!(handler.combine_translation_results(short), Err(SubtitleError::IncompleteResults));
    let beyond = vec![(0, Some(pairs[0].0.clone()), pairs[0].1.clone()), (1, None, pairs[1].1.clone()), (3, None, String::new())];
    assert_eq!(handler.combine_translation_results(beyond), Err(SubtitleError::IncompleteResults));
    assert_eq!(handler.subtitle_combiner.get_current_index(), 0);
}

#[test]
fn cursor_reaches_entry_count_only_at_the_end() {
    let es = entries(41);
    let mut handler = Handler::new(&es).unwrap();
    let pairs = upper_translations(&handler);
    let mut seen = Vec::new();
    for (translated, chunk) in pairs {
        handler.combine_chunk(Some(translated), chunk).unwrap();
        seen.push(handler.subtitle_combiner.get_current_index());
    }
    assert_eq!(seen, vec![20, 40, 41]);
}

#[test]
fn untranslated_chunk_keeps_source_lines_and_is_flagged() {
    let mut combiner = SubtitleCombiner::new();
    let r = combiner.combine_untranslated("one<T>two<nl>more", &strings(&["t1", "t2"]), &strings(&["1", "2"]));
    assert_eq!(r, Ok(()));
    assert_eq!(combiner.get_content(), "1\nt1\none\n\n2\nt2\ntwo\nmore\n");
    assert_eq!(combiner.get_current_index(), 2);
    assert_eq!(combiner.get_warnings(), &[MergeMismatchWarning { start: 0, end: 2 }]);
    let r = combiner.combine_untranslated("three", &strings(&["t1", "t2"]), &strings(&["1", "2"]));
    assert_eq!(r, Err(SubtitleError::IndexOutOfRange(2)));
    assert_eq!(combiner.get_current_index(), 2);
}

#[test]
fn untranslated_chunk_in_a_concurrent_run() {
    let es = entries(45);
    let mut handler = Handler::new(&es).unwrap();
    let pairs = upper_translations(&handler);
    let results: Vec<(usize, Option<String>, String)> = vec![
        (2, Some(pairs[2].0.clone()), pairs[2].1.clone()),
        (0, Some(pairs[0].0.clone()), pairs[0].1.clone()),
        (1, None, pairs[1].1.clone()),
    ];
    let doc = handler.combine_translation_results(results).unwrap();
    assert_eq!(handler.subtitle_combiner.get_current_index(), 45);
    assert_eq!(handler.subtitle_combiner.get_warnings(), &[MergeMismatchWarning { start: 20, end: 40 }]);
    assert!(doc.contains("21\n0:00:20.000 --> 0:00:20.500\nline 20\n\n22\n"));
    assert!(doc.contains("LINE 40\nline 40\n"));
}

#[test]
fn chunk_entry_ranges() {
    let handler = Handler::new(&entries(45)).unwrap();
    assert_eq!(handler.entry_range(0), Some((0, 20)));
    assert_eq!(handler.entry_range(2), Some((40, 45)));
    assert_eq!(handler.entry_range(3), None);
}
