use subtitle_translator::prompts::{create_system_prompt, create_task_prompt};
use subtitle_translator::subtitle_extractor::decimal_string;
use subtitle_translator::text::{join_strs, replace_str, split_str, trim_str};
use subtitle_translator::translator::{Translator, TranslatorError};
use subtitle_translator::utils::{
    check_translation_completion, is_glob_pattern, should_retry, MAX_ATTEMPTS, output_file_name, read_file_trim_bom,
    sort_and_extract_translations,
};

#[test]
fn split_and_join_follow_str() {
    assert_eq!(split_str("a<T>b<T>", "<T>"), vec!["a", "b", ""]);
    assert_eq!(split_str("", "<T>"), vec![""]);
    assert_eq!(split_str("aaa", "aa"), vec!["", "a"]);
    let parts: Vec<String> = vec!["x".into(), "".into(), "y".into()];
    assert_eq!(join_strs(&parts, "--"), "x----y");
    assert_eq!(replace_str("a\nb\n", "\n", "<nl>"), "a<nl>b<nl>");
    assert_eq!(trim_str(" \t x y \n\u{3000}"), "x y");
    assert_eq!(trim_str("   "), "");
}

#[test]
fn decimal_strings() {
    assert_eq!(decimal_string(0), "0");
    assert_eq!(decimal_string(7), "7");
    assert_eq!(decimal_string(120), "120");
}

#[test]
fn bom_is_dropped_once() {
    assert_eq!(read_file_trim_bom("\u{feff}1\n00:00"), "1\n00:00");
    assert_eq!(read_file_trim_bom("\u{feff}\u{feff}x"), "\u{feff}x");
    assert_eq!(read_file_trim_bom("plain"), "plain");
    assert_eq!(read_file_trim_bom(""), "");
}

#[test]
fn glob_patterns() {
    assert!(is_glob_pattern("*.srt"));
    assert!(is_glob_pattern("dir/a*.srt"));
    assert!(!is_glob_pattern("movie.srt"));
}

#[test]
fn output_names() {
    assert_eq!(output_file_name(Some("movie.en"), "zh_CN"), "movie.en_zh_CN.srt");
    assert_eq!(output_file_name(None, "ja"), "output_ja.srt");
}

#[test]
fn resume_steps() {
    assert_eq!(check_translation_completion(3, 0), (false, 1));
    assert_eq!(check_translation_completion(3, 2), (true, 3));
    assert_eq!(check_translation_completion(1, 0), (true, 1));
}

#[test]
fn translations_sorted_stably_by_index() {
    let mut v: Vec<(usize, String)> = vec![
        (2, "c".into()),
        (0, "a".into()),
        (1, "b".into()),
        (0, "a2".into()),
    ];
    let texts = sort_and_extract_translations(&mut v);
    assert_eq!(texts, vec!["a", "a2", "b", "c"]);
    assert_eq!(v[0], (0, "a".to_string()));
    assert_eq!(v[1], (0, "a2".to_string()));
    let mut empty: Vec<(usize, String)> = Vec::new();
    assert!(sort_and_extract_translations(&mut empty).is_empty());
}

#[test]
fn system_prompt_fills_both_languages() {
    let p = create_system_prompt("en".to_string(), "ja".to_string());
    assert!(p.contains("你是一位经验丰富的en和ja字幕翻译专家"));
    assert!(!p.contains("{source_language}"));
    assert!(!p.contains("{target_language}"));
    let odd = create_system_prompt("{target_language}".to_string(), "ja".to_string());
    assert!(odd.contains("你是一位经验丰富的{target_language}和ja字幕翻译专家"));
}

#[test]
fn task_prompt_holds_context_and_chunk() {
    let p = create_task_prompt(
        "en".to_string(),
        "zh_CN".to_string(),
        "TAGGED".to_string(),
        "CHUNK".to_string(),
    );
    assert!(p.contains("你的任务是将文本从en翻译成zh_CN"));
    let tagged_at = p.find("TAGGED").unwrap();
    let chunk_at = p.find("CHUNK").unwrap();
    assert!(tagged_at < chunk_at);
}

fn templates() -> tera::Tera {
    let mut t = tera::Tera::default();
    t.add_raw_template("prompt.txt", "from {{ source_language }} to {{ target_language }}").unwrap();
    t.add_raw_template(
        "user_message.txt",
        "{{ source_language }}>{{ target_language }}:{{ tagged_text }}|{{ chunk_to_translate }}",
    )
    .unwrap();
    t
}

#[test]
fn test_format_prompt() {
    let translator = Translator::new();
    let formatted_prompt = translator.format_prompt(&templates(), "en", "zh_CN");
    assert!(formatted_prompt.is_ok());
    assert_eq!(formatted_prompt.unwrap(), "from en to zh_CN");
}

#[test]
fn test_format_user_message() {
    let translator = Translator::new();
    let formatted_user_message = translator.format_user_message(
        &templates(),
        "en",
        "zh_CN",
        "a<TRANSLATE_THIS>b</TRANSLATE_THIS>".to_string(),
        "b".to_string(),
    );
    assert!(formatted_user_message.is_ok());
    assert!(!formatted_user_message.unwrap().is_empty());
}

#[test]
fn missing_template_is_a_template_error() {
    let translator = Translator::new();
    let r = translator.format_prompt(&tera::Tera::default(), "en", "ja");
    assert!(matches!(r, Err(TranslatorError::TemplateError(_))));
}

#[test]
fn retries_stop_at_the_limit() {
    assert!(should_retry(0, MAX_ATTEMPTS));
    assert!(should_retry(MAX_ATTEMPTS - 1, MAX_ATTEMPTS));
    assert!(!should_retry(MAX_ATTEMPTS, MAX_ATTEMPTS));
    assert!(!should_retry(1, 0));
}
