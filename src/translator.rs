//! Prompts for the translation service and the reading of its answer.
use vstd::prelude::*;
use crate::text::{chars_of, is_white, is_white_char, split_on, split_str, trim, trim_str};

verus! {

#[verifier::external_type_specification]
#[verifier::external_body]
pub struct ExTera(tera::Tera);

#[verifier::external_type_specification]
#[verifier::external_body]
pub struct ExContext(tera::Context);

#[verifier::external_type_specification]
#[verifier::external_body]
pub struct ExTeraError(tera::Error);

/// Marks the blocks of the service's answer.
pub const FENCE: &'static str = "```";

/// Template of the instruction that sets up the service.
pub const PROMPT_TEMPLATE: &'static str = "prompt.txt";

/// Template of the request for one chunk.
pub const USER_MESSAGE_TEMPLATE: &'static str = "user_message.txt";

/// Errors of a translation request.
#[derive(Debug)]
pub enum TranslatorError {
    /// A prompt template could not be rendered.
    TemplateError(tera::Error),
    /// The translation service failed.
    TranslationError(String),
    /// The answer holds no non-blank segment.
    NoTranslationFound,
}

/// Whether `s` holds whitespace only (or nothing).
pub open spec fn is_blank(s: Seq<char>) -> bool {
    forall|i: int| 0 <= i < s.len() ==> is_white(#[trigger] s[i])
}

/// The last of `parts` that is not blank.
pub open spec fn last_nonblank(parts: Seq<Seq<char>>) -> Option<Seq<char>>
    decreases parts.len(),
{
    if parts.len() == 0 {
        None
    } else if !is_blank(parts.last()) {
        Some(parts.last())
    } else {
        last_nonblank(parts.drop_last())
    }
}

/// The definitive translation in a raw answer: of the segments between fence
/// marks, the last one that is not blank, trimmed. An answer without any
/// fence mark holds no fenced block, hence no translation.
pub open spec fn fenced_answer(raw: Seq<char>) -> Option<Seq<char>> {
    let segments = split_on(raw, FENCE@);
    if segments.len() <= 1 {
        None
    } else {
        match last_nonblank(segments) {
            Some(s) => Some(trim(s)),
            None => None,
        }
    }
}

/// Whether `s` holds whitespace only.
pub fn is_blank_str(s: &str) -> (r: bool)
    ensures
        r == is_blank(s@),
{
    let v = chars_of(s);
    let mut i: usize = 0;
    while i < v.len()
        invariant
            i <= v.len(),
            v@ == s@,
            forall|k: int| 0 <= k < i ==> is_white(#[trigger] v@[k]),
        decreases v.len() - i,
    {
        if !is_white_char(v[i]) {
            return false;
        }
        i = i + 1;
    }
    true
}

/// Relies on `tera::Context::new`, which makes an empty context.
#[verifier::external_body]
fn new_context() -> (r: tera::Context) {
    tera::Context::new()
}

/// Relies on `tera::Context::insert`, which stores a value under a key; a
/// `&str` always serialises, so it does not panic.
#[verifier::external_body]
fn insert_text(context: &mut tera::Context, key: &str, value: &str) {
    context.insert(key, value)
}

/// Relies on `tera::Tera::render`, which renders the named template with the
/// values of the context, or fails.
#[verifier::external_body]
fn render_template(templates: &tera::Tera, name: &str, context: &tera::Context) -> (r: Result<
    String,
    tera::Error,
>) {
    templates.render(name, context)
}

/// Holds the raw answer of the translation service for one chunk.
#[derive(Debug)]
pub struct Translator {
    pub translated_result: String,
}

impl Translator {
    pub fn new() -> (r: Self)
        ensures
            r.translated_result@.len() == 0,
    {
        Translator { translated_result: String::new() }
    }

    /// Renders the request for one chunk: the tagged document and the chunk.
    pub fn format_user_message(
        &self,
        templates: &tera::Tera,
        source_language: &str,
        target_language: &str,
        tagged_text: String,
        chunk_to_translate: String,
    ) -> (r: Result<String, TranslatorError>)
        ensures
            r is Err ==> r->Err_0 is TemplateError,
    {
        let mut context = new_context();
        insert_text(&mut context, "source_language", source_language);
        insert_text(&mut context, "target_language", target_language);
        insert_text(&mut context, "tagged_text", tagged_text.as_str());
        insert_text(&mut context, "chunk_to_translate", chunk_to_translate.as_str());
        match render_template(templates, USER_MESSAGE_TEMPLATE, &context) {
            Ok(s) => Ok(s),
            Err(e) => Err(TranslatorError::TemplateError(e)),
        }
    }

    /// Renders the instruction that sets up the service for a language pair.
    pub fn format_prompt(&self, templates: &tera::Tera, source_language: &str, target_language: &str) -> (r: Result<String, TranslatorError>)
        ensures
            r is Err ==> r->Err_0 is TemplateError,
    {
        let mut context = new_context();
        insert_text(&mut context, "source_language", source_language);
        insert_text(&mut context, "target_language", target_language);
        match render_template(templates, PROMPT_TEMPLATE, &context) {
            Ok(s) => Ok(s),
            Err(e) => Err(TranslatorError::TemplateError(e)),
        }
    }

    /// The definitive translation in the raw answer: the last non-blank
    /// segment between fence marks, trimmed; an answer without a fence mark
    /// holds no translation.
    pub fn format_translated_result(&self) -> (r: Result<String, TranslatorError>)
        ensures
            match fenced_answer(self.translated_result@) {
                Some(s) => r is Ok && r->Ok_0@ == s,
                None => r is Err && r->Err_0 is NoTranslationFound,
            },
    {
        proof {
            reveal_strlit("```");
        }
        let parts = split_str(self.translated_result.as_str(), FENCE);
        let ghost all = parts.deep_view();
        if parts.len() <= 1 {
            return Err(TranslatorError::NoTranslationFound);
        }
        let mut k: usize = parts.len();
        assert(all.take(k as int) =~= all);
        while k > 0 && is_blank_str(parts[k - 1].as_str())
            invariant
                k <= parts.len(),
                all == parts.deep_view(),
                last_nonblank(all.take(k as int)) == last_nonblank(all),
            decreases k,
        {
            assert(all.take(k as int).drop_last() =~= all.take(k - 1));
            k = k - 1;
        }
        if k == 0 {
            Err(TranslatorError::NoTranslationFound)
        } else {
            assert(all.take(k as int).last() == all[k - 1]);
            Ok(trim_str(parts[k - 1].as_str()))
        }
    }
}

} // verus!
