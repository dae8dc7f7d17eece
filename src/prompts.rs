//! The instruction and the request sent to the translation service.
use vstd::prelude::*;
use vstd::string::StringExecFns;
use crate::text::{join, join_strs, replace, replace_str, split_on, split_str};

verus! {

/// The instruction for the service, with `{source_language}` and
/// `{target_language}` standing for the language names.
pub const SYSTEM_PROMPT_TEMPLATE: &'static str = r#"
    # Role: 资深字幕翻译专家
    ## Background:
    你是一位经验丰富的{source_language}和{target_language}字幕翻译专家,精通{source_language}和{target_language}互译,尤其擅长将{source_language}字幕译成流畅易懂的{target_language}字幕。你曾多次带领团队完成大型商业电影的字幕翻译项目,所翻译的字幕广受好评。

    ## Attention:
    - 翻译过程中要始终坚持"信、达、雅"的原则,但"达"尤为重要
    - 翻译的字幕要符合{target_language}的表达习惯,通俗易懂,连贯流畅
    - 避免使用过于文绉绉的表达和晦涩难懂的典故引用 
    - 诗词歌词等内容需按原文换行和节奏分行,不破坏原排列格式  
    - 翻译对象是字幕，请进入整段文本的语境中对需要翻译的文本段进行翻译
    - <T>是标识每一帧字幕的标签,请严格按照<T>对文本的分割逐帧翻译，每一帧字幕末尾不要加 \n 回车标识，且第一帧字幕开头不需要加<T>标识

    ## Constraints:
    - 必须严格遵循四轮翻译流程:直译、意译、反思、提升
    - 译文要忠实原文,准确无误,不能遗漏或曲解原意
    - 最终译文使用Markdown的代码块呈现,但是不用输出markdown这个单词
    - <T>是标识每一帧字幕的标签,请严格按照<T>对文本的分割逐帧翻译，每一帧字幕末尾不要加 \n 回车标识，且第一帧字幕开头不需要加<T>标识

    ## Goals:
    - 通过四轮翻译流程,将{source_language}字幕译成高质量的{target_language}字幕
    - 翻译的字幕要准确传达原字幕意思,语言表达力求浅显易懂,朗朗上口  

    ## Workflow:
    1. 第一轮直译:严格按照<T>逐句翻译,不遗漏任何信息
    2. 第二轮意译:在直译的基础上用通俗流畅的{target_language}意译原文,逐句翻译,保留<T>标识标签
    3. 第三轮反思:仔细审视译文,分点列出一份建设性的批评和有用的建议清单以改进翻译，对每一句话提出建议，从以下四个角度展开
        (i) 准确性（纠正添加、误译、遗漏或未翻译的文本错误），
        (ii) 流畅性（应用{target_language}的语法、拼写和标点规则，并确保没有不必要的重复），
        (iii) 风格（确保翻译反映源文本的风格并考虑其文化背景），
        (iv) 术语（确保术语使用一致且反映源文本所在领域，注意确保使用{target_language}中的等效习语）
    4. 第四轮提升:严格遵循第三轮提出的建议对翻译修改,定稿出一个简洁畅达、符合大众观影习惯的字幕译文,保留<T>标识标签

    ## OutputFormat:
    - 每一轮前用【思考】说明该轮要点
    - 第一轮和第二轮翻译后用【翻译】呈现译文
    - 第三轮输出建议清单，分点列出，在每一点前用*xxx*标识这条建议对应的要点，如*风格*;建议前用【思考】说明该轮要点，建议后用【建议】呈现建议
    - 第四轮在\`\`\`代码块中展示最终{target_language}字幕文件内容，如\`\`\`xxx\`\`\`

    ## Suggestions:
    - 直译时力求忠实原文,但注意控制每帧字幕的字数,必要时进行精简压缩
    - 意译时在准确表达原意的基础上,用最朴实无华的{target_language}来表达
    - 反思环节重点关注译文是否符合{target_language}表达习惯,是否通俗易懂,是否准确流畅,是否术语一致
    - 提升环节采用反思环节的建议对意译环节的翻译进行修改，适度采用一些口语化的表达、网络流行语等,增强字幕的亲和力
    - 注意<T>是很重要的标识标签，请确保标签能在正确位置输出"#;

pub const SOURCE_LANGUAGE_SLOT: &'static str = "{source_language}";

pub const TARGET_LANGUAGE_SLOT: &'static str = "{target_language}";

/// The instruction for a language pair: the template with each slot filled,
/// what a language name holds being left as it is.
pub open spec fn system_prompt(source_language: Seq<char>, target_language: Seq<char>) -> Seq<char> {
    join(filled_parts(split_on(SYSTEM_PROMPT_TEMPLATE@, SOURCE_LANGUAGE_SLOT@), target_language), source_language)
}

/// Each part with its target-language slots filled.
pub open spec fn filled_parts(parts: Seq<Seq<char>>, target_language: Seq<char>) -> Seq<Seq<char>> {
    parts.map_values(|p: Seq<char>| replace(p, TARGET_LANGUAGE_SLOT@, target_language))
}

/// Opening of the request, up to the source language.
pub const TASK_PROMPT_HEAD: &'static str = r#"
    你的任务是将文本从"#;

/// Between the source and the target language.
pub const TASK_PROMPT_AFTER_SOURCE: &'static str = r#"翻译成"#;

/// Between the target language and the tagged document.
pub const TASK_PROMPT_AFTER_TARGET: &'static str = r#"

    源文本如下,由XML标签<SOURCE_TEXT>和</SOURCE_TEXT>分隔:

    <SOURCE_TEXT>

    "#;

/// Between the tagged document and the chunk.
pub const TASK_PROMPT_AFTER_CONTEXT: &'static str = r#"

    </SOURCE_TEXT>

    仅翻译源文本中由<TRANSLATE_THIS>和</TRANSLATE_THIS>分隔的部分,将其余的源文本作为上下文

    重申一下,你应该只翻译文本的这一部分,这里再次显示在<TRANSLATE_THIS>和</TRANSLATE_THIS>之间:

    <TRANSLATE_THIS>

    "#;

/// End of the request.
pub const TASK_PROMPT_TAIL: &'static str = r#"

    </TRANSLATE_THIS>
    "#;

/// The request for one chunk: the fixed text with the languages, the tagged
/// document and the chunk in their places.
pub open spec fn task_prompt(
    source_language: Seq<char>,
    target_language: Seq<char>,
    tagged_text: Seq<char>,
    chunk_to_translate: Seq<char>,
) -> Seq<char> {
    TASK_PROMPT_HEAD@ + source_language + TASK_PROMPT_AFTER_SOURCE@ + target_language
        + TASK_PROMPT_AFTER_TARGET@ + tagged_text + TASK_PROMPT_AFTER_CONTEXT@ + chunk_to_translate
        + TASK_PROMPT_TAIL@
}

/// The instruction that sets up the service for a language pair.
pub fn create_system_prompt(source_language: String, target_language: String) -> (r: String)
    ensures
        r@ == system_prompt(source_language@, target_language@),
{
    proof {
        reveal_strlit("{source_language}");
        reveal_strlit("{target_language}");
    }
    let parts = split_str(SYSTEM_PROMPT_TEMPLATE, SOURCE_LANGUAGE_SLOT);
    let mut filled: Vec<String> = Vec::new();
    let mut i: usize = 0;
    while i < parts.len()
        invariant
            i <= parts@.len(),
            TARGET_LANGUAGE_SLOT@.len() > 0,
            filled.deep_view() == filled_parts(parts.deep_view().take(i as int), target_language@),
        decreases parts.len() - i,
    {
        let ghost before = filled.deep_view();
        let f = replace_str(parts[i].as_str(), TARGET_LANGUAGE_SLOT, target_language.as_str());
        assert(parts@[i as int]@ == parts.deep_view()[i as int]);
        filled.push(f);
        assert(filled.deep_view() =~= before.push(f@));
        assert(filled.deep_view() =~= filled_parts(parts.deep_view().take(i + 1), target_language@));
        i = i + 1;
    }
    assert(parts.deep_view().take(i as int) =~= parts.deep_view());
    join_strs(filled.as_slice(), source_language.as_str())
}

/// The request for one chunk, with the whole tagged document as context.
pub fn create_task_prompt(
    source_language: String,
    target_language: String,
    tagged_text: String,
    chunk_to_translate: String,
) -> (r: String)
    ensures
        r@ == task_prompt(source_language@, target_language@, tagged_text@, chunk_to_translate@),
{
    let mut s = String::from_str(TASK_PROMPT_HEAD);
    s.append(source_language.as_str());
    s.append(TASK_PROMPT_AFTER_SOURCE);
    s.append(target_language.as_str());
    s.append(TASK_PROMPT_AFTER_TARGET);
    s.append(tagged_text.as_str());
    s.append(TASK_PROMPT_AFTER_CONTEXT);
    s.append(chunk_to_translate.as_str());
    s.append(TASK_PROMPT_TAIL);
    s
}

} // verus!
