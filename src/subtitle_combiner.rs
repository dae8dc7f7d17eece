//! The cursor-tracked merger: recombines translated chunks with the
//! identifiers and time ranges of their entries.
use vstd::prelude::*;
use crate::text::{join, join_strs, replace, replace_str, split_on, split_str, trim, trim_str};
use crate::{DELIMITER, NEWLINE_MARK};

verus! {

/// Errors of the pipeline.
#[derive(Debug, Clone, Copy, PartialEq, Eq, Structural)]
pub enum SubtitleError {
    /// The entry at this index has no text.
    MissingText(usize),
    /// There are no texts to group into chunks.
    EmptyInput,
    /// This entry or chunk position lies past the end of what is known.
    IndexOutOfRange(usize),
    /// The translated chunks do not hold every chunk index exactly once.
    IncompleteResults,
}

/// A chunk whose translation had another number of lines than its source:
/// entries `start..end` were kept untranslated and want a manual look.
#[derive(Debug, Clone, Copy, PartialEq, Eq, Structural)]
pub struct MergeMismatchWarning {
    pub start: usize,
    pub end: usize,
}

/// What one merge step consumes.
#[derive(Debug)]
pub struct CombineInput {
    /// The source chunk, entries joined with the delimiter.
    pub combined_text: String,
    /// Its translation, lines joined with the delimiter.
    pub translated_text: String,
    /// Time range of every entry of the document.
    pub time_info: Vec<String>,
    /// Identifier of every entry of the document.
    pub number_info: Vec<String>,
}

/// An entry's text with the line-break mark turned back into line breaks.
pub open spec fn restore(s: Seq<char>) -> Seq<char> {
    replace(s, NEWLINE_MARK@, "\n"@)
}

/// The output lines of the `j`-th entry of a chunk whose first entry is `c`:
/// identifier, time range, translated line (only when the line counts agree),
/// source line, and a blank separator.
pub open spec fn entry_lines(
    src: Seq<Seq<char>>,
    tr: Seq<Seq<char>>,
    ids: Seq<Seq<char>>,
    times: Seq<Seq<char>>,
    c: int,
    j: int,
) -> Seq<Seq<char>> {
    if src.len() == tr.len() {
        seq![ids[c + j], times[c + j], trim(restore(tr[j])), restore(src[j]), Seq::empty()]
    } else {
        seq![ids[c + j], times[c + j], restore(src[j]), Seq::empty()]
    }
}

/// The output lines of the first `n` entries of a chunk.
pub open spec fn merged_lines(
    src: Seq<Seq<char>>,
    tr: Seq<Seq<char>>,
    ids: Seq<Seq<char>>,
    times: Seq<Seq<char>>,
    c: int,
    n: int,
) -> Seq<Seq<char>>
    decreases n,
{
    if n <= 0 {
        Seq::empty()
    } else {
        merged_lines(src, tr, ids, times, c, n - 1) + entry_lines(src, tr, ids, times, c, n - 1)
    }
}

/// The output block of a source chunk and its translation, the chunk's first
/// entry being entry `c` of the document.
pub open spec fn merged_block(
    chunk: Seq<char>,
    translated: Seq<char>,
    ids: Seq<Seq<char>>,
    times: Seq<Seq<char>>,
    c: int,
) -> Seq<char> {
    let src = split_on(chunk, DELIMITER@);
    let tr = split_on(translated, DELIMITER@);
    join(merged_lines(src, tr, ids, times, c, src.len() as int), "\n"@)
}

/// The output block of a source chunk left untranslated: each entry with its
/// source line only.
pub open spec fn untranslated_block(
    chunk: Seq<char>,
    ids: Seq<Seq<char>>,
    times: Seq<Seq<char>>,
    c: int,
) -> Seq<char> {
    let src = split_on(chunk, DELIMITER@);
    join(merged_lines(src, Seq::empty(), ids, times, c, src.len() as int), "\n"@)
}

/// The block of a chunk with its translation, or untranslated (`None`).
pub open spec fn chunk_block(
    chunk: Seq<char>,
    translated: Option<Seq<char>>,
    ids: Seq<Seq<char>>,
    times: Seq<Seq<char>>,
    c: int,
) -> Seq<char> {
    match translated {
        Some(t) => merged_block(chunk, t, ids, times, c),
        None => untranslated_block(chunk, ids, times, c),
    }
}

/// Whether a chunk is merged with its translation, so that no warning is due.
pub open spec fn chunk_matches(chunk: Seq<char>, translated: Option<Seq<char>>) -> bool {
    match translated {
        Some(t) => lines_match(chunk, t),
        None => false,
    }
}

/// Splitting gives at least one piece.
pub proof fn lemma_split_nonempty(s: Seq<char>, d: Seq<char>)
    ensures
        split_on(s, d).len() >= 1,
{
}

/// Number of entries in a source chunk.
pub open spec fn entry_count(chunk: Seq<char>) -> nat {
    split_on(chunk, DELIMITER@).len()
}

/// Whether the translation has as many lines as the source chunk.
pub open spec fn lines_match(chunk: Seq<char>, translated: Seq<char>) -> bool {
    split_on(chunk, DELIMITER@).len() == split_on(translated, DELIMITER@).len()
}

/// The error of a merge at cursor `c` that runs past `m` known entries.
pub open spec fn out_of_range_at(c: int, m: int) -> SubtitleError {
    SubtitleError::IndexOutOfRange(if c >= m { c as usize } else { m as usize })
}

/// Merges translated chunks, in order, into output records; the cursor counts
/// the source entries merged so far.
#[derive(Debug)]
pub struct SubtitleCombiner {
    srt_content: String,
    current_index: usize,
    warnings: Vec<MergeMismatchWarning>,
}

impl SubtitleCombiner {
    /// The block written by the last merge.
    pub closed spec fn content(&self) -> Seq<char> {
        self.srt_content@
    }

    /// How many source entries have been merged.
    pub closed spec fn cursor(&self) -> nat {
        self.current_index as nat
    }

    /// The mismatches recorded so far, oldest first.
    pub closed spec fn warnings(&self) -> Seq<MergeMismatchWarning> {
        self.warnings@
    }

    pub fn new() -> (r: Self)
        ensures
            r.content().len() == 0,
            r.cursor() == 0,
            r.warnings().len() == 0,
    {
        SubtitleCombiner { srt_content: String::new(), current_index: 0, warnings: Vec::new() }
    }

    /// The same merger, its cursor set to `value` (to resume a run).
    pub fn current_index(self, value: usize) -> (r: Self)
        ensures
            r.cursor() == value,
            r.content() == self.content(),
            r.warnings() == self.warnings(),
    {
        let mut s = self;
        s.current_index = value;
        s
    }

    pub fn get_current_index(&self) -> (r: usize)
        ensures
            r == self.cursor(),
    {
        self.current_index
    }

    pub fn get_content(&self) -> (r: &str)
        ensures
            r@ == self.content(),
    {
        self.srt_content.as_str()
    }

    pub fn get_warnings(&self) -> (r: &[MergeMismatchWarning])
        ensures
            r@ == self.warnings(),
    {
        self.warnings.as_slice()
    }

    /// Merges one translated chunk at the cursor.
    ///
    /// Each source entry of the chunk gets a record. When the translation has
    /// as many lines as the source, the record holds both; otherwise only the
    /// source line, and a mismatch warning covers the chunk's entries. The
    /// cursor advances by the number of source entries either way. When the
    /// chunk runs past the known identifiers or time ranges, nothing changes
    /// and the error names the first missing position.
    pub fn combine(&mut self, input: CombineInput) -> (r: Result<(), SubtitleError>)
        ensures
            ({
                let c = old(self).cursor() as int;
                let n = entry_count(input.combined_text@) as int;
                let ids = input.number_info.deep_view();
                let times = input.time_info.deep_view();
                let m = if ids.len() <= times.len() { ids.len() as int } else { times.len() as int };
                match r {
                    Ok(()) => {
                        &&& c + n <= m
                        &&& final(self).cursor() == c + n
                        &&& final(self).content() == merged_block(
                            input.combined_text@,
                            input.translated_text@,
                            ids,
                            times,
                            c,
                        )
                        &&& final(self).warnings() == if lines_match(
                            input.combined_text@,
                            input.translated_text@,
                        ) {
                            old(self).warnings()
                        } else {
                            old(self).warnings().push(
                                MergeMismatchWarning { start: c as usize, end: (c + n) as usize },
                            )
                        }
                    },
                    Err(e) => {
                        &&& c + n > m
                        &&& e == out_of_range_at(c, m)
                        &&& *final(self) == *old(self)
                    },
                }
            }),
    {
        proof {
            reveal_strlit("<T>");
        }
        let src_parts = split_str(input.combined_text.as_str(), DELIMITER);
        let tr_parts = split_str(input.translated_text.as_str(), DELIMITER);
        self.merge_parts(&src_parts, &tr_parts, &input.time_info, &input.number_info)
    }

    /// Merges a chunk without translation at the cursor: each source entry gets
    /// a record with its source line only, and a warning covers the chunk's
    /// entries for manual follow-up. Fails as `combine` does.
    pub fn combine_untranslated(
        &mut self,
        combined_text: &str,
        time_info: &Vec<String>,
        number_info: &Vec<String>,
    ) -> (r: Result<(), SubtitleError>)
        ensures
            ({
                let c = old(self).cursor() as int;
                let n = entry_count(combined_text@) as int;
                let ids = number_info.deep_view();
                let times = time_info.deep_view();
                let m = if ids.len() <= times.len() { ids.len() as int } else { times.len() as int };
                match r {
                    Ok(()) => {
                        &&& c + n <= m
                        &&& final(self).cursor() == c + n
                        &&& final(self).content() == untranslated_block(combined_text@, ids, times, c)
                        &&& final(self).warnings() == old(self).warnings().push(
                            MergeMismatchWarning { start: c as usize, end: (c + n) as usize },
                        )
                    },
                    Err(e) => {
                        &&& c + n > m
                        &&& e == out_of_range_at(c, m)
                        &&& *final(self) == *old(self)
                    },
                }
            }),
    {
        proof {
            reveal_strlit("<T>");
        }
        let src_parts = split_str(combined_text, DELIMITER);
        proof {
            lemma_split_nonempty(combined_text@, DELIMITER@);
        }
        let tr_parts: Vec<String> = Vec::new();
        assert(tr_parts.deep_view() =~= Seq::<Seq<char>>::empty());
        self.merge_parts(&src_parts, &tr_parts, time_info, number_info)
    }

    /// Writes the records of source lines `src_parts` with their translations
    /// `tr_parts` (used only when the counts agree) at the cursor.
    fn merge_parts(
        &mut self,
        src_parts: &Vec<String>,
        tr_parts: &Vec<String>,
        time_info: &Vec<String>,
        number_info: &Vec<String>,
    ) -> (r: Result<(), SubtitleError>)
        ensures
            ({
                let c = old(self).cursor() as int;
                let src = src_parts.deep_view();
                let tr = tr_parts.deep_view();
                let n = src.len() as int;
                let ids = number_info.deep_view();
                let times = time_info.deep_view();
                let m = if ids.len() <= times.len() { ids.len() as int } else { times.len() as int };
                match r {
                    Ok(()) => {
                        &&& c + n <= m
                        &&& final(self).cursor() == c + n
                        &&& final(self).content() == join(merged_lines(src, tr, ids, times, c, n), "\n"@)
                        &&& final(self).warnings() == if src.len() == tr.len() {
                            old(self).warnings()
                        } else {
                            old(self).warnings().push(
                                MergeMismatchWarning { start: c as usize, end: (c + n) as usize },
                            )
                        }
                    },
                    Err(e) => {
                        &&& c + n > m
                        &&& e == out_of_range_at(c, m)
                        &&& *final(self) == *old(self)
                    },
                }
            }),
    {
        proof {
            reveal_strlit("<nl>");
        }
        let ghost src = src_parts.deep_view();
        let ghost tr = tr_parts.deep_view();
        let ghost ids = number_info.deep_view();
        let ghost times = time_info.deep_view();
        let m = if number_info.len() <= time_info.len() {
            number_info.len()
        } else {
            time_info.len()
        };
        let c = self.current_index;
        if c > m || src_parts.len() > m - c {
            return Err(SubtitleError::IndexOutOfRange(if c >= m { c } else { m }));
        }
        let matched = src_parts.len() == tr_parts.len();
        let mut lines: Vec<String> = Vec::new();
        let mut j: usize = 0;
        while j < src_parts.len()
            invariant
                c + src_parts.len() <= m,
                m <= number_info.len(),
                m <= time_info.len(),
                src == src_parts.deep_view(),
                tr == tr_parts.deep_view(),
                ids == number_info.deep_view(),
                times == time_info.deep_view(),
                matched == (src.len() == tr.len()),
                NEWLINE_MARK@.len() == 4,
                j <= src_parts.len(),
                lines.deep_view() == merged_lines(src, tr, ids, times, c as int, j as int),
            decreases src_parts.len() - j,
        {
            let ghost before = lines.deep_view();
            lines.push(number_info[c + j].clone());
            lines.push(time_info[c + j].clone());
            if matched {
                let restored = replace_str(tr_parts[j].as_str(), NEWLINE_MARK, "\n");
                lines.push(trim_str(restored.as_str()));
            }
            lines.push(replace_str(src_parts[j].as_str(), NEWLINE_MARK, "\n"));
            lines.push(String::new());
            assert(lines.deep_view() =~= before + entry_lines(src, tr, ids, times, c as int, j as int));
            j = j + 1;
        }
        self.srt_content = join_strs(lines.as_slice(), "\n");
        self.current_index = c + src_parts.len();
        if !matched {
            self.warnings.push(MergeMismatchWarning { start: c, end: c + src_parts.len() });
        }
        Ok(())
    }
}

} // verus!
