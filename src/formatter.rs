//! Wraps one chunk in translation markers, with all other chunks around it as
//! context.
use vstd::prelude::*;
use vstd::string::StringExecFns;
use crate::subtitle_combiner::SubtitleError;
use crate::text::{join, join_strs};

verus! {

/// Opens the chunk to translate.
pub const OPEN_MARK: &'static str = "<TRANSLATE_THIS>";

/// Closes the chunk to translate.
pub const CLOSE_MARK: &'static str = "</TRANSLATE_THIS>";

/// The parts written one after another.
pub open spec fn concat(parts: Seq<Seq<char>>) -> Seq<char> {
    join(parts, Seq::empty())
}

/// The whole document with chunk `i` wrapped in the markers.
pub open spec fn tagged(chunks: Seq<Seq<char>>, i: int) -> Seq<char> {
    concat(chunks.take(i)) + OPEN_MARK@ + chunks[i] + CLOSE_MARK@ + concat(chunks.skip(i + 1))
}

proof fn lemma_concat_cons(parts: Seq<Seq<char>>)
    requires
        parts.len() > 0,
    ensures
        concat(parts) == parts[0] + concat(parts.drop_first()),
{
    if parts.len() == 1 {
        assert(parts[0] + concat(parts.drop_first()) =~= parts[0]);
    } else {
        assert(parts[0] + Seq::<char>::empty() + concat(parts.drop_first()) =~= parts[0] + concat(parts.drop_first()));
    }
}

proof fn lemma_concat_append(a: Seq<Seq<char>>, b: Seq<Seq<char>>)
    ensures
        concat(a + b) == concat(a) + concat(b),
    decreases a.len(),
{
    if a.len() == 0 {
        assert(a + b =~= b);
        assert(concat(a) + concat(b) =~= concat(b));
    } else {
        lemma_concat_cons(a + b);
        lemma_concat_cons(a);
        assert((a + b).drop_first() =~= a.drop_first() + b);
        lemma_concat_append(a.drop_first(), b);
        assert(concat(a + b) =~= concat(a) + concat(b));
    }
}

/// Taking the wrap markers out of the tagged text gives the whole document:
/// the markers stand around chunk `i`, and what is left, read in order, is
/// every chunk one after another.
pub proof fn lemma_unwrapped_context(chunks: Seq<Seq<char>>, i: int)
    requires
        0 <= i < chunks.len(),
    ensures
        ({
            let t = tagged(chunks, i);
            let p = concat(chunks.take(i)).len() as int;
            let q = p + OPEN_MARK@.len() + chunks[i].len();
            &&& t.subrange(p, p + OPEN_MARK@.len()) == OPEN_MARK@
            &&& t.subrange(q, q + CLOSE_MARK@.len()) == CLOSE_MARK@
            &&& t.subrange(p + OPEN_MARK@.len(), q) == chunks[i]
            &&& t.take(p) + t.subrange(p + OPEN_MARK@.len(), q) + t.skip(q + CLOSE_MARK@.len())
                == concat(chunks)
        }),
{
    let t = tagged(chunks, i);
    let before = concat(chunks.take(i));
    let after = concat(chunks.skip(i + 1));
    let p = before.len() as int;
    let q = p + OPEN_MARK@.len() + chunks[i].len();
    assert(t.subrange(p, p + OPEN_MARK@.len()) =~= OPEN_MARK@);
    assert(t.subrange(q, q + CLOSE_MARK@.len()) =~= CLOSE_MARK@);
    assert(t.subrange(p + OPEN_MARK@.len(), q) =~= chunks[i]);
    assert(t.take(p) =~= before);
    assert(t.skip(q + CLOSE_MARK@.len()) =~= after);
    lemma_concat_cons(chunks.skip(i));
    assert(chunks.skip(i).drop_first() =~= chunks.skip(i + 1));
    assert(chunks.skip(i)[0] == chunks[i]);
    lemma_concat_append(chunks.take(i), chunks.skip(i));
    assert(chunks.take(i) + chunks.skip(i) =~= chunks);
    assert(before + chunks[i] + after =~= before + (chunks[i] + after));
}

/// The request for one chunk: the tagged document and the chunk itself.
#[derive(Debug)]
pub struct Formatter {
    pub tagged_text: String,
    pub chunk_to_translate: String,
}

impl Formatter {
    pub fn new() -> (r: Self)
        ensures
            r.tagged_text@.len() == 0,
            r.chunk_to_translate@.len() == 0,
    {
        Formatter { tagged_text: String::new(), chunk_to_translate: String::new() }
    }

    /// Wraps chunk `index` in the markers, keeping every other chunk verbatim
    /// around it; fails when there is no such chunk.
    pub fn format(index: usize, source_text_chunks: &Vec<String>) -> (r: Result<Self, SubtitleError>)
        ensures
            match r {
                Ok(f) => {
                    &&& index < source_text_chunks.len()
                    &&& f.tagged_text@ == tagged(source_text_chunks.deep_view(), index as int)
                    &&& f.chunk_to_translate@ == source_text_chunks.deep_view()[index as int]
                },
                Err(e) => index >= source_text_chunks.len() && e == SubtitleError::IndexOutOfRange(
                    index,
                ),
            },
    {
        if index >= source_text_chunks.len() {
            return Err(SubtitleError::IndexOutOfRange(index));
        }
        let ghost chunks = source_text_chunks.deep_view();
        let head = &source_text_chunks.as_slice()[0..index];
        let tail = &source_text_chunks.as_slice()[index + 1..source_text_chunks.len()];
        assert(head.deep_view() =~= chunks.take(index as int));
        assert(tail.deep_view() =~= chunks.skip(index + 1));
        proof {
            reveal_strlit("");
            assert(""@ =~= Seq::<char>::empty());
        }
        let mut tagged_text = join_strs(head, "");
        let after = join_strs(tail, "");
        tagged_text.append(OPEN_MARK);
        tagged_text.append(source_text_chunks[index].as_str());
        tagged_text.append(CLOSE_MARK);
        tagged_text.append(after.as_str());
        assert(source_text_chunks[index as int]@ == chunks[index as int]);
        assert(tagged_text@ =~= tagged(chunks, index as int));
        Ok(Formatter { tagged_text, chunk_to_translate: source_text_chunks[index].clone() })
    }
}

} // verus!
