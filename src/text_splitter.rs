//! Groups entry texts into delimiter-joined chunks.
use vstd::prelude::*;
use crate::subtitle_combiner::SubtitleError;
use crate::text::{join, join_strs, overlaps_itself};
use crate::{DELIMITER, GROUP_SIZE};

verus! {

/// Number of chunks of at most `g` entries that `n` entries make.
pub open spec fn chunk_count(n: nat, g: nat) -> nat
    recommends
        g > 0,
{
    ((n + g - 1) / (g as int)) as nat
}

/// First entry of chunk `k`.
pub open spec fn chunk_start(k: int, g: nat) -> int {
    k * g
}

/// One past the last entry of chunk `k`.
pub open spec fn chunk_end(n: nat, k: int, g: nat) -> int {
    if (k + 1) * g < n {
        (k + 1) * g
    } else {
        n as int
    }
}

/// Chunk `k`: the texts of its entries joined with the delimiter.
pub open spec fn chunk_of(texts: Seq<Seq<char>>, g: nat, k: int) -> Seq<char> {
    join(texts.subrange(chunk_start(k, g), chunk_end(texts.len(), k, g)), DELIMITER@)
}

/// All chunks of `texts`, in order.
pub open spec fn chunks_of(texts: Seq<Seq<char>>, g: nat) -> Seq<Seq<char>> {
    Seq::new(chunk_count(texts.len(), g), |k: int| chunk_of(texts, g, k))
}

/// Chunks that a list of entry texts was split into.
#[derive(Debug)]
pub struct TextSplitter {
    pub split_result: Vec<String>,
}

impl TextSplitter {
    pub fn new() -> (r: Self)
        ensures
            r.split_result@.len() == 0,
    {
        TextSplitter { split_result: Vec::new() }
    }

    /// Groups the texts into chunks of `GROUP_SIZE` entries.
    pub fn split_text(text_info: &[String]) -> (r: Result<Self, SubtitleError>)
        ensures
            match r {
                Ok(t) => {
                    &&& text_info@.len() > 0
                    &&& t.split_result.deep_view() == chunks_of(text_info.deep_view(), GROUP_SIZE as nat)
                    &&& t.split_result@.len() == chunk_count(text_info@.len(), GROUP_SIZE as nat)
                },
                Err(e) => text_info@.len() == 0 && e == SubtitleError::EmptyInput,
            },
    {
        Self::split_text_by(text_info, GROUP_SIZE)
    }

    /// Groups the texts into chunks of `group_size` entries; the last chunk
    /// holds what is left.
    pub fn split_text_by(text_info: &[String], group_size: usize) -> (r: Result<Self, SubtitleError>)
        requires
            group_size > 0,
        ensures
            match r {
                Ok(t) => {
                    &&& text_info@.len() > 0
                    &&& t.split_result.deep_view() == chunks_of(text_info.deep_view(), group_size as nat)
                    &&& t.split_result@.len() == chunk_count(text_info@.len(), group_size as nat)
                },
                Err(e) => text_info@.len() == 0 && e == SubtitleError::EmptyInput,
            },
    {
        if text_info.len() == 0 {
            return Err(SubtitleError::EmptyInput);
        }
        let n = text_info.len();
        let g = group_size;
        let ghost texts = text_info.deep_view();
        let mut splitter = TextSplitter::new();
        let mut start: usize = 0;
        let mut k: usize = 0;
        proof {
            lemma_chunk_bounds(n as nat, g as nat, 0);
            assert(chunk_count(n as nat, g as nat) <= n) by (nonlinear_arith)
                requires g > 0, chunk_count(n as nat, g as nat) == (n + g - 1) / (g as int);
        }
        while start < n
            invariant
                n == text_info@.len(),
                chunk_count(n as nat, g as nat) <= n,
                texts == text_info.deep_view(),
                g > 0,
                start <= n,
                start < n ==> start == k * g,
                k <= n,
                k <= chunk_count(n as nat, g as nat),
                (start < n) == (k < chunk_count(n as nat, g as nat)),
                splitter.split_result@.len() == k,
                forall|j: int| 0 <= j < k ==> #[trigger] splitter.split_result.deep_view()[j] == chunk_of(texts, g as nat, j),
            decreases n - k,
        {
            let end = if n - start < g { n } else { start + g };
            proof {
                assert((k + 1) * g == start + g) by (nonlinear_arith)
                    requires start == k * g;
                assert(end == chunk_end(n as nat, k as int, g as nat));
            }
            let part = &text_info[start..end];
            assert(part.deep_view() =~= texts.subrange(start as int, end as int));
            let chunk = join_strs(part, DELIMITER);
            let ghost before = splitter.split_result.deep_view();
            splitter.split_result.push(chunk);
            proof {
                assert(splitter.split_result.deep_view() =~= before.push(chunk@));
                lemma_chunk_bounds(n as nat, g as nat, k as int);
            }
            start = end;
            k = k + 1;
        }
        proof {
            assert(splitter.split_result.deep_view() =~= chunks_of(texts, g as nat));
        }
        Ok(splitter)
    }
}

/// Chunk `k` starts before `n` exactly when `k` is below the chunk count.
pub proof fn lemma_chunk_bounds(n: nat, g: nat, k: int)
    requires
        g > 0,
        0 <= k,
    ensures
        (k * g < n) == (k < chunk_count(n, g)),
        ((k + 1) * g < n) == (k + 1 < chunk_count(n, g)),
{
    let c = chunk_count(n, g);
    assert((k * g < n) == (k < c)) by (nonlinear_arith)
        requires g > 0, k >= 0, c == (n + g - 1) / (g as int);
    assert(((k + 1) * g < n) == (k + 1 < c)) by (nonlinear_arith)
        requires g > 0, k >= 0, c == (n + g - 1) / (g as int);
}

/// Two occurrences of the delimiter cannot overlap.
pub proof fn lemma_delimiter_no_overlap()
    ensures
        !overlaps_itself(DELIMITER@),
        DELIMITER@.len() == 3,
{
    reveal_strlit("<T>");
    let d = DELIMITER@;
    assert(d =~= seq!['<', 'T', '>']);
    if overlaps_itself(d) {
        let k = choose|k: int| 0 < k < d.len() && #[trigger] d.subrange(k, d.len() as int) == d.subrange(0, d.len() - k);
        assert(d.subrange(k, d.len() as int)[0] == d.subrange(0, d.len() - k)[0]);
    }
}

} // verus!
