//! The task orchestrator's logic: chunk requests, putting translations that
//! completed in any order back in chunk order, and merging them in that order.
//! The backend calls themselves run outside the library.
use vstd::prelude::*;
use vstd::string::StringExecFns;
use crate::formatter::{tagged, Formatter};
use crate::subtitle_combiner::{
    chunk_block, chunk_matches, entry_count, CombineInput, MergeMismatchWarning, SubtitleCombiner,
    SubtitleError,
};
use crate::subtitle_extractor::{extracts, first_missing, times_in_range, Entry, SubtitleExtractor};
use crate::text::{contains_seq, lemma_split_join};
use crate::text_splitter::{
    chunk_count, chunk_end, chunk_start, chunks_of, lemma_chunk_bounds, lemma_delimiter_no_overlap,
    TextSplitter,
};
use crate::DELIMITER;
use crate::GROUP_SIZE;

verus! {

broadcast use vstd::std_specs::vec::vec_clone_deep_view_proof;

/// How many entries have both an identifier and a time range.
pub open spec fn known_entries(ids: Seq<Seq<char>>, times: Seq<Seq<char>>) -> int {
    if ids.len() <= times.len() {
        ids.len() as int
    } else {
        times.len() as int
    }
}

/// Merging (translation, source chunk) pairs, a chunk without translation
/// (`None`) being merged untranslated, in order from cursor `c`: the
/// concatenated blocks, the final cursor and the mismatch warnings; `None` when
/// a chunk runs past the known entries.
pub open spec fn merge_all(
    pairs: Seq<(Option<Seq<char>>, Seq<char>)>,
    ids: Seq<Seq<char>>,
    times: Seq<Seq<char>>,
    c: int,
) -> Option<(Seq<char>, int, Seq<MergeMismatchWarning>)>
    decreases pairs.len(),
{
    if pairs.len() == 0 {
        Some((Seq::empty(), c, Seq::empty()))
    } else {
        match merge_all(pairs.drop_last(), ids, times, c) {
            None => None,
            Some(acc) => {
                let tr = pairs.last().0;
                let chunk = pairs.last().1;
                let n = entry_count(chunk) as int;
                if acc.1 + n <= known_entries(ids, times) {
                    Some(
                        (
                            acc.0 + chunk_block(chunk, tr, ids, times, acc.1),
                            acc.1 + n,
                            if chunk_matches(chunk, tr) {
                                acc.2
                            } else {
                                acc.2.push(
                                    MergeMismatchWarning {
                                        start: acc.1 as usize,
                                        end: (acc.1 + n) as usize,
                                    },
                                )
                            },
                        ),
                    )
                } else {
                    None
                }
            },
        }
    }
}

/// The results hold every chunk index below `n` exactly once.
pub open spec fn covers(results: Seq<(usize, Option<Seq<char>>, Seq<char>)>, n: int) -> bool {
    &&& forall|j: int| 0 <= j < results.len() ==> (#[trigger] results[j]).0 < n
    &&& forall|j1: int, j2: int|
        0 <= j1 < results.len() && 0 <= j2 < results.len() && j1 != j2 ==> (#[trigger] results[j1]).0
            != (#[trigger] results[j2]).0
    &&& forall|k: int| 0 <= k < n ==> #[trigger] has_result(results, k)
}

/// Some result is for chunk `k`.
pub open spec fn has_result(results: Seq<(usize, Option<Seq<char>>, Seq<char>)>, k: int) -> bool {
    exists|j: int| 0 <= j < results.len() && #[trigger] results[j].0 == k
}

/// The (translation, source chunk) pair of the result for chunk `k`.
pub open spec fn result_for(results: Seq<(usize, Option<Seq<char>>, Seq<char>)>, k: int) -> (Option<Seq<char>>, Seq<char>) {
    let j = choose|j: int| 0 <= j < results.len() && #[trigger] results[j].0 == k;
    (results[j].1, results[j].2)
}

/// The results put in chunk order, when they hold each chunk exactly once.
pub open spec fn in_index_order(results: Seq<(usize, Option<Seq<char>>, Seq<char>)>, n: int) -> Option<
    Seq<(Option<Seq<char>>, Seq<char>)>,
> {
    if covers(results, n) {
        Some(Seq::new(n as nat, |k: int| result_for(results, k)))
    } else {
        None
    }
}

/// The results of a run whose chunks completed in the order `order`
/// (`order[j]` is the chunk that completed `j`-th), chunk `k` being answered
/// with `pairs[k]`.
pub open spec fn collected(pairs: Seq<(Option<Seq<char>>, Seq<char>)>, order: Seq<int>) -> Seq<
    (usize, Option<Seq<char>>, Seq<char>),
> {
    Seq::new(order.len(), |j: int| (order[j] as usize, pairs[order[j]].0, pairs[order[j]].1))
}

/// `order` lists each of `0..n` exactly once.
pub open spec fn is_permutation(order: Seq<int>, n: int) -> bool {
    &&& order.len() == n
    &&& forall|j: int| 0 <= j < n ==> 0 <= #[trigger] order[j] < n
    &&& forall|j1: int, j2: int| 0 <= j1 < n && 0 <= j2 < n && j1 != j2 ==> #[trigger] order[j1] != #[trigger] order[j2]
    &&& forall|k: int| 0 <= k < n ==> #[trigger] lists(order, k)
}

/// `order` holds `k`.
pub open spec fn lists(order: Seq<int>, k: int) -> bool {
    exists|j: int| 0 <= j < order.len() && #[trigger] order[j] == k
}

/// Completion order does not matter: whatever order the chunk translations
/// complete in, putting them in chunk order gives back the sequence that a
/// sequential run merges, so both runs write the same document.
pub proof fn lemma_completion_order_irrelevant(
    pairs: Seq<(Option<Seq<char>>, Seq<char>)>,
    order: Seq<int>,
    ids: Seq<Seq<char>>,
    times: Seq<Seq<char>>,
    c: int,
)
    requires
        pairs.len() <= usize::MAX,
        is_permutation(order, pairs.len() as int),
    ensures
        in_index_order(collected(pairs, order), pairs.len() as int) == Some(pairs),
        merge_all(in_index_order(collected(pairs, order), pairs.len() as int)->0, ids, times, c)
            == merge_all(pairs, ids, times, c),
{
    let n = pairs.len() as int;
    let r = collected(pairs, order);
    assert forall|j: int| 0 <= j < r.len() implies (#[trigger] r[j]).0 < n by {
        assert(0 <= order[j] < n);
    }
    assert forall|j1: int, j2: int|
        0 <= j1 < r.len() && 0 <= j2 < r.len() && j1 != j2 implies (#[trigger] r[j1]).0 != (#[trigger] r[j2]).0 by {
        assert(order[j1] != order[j2]);
        assert(0 <= order[j1] < n && 0 <= order[j2] < n);
    }
    assert forall|k: int| 0 <= k < n implies #[trigger] has_result(r, k) by {
        assert(lists(order, k));
        let j = choose|j: int| 0 <= j < order.len() && #[trigger] order[j] == k;
        assert(r[j].0 == k);
    }
    assert(covers(r, n));
    assert forall|k: int| 0 <= k < n implies #[trigger] result_for(r, k) == pairs[k] by {
        assert(has_result(r, k));
        let j = choose|j: int| 0 <= j < r.len() && #[trigger] r[j].0 == k;
        assert(0 <= order[j] < n);
        assert(order[j] == k);
    }
    assert(Seq::new(n as nat, |k: int| result_for(r, k)) =~= pairs);
}

/// A failed prefix makes the whole merge fail.
proof fn lemma_merge_fails_later(
    pairs: Seq<(Option<Seq<char>>, Seq<char>)>,
    ids: Seq<Seq<char>>,
    times: Seq<Seq<char>>,
    c: int,
    i: int,
)
    requires
        0 <= i <= pairs.len(),
        merge_all(pairs.take(i), ids, times, c) is None,
    ensures
        merge_all(pairs, ids, times, c) is None,
    decreases pairs.len() - i,
{
    if i < pairs.len() {
        assert(pairs.take(i + 1).drop_last() =~= pairs.take(i));
        lemma_merge_fails_later(pairs, ids, times, c, i + 1);
    } else {
        assert(pairs.take(i) =~= pairs);
    }
}

/// Number of entries in the first `k` chunks.
pub open spec fn entries_in(chunks: Seq<Seq<char>>, k: int) -> int
    decreases k,
{
    if k <= 0 {
        0
    } else {
        entries_in(chunks, k - 1) + entry_count(chunks[k - 1])
    }
}

/// The source chunks of (translation, source chunk) pairs.
pub open spec fn sources(pairs: Seq<(Option<Seq<char>>, Seq<char>)>) -> Seq<Seq<char>> {
    Seq::new(pairs.len(), |k: int| pairs[k].1)
}

/// Each chunk `k` answered with `translations[k]`.
pub open spec fn answered(chunks: Seq<Seq<char>>, translations: Seq<Option<Seq<char>>>) -> Seq<(Option<Seq<char>>, Seq<char>)> {
    Seq::new(chunks.len(), |k: int| (translations[k], chunks[k]))
}

/// A merge moves the cursor by the number of source entries of its chunks.
pub proof fn lemma_merge_cursor(
    pairs: Seq<(Option<Seq<char>>, Seq<char>)>,
    ids: Seq<Seq<char>>,
    times: Seq<Seq<char>>,
    c: int,
)
    requires
        merge_all(pairs, ids, times, c) is Some,
    ensures
        (merge_all(pairs, ids, times, c)->0).1 == c + entries_in(sources(pairs), pairs.len() as int),
    decreases pairs.len(),
{
    if pairs.len() > 0 {
        lemma_merge_cursor(pairs.drop_last(), ids, times, c);
        lemma_entries_in_prefix(sources(pairs), sources(pairs.drop_last()), pairs.len() - 1);
    }
}

proof fn lemma_entries_in_prefix(a: Seq<Seq<char>>, b: Seq<Seq<char>>, k: int)
    requires
        0 <= k <= a.len(),
        k <= b.len(),
        forall|i: int| 0 <= i < k ==> a[i] == b[i],
    ensures
        entries_in(a, k) == entries_in(b, k),
    decreases k,
{
    if k > 0 {
        lemma_entries_in_prefix(a, b, k - 1);
    }
}

/// Entries in the first `k` chunks of `texts`: all entries before chunk `k`.
proof fn lemma_entries_in_chunks(texts: Seq<Seq<char>>, g: nat, k: int)
    requires
        g > 0,
        0 <= k <= chunk_count(texts.len(), g),
        forall|i: int| 0 <= i < texts.len() ==> !contains_seq(#[trigger] texts[i], DELIMITER@),
    ensures
        entries_in(chunks_of(texts, g), k) == if k * g < texts.len() { k * g } else { texts.len() as int },
    decreases k,
{
    let n = texts.len();
    if k > 0 {
        lemma_entries_in_chunks(texts, g, k - 1);
        lemma_chunk_bounds(n, g, k - 1);
        let part = texts.subrange(chunk_start(k - 1, g), chunk_end(n, k - 1, g));
        assert((k - 1) * g + g == k * g) by (nonlinear_arith);
        assert(part.len() > 0);
        assert forall|i: int| 0 <= i < part.len() implies !contains_seq(#[trigger] part[i], DELIMITER@) by {
            assert(part[i] == texts[chunk_start(k - 1, g) + i]);
        }
        lemma_delimiter_no_overlap();
        lemma_split_join(part, DELIMITER@);
    }
}

/// A full run ends with the cursor at the number of entries, and only there:
/// merging the chunks of `texts` in order, each with any translation, moves
/// the cursor from 0 to `texts.len()`, and every earlier chunk leaves it
/// below. This holds when no entry text contains the delimiter.
pub proof fn lemma_full_run_cursor(
    texts: Seq<Seq<char>>,
    g: nat,
    translations: Seq<Option<Seq<char>>>,
    ids: Seq<Seq<char>>,
    times: Seq<Seq<char>>,
)
    requires
        texts.len() > 0,
        g > 0,
        translations.len() == chunks_of(texts, g).len(),
        forall|i: int| 0 <= i < texts.len() ==> !contains_seq(#[trigger] texts[i], DELIMITER@),
    ensures
        entries_in(chunks_of(texts, g), chunks_of(texts, g).len() as int) == texts.len(),
        forall|k: int| 0 <= k < chunks_of(texts, g).len() ==> #[trigger] entries_in(chunks_of(texts, g), k) < texts.len(),
        merge_all(answered(chunks_of(texts, g), translations), ids, times, 0) is Some
            ==> (merge_all(answered(chunks_of(texts, g), translations), ids, times, 0)->0).1 == texts.len(),
{
    let chunks = chunks_of(texts, g);
    let count = chunks.len() as int;
    lemma_chunk_bounds(texts.len(), g, count);
    lemma_entries_in_chunks(texts, g, count);
    assert forall|k: int| 0 <= k < count implies #[trigger] entries_in(chunks, k) < texts.len() by {
        lemma_chunk_bounds(texts.len(), g, k);
        lemma_entries_in_chunks(texts, g, k);
    }
    let pairs = answered(chunks, translations);
    if merge_all(pairs, ids, times, 0) is Some {
        lemma_merge_cursor(pairs, ids, times, 0);
        assert(sources(pairs) =~= chunks);
    }
}

/// The pipeline state of one document: its entries' parallel arrays, its
/// chunks and the merger.
#[derive(Debug)]
pub struct Handler {
    pub subtitle_extractor: SubtitleExtractor,
    pub text_splitter: TextSplitter,
    pub subtitle_combiner: SubtitleCombiner,
}

impl Handler {
    pub open spec fn ids(&self) -> Seq<Seq<char>> {
        self.subtitle_extractor.number_info.deep_view()
    }

    pub open spec fn times(&self) -> Seq<Seq<char>> {
        self.subtitle_extractor.time_info.deep_view()
    }

    pub open spec fn chunks(&self) -> Seq<Seq<char>> {
        self.text_splitter.split_result.deep_view()
    }

    /// Extracts the entries and splits their texts into chunks of
    /// `GROUP_SIZE`; fails at the first entry without text, or when there are
    /// no entries.
    pub fn new(entries: &Vec<Entry>) -> (r: Result<Handler, SubtitleError>)
        requires
            times_in_range(entries@),
        ensures
            match r {
                Ok(h) => {
                    &&& entries@.len() > 0
                    &&& extracts(entries@, h.subtitle_extractor)
                    &&& h.chunks() == chunks_of(
                        h.subtitle_extractor.text_info.deep_view(),
                        GROUP_SIZE as nat,
                    )
                    &&& h.subtitle_combiner.cursor() == 0
                    &&& h.subtitle_combiner.warnings().len() == 0
                },
                Err(e) => {
                    ||| exists|i: int| first_missing(entries@, i) && e == SubtitleError::MissingText(i as usize)
                    ||| entries@.len() == 0 && e == SubtitleError::EmptyInput
                },
            },
    {
        let subtitle_extractor = match SubtitleExtractor::extractor(entries) {
            Ok(x) => x,
            Err(e) => {
                return Err(e);
            },
        };
        let text_splitter = match TextSplitter::split_text(subtitle_extractor.text_info.as_slice()) {
            Ok(t) => t,
            Err(e) => {
                return Err(e);
            },
        };
        Ok(Handler { subtitle_extractor, text_splitter, subtitle_combiner: SubtitleCombiner::new() })
    }

    /// Number of chunks.
    pub fn chunk_count(&self) -> (r: usize)
        ensures
            r == self.chunks().len(),
    {
        self.text_splitter.split_result.len()
    }

    /// The entries of chunk `index`, as positions `start..end`, when the
    /// document's entries make such a chunk.
    pub fn entry_range(&self, index: usize) -> (r: Option<(usize, usize)>)
        ensures
            ({
                let n = self.subtitle_extractor.text_info@.len();
                match r {
                    Some(range) => {
                        &&& index < chunk_count(n, GROUP_SIZE as nat)
                        &&& range.0 == chunk_start(index as int, GROUP_SIZE as nat)
                        &&& range.1 == chunk_end(n, index as int, GROUP_SIZE as nat)
                    },
                    None => index >= chunk_count(n, GROUP_SIZE as nat),
                }
            }),
    {
        let n = self.subtitle_extractor.text_info.len();
        let g = GROUP_SIZE;
        let count = n / g + if n % g == 0 { 0 } else { 1 };
        assert(count == chunk_count(n as nat, g as nat)) by (nonlinear_arith)
            requires
                g > 0,
                count == n / g + if n % g == 0 { 0int } else { 1int },
                chunk_count(n as nat, g as nat) == (n + g - 1) / (g as int),
        ;
        if index >= count {
            return None;
        }
        proof {
            lemma_chunk_bounds(n as nat, g as nat, index as int);
        }
        assert(index * g < n) by (nonlinear_arith)
            requires index * g < n as int;
        let start = index * g;
        let end = if n - start < g { n } else { start + g };
        assert((index + 1) * g == start + g) by (nonlinear_arith)
            requires start == index * g;
        Some((start, end))
    }

    /// The request for chunk `index`: the tagged document and the chunk.
    pub fn translation_request(&self, index: usize) -> (r: Result<Formatter, SubtitleError>)
        ensures
            match r {
                Ok(f) => {
                    &&& index < self.chunks().len()
                    &&& f.tagged_text@ == tagged(self.chunks(), index as int)
                    &&& f.chunk_to_translate@ == self.chunks()[index as int]
                },
                Err(e) => index >= self.chunks().len() && e == SubtitleError::IndexOutOfRange(index),
            },
    {
        Formatter::format(index, &self.text_splitter.split_result)
    }

    /// Merges the next chunk at the cursor and returns its block (one step of a
    /// sequential run); without a translation the chunk is merged untranslated
    /// and flagged.
    pub fn combine_chunk(&mut self, translated_text: Option<String>, chunk_to_translate: String) -> (r: Result<String, SubtitleError>)
        ensures
            final(self).subtitle_extractor == old(self).subtitle_extractor,
            final(self).text_splitter == old(self).text_splitter,
            ({
                let c = old(self).subtitle_combiner.cursor() as int;
                let n = entry_count(chunk_to_translate@) as int;
                let w = old(self).subtitle_combiner.warnings();
                let tr = translated_text.deep_view();
                if c + n <= known_entries(old(self).ids(), old(self).times()) {
                    &&& r is Ok
                    &&& r->Ok_0@ == chunk_block(chunk_to_translate@, tr, old(self).ids(), old(self).times(), c)
                    &&& final(self).subtitle_combiner.cursor() == c + n
                    &&& final(self).subtitle_combiner.warnings() == if chunk_matches(chunk_to_translate@, tr) {
                        w
                    } else {
                        w.push(MergeMismatchWarning { start: c as usize, end: (c + n) as usize })
                    }
                } else {
                    &&& r is Err
                    &&& r->Err_0 is IndexOutOfRange
                    &&& final(self).subtitle_combiner == old(self).subtitle_combiner
                }
            }),
    {
        let time_info = self.subtitle_extractor.time_info.clone();
        let number_info = self.subtitle_extractor.number_info.clone();
        assert(number_info.deep_view() == self.ids());
        assert(time_info.deep_view() == self.times());
        let merged = match translated_text {
            Some(t) => self.subtitle_combiner.combine(
                CombineInput { combined_text: chunk_to_translate, translated_text: t, time_info, number_info },
            ),
            None => self.subtitle_combiner.combine_untranslated(chunk_to_translate.as_str(), &time_info, &number_info),
        };
        match merged {
            Ok(()) => Ok(String::from_str(self.subtitle_combiner.get_content())),
            Err(e) => Err(e),
        }
    }

    /// Merges the pairs (translation or `None`, source chunk) in order and returns the
    /// concatenated blocks.
    #[verifier::loop_isolation(false)]
    pub fn combine_in_order(&mut self, pairs: &Vec<(Option<String>, String)>) -> (r: Result<String, SubtitleError>)
        ensures
            final(self).subtitle_extractor == old(self).subtitle_extractor,
            final(self).text_splitter == old(self).text_splitter,
            ({
                let c = old(self).subtitle_combiner.cursor() as int;
                match merge_all(pairs.deep_view(), old(self).ids(), old(self).times(), c) {
                    Some(acc) => {
                        &&& r is Ok
                        &&& r->Ok_0@ == acc.0
                        &&& final(self).subtitle_combiner.cursor() == acc.1
                        &&& final(self).subtitle_combiner.warnings() == old(self).subtitle_combiner.warnings() + acc.2
                    },
                    None => r is Err && r->Err_0 is IndexOutOfRange,
                }
            }),
    {
        let ghost pv = pairs.deep_view();
        let ghost ids = self.ids();
        let ghost times = self.times();
        let ghost c0 = self.subtitle_combiner.cursor() as int;
        let ghost w0 = self.subtitle_combiner.warnings();
        let ghost x0 = self.subtitle_extractor;
        let ghost s0 = self.text_splitter;
        let mut document = String::new();
        let mut k: usize = 0;
        assert(pv.take(0) =~= Seq::<(Option<Seq<char>>, Seq<char>)>::empty());
        assert(w0 + Seq::<MergeMismatchWarning>::empty() =~= w0);
        while k < pairs.len()
            invariant
                k <= pairs.len(),
                pv == pairs.deep_view(),
                self.subtitle_extractor == x0,
                self.text_splitter == s0,
                ids == self.ids(),
                times == self.times(),
                merge_all(pv.take(k as int), ids, times, c0) is Some,
                ({
                    let acc = merge_all(pv.take(k as int), ids, times, c0)->0;
                    &&& document@ == acc.0
                    &&& self.subtitle_combiner.cursor() == acc.1
                    &&& self.subtitle_combiner.warnings() == w0 + acc.2
                }),
            decreases pairs.len() - k,
        {
            let ghost acc = merge_all(pv.take(k as int), ids, times, c0)->0;
            let ghost w1 = self.subtitle_combiner.warnings();
            assert(pv.take(k + 1).drop_last() =~= pv.take(k as int));
            assert(pv.take(k + 1).last() == pv[k as int]);
            let translated = match &pairs[k].0 {
                Some(t) => Some(t.clone()),
                None => None,
            };
            let chunk = pairs[k].1.clone();
            let ghost tr = translated.deep_view();
            assert(tr == pv[k as int].0 && chunk@ == pv[k as int].1);
            match self.combine_chunk(translated, chunk) {
                Ok(block) => {
                    document.append(block.as_str());
                    proof {
                        let n = entry_count(chunk@) as int;
                        if !chunk_matches(chunk@, tr) {
                            assert(w1.push(MergeMismatchWarning { start: acc.1 as usize, end: (acc.1 + n) as usize })
                                =~= w0 + acc.2.push(MergeMismatchWarning { start: acc.1 as usize, end: (acc.1 + n) as usize }));
                        }
                    }
                },
                Err(e) => {
                    proof {
                        lemma_merge_fails_later(pv, ids, times, c0, k + 1);
                    }
                    assert(self.subtitle_extractor == x0);
                    return Err(e);
                },
            }
            k = k + 1;
        }
        assert(pv.take(k as int) =~= pv);
        Ok(document)
    }

    /// Puts translations that completed in any order back in chunk order:
    /// `None` unless every chunk index below `n` comes exactly once.
    #[verifier::loop_isolation(false)]
    pub fn order_by_index(results: Vec<(usize, Option<String>, String)>, n: usize) -> (r: Option<Vec<(Option<String>, String)>>)
        ensures
            match in_index_order(results.deep_view(), n as int) {
                Some(p) => r is Some && r->0.deep_view() == p,
                None => r is None,
            },
    {
        let ghost orig = results.deep_view();
        let mut results = results;
        let mut slots: Vec<(Option<String>, String)> = Vec::new();
        let mut filled: Vec<bool> = Vec::new();
        let mut k: usize = 0;
        while k < n
            invariant
                k <= n,
                slots@.len() == k,
                filled@.len() == k,
                forall|i: int| 0 <= i < k ==> !(#[trigger] filled@[i]),
            decreases n - k,
        {
            slots.push((None, String::new()));
            filled.push(false);
            k = k + 1;
        }
        while results.len() > 0
            invariant
                slots@.len() == n,
                filled@.len() == n,
                results.len() <= orig.len(),
                results.deep_view() == orig.take(results.len() as int),
                forall|j: int|
                    results.len() <= j < orig.len() ==> {
                        &&& (#[trigger] orig[j]).0 < n
                        &&& filled@[orig[j].0 as int]
                        &&& slots.deep_view()[orig[j].0 as int] == (orig[j].1, orig[j].2)
                    },
                forall|j1: int, j2: int|
                    results.len() <= j1 < orig.len() && results.len() <= j2 < orig.len() && j1 != j2
                        ==> (#[trigger] orig[j1]).0 != (#[trigger] orig[j2]).0,
                forall|i: int|
                    0 <= i < n && #[trigger] filled@[i] ==> exists|j: int|
                        results.len() <= j < orig.len() && #[trigger] orig[j].0 == i,
            decreases results.len(),
        {
            let ghost rem = results.len() as int;
            let ghost pre = results@;
            assert(orig.take(rem)[rem - 1] == orig[rem - 1]);
            assert(results.deep_view()[rem - 1] == pre[rem - 1].deep_view());
            let item = results.pop();
            let (index, translated, chunk) = match item {
                Some(t) => t,
                None => {
                    return None;
                },
            };
            assert(orig[rem - 1] == (index, translated.deep_view(), chunk@));
            assert(results.deep_view() =~= orig.take(rem - 1));
            if index >= n {
                assert(!covers(orig, n as int)) by {
                    assert(orig[rem - 1].0 >= n);
                }
                return None;
            }
            if filled[index] {
                assert(!covers(orig, n as int)) by {
                    let j = choose|j: int| rem <= j < orig.len() && #[trigger] orig[j].0 == index;
                    assert(orig[j].0 == orig[rem - 1].0);
                }
                return None;
            }
            let ghost before = slots.deep_view();
            let ghost filled_before = filled@;
            slots.set(index, (translated, chunk));
            filled.set(index, true);
            assert forall|i: int|
                0 <= i < n && #[trigger] filled@[i] implies exists|j: int|
                    rem - 1 <= j < orig.len() && #[trigger] orig[j].0 == i by {
                if i == index as int {
                    assert(orig[rem - 1].0 == i);
                } else {
                    assert(filled_before[i]);
                }
            }
            assert(slots.deep_view() =~= before.update(index as int, (orig[rem - 1].1, orig[rem - 1].2)));
        }
        assert(results.len() == 0);
        let mut i: usize = 0;
        while i < n
            invariant
                i <= n,
                filled@.len() == n,
                slots@.len() == n,
                forall|q: int| 0 <= q < i ==> #[trigger] filled@[q],
                forall|j: int|
                    0 <= j < orig.len() ==> {
                        &&& (#[trigger] orig[j]).0 < n
                        &&& filled@[orig[j].0 as int]
                        &&& slots.deep_view()[orig[j].0 as int] == (orig[j].1, orig[j].2)
                    },
                forall|j1: int, j2: int|
                    0 <= j1 < orig.len() && 0 <= j2 < orig.len() && j1 != j2
                        ==> (#[trigger] orig[j1]).0 != (#[trigger] orig[j2]).0,
                forall|q: int|
                    0 <= q < n && #[trigger] filled@[q] ==> exists|j: int|
                        0 <= j < orig.len() && #[trigger] orig[j].0 == q,
            decreases n - i,
        {
            if !filled[i] {
                assert(!filled@[i as int]);
                assert(!covers(orig, n as int)) by {
                    if covers(orig, n as int) {
                        assert(has_result(orig, i as int));
                        let j = choose|j: int| 0 <= j < orig.len() && #[trigger] orig[j].0 == i;
                        assert(filled@[orig[j].0 as int]);
                    }
                }
                return None;
            }
            i = i + 1;
        }
        assert(covers(orig, n as int)) by {
            assert forall|q: int| 0 <= q < n implies #[trigger] has_result(orig, q) by {
                assert(filled@[q]);
            }
        }
        assert forall|q: int| 0 <= q < n implies #[trigger] slots.deep_view()[q] == result_for(orig, q) by {
            assert(has_result(orig, q));
            let j = choose|j: int| 0 <= j < orig.len() && #[trigger] orig[j].0 == q;
            assert(filled@[q]);
        }
        assert(slots.deep_view() =~= Seq::new(n as nat, |q: int| result_for(orig, q)));
        Some(slots)
    }

    /// Puts the results of a concurrent run in chunk order, then merges them
    /// in that order; fails without merging anything unless every chunk comes
    /// exactly once.
    pub fn combine_translation_results(&mut self, results: Vec<(usize, Option<String>, String)>) -> (r: Result<String, SubtitleError>)
        ensures
            final(self).subtitle_extractor == old(self).subtitle_extractor,
            final(self).text_splitter == old(self).text_splitter,
            ({
                let c = old(self).subtitle_combiner.cursor() as int;
                match in_index_order(results.deep_view(), old(self).chunks().len() as int) {
                    None => r == Err::<String, SubtitleError>(SubtitleError::IncompleteResults)
                        && final(self).subtitle_combiner == old(self).subtitle_combiner,
                    Some(pairs) => match merge_all(pairs, old(self).ids(), old(self).times(), c) {
                        Some(acc) => {
                            &&& r is Ok
                            &&& r->Ok_0@ == acc.0
                            &&& final(self).subtitle_combiner.cursor() == acc.1
                            &&& final(self).subtitle_combiner.warnings() == old(self).subtitle_combiner.warnings() + acc.2
                        },
                        None => r is Err && r->Err_0 is IndexOutOfRange,
                    },
                }
            }),
    {
        let n = self.text_splitter.split_result.len();
        match Self::order_by_index(results, n) {
            None => Err(SubtitleError::IncompleteResults),
            Some(pairs) => self.combine_in_order(&pairs),
        }
    }
}

} // verus!
