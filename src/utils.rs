//! Small helpers of the pipeline: input clean-up, output naming, resuming,
//! and ordering of collected translations.
use vstd::prelude::*;
use vstd::string::StringExecFns;
use crate::text::{chars_of, string_of_range};

verus! {

/// The byte order mark.
pub const BOM: char = '\u{feff}';

/// `s` without a leading byte order mark.
pub open spec fn without_bom(s: Seq<char>) -> Seq<char> {
    if s.len() > 0 && s[0] == BOM {
        s.drop_first()
    } else {
        s
    }
}

/// Drops a leading byte order mark from file contents.
pub fn read_file_trim_bom(contents: &str) -> (r: String)
    ensures
        r@ == without_bom(contents@),
{
    let v = chars_of(contents);
    if v.len() > 0 && v[0] == BOM {
        assert(v@.subrange(1, v@.len() as int) =~= v@.drop_first());
        string_of_range(&v, 1, v.len())
    } else {
        assert(v@.subrange(0, v@.len() as int) =~= v@);
        string_of_range(&v, 0, v.len())
    }
}

/// Whether a path names several files by a `*` pattern.
pub fn is_glob_pattern(path: &str) -> (r: bool)
    ensures
        r == path@.contains('*'),
{
    let v = chars_of(path);
    let mut i: usize = 0;
    while i < v.len()
        invariant
            i <= v.len(),
            v@ == path@,
            forall|k: int| 0 <= k < i ==> v@[k] != '*',
        decreases v.len() - i,
    {
        if v[i] == '*' {
            assert(path@[i as int] == '*');
            return true;
        }
        i = i + 1;
    }
    false
}

/// File name of the translated document: the input's stem (`output` when it
/// has none), an underscore, the target language, and `.srt`.
pub open spec fn output_name(stem: Option<Seq<char>>, target_language: Seq<char>) -> Seq<char> {
    let base = match stem {
        Some(s) => s,
        None => seq!['o', 'u', 't', 'p', 'u', 't'],
    };
    base + seq!['_'] + target_language + seq!['.', 's', 'r', 't']
}

/// The file name of the translated document.
pub fn output_file_name(stem: Option<&str>, target_language: &str) -> (r: String)
    ensures
        r@ == output_name(
            match stem {
                Some(s) => Some(s@),
                None => None,
            },
            target_language@,
        ),
{
    proof {
        reveal_strlit("output");
        reveal_strlit("_");
        reveal_strlit(".srt");
    }
    let mut name = match stem {
        Some(s) => String::from_str(s),
        None => String::from_str("output"),
    };
    name.append("_");
    name.append(target_language);
    name.append(".srt");
    name
}

/// Resuming from chunk `index` of `chunk_count`: whether it is the last one,
/// and the index that comes next.
pub fn check_translation_completion(chunk_count: usize, index: usize) -> (r: (bool, usize))
    requires
        index < chunk_count,
    ensures
        r.0 == (index == chunk_count - 1),
        r.1 == index + 1,
{
    (index == chunk_count - 1, index + 1)
}

/// Attempts a backend call gets before its chunk fails the run.
pub const MAX_ATTEMPTS: usize = 3;

/// After `attempts_made` failed backend calls for a chunk, whether to call
/// again: only while fewer than `max_attempts` were made.
pub fn should_retry(attempts_made: usize, max_attempts: usize) -> (r: bool)
    ensures
        r == (attempts_made < max_attempts),
{
    attempts_made < max_attempts
}

/// The items with index `k`, in their order.
pub open spec fn with_key(s: Seq<(usize, Seq<char>)>, k: usize) -> Seq<(usize, Seq<char>)> {
    s.filter(key_is(k))
}

/// Whether an item has index `k`.
pub open spec fn key_is(k: usize) -> spec_fn((usize, Seq<char>)) -> bool {
    |p: (usize, Seq<char>)| p.0 == k
}

/// The items are ordered by index.
pub open spec fn sorted_by_key(s: Seq<(usize, Seq<char>)>) -> bool {
    forall|i: int, j: int| 0 <= i < j < s.len() ==> (#[trigger] s[i]).0 <= (#[trigger] s[j]).0
}

proof fn lemma_with_key_push(s: Seq<(usize, Seq<char>)>, x: (usize, Seq<char>), k: usize)
    ensures
        with_key(s.push(x), k) == if x.0 == k { with_key(s, k).push(x) } else { with_key(s, k) },
{
    s.lemma_filter_push(x, key_is(k));
}

proof fn lemma_sorted_insert(s: Seq<(usize, Seq<char>)>, p: int, x: (usize, Seq<char>))
    requires
        0 <= p <= s.len(),
        sorted_by_key(s),
        p == 0 || s[p - 1].0 <= x.0,
        forall|q: int| p <= q < s.len() ==> (#[trigger] s[q]).0 > x.0,
    ensures
        sorted_by_key(s.insert(p, x)),
{
    let t = s.insert(p, x);
    s.insert_ensures(p, x);
    assert forall|i: int, j: int| 0 <= i < j < t.len() implies (#[trigger] t[i]).0 <= (#[trigger] t[j]).0 by {
        if i < p {
            assert(s[i].0 <= s[p - 1].0 || i == p - 1);
        }
        if j > p {
            assert(t[j] == s[j - 1]);
        }
    }
}

proof fn lemma_with_key_none(s: Seq<(usize, Seq<char>)>, k: usize)
    requires
        forall|i: int| 0 <= i < s.len() ==> (#[trigger] s[i]).0 != k,
    ensures
        with_key(s, k) == Seq::<(usize, Seq<char>)>::empty(),
    decreases s.len(),
{
    if s.len() > 0 {
        lemma_with_key_none(s.drop_last(), k);
        assert(s.drop_last().push(s.last()) =~= s);
        lemma_with_key_push(s.drop_last(), s.last(), k);
    } else {
        assert(with_key(s, k).len() == 0) by {
            reveal(Seq::filter);
        }
        assert(with_key(s, k) =~= Seq::<(usize, Seq<char>)>::empty());
    }
}

proof fn lemma_with_key_add(a: Seq<(usize, Seq<char>)>, b: Seq<(usize, Seq<char>)>, k: usize)
    ensures
        with_key(a + b, k) == with_key(a, k) + with_key(b, k),
{
    Seq::filter_distributes_over_add(a, b, key_is(k));
}

/// Inserting `x` before the items of greater index keeps, for every index,
/// the items of that index in order, with `x` last among its own.
proof fn lemma_with_key_insert(s: Seq<(usize, Seq<char>)>, p: int, x: (usize, Seq<char>), k: usize)
    requires
        0 <= p <= s.len(),
        forall|q: int| p <= q < s.len() ==> (#[trigger] s[q]).0 > x.0,
    ensures
        with_key(s.insert(p, x), k) == if x.0 == k { with_key(s, k).push(x) } else { with_key(s, k) },
{
    let a = s.take(p);
    let b = s.skip(p);
    assert(s.insert(p, x) =~= a.push(x) + b);
    assert(s =~= a + b);
    lemma_with_key_add(a.push(x), b, k);
    lemma_with_key_add(a, b, k);
    lemma_with_key_push(a, x, k);
    if x.0 == k {
        assert forall|i: int| 0 <= i < b.len() implies (#[trigger] b[i]).0 != k by {
            assert(b[i] == s[p + i]);
        }
        lemma_with_key_none(b, k);
        assert(with_key(a, k) + Seq::<(usize, Seq<char>)>::empty() =~= with_key(a, k));
        assert(with_key(a, k).push(x) + Seq::<(usize, Seq<char>)>::empty() =~= with_key(a, k).push(x));
    }
}

/// Orders the collected translations by chunk index, keeping the order of
/// items with equal index, and returns their texts in that order.
pub fn sort_and_extract_translations(translated_combined_text: &mut Vec<(usize, String)>) -> (r: Vec<String>)
    ensures
        final(translated_combined_text)@.len() == old(translated_combined_text)@.len(),
        sorted_by_key(final(translated_combined_text).deep_view()),
        forall|k: usize|
            #[trigger] with_key(final(translated_combined_text).deep_view(), k) == with_key(
                old(translated_combined_text).deep_view(),
                k,
            ),
        r.deep_view() == Seq::new(
            final(translated_combined_text)@.len(),
            |i: int| final(translated_combined_text).deep_view()[i].1,
        ),
{
    let mut items: Vec<(usize, String)> = Vec::new();
    std::mem::swap(translated_combined_text, &mut items);
    let ghost input = items.deep_view();
    let mut i: usize = 0;
    assert(input.take(0) =~= Seq::<(usize, Seq<char>)>::empty());
    while i < items.len()
        invariant
            i <= items.len(),
            input == items.deep_view(),
            translated_combined_text@.len() == i,
            sorted_by_key(translated_combined_text.deep_view()),
            forall|k: usize|
                #[trigger] with_key(translated_combined_text.deep_view(), k) == with_key(input.take(i as int), k),
        decreases items.len() - i,
    {
        let key = items[i].0;
        let text = items[i].1.clone();
        let ghost x = (key, text@);
        assert(x == input[i as int]);
        let mut p = translated_combined_text.len();
        while p > 0 && translated_combined_text[p - 1].0 > key
            invariant
                p <= translated_combined_text@.len(),
                forall|q: int| p <= q < translated_combined_text@.len() ==> (#[trigger] translated_combined_text.deep_view()[q]).0 > key,
            decreases p,
        {
            p = p - 1;
        }
        let ghost before = translated_combined_text.deep_view();
        proof {
            lemma_sorted_insert(before, p as int, x);
        }
        assert forall|k: usize| #[trigger] with_key(before.insert(p as int, x), k) == with_key(input.take(i + 1), k) by {
            lemma_with_key_insert(before, p as int, x, k);
            assert(input.take(i + 1) =~= input.take(i as int).push(x));
            lemma_with_key_push(input.take(i as int), x, k);
        }
        translated_combined_text.insert(p, (key, text));
        assert(translated_combined_text.deep_view() =~= before.insert(p as int, x));
        i = i + 1;
    }
    assert(input.take(i as int) =~= input);
    let mut texts: Vec<String> = Vec::new();
    let mut j: usize = 0;
    while j < translated_combined_text.len()
        invariant
            j <= translated_combined_text@.len(),
            texts.deep_view() == Seq::new(j as nat, |q: int| translated_combined_text.deep_view()[q].1),
        decreases translated_combined_text.len() - j,
    {
        let ghost before = texts.deep_view();
        let t = translated_combined_text[j].1.clone();
        assert(t@ == translated_combined_text.deep_view()[j as int].1);
        texts.push(t);
        assert(texts.deep_view() =~= before.push(t@));
        assert(texts.deep_view() =~= Seq::new((j + 1) as nat, |q: int| translated_combined_text.deep_view()[q].1));
        j = j + 1;
    }
    texts
}

} // verus!
