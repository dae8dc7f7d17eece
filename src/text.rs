//! Character-level string operations with exact specifications: splitting on a
//! delimiter, joining, replacing and trimming, as `str` does them.
use vstd::prelude::*;
use vstd::string::StringExecFns;

verus! {

/// Position of the leftmost occurrence of `d` in `s`.
pub open spec fn find(s: Seq<char>, d: Seq<char>) -> Option<int>
    decreases s.len(),
{
    if s.len() < d.len() {
        None
    } else if s.subrange(0, d.len() as int) == d {
        Some(0)
    } else if s.len() == 0 {
        None
    } else {
        match find(s.drop_first(), d) {
            Some(i) => Some(i + 1),
            None => None,
        }
    }
}

/// The pieces of `s` between the non-overlapping occurrences of `d`, found
/// left to right (what `str::split` yields for a non-empty pattern).
pub open spec fn split_on(s: Seq<char>, d: Seq<char>) -> Seq<Seq<char>>
    decreases s.len(),
{
    match find(s, d) {
        Some(i) => if d.len() > 0 && 0 <= i && i + d.len() <= s.len() {
            seq![s.subrange(0, i)] + split_on(s.subrange(i + d.len(), s.len() as int), d)
        } else {
            seq![s]
        },
        None => seq![s],
    }
}

/// The parts written one after another with `d` between each two.
pub open spec fn join(parts: Seq<Seq<char>>, d: Seq<char>) -> Seq<char>
    decreases parts.len(),
{
    if parts.len() == 0 {
        Seq::empty()
    } else if parts.len() == 1 {
        parts[0]
    } else {
        parts[0] + d + join(parts.drop_first(), d)
    }
}

/// Every occurrence of `from` in `s`, left to right, replaced by `to`.
pub open spec fn replace(s: Seq<char>, from: Seq<char>, to: Seq<char>) -> Seq<char> {
    join(split_on(s, from), to)
}

/// The Unicode `White_Space` characters, those that `char::is_whitespace` accepts.
pub open spec fn is_white(c: char) -> bool {
    let u = c as u32;
    (0x9 <= u <= 0xd) || u == 0x20 || u == 0x85 || u == 0xa0 || u == 0x1680 || (0x2000 <= u
        <= 0x200a) || u == 0x2028 || u == 0x2029 || u == 0x202f || u == 0x205f || u == 0x3000
}

pub open spec fn trim_start(s: Seq<char>) -> Seq<char>
    decreases s.len(),
{
    if s.len() > 0 && is_white(s[0]) {
        trim_start(s.drop_first())
    } else {
        s
    }
}

pub open spec fn trim_end(s: Seq<char>) -> Seq<char>
    decreases s.len(),
{
    if s.len() > 0 && is_white(s.last()) {
        trim_end(s.drop_last())
    } else {
        s
    }
}

/// `s` without leading and trailing whitespace.
pub open spec fn trim(s: Seq<char>) -> Seq<char> {
    trim_end(trim_start(s))
}

pub open spec fn shifted(o: Option<int>, k: int) -> Option<int> {
    match o {
        Some(i) => Some(i + k),
        None => None,
    }
}

/// Relies on `String::push`, which appends one character to the string.
#[verifier::external_body]
pub(crate) fn push_char(s: &mut String, c: char)
    ensures
        final(s)@ == old(s)@.push(c),
{
    s.push(c)
}

/// The characters of `s`, in order.
pub fn chars_of(s: &str) -> (r: Vec<char>)
    ensures
        r@ == s@,
{
    let mut out: Vec<char> = Vec::new();
    for c in it: s.chars()
        invariant
            it.seq() == s@,
            out@ == s@.take(it.index() as int),
            it.index() <= s@.len(),
    {
        out.push(c);
    }
    assert(out@ =~= s@);
    out
}

/// A string holding the characters `v[from..to]`.
pub fn string_of_range(v: &Vec<char>, from: usize, to: usize) -> (r: String)
    requires
        from <= to <= v.len(),
    ensures
        r@ == v@.subrange(from as int, to as int),
{
    let mut out = String::new();
    let mut i = from;
    while i < to
        invariant
            from <= i <= to <= v.len(),
            out@ == v@.subrange(from as int, i as int),
        decreases to - i,
    {
        push_char(&mut out, v[i]);
        assert(v@.subrange(from as int, i + 1) =~= v@.subrange(from as int, i as int).push(v@[i as int]));
        i = i + 1;
    }
    out
}

/// Whether `d` stands in `s` at position `pos`.
fn matches_at(s: &Vec<char>, d: &Vec<char>, pos: usize) -> (r: bool)
    requires
        pos + d.len() <= s.len(),
    ensures
        r == (s@.subrange(pos as int, pos + d.len()) == d@),
{
    let mut j: usize = 0;
    while j < d.len()
        invariant
            pos + d.len() <= s.len(),
            j <= d.len(),
            forall|k: int| 0 <= k < j ==> s@[pos + k] == d@[k],
        decreases d.len() - j,
    {
        if s[pos + j] != d[j] {
            assert(s@.subrange(pos as int, pos + d.len())[j as int] != d@[j as int]);
            return false;
        }
        j = j + 1;
    }
    assert(s@.subrange(pos as int, pos + d.len()) =~= d@);
    true
}

proof fn lemma_find_step(s: Seq<char>, d: Seq<char>, start: int, pos: int)
    requires
        0 <= start <= pos,
        pos + d.len() <= s.len(),
        d.len() > 0,
        s.subrange(pos, pos + d.len()) != d,
        find(s.skip(start), d) == shifted(find(s.skip(pos), d), pos - start),
    ensures
        find(s.skip(start), d) == shifted(find(s.skip(pos + 1), d), pos + 1 - start),
{
    let t = s.skip(pos);
    assert(t.subrange(0, d.len() as int) =~= s.subrange(pos, pos + d.len()));
    assert(t.drop_first() =~= s.skip(pos + 1));
}

/// The pieces of `s` between the occurrences of `d`, as `str::split` gives them.
pub fn split_chars(s: &Vec<char>, d: &Vec<char>) -> (r: Vec<String>)
    requires
        d.len() > 0,
    ensures
        r.deep_view() == split_on(s@, d@),
{
    let mut parts: Vec<String> = Vec::new();
    let mut start: usize = 0;
    let mut pos: usize = 0;
    assert(s@.skip(0) =~= s@);
    while d.len() <= s.len() && pos <= s.len() - d.len()
        invariant
            d.len() > 0,
            start <= pos <= s.len(),
            parts.deep_view() + split_on(s@.skip(start as int), d@) == split_on(s@, d@),
            find(s@.skip(start as int), d@) == shifted(find(s@.skip(pos as int), d@), pos - start),
        decreases s.len() - pos,
    {
        if matches_at(s, d, pos) {
            let ghost t = s@.skip(start as int);
            proof {
                assert(s@.skip(pos as int).subrange(0, d.len() as int) =~= s@.subrange(
                    pos as int,
                    pos + d.len(),
                ));
                assert(find(s@.skip(pos as int), d@) == Some(0int));
                assert(t.subrange(0, pos - start) =~= s@.subrange(start as int, pos as int));
                assert(t.subrange(pos - start + d.len(), t.len() as int) =~= s@.skip(
                    pos + d.len(),
                ));
            }
            let piece = string_of_range(s, start, pos);
            let ghost before = parts.deep_view();
            parts.push(piece);
            proof {
                assert(parts.deep_view() =~= before.push(piece@));
                assert(split_on(t, d@) == seq![s@.subrange(start as int, pos as int)] + split_on(
                    s@.skip(pos + d.len()),
                    d@,
                ));
                assert(before + split_on(t, d@) =~= parts.deep_view() + split_on(
                    s@.skip(pos + d.len()),
                    d@,
                ));
            }
            pos = pos + d.len();
            start = pos;
        } else {
            proof {
                lemma_find_step(s@, d@, start as int, pos as int);
            }
            pos = pos + 1;
        }
    }
    proof {
        assert(find(s@.skip(pos as int), d@) is None);
        assert(split_on(s@.skip(start as int), d@) == seq![s@.skip(start as int)]);
    }
    let piece = string_of_range(s, start, s.len());
    let ghost before = parts.deep_view();
    parts.push(piece);
    proof {
        assert(s@.subrange(start as int, s.len() as int) =~= s@.skip(start as int));
        assert(parts.deep_view() =~= before + seq![s@.skip(start as int)]);
    }
    parts
}

/// The pieces of `s` between the occurrences of `d` (`str::split`).
pub fn split_str(s: &str, d: &str) -> (r: Vec<String>)
    requires
        d@.len() > 0,
    ensures
        r.deep_view() == split_on(s@, d@),
{
    let sv = chars_of(s);
    let dv = chars_of(d);
    split_chars(&sv, &dv)
}

pub proof fn lemma_join_push(parts: Seq<Seq<char>>, x: Seq<char>, d: Seq<char>)
    requires
        parts.len() > 0,
    ensures
        join(parts.push(x), d) == join(parts, d) + d + x,
    decreases parts.len(),
{
    if parts.len() == 1 {
        assert(parts.push(x).drop_first() =~= seq![x]);
        assert(join(seq![x], d) == x);
        assert(join(parts, d) == parts[0]);
        assert(join(parts.push(x), d) == parts[0] + d + x);
    } else {
        assert(parts.push(x).drop_first() =~= parts.drop_first().push(x));
        lemma_join_push(parts.drop_first(), x, d);
        assert(join(parts.push(x), d) =~= join(parts, d) + d + x);
    }
}

/// The strings of `parts` with `d` between each two (`[String]::join`).
pub fn join_strs(parts: &[String], d: &str) -> (r: String)
    ensures
        r@ == join(parts.deep_view(), d@),
{
    if parts.len() == 0 {
        return String::new();
    }
    let mut out = parts[0].clone();
    let mut k: usize = 1;
    assert(parts.deep_view().take(1) =~= seq![parts.deep_view()[0]]);
    while k < parts.len()
        invariant
            1 <= k <= parts.len(),
            out@ == join(parts.deep_view().take(k as int), d@),
        decreases parts.len() - k,
    {
        proof {
            lemma_join_push(parts.deep_view().take(k as int), parts.deep_view()[k as int], d@);
            assert(parts.deep_view().take(k as int).push(parts.deep_view()[k as int])
                =~= parts.deep_view().take(k + 1));
        }
        out.append(d);
        out.append(parts[k].as_str());
        k = k + 1;
    }
    assert(parts.deep_view().take(k as int) =~= parts.deep_view());
    out
}

/// `s` with every occurrence of `from` replaced by `to` (`str::replace`).
pub fn replace_str(s: &str, from: &str, to: &str) -> (r: String)
    requires
        from@.len() > 0,
    ensures
        r@ == replace(s@, from@, to@),
{
    let pieces = split_str(s, from);
    join_strs(pieces.as_slice(), to)
}

/// Whether `c` is whitespace (`char::is_whitespace`).
pub fn is_white_char(c: char) -> (r: bool)
    ensures
        r == is_white(c),
{
    let u = c as u32;
    (0x9 <= u && u <= 0xd) || u == 0x20 || u == 0x85 || u == 0xa0 || u == 0x1680 || (0x2000 <= u
        && u <= 0x200a) || u == 0x2028 || u == 0x2029 || u == 0x202f || u == 0x205f || u == 0x3000
}

/// `s` without leading and trailing whitespace (`str::trim`).
pub fn trim_str(s: &str) -> (r: String)
    ensures
        r@ == trim(s@),
{
    let v = chars_of(s);
    let mut i: usize = 0;
    assert(v@.skip(0) =~= v@);
    while i < v.len() && is_white_char(v[i])
        invariant
            i <= v.len(),
            trim_start(v@.skip(i as int)) == trim_start(v@),
        decreases v.len() - i,
    {
        assert(v@.skip(i as int).drop_first() =~= v@.skip(i + 1));
        i = i + 1;
    }
    assert(trim_start(v@) == v@.skip(i as int));
    let mut j: usize = v.len();
    assert(v@.skip(i as int) =~= v@.subrange(i as int, j as int));
    while j > i && is_white_char(v[j - 1])
        invariant
            i <= j <= v.len(),
            trim_end(v@.subrange(i as int, j as int)) == trim(v@),
        decreases j,
    {
        assert(v@.subrange(i as int, j as int).drop_last() =~= v@.subrange(i as int, j - 1));
        j = j - 1;
    }
    string_of_range(&v, i, j)
}

/// Whether `d` occurs anywhere in `s`.
pub open spec fn contains_seq(s: Seq<char>, d: Seq<char>) -> bool {
    exists|i: int| 0 <= i && i + d.len() <= s.len() && #[trigger] s.subrange(i, i + d.len()) == d
}

/// Whether a proper suffix of `d` is also a prefix of it, so that two
/// occurrences of `d` could overlap.
pub open spec fn overlaps_itself(d: Seq<char>) -> bool {
    exists|k: int| 0 < k < d.len() && #[trigger] d.subrange(k, d.len() as int) == d.subrange(0, d.len() - k)
}

proof fn lemma_find_absent(s: Seq<char>, d: Seq<char>)
    requires
        d.len() > 0,
        !contains_seq(s, d),
    ensures
        find(s, d) is None,
    decreases s.len(),
{
    if s.len() >= d.len() {
        assert(s.subrange(0, d.len() as int) != d) by {
            if s.subrange(0, d.len() as int) == d {
                assert(s.subrange(0int, 0int + d.len()) == d);
            }
        }
        assert(!contains_seq(s.drop_first(), d)) by {
            if contains_seq(s.drop_first(), d) {
                let i = choose|i: int| 0 <= i && i + d.len() <= s.drop_first().len() && #[trigger] s.drop_first().subrange(i, i + d.len()) == d;
                assert(s.subrange(i + 1, i + 1 + d.len()) =~= s.drop_first().subrange(i, i + d.len()));
            }
        }
        lemma_find_absent(s.drop_first(), d);
    }
}

proof fn lemma_find_after_part(p: Seq<char>, d: Seq<char>, r: Seq<char>)
    requires
        d.len() > 0,
        !contains_seq(p, d),
        !overlaps_itself(d),
    ensures
        find(p + d + r, d) == Some(p.len() as int),
    decreases p.len(),
{
    let s = p + d + r;
    if p.len() == 0 {
        assert(s.subrange(0, d.len() as int) =~= d);
    } else {
        assert(s.subrange(0, d.len() as int) != d) by {
          if s.subrange(0, d.len() as int) == d {
            if d.len() <= p.len() {
                assert(p.subrange(0, d.len() as int) =~= s.subrange(0, d.len() as int));
                assert(p.subrange(0int, 0int + d.len()) == d);
                assert(contains_seq(p, d));
            } else {
                let k = p.len() as int;
                assert(d.subrange(k, d.len() as int) =~= d.subrange(0, d.len() - k)) by {
                    assert forall|j: int| 0 <= j < d.len() - k implies d.subrange(k, d.len() as int)[j] == d.subrange(0, d.len() - k)[j] by {
                        assert(s.subrange(0, d.len() as int)[k + j] == s[k + j]);
                    }
                }
                assert(overlaps_itself(d));
            }
          }
        }
        assert(!contains_seq(p.drop_first(), d)) by {
            if contains_seq(p.drop_first(), d) {
                let i = choose|i: int| 0 <= i && i + d.len() <= p.drop_first().len() && #[trigger] p.drop_first().subrange(i, i + d.len()) == d;
                assert(p.subrange(i + 1, i + 1 + d.len()) =~= p.drop_first().subrange(i, i + d.len()));
            }
        }
        lemma_find_after_part(p.drop_first(), d, r);
        assert(s.drop_first() =~= p.drop_first() + d + r);
    }
}

/// Splitting a join gives back its parts, when no part holds the delimiter and
/// two occurrences of the delimiter cannot overlap.
pub proof fn lemma_split_join(parts: Seq<Seq<char>>, d: Seq<char>)
    requires
        parts.len() > 0,
        d.len() > 0,
        !overlaps_itself(d),
        forall|i: int| 0 <= i < parts.len() ==> !contains_seq(#[trigger] parts[i], d),
    ensures
        split_on(join(parts, d), d) == parts,
    decreases parts.len(),
{
    if parts.len() == 1 {
        lemma_find_absent(parts[0], d);
        assert(split_on(join(parts, d), d) =~= parts);
    } else {
        let rest = parts.drop_first();
        let s = join(parts, d);
        assert(!contains_seq(parts[0], d));
        lemma_find_after_part(parts[0], d, join(rest, d));
        assert(s == parts[0] + d + join(rest, d));
        assert(s.subrange(0, parts[0].len() as int) =~= parts[0]);
        assert(s.subrange(parts[0].len() + d.len() as int, s.len() as int) =~= join(rest, d));
        assert forall|i: int| 0 <= i < rest.len() implies !contains_seq(#[trigger] rest[i], d) by {
            assert(rest[i] == parts[i + 1]);
        }
        lemma_split_join(rest, d);
        assert(split_on(s, d) =~= parts);
    }
}

} // verus!
