//! The stage that turns raw segmentation candidates into the token set:
//! keep pure-ideograph candidates, drop repeats, order by character length.
use vstd::prelude::*;

verus! {

/// A character of the CJK Unified Ideographs block, U+4E00 through U+9FA5.
pub open spec fn is_ideograph(c: char) -> bool {
    '\u{4e00}' <= c && c <= '\u{9fa5}'
}

/// A qualifying token: non-empty and made of ideographs only.
pub open spec fn is_chinese_word(w: Seq<char>) -> bool {
    w.len() > 0 && forall|i: int| 0 <= i < w.len() ==> is_ideograph(#[trigger] w[i])
}

/// The character sequences of a list of strings.
pub open spec fn texts(v: Seq<String>) -> Seq<Seq<char>> {
    v.map_values(|s: String| s@)
}

/// `out` is the token set of `cands`: exactly the qualifying candidates,
/// each once, in non-decreasing order of character length.
pub open spec fn is_token_set_of(out: Seq<Seq<char>>, cands: Seq<Seq<char>>) -> bool {
    &&& forall|i: int| 0 <= i < out.len() ==> is_chinese_word(#[trigger] out[i])
    &&& forall|i: int| 0 <= i < out.len() ==> cands.contains(#[trigger] out[i])
    &&& forall|j: int|
        0 <= j < cands.len() && is_chinese_word(#[trigger] cands[j]) ==> out.contains(cands[j])
    &&& out.no_duplicates()
    &&& forall|i: int, k: int| 0 <= i <= k < out.len() ==> (#[trigger] out[i]).len() <= (#[trigger] out[k]).len()
}

/// Whether `w` is a qualifying token.
pub fn is_chinese(w: &str) -> (r: bool)
    ensures
        r == is_chinese_word(w@),
{
    let n = w.unicode_len();
    if n == 0 {
        return false;
    }
    let mut i: usize = 0;
    while i < n
        invariant
            n == w@.len(),
            i <= n,
            forall|k: int| 0 <= k < i ==> is_ideograph(#[trigger] w@[k]),
        decreases n - i,
    {
        let c = w.get_char(i);
        if !('\u{4e00}' <= c && c <= '\u{9fa5}') {
            return false;
        }
        i = i + 1;
    }
    true
}

/// Whether `out` holds a string equal to `w`.
fn holds(out: &Vec<String>, w: &String) -> (r: bool)
    ensures
        r == texts(out@).contains(w@),
{
    let mut i: usize = 0;
    while i < out.len()
        invariant
            i <= out@.len(),
            forall|k: int| 0 <= k < i ==> out@[k]@ != w@,
        decreases out@.len() - i,
    {
        if out[i] == *w {
            assert(texts(out@)[i as int] == w@);
            return true;
        }
        i = i + 1;
    }
    proof {
        if texts(out@).contains(w@) {
            let k = choose|k: int| 0 <= k < texts(out@).len() && texts(out@)[k] == w@;
            assert(out@[k]@ == w@);
        }
    }
    false
}

/// Adding a candidate that is already present, or that does not qualify,
/// leaves the token set as it is.
proof fn lemma_skip_word(out: Seq<Seq<char>>, cands: Seq<Seq<char>>, w: Seq<char>)
    requires
        is_token_set_of(out, cands),
        !is_chinese_word(w) || out.contains(w),
    ensures
        is_token_set_of(out, cands.push(w)),
{
    let next = cands.push(w);
    assert forall|i: int| 0 <= i < out.len() implies next.contains(#[trigger] out[i]) by {
        let k = choose|k: int| 0 <= k < cands.len() && cands[k] == out[i];
        assert(next[k] == cands[k]);
    }
    assert forall|k: int| 0 <= k < next.len() && is_chinese_word(#[trigger] next[k])
        implies out.contains(next[k]) by {
        if k < cands.len() {
            assert(next[k] == cands[k]);
        }
    }
}

/// Inserting a new qualifying candidate at the end of the run of tokens that
/// are no longer than it gives the token set of the extended candidates.
proof fn lemma_insert_word(out: Seq<Seq<char>>, cands: Seq<Seq<char>>, w: Seq<char>, p: int)
    requires
        is_token_set_of(out, cands),
        is_chinese_word(w),
        !out.contains(w),
        0 <= p <= out.len(),
        forall|i: int| 0 <= i < p ==> (#[trigger] out[i]).len() <= w.len(),
        p < out.len() ==> out[p].len() > w.len(),
    ensures
        is_token_set_of(out.insert(p, w), cands.push(w)),
{
    let now = out.insert(p, w);
    let next = cands.push(w);
    assert forall|i: int| 0 <= i < now.len() implies is_chinese_word(#[trigger] now[i]) by {
        if i < p {
            assert(now[i] == out[i]);
        } else if i > p {
            assert(now[i] == out[i - 1]);
        }
    }
    assert forall|i: int| 0 <= i < now.len() implies next.contains(#[trigger] now[i]) by {
        if i == p {
            assert(next[cands.len() as int] == w);
        } else {
            let i0 = if i < p { i } else { i - 1 };
            assert(now[i] == out[i0]);
            let k = choose|k: int| 0 <= k < cands.len() && cands[k] == out[i0];
            assert(next[k] == cands[k]);
        }
    }
    assert forall|k: int| 0 <= k < next.len() && is_chinese_word(#[trigger] next[k])
        implies now.contains(next[k]) by {
        if k < cands.len() {
            assert(next[k] == cands[k]);
            let i = choose|i: int| 0 <= i < out.len() && out[i] == cands[k];
            if i < p {
                assert(now[i] == out[i]);
            } else {
                assert(now[i + 1] == out[i]);
            }
        } else {
            assert(now[p] == w);
        }
    }
    assert forall|a: int, b: int| 0 <= a < now.len() && 0 <= b < now.len() && a != b
        implies now[a] != now[b] by {
        let a0 = if a < p { a } else { a - 1 };
        let b0 = if b < p { b } else { b - 1 };
        if a == p {
            assert(now[b] == out[b0]);
        } else if b == p {
            assert(now[a] == out[a0]);
        } else {
            assert(now[a] == out[a0]);
            assert(now[b] == out[b0]);
        }
    }
    assert forall|a: int, b: int| 0 <= a <= b < now.len()
        implies (#[trigger] now[a]).len() <= (#[trigger] now[b]).len() by {
        let a0 = if a < p { a } else { a - 1 };
        let b0 = if b < p { b } else { b - 1 };
        if a == p && b > a {
            assert(now[b] == out[b0]);
            assert(out[p].len() <= out[b0].len());
        } else if b == p && a < b {
            assert(now[a] == out[a0]);
        } else if a != p && b != p {
            assert(now[a] == out[a0]);
            assert(now[b] == out[b0]);
        }
    }
}

/// The token set of `candidates`: the candidates made only of ideographs,
/// each distinct string once, ordered by non-decreasing character length.
pub fn select_words(candidates: Vec<String>) -> (r: Vec<String>)
    ensures
        is_token_set_of(texts(r@), texts(candidates@)),
{
    let mut out: Vec<String> = Vec::new();
    let mut lens: Vec<usize> = Vec::new();
    let mut j: usize = 0;
    while j < candidates.len()
        invariant
            j <= candidates@.len(),
            lens@.len() == out@.len(),
            forall|i: int| 0 <= i < out@.len() ==> lens@[i] as int == (#[trigger] out@[i])@.len(),
            is_token_set_of(texts(out@), texts(candidates@.subrange(0, j as int))),
        decreases candidates@.len() - j,
    {
        let c = &candidates[j];
        let ghost old_out = texts(out@);
        let ghost pre = texts(candidates@.subrange(0, j as int));
        let ghost next = texts(candidates@.subrange(0, j as int + 1));
        assert(next == pre.push(c@));
        if is_chinese(c.as_str()) && !holds(&out, c) {
            let n = c.as_str().unicode_len();
            let mut p: usize = 0;
            while p < out.len() && lens[p] <= n
                invariant
                    p <= out@.len(),
                    lens@.len() == out@.len(),
                    forall|i: int| 0 <= i < out@.len() ==> lens@[i] as int == (#[trigger] out@[i])@.len(),
                    forall|i: int| 0 <= i < p ==> (#[trigger] out@[i])@.len() <= n,
                decreases out@.len() - p,
            {
                p = p + 1;
            }
            assert(p < old_out.len() ==> old_out[p as int].len() > n) by {
                if p < old_out.len() {
                    assert(old_out[p as int] == out@[p as int]@);
                }
            }
            assert(forall|i: int| 0 <= i < p ==> (#[trigger] old_out[i]).len() <= n) by {
                assert forall|i: int| 0 <= i < p implies (#[trigger] old_out[i]).len() <= n by {
                    assert(old_out[i] == out@[i]@);
                }
            }
            out.insert(p, c.clone());
            lens.insert(p, n);
            proof {
                assert(texts(out@) == old_out.insert(p as int, c@));
                lemma_insert_word(old_out, pre, c@, p as int);
            }
        } else {
            proof {
                lemma_skip_word(old_out, pre, c@);
            }
        }
        j = j + 1;
    }
    assert(candidates@.subrange(0, candidates@.len() as int) == candidates@);
    out
}

/// No candidate that holds a character outside U+4E00..U+9FA5 is ever in
/// the token set.
pub proof fn lemma_only_ideographs_pass(out: Seq<Seq<char>>, cands: Seq<Seq<char>>, w: Seq<char>, i: int)
    requires
        is_token_set_of(out, cands),
        0 <= i < w.len(),
        !is_ideograph(w[i]),
    ensures
        !out.contains(w),
{
    if out.contains(w) {
        let k = choose|k: int| 0 <= k < out.len() && out[k] == w;
        assert(is_chinese_word(out[k]));
    }
}

/// Every token occurs once in the token set, however often it was a
/// candidate.
pub proof fn lemma_no_repeated_tokens(out: Seq<Seq<char>>, cands: Seq<Seq<char>>, w: Seq<char>)
    requires
        is_token_set_of(out, cands),
    ensures
        out.to_multiset().count(w) <= 1,
{
    out.lemma_multiset_has_no_duplicates();
}

/// Of two neighbours in the token set, the first is no longer than the
/// second.
pub proof fn lemma_neighbours_ordered(out: Seq<Seq<char>>, cands: Seq<Seq<char>>, i: int)
    requires
        is_token_set_of(out, cands),
        0 <= i,
        i + 1 < out.len(),
    ensures
        out[i].len() <= out[i + 1].len(),
{
}

} // verus!
