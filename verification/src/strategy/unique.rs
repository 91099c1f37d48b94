use crate::path_info::{
    assemble,
    assemble_chars,
    lemma_reassemble_ends_with_filename,
    segment_chars,
    PathInfo,
    PathModel,
};
use crate::platform::{separator, separator_spec};
use crate::strategy::fish::{
    anchor_chars,
    is_anchor,
    is_anchor_exec,
    string_views,
    take_at_most,
    take_chars,
};
use crate::text::{
    append_chars, chars_eq, chars_of_string, copy_chars, copy_range, is_suffix, seq_views,
    string_of,
};
use vstd::prelude::*;

verus! {

/// The part of a segment that prefixes are compared on: after the dot for a
/// dot-prefixed segment (longer than the dot alone), else the whole text.
pub open spec fn comparable_spec(t: Seq<char>) -> Seq<char> {
    if t.len() > 1 && t[0] == '.' {
        t.drop_first()
    } else {
        t
    }
}

/// The first `len` characters of `t` tell it apart from every other
/// segment: each other comparable text is shorter than `len` or starts
/// differently.
pub open spec fn distinguishes(t: Seq<char>, others: Seq<Seq<char>>, len: int) -> bool {
    forall|j: int|
        0 <= j < others.len() ==> comparable_spec(others[j]).len() < len || #[trigger] comparable_spec(
            others[j],
        ).subrange(0, len) != t.subrange(0, len)
}

/// The least `len` from `from` up to `t.len()` that distinguishes `t`, or
/// `t.len()` when none does.
pub open spec fn first_distinguishing(t: Seq<char>, others: Seq<Seq<char>>, from: int) -> int
    decreases t.len() + 1 - from,
{
    if from < 1 || from > t.len() {
        t.len() as int
    } else if distinguishes(t, others, from) {
        from
    } else {
        first_distinguishing(t, others, from + 1)
    }
}

/// Some other segment has the same comparable text as `target`.
pub open spec fn has_twin(target: Seq<char>, others: Seq<Seq<char>>) -> bool {
    exists|j: int| 0 <= j < others.len() && #[trigger] comparable_spec(others[j]) == comparable_spec(target)
}

/// Shortest prefix length (on the comparable part) telling `target` apart
/// from `others`; `None` when another segment has the same comparable text.
pub open spec fn unique_prefix_len_spec(target: Seq<char>, others: Seq<Seq<char>>) -> Option<int> {
    if has_twin(target, others) {
        None
    } else {
        Some(first_distinguishing(comparable_spec(target), others, 1))
    }
}

/// The abbreviated form of a segment given the unique prefix length.
pub open spec fn abbreviate_with_len_spec(text: Seq<char>, prefix_len: int) -> Seq<char> {
    if text.len() > 1 && text[0] == '.' {
        seq!['.'] + take_at_most(text.drop_first(), prefix_len)
    } else {
        take_at_most(text, prefix_len)
    }
}

/// Segment `i` after unique-prefix abbreviation.
pub open spec fn unique_text(texts: Seq<Seq<char>>, i: int, anchors: Seq<Seq<char>>) -> Seq<char> {
    if is_anchor(texts[i], anchors) {
        texts[i]
    } else {
        match unique_prefix_len_spec(texts[i], texts.remove(i)) {
            Some(len) => abbreviate_with_len_spec(texts[i], len),
            None => texts[i],
        }
    }
}

/// The path of `m` with each segment cut to its shortest unique prefix.
pub open spec fn unique_spec(m: PathModel, anchors: Seq<Seq<char>>) -> Seq<char> {
    assemble(m, Seq::new(m.texts.len(), |i: int| unique_text(m.texts, i, anchors)))
}

/// The unique result ends with the filename.
pub proof fn lemma_unique_suffix(m: PathModel, anchors: Seq<Seq<char>>)
    ensures
        is_suffix(m.filename, unique_spec(m, anchors)),
{
    lemma_reassemble_ends_with_filename(
        m.prefix,
        Seq::new(m.texts.len(), |i: int| unique_text(m.texts, i, anchors)),
        m.filename,
        separator_spec(m.style),
    );
}

/// `first_distinguishing` finds the least distinguishing length.
pub proof fn lemma_first_distinguishing(t: Seq<char>, others: Seq<Seq<char>>, from: int)
    requires
        1 <= from,
    ensures
        ({
            let l = first_distinguishing(t, others, from);
            &&& l <= t.len()
            &&& (from <= t.len() ==> from <= l)
            &&& (l < t.len() ==> distinguishes(t, others, l))
            &&& forall|k: int| from <= k < l ==> !distinguishes(t, others, k)
        }),
    decreases t.len() + 1 - from,
{
    if from > t.len() {
    } else if distinguishes(t, others, from) {
    } else {
        lemma_first_distinguishing(t, others, from + 1);
    }
}

/// A copy of the comparable part of `t`.
fn comparable_text(t: &Vec<char>) -> (r: Vec<char>)
    ensures
        r@ == comparable_spec(t@),
{
    if t.len() > 1 && t[0] == '.' {
        let r = copy_range(t, 1, t.len());
        assert(r@ =~= t@.drop_first());
        r
    } else {
        copy_chars(t)
    }
}

/// Whether the first `len` characters of `a` and `b` agree (both at least `len` long).
fn same_prefix(a: &Vec<char>, b: &Vec<char>, len: usize) -> (r: bool)
    requires
        len <= a.len(),
        len <= b.len(),
    ensures
        r == (a@.subrange(0, len as int) == b@.subrange(0, len as int)),
{
    let mut i: usize = 0;
    while i < len
        invariant
            len <= a.len(),
            len <= b.len(),
            i <= len,
            forall|j: int| 0 <= j < i ==> a@[j] == b@[j],
        decreases len - i,
    {
        if a[i] != b[i] {
            assert(a@.subrange(0, len as int)[i as int] != b@.subrange(0, len as int)[i as int]);
            return false;
        }
        i = i + 1;
    }
    assert(a@.subrange(0, len as int) =~= b@.subrange(0, len as int));
    true
}

/// Find the shortest prefix length that makes `target` unique among `others`.
/// Returns `None` if `target` is identical to any element in `others` (can't disambiguate).
/// The returned length refers to chars in the comparable portion (after dot for dot-prefixed).
fn unique_prefix_len(target: &Vec<char>, others: &Vec<Vec<char>>) -> (r: Option<usize>)
    ensures
        r matches Some(l) ==> unique_prefix_len_spec(target@, seq_views(others@)) == Some(
            l as int,
        ),
        r is None ==> unique_prefix_len_spec(target@, seq_views(others@)) is None,
{
    let ghost ov = seq_views(others@);
    let target_key = comparable_text(target);
    let mut other_keys: Vec<Vec<char>> = Vec::new();
    let mut i: usize = 0;
    while i < others.len()
        invariant
            ov == seq_views(others@),
            i <= others.len(),
            other_keys@.len() == i,
            forall|j: int| 0 <= j < i ==> #[trigger] other_keys@[j]@ == comparable_spec(ov[j]),
        decreases others.len() - i,
    {
        let c = comparable_text(&others[i]);
        assert(ov[i as int] == others@[i as int]@);
        other_keys.push(c);
        i = i + 1;
    }

    // If any other segment has the same comparable text, we can't disambiguate
    let mut j: usize = 0;
    while j < other_keys.len()
        invariant
            ov == seq_views(others@),
            other_keys@.len() == ov.len(),
            j <= other_keys@.len(),
            target_key@ == comparable_spec(target@),
            forall|k: int| 0 <= k < ov.len() ==> #[trigger] other_keys@[k]@ == comparable_spec(ov[k]),
            forall|k: int| 0 <= k < j ==> comparable_spec(ov[k]) != comparable_spec(target@),
        decreases other_keys.len() - j,
    {
        if chars_eq(&other_keys[j], &target_key) {
            assert(comparable_spec(ov[j as int]) == comparable_spec(target@));
            return None;
        }
        j = j + 1;
    }
    assert(!has_twin(target@, ov));

    // Find the minimum prefix length that distinguishes from all others
    let tlen = target_key.len();
    let mut len: usize = 1;
    while len <= tlen
        invariant
            ov == seq_views(others@),
            other_keys@.len() == ov.len(),
            tlen == target_key@.len(),
            1 <= len,
            target_key@ == comparable_spec(target@),
            !has_twin(target@, ov),
            forall|k: int| 0 <= k < ov.len() ==> #[trigger] other_keys@[k]@ == comparable_spec(ov[k]),
            first_distinguishing(target_key@, ov, 1) == first_distinguishing(
                target_key@,
                ov,
                len as int,
            ),
        decreases tlen + 1 - len,
    {
        let mut is_unique = true;
        let mut k: usize = 0;
        while k < other_keys.len()
            invariant
                other_keys@.len() == ov.len(),
                1 <= len <= tlen == target_key@.len(),
                k <= other_keys@.len(),
                forall|q: int| 0 <= q < ov.len() ==> #[trigger] other_keys@[q]@ == comparable_spec(ov[q]),
                is_unique == (forall|q: int|
                    0 <= q < k ==> comparable_spec(ov[q]).len() < len || #[trigger] comparable_spec(
                        ov[q],
                    ).subrange(0, len as int) != target_key@.subrange(0, len as int)),
            decreases other_keys.len() - k,
        {
            let o = &other_keys[k];
            if o.len() >= len {
                // Other is at least as long as our prefix; compare the prefixes
                if same_prefix(o, &target_key, len) {
                    is_unique = false;
                }
            }
            k = k + 1;
        }
        if is_unique {
            assert(distinguishes(target_key@, ov, len as int));
            return Some(len);
        }
        assert(!distinguishes(target_key@, ov, len as int));
        assert(first_distinguishing(target_key@, ov, len as int) == first_distinguishing(
            target_key@,
            ov,
            len + 1,
        ));
        if len == tlen {
            return Some(tlen);
        }
        len = len + 1;
    }
    // Full length needed (shouldn't happen if no duplicates, but just in case)
    Some(tlen)
}

/// Build the abbreviated form of a segment given the unique prefix length.
fn abbreviate_with_len(text: &Vec<char>, prefix_len: usize) -> (r: Vec<char>)
    ensures
        r@ == abbreviate_with_len_spec(text@, prefix_len as int),
{
    if text.len() > 1 && text[0] == '.' {
        let mut r = vec!['.'];
        let after = take_chars(text, 1, prefix_len);
        append_chars(&mut r, &after);
        assert(text@.drop_first() =~= text@.subrange(1, text@.len() as int));
        r
    } else {
        let r = take_chars(text, 0, prefix_len);
        assert(text@.subrange(0, text@.len() as int) =~= text@);
        r
    }
}

/// All texts but the one at `skip`.
fn all_but(texts: &Vec<Vec<char>>, skip: usize) -> (r: Vec<Vec<char>>)
    requires
        skip < texts.len(),
    ensures
        seq_views(r@) == seq_views(texts@).remove(skip as int),
{
    let ghost tv = seq_views(texts@);
    let mut r: Vec<Vec<char>> = Vec::new();
    let mut j: usize = 0;
    while j < texts.len()
        invariant
            skip < texts.len(),
            tv == seq_views(texts@),
            j <= texts.len(),
            seq_views(r@) == (if j <= skip {
                tv.subrange(0, j as int)
            } else {
                tv.subrange(0, skip as int) + tv.subrange(skip + 1, j as int)
            }),
        decreases texts.len() - j,
    {
        if j != skip {
            let c = copy_chars(&texts[j]);
            let ghost old_r = seq_views(r@);
            r.push(c);
            assert(seq_views(r@) =~= old_r.push(c@));
        }
        j = j + 1;
        if j <= skip {
            assert(seq_views(r@) =~= tv.subrange(0, j as int));
        } else if j == skip + 1 {
            assert(seq_views(r@) =~= tv.subrange(0, skip as int) + tv.subrange(skip + 1, j as int));
        } else {
            assert(seq_views(r@) =~= tv.subrange(0, skip as int) + tv.subrange(skip + 1, j as int));
        }
    }
    assert(tv.remove(skip as int) =~= tv.subrange(0, skip as int) + tv.subrange(
        skip + 1,
        tv.len() as int,
    ));
    r
}

/// Shrink a path by finding the shortest unique prefix for each directory segment
/// among all segments in the same path. NOT filesystem-aware.
///
/// - Filename is never abbreviated (sacred).
/// - Dot-prefixed segments: compare chars after the dot, then prepend dot.
/// - If a segment's first char is unique among all others, use 1 char.
/// - Identical segments cannot be disambiguated; they are kept in full.
/// - Anchored segments are never abbreviated.
pub fn shrink_unique(info: &PathInfo, anchors: &[String]) -> (r: String)
    ensures
        r@ == unique_spec(info@, string_views(anchors@)),
        is_suffix(info@.filename, r@),
{
    proof {
        lemma_unique_suffix(info@, string_views(anchors@));
    }
    let ghost av = string_views(anchors@);
    let texts = segment_chars(info);
    let a = anchor_chars(anchors);
    let ghost tv = info@.texts;
    let ghost target = Seq::new(tv.len(), |i: int| unique_text(tv, i, av));
    let n = texts.len();
    let mut abbreviated: Vec<Vec<char>> = Vec::new();
    let mut i: usize = 0;
    while i < n
        invariant
            n == texts.len(),
            tv == seq_views(texts@),
            av == seq_views(a@),
            target == Seq::new(tv.len(), |i: int| unique_text(tv, i, av)),
            i <= n,
            seq_views(abbreviated@) == target.subrange(0, i as int),
        decreases n - i,
    {
        let text = &texts[i];
        assert(text@ == tv[i as int]);
        // Anchored segments are never abbreviated
        let t = if is_anchor_exec(text, &a) {
            copy_chars(text)
        } else {
            // Collect all OTHER segment texts
            let others = all_but(&texts, i);
            match unique_prefix_len(text, &others) {
                Some(len) => abbreviate_with_len(text, len),
                None => copy_chars(text),  // Can't disambiguate, keep full
            }
        };
        assert(t@ == target[i as int]);
        let ghost old_a = seq_views(abbreviated@);
        abbreviated.push(t);
        assert(seq_views(abbreviated@) =~= old_a.push(t@));
        i = i + 1;
        assert(seq_views(abbreviated@) =~= target.subrange(0, i as int));
    }
    assert(target.subrange(0, n as int) =~= target);
    let prefix = chars_of_string(&info.prefix);
    let filename = chars_of_string(&info.filename);
    let r = assemble_chars(&prefix, &abbreviated, &filename, separator(info.style));
    string_of(&r)
}

} // verus!
