use crate::path_info::{
    assemble,
    assemble_chars,
    join_texts,
    reassemble_spec,
    segment_chars,
    PathInfo,
    PathModel,
    SegmentPriority,
};
use crate::platform::{separator, separator_spec, PathStyle};
use crate::text::{
    append_chars, byte_len, byte_len_sat, chars_of, chars_of_string, char_width, copy_chars,
    fits_within, is_suffix, lemma_byte_len_concat, lemma_byte_len_push, seq_views, string_of,
};
use vstd::prelude::*;

verus! {

/// `x` capped at `usize::MAX`.
pub open spec fn sat(x: int) -> int {
    if x < usize::MAX as int {
        x
    } else {
        usize::MAX as int
    }
}

/// One past the index of the last Identity segment, or 0 when there is none.
pub open spec fn identity_end(prios: Seq<SegmentPriority>) -> int
    decreases prios.len(),
{
    if prios.len() == 0 {
        0
    } else if prios.last() == SegmentPriority::Identity {
        prios.len() as int
    } else {
        identity_end(prios.drop_last())
    }
}

/// What a run of segments is charged in the ellipsis budget: each costs its
/// byte length plus one separator.
pub open spec fn costs(texts: Seq<Seq<char>>) -> int
    decreases texts.len(),
{
    if texts.len() == 0 {
        0
    } else {
        costs(texts.drop_last()) + byte_len(texts.last()) + 1
    }
}

/// How many segments, taken from the right, the greedy fill keeps within `budget`.
pub open spec fn greedy_tail(cands: Seq<Seq<char>>, budget: int) -> int
    decreases cands.len(),
{
    if cands.len() == 0 {
        0
    } else if byte_len(cands.last()) + 1 <= budget {
        1 + greedy_tail(cands.drop_last(), budget - byte_len(cands.last()) - 1)
    } else {
        0
    }
}

/// `prefix` + separator (when the prefix is non-empty and does not already
/// end in one) + ellipsis + separator + filename.
pub open spec fn minimal_spec(m: PathModel, ellipsis: Seq<char>) -> Seq<char> {
    let sep = separator_spec(m.style);
    m.prefix + (if m.prefix.len() > 0 && m.prefix.last() != sep {
        seq![sep]
    } else {
        Seq::<char>::empty()
    }) + ellipsis + seq![sep] + m.filename
}

/// The ellipsis budget's fixed part: prefix, its separator, filename.
pub open spec fn base_cost(m: PathModel) -> int {
    byte_len(m.prefix) + (if m.prefix.len() > 0 && m.filename.len() > 0 {
        1int
    } else {
        0int
    }) + byte_len(m.filename)
}

/// The last `k` elements of `s`.
pub open spec fn last_n(s: Seq<Seq<char>>, k: int) -> Seq<Seq<char>> {
    s.subrange(s.len() - k, s.len() as int)
}

/// The ellipsis shortening of `m`: the full path when it fits; the filename
/// when there is no directory segment or the filename alone takes `max_len`
/// bytes or more; otherwise the segments up to
/// the last identity segment, the ellipsis, and as many trailing segments as
/// the remaining budget allows; and when even the head and the ellipsis do
/// not fit, prefix + ellipsis + filename if that fits, else the filename.
pub open spec fn ellipsis_spec(m: PathModel, max_len: int, ellipsis: Seq<char>) -> Seq<char> {
    if byte_len(assemble(m, m.texts)) <= max_len {
        assemble(m, m.texts)
    } else if m.texts.len() == 0 || byte_len(m.filename) >= max_len {
        m.filename
    } else {
        let ie = identity_end(m.priorities);
        let head = m.texts.subrange(0, ie);
        let cands = m.texts.subrange(ie, m.texts.len() as int);
        let fixed = base_cost(m) + costs(head) + byte_len(ellipsis) + 1;
        if fixed >= max_len {
            if byte_len(minimal_spec(m, ellipsis)) <= max_len {
                minimal_spec(m, ellipsis)
            } else {
                m.filename
            }
        } else {
            let tc = greedy_tail(cands, max_len - fixed);
            assemble(m, head + seq![ellipsis] + last_n(cands, tc))
        }
    }
}

/// The texts and priorities of a model describe the same segments.
pub open spec fn aligned(m: PathModel) -> bool {
    m.priorities.len() == m.texts.len()
}

proof fn lemma_identity_end_bound(prios: Seq<SegmentPriority>)
    ensures
        0 <= identity_end(prios) <= prios.len(),
    decreases prios.len(),
{
    if prios.len() > 0 {
        lemma_identity_end_bound(prios.drop_last());
    }
}

proof fn lemma_costs_concat(a: Seq<Seq<char>>, b: Seq<Seq<char>>)
    ensures
        costs(a + b) == costs(a) + costs(b),
    decreases b.len(),
{
    if b.len() == 0 {
        assert(a + b =~= a);
    } else {
        lemma_costs_concat(a, b.drop_last());
        assert((a + b).drop_last() =~= a + b.drop_last());
    }
}

proof fn lemma_costs_nonneg(a: Seq<Seq<char>>)
    ensures
        costs(a) >= a.len(),
    decreases a.len(),
{
    if a.len() > 0 {
        lemma_costs_nonneg(a.drop_last());
    }
}

proof fn lemma_greedy_tail(cands: Seq<Seq<char>>, budget: int)
    requires
        budget >= 0,
    ensures
        0 <= greedy_tail(cands, budget) <= cands.len(),
        costs(last_n(cands, greedy_tail(cands, budget))) <= budget,
    decreases cands.len(),
{
    let k = greedy_tail(cands, budget);
    if cands.len() == 0 {
        assert(last_n(cands, 0) =~= Seq::<Seq<char>>::empty());
    } else if byte_len(cands.last()) + 1 <= budget {
        let rest = cands.drop_last();
        let b2 = budget - byte_len(cands.last()) - 1;
        lemma_greedy_tail(rest, b2);
        let k2 = greedy_tail(rest, b2);
        assert(last_n(cands, k) =~= last_n(rest, k2).push(cands.last()));
        assert(last_n(cands, k).drop_last() =~= last_n(rest, k2));
    } else {
        assert(last_n(cands, 0) =~= Seq::<Seq<char>>::empty());
    }
}

/// A separator is one byte.
pub proof fn lemma_sep_width(style: PathStyle)
    ensures
        char_width(separator_spec(style)) == 1,
{
}

/// Upper bound on the joined texts: at most one separator per text.
proof fn lemma_join_bound(prefix: Seq<char>, texts: Seq<Seq<char>>, sep: char)
    requires
        texts.len() >= 1,
        char_width(sep) == 1,
    ensures
        byte_len(join_texts(prefix, texts, sep)) <= byte_len(prefix) + costs(texts) - 1 + (
        if prefix.len() > 0 {
            1int
        } else {
            0int
        }),
        join_texts(prefix, texts, sep).len() > 0 || prefix.len() == 0,
    decreases texts.len(),
{
    let r = join_texts(prefix, texts.drop_last(), sep);
    let glue = texts.len() > 1 || (r.len() > 0 && r.last() != sep);
    let g = if glue {
        r.push(sep)
    } else {
        r
    };
    lemma_byte_len_push(r, sep);
    lemma_byte_len_concat(g, texts.last());
    assert(join_texts(prefix, texts, sep) == g + texts.last());
    assert(costs(texts) == costs(texts.drop_last()) + byte_len(texts.last()) + 1);
    if texts.len() > 1 {
        lemma_join_bound(prefix, texts.drop_last(), sep);
    } else {
        assert(texts.drop_last().len() == 0);
        assert(costs(texts.drop_last()) == 0);
        assert(r == prefix);
    }
}

/// Upper bound on a reassembled path in terms of the budget's costs.
pub proof fn lemma_reassemble_bound(
    prefix: Seq<char>,
    texts: Seq<Seq<char>>,
    filename: Seq<char>,
    sep: char,
)
    requires
        texts.len() >= 1,
        char_width(sep) == 1,
    ensures
        byte_len(reassemble_spec(prefix, texts, filename, sep)) <= byte_len(prefix) + (if prefix.len()
            > 0 && filename.len() > 0 {
            1int
        } else {
            0int
        }) + byte_len(filename) + costs(texts),
{
    lemma_join_bound(prefix, texts, sep);
    let body = join_texts(prefix, texts, sep);
    if filename.len() > 0 {
        let b = if body.len() > 0 && body.last() != sep {
            body.push(sep)
        } else {
            body
        };
        lemma_byte_len_push(body, sep);
        lemma_byte_len_concat(b, filename);
    }
}

/// The ellipsis result ends with the filename and fits `max_len` whenever
/// the filename does; when it does not fit, it is the filename alone.
pub proof fn lemma_ellipsis_properties(m: PathModel, max_len: int, ellipsis: Seq<char>)
    requires
        aligned(m),
        max_len >= 0,
    ensures
        is_suffix(m.filename, ellipsis_spec(m, max_len, ellipsis)),
        byte_len(m.filename) <= max_len ==> byte_len(ellipsis_spec(m, max_len, ellipsis))
            <= max_len,
        byte_len(ellipsis_spec(m, max_len, ellipsis)) <= max_len || ellipsis_spec(
            m,
            max_len,
            ellipsis,
        ) == m.filename,
{
    let sep = separator_spec(m.style);
    let r = ellipsis_spec(m, max_len, ellipsis);
    lemma_sep_width(m.style);
    if byte_len(assemble(m, m.texts)) <= max_len {
        crate::path_info::lemma_reassemble_ends_with_filename(m.prefix, m.texts, m.filename, sep);
    } else if m.texts.len() == 0 || byte_len(m.filename) >= max_len {
        assert(m.filename.subrange(0, m.filename.len() as int) =~= m.filename);
    } else {
        let ie = identity_end(m.priorities);
        lemma_identity_end_bound(m.priorities);
        let head = m.texts.subrange(0, ie);
        let cands = m.texts.subrange(ie, m.texts.len() as int);
        let fixed = base_cost(m) + costs(head) + byte_len(ellipsis) + 1;
        if fixed >= max_len {
            let mn = minimal_spec(m, ellipsis);
            if byte_len(mn) <= max_len {
                assert(mn.subrange(mn.len() - m.filename.len(), mn.len() as int) =~= m.filename);
            } else {
                assert(m.filename.subrange(0, m.filename.len() as int) =~= m.filename);
            }
        } else {
            let tc = greedy_tail(cands, max_len - fixed);
            lemma_greedy_tail(cands, max_len - fixed);
            let parts = head + seq![ellipsis] + last_n(cands, tc);
            crate::path_info::lemma_reassemble_ends_with_filename(
                m.prefix,
                parts,
                m.filename,
                sep,
            );
            lemma_reassemble_bound(m.prefix, parts, m.filename, sep);
            lemma_costs_concat(head + seq![ellipsis], last_n(cands, tc));
            lemma_costs_concat(head, seq![ellipsis]);
            let one = seq![ellipsis];
            assert(one.drop_last() =~= Seq::<Seq<char>>::empty());
            assert(costs(one.drop_last()) == 0);
            assert(one.last() == ellipsis);
            assert(costs(one) == byte_len(ellipsis) + 1);
        }
    }
}

/// prefix + separator (when the prefix is non-empty and does not already end
/// in one) + ellipsis + separator + filename.
pub fn minimal_chars(prefix: &Vec<char>, ellipsis: &Vec<char>, filename: &Vec<char>, style: PathStyle) -> (r: Vec<char>)
    ensures
        r@ == prefix@ + (if prefix@.len() > 0 && prefix@.last() != separator_spec(style) {
            seq![separator_spec(style)]
        } else {
            Seq::<char>::empty()
        }) + ellipsis@ + seq![separator_spec(style)] + filename@,
{
    let sep = separator(style);
    let mut r = copy_chars(prefix);
    let ghost r0 = r@;
    if prefix.len() > 0 && prefix[prefix.len() - 1] != sep {
        r.push(sep);
    }
    let ghost r1 = r@;
    append_chars(&mut r, ellipsis);
    r.push(sep);
    append_chars(&mut r, filename);
    proof {
        if prefix@.len() > 0 && prefix@.last() != sep {
            assert(r1 =~= prefix@ + seq![sep]);
        } else {
            assert(r1 =~= prefix@ + Seq::<char>::empty());
        }
        assert(r@ =~= r1 + ellipsis@ + seq![sep] + filename@);
    }
    r
}

/// One past the index of the last Identity segment of `info`.
fn find_identity_end(info: &PathInfo) -> (r: usize)
    ensures
        r == identity_end(info@.priorities),
        r <= info.segments.len(),
{
    let n = info.segments.len();
    let mut ie: usize = 0;
    let mut i: usize = 0;
    while i < n
        invariant
            n == info.segments.len(),
            i <= n,
            ie <= i,
            ie == identity_end(info@.priorities.subrange(0, i as int)),
        decreases n - i,
    {
        proof {
            let p = info@.priorities.subrange(0, i + 1);
            assert(p.drop_last() =~= info@.priorities.subrange(0, i as int));
            assert(p.last() == info.segments@[i as int].priority);
        }
        if info.segments[i].priority == SegmentPriority::Identity {
            ie = i + 1;
        }
        i = i + 1;
    }
    assert(info@.priorities.subrange(0, n as int) =~= info@.priorities);
    ie
}

/// Byte length of one text plus its separator, capped at `usize::MAX`.
fn cost_sat(t: &Vec<char>) -> (r: usize)
    ensures
        r == sat(byte_len(t@) as int + 1),
{
    byte_len_sat(t).saturating_add(1)
}

/// `costs` of `texts[0..to]`, capped at `usize::MAX`.
fn costs_sat(texts: &Vec<Vec<char>>, to: usize) -> (r: usize)
    requires
        to <= texts.len(),
    ensures
        r == sat(costs(seq_views(texts@).subrange(0, to as int))),
{
    let mut r: usize = 0;
    let mut j: usize = 0;
    while j < to
        invariant
            to <= texts.len(),
            j <= to,
            r == sat(costs(seq_views(texts@).subrange(0, j as int))),
        decreases to - j,
    {
        proof {
            let p = seq_views(texts@).subrange(0, j + 1);
            assert(p.drop_last() =~= seq_views(texts@).subrange(0, j as int));
            assert(p.last() == texts@[j as int]@);
            lemma_costs_nonneg(p.drop_last());
        }
        let c = cost_sat(&texts[j]);
        r = r.saturating_add(c);
        j = j + 1;
    }
    r
}

/// The greedy tail count over `texts[from..to]` within `budget`.
fn greedy_tail_exec(texts: &Vec<Vec<char>>, from: usize, to: usize, budget: usize) -> (r: usize)
    requires
        from <= to <= texts.len(),
        budget < usize::MAX,
    ensures
        r == greedy_tail(seq_views(texts@).subrange(from as int, to as int), budget as int),
        r <= to - from,
{
    let ghost cands = seq_views(texts@).subrange(from as int, to as int);
    let mut count: usize = 0;
    let mut used: usize = 0;
    let mut stop = false;
    let ncand = to - from;
    assert(cands.subrange(0, ncand as int) =~= cands);
    while count < ncand && !stop
        invariant
            from <= to <= texts.len(),
            budget < usize::MAX,
            ncand == to - from,
            cands == seq_views(texts@).subrange(from as int, to as int),
            count <= ncand,
            used <= budget,
            greedy_tail(cands, budget as int) == count + greedy_tail(
                cands.subrange(0, ncand - count),
                budget - used,
            ),
            stop ==> greedy_tail(cands.subrange(0, ncand - count), budget - used) == 0,
        decreases ncand - count + (if stop { 0int } else { 1int }),
    {
        let idx = to - 1 - count;
        let cost = cost_sat(&texts[idx]);
        let ghost rest = cands.subrange(0, ncand - count);
        let ghost b = budget - used;
        proof {
            assert(rest.last() == texts@[idx as int]@);
            assert(rest.drop_last() =~= cands.subrange(0, ncand - count - 1));
            assert(greedy_tail(rest, b) == if byte_len(rest.last()) + 1 <= b {
                1 + greedy_tail(rest.drop_last(), b - byte_len(rest.last()) - 1)
            } else {
                0
            });
        }
        if cost <= budget - used {
            used = used + cost;
            count = count + 1;
        } else {
            stop = true;
        }
    }
    proof {
        if !stop {
            assert(count == ncand);
            assert(cands.subrange(0, 0).len() == 0);
        }
    }
    count
}

/// `texts[0..ie]`, then `ell`, then `texts[tail_start..]`.
pub(crate) fn head_ellipsis_tail(texts: &Vec<Vec<char>>, ie: usize, ell: &Vec<char>, tail_start: usize) -> (parts: Vec<Vec<char>>)
    requires
        ie <= tail_start <= texts.len(),
    ensures
        seq_views(parts@) == seq_views(texts@).subrange(0, ie as int) + seq![ell@]
            + seq_views(texts@).subrange(tail_start as int, texts@.len() as int),
{
    let ghost tv = seq_views(texts@);
    let n = texts.len();
    let mut parts: Vec<Vec<char>> = Vec::new();
    let mut k: usize = 0;
    while k < ie
        invariant
            ie <= n == texts.len(),
            tv == seq_views(texts@),
            k <= ie,
            seq_views(parts@) == tv.subrange(0, k as int),
        decreases ie - k,
    {
        let t = copy_chars(&texts[k]);
        let ghost old_p = seq_views(parts@);
        parts.push(t);
        assert(seq_views(parts@) =~= old_p.push(t@));
        k = k + 1;
        assert(seq_views(parts@) =~= tv.subrange(0, k as int));
    }
    let ghost old_p = seq_views(parts@);
    let e = copy_chars(ell);
    parts.push(e);
    assert(seq_views(parts@) =~= old_p.push(e@));
    let mut k: usize = tail_start;
    assert(seq_views(parts@) =~= tv.subrange(0, ie as int) + seq![ell@] + tv.subrange(tail_start as int, k as int));
    while k < n
        invariant
            ie <= tail_start <= n == texts.len(),
            tail_start <= k <= n,
            tv == seq_views(texts@),
            seq_views(parts@) == tv.subrange(0, ie as int) + seq![ell@] + tv.subrange(tail_start as int, k as int),
        decreases n - k,
    {
        let t = copy_chars(&texts[k]);
        let ghost old_p = seq_views(parts@);
        parts.push(t);
        assert(seq_views(parts@) =~= old_p.push(t@));
        k = k + 1;
        assert(seq_views(parts@) =~= tv.subrange(0, ie as int) + seq![ell@] + tv.subrange(tail_start as int, k as int));
    }
    parts
}

/// Apply ellipsis-style shortening: replace middle segments with `...`.
///
/// Priorities when fitting into `max_len`:
/// 1. Filename is sacred (never truncated)
/// 2. Identity segments (username) preserved when possible
/// 3. Segments nearest to the filename are kept next (more context)
/// 4. Middle segments are collapsed into the ellipsis string
pub fn shrink_ellipsis(info: &PathInfo, max_len: usize, ellipsis: &str) -> (r: String)
    ensures
        r@ == ellipsis_spec(info@, max_len as int, ellipsis@),
        is_suffix(info@.filename, r@),
        byte_len(info@.filename) <= max_len ==> byte_len(r@) <= max_len,
        byte_len(r@) <= max_len || r@ == info@.filename,
{
    proof {
        lemma_ellipsis_properties(info@, max_len as int, ellipsis@);
    }
    let ghost m = info@;
    let sep = separator(info.style);
    let texts = segment_chars(info);
    let prefix = chars_of_string(&info.prefix);
    let filename = chars_of_string(&info.filename);
    let ell = chars_of(ellipsis);
    // Full reassembly

    let full = assemble_chars(&prefix, &texts, &filename, sep);
    if fits_within(&full, max_len) {
        return string_of(&full);
    }
    // Base cost: prefix + separator + filename

    let prefix_len = byte_len_sat(&prefix);
    let filename_len = byte_len_sat(&filename);
    let sep_cost: usize = if prefix.len() > 0 && filename.len() > 0 {
        1
    } else {
        0
    };
    let base_len = prefix_len.saturating_add(sep_cost).saturating_add(filename_len);
    assert(base_len == sat(base_cost(m)));

    // With no directory segment, or when the filename alone exceeds max_len,
    // return the filename (sacred)
    if texts.len() == 0 || filename_len >= max_len {
        return string_of(&filename);
    }
    // Find the last identity segment index; keep everything up to and including it.

    let n = texts.len();
    let ie = find_identity_end(info);
    let ghost head = m.texts.subrange(0, ie as int);
    let ghost cands = m.texts.subrange(ie as int, n as int);

    // Compute head cost
    let head_cost = costs_sat(&texts, ie);

    // Cost of the ellipsis marker
    let ellipsis_cost = byte_len_sat(&ell).saturating_add(1);

    // Available budget for tail segments
    let fixed_cost = base_len.saturating_add(head_cost).saturating_add(ellipsis_cost);
    proof {
        lemma_costs_nonneg(head);
    }
    assert(fixed_cost == sat(base_cost(m) + costs(head) + byte_len(ell@) + 1));

    if fixed_cost >= max_len {
        // Can't even fit head + ellipsis + filename
        // Try without head: just prefix + ... + filename
        let minimal = minimal_chars(&prefix, &ell, &filename, info.style);
        if fits_within(&minimal, max_len) {
            return string_of(&minimal);
        }
        // Last resort: just filename
        return string_of(&filename);
    }
    let budget = max_len - fixed_cost;

    // Greedily add tail segments from right to left
    let tail_count = greedy_tail_exec(&texts, ie, n, budget);

    // Build the result
    let tail_start = n - tail_count;
    let parts = head_ellipsis_tail(&texts, ie, &ell, tail_start);
    assert(last_n(cands, tail_count as int) =~= m.texts.subrange(tail_start as int, n as int));
    let r = assemble_chars(&prefix, &parts, &filename, sep);
    string_of(&r)
}

} // verus!
