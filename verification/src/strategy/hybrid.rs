use crate::path_info::{
    assemble,
    assemble_chars,
    lemma_reassemble_ends_with_filename,
    segment_chars,
    PathInfo,
    PathModel,
    SegmentPriority,
};
use crate::platform::{separator, separator_spec};
use crate::strategy::ellipsis::{head_ellipsis_tail, minimal_chars, minimal_spec};
use crate::strategy::fish::{abbreviate_chars, abbreviate_spec, anchor_chars, kept_full, string_views};
use crate::text::{
    byte_len, byte_len_sat, chars_of, chars_of_string, copy_chars, fits_within, is_suffix,
    seq_views, string_of,
};
use vstd::prelude::*;

verus! {

/// Whether a segment of priority `p` is fish-abbreviated by phase `level`
/// (1: Expendable, 2: also Context, 3: also Identity).
pub open spec fn fished_at(p: SegmentPriority, level: int) -> bool {
    p == SegmentPriority::Expendable || (level >= 2 && p == SegmentPriority::Context) || (level
        >= 3 && p == SegmentPriority::Identity)
}

/// The segment texts with those fished by phase `level` cut to their first
/// `dir_length` characters, except the last `full_length_dirs` segments.
pub open spec fn fished_texts(
    m: PathModel,
    anchors: Seq<Seq<char>>,
    level: int,
    dir_length: int,
    full_length_dirs: int,
) -> Seq<Seq<char>> {
    Seq::new(
        m.texts.len(),
        |i: int|
            if fished_at(m.priorities[i], level) && !kept_full(
                i,
                m.texts.len() as int,
                full_length_dirs,
            ) {
                abbreviate_spec(m.texts[i], dir_length, anchors)
            } else {
                m.texts[i]
            },
    )
}

/// `min(n, 3)`: the most head or tail segments a collapse keeps.
pub open spec fn keep_max(n: int) -> int {
    if n < 3 {
        n
    } else {
        3
    }
}

/// The path with the first `kh` texts, the ellipsis, and the last `kt` texts.
pub open spec fn collapse_candidate(
    m: PathModel,
    w: Seq<Seq<char>>,
    ellipsis: Seq<char>,
    kh: int,
    kt: int,
) -> Seq<char> {
    assemble(m, w.subrange(0, kh) + seq![ellipsis] + w.subrange(w.len() - kt, w.len() as int))
}

/// Keeping the first `kh` and the last `kt` of `n` segments keeps every
/// Identity segment.
pub open spec fn keeps_identity(m: PathModel, n: int, kh: int, kt: int) -> bool {
    forall|i: int|
        0 <= i < n && #[trigger] m.priorities[i] == SegmentPriority::Identity ==> i < kh || i >= n
            - kt
}

/// A collapse keeping `kh` head and `kt` tail segments is tried: it leaves
/// at least one segment to the ellipsis and, when `identity_only`, keeps
/// every Identity segment.
pub open spec fn collapse_allowed(m: PathModel, n: int, kh: int, kt: int, identity_only: bool) -> bool {
    kh + kt < n && (!identity_only || keeps_identity(m, n, kh, kt))
}

/// The first fitting allowed candidate in the order: `kt` from `keep_max`
/// down to 0, and for each `kt`, `kh` from `keep_max` down to 0.
pub open spec fn collapse_search(
    m: PathModel,
    w: Seq<Seq<char>>,
    max_len: int,
    ellipsis: Seq<char>,
    identity_only: bool,
    kt: int,
    kh: int,
) -> Option<Seq<char>>
    decreases kt + 1, kh + 1,
{
    if kt < 0 {
        None
    } else if kh < 0 {
        collapse_search(m, w, max_len, ellipsis, identity_only, kt - 1, keep_max(w.len() as int))
    } else if collapse_allowed(m, w.len() as int, kh, kt, identity_only) && byte_len(
        collapse_candidate(m, w, ellipsis, kh, kt),
    ) <= max_len {
        Some(collapse_candidate(m, w, ellipsis, kh, kt))
    } else {
        collapse_search(m, w, max_len, ellipsis, identity_only, kt, kh - 1)
    }
}

/// The first fitting allowed middle collapse of `w`, if any.
pub open spec fn collapse_spec(
    m: PathModel,
    w: Seq<Seq<char>>,
    max_len: int,
    ellipsis: Seq<char>,
    identity_only: bool,
) -> Option<Seq<char>> {
    let k = keep_max(w.len() as int);
    collapse_search(m, w, max_len, ellipsis, identity_only, k, k)
}

/// What a middle collapse gives: the first fitting candidate that keeps
/// at most three head and three tail segments, or, when none fits, prefix
/// + ellipsis + filename.
pub open spec fn collapse_middle_spec(
    m: PathModel,
    w: Seq<Seq<char>>,
    max_len: int,
    ellipsis: Seq<char>,
) -> Seq<char> {
    match collapse_spec(m, w, max_len, ellipsis, false) {
        Some(c) => c,
        None => minimal_spec(m, ellipsis),
    }
}

/// The hybrid shortening of `m`: the first of these that fits `max_len`:
/// the full path; (the filename alone when there is no directory segment
/// or the filename alone takes `max_len` bytes or more); Expendable
/// segments fished; Context segments fished too; the middle collapsed
/// keeping every Identity segment (more than two segments); Identity fished
/// too and the middle collapsed (more than two segments); prefix + ellipsis
/// + filename; and the filename alone.
pub open spec fn hybrid_spec(
    m: PathModel,
    max_len: int,
    ellipsis: Seq<char>,
    anchors: Seq<Seq<char>>,
    dir_length: int,
    full_length_dirs: int,
) -> Seq<char> {
    let n = m.texts.len();
    let full = assemble(m, m.texts);
    let w1 = fished_texts(m, anchors, 1, dir_length, full_length_dirs);
    let w2 = fished_texts(m, anchors, 2, dir_length, full_length_dirs);
    let w4 = fished_texts(m, anchors, 3, dir_length, full_length_dirs);
    let c3 = collapse_spec(m, w2, max_len, ellipsis, true);
    let c4 = collapse_spec(m, w4, max_len, ellipsis, false);
    let mn = minimal_spec(m, ellipsis);
    if byte_len(full) <= max_len {
        full
    } else if n == 0 || byte_len(m.filename) >= max_len {
        m.filename
    } else if byte_len(assemble(m, w1)) <= max_len {
        assemble(m, w1)
    } else if byte_len(assemble(m, w2)) <= max_len {
        assemble(m, w2)
    } else if n > 2 && c3 is Some {
        c3->0
    } else if n > 2 && c4 is Some {
        c4->0
    } else if byte_len(mn) <= max_len {
        mn
    } else {
        m.filename
    }
}

/// A found collapse ends with the filename, fits, and is an allowed candidate.
pub proof fn lemma_collapse_search_found(
    m: PathModel,
    w: Seq<Seq<char>>,
    max_len: int,
    ellipsis: Seq<char>,
    identity_only: bool,
    kt: int,
    kh: int,
)
    ensures
        collapse_search(m, w, max_len, ellipsis, identity_only, kt, kh) matches Some(r) ==> {
            &&& is_suffix(m.filename, r)
            &&& byte_len(r) <= max_len
            &&& exists|h: int, t: int|
                0 <= h && 0 <= t && collapse_allowed(m, w.len() as int, h, t, identity_only)
                    && r == #[trigger] collapse_candidate(m, w, ellipsis, h, t)
        },
    decreases kt + 1, kh + 1,
{
    if kt < 0 {
    } else if kh < 0 {
        lemma_collapse_search_found(
            m,
            w,
            max_len,
            ellipsis,
            identity_only,
            kt - 1,
            keep_max(w.len() as int),
        );
    } else if collapse_allowed(m, w.len() as int, kh, kt, identity_only) && byte_len(
        collapse_candidate(m, w, ellipsis, kh, kt),
    ) <= max_len {
        lemma_reassemble_ends_with_filename(
            m.prefix,
            w.subrange(0, kh) + seq![ellipsis] + w.subrange(w.len() - kt, w.len() as int),
            m.filename,
            separator_spec(m.style),
        );
    } else {
        lemma_collapse_search_found(m, w, max_len, ellipsis, identity_only, kt, kh - 1);
    }
}

/// The search finds something whenever an allowed candidate at or after
/// the current position in the order fits.
pub proof fn lemma_collapse_search_complete(
    m: PathModel,
    w: Seq<Seq<char>>,
    max_len: int,
    ellipsis: Seq<char>,
    identity_only: bool,
    kt: int,
    kh: int,
    kt2: int,
    kh2: int,
)
    requires
        0 <= kt2,
        0 <= kh2 <= keep_max(w.len() as int),
        kt2 < kt || (kt2 == kt && kh2 <= kh),
        collapse_allowed(m, w.len() as int, kh2, kt2, identity_only),
        byte_len(collapse_candidate(m, w, ellipsis, kh2, kt2)) <= max_len,
    ensures
        collapse_search(m, w, max_len, ellipsis, identity_only, kt, kh) is Some,
    decreases kt + 1, kh + 1,
{
    if kh < 0 {
        lemma_collapse_search_complete(
            m,
            w,
            max_len,
            ellipsis,
            identity_only,
            kt - 1,
            keep_max(w.len() as int),
            kt2,
            kh2,
        );
    } else if collapse_allowed(m, w.len() as int, kh, kt, identity_only) && byte_len(
        collapse_candidate(m, w, ellipsis, kh, kt),
    ) <= max_len {
    } else {
        lemma_collapse_search_complete(
            m,
            w,
            max_len,
            ellipsis,
            identity_only,
            kt,
            kh - 1,
            kt2,
            kh2,
        );
    }
}

proof fn lemma_minimal_suffix(m: PathModel, ellipsis: Seq<char>)
    ensures
        is_suffix(m.filename, minimal_spec(m, ellipsis)),
{
    let mn = minimal_spec(m, ellipsis);
    assert(mn.subrange(mn.len() - m.filename.len(), mn.len() as int) =~= m.filename);
}

/// The hybrid result ends with the filename and fits `max_len` whenever the
/// filename does; when it does not fit, it is the filename alone.
pub proof fn lemma_hybrid_properties(
    m: PathModel,
    max_len: int,
    ellipsis: Seq<char>,
    anchors: Seq<Seq<char>>,
    dir_length: int,
    full_length_dirs: int,
)
    ensures
        is_suffix(
            m.filename,
            hybrid_spec(m, max_len, ellipsis, anchors, dir_length, full_length_dirs),
        ),
        byte_len(m.filename) <= max_len ==> byte_len(
            hybrid_spec(m, max_len, ellipsis, anchors, dir_length, full_length_dirs),
        ) <= max_len,
        byte_len(hybrid_spec(m, max_len, ellipsis, anchors, dir_length, full_length_dirs))
            <= max_len || hybrid_spec(m, max_len, ellipsis, anchors, dir_length, full_length_dirs)
            == m.filename,
{
    let sep = separator_spec(m.style);
    let w1 = fished_texts(m, anchors, 1, dir_length, full_length_dirs);
    let w2 = fished_texts(m, anchors, 2, dir_length, full_length_dirs);
    let w4 = fished_texts(m, anchors, 3, dir_length, full_length_dirs);
    lemma_reassemble_ends_with_filename(m.prefix, m.texts, m.filename, sep);
    lemma_reassemble_ends_with_filename(m.prefix, w1, m.filename, sep);
    lemma_reassemble_ends_with_filename(m.prefix, w2, m.filename, sep);
    let k2 = keep_max(w2.len() as int);
    let k4 = keep_max(w4.len() as int);
    lemma_collapse_search_found(m, w2, max_len, ellipsis, true, k2, k2);
    lemma_collapse_search_found(m, w4, max_len, ellipsis, false, k4, k4);
    lemma_minimal_suffix(m, ellipsis);
    assert(m.filename.subrange(0, m.filename.len() as int) =~= m.filename);
}

/// The segment texts with those fished by phase `level` abbreviated.
fn fished_texts_exec(
    info: &PathInfo,
    texts: &Vec<Vec<char>>,
    anchors: &Vec<Vec<char>>,
    level: u8,
    dir_length: usize,
    full_length_dirs: usize,
) -> (w: Vec<Vec<char>>)
    requires
        seq_views(texts@) == info@.texts,
    ensures
        seq_views(w@) == fished_texts(
            info@,
            seq_views(anchors@),
            level as int,
            dir_length as int,
            full_length_dirs as int,
        ),
{
    let ghost target = fished_texts(
        info@,
        seq_views(anchors@),
        level as int,
        dir_length as int,
        full_length_dirs as int,
    );
    let n = texts.len();
    let mut w: Vec<Vec<char>> = Vec::new();
    let mut i: usize = 0;
    while i < n
        invariant
            n == texts.len() == info.segments.len(),
            seq_views(texts@) == info@.texts,
            target == fished_texts(
                info@,
                seq_views(anchors@),
                level as int,
                dir_length as int,
                full_length_dirs as int,
            ),
            i <= n,
            seq_views(w@) == target.subrange(0, i as int),
        decreases n - i,
    {
        let p = info.segments[i].priority;
        assert(p == info@.priorities[i as int]);
        assert(texts@[i as int]@ == info@.texts[i as int]);
        let keep = full_length_dirs > 0 && i >= n.saturating_sub(full_length_dirs);
        let fish = (p == SegmentPriority::Expendable || (level >= 2 && p == SegmentPriority::Context)
            || (level >= 3 && p == SegmentPriority::Identity)) && !keep;
        let t = if fish {
            abbreviate_chars(&texts[i], dir_length, anchors)
        } else {
            copy_chars(&texts[i])
        };
        assert(t@ == target[i as int]);
        let ghost old_w = seq_views(w@);
        w.push(t);
        assert(seq_views(w@) =~= old_w.push(t@));
        i = i + 1;
        assert(seq_views(w@) =~= target.subrange(0, i as int));
    }
    assert(target.subrange(0, n as int) =~= target);
    w
}

/// Whether keeping the first `kh` and the last `kt` segments keeps every
/// Identity segment of `info`.
fn keeps_identity_exec(info: &PathInfo, kh: usize, kt: usize) -> (r: bool)
    requires
        kt <= info.segments.len(),
    ensures
        r == keeps_identity(info@, info.segments.len() as int, kh as int, kt as int),
{
    let n = info.segments.len();
    let mut i: usize = 0;
    while i < n
        invariant
            n == info.segments.len(),
            kt <= n,
            i <= n,
            forall|j: int|
                0 <= j < i && #[trigger] info@.priorities[j] == SegmentPriority::Identity ==> j < kh
                    || j >= n - kt,
        decreases n - i,
    {
        assert(info@.priorities[i as int] == info.segments@[i as int].priority);
        if info.segments[i].priority == SegmentPriority::Identity && !(i < kh || i >= n - kt) {
            return false;
        }
        i = i + 1;
    }
    true
}

/// The first allowed middle collapse of `working` that fits, if any.
fn find_collapse(
    info: &PathInfo,
    working: &Vec<Vec<char>>,
    prefix: &Vec<char>,
    filename: &Vec<char>,
    max_len: usize,
    ellipsis: &Vec<char>,
    identity_only: bool,
) -> (r: Option<Vec<char>>)
    requires
        prefix@ == info@.prefix,
        filename@ == info@.filename,
        working.len() == info.segments.len(),
    ensures
        match r {
            Some(v) => collapse_spec(info@, seq_views(working@), max_len as int, ellipsis@, identity_only)
                == Some(v@),
            None => collapse_spec(info@, seq_views(working@), max_len as int, ellipsis@, identity_only)
                is None,
        },
{
    let ghost m = info@;
    let ghost w = seq_views(working@);
    let sep = separator(info.style);
    let n = working.len();
    let k: usize = if n < 3 {
        n
    } else {
        3
    };
    let ghost start = collapse_search(m, w, max_len as int, ellipsis@, identity_only, k as int, k as int);
    assert(w.len() == n);

    // Try keeping more tail segments first, then fewer
    let mut kt_next: usize = k + 1;
    while kt_next > 0
        invariant
            n == working.len() == info.segments.len(),
            w == seq_views(working@),
            w.len() == n,
            m == info@,
            prefix@ == m.prefix,
            filename@ == m.filename,
            sep == separator_spec(m.style),
            k == keep_max(n as int),
            kt_next <= k + 1,
            start == collapse_search(m, w, max_len as int, ellipsis@, identity_only, k as int, k as int),
            start == collapse_search(
                m,
                w,
                max_len as int,
                ellipsis@,
                identity_only,
                kt_next - 1,
                k as int,
            ),
        decreases kt_next,
    {
        let kt = kt_next - 1;
        let mut kh_next: usize = k + 1;
        while kh_next > 0
            invariant
                n == working.len() == info.segments.len(),
                w == seq_views(working@),
                w.len() == n,
                m == info@,
                prefix@ == m.prefix,
                filename@ == m.filename,
                sep == separator_spec(m.style),
                k == keep_max(n as int),
                kt < kt_next <= k + 1,
                kt == kt_next - 1,
                kh_next <= k + 1,
                start == collapse_search(
                    m,
                    w,
                    max_len as int,
                    ellipsis@,
                    identity_only,
                    k as int,
                    k as int,
                ),
                start == collapse_search(
                    m,
                    w,
                    max_len as int,
                    ellipsis@,
                    identity_only,
                    kt as int,
                    kh_next - 1,
                ),
            decreases kh_next,
        {
            let kh = kh_next - 1;
            if kh + kt < n && (!identity_only || keeps_identity_exec(info, kh, kt)) {
                let parts = head_ellipsis_tail(working, kh, ellipsis, n - kt);
                let candidate = assemble_chars(prefix, &parts, filename, sep);
                assert(candidate@ == collapse_candidate(m, w, ellipsis@, kh as int, kt as int));
                if fits_within(&candidate, max_len) {
                    assert(collapse_search(
                        m,
                        w,
                        max_len as int,
                        ellipsis@,
                        identity_only,
                        kt as int,
                        kh as int,
                    ) == Some(candidate@));
                    return Some(candidate);
                }
            }
            kh_next = kh_next - 1;
        }
        kt_next = kt_next - 1;
    }
    None
}

/// Collapse middle segments into an ellipsis, keeping head and tail
/// segments: the first candidate that fits, trying more tail segments
/// first and, for each, more head segments first; when none fits, prefix +
/// ellipsis + filename.
fn collapse_middle(
    info: &PathInfo,
    working: &Vec<Vec<char>>,
    prefix: &Vec<char>,
    filename: &Vec<char>,
    max_len: usize,
    ellipsis: &Vec<char>,
) -> (r: Vec<char>)
    requires
        prefix@ == info@.prefix,
        filename@ == info@.filename,
        working.len() == info.segments.len(),
    ensures
        r@ == collapse_middle_spec(info@, seq_views(working@), max_len as int, ellipsis@),
{
    match find_collapse(info, working, prefix, filename, max_len, ellipsis, false) {
        Some(c) => c,
        None => minimal_chars(prefix, ellipsis, filename, info.style),
    }
}

/// Apply hybrid shortening with one character per abbreviated segment and
/// no trailing segments kept in full (see [`shrink_hybrid_with_lengths`]).
pub fn shrink_hybrid(info: &PathInfo, max_len: usize, ellipsis: &str, anchors: &[String]) -> (r:
    String)
    ensures
        r@ == hybrid_spec(info@, max_len as int, ellipsis@, string_views(anchors@), 1, 0),
        is_suffix(info@.filename, r@),
        byte_len(info@.filename) <= max_len ==> byte_len(r@) <= max_len,
        byte_len(r@) <= max_len || r@ == info@.filename,
{
    shrink_hybrid_with_lengths(info, max_len, ellipsis, anchors, 1, 0)
}

/// Apply hybrid shortening: graduated approach.
///
/// Phase 1: Fish-abbreviate expendable segments.
/// Phase 2: Fish-abbreviate context segments.
/// Phase 3: Collapse the middle into the ellipsis, keeping every identity segment.
/// Phase 4: Fish-abbreviate identity segments (last resort) and collapse again.
///
/// Abbreviated segments keep `dir_length` characters; the last
/// `full_length_dirs` segments are never abbreviated. Never touches
/// filename or prefix.
pub fn shrink_hybrid_with_lengths(
    info: &PathInfo,
    max_len: usize,
    ellipsis: &str,
    anchors: &[String],
    dir_length: usize,
    full_length_dirs: usize,
) -> (r: String)
    ensures
        r@ == hybrid_spec(
            info@,
            max_len as int,
            ellipsis@,
            string_views(anchors@),
            dir_length as int,
            full_length_dirs as int,
        ),
        is_suffix(info@.filename, r@),
        byte_len(info@.filename) <= max_len ==> byte_len(r@) <= max_len,
        byte_len(r@) <= max_len || r@ == info@.filename,
{
    proof {
        lemma_hybrid_properties(
            info@,
            max_len as int,
            ellipsis@,
            string_views(anchors@),
            dir_length as int,
            full_length_dirs as int,
        );
    }
    let sep = separator(info.style);
    let texts = segment_chars(info);
    let prefix = chars_of_string(&info.prefix);
    let filename = chars_of_string(&info.filename);
    let ell = chars_of(ellipsis);
    let a = anchor_chars(anchors);
    // Full reassembly check
    let full = assemble_chars(&prefix, &texts, &filename, sep);
    if fits_within(&full, max_len) {
        return string_of(&full);
    }
    // With no directory segment, or when the filename alone exceeds
    // max_len, return the filename (sacred)

    if texts.len() == 0 || byte_len_sat(&filename) >= max_len {
        return string_of(&filename);
    }
    // Phase 1: Fish expendable segments

    let w1 = fished_texts_exec(info, &texts, &a, 1, dir_length, full_length_dirs);
    let r1 = assemble_chars(&prefix, &w1, &filename, sep);
    if fits_within(&r1, max_len) {
        return string_of(&r1);
    }
    // Phase 2: Fish context segments

    let w2 = fished_texts_exec(info, &texts, &a, 2, dir_length, full_length_dirs);
    let r2 = assemble_chars(&prefix, &w2, &filename, sep);
    if fits_within(&r2, max_len) {
        return string_of(&r2);
    }
    // Phase 3: Collapse the middle into the ellipsis, keeping every identity segment

    let n = texts.len();
    if n > 2 {
        if let Some(collapsed) = find_collapse(info, &w2, &prefix, &filename, max_len, &ell, true) {
            return string_of(&collapsed);
        }
    }
    // Phase 4: Fish identity segments (last resort) and collapse again

    let w4 = fished_texts_exec(info, &texts, &a, 3, dir_length, full_length_dirs);
    if n > 2 {
        let collapsed = collapse_middle(info, &w4, &prefix, &filename, max_len, &ell);
        proof {
            let k = keep_max(n as int);
            lemma_collapse_search_found(
                info@,
                seq_views(w4@),
                max_len as int,
                ell@,
                false,
                k,
                k,
            );
        }
        if fits_within(&collapsed, max_len) {
            return string_of(&collapsed);
        }
    }
    // Final: just prefix + ellipsis + filename

    let minimal = minimal_chars(&prefix, &ell, &filename, info.style);
    if fits_within(&minimal, max_len) {
        return string_of(&minimal);
    }
    // Absolute last resort: filename only

    string_of(&filename)
}

} // verus!
