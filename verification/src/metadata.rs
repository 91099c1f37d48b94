//! Shortening with per-segment metadata.
use crate::path_info::{parse_spec, segment_chars, PathInfo, PathModel};
use crate::platform::PathStyle;
use crate::text::{
    byte_len, chars_eq, chars_of, chars_of_string, lemma_byte_len_is_utf8_len, seq_views,
    string_of,
};
use crate::{
    apply_mapped_locations, shrink, shrink_model, shrink_spec,
    ShrinkOptions,
};
use vstd::prelude::*;

verus! {

/// Metadata about a single component in the shortened path.
#[derive(Debug, Clone, PartialEq, Eq)]
pub struct SegmentInfo {
    /// The original full text.
    pub original: String,
    /// The shortened text (may equal original if not abbreviated).
    pub shortened: String,
    /// Whether this component was abbreviated.
    pub was_abbreviated: bool,
    /// Whether this is the filename (sacred, always last).
    pub is_filename: bool,
}

/// The content of a [`SegmentInfo`].
pub struct SegmentInfoModel {
    pub original: Seq<char>,
    pub shortened: Seq<char>,
    pub was_abbreviated: bool,
    pub is_filename: bool,
}

impl View for SegmentInfo {
    type V = SegmentInfoModel;

    open spec fn view(&self) -> SegmentInfoModel {
        SegmentInfoModel {
            original: self.original@,
            shortened: self.shortened@,
            was_abbreviated: self.was_abbreviated,
            is_filename: self.is_filename,
        }
    }
}

/// Result of a shrink operation with metadata.
#[derive(Debug, Clone)]
pub struct ShrinkResult {
    /// The shortened path string.
    pub shortened: String,
    /// Length of the original path.
    pub original_len: usize,
    /// Length of the shortened path.
    pub shortened_len: usize,
    /// Whether the path was actually truncated.
    pub was_truncated: bool,
    /// Detected (or forced) path style.
    pub detected_style: PathStyle,
    /// Per-segment metadata for the shortened path.
    pub segments: Vec<SegmentInfo>,
}

/// The contents of a list of segment metadata.
pub open spec fn info_views(v: Seq<SegmentInfo>) -> Seq<SegmentInfoModel> {
    v.map_values(|s: SegmentInfo| s@)
}

/// Metadata pairing an original text with its shortened form.
pub open spec fn pair_info(o: Seq<char>, s: Seq<char>, is_filename: bool) -> SegmentInfoModel {
    SegmentInfoModel { original: o, shortened: s, was_abbreviated: o != s, is_filename }
}

/// `t` holds two consecutive dots (as the markers `..` and `...` do).
pub open spec fn has_dotdot(t: Seq<char>) -> bool {
    exists|i: int| 0 <= i && #[trigger] dotdot_at(t, i)
}

/// `t` holds `..` at index `i`.
pub open spec fn dotdot_at(t: Seq<char>, i: int) -> bool {
    i + 1 < t.len() && t[i] == '.' && t[i + 1] == '.'
}

/// `t` is the ellipsis marker: it equals `ellipsis` or holds two
/// consecutive dots.
pub open spec fn is_marker(t: Seq<char>, ellipsis: Seq<char>) -> bool {
    t == ellipsis || has_dotdot(t)
}

/// Index of the first text from `i` on that is the ellipsis marker.
pub open spec fn first_marker_from(texts: Seq<Seq<char>>, i: int, ellipsis: Seq<char>) -> Option<
    int,
>
    decreases texts.len() - i,
{
    if i < 0 || i >= texts.len() {
        None
    } else if is_marker(texts[i], ellipsis) {
        Some(i)
    } else {
        first_marker_from(texts, i + 1, ellipsis)
    }
}

/// Metadata of the directory segments, mapping the shortened segments `s`
/// back to the original ones `o`: one to one when the counts agree; else
/// around the first shortened segment that is the ellipsis marker, the
/// head maps one to one, each collapsed original maps to the marker, and
/// the tail maps to the last originals; with no marker, each shortened
/// segment stands for itself.
pub open spec fn dir_metadata(o: Seq<Seq<char>>, s: Seq<Seq<char>>, ellipsis: Seq<char>) -> Seq<
    SegmentInfoModel,
> {
    if o.len() == s.len() {
        Seq::new(o.len(), |i: int| pair_info(o[i], s[i], false))
    } else {
        match first_marker_from(s, 0, ellipsis) {
            Some(e) => {
                let head_n = if e < o.len() {
                    e
                } else {
                    o.len() as int
                };
                let tail_count = s.len() - e - 1;
                let collapsed_end = if o.len() > tail_count {
                    o.len() - tail_count
                } else {
                    0
                };
                let collapsed_n = if collapsed_end > e {
                    collapsed_end - e
                } else {
                    0
                };
                Seq::new(head_n as nat, |i: int| pair_info(o[i], s[i], false)) + Seq::new(
                    collapsed_n as nat,
                    |j: int|
                        SegmentInfoModel {
                            original: o[e + j],
                            shortened: s[e],
                            was_abbreviated: true,
                            is_filename: false,
                        },
                ) + Seq::new(
                    tail_count as nat,
                    |j: int| pair_info(o[o.len() - tail_count + j], s[e + 1 + j], false),
                )
            },
            None => Seq::new(s.len(), |i: int| pair_info(s[i], s[i], false)),
        }
    }
}

/// Segment metadata: the directory segments, then the filename (when the
/// original has one).
pub open spec fn metadata_spec(o: PathModel, s: PathModel, ellipsis: Seq<char>) -> Seq<
    SegmentInfoModel,
> {
    dir_metadata(o.texts, s.texts, ellipsis) + (if o.filename.len() > 0 {
        seq![pair_info(o.filename, s.filename, true)]
    } else {
        Seq::empty()
    })
}

/// The inputs on which mapping the tail back underflows: more tail segments
/// after the ellipsis marker than the original has segments.
pub open spec fn metadata_underflows(o: PathModel, s: PathModel, ellipsis: Seq<char>) -> bool {
    o.texts.len() != s.texts.len() && match first_marker_from(s.texts, 0, ellipsis) {
        Some(e) => s.texts.len() - e - 1 > o.texts.len(),
        None => false,
    }
}

/// Whether `t` holds two consecutive dots.
fn has_dotdot_exec(t: &Vec<char>) -> (r: bool)
    ensures
        r == has_dotdot(t@),
{
    if t.len() < 2 {
        proof {
            assert forall|k: int| 0 <= k implies !#[trigger] dotdot_at(t@, k) by {}
        }
        return false;
    }
    let mut i: usize = 0;
    while i < t.len() - 1
        invariant
            t.len() >= 2,
            forall|k: int| 0 <= k < i ==> !#[trigger] dotdot_at(t@, k),
        decreases t.len() - i,
    {
        if t[i] == '.' && t[i + 1] == '.' {
            assert(dotdot_at(t@, i as int));
            return true;
        }
        i = i + 1;
    }
    assert forall|k: int| 0 <= k implies !#[trigger] dotdot_at(t@, k) by {
        if k >= i {
            assert(!(k + 1 < t@.len()));
        }
    }
    false
}

/// Index of the first text that is the ellipsis marker.
fn first_marker(texts: &Vec<Vec<char>>, ellipsis: &Vec<char>) -> (r: Option<usize>)
    ensures
        match r {
            Some(e) => first_marker_from(seq_views(texts@), 0, ellipsis@) == Some(e as int) && e
                < texts.len(),
            None => first_marker_from(seq_views(texts@), 0, ellipsis@) is None,
        },
{
    let ghost tv = seq_views(texts@);
    let mut i: usize = 0;
    while i < texts.len()
        invariant
            tv == seq_views(texts@),
            i <= texts.len(),
            first_marker_from(tv, 0, ellipsis@) == first_marker_from(tv, i as int, ellipsis@),
        decreases texts.len() - i,
    {
        assert(tv[i as int] == texts@[i as int]@);
        if chars_eq(&texts[i], ellipsis) || has_dotdot_exec(&texts[i]) {
            return Some(i);
        }
        i = i + 1;
    }
    None
}

/// Metadata for one pair of texts.
fn make_info(o: &Vec<char>, s: &Vec<char>, is_filename: bool) -> (r: SegmentInfo)
    ensures
        r@ == pair_info(o@, s@, is_filename),
{
    SegmentInfo {
        original: string_of(o),
        shortened: string_of(s),
        was_abbreviated: !chars_eq(o, s),
        is_filename,
    }
}

/// Build per-segment metadata by comparing original and shortened segment texts.
fn build_dir_metadata(o: &Vec<Vec<char>>, s: &Vec<Vec<char>>, ellipsis: &Vec<char>) -> (r: Vec<
    SegmentInfo,
>)
    requires
        !(o.len() != s.len() && match first_marker_from(seq_views(s@), 0, ellipsis@) {
            Some(e) => s.len() - e - 1 > o.len(),
            None => false,
        }),
    ensures
        info_views(r@) == dir_metadata(seq_views(o@), seq_views(s@), ellipsis@),
{
    let ghost ov = seq_views(o@);
    let ghost sv = seq_views(s@);
    let ghost target = dir_metadata(ov, sv, ellipsis@);
    let mut result: Vec<SegmentInfo> = Vec::new();
    let orig_seg_count = o.len();
    let short_seg_count = s.len();
    if orig_seg_count == short_seg_count {
        // 1-to-1 mapping
        let mut i: usize = 0;
        while i < orig_seg_count
            invariant
                ov == seq_views(o@),
                sv == seq_views(s@),
                orig_seg_count == o.len() == s.len(),
                target == Seq::new(ov.len(), |i: int| pair_info(ov[i], sv[i], false)),
                i <= orig_seg_count,
                info_views(result@) == target.subrange(0, i as int),
            decreases orig_seg_count - i,
        {
            let m = make_info(&o[i], &s[i], false);
            let ghost old_r = info_views(result@);
            result.push(m);
            assert(info_views(result@) =~= old_r.push(m@));
            i = i + 1;
            assert(info_views(result@) =~= target.subrange(0, i as int));
        }
        assert(target.subrange(0, orig_seg_count as int) =~= target);
        return result;
    }
    // Shortened has a different segment count (ellipsis collapse).
    // Find the ellipsis marker position in shortened segments

    match first_marker(s, ellipsis) {
        Some(eidx) => {
            // Segments before ellipsis map to the first eidx original segments
            let head_n = if eidx < orig_seg_count {
                eidx
            } else {
                orig_seg_count
            };
            let tail_count = short_seg_count - eidx - 1;
            let collapsed_end = orig_seg_count.saturating_sub(tail_count);
            let collapsed_n: usize = if collapsed_end > eidx {
                collapsed_end - eidx
            } else {
                0
            };
            let ghost head = Seq::new(head_n as nat, |i: int| pair_info(ov[i], sv[i], false));
            let ghost mid = Seq::new(
                collapsed_n as nat,
                |j: int|
                    SegmentInfoModel {
                        original: ov[eidx + j],
                        shortened: sv[eidx as int],
                        was_abbreviated: true,
                        is_filename: false,
                    },
            );
            let ghost tail = Seq::new(
                tail_count as nat,
                |j: int| pair_info(ov[ov.len() - tail_count + j], sv[eidx + 1 + j], false),
            );
            assert(target == head + mid + tail);
            assert(tail_count <= orig_seg_count);
            assert(collapsed_end == orig_seg_count - tail_count);
            assert(collapsed_n == 0 || eidx + collapsed_n <= orig_seg_count);
            let mut i: usize = 0;
            while i < head_n
                invariant
                    ov == seq_views(o@),
                    sv == seq_views(s@),
                    head_n <= o.len(),
                    head_n <= s.len(),
                    orig_seg_count == o.len(),
                    tail_count <= o.len(),
                    eidx + 1 + tail_count == s.len(),
                    collapsed_n == 0 || eidx + collapsed_n <= o.len(),
                    head == Seq::new(head_n as nat, |i: int| pair_info(ov[i], sv[i], false)),
                    i <= head_n,
                    info_views(result@) == head.subrange(0, i as int),
                decreases head_n - i,
            {
                let m = make_info(&o[i], &s[i], false);
                let ghost old_r = info_views(result@);
                result.push(m);
                assert(info_views(result@) =~= old_r.push(m@));
                i = i + 1;
                assert(info_views(result@) =~= head.subrange(0, i as int));
            }
            assert(head.subrange(0, head_n as int) =~= head);

            // The ellipsis itself represents collapsed segments
            let mut j: usize = 0;
            while j < collapsed_n
                invariant
                    ov == seq_views(o@),
                    sv == seq_views(s@),
                    orig_seg_count == o.len(),
                    tail_count <= o.len(),
                    eidx + 1 + tail_count == s.len(),
                    collapsed_n == 0 || eidx + collapsed_n <= o.len(),
                    mid == Seq::new(
                        collapsed_n as nat,
                        |j: int|
                            SegmentInfoModel {
                                original: ov[eidx + j],
                                shortened: sv[eidx as int],
                                was_abbreviated: true,
                                is_filename: false,
                            },
                    ),
                    j <= collapsed_n,
                    info_views(result@) == head + mid.subrange(0, j as int),
                decreases collapsed_n - j,
            {
                let m = SegmentInfo {
                    original: string_of(&o[eidx + j]),
                    shortened: string_of(&s[eidx]),
                    was_abbreviated: true,
                    is_filename: false,
                };
                let ghost old_r = info_views(result@);
                result.push(m);
                assert(info_views(result@) =~= old_r.push(m@));
                j = j + 1;
                assert(info_views(result@) =~= head + mid.subrange(0, j as int));
            }
            assert(mid.subrange(0, collapsed_n as int) =~= mid);

            // Tail segments after ellipsis
            let mut k: usize = 0;
            while k < tail_count
                invariant
                    ov == seq_views(o@),
                    sv == seq_views(s@),
                    tail_count <= o.len(),
                    orig_seg_count == o.len(),
                    eidx + 1 + tail_count == s.len(),
                    tail == Seq::new(
                        tail_count as nat,
                        |j: int| pair_info(ov[ov.len() - tail_count + j], sv[eidx + 1 + j], false),
                    ),
                    k <= tail_count,
                    info_views(result@) == head + mid + tail.subrange(0, k as int),
                decreases tail_count - k,
            {
                let orig_idx = orig_seg_count - tail_count + k;
                let m = make_info(&o[orig_idx], &s[eidx + 1 + k], false);
                let ghost old_r = info_views(result@);
                result.push(m);
                assert(info_views(result@) =~= old_r.push(m@));
                k = k + 1;
                assert(info_views(result@) =~= head + mid + tail.subrange(0, k as int));
            }
            assert(tail.subrange(0, tail_count as int) =~= tail);
        },
        None => {
            // No ellipsis marker but different counts — use shortened as-is
            let mut i: usize = 0;
            while i < short_seg_count
                invariant
                    sv == seq_views(s@),
                    short_seg_count == s.len(),
                    target == Seq::new(sv.len(), |i: int| pair_info(sv[i], sv[i], false)),
                    i <= short_seg_count,
                    info_views(result@) == target.subrange(0, i as int),
                decreases short_seg_count - i,
            {
                let m = make_info(&s[i], &s[i], false);
                let ghost old_r = info_views(result@);
                result.push(m);
                assert(info_views(result@) =~= old_r.push(m@));
                i = i + 1;
                assert(info_views(result@) =~= target.subrange(0, i as int));
            }
            assert(target.subrange(0, short_seg_count as int) =~= target);
        },
    }
    result
}

/// Build per-segment metadata by comparing original and shortened PathInfo.
fn build_segment_metadata(original: &PathInfo, shortened: &PathInfo, ellipsis: &str) -> (r: Vec<
    SegmentInfo,
>)
    requires
        !metadata_underflows(original@, shortened@, ellipsis@),
    ensures
        info_views(r@) == metadata_spec(original@, shortened@, ellipsis@),
{
    let o = segment_chars(original);
    let s = segment_chars(shortened);
    let ell = chars_of(ellipsis);
    let mut result = build_dir_metadata(&o, &s, &ell);
    // Add filename segment
    let ofn = chars_of_string(&original.filename);
    if ofn.len() > 0 {
        let sfn = chars_of_string(&shortened.filename);
        let m = make_info(&ofn, &sfn, true);
        let ghost old_r = info_views(result@);
        result.push(m);
        assert(info_views(result@) =~= old_r + seq![m@]);
    } else {
        assert(info_views(result@) =~= info_views(result@) + Seq::<SegmentInfoModel>::empty());
    }
    result
}

/// Whether [`shrink_detailed`] is defined on these inputs: mapping the
/// shortened segments back to the original ones does not underflow.
pub fn can_shrink_detailed(path: &str, opts: &ShrinkOptions) -> (r: bool)
    ensures
        r == (path@.len() > 0 ==> !metadata_underflows(
            shrink_model(path@, *opts),
            parse_spec(shrink_spec(path@, *opts), opts.path_style),
            opts.ellipsis@,
        )),
{
    if path.unicode_len() == 0 {
        return true;
    }
    let mapped_path = apply_mapped_locations(path, opts.mapped_locations.as_slice());
    let original_info = PathInfo::parse(mapped_path.as_str(), opts.path_style);
    let shortened = shrink(path, opts);
    let shortened_info = PathInfo::parse(shortened.as_str(), opts.path_style);
    let o = segment_chars(&original_info);
    let s = segment_chars(&shortened_info);
    if o.len() == s.len() {
        return true;
    }
    let ell = chars_of(opts.ellipsis.as_str());
    match first_marker(&s, &ell) {
        Some(e) => s.len() - e - 1 <= o.len(),
        None => true,
    }
}

/// Shorten a path with detailed result metadata.
pub fn shrink_detailed(path: &str, opts: &ShrinkOptions) -> (r: ShrinkResult)
    requires
        path@.len() > 0 ==> !metadata_underflows(
            shrink_model(path@, *opts),
            parse_spec(shrink_spec(path@, *opts), opts.path_style),
            opts.ellipsis@,
        ),
    ensures
        r.shortened@ == shrink_spec(path@, *opts),
        r.original_len == byte_len(path@) as usize,
        r.shortened_len == byte_len(r.shortened@) as usize,
        r.was_truncated == (r.shortened@ != path@),
        r.detected_style == (if path@.len() == 0 {
            PathStyle::Unix
        } else {
            shrink_model(path@, *opts).style
        }),
        info_views(r.segments@) == (if path@.len() == 0 {
            Seq::empty()
        } else {
            metadata_spec(
                shrink_model(path@, *opts),
                parse_spec(shrink_spec(path@, *opts), opts.path_style),
                opts.ellipsis@,
            )
        }),
{
    proof {
        lemma_byte_len_is_utf8_len(path@);
    }
    if path.unicode_len() == 0 {
        let r = ShrinkResult {
            shortened: String::new(),
            original_len: 0,
            shortened_len: 0,
            was_truncated: false,
            detected_style: PathStyle::Unix,
            segments: Vec::new(),
        };
        assert(info_views(r.segments@) =~= Seq::empty());
        assert(path@ =~= Seq::<char>::empty());
        return r;
    }
    // Parse the original path (after mapped-location substitution, same as shrink())

    let mapped_path = apply_mapped_locations(path, opts.mapped_locations.as_slice());
    let original_info = PathInfo::parse(mapped_path.as_str(), opts.path_style);

    let shortened = shrink(path, opts);

    // Parse the shortened string to extract its segments
    let shortened_info = PathInfo::parse(shortened.as_str(), opts.path_style);

    let segments = build_segment_metadata(&original_info, &shortened_info, opts.ellipsis.as_str());

    let original_len = path.len();
    let shortened_len = shortened.as_str().len();
    proof {
        lemma_byte_len_is_utf8_len(shortened@);
    }
    let was_truncated = !chars_eq(&chars_of_string(&shortened), &chars_of(path));
    ShrinkResult {
        original_len,
        shortened_len,
        was_truncated,
        detected_style: original_info.style,
        shortened,
        segments,
    }
}

} // verus!
