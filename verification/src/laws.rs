//! Properties that hold of the library as a whole.
use crate::metadata::{
    dir_metadata,
    dotdot_at,
    first_marker_from,
    has_dotdot,
    is_marker,
    metadata_spec,
    pair_info,
};
use crate::path_info::{
    assemble,
    extract_prefix_spec,
    find_char_from,
    join_texts,
    lemma_extract_prefix_bound,
    lemma_find_char_from_bound,
    normalize_spec,
    parse_spec,
    is_home_root_spec,
    parts_spec,
    reassemble_spec,
    split_parts,
    style_of,
    PathModel,
    SegmentPriority,
};
use crate::platform::{
    detect_style_spec,
    has_char,
    is_ascii_alpha,
    other_separator_spec,
    separator_spec,
    PathStyle,
};
use crate::strategy::ellipsis::{aligned, ellipsis_spec, minimal_spec};
use crate::strategy::fish::{abbreviate_spec, fish_texts, is_anchor, string_views};
use crate::strategy::hybrid::{
    collapse_allowed,
    collapse_candidate,
    collapse_search,
    collapse_spec,
    fished_at,
    fished_texts,
    hybrid_spec,
    keep_max,
    keeps_identity,
    lemma_collapse_search_complete,
    lemma_collapse_search_found,
};
use crate::strategy::unique::{
    comparable_spec,
    distinguishes,
    has_twin,
    lemma_first_distinguishing,
    unique_prefix_len_spec,
    unique_text,
};
use crate::text::{byte_len, eq_ignore_ascii_case, is_prefix};
use crate::{shrink_model, shrink_to_spec, shrink_spec, ShrinkOptions, Strategy};
use vstd::prelude::*;

verus! {

/// A path whose full form already fits is returned in full (separators
/// normalized) by the Ellipsis and Hybrid strategies.
pub proof fn short_paths_are_kept(path: Seq<char>, opts: ShrinkOptions)
    requires
        path.len() > 0,
        opts.strategy == Strategy::Ellipsis || opts.strategy == Strategy::Hybrid,
        byte_len(assemble(shrink_model(path, opts), shrink_model(path, opts).texts))
            <= opts.max_len,
    ensures
        shrink_spec(path, opts) == assemble(shrink_model(path, opts), shrink_model(path, opts).texts),
{
    let m = shrink_model(path, opts);
    if m.texts.len() == 0 {
        assert(m.texts =~= Seq::<Seq<char>>::empty());
    }
}

/// `r` is the path of `m` assembled from texts `w`, or a middle collapse of
/// `w` that keeps every Identity segment, where `w` holds every Identity
/// segment of `m` whole.
pub open spec fn identity_kept_in(m: PathModel, w: Seq<Seq<char>>, ellipsis: Seq<char>, r: Seq<
    char,
>) -> bool {
    &&& w.len() == m.texts.len()
    &&& forall|i: int|
        0 <= i < w.len() && m.priorities[i] == SegmentPriority::Identity ==> w[i] == m.texts[i]
    &&& (r == assemble(m, w) || exists|h: int, t: int|
        0 <= h && 0 <= t && collapse_allowed(m, w.len() as int, h, t, true) && r
            == #[trigger] collapse_candidate(m, w, ellipsis, h, t))
}

/// The Hybrid strategy gives up an Identity segment only in its last
/// phase: whenever some candidate of the earlier phases that keeps every
/// Identity segment fits (the full path, the path with Expendable or also
/// Context segments fished, or a middle collapse of the latter that keeps
/// every Identity segment in its head or tail), the result is such a
/// candidate, and so holds every Identity segment whole.
pub proof fn hybrid_keeps_identity_until_last_phase(
    m: PathModel,
    max_len: int,
    ellipsis: Seq<char>,
    anchors: Seq<Seq<char>>,
    dir_length: int,
    full_length_dirs: int,
    kh: int,
    kt: int,
)
    requires
        byte_len(m.filename) < max_len,
        ({
            let n = m.texts.len() as int;
            let w2 = fished_texts(m, anchors, 2, dir_length, full_length_dirs);
            ||| byte_len(assemble(m, m.texts)) <= max_len
            ||| byte_len(assemble(m, fished_texts(m, anchors, 1, dir_length, full_length_dirs)))
                <= max_len
            ||| byte_len(assemble(m, w2)) <= max_len
            ||| (n > 2 && 0 <= kh <= keep_max(n) && 0 <= kt <= keep_max(n) && collapse_allowed(
                m,
                n,
                kh,
                kt,
                true,
            ) && byte_len(collapse_candidate(m, w2, ellipsis, kh, kt)) <= max_len)
        }),
    ensures
        exists|w: Seq<Seq<char>>|
            #[trigger] identity_kept_in(
                m,
                w,
                ellipsis,
                hybrid_spec(m, max_len, ellipsis, anchors, dir_length, full_length_dirs),
            ),
{
    let n = m.texts.len() as int;
    let r = hybrid_spec(m, max_len, ellipsis, anchors, dir_length, full_length_dirs);
    let w1 = fished_texts(m, anchors, 1, dir_length, full_length_dirs);
    let w2 = fished_texts(m, anchors, 2, dir_length, full_length_dirs);
    if n == 0 {
        assert(w1 =~= m.texts);
        assert(w2 =~= m.texts);
        assert(r == assemble(m, m.texts));
        assert(identity_kept_in(m, m.texts, ellipsis, r));
    } else if byte_len(assemble(m, m.texts)) <= max_len {
        assert(r == assemble(m, m.texts));
        assert(identity_kept_in(m, m.texts, ellipsis, r));
    } else if byte_len(assemble(m, w1)) <= max_len {
        assert(r == assemble(m, w1));
        assert(identity_kept_in(m, w1, ellipsis, r));
    } else if byte_len(assemble(m, w2)) <= max_len {
        assert(r == assemble(m, w2));
        assert(identity_kept_in(m, w2, ellipsis, r));
    } else {
        let k = keep_max(n);
        lemma_collapse_search_complete(m, w2, max_len, ellipsis, true, k, k, kt, kh);
        lemma_collapse_search_found(m, w2, max_len, ellipsis, true, k, k);
        assert(r == collapse_spec(m, w2, max_len, ellipsis, true)->0);
        assert(identity_kept_in(m, w2, ellipsis, r));
    }
}

/// The Hybrid phases only add abbreviations: a segment that an earlier
/// phase abbreviates is abbreviated the same way by every later phase
/// (Expendable first, then Context, Identity last).
pub proof fn hybrid_phases_only_add_abbreviations(
    m: PathModel,
    anchors: Seq<Seq<char>>,
    i: int,
    earlier: int,
    later: int,
    dir_length: int,
    full_length_dirs: int,
)
    requires
        0 <= i < m.texts.len(),
        earlier <= later,
        fished_texts(m, anchors, earlier, dir_length, full_length_dirs)[i] != m.texts[i],
    ensures
        fished_texts(m, anchors, later, dir_length, full_length_dirs)[i] == fished_texts(
            m,
            anchors,
            earlier,
            dir_length,
            full_length_dirs,
        )[i],
{
}

/// The Ellipsis strategy keeps, before its marker, every segment up to and
/// including the last Identity segment, whenever the head, the marker,
/// prefix and filename fit the budget.
pub proof fn ellipsis_keeps_identity_head(m: PathModel, max_len: int, ellipsis: Seq<char>)
    requires
        aligned(m),
        m.texts.len() > 0,
        byte_len(assemble(m, m.texts)) > max_len,
        byte_len(m.filename) < max_len,
        crate::strategy::ellipsis::base_cost(m) + crate::strategy::ellipsis::costs(
            m.texts.subrange(0, crate::strategy::ellipsis::identity_end(m.priorities)),
        ) + byte_len(ellipsis) + 1 < max_len,
    ensures
        exists|tail: Seq<Seq<char>>|
            ellipsis_spec(m, max_len, ellipsis) == assemble(
                m,
                m.texts.subrange(0, crate::strategy::ellipsis::identity_end(m.priorities))
                    + seq![ellipsis] + tail,
            ),
        forall|i: int|
            0 <= i < m.texts.len() && m.priorities[i] == SegmentPriority::Identity ==> i
                < crate::strategy::ellipsis::identity_end(m.priorities),
{
    let ie = crate::strategy::ellipsis::identity_end(m.priorities);
    let cands = m.texts.subrange(ie, m.texts.len() as int);
    let fixed = crate::strategy::ellipsis::base_cost(m) + crate::strategy::ellipsis::costs(
        m.texts.subrange(0, ie),
    ) + byte_len(ellipsis) + 1;
    let tc = crate::strategy::ellipsis::greedy_tail(cands, max_len - fixed);
    let tail = crate::strategy::ellipsis::last_n(cands, tc);
    assert(ellipsis_spec(m, max_len, ellipsis) == assemble(
        m,
        m.texts.subrange(0, ie) + seq![ellipsis] + tail,
    ));
    lemma_identity_end_is_past_last_identity(m.priorities);
}

proof fn lemma_identity_end_is_past_last_identity(prios: Seq<SegmentPriority>)
    ensures
        forall|i: int|
            0 <= i < prios.len() && prios[i] == SegmentPriority::Identity ==> i
                < crate::strategy::ellipsis::identity_end(prios),
    decreases prios.len(),
{
    if prios.len() > 0 {
        lemma_identity_end_is_past_last_identity(prios.drop_last());
        assert forall|i: int|
            0 <= i < prios.len() && prios[i] == SegmentPriority::Identity implies i
                < crate::strategy::ellipsis::identity_end(prios) by {
            if i < prios.len() - 1 {
                assert(prios.drop_last()[i] == prios[i]);
            }
        }
    }
}

/// Anchored segments are never abbreviated: not by the fish abbreviation
/// (whatever length it keeps), not by Fish, not by the Hybrid phases, and
/// not by Unique.
pub proof fn anchors_are_never_abbreviated(
    texts: Seq<Seq<char>>,
    i: int,
    m: PathModel,
    anchors: Seq<Seq<char>>,
    len: int,
    dir_length: int,
    full_length_dirs: int,
    level: int,
)
    requires
        0 <= i < texts.len(),
        is_anchor(texts[i], anchors),
    ensures
        abbreviate_spec(texts[i], len, anchors) == texts[i],
        fish_texts(texts, dir_length, full_length_dirs, anchors)[i] == texts[i],
        unique_text(texts, i, anchors) == texts[i],
        0 <= i < m.texts.len() && m.texts[i] == texts[i] ==> fished_texts(
            m,
            anchors,
            level,
            dir_length,
            full_length_dirs,
        )[i] == m.texts[i],
{
}

/// Unique cuts a segment to the shortest distinguishing prefix: `None`
/// exactly when another segment has the same comparable text (it is then
/// kept in full); otherwise the length is the least one that tells it apart
/// from every other segment, or its whole comparable length when none does.
pub proof fn unique_prefix_is_shortest(target: Seq<char>, others: Seq<Seq<char>>)
    ensures
        unique_prefix_len_spec(target, others) is None <==> has_twin(target, others),
        unique_prefix_len_spec(target, others) matches Some(l) ==> {
            let t = comparable_spec(target);
            &&& l <= t.len()
            &&& (t.len() > 0 ==> 1 <= l)
            &&& (l < t.len() ==> distinguishes(t, others, l))
            &&& forall|k: int| 1 <= k < l ==> !distinguishes(t, others, k)
        },
{
    lemma_first_distinguishing(comparable_spec(target), others, 1);
}

/// Segments equal (as compared) to another segment of the path are kept in full by Unique.
pub proof fn unique_keeps_twins_in_full(texts: Seq<Seq<char>>, i: int, anchors: Seq<Seq<char>>)
    requires
        0 <= i < texts.len(),
        has_twin(texts[i], texts.remove(i)),
    ensures
        unique_text(texts, i, anchors) == texts[i],
{
}

/// Every directory entry of the segment metadata is marked as no filename.
proof fn lemma_dir_metadata_not_filename(o: Seq<Seq<char>>, s: Seq<Seq<char>>, ellipsis: Seq<char>)
    ensures
        forall|k: int|
            0 <= k < dir_metadata(o, s, ellipsis).len() ==> !(#[trigger] dir_metadata(
                o,
                s,
                ellipsis,
            )[k]).is_filename,
{
    let d = dir_metadata(o, s, ellipsis);
    if o.len() != s.len() {
        match first_marker_from(s, 0, ellipsis) {
            Some(e) => {
                assert forall|k: int| 0 <= k < d.len() implies !(#[trigger] d[k]).is_filename by {}
            },
            None => {},
        }
    }
}

/// When the original path has a filename, the segment metadata ends with
/// exactly one filename entry, pairing the original filename with the
/// shortened one; every other entry is a directory.
pub proof fn metadata_ends_with_filename(o: PathModel, s: PathModel, ellipsis: Seq<char>)
    requires
        o.filename.len() > 0,
    ensures
        metadata_spec(o, s, ellipsis).len() > 0,
        metadata_spec(o, s, ellipsis).last() == pair_info(o.filename, s.filename, true),
        forall|k: int|
            0 <= k < metadata_spec(o, s, ellipsis).len() - 1 ==> !(#[trigger] metadata_spec(
                o,
                s,
                ellipsis,
            )[k]).is_filename,
{
    lemma_dir_metadata_not_filename(o.texts, s.texts, ellipsis);
    let d = dir_metadata(o.texts, s.texts, ellipsis);
    let md = metadata_spec(o, s, ellipsis);
    assert forall|k: int| 0 <= k < md.len() - 1 implies !(#[trigger] md[k]).is_filename by {
        assert(md[k] == d[k]);
    }
}

/// When the shortened path collapsed segments into a marker (`s` has
/// fewer segments than `o` and holds a marker), the directory metadata
/// lists every original segment in order, each collapsed one with the
/// marker as its shortened text and marked as abbreviated.
pub proof fn metadata_lists_every_original(o: Seq<Seq<char>>, s: Seq<Seq<char>>, ellipsis: Seq<char>)
    requires
        s.len() < o.len(),
        first_marker_from(s, 0, ellipsis) is Some,
    ensures
        ({
            let e = first_marker_from(s, 0, ellipsis)->0;
            let d = dir_metadata(o, s, ellipsis);
            &&& d.len() == o.len()
            &&& forall|k: int| 0 <= k < o.len() ==> (#[trigger] d[k]).original == o[k]
            &&& forall|k: int|
                e <= k < o.len() - (s.len() - e - 1) ==> (#[trigger] d[k]).shortened == s[e]
                    && d[k].was_abbreviated
        }),
{
    lemma_first_marker_in_range(s, 0, ellipsis);
    let e = first_marker_from(s, 0, ellipsis)->0;
    let d = dir_metadata(o, s, ellipsis);
    assert forall|k: int| 0 <= k < o.len() implies (#[trigger] d[k]).original == o[k] by {}
}

proof fn lemma_first_marker_in_range(s: Seq<Seq<char>>, i: int, ellipsis: Seq<char>)
    ensures
        first_marker_from(s, i, ellipsis) matches Some(e) ==> i <= e < s.len(),
    decreases s.len() - i,
{
    if 0 <= i < s.len() && !is_marker(s[i], ellipsis) {
        lemma_first_marker_in_range(s, i + 1, ellipsis);
    }
}

/// The parts joined back with single separators.
pub open spec fn join_all(parts: Seq<Seq<char>>, sep: char) -> Seq<char>
    decreases parts.len(),
{
    if parts.len() == 0 {
        Seq::empty()
    } else if parts.len() == 1 {
        parts[0]
    } else {
        join_all(parts.drop_last(), sep) + seq![sep] + parts.last()
    }
}

/// `s` is non-empty, neither starts nor ends with `sep`, and never holds
/// two `sep` in a row: splitting it loses nothing.
pub open spec fn canonical(s: Seq<char>, sep: char) -> bool {
    &&& s.len() > 0
    &&& s[0] != sep
    &&& s.last() != sep
    &&& forall|i: int| 0 <= i < s.len() - 1 ==> !(#[trigger] s[i] == sep && s[i + 1] == sep)
}

/// The prefix followed by a separator unless it is empty or already ends in one.
pub open spec fn glued(prefix: Seq<char>, sep: char) -> Seq<char> {
    if prefix.len() > 0 && prefix.last() != sep {
        prefix.push(sep)
    } else {
        prefix
    }
}

/// What follows the prefix in the normalized path.
pub open spec fn rest_spec(path: Seq<char>, force_style: Option<PathStyle>) -> Seq<char> {
    let style = style_of(path, force_style);
    let n = normalize_spec(path, style);
    n.subrange(extract_prefix_spec(n, style).1, n.len() as int)
}

/// Every part of a split is non-empty and free of the separator; a
/// non-empty sequence splits into at least one part unless it is all separators.
proof fn lemma_split_parts_wf(s: Seq<char>, sep: char)
    ensures
        forall|i: int|
            0 <= i < split_parts(s, sep).len() ==> (#[trigger] split_parts(s, sep)[i]).len() > 0
                && forall|j: int| 0 <= j < split_parts(s, sep)[i].len() ==> split_parts(s, sep)[i][j]
                != sep,
        s.len() > 0 && s.last() != sep ==> split_parts(s, sep).len() > 0,
    decreases s.len(),
{
    if s.len() > 0 {
        lemma_split_parts_wf(s.drop_last(), sep);
        let prev = split_parts(s.drop_last(), sep);
        let c = s.last();
        if c != sep && s.len() >= 2 && s[s.len() - 2] != sep {
            assert(s.drop_last().last() == s[s.len() - 2]);
            let p = split_parts(s, sep);
            assert forall|i: int| 0 <= i < p.len() implies (#[trigger] p[i]).len() > 0 && forall|
                j: int,
            | 0 <= j < p[i].len() ==> p[i][j] != sep by {
                if i == prev.len() - 1 {
                    assert(p[i] == prev.last().push(c));
                    assert forall|j: int| 0 <= j < p[i].len() implies p[i][j] != sep by {
                        if j < prev.last().len() {
                            assert(p[i][j] == prev[i][j]);
                        }
                    }
                } else {
                    assert(p[i] == prev[i]);
                }
            }
        }
    }
}

proof fn lemma_join_all_extend_last(parts: Seq<Seq<char>>, c: char, sep: char)
    requires
        parts.len() > 0,
    ensures
        join_all(parts.update(parts.len() - 1, parts.last().push(c)), sep) == join_all(parts, sep).push(
            c,
        ),
{
    let q = parts.update(parts.len() - 1, parts.last().push(c));
    if parts.len() == 1 {
    } else {
        assert(q.drop_last() =~= parts.drop_last());
        assert(join_all(q, sep) =~= join_all(parts, sep).push(c));
    }
}

/// Splitting a canonical sequence and joining the parts with the separator
/// gives it back.
proof fn lemma_join_split(s: Seq<char>, sep: char)
    requires
        canonical(s, sep),
    ensures
        join_all(split_parts(s, sep), sep) == s,
    decreases s.len(),
{
    let r = s.drop_last();
    let c = s.last();
    if r.len() == 0 {
        assert(split_parts(r, sep) =~= Seq::<Seq<char>>::empty());
        assert(split_parts(s, sep) =~= seq![seq![c]]);
        assert(s =~= seq![c]);
    } else if r.last() != sep {
        assert(s[s.len() - 2] == r.last());
        assert forall|i: int| 0 <= i < r.len() - 1 implies !(#[trigger] r[i] == sep && r[i + 1]
            == sep) by {
            assert(r[i] == s[i] && r[i + 1] == s[i + 1]);
        }
        lemma_join_split(r, sep);
        lemma_split_parts_wf(r, sep);
        lemma_join_all_extend_last(split_parts(r, sep), c, sep);
        assert(s =~= r.push(c));
    } else {
        let r2 = r.drop_last();
        assert(r.len() >= 2) by {
            assert(r[0] == s[0]);
        }
        assert(s[s.len() - 3] == r2.last());
        assert(s[s.len() - 2] == sep);
        assert(r2.last() != sep) by {
            assert(!(s[s.len() - 3] == sep && s[s.len() - 2] == sep));
        }
        assert forall|i: int| 0 <= i < r2.len() - 1 implies !(#[trigger] r2[i] == sep && r2[i + 1]
            == sep) by {
            assert(r2[i] == s[i] && r2[i + 1] == s[i + 1]);
        }
        assert(r2[0] == s[0]);
        lemma_join_split(r2, sep);
        lemma_split_parts_wf(r2, sep);
        assert(r.drop_last() == r2);
        assert(split_parts(r, sep) == split_parts(r2, sep));
        let p = split_parts(s, sep);
        assert(p == split_parts(r2, sep).push(seq![c]));
        assert(p.drop_last() =~= split_parts(r2, sep));
        assert(s =~= r2 + seq![sep] + seq![c]);
    }
}

/// Joining texts after a prefix: the glued prefix, then the texts joined.
proof fn lemma_join_texts_glued(prefix: Seq<char>, texts: Seq<Seq<char>>, sep: char)
    requires
        texts.len() > 0,
    ensures
        join_texts(prefix, texts, sep) == glued(prefix, sep) + join_all(texts, sep),
    decreases texts.len(),
{
    if texts.len() > 1 {
        lemma_join_texts_glued(prefix, texts.drop_last(), sep);
        let r = join_texts(prefix, texts.drop_last(), sep);
        assert(join_texts(prefix, texts, sep) =~= glued(prefix, sep) + join_all(texts, sep));
    } else {
        assert(texts.drop_last().len() == 0);
        assert(join_texts(prefix, texts.drop_last(), sep) == prefix);
        assert(join_texts(prefix, texts, sep) =~= glued(prefix, sep) + join_all(texts, sep));
    }
}

/// Parsing then reassembling with the segment texts unchanged gives back
/// the normalized path: the prefix (with its separator) followed by the
/// rest, whenever the rest has no empty component (no doubled, leading or
/// trailing separator).
pub proof fn reassemble_inverts_parse(path: Seq<char>, force_style: Option<PathStyle>)
    requires
        canonical(
            rest_spec(path, force_style),
            separator_spec(style_of(path, force_style)),
        ),
    ensures
        assemble(parse_spec(path, force_style), parse_spec(path, force_style).texts) == glued(
            parse_spec(path, force_style).prefix,
            separator_spec(style_of(path, force_style)),
        ) + rest_spec(path, force_style),
{
    let style = style_of(path, force_style);
    let sep = separator_spec(style);
    let rest = rest_spec(path, force_style);
    let m = parse_spec(path, force_style);
    let parts = parts_spec(path, style);
    assert(parts == split_parts(rest, sep));
    lemma_split_parts_wf(rest, sep);
    lemma_join_split(rest, sep);
    let texts = parts.drop_last();
    let f = parts.last();
    assert(m.texts == texts && m.filename == f);
    assert(f.len() > 0);
    if texts.len() == 0 {
        assert(parts =~= seq![f]);
        assert(join_texts(m.prefix, texts, sep) == m.prefix);
        assert(reassemble_spec(m.prefix, texts, f, sep) =~= glued(m.prefix, sep) + rest);
    } else {
        lemma_join_texts_glued(m.prefix, texts, sep);
        let body = join_texts(m.prefix, texts, sep);
        let lt = texts.last();
        assert(lt == parts[texts.len() - 1]);
        assert(lt.len() > 0 && lt.last() != sep);
        assert(join_all(texts, sep).last() == lt.last()) by {
            if texts.len() > 1 {
                assert(join_all(texts, sep) == join_all(texts.drop_last(), sep) + seq![sep] + lt);
            }
        }
        assert(body.last() == lt.last());
        assert(join_all(parts, sep) == join_all(texts, sep) + seq![sep] + f);
        assert(reassemble_spec(m.prefix, texts, f, sep) =~= glued(m.prefix, sep) + rest);
    }
}

/// Every part of a split avoids any character that `s` does not hold.
proof fn lemma_split_parts_avoid(s: Seq<char>, sep: char, c: char)
    requires
        forall|k: int| 0 <= k < s.len() ==> s[k] != c,
    ensures
        forall|i: int, j: int|
            0 <= i < split_parts(s, sep).len() && 0 <= j < split_parts(s, sep)[i].len()
                ==> #[trigger] split_parts(s, sep)[i][j] != c,
    decreases s.len(),
{
    if s.len() > 0 {
        let r = s.drop_last();
        assert forall|k: int| 0 <= k < r.len() implies r[k] != c by {
            assert(r[k] == s[k]);
        }
        lemma_split_parts_avoid(r, sep, c);
        lemma_split_parts_wf(r, sep);
        let prev = split_parts(r, sep);
        let p = split_parts(s, sep);
        let l = s.last();
        assert(l == s[s.len() - 1]);
        assert forall|i: int, j: int| 0 <= i < p.len() && 0 <= j < p[i].len() implies #[trigger] p[i][j]
            != c by {
            if l == sep {
            } else if s.len() >= 2 && s[s.len() - 2] != sep {
                if i == prev.len() - 1 {
                    assert(p[i] == prev.last().push(l));
                    if j < prev.last().len() {
                        assert(p[i][j] == prev[i][j]);
                    }
                } else {
                    assert(p[i] == prev[i]);
                }
            } else {
                if i < prev.len() {
                    assert(p[i] == prev[i]);
                } else {
                    assert(p[i] == seq![l]);
                }
            }
        }
    }
}

/// What parsing always gives: the style it was asked for (or detected);
/// directory segments and filename free of both separators; no empty
/// segment; no segments without a filename; one priority per segment,
/// none of them Sacred, and Identity only for the second segment.
pub proof fn parse_invariants(path: Seq<char>, force_style: Option<PathStyle>)
    ensures
        ({
            let m = parse_spec(path, force_style);
            &&& m.style == style_of(path, force_style)
            &&& forall|i: int, j: int|
                0 <= i < m.texts.len() && 0 <= j < m.texts[i].len() ==> #[trigger] m.texts[i][j]
                    != '/' && m.texts[i][j] != '\\'
            &&& forall|j: int|
                0 <= j < m.filename.len() ==> #[trigger] m.filename[j] != '/' && m.filename[j]
                    != '\\'
            &&& forall|i: int| 0 <= i < m.texts.len() ==> (#[trigger] m.texts[i]).len() > 0
            &&& m.filename.len() == 0 ==> m.texts.len() == 0
            &&& m.priorities.len() == m.texts.len()
            &&& forall|i: int|
                0 <= i < m.priorities.len() ==> #[trigger] m.priorities[i] != SegmentPriority::Sacred
            &&& forall|i: int|
                0 <= i < m.priorities.len() && #[trigger] m.priorities[i]
                    == SegmentPriority::Identity ==> i == 1
        }),
{
    let style = style_of(path, force_style);
    let sep = separator_spec(style);
    let other = crate::platform::other_separator_spec(style);
    let n = normalize_spec(path, style);
    let rest = rest_spec(path, force_style);
    let parts = parts_spec(path, style);
    let m = parse_spec(path, force_style);
    assert(parts == split_parts(rest, sep));
    lemma_extract_prefix_bound(n, style);
    assert forall|k: int| 0 <= k < rest.len() implies rest[k] != other by {
        assert(rest[k] == n[k + extract_prefix_spec(n, style).1]);
    }
    lemma_split_parts_wf(rest, sep);
    lemma_split_parts_avoid(rest, sep, other);
    if parts.len() > 0 {
        let dirs = parts.drop_last();
        assert forall|i: int, j: int| 0 <= i < m.texts.len() && 0 <= j < m.texts[i].len() implies #[trigger] m.texts[i][j]
            != '/' && m.texts[i][j] != '\\' by {
            assert(m.texts[i] == parts[i]);
            assert(parts[i][j] != sep && parts[i][j] != other);
        }
        assert forall|j: int| 0 <= j < m.filename.len() implies #[trigger] m.filename[j] != '/'
            && m.filename[j] != '\\' by {
            assert(m.filename == parts[parts.len() - 1]);
            assert(parts[parts.len() - 1][j] != sep && parts[parts.len() - 1][j] != other);
        }
        assert(m.filename == parts[parts.len() - 1]);
        assert forall|i: int| 0 <= i < m.texts.len() implies (#[trigger] m.texts[i]).len() > 0 by {
            assert(m.texts[i] == parts[i]);
        }
    }
}

/// A path that parsing and reassembling give back letter for letter:
/// non-empty, with no separator of the other style than the one it is
/// detected in, no two separators in a row (but the leading pair of a
/// Windows UNC root), and no trailing separator unless it is a root of its
/// own (`/`, `\\`, or a drive root such as `C:\\`).
pub open spec fn clean_path(p: Seq<char>) -> bool {
    let style = detect_style_spec(p);
    let sep = separator_spec(style);
    &&& p.len() > 0
    &&& !has_char(p, other_separator_spec(style))
    &&& forall|i: int|
        0 <= i < p.len() - 1 && #[trigger] p[i] == sep && p[i + 1] == sep ==> i == 0 && style
            == PathStyle::Windows
    &&& (p.last() == sep ==> p == seq![sep] || (p.len() == 3 && is_ascii_alpha(p[0]) && p[1]
        == ':'))
}

/// A clean path splits at its prefix into a glued prefix and a canonical
/// rest, or is its prefix alone.
proof fn lemma_clean_split(p: Seq<char>)
    requires
        clean_path(p),
    ensures
        ({
            let style = detect_style_spec(p);
            let sep = separator_spec(style);
            let pr = extract_prefix_spec(p, style);
            ||| pr.1 == p.len() && pr.0 == p
            ||| 0 <= pr.1 < p.len() && canonical(p.subrange(pr.1, p.len() as int), sep) && glued(
                pr.0,
                sep,
            ) == p.subrange(0, pr.1)
        }),
{
    let style = detect_style_spec(p);
    let sep = separator_spec(style);
    let pr = extract_prefix_spec(p, style);
    let start = pr.1;
    lemma_extract_prefix_bound(p, style);
    let n = p.len() as int;
    if style == PathStyle::Windows && n >= 2 && p[0] == '\\' && p[1] == '\\' {
        lemma_find_char_from_bound(p, '\\', 2);
        let a = find_char_from(p, '\\', 2);
        if a < n {
            lemma_find_char_from_bound(p, '\\', a + 1);
            let q = find_char_from(p, '\\', a + 1);
            if q < n {
                assert(q - 1 > a) by {
                    if q - 1 == a {
                        assert(p[a] == sep && p[a + 1] == sep);
                    }
                }
                assert(p[q - 1] != sep);
                assert(p.subrange(0, q).last() == p[q - 1]);
                assert(glued(pr.0, sep) =~= p.subrange(0, start));
                if start == n {
                    assert(p.last() == sep);
                    assert(p[0] == seq![sep][0]);
                }
            } else {
                assert(pr.0 =~= p);
            }
        } else {
            assert(pr.0 =~= p);
        }
    } else if style == PathStyle::Windows && n >= 3 && is_ascii_alpha(p[0]) && p[1] == ':' && p[2]
        == '\\' {
        assert(glued(pr.0, sep) =~= p.subrange(0, start));
        if start == n {
            assert(pr.0 =~= p);
        }
    } else if style == PathStyle::Windows && n >= 2 && p[0] == '.' && p[1] == '\\' {
        assert(glued(pr.0, sep) =~= p.subrange(0, start));
        if start == n {
            assert(p.last() == sep);
        }
    } else if style == PathStyle::Windows && n >= 1 && p[0] == '\\' {
        assert(glued(pr.0, sep) =~= p.subrange(0, start));
        if start == n {
            assert(pr.0 =~= p);
        }
    } else if style == PathStyle::Unix && n >= 1 && p[0] == '/' {
        assert(glued(pr.0, sep) =~= p.subrange(0, start));
        if start == n {
            assert(pr.0 =~= p);
        }
    } else if style == PathStyle::Unix && n >= 2 && p[0] == '~' && p[1] == '/' {
        assert(glued(pr.0, sep) =~= p.subrange(0, start));
        if start == n {
            assert(p.last() == sep);
        }
    } else if style == PathStyle::Unix && n == 1 && p[0] == '~' {
        assert(pr.0 =~= p);
    } else {
        assert(start == 0);
        assert(glued(pr.0, sep) =~= p.subrange(0, start));
    }
    if start < n {
        let rest = p.subrange(start, n);
        assert(rest.last() == p.last());
        if p.last() == sep {
            if p == seq![sep] {
                assert(p.len() == 1);
            }
        }
        assert(rest[0] == p[start]);
        if start > 0 {
            assert(p[start - 1] == sep);
        }
        assert forall|i: int| 0 <= i < rest.len() - 1 implies !(#[trigger] rest[i] == sep && rest[i
            + 1] == sep) by {
            assert(rest[i] == p[start + i] && rest[i + 1] == p[start + i + 1]);
        }
    }
}

/// Parsing a clean path and reassembling it from its own segment texts
/// gives the path back.
pub proof fn reassemble_gives_back_clean_path(p: Seq<char>)
    requires
        clean_path(p),
    ensures
        assemble(parse_spec(p, None), parse_spec(p, None).texts) == p,
{
    let style = detect_style_spec(p);
    let sep = separator_spec(style);
    assert(normalize_spec(p, style) =~= p) by {
        assert forall|k: int| 0 <= k < p.len() implies p[k] != other_separator_spec(style) by {}
    }
    lemma_clean_split(p);
    let pr = extract_prefix_spec(p, style);
    let m = parse_spec(p, None);
    if pr.1 == p.len() {
        assert(rest_spec(p, None) =~= Seq::<char>::empty());
        assert(parts_spec(p, style) =~= Seq::<Seq<char>>::empty());
    } else {
        reassemble_inverts_parse(p, None);
        assert(p.subrange(0, pr.1) + p.subrange(pr.1, p.len() as int) =~= p);
    }
}

/// `shrink_to` gives back a clean path that already fits, unchanged.
pub proof fn shrink_to_keeps_clean_short_path(p: Seq<char>, max_len: int)
    requires
        clean_path(p),
        byte_len(p) <= max_len,
    ensures
        shrink_to_spec(p, max_len) == p,
{
    reassemble_gives_back_clean_path(p);
}

/// Fish keeps the last `full_length_dirs` directory segments whole (every
/// segment when there are no more than that), and cuts each other segment
/// as the fish abbreviation does.
pub proof fn fish_keeps_trailing_dirs(
    texts: Seq<Seq<char>>,
    dir_length: int,
    full_length_dirs: int,
    anchors: Seq<Seq<char>>,
)
    ensures
        fish_texts(texts, dir_length, full_length_dirs, anchors).len() == texts.len(),
        forall|i: int|
            0 <= i < texts.len() && full_length_dirs > 0 && i >= texts.len() - full_length_dirs
                ==> #[trigger] fish_texts(texts, dir_length, full_length_dirs, anchors)[i]
                == texts[i],
        forall|i: int|
            0 <= i < texts.len() && (full_length_dirs <= 0 || i < texts.len() - full_length_dirs)
                ==> #[trigger] fish_texts(texts, dir_length, full_length_dirs, anchors)[i]
                == abbreviate_spec(texts[i], dir_length, anchors),
{
}

/// With Fish and at least as many directories kept whole as the path has,
/// `shrink` gives the full path back (separators normalized).
pub proof fn fish_keeping_every_dir_is_full_path(path: Seq<char>, opts: ShrinkOptions)
    requires
        path.len() > 0,
        opts.strategy == Strategy::Fish,
        opts.full_length_dirs > 0,
        opts.full_length_dirs >= shrink_model(path, opts).texts.len(),
    ensures
        shrink_spec(path, opts) == assemble(shrink_model(path, opts), shrink_model(path, opts).texts),
{
    let m = shrink_model(path, opts);
    let w = fish_texts(
        m.texts,
        opts.dir_length as int,
        opts.full_length_dirs as int,
        string_views(opts.anchors@),
    );
    fish_keeps_trailing_dirs(
        m.texts,
        opts.dir_length as int,
        opts.full_length_dirs as int,
        string_views(opts.anchors@),
    );
    assert(w =~= m.texts);
}

/// Texts `w` stand for the directory segments of `m`: one per segment,
/// each the segment itself or its fish abbreviation, and the last
/// `full_length_dirs` segments whole.
pub open spec fn abbreviated_from(
    m: PathModel,
    w: Seq<Seq<char>>,
    anchors: Seq<Seq<char>>,
    dir_length: int,
    full_length_dirs: int,
) -> bool {
    &&& w.len() == m.texts.len()
    &&& forall|i: int|
        0 <= i < w.len() ==> #[trigger] w[i] == m.texts[i] || w[i] == abbreviate_spec(
            m.texts[i],
            dir_length,
            anchors,
        )
    &&& forall|i: int|
        0 <= i < w.len() && full_length_dirs > 0 && i >= w.len() - full_length_dirs
            ==> #[trigger] w[i] == m.texts[i]
}

/// `r` is the path of `m` built from texts `w`: all of them, or some head
/// texts, then `ellipsis` in place of at least one text, then some tail texts.
pub open spec fn built_from(m: PathModel, w: Seq<Seq<char>>, ellipsis: Seq<char>, r: Seq<char>) -> bool {
    r == assemble(m, w) || exists|h: int, t: int|
        0 <= h && 0 <= t && h + t < w.len() && r == #[trigger] assemble(
            m,
            w.subrange(0, h) + seq![ellipsis] + w.subrange(w.len() - t, w.len() as int),
        )
}

/// Prefix, a separator unless the prefix is empty or already ends in one,
/// the ellipsis, a separator and the filename.
pub open spec fn prefix_ellipsis_filename(m: PathModel, ellipsis: Seq<char>) -> Seq<char> {
    let sep = separator_spec(m.style);
    m.prefix + (if m.prefix.len() > 0 && m.prefix[m.prefix.len() - 1] != sep {
        seq![sep]
    } else {
        seq![]
    }) + ellipsis + seq![sep] + m.filename
}

/// `r` is built from texts that stand for the segments of `m`.
pub open spec fn hybrid_shaped(
    m: PathModel,
    w: Seq<Seq<char>>,
    ellipsis: Seq<char>,
    anchors: Seq<Seq<char>>,
    dir_length: int,
    full_length_dirs: int,
    r: Seq<char>,
) -> bool {
    abbreviated_from(m, w, anchors, dir_length, full_length_dirs) && built_from(m, w, ellipsis, r)
}

proof fn lemma_fished_abbreviated_from(
    m: PathModel,
    anchors: Seq<Seq<char>>,
    level: int,
    dir_length: int,
    full_length_dirs: int,
)
    ensures
        abbreviated_from(
            m,
            fished_texts(m, anchors, level, dir_length, full_length_dirs),
            anchors,
            dir_length,
            full_length_dirs,
        ),
{
}

proof fn lemma_found_is_built(
    m: PathModel,
    w: Seq<Seq<char>>,
    max_len: int,
    ellipsis: Seq<char>,
    identity_only: bool,
)
    requires
        collapse_spec(m, w, max_len, ellipsis, identity_only) is Some,
    ensures
        built_from(m, w, ellipsis, collapse_spec(m, w, max_len, ellipsis, identity_only)->0),
{
    let k = keep_max(w.len() as int);
    lemma_collapse_search_found(m, w, max_len, ellipsis, identity_only, k, k);
    let r = collapse_spec(m, w, max_len, ellipsis, identity_only)->0;
    let (h, t) = choose|h: int, t: int|
        0 <= h && 0 <= t && collapse_allowed(m, w.len() as int, h, t, identity_only) && r
            == #[trigger] collapse_candidate(m, w, ellipsis, h, t);
    assert(r == assemble(
        m,
        w.subrange(0, h) + seq![ellipsis] + w.subrange(w.len() - t, w.len() as int),
    ));
}

/// Every Hybrid result is the filename alone, the prefix + ellipsis +
/// filename fallback with the configured ellipsis, or a path built from
/// texts that stand for the segments (each whole or fish-abbreviated to
/// `dir_length`, the last `full_length_dirs` whole): all of them, or a head
/// and a tail around the configured ellipsis.
pub proof fn hybrid_result_shape(
    m: PathModel,
    max_len: int,
    ellipsis: Seq<char>,
    anchors: Seq<Seq<char>>,
    dir_length: int,
    full_length_dirs: int,
)
    ensures
        ({
            let r = hybrid_spec(m, max_len, ellipsis, anchors, dir_length, full_length_dirs);
            ||| r == m.filename
            ||| r == prefix_ellipsis_filename(m, ellipsis)
            ||| exists|w: Seq<Seq<char>>|
                #[trigger] hybrid_shaped(
                    m,
                    w,
                    ellipsis,
                    anchors,
                    dir_length,
                    full_length_dirs,
                    r,
                )
        }),
{
    let r = hybrid_spec(m, max_len, ellipsis, anchors, dir_length, full_length_dirs);
    let n = m.texts.len();
    let w1 = fished_texts(m, anchors, 1, dir_length, full_length_dirs);
    let w2 = fished_texts(m, anchors, 2, dir_length, full_length_dirs);
    let w4 = fished_texts(m, anchors, 3, dir_length, full_length_dirs);
    lemma_fished_abbreviated_from(m, anchors, 1, dir_length, full_length_dirs);
    lemma_fished_abbreviated_from(m, anchors, 2, dir_length, full_length_dirs);
    lemma_fished_abbreviated_from(m, anchors, 3, dir_length, full_length_dirs);
    assert(abbreviated_from(m, m.texts, anchors, dir_length, full_length_dirs));
    assert(minimal_spec(m, ellipsis) == prefix_ellipsis_filename(m, ellipsis));
    if byte_len(assemble(m, m.texts)) <= max_len {
        assert(hybrid_shaped(m, m.texts, ellipsis, anchors, dir_length, full_length_dirs, r));
    } else if n == 0 || byte_len(m.filename) >= max_len {
    } else if byte_len(assemble(m, w1)) <= max_len {
        assert(hybrid_shaped(m, w1, ellipsis, anchors, dir_length, full_length_dirs, r));
    } else if byte_len(assemble(m, w2)) <= max_len {
        assert(hybrid_shaped(m, w2, ellipsis, anchors, dir_length, full_length_dirs, r));
    } else if n > 2 && collapse_spec(m, w2, max_len, ellipsis, true) is Some {
        lemma_found_is_built(m, w2, max_len, ellipsis, true);
        assert(hybrid_shaped(m, w2, ellipsis, anchors, dir_length, full_length_dirs, r));
    } else if n > 2 && collapse_spec(m, w4, max_len, ellipsis, false) is Some {
        lemma_found_is_built(m, w4, max_len, ellipsis, false);
        assert(hybrid_shaped(m, w4, ellipsis, anchors, dir_length, full_length_dirs, r));
    }
}

/// Segment metadata pairs shortened segments with the originals they stand
/// for: one to one when the counts agree; otherwise every segment before
/// the marker with the original at the same index, and every segment after
/// it with the original at the same distance from the end. Each entry is a
/// directory and is marked abbreviated exactly when its texts differ.
pub proof fn metadata_pairs_segments(o: Seq<Seq<char>>, s: Seq<Seq<char>>, ellipsis: Seq<char>)
    ensures
        ({
            let d = dir_metadata(o, s, ellipsis);
            o.len() == s.len() ==> {
                &&& d.len() == o.len()
                &&& forall|k: int|
                    0 <= k < o.len() ==> (#[trigger] d[k]).original == o[k] && d[k].shortened
                        == s[k] && d[k].was_abbreviated == (o[k] != s[k]) && !d[k].is_filename
            }
        }),
        ({
            let d = dir_metadata(o, s, ellipsis);
            o.len() != s.len() && first_marker_from(s, 0, ellipsis) is Some ==> {
                let e = first_marker_from(s, 0, ellipsis)->0;
                let t = s.len() - e - 1;
                &&& forall|k: int|
                    0 <= k < e && k < o.len() ==> (#[trigger] d[k]).original == o[k]
                        && d[k].shortened == s[k] && d[k].was_abbreviated == (o[k] != s[k])
                        && !d[k].is_filename
                &&& t <= o.len() ==> forall|j: int|
                    0 <= j < t ==> (#[trigger] d[d.len() - t + j]).original == o[o.len() - t + j]
                        && d[d.len() - t + j].shortened == s[e + 1 + j]
                        && d[d.len() - t + j].was_abbreviated == (o[o.len() - t + j] != s[e + 1
                        + j]) && !d[d.len() - t + j].is_filename
            }
        }),
{
    lemma_first_marker_in_range(s, 0, ellipsis);
}

/// `t` holds a `.` directly followed by another `.`.
pub open spec fn two_dots_in_a_row(t: Seq<char>) -> bool {
    exists|i: int| 0 <= i && i + 1 < t.len() && #[trigger] t[i] == '.' && t[i + 1] == '.'
}

proof fn lemma_two_dots(t: Seq<char>)
    ensures
        has_dotdot(t) == two_dots_in_a_row(t),
{
    if has_dotdot(t) {
        let i = choose|i: int| 0 <= i && #[trigger] dotdot_at(t, i);
        assert(t[i] == '.' && t[i + 1] == '.');
    }
    if two_dots_in_a_row(t) {
        let i = choose|i: int| 0 <= i && i + 1 < t.len() && #[trigger] t[i] == '.' && t[i + 1] == '.';
        assert(dotdot_at(t, i));
    }
}

/// The marker is the first shortened segment that equals the ellipsis or
/// holds two dots in a row; there is none when no segment does.
pub proof fn metadata_marker_is_first_dotted_or_ellipsis(s: Seq<Seq<char>>, ellipsis: Seq<char>)
    ensures
        first_marker_from(s, 0, ellipsis) matches Some(e) ==> {
            &&& 0 <= e < s.len()
            &&& (s[e] == ellipsis || two_dots_in_a_row(s[e]))
            &&& forall|k: int|
                0 <= k < e ==> #[trigger] s[k] != ellipsis && !two_dots_in_a_row(s[k])
        },
        first_marker_from(s, 0, ellipsis) is None ==> forall|k: int|
            0 <= k < s.len() ==> #[trigger] s[k] != ellipsis && !two_dots_in_a_row(s[k]),
{
    lemma_first_marker_explicit(s, 0, ellipsis);
    assert forall|k: int| 0 <= k < s.len() implies is_marker(#[trigger] s[k], ellipsis) == (s[k]
        == ellipsis || two_dots_in_a_row(s[k])) by {
        lemma_two_dots(s[k]);
    }
}

proof fn lemma_first_marker_explicit(s: Seq<Seq<char>>, from: int, ellipsis: Seq<char>)
    requires
        0 <= from,
    ensures
        first_marker_from(s, from, ellipsis) matches Some(e) ==> {
            &&& from <= e < s.len()
            &&& is_marker(s[e], ellipsis)
            &&& forall|k: int| from <= k < e ==> !is_marker(#[trigger] s[k], ellipsis)
        },
        first_marker_from(s, from, ellipsis) is None ==> forall|k: int|
            from <= k < s.len() ==> !is_marker(#[trigger] s[k], ellipsis),
    decreases s.len() - from,
{
    if from < s.len() && !is_marker(s[from], ellipsis) {
        lemma_first_marker_explicit(s, from + 1, ellipsis);
    }
}

/// A home root, spelled out: `home` or `Users` on Unix and `Users` on
/// Windows, ignoring ASCII case.
pub open spec fn names_home_root(t: Seq<char>, style: PathStyle) -> bool {
    ||| style == PathStyle::Unix && eq_ignore_ascii_case(t, seq!['h', 'o', 'm', 'e'])
    ||| eq_ignore_ascii_case(t, seq!['U', 's', 'e', 'r', 's'])
}

/// Parsing marks the first directory segment Context and the second one
/// Identity exactly when the first one is a home root (whatever follows),
/// and every other segment Expendable.
pub proof fn parse_marks_home_and_identity(path: Seq<char>, force_style: Option<PathStyle>)
    ensures
        ({
            let m = parse_spec(path, force_style);
            &&& m.priorities.len() == m.texts.len()
            &&& forall|i: int|
                0 <= i < m.texts.len() ==> (#[trigger] m.priorities[i] == SegmentPriority::Identity
                    <==> i == 1 && names_home_root(m.texts[0], m.style))
            &&& forall|i: int|
                0 <= i < m.texts.len() ==> (#[trigger] m.priorities[i] == SegmentPriority::Context
                    <==> i == 0 && names_home_root(m.texts[0], m.style))
            &&& forall|i: int|
                0 <= i < m.texts.len() ==> (#[trigger] m.priorities[i]
                    == SegmentPriority::Expendable <==> !(i <= 1 && names_home_root(
                    m.texts[0],
                    m.style,
                )))
        }),
{
    let m = parse_spec(path, force_style);
    if m.texts.len() > 0 {
        assert(names_home_root(m.texts[0], m.style) == is_home_root_spec(m.texts[0], m.style));
    }
}

/// A path that starts with an ASCII letter (either case), a colon and a
/// separator is a Windows path whose prefix is the drive root: the letter,
/// the colon and a backslash.
pub proof fn drive_letter_paths_are_windows(p: Seq<char>)
    requires
        p.len() >= 3,
        ('a' <= p[0] && p[0] <= 'z') || ('A' <= p[0] && p[0] <= 'Z'),
        p[1] == ':',
        p[2] == '\\' || p[2] == '/',
    ensures
        detect_style_spec(p) == PathStyle::Windows,
        parse_spec(p, None).style == PathStyle::Windows,
        parse_spec(p, None).prefix == seq![p[0], ':', '\\'],
        parse_spec(p, Some(PathStyle::Windows)).prefix == seq![p[0], ':', '\\'],
{
    let n = normalize_spec(p, PathStyle::Windows);
    assert(n[0] == p[0] && n[1] == ':' && n[2] == '\\');
    assert(n.subrange(0, 3) =~= seq![p[0], ':', '\\']);
}

/// The fish abbreviation of a segment is a prefix of it: an anchor or an
/// empty segment is kept whole, a dot-prefixed one keeps its dot and then
/// at most `len` characters, any other one at most `len` characters (as
/// many as it has, up to `len`).
pub proof fn abbreviation_is_a_short_prefix(text: Seq<char>, len: int, anchors: Seq<Seq<char>>)
    requires
        len >= 0,
    ensures
        is_prefix(abbreviate_spec(text, len, anchors), text),
        is_anchor(text, anchors) ==> abbreviate_spec(text, len, anchors) == text,
        !is_anchor(text, anchors) && text.len() > 0 && text[0] != '.' ==> abbreviate_spec(
            text,
            len,
            anchors,
        ).len() == (if len < text.len() {
            len
        } else {
            text.len() as int
        }),
        !is_anchor(text, anchors) && text.len() > 0 && text[0] == '.' ==> abbreviate_spec(
            text,
            len,
            anchors,
        ).len() == 1 + (if len < text.len() - 1 {
            len
        } else {
            text.len() - 1
        }),
{
    let r = abbreviate_spec(text, len, anchors);
    if text.len() > 0 && !is_anchor(text, anchors) {
        if text[0] == '.' {
            let rest = text.drop_first();
            if len < rest.len() {
                assert(text.subrange(0, r.len() as int) =~= r);
            } else {
                assert(r =~= text);
            }
        } else if len < text.len() {
            assert(text.subrange(0, r.len() as int) =~= r);
        }
    }
    assert(text.subrange(0, r.len() as int) =~= r);
}

/// The segment texts with the Expendable segments (and, when `context`,
/// the Context segments too) fish-abbreviated to `dir_length`, except the
/// last `full_length_dirs` segments.
pub open spec fn cut_by_priority(
    m: PathModel,
    anchors: Seq<Seq<char>>,
    dir_length: int,
    full_length_dirs: int,
    context: bool,
) -> Seq<Seq<char>> {
    let n = m.texts.len() as int;
    Seq::new(
        m.texts.len(),
        |i: int|
            if (m.priorities[i] == SegmentPriority::Expendable || (context && m.priorities[i]
                == SegmentPriority::Context)) && !(full_length_dirs > 0 && i >= n
                - full_length_dirs) {
                abbreviate_spec(m.texts[i], dir_length, anchors)
            } else {
                m.texts[i]
            },
    )
}

/// Hybrid tries the least abbreviation first: when cutting only the
/// Expendable segments fits, the result is the full path or that cut;
/// when cutting the Context segments too fits, it is one of those or that
/// cut. Nothing is collapsed then.
pub proof fn hybrid_abbreviates_before_collapsing(
    m: PathModel,
    max_len: int,
    ellipsis: Seq<char>,
    anchors: Seq<Seq<char>>,
    dir_length: int,
    full_length_dirs: int,
)
    requires
        byte_len(m.filename) < max_len,
    ensures
        ({
            let r = hybrid_spec(m, max_len, ellipsis, anchors, dir_length, full_length_dirs);
            let c1 = assemble(m, cut_by_priority(m, anchors, dir_length, full_length_dirs, false));
            let c2 = assemble(m, cut_by_priority(m, anchors, dir_length, full_length_dirs, true));
            &&& byte_len(c1) <= max_len ==> r == assemble(m, m.texts) || r == c1
            &&& byte_len(c2) <= max_len ==> r == assemble(m, m.texts) || r == c1 || r == c2
        }),
{
    let w1 = fished_texts(m, anchors, 1, dir_length, full_length_dirs);
    let w2 = fished_texts(m, anchors, 2, dir_length, full_length_dirs);
    assert(w1 =~= cut_by_priority(m, anchors, dir_length, full_length_dirs, false));
    assert(w2 =~= cut_by_priority(m, anchors, dir_length, full_length_dirs, true));
    if m.texts.len() == 0 {
        assert(w1 =~= m.texts);
        assert(w2 =~= m.texts);
    }
}

/// `c` occurs in `s`.
pub open spec fn occurs(s: Seq<char>, c: char) -> bool {
    exists|i: int| 0 <= i < s.len() && #[trigger] s[i] == c
}

/// Style detection: a UNC start (two backslashes), a drive letter followed
/// by a colon and either separator, a dot-backslash start, or backslashes
/// without forward slashes mean Windows; anything else is Unix.
pub proof fn style_detection_rules(p: Seq<char>)
    ensures
        p.len() >= 2 && p[0] == '\\' && p[1] == '\\' ==> detect_style_spec(p)
            == PathStyle::Windows,
        p.len() >= 3 && (('a' <= p[0] && p[0] <= 'z') || ('A' <= p[0] && p[0] <= 'Z')) && p[1]
            == ':' && (p[2] == '\\' || p[2] == '/') ==> detect_style_spec(p) == PathStyle::Windows,
        p.len() >= 2 && p[0] == '.' && p[1] == '\\' ==> detect_style_spec(p)
            == PathStyle::Windows,
        occurs(p, '\\') && !occurs(p, '/') ==> detect_style_spec(p) == PathStyle::Windows,
        !occurs(p, '\\') && !(p.len() >= 3 && (('a' <= p[0] && p[0] <= 'z') || ('A' <= p[0] && p[0]
            <= 'Z')) && p[1] == ':' && p[2] == '/') ==> detect_style_spec(p) == PathStyle::Unix,
        occurs(p, '/') && !(p.len() >= 2 && p[0] == '\\' && p[1] == '\\') && !(p.len() >= 3 && ((
        'a' <= p[0] && p[0] <= 'z') || ('A' <= p[0] && p[0] <= 'Z')) && p[1] == ':' && (p[2] == '\\'
            || p[2] == '/')) && !(p.len() >= 2 && p[0] == '.' && p[1] == '\\') ==> detect_style_spec(
            p,
        ) == PathStyle::Unix,
{
    if p.len() >= 1 && p[0] == '\\' {
        assert(occurs(p, '\\'));
    }
    if p.len() >= 3 && p[2] == '\\' {
        assert(occurs(p, '\\'));
    }
    if p.len() >= 2 && p[1] == '\\' {
        assert(occurs(p, '\\'));
    }
}

/// Keeping the first `h` and the last `t` of the texts `w` is a collapse
/// that may be tried: at most three each, at least one text left for the
/// ellipsis, and, when `identity_only`, every Identity segment among those kept.
pub open spec fn collapse_may_keep(m: PathModel, w: Seq<Seq<char>>, h: int, t: int, identity_only: bool) -> bool {
    &&& 0 <= h <= 3
    &&& 0 <= t <= 3
    &&& h + t < w.len()
    &&& identity_only ==> forall|i: int|
        0 <= i < w.len() && #[trigger] m.priorities[i] == SegmentPriority::Identity ==> i < h || i
            >= w.len() - t
}

/// The path of `m` with the first `h` texts of `w`, the ellipsis and the
/// last `t` texts.
pub open spec fn kept_around(m: PathModel, w: Seq<Seq<char>>, ellipsis: Seq<char>, h: int, t: int) -> Seq<char> {
    assemble(m, w.subrange(0, h) + seq![ellipsis] + w.subrange(w.len() - t, w.len() as int))
}

proof fn lemma_search_order(
    m: PathModel,
    w: Seq<Seq<char>>,
    max_len: int,
    ellipsis: Seq<char>,
    identity_only: bool,
    kt: int,
    kh: int,
)
    requires
        kh <= keep_max(w.len() as int),
        kt <= keep_max(w.len() as int),
    ensures
        collapse_search(m, w, max_len, ellipsis, identity_only, kt, kh) matches Some(r) ==> exists|
            h: int,
            t: int,
        | {
            &&& collapse_may_keep(m, w, h, t, identity_only)
            &&& (t < kt || (t == kt && h <= kh))
            &&& r == #[trigger] kept_around(m, w, ellipsis, h, t)
            &&& byte_len(r) <= max_len
            &&& forall|h2: int, t2: int|
                collapse_may_keep(m, w, h2, t2, identity_only) && (t2 < kt || (t2 == kt && h2
                    <= kh)) && (t2 > t || (t2 == t && h2 > h)) ==> byte_len(
                    #[trigger] kept_around(m, w, ellipsis, h2, t2),
                ) > max_len
        },
        collapse_search(m, w, max_len, ellipsis, identity_only, kt, kh) is None ==> forall|
            h2: int,
            t2: int,
        |
            collapse_may_keep(m, w, h2, t2, identity_only) && (t2 < kt || (t2 == kt && h2 <= kh))
                ==> byte_len(#[trigger] kept_around(m, w, ellipsis, h2, t2)) > max_len,
    decreases kt + 1, kh + 1,
{
    let n = w.len() as int;
    let k = keep_max(n);
    if kt < 0 {
    } else if kh < 0 {
        lemma_search_order(m, w, max_len, ellipsis, identity_only, kt - 1, k);
        assert forall|h2: int, t2: int|
            collapse_may_keep(m, w, h2, t2, identity_only) && (t2 < kt || (t2 == kt && h2 <= kh))
                implies (t2 < kt - 1 || (t2 == kt - 1 && h2 <= k)) by {
            assert(h2 <= k);
        }
    } else {
        let allowed = collapse_allowed(m, n, kh, kt, identity_only);
        assert(collapse_candidate(m, w, ellipsis, kh, kt) == kept_around(m, w, ellipsis, kh, kt));
        assert(allowed == collapse_may_keep(m, w, kh, kt, identity_only)) by {
            assert(kh <= 3 && kt <= 3);
            if identity_only {
                assert(keeps_identity(m, n, kh, kt) == (forall|i: int|
                    0 <= i < w.len() && #[trigger] m.priorities[i] == SegmentPriority::Identity
                        ==> i < kh || i >= w.len() - kt));
            }
        }
        if allowed && byte_len(collapse_candidate(m, w, ellipsis, kh, kt)) <= max_len {
            assert(kt < kt || (kt == kt && kh <= kh));
        } else {
            lemma_search_order(m, w, max_len, ellipsis, identity_only, kt, kh - 1);
        }
    }
}

/// The middle collapse tries more tail texts first and, for as many tail
/// texts, more head texts first: what it finds is the first candidate in
/// that order that fits, every candidate before it is too long, and when
/// it finds none, every candidate is too long.
pub proof fn collapse_prefers_tail_then_head(
    m: PathModel,
    w: Seq<Seq<char>>,
    max_len: int,
    ellipsis: Seq<char>,
    identity_only: bool,
)
    ensures
        collapse_spec(m, w, max_len, ellipsis, identity_only) matches Some(r) ==> exists|
            h: int,
            t: int,
        | {
            &&& collapse_may_keep(m, w, h, t, identity_only)
            &&& r == #[trigger] kept_around(m, w, ellipsis, h, t)
            &&& byte_len(r) <= max_len
            &&& forall|h2: int, t2: int|
                collapse_may_keep(m, w, h2, t2, identity_only) && (t2 > t || (t2 == t && h2 > h))
                    ==> byte_len(#[trigger] kept_around(m, w, ellipsis, h2, t2)) > max_len
        },
        collapse_spec(m, w, max_len, ellipsis, identity_only) is None ==> forall|h2: int, t2: int|
            collapse_may_keep(m, w, h2, t2, identity_only) ==> byte_len(
                #[trigger] kept_around(m, w, ellipsis, h2, t2),
            ) > max_len,
{
    let k = keep_max(w.len() as int);
    lemma_search_order(m, w, max_len, ellipsis, identity_only, k, k);
    assert forall|h2: int, t2: int| collapse_may_keep(m, w, h2, t2, identity_only) implies (t2 < k
        || (t2 == k && h2 <= k)) by {}
}

/// `r` is the first candidate, in the order of the middle collapse, of
/// keeping head and tail texts of `w` around the ellipsis that fits.
pub open spec fn first_fitting_collapse(
    m: PathModel,
    w: Seq<Seq<char>>,
    ellipsis: Seq<char>,
    max_len: int,
    identity_only: bool,
    r: Seq<char>,
) -> bool {
    exists|h: int, t: int|
        {
            &&& collapse_may_keep(m, w, h, t, identity_only)
            &&& r == #[trigger] kept_around(m, w, ellipsis, h, t)
            &&& byte_len(r) <= max_len
            &&& forall|h2: int, t2: int|
                collapse_may_keep(m, w, h2, t2, identity_only) && (t2 > t || (t2 == t && h2 > h))
                    ==> byte_len(#[trigger] kept_around(m, w, ellipsis, h2, t2)) > max_len
        }
}

/// No candidate of keeping head and tail texts of `w` around the ellipsis fits.
pub open spec fn no_collapse_fits(
    m: PathModel,
    w: Seq<Seq<char>>,
    ellipsis: Seq<char>,
    max_len: int,
    identity_only: bool,
) -> bool {
    forall|h2: int, t2: int|
        collapse_may_keep(m, w, h2, t2, identity_only) ==> byte_len(
            #[trigger] kept_around(m, w, ellipsis, h2, t2),
        ) > max_len
}

/// The segment texts with every segment that is not Sacred fish-abbreviated
/// to `dir_length`, except the last `full_length_dirs` segments.
pub open spec fn cut_every(
    m: PathModel,
    anchors: Seq<Seq<char>>,
    dir_length: int,
    full_length_dirs: int,
) -> Seq<Seq<char>> {
    let n = m.texts.len() as int;
    Seq::new(
        m.texts.len(),
        |i: int|
            if m.priorities[i] != SegmentPriority::Sacred && !(full_length_dirs > 0 && i >= n
                - full_length_dirs) {
                abbreviate_spec(m.texts[i], dir_length, anchors)
            } else {
                m.texts[i]
            },
    )
}

/// When neither the full path nor the Expendable and Context cuts fit (and
/// there are more than two segments and the filename fits), Hybrid gives
/// the first fitting collapse of the Context cut that keeps every Identity
/// segment; failing that, the first fitting collapse of the cut of every
/// segment; failing that, prefix + ellipsis + filename when it fits, and
/// otherwise the filename.
pub proof fn hybrid_collapse_phases(
    m: PathModel,
    max_len: int,
    ellipsis: Seq<char>,
    anchors: Seq<Seq<char>>,
    dir_length: int,
    full_length_dirs: int,
)
    requires
        m.priorities.len() == m.texts.len(),
        m.texts.len() > 2,
        byte_len(m.filename) < max_len,
        byte_len(assemble(m, m.texts)) > max_len,
        byte_len(assemble(m, cut_by_priority(m, anchors, dir_length, full_length_dirs, false)))
            > max_len,
        byte_len(assemble(m, cut_by_priority(m, anchors, dir_length, full_length_dirs, true)))
            > max_len,
    ensures
        ({
            let r = hybrid_spec(m, max_len, ellipsis, anchors, dir_length, full_length_dirs);
            let w2 = cut_by_priority(m, anchors, dir_length, full_length_dirs, true);
            let w4 = cut_every(m, anchors, dir_length, full_length_dirs);
            let mn = prefix_ellipsis_filename(m, ellipsis);
            ||| first_fitting_collapse(m, w2, ellipsis, max_len, true, r)
            ||| no_collapse_fits(m, w2, ellipsis, max_len, true) && first_fitting_collapse(
                m,
                w4,
                ellipsis,
                max_len,
                false,
                r,
            )
            ||| no_collapse_fits(m, w2, ellipsis, max_len, true) && no_collapse_fits(
                m,
                w4,
                ellipsis,
                max_len,
                false,
            ) && (if byte_len(mn) <= max_len {
                r == mn
            } else {
                r == m.filename
            })
        }),
{
    let w1 = fished_texts(m, anchors, 1, dir_length, full_length_dirs);
    let w2 = fished_texts(m, anchors, 2, dir_length, full_length_dirs);
    let w4 = fished_texts(m, anchors, 3, dir_length, full_length_dirs);
    assert(w1 =~= cut_by_priority(m, anchors, dir_length, full_length_dirs, false));
    assert(w2 =~= cut_by_priority(m, anchors, dir_length, full_length_dirs, true));
    assert(w4 =~= cut_every(m, anchors, dir_length, full_length_dirs));
    assert(minimal_spec(m, ellipsis) == prefix_ellipsis_filename(m, ellipsis));
    collapse_prefers_tail_then_head(m, w2, max_len, ellipsis, true);
    collapse_prefers_tail_then_head(m, w4, max_len, ellipsis, false);
    let r = hybrid_spec(m, max_len, ellipsis, anchors, dir_length, full_length_dirs);
    if collapse_spec(m, w2, max_len, ellipsis, true) is Some {
        assert(r == collapse_spec(m, w2, max_len, ellipsis, true)->0);
        assert(first_fitting_collapse(m, w2, ellipsis, max_len, true, r));
    } else if collapse_spec(m, w4, max_len, ellipsis, false) is Some {
        assert(r == collapse_spec(m, w4, max_len, ellipsis, false)->0);
        assert(first_fitting_collapse(m, w4, ellipsis, max_len, false, r));
    }
}

/// `c` is a separator of either style.
pub open spec fn either_separator(c: char) -> bool {
    c == '/' || c == '\\'
}

/// `path` starts with an ASCII letter, a colon and a separator.
pub open spec fn starts_with_drive(path: Seq<char>) -> bool {
    path.len() >= 3 && (('a' <= path[0] && path[0] <= 'z') || ('A' <= path[0] && path[0] <= 'Z'))
        && path[1] == ':' && either_separator(path[2])
}

/// The root that parsing reads. Unix: a leading separator gives `/`; a `~`
/// alone or before a separator gives `~`; anything else no root. Windows:
/// a drive letter, colon and separator give that drive root; `.` before a
/// separator gives `.`; a single leading separator gives `\`; two leading
/// separators give a UNC root made of the path's own first characters
/// (separators written as backslashes); anything else no root.
pub proof fn parse_prefix_rules(path: Seq<char>, force_style: Option<PathStyle>)
    ensures
        ({
            let st = style_of(path, force_style);
            let pr = parse_spec(path, force_style).prefix;
            &&& st == PathStyle::Unix && path.len() >= 1 && either_separator(path[0]) ==> pr
                == seq!['/']
            &&& st == PathStyle::Unix && path.len() >= 1 && path[0] == '~' && (path.len() == 1
                || either_separator(path[1])) ==> pr == seq!['~']
            &&& st == PathStyle::Unix && !(path.len() >= 1 && either_separator(path[0])) && !(
            path.len() >= 1 && path[0] == '~' && (path.len() == 1 || either_separator(path[1])))
                ==> pr.len() == 0
            &&& st == PathStyle::Windows && starts_with_drive(path) ==> pr == seq![
                path[0],
                ':',
                '\\',
            ]
            &&& st == PathStyle::Windows && path.len() >= 2 && path[0] == '.' && either_separator(
                path[1],
            ) ==> pr == seq!['.']
            &&& st == PathStyle::Windows && path.len() >= 1 && either_separator(path[0]) && !(
            path.len() >= 2 && either_separator(path[1])) ==> pr == seq!['\\']
            &&& st == PathStyle::Windows && path.len() >= 2 && either_separator(path[0])
                && either_separator(path[1]) ==> {
                &&& 2 <= pr.len() <= path.len()
                &&& pr[0] == '\\' && pr[1] == '\\'
                &&& forall|i: int|
                    0 <= i < pr.len() ==> #[trigger] pr[i] == (if either_separator(path[i]) {
                        '\\'
                    } else {
                        path[i]
                    })
            }
            &&& st == PathStyle::Windows && !(path.len() >= 1 && either_separator(path[0]))
                && !starts_with_drive(path) && !(path.len() >= 2 && path[0] == '.'
                && either_separator(path[1])) ==> pr.len() == 0
        }),
{
    let st = style_of(path, force_style);
    let n = normalize_spec(path, st);
    assert forall|i: int| 0 <= i < path.len() implies #[trigger] n[i] == (if either_separator(
        path[i],
    ) {
        separator_spec(st)
    } else {
        path[i]
    }) by {}
    let pr = extract_prefix_spec(n, st);
    lemma_extract_prefix_bound(n, st);
    if st == PathStyle::Windows && path.len() >= 2 && either_separator(path[0]) && either_separator(
        path[1],
    ) {
        lemma_find_char_from_bound(n, '\\', 2);
        let a = find_char_from(n, '\\', 2);
        if a < n.len() {
            lemma_find_char_from_bound(n, '\\', a + 1);
        }
        assert(pr.0.len() >= 2);
        assert(pr.0[0] == n[0] && pr.0[1] == n[1]);
    }
    if st == PathStyle::Windows && starts_with_drive(path) {
        assert(pr.0 =~= seq![path[0], ':', '\\']);
    }
}

/// The Ellipsis head ends right after the last Identity segment: no
/// Identity segment lies at or after its end, and the segment just before
/// its end is Identity (the head is empty when there is none).
pub proof fn ellipsis_head_ends_at_last_identity(prios: Seq<SegmentPriority>)
    ensures
        0 <= crate::strategy::ellipsis::identity_end(prios) <= prios.len(),
        forall|i: int|
            crate::strategy::ellipsis::identity_end(prios) <= i < prios.len() ==> #[trigger] prios[i]
                != SegmentPriority::Identity,
        crate::strategy::ellipsis::identity_end(prios) > 0 ==> prios[crate::strategy::ellipsis::identity_end(
            prios,
        ) - 1] == SegmentPriority::Identity,
    decreases prios.len(),
{
    if prios.len() > 0 {
        ellipsis_head_ends_at_last_identity(prios.drop_last());
        let ie = crate::strategy::ellipsis::identity_end(prios);
        if prios.last() != SegmentPriority::Identity {
            assert forall|i: int| ie <= i < prios.len() implies #[trigger] prios[i]
                != SegmentPriority::Identity by {
                if i < prios.len() - 1 {
                    assert(prios.drop_last()[i] == prios[i]);
                }
            }
            if ie > 0 {
                assert(prios.drop_last()[ie - 1] == prios[ie - 1]);
            }
        }
    }
}

} // verus!
