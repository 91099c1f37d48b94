use crate::path_info::{
    assemble,
    assemble_chars,
    lemma_reassemble_ends_with_filename,
    segment_chars,
    PathInfo,
    PathModel,
};
use crate::platform::{separator, separator_spec};
use crate::text::{chars_eq, chars_of, chars_of_string, is_suffix, seq_views, string_of};
use vstd::prelude::*;

verus! {

/// The first `n` characters of `s` (all of `s` when it is shorter).
pub open spec fn take_at_most(s: Seq<char>, n: int) -> Seq<char> {
    if n < s.len() {
        s.subrange(0, n)
    } else {
        s
    }
}

/// The character sequences of a slice of strings.
pub open spec fn string_views(v: Seq<String>) -> Seq<Seq<char>> {
    v.map_values(|a: String| a@)
}

/// `text` is one of the anchors.
pub open spec fn is_anchor(text: Seq<char>, anchors: Seq<Seq<char>>) -> bool {
    exists|i: int| 0 <= i < anchors.len() && anchors[i] == text
}

/// Abbreviation of a segment to its first `len` characters: empty text and
/// anchors are kept as they are, a dot-prefixed segment keeps its dot and
/// then the first `len` characters after it.
pub open spec fn abbreviate_spec(text: Seq<char>, len: int, anchors: Seq<Seq<char>>) -> Seq<char> {
    if text.len() == 0 {
        text
    } else if is_anchor(text, anchors) {
        text
    } else if text[0] == '.' {
        seq!['.'] + take_at_most(text.drop_first(), len)
    } else {
        take_at_most(text, len)
    }
}

/// Whether directory segment `i` of `n` is kept in full by `full_length_dirs`.
pub open spec fn kept_full(i: int, n: int, full_length_dirs: int) -> bool {
    full_length_dirs > 0 && i >= (if n > full_length_dirs {
        n - full_length_dirs
    } else {
        0
    })
}

/// The segment texts after fish abbreviation.
pub open spec fn fish_texts(
    texts: Seq<Seq<char>>,
    dir_length: int,
    full_length_dirs: int,
    anchors: Seq<Seq<char>>,
) -> Seq<Seq<char>> {
    Seq::new(
        texts.len(),
        |i: int|
            if kept_full(i, texts.len() as int, full_length_dirs) {
                texts[i]
            } else {
                abbreviate_spec(texts[i], dir_length, anchors)
            },
    )
}

/// The path of `m` with its directory segments fish-abbreviated.
pub open spec fn fish_spec(
    m: PathModel,
    dir_length: int,
    full_length_dirs: int,
    anchors: Seq<Seq<char>>,
) -> Seq<char> {
    assemble(m, fish_texts(m.texts, dir_length, full_length_dirs, anchors))
}

/// The fish result ends with the filename.
pub proof fn lemma_fish_suffix(
    m: PathModel,
    dir_length: int,
    full_length_dirs: int,
    anchors: Seq<Seq<char>>,
)
    ensures
        is_suffix(m.filename, fish_spec(m, dir_length, full_length_dirs, anchors)),
{
    lemma_reassemble_ends_with_filename(
        m.prefix,
        fish_texts(m.texts, dir_length, full_length_dirs, anchors),
        m.filename,
        separator_spec(m.style),
    );
}

/// The characters of each anchor.
pub fn anchor_chars(anchors: &[String]) -> (v: Vec<Vec<char>>)
    ensures
        seq_views(v@) == string_views(anchors@),
{
    let mut v: Vec<Vec<char>> = Vec::new();
    let mut i: usize = 0;
    while i < anchors.len()
        invariant
            i <= anchors@.len(),
            seq_views(v@) == string_views(anchors@).subrange(0, i as int),
        decreases anchors@.len() - i,
    {
        let c = chars_of_string(&anchors[i]);
        let ghost old_v = seq_views(v@);
        v.push(c);
        assert(seq_views(v@) =~= old_v.push(c@));
        i = i + 1;
        assert(seq_views(v@) =~= string_views(anchors@).subrange(0, i as int));
    }
    assert(string_views(anchors@).subrange(0, anchors@.len() as int) =~= string_views(anchors@));
    v
}

/// Whether `text` equals one of the anchors.
pub fn is_anchor_exec(text: &Vec<char>, anchors: &Vec<Vec<char>>) -> (r: bool)
    ensures
        r == is_anchor(text@, seq_views(anchors@)),
{
    let mut i: usize = 0;
    while i < anchors.len()
        invariant
            i <= anchors.len(),
            forall|j: int| 0 <= j < i ==> seq_views(anchors@)[j] != text@,
        decreases anchors.len() - i,
    {
        if chars_eq(&anchors[i], text) {
            assert(seq_views(anchors@)[i as int] == text@);
            return true;
        }
        i = i + 1;
    }
    false
}

/// The first `n` characters of `v`, or all of it.
pub fn take_chars(v: &Vec<char>, from: usize, n: usize) -> (r: Vec<char>)
    requires
        from <= v.len(),
    ensures
        r@ == take_at_most(v@.subrange(from as int, v@.len() as int), n as int),
{
    let mut r: Vec<char> = Vec::new();
    let mut i = from;
    let ghost s = v@.subrange(from as int, v@.len() as int);
    while i < v.len() && i - from < n
        invariant
            from <= i <= v.len(),
            i - from <= n,
            s == v@.subrange(from as int, v@.len() as int),
            r@ == s.subrange(0, i - from),
        decreases v.len() - i,
    {
        r.push(v[i]);
        i = i + 1;
        assert(r@ =~= s.subrange(0, i - from));
    }
    if i == v.len() {
        assert(s.subrange(0, i - from) =~= s);
    }
    r
}

/// Abbreviation on characters (see [`abbreviate_segment`]).
pub fn abbreviate_chars(text: &Vec<char>, len: usize, anchors: &Vec<Vec<char>>) -> (r: Vec<char>)
    ensures
        r@ == abbreviate_spec(text@, len as int, seq_views(anchors@)),
{
    if text.len() == 0 {
        return Vec::new();
    }
    // If this segment is an anchor, never abbreviate it
    if is_anchor_exec(text, anchors) {
        return crate::text::copy_chars(text);
    }
    if text[0] == '.' {
        let mut r = vec!['.'];
        let after = take_chars(text, 1, len);
        crate::text::append_chars(&mut r, &after);
        assert(text@.drop_first() =~= text@.subrange(1, text@.len() as int));
        return r;
    }
    if len == 0 {
        return Vec::new();
    }
    // Take `len` chars total (first + len-1 more)
    let mut r = vec![text[0]];
    let rest = take_chars(text, 1, len - 1);
    crate::text::append_chars(&mut r, &rest);
    proof {
        let s = text@.subrange(1, text@.len() as int);
        if len - 1 < s.len() {
            assert(r@ =~= text@.subrange(0, len as int));
        } else {
            assert(r@ =~= text@);
        }
    }
    r
}

/// Abbreviate a segment to its first `len` characters.
/// Dot-prefixed segments keep the dot + `len` chars after: `.config` with len=1 -> `.c`
/// If the segment text matches any anchor, it is returned unchanged.
pub fn abbreviate_segment(text: &str, len: usize, anchors: &[String]) -> (r: String)
    ensures
        r@ == abbreviate_spec(text@, len as int, string_views(anchors@)),
{
    let t = chars_of(text);
    let a = anchor_chars(anchors);
    let r = abbreviate_chars(&t, len, &a);
    string_of(&r)
}

/// Fish abbreviation of the segment texts.
pub fn fish_texts_exec(
    texts: &Vec<Vec<char>>,
    dir_length: usize,
    full_length_dirs: usize,
    anchors: &Vec<Vec<char>>,
) -> (r: Vec<Vec<char>>)
    ensures
        seq_views(r@) == fish_texts(
            seq_views(texts@),
            dir_length as int,
            full_length_dirs as int,
            seq_views(anchors@),
        ),
{
    let n = texts.len();
    let ghost target = fish_texts(
        seq_views(texts@),
        dir_length as int,
        full_length_dirs as int,
        seq_views(anchors@),
    );
    let mut r: Vec<Vec<char>> = Vec::new();
    let mut i: usize = 0;
    while i < n
        invariant
            n == texts.len(),
            i <= n,
            target == fish_texts(
                seq_views(texts@),
                dir_length as int,
                full_length_dirs as int,
                seq_views(anchors@),
            ),
            seq_views(r@) == target.subrange(0, i as int),
        decreases n - i,
    {
        let keep = full_length_dirs > 0 && i >= n.saturating_sub(full_length_dirs);
        let t = if keep {
            crate::text::copy_chars(&texts[i])
        } else {
            assert(seq_views(texts@)[i as int] == texts@[i as int]@);
            abbreviate_chars(&texts[i], dir_length, anchors)
        };
        assert(t@ == target[i as int]);
        let ghost old_r = seq_views(r@);
        r.push(t);
        assert(seq_views(r@) =~= old_r.push(t@));
        i = i + 1;
        assert(seq_views(r@) =~= target.subrange(0, i as int));
    }
    assert(target.subrange(0, n as int) =~= target);
    r
}

/// Apply fish-style abbreviation: all directory segments become first-char.
/// Filename is never abbreviated.
/// `dir_length`: number of characters to keep per abbreviated segment.
/// `full_length_dirs`: number of trailing directory segments to keep unabbreviated.
/// `anchors`: segment names that should never be abbreviated.
pub fn shrink_fish(
    info: &PathInfo,
    dir_length: usize,
    full_length_dirs: usize,
    anchors: &[String],
) -> (r: String)
    ensures
        r@ == fish_spec(info@, dir_length as int, full_length_dirs as int, string_views(anchors@)),
        is_suffix(info@.filename, r@),
{
    proof {
        lemma_fish_suffix(info@, dir_length as int, full_length_dirs as int, string_views(anchors@));
    }
    let texts = segment_chars(info);
    let a = anchor_chars(anchors);
    let abbreviated = fish_texts_exec(&texts, dir_length, full_length_dirs, &a);
    let prefix = chars_of_string(&info.prefix);
    let filename = chars_of_string(&info.filename);
    let r = assemble_chars(&prefix, &abbreviated, &filename, separator(info.style));
    string_of(&r)
}

} // verus!
