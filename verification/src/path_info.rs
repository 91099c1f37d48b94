use crate::platform::{
    detect_style,
    detect_style_spec,
    is_ascii_alpha,
    other_separator_spec,
    separator,
    separator_spec,
    PathStyle,
};
use crate::text::{
    append_chars, chars_of, chars_of_string, copy_chars, copy_range, eq_ignore_ascii_case,
    eq_ignore_ascii_case_exec, is_suffix, seq_views, string_of,
};
use vstd::prelude::*;

verus! {

/// Priority of a path segment for truncation decisions.
#[derive(Debug, Clone, Copy, PartialEq, Eq, Structural, PartialOrd, Ord)]
pub enum SegmentPriority {
    /// Filename: never shrink.
    Sacred,
    /// User identity segment (username/profile name): preserve when possible.
    Identity,
    /// Well-known application/service context: nice to have.
    Context,
    /// Generic intermediate directory: first to be shortened.
    Expendable,
}

/// A single path segment with its text and computed priority.
#[derive(Debug, Clone)]
pub struct Segment {
    pub text: String,
    pub priority: SegmentPriority,
}

/// Parsed representation of a path.
#[derive(Debug, Clone)]
pub struct PathInfo {
    /// Prefix: root (`/`, `C:\`, `\\server\share`, `.`, `~`, or empty).
    pub prefix: String,
    /// Directory segments between prefix and filename.
    pub segments: Vec<Segment>,
    /// The final component (filename). Sacred, never truncated.
    pub filename: String,
    /// Detected or forced path style.
    pub style: PathStyle,
}

/// The mathematical content of a [`PathInfo`]: the prefix, the text and the
/// priority of each directory segment, the filename and the style.
pub struct PathModel {
    pub prefix: Seq<char>,
    pub texts: Seq<Seq<char>>,
    pub priorities: Seq<SegmentPriority>,
    pub filename: Seq<char>,
    pub style: PathStyle,
}

impl View for PathInfo {
    type V = PathModel;

    open spec fn view(&self) -> PathModel {
        PathModel {
            prefix: self.prefix@,
            texts: self.segments@.map_values(|s: Segment| s.text@),
            priorities: self.segments@.map_values(|s: Segment| s.priority),
            filename: self.filename@,
            style: self.style,
        }
    }
}

/// The path with every "other" separator replaced by the style's own one.
pub open spec fn normalize_spec(s: Seq<char>, style: PathStyle) -> Seq<char> {
    s.map_values(
        |c: char|
            if c == other_separator_spec(style) {
                separator_spec(style)
            } else {
                c
            },
    )
}

/// Index of the first `c` in `s` at or after `i`, or `s.len()` when there is none.
pub open spec fn find_char_from(s: Seq<char>, c: char, i: int) -> int
    decreases s.len() - i,
{
    if i < 0 || i >= s.len() {
        s.len() as int
    } else if s[i] == c {
        i
    } else {
        find_char_from(s, c, i + 1)
    }
}

/// The prefix (root) of a normalized path, and the index at which the rest
/// of the path starts.
pub open spec fn extract_prefix_spec(n: Seq<char>, style: PathStyle) -> (Seq<char>, int) {
    match style {
        PathStyle::Windows => {
            if n.len() >= 2 && n[0] == '\\' && n[1] == '\\' {
                // UNC: \\server\share
                let p = find_char_from(n, '\\', 2);
                if p < n.len() {
                    let q = find_char_from(n, '\\', p + 1);
                    (n.subrange(0, q), if q < n.len() {
                        q + 1
                    } else {
                        n.len() as int
                    })
                } else {
                    (n, n.len() as int)
                }
            } else if n.len() >= 3 && is_ascii_alpha(n[0]) && n[1] == ':' && n[2] == '\\' {
                (n.subrange(0, 3), 3)
            } else if n.len() >= 2 && n[0] == '.' && n[1] == '\\' {
                (seq!['.'], 2)
            } else if n.len() >= 1 && n[0] == '\\' {
                (seq!['\\'], 1)
            } else {
                (Seq::<char>::empty(), 0)
            }
        },
        PathStyle::Unix => {
            if n.len() >= 1 && n[0] == '/' {
                (seq!['/'], 1)
            } else if n.len() >= 2 && n[0] == '~' && n[1] == '/' {
                (seq!['~'], 2)
            } else if n.len() == 1 && n[0] == '~' {
                (seq!['~'], 1)
            } else {
                (Seq::<char>::empty(), 0)
            }
        },
    }
}

/// The maximal non-empty runs of characters other than `sep`, in order
/// (splitting on `sep` and dropping the empty pieces).
pub open spec fn split_parts(s: Seq<char>, sep: char) -> Seq<Seq<char>>
    decreases s.len(),
{
    if s.len() == 0 {
        Seq::empty()
    } else {
        let prev = split_parts(s.drop_last(), sep);
        let c = s.last();
        if c == sep {
            prev
        } else if s.len() >= 2 && s[s.len() - 2] != sep {
            prev.update(prev.len() - 1, prev.last().push(c))
        } else {
            prev.push(seq![c])
        }
    }
}

/// `home` in the characters of a spec sequence.
pub open spec fn home_chars() -> Seq<char> {
    seq!['h', 'o', 'm', 'e']
}

/// `Users` in the characters of a spec sequence.
pub open spec fn users_chars() -> Seq<char> {
    seq!['U', 's', 'e', 'r', 's']
}

/// A home root (`home` or `Users` on Unix, `Users` on Windows), compared
/// ignoring ASCII case: the segment after it is the user's identity.
pub open spec fn is_home_root_spec(text: Seq<char>, style: PathStyle) -> bool {
    match style {
        PathStyle::Unix => eq_ignore_ascii_case(text, home_chars()) || eq_ignore_ascii_case(
            text,
            users_chars(),
        ),
        PathStyle::Windows => eq_ignore_ascii_case(text, users_chars()),
    }
}

/// Priority of directory segment `i`: a leading home root is Context, the
/// segment right after it is Identity, every other segment is Expendable.
pub open spec fn priority_spec(dirs: Seq<Seq<char>>, i: int, style: PathStyle) -> SegmentPriority {
    if i == 1 && is_home_root_spec(dirs[0], style) {
        SegmentPriority::Identity
    } else if i == 0 && is_home_root_spec(dirs[0], style) {
        SegmentPriority::Context
    } else {
        SegmentPriority::Expendable
    }
}

/// The style a path is read in.
pub open spec fn style_of(path: Seq<char>, force_style: Option<PathStyle>) -> PathStyle {
    match force_style {
        Some(s) => s,
        None => detect_style_spec(path),
    }
}

/// The non-empty components after the prefix of `path`, read in `style`.
pub open spec fn parts_spec(path: Seq<char>, style: PathStyle) -> Seq<Seq<char>> {
    let n = normalize_spec(path, style);
    let pr = extract_prefix_spec(n, style);
    split_parts(n.subrange(pr.1, n.len() as int), separator_spec(style))
}

/// What [`PathInfo::parse`] makes of `path`: the prefix, then the directory
/// segments with their priorities, then the last component as the filename.
pub open spec fn parse_spec(path: Seq<char>, force_style: Option<PathStyle>) -> PathModel {
    let style = style_of(path, force_style);
    let n = normalize_spec(path, style);
    let prefix = extract_prefix_spec(n, style).0;
    let parts = parts_spec(path, style);
    if parts.len() == 0 {
        PathModel {
            prefix,
            texts: Seq::empty(),
            priorities: Seq::empty(),
            filename: Seq::empty(),
            style,
        }
    } else {
        let dirs = parts.drop_last();
        PathModel {
            prefix,
            texts: dirs,
            priorities: Seq::new(dirs.len(), |i: int| priority_spec(dirs, i, style)),
            filename: parts.last(),
            style,
        }
    }
}

/// The prefix followed by `texts`, each joined with the separator: the
/// first text gets a separator only when the prefix is non-empty and does
/// not already end in one, every later text always gets one.
pub open spec fn join_texts(prefix: Seq<char>, texts: Seq<Seq<char>>, sep: char) -> Seq<char>
    decreases texts.len(),
{
    if texts.len() == 0 {
        prefix
    } else {
        let r = join_texts(prefix, texts.drop_last(), sep);
        let glue = texts.len() > 1 || (r.len() > 0 && r.last() != sep);
        (if glue {
            r.push(sep)
        } else {
            r
        }) + texts.last()
    }
}

/// `join_texts` followed by the filename, which gets a separator when what
/// comes before it is non-empty and does not end in one.
pub open spec fn reassemble_spec(
    prefix: Seq<char>,
    texts: Seq<Seq<char>>,
    filename: Seq<char>,
    sep: char,
) -> Seq<char> {
    let body = join_texts(prefix, texts, sep);
    if filename.len() == 0 {
        body
    } else {
        (if body.len() > 0 && body.last() != sep {
            body.push(sep)
        } else {
            body
        }) + filename
    }
}

/// The path of `m` with `texts` in place of its directory segments.
pub open spec fn assemble(m: PathModel, texts: Seq<Seq<char>>) -> Seq<char> {
    reassemble_spec(m.prefix, texts, m.filename, separator_spec(m.style))
}

/// The reassembled path ends with the filename.
pub proof fn lemma_reassemble_ends_with_filename(
    prefix: Seq<char>,
    texts: Seq<Seq<char>>,
    filename: Seq<char>,
    sep: char,
)
    ensures
        is_suffix(filename, reassemble_spec(prefix, texts, filename, sep)),
{
    let r = reassemble_spec(prefix, texts, filename, sep);
    let body = join_texts(prefix, texts, sep);
    if filename.len() == 0 {
        assert(r.subrange(r.len() - 0, r.len() as int) =~= filename);
    } else {
        let b = if body.len() > 0 && body.last() != sep {
            body.push(sep)
        } else {
            body
        };
        assert(r == b + filename);
        assert(r.subrange(r.len() - filename.len(), r.len() as int) =~= filename);
    }
}

/// Normalizes separators: every "other" separator becomes the style's own.
fn normalize(path: &Vec<char>, style: PathStyle) -> (n: Vec<char>)
    ensures
        n@ == normalize_spec(path@, style),
{
    let sep = separator(style);
    let other = match style {
        PathStyle::Unix => '\\',
        PathStyle::Windows => '/',
    };
    let mut n: Vec<char> = Vec::new();
    let mut i: usize = 0;
    while i < path.len()
        invariant
            i <= path.len(),
            sep == separator_spec(style),
            other == other_separator_spec(style),
            n@ == normalize_spec(path@.subrange(0, i as int), style),
        decreases path.len() - i,
    {
        let c = path[i];
        if c == other {
            n.push(sep);
        } else {
            n.push(c);
        }
        i = i + 1;
        assert(n@ =~= normalize_spec(path@.subrange(0, i as int), style));
    }
    assert(path@.subrange(0, path@.len() as int) =~= path@);
    n
}

/// Index of the first `c` in `s` at or after `i`, or `s.len()`.
fn find_char(s: &Vec<char>, c: char, i: usize) -> (r: usize)
    ensures
        r == find_char_from(s@, c, i as int),
    decreases s.len() - i,
{
    if i >= s.len() {
        s.len()
    } else if s[i] == c {
        i
    } else {
        find_char(s, c, i + 1)
    }
}

/// Extract the prefix (root portion) from a normalized path.
fn extract_prefix(n: &Vec<char>, style: PathStyle) -> (r: (Vec<char>, usize))
    ensures
        r.0@ == extract_prefix_spec(n@, style).0,
        r.1 == extract_prefix_spec(n@, style).1,
        r.1 <= n.len(),
{
    let len = n.len();
    match style {
        PathStyle::Windows => {
            // UNC: \\server\share
            if len >= 2 && n[0] == '\\' && n[1] == '\\' {
                let p = find_char(n, '\\', 2);
                if p < len {
                    let q = find_char(n, '\\', p + 1);
                    proof {
                        lemma_find_char_from_bound(n@, '\\', p + 1);
                    }
                    let rest = if q < len {
                        q + 1
                    } else {
                        len
                    };
                    return (copy_range(n, 0, q), rest);
                }
                return (copy_chars(n), len);
            }
            // Drive letter: C:\
            if len >= 3 && (('a' <= n[0] && n[0] <= 'z') || ('A' <= n[0] && n[0] <= 'Z')) && n[1]
                == ':' && n[2] == '\\' {
                return (copy_range(n, 0, 3), 3);
            }
            // Dot-backslash: .\
            if len >= 2 && n[0] == '.' && n[1] == '\\' {
                return (vec!['.'], 2);
            }
            // Just backslash
            if len >= 1 && n[0] == '\\' {
                return (vec!['\\'], 1);
            }
            (Vec::new(), 0)
        },
        PathStyle::Unix => {
            // Absolute: /
            if len >= 1 && n[0] == '/' {
                return (vec!['/'], 1);
            }
            // Tilde: ~/
            if len >= 2 && n[0] == '~' && n[1] == '/' {
                return (vec!['~'], 2);
            }
            if len == 1 && n[0] == '~' {
                return (vec!['~'], 1);
            }
            (Vec::new(), 0)
        },
    }
}

/// `find_char_from` stays within the sequence, finds `c` when it is not at
/// the end, and passes over no `c`.
pub proof fn lemma_find_char_from_bound(s: Seq<char>, c: char, i: int)
    requires
        0 <= i,
    ensures
        i <= find_char_from(s, c, i) <= s.len() || (i > s.len() && find_char_from(s, c, i)
            == s.len()),
        find_char_from(s, c, i) < s.len() ==> s[find_char_from(s, c, i)] == c,
        forall|k: int| i <= k < find_char_from(s, c, i) ==> s[k] != c,
    decreases s.len() - i,
{
    if i < s.len() && s[i] != c {
        lemma_find_char_from_bound(s, c, i + 1);
    }
}

/// The rest of the path starts within it.
pub proof fn lemma_extract_prefix_bound(n: Seq<char>, style: PathStyle)
    ensures
        0 <= extract_prefix_spec(n, style).1 <= n.len(),
{
    if n.len() >= 2 && n[0] == '\\' && n[1] == '\\' {
        lemma_find_char_from_bound(n, '\\', 2);
        let p = find_char_from(n, '\\', 2);
        if p < n.len() {
            lemma_find_char_from_bound(n, '\\', p + 1);
        }
    }
}

/// Splits `n[start..]` on `sep`, dropping empty pieces.
fn split_rest(n: &Vec<char>, start: usize, sep: char) -> (parts: Vec<Vec<char>>)
    requires
        start <= n.len(),
    ensures
        seq_views(parts@) == split_parts(n@.subrange(start as int, n@.len() as int), sep),
{
    let ghost rest = n@.subrange(start as int, n@.len() as int);
    let mut parts: Vec<Vec<char>> = Vec::new();
    let mut cur: Vec<char> = Vec::new();
    let mut i = start;
    while i < n.len()
        invariant
            start <= i <= n.len(),
            rest == n@.subrange(start as int, n@.len() as int),
            (cur@.len() > 0) == (i > start && n@[i - 1] != sep),
            seq_views(parts@) + (if cur@.len() > 0 {
                seq![cur@]
            } else {
                Seq::<Seq<char>>::empty()
            }) == split_parts(rest.subrange(0, i - start), sep),
        decreases n.len() - i,
    {
        let c = n[i];
        let ghost before = rest.subrange(0, i - start);
        let ghost after = rest.subrange(0, i - start + 1);
        assert(after.drop_last() =~= before);
        assert(after.last() == c);
        let ghost old_parts = seq_views(parts@);
        let ghost old_cur = cur@;
        if c == sep {
            if cur.len() > 0 {
                parts.push(cur);
                cur = Vec::new();
                assert(seq_views(parts@) =~= old_parts.push(old_cur));
            }
            assert(seq_views(parts@) + Seq::<Seq<char>>::empty() =~= split_parts(after, sep));
        } else {
            if cur.len() > 0 {
                assert(after.len() >= 2 && after[after.len() - 2] == n@[i - 1]);
                cur.push(c);
                assert((old_parts + seq![old_cur]).update(old_parts.len() as int, old_cur.push(c))
                    =~= old_parts + seq![cur@]);
            } else {
                cur.push(c);
                assert(cur@ =~= seq![c]);
                assert((old_parts + Seq::<Seq<char>>::empty()).push(seq![c]) =~= old_parts
                    + seq![cur@]);
            }
        }
        i = i + 1;
    }
    assert(rest.subrange(0, n@.len() - start) =~= rest);
    if cur.len() > 0 {
        let ghost old_parts = seq_views(parts@);
        let ghost old_cur = cur@;
        parts.push(cur);
        assert(seq_views(parts@) =~= old_parts + seq![old_cur]);
    } else {
        assert(seq_views(parts@) + Seq::<Seq<char>>::empty() =~= seq_views(parts@));
    }
    parts
}

/// Whether `text` is a home root for `style`.
fn is_home_root(text: &Vec<char>, style: PathStyle) -> (r: bool)
    ensures
        r == is_home_root_spec(text@, style),
{
    let home = vec!['h', 'o', 'm', 'e'];
    let users = vec!['U', 's', 'e', 'r', 's'];
    assert(home@ =~= home_chars());
    assert(users@ =~= users_chars());
    match style {
        PathStyle::Unix => eq_ignore_ascii_case_exec(text, &home) || eq_ignore_ascii_case_exec(
            text,
            &users,
        ),
        PathStyle::Windows => eq_ignore_ascii_case_exec(text, &users),
    }
}

/// Check if the prefix indicates a well-known system path.
pub fn is_well_known_prefix(_prefix: &str) -> (r: bool)
    ensures
        !r,
{
    // Conservative: don't over-classify
    false
}

/// Classify directory segments by priority.
fn classify_segments(parts: &Vec<Vec<char>>, prefix: &String, style: PathStyle) -> (segs: Vec<
    Segment,
>)
    ensures
        segs@.len() == parts@.len(),
        forall|i: int|
            0 <= i < parts@.len() ==> (#[trigger] segs@[i]).text@ == parts@[i]@ && segs@[i].priority
                == priority_spec(seq_views(parts@), i, style),
{
    let root0 = parts.len() > 0 && is_home_root(&parts[0], style);
    let mut segs: Vec<Segment> = Vec::new();
    let mut i: usize = 0;
    while i < parts.len()
        invariant
            i <= parts.len(),
            segs@.len() == i,
            root0 == (parts@.len() > 0 && is_home_root_spec(parts@[0]@, style)),
            forall|j: int|
                0 <= j < i ==> (#[trigger] segs@[j]).text@ == parts@[j]@ && segs@[j].priority
                    == priority_spec(seq_views(parts@), j, style),
        decreases parts.len() - i,
    {
        let priority = if i == 1 && root0 {
            SegmentPriority::Identity
        } else if i == 0 && root0 {
            // "Users" or "home" segment itself — keep it (Context)
            SegmentPriority::Context
        } else if is_well_known_prefix(prefix.as_str()) && i == 0 {
            // First segment after a well-known prefix like C:\Windows
            SegmentPriority::Context
        } else {
            SegmentPriority::Expendable
        };
        segs.push(Segment { text: string_of(&parts[i]), priority });
        i = i + 1;
    }
    segs
}

/// Reassembles prefix, texts and filename (the characters of
/// [`PathInfo::reassemble`]).
pub fn assemble_chars(prefix: &Vec<char>, texts: &Vec<Vec<char>>, filename: &Vec<char>, sep: char) -> (r:
    Vec<char>)
    ensures
        r@ == reassemble_spec(prefix@, seq_views(texts@), filename@, sep),
{
    let mut r = copy_chars(prefix);
    let mut i: usize = 0;
    while i < texts.len()
        invariant
            i <= texts.len(),
            r@ == join_texts(prefix@, seq_views(texts@).subrange(0, i as int), sep),
        decreases texts.len() - i,
    {
        let glue = i > 0 || (r.len() > 0 && r[r.len() - 1] != sep);
        if glue {
            r.push(sep);
        }
        append_chars(&mut r, &texts[i]);
        proof {
            let t = seq_views(texts@).subrange(0, i + 1);
            assert(t.drop_last() =~= seq_views(texts@).subrange(0, i as int));
        }
        i = i + 1;
    }
    assert(seq_views(texts@).subrange(0, texts@.len() as int) =~= seq_views(texts@));
    if filename.len() > 0 {
        if r.len() > 0 && r[r.len() - 1] != sep {
            r.push(sep);
        }
        append_chars(&mut r, filename);
    }
    r
}

/// The characters of each segment text.
pub fn segment_chars(info: &PathInfo) -> (v: Vec<Vec<char>>)
    ensures
        seq_views(v@) == info@.texts,
{
    let mut v: Vec<Vec<char>> = Vec::new();
    let mut i: usize = 0;
    while i < info.segments.len()
        invariant
            i <= info.segments.len(),
            seq_views(v@) == info@.texts.subrange(0, i as int),
        decreases info.segments.len() - i,
    {
        let c = chars_of_string(&info.segments[i].text);
        assert(c@ == info@.texts[i as int]);
        let ghost old_v = seq_views(v@);
        v.push(c);
        assert(seq_views(v@) =~= old_v.push(c@));
        i = i + 1;
        assert(seq_views(v@) =~= info@.texts.subrange(0, i as int));
    }
    assert(info@.texts.subrange(0, info@.texts.len() as int) =~= info@.texts);
    v
}

impl PathInfo {
    /// Parse a path string into structured components with priority classification.
    pub fn parse(path: &str, force_style: Option<PathStyle>) -> (info: Self)
        ensures
            info@ == parse_spec(path@, force_style),
    {
        let style = match force_style {
            Some(s) => s,
            None => detect_style(path),
        };
        let sep = separator(style);
        let chars = chars_of(path);

        // Normalize: replace the "other" separator with the canonical one
        let normalized = normalize(&chars, style);
        let (prefix_chars, rest) = extract_prefix(&normalized, style);
        let prefix = string_of(&prefix_chars);

        // Split remaining path into parts
        let mut parts = split_rest(&normalized, rest, sep);
        proof {
            assert(seq_views(parts@) == parts_spec(path@, style));
        }

        if parts.len() == 0 {
            let info = PathInfo { prefix, segments: Vec::new(), filename: String::new(), style };
            assert(info@.texts =~= Seq::<Seq<char>>::empty());
            assert(info@.priorities =~= Seq::<SegmentPriority>::empty());
            return info;
        }
        // Last part is the filename (sacred)

        let ghost all = seq_views(parts@);
        let last = parts.pop().unwrap();
        let filename = string_of(&last);
        proof {
            assert(seq_views(parts@) =~= all.drop_last());
        }

        // Classify segments
        let segments = classify_segments(&parts, &prefix, style);
        let info = PathInfo { prefix, segments, filename, style };
        proof {
            let m = parse_spec(path@, force_style);
            assert(info@.texts =~= m.texts);
            assert(info@.priorities =~= m.priorities);
        }
        info
    }

    /// Reassemble the path from prefix + segments + filename using the given separator.
    pub fn reassemble(&self, segment_texts: &[&str]) -> (r: String)
        ensures
            r@ == assemble(self@, segment_texts@.map_values(|t: &str| t@)),
    {
        let sep = separator(self.style);
        let mut texts: Vec<Vec<char>> = Vec::new();
        let mut i: usize = 0;
        while i < segment_texts.len()
            invariant
                i <= segment_texts@.len(),
                seq_views(texts@) == segment_texts@.map_values(|t: &str| t@).subrange(0, i as int),
            decreases segment_texts@.len() - i,
        {
            let c = chars_of(segment_texts[i]);
            assert(c@ == segment_texts@.map_values(|t: &str| t@)[i as int]);
            let ghost old_t = seq_views(texts@);
            texts.push(c);
            assert(seq_views(texts@) =~= old_t.push(c@));
            i = i + 1;
            assert(seq_views(texts@) =~= segment_texts@.map_values(|t: &str| t@).subrange(
                0,
                i as int,
            ));
        }
        assert(segment_texts@.map_values(|t: &str| t@).subrange(0, segment_texts@.len() as int)
            =~= segment_texts@.map_values(|t: &str| t@));
        let prefix = chars_of_string(&self.prefix);
        let filename = chars_of_string(&self.filename);
        let r = assemble_chars(&prefix, &texts, &filename, sep);
        string_of(&r)
    }
}

} // verus!
