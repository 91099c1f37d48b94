//! # shrinkpath
//!
//! Smart, cross-platform path shortening.
//!
//! Shortens file paths while preserving the information that matters most:
//! the **filename** (never truncated) and the **user identity** (preserved
//! when possible).
//!
//! - **Hybrid** (default): abbreviates expendable segments first, then
//!   context segments, then collapses runs into `...`, then abbreviates identity.
//! - **Fish**: abbreviates every directory segment to its first character.
//! - **Ellipsis**: replaces middle segments with `...`, keeping identity and tail.
//! - **Unique**: cuts each segment to the shortest prefix that tells it apart
//!   from the other segments of the path.
//!
//! Lengths are measured in bytes of UTF-8 (what `str::len` returns), and the
//! path style (Unix or Windows) is read from the string itself.
use vstd::prelude::*;

pub mod cli;
pub mod fs_aware;
pub mod laws;
pub mod metadata;
pub mod path_info;
pub mod platform;
pub mod strategy;
pub mod text;

pub use metadata::{shrink_detailed, SegmentInfo, ShrinkResult};
pub use platform::PathStyle;
pub use strategy::Strategy;

use path_info::{parse_spec, PathInfo, PathModel};
use strategy::ellipsis::ellipsis_spec;
use strategy::fish::{fish_spec, string_views};
use strategy::hybrid::hybrid_spec;
use strategy::unique::unique_spec;
use text::{
    byte_len, chars_of, chars_of_string, is_prefix, is_suffix, lemma_byte_len_prefix,
    push_chars, starts_with_chars,
};

verus! {

/// Configuration for path shortening.
#[derive(Debug, Clone)]
pub struct ShrinkOptions {
    /// Target maximum length. The output will be at most this long, unless the
    /// filename itself exceeds it (filenames are never truncated).
    pub max_len: usize,
    /// Shortening strategy.
    pub strategy: Strategy,
    /// Force a specific path style instead of auto-detecting.
    pub path_style: Option<PathStyle>,
    /// Custom ellipsis string. Default: `"..."`.
    pub ellipsis: String,
    /// Number of characters to keep per abbreviated directory segment. Default: 1.
    pub dir_length: usize,
    /// Number of trailing directory segments to keep unabbreviated. Default: 0.
    pub full_length_dirs: usize,
    /// Custom path prefix substitutions applied before shortening.
    /// Each tuple is `(from, to)`: if the path starts with `from`, replace it with `to`.
    /// The longest matching `from` wins.
    pub mapped_locations: Vec<(String, String)>,
    /// Segment names that should never be abbreviated, regardless of strategy.
    pub anchors: Vec<String>,
}

/// The `(from, to)` pairs of a list of mapped locations, as character sequences.
pub open spec fn mapping_views(v: Seq<(String, String)>) -> Seq<(Seq<char>, Seq<char>)> {
    v.map_values(|p: (String, String)| (p.0@, p.1@))
}

/// `...` as a character sequence.
pub open spec fn default_ellipsis() -> Seq<char> {
    seq!['.', '.', '.']
}

/// Every field but the one a builder sets is carried over unchanged.
pub open spec fn same_except_strategy(a: ShrinkOptions, b: ShrinkOptions) -> bool {
    &&& a.max_len == b.max_len
    &&& a.path_style == b.path_style
    &&& a.ellipsis@ == b.ellipsis@
    &&& a.dir_length == b.dir_length
    &&& a.full_length_dirs == b.full_length_dirs
    &&& mapping_views(a.mapped_locations@) == mapping_views(b.mapped_locations@)
    &&& string_views(a.anchors@) == string_views(b.anchors@)
}

impl ShrinkOptions {
    /// Create options with sensible defaults: Hybrid strategy, max_len as specified.
    pub fn new(max_len: usize) -> (o: Self)
        ensures
            o.max_len == max_len,
            o.strategy == Strategy::Hybrid,
            o.path_style is None,
            o.ellipsis@ == default_ellipsis(),
            o.dir_length == 1,
            o.full_length_dirs == 0,
            o.mapped_locations@.len() == 0,
            o.anchors@.len() == 0,
    {
        let ellipsis = String::from_str("...");
        proof {
            reveal_strlit("...");
            assert(ellipsis@ =~= default_ellipsis());
        }
        ShrinkOptions {
            max_len,
            strategy: Strategy::Hybrid,
            path_style: None,
            ellipsis,
            dir_length: 1,
            full_length_dirs: 0,
            mapped_locations: Vec::new(),
            anchors: Vec::new(),
        }
    }

    /// Set the shortening strategy.
    pub fn strategy(self, s: Strategy) -> (o: Self)
        ensures
            o.strategy == s,
            same_except_strategy(o, self),
    {
        let mut o = self;
        o.strategy = s;
        o
    }

    /// Force a specific path style.
    pub fn path_style(self, s: PathStyle) -> (o: Self)
        ensures
            o.path_style == Some(s),
            o.strategy == self.strategy,
            o.max_len == self.max_len,
            o.ellipsis@ == self.ellipsis@,
            o.dir_length == self.dir_length,
            o.full_length_dirs == self.full_length_dirs,
            mapping_views(o.mapped_locations@) == mapping_views(self.mapped_locations@),
            string_views(o.anchors@) == string_views(self.anchors@),
    {
        let mut o = self;
        o.path_style = Some(s);
        o
    }

    /// Set a custom ellipsis string.
    pub fn ellipsis(self, e: &str) -> (o: Self)
        ensures
            o.ellipsis@ == e@,
            o.strategy == self.strategy,
            o.max_len == self.max_len,
            o.path_style == self.path_style,
            o.dir_length == self.dir_length,
            o.full_length_dirs == self.full_length_dirs,
            mapping_views(o.mapped_locations@) == mapping_views(self.mapped_locations@),
            string_views(o.anchors@) == string_views(self.anchors@),
    {
        let mut o = self;
        o.ellipsis = String::from_str(e);
        o
    }

    /// Set the number of characters to keep per abbreviated directory segment.
    pub fn dir_length(self, n: usize) -> (o: Self)
        ensures
            o.dir_length == n,
            o.strategy == self.strategy,
            o.max_len == self.max_len,
            o.path_style == self.path_style,
            o.ellipsis@ == self.ellipsis@,
            o.full_length_dirs == self.full_length_dirs,
            mapping_views(o.mapped_locations@) == mapping_views(self.mapped_locations@),
            string_views(o.anchors@) == string_views(self.anchors@),
    {
        let mut o = self;
        o.dir_length = n;
        o
    }

    /// Set the number of trailing directory segments to keep unabbreviated.
    pub fn full_length_dirs(self, n: usize) -> (o: Self)
        ensures
            o.full_length_dirs == n,
            o.strategy == self.strategy,
            o.max_len == self.max_len,
            o.path_style == self.path_style,
            o.ellipsis@ == self.ellipsis@,
            o.dir_length == self.dir_length,
            mapping_views(o.mapped_locations@) == mapping_views(self.mapped_locations@),
            string_views(o.anchors@) == string_views(self.anchors@),
    {
        let mut o = self;
        o.full_length_dirs = n;
        o
    }

    /// Add a mapped location: if the path starts with `from`, replace it with `to`.
    pub fn map_location(self, from: &str, to: &str) -> (o: Self)
        ensures
            mapping_views(o.mapped_locations@) == mapping_views(self.mapped_locations@).push(
                (from@, to@),
            ),
            o.strategy == self.strategy,
            o.max_len == self.max_len,
            o.path_style == self.path_style,
            o.ellipsis@ == self.ellipsis@,
            o.dir_length == self.dir_length,
            o.full_length_dirs == self.full_length_dirs,
            string_views(o.anchors@) == string_views(self.anchors@),
    {
        let mut o = self;
        let ghost before = mapping_views(o.mapped_locations@);
        o.mapped_locations.push((String::from_str(from), String::from_str(to)));
        assert(mapping_views(o.mapped_locations@) =~= before.push((from@, to@)));
        o
    }

    /// Add an anchor segment name that should never be abbreviated.
    pub fn anchor(self, name: &str) -> (o: Self)
        ensures
            string_views(o.anchors@) == string_views(self.anchors@).push(name@),
            o.strategy == self.strategy,
            o.max_len == self.max_len,
            o.path_style == self.path_style,
            o.ellipsis@ == self.ellipsis@,
            o.dir_length == self.dir_length,
            o.full_length_dirs == self.full_length_dirs,
            mapping_views(o.mapped_locations@) == mapping_views(self.mapped_locations@),
    {
        let mut o = self;
        let ghost before = string_views(o.anchors@);
        o.anchors.push(String::from_str(name));
        assert(string_views(o.anchors@) =~= before.push(name@));
        o
    }
}

/// The index of the mapping applied to `path`: among those whose `from` is
/// a prefix of `path`, the one with the longest `from` (in bytes), the
/// earliest of equally long ones.
pub open spec fn best_mapping(path: Seq<char>, maps: Seq<(Seq<char>, Seq<char>)>) -> Option<int>
    decreases maps.len(),
{
    if maps.len() == 0 {
        None
    } else {
        let prev = best_mapping(path, maps.drop_last());
        let k = maps.len() - 1;
        if is_prefix(maps[k].0, path) && (match prev {
            None => true,
            Some(j) => byte_len(maps[k].0) > byte_len(maps[j].0),
        }) {
            Some(k)
        } else {
            prev
        }
    }
}

/// The path after mapped-location substitution: the chosen `from` prefix
/// replaced by its `to`, or the path unchanged when no `from` matches.
pub open spec fn mapped_spec(path: Seq<char>, maps: Seq<(Seq<char>, Seq<char>)>) -> Seq<char> {
    match best_mapping(path, maps) {
        Some(k) => maps[k].1 + path.subrange(maps[k].0.len() as int, path.len() as int),
        None => path,
    }
}

/// The path model that `shrink` shortens: the mapped path, parsed.
pub open spec fn shrink_model(path: Seq<char>, opts: ShrinkOptions) -> PathModel {
    parse_spec(mapped_spec(path, mapping_views(opts.mapped_locations@)), opts.path_style)
}

/// What [`shrink`] returns: the empty string for an empty path, else the
/// chosen strategy applied to the mapped and parsed path.
pub open spec fn shrink_spec(path: Seq<char>, opts: ShrinkOptions) -> Seq<char> {
    if path.len() == 0 {
        Seq::empty()
    } else {
        let m = shrink_model(path, opts);
        let anchors = string_views(opts.anchors@);
        match opts.strategy {
            Strategy::Fish => fish_spec(
                m,
                opts.dir_length as int,
                opts.full_length_dirs as int,
                anchors,
            ),
            Strategy::Ellipsis => ellipsis_spec(m, opts.max_len as int, opts.ellipsis@),
            Strategy::Hybrid => hybrid_spec(
                m,
                opts.max_len as int,
                opts.ellipsis@,
                anchors,
                opts.dir_length as int,
                opts.full_length_dirs as int,
            ),
            Strategy::Unique => unique_spec(m, anchors),
        }
    }
}

/// Mapped locations: no mapping applies exactly when no `from` is a prefix
/// of the path; otherwise the one applied matches, and no matching mapping
/// has a longer `from`, nor an equally long one at an earlier index.
pub proof fn longest_mapping_wins(path: Seq<char>, maps: Seq<(Seq<char>, Seq<char>)>)
    ensures
        best_mapping(path, maps) is None <==> forall|j: int|
            0 <= j < maps.len() ==> !is_prefix(#[trigger] maps[j].0, path),
        best_mapping(path, maps) matches Some(k) ==> {
            &&& 0 <= k < maps.len()
            &&& is_prefix(maps[k].0, path)
            &&& forall|j: int|
                0 <= j < maps.len() && is_prefix(#[trigger] maps[j].0, path) ==> byte_len(maps[j].0)
                    < byte_len(maps[k].0) || (byte_len(maps[j].0) == byte_len(maps[k].0) && k <= j)
        },
    decreases maps.len(),
{
    if maps.len() > 0 {
        let rest = maps.drop_last();
        longest_mapping_wins(path, rest);
        assert forall|j: int| 0 <= j < rest.len() implies rest[j] == maps[j] by {}
    }
}

/// For prefixes of the same sequence, byte length orders as character count.
proof fn lemma_prefix_byte_order(path: Seq<char>, a: Seq<char>, b: Seq<char>)
    requires
        is_prefix(a, path),
        is_prefix(b, path),
    ensures
        (a.len() < b.len()) == (byte_len(a) < byte_len(b)),
        (a.len() == b.len()) ==> byte_len(a) == byte_len(b),
{
    if a.len() < b.len() {
        assert(b.subrange(0, a.len() as int) =~= a);
        lemma_byte_len_prefix(b, a.len() as int);
    } else if b.len() < a.len() {
        assert(a.subrange(0, b.len() as int) =~= b);
        lemma_byte_len_prefix(a, b.len() as int);
    } else {
        assert(a =~= b);
    }
}

/// Apply mapped location substitutions to a path, returning the transformed path.
/// The longest matching `from` prefix wins (the first of equally long ones).
pub(crate) fn apply_mapped_locations(path: &str, mapped_locations: &[(String, String)]) -> (r: String)
    ensures
        r@ == mapped_spec(path@, mapping_views(mapped_locations@)),
{
    let ghost maps = mapping_views(mapped_locations@);
    let p = chars_of(path);
    let mut best: Option<(usize, usize)> = None;  // (index, length of `from` in chars)
    let mut i: usize = 0;
    while i < mapped_locations.len()
        invariant
            maps == mapping_views(mapped_locations@),
            p@ == path@,
            i <= mapped_locations@.len(),
            match best {
                None => best_mapping(path@, maps.subrange(0, i as int)) is None,
                Some((k, l)) => best_mapping(path@, maps.subrange(0, i as int)) == Some(k as int)
                    && k < i && l == maps[k as int].0.len() && is_prefix(maps[k as int].0, path@),
            },
        decreases mapped_locations@.len() - i,
    {
        let from = chars_of_string(&mapped_locations[i].0);
        proof {
            let sub = maps.subrange(0, i + 1);
            assert(sub.drop_last() =~= maps.subrange(0, i as int));
            assert(from@ == maps[i as int].0);
            assert(sub[i as int] == maps[i as int]);
            match best {
                None => {},
                Some((k, l)) => {
                    assert(sub[k as int] == maps[k as int]);
                },
            }
        }
        if starts_with_chars(&p, &from) {
            let better = match best {
                None => true,
                Some((_, l)) => from.len() > l,
            };
            proof {
                match best {
                    None => {},
                    Some((k, l)) => {
                        lemma_prefix_byte_order(path@, maps[k as int].0, from@);
                    },
                }
            }
            if better {
                best = Some((i, from.len()));
            }
        }
        i = i + 1;
    }
    assert(maps.subrange(0, mapped_locations@.len() as int) =~= maps);
    match best {
        None => String::from_str(path),
        Some((k, l)) => {
            let to = &mapped_locations[k].1;
            let mut r = copy_to(to);
            push_chars(&mut r, &p, l, p.len());
            r
        },
    }
}

/// A copy of `s`.
fn copy_to(s: &String) -> (r: String)
    ensures
        r@ == s@,
{
    String::from_str(s.as_str())
}

/// Shorten a path using the given options.
pub fn shrink(path: &str, opts: &ShrinkOptions) -> (r: String)
    ensures
        r@ == shrink_spec(path@, *opts),
        path@.len() > 0 ==> is_suffix(shrink_model(path@, *opts).filename, r@),
        path@.len() > 0 && (opts.strategy == Strategy::Ellipsis || opts.strategy
            == Strategy::Hybrid) && byte_len(
            shrink_model(path@, *opts).filename,
        ) <= opts.max_len ==> byte_len(r@) <= opts.max_len,
        path@.len() > 0 && (opts.strategy == Strategy::Ellipsis || opts.strategy
            == Strategy::Hybrid) ==> byte_len(r@) <= opts.max_len || r@ == shrink_model(
            path@,
            *opts,
        ).filename,
{
    if path.unicode_len() == 0 {
        return String::new();
    }
    // Apply mapped locations before parsing

    let mapped = apply_mapped_locations(path, opts.mapped_locations.as_slice());
    let info = PathInfo::parse(mapped.as_str(), opts.path_style);
    proof {
        strategy::unique::lemma_unique_suffix(info@, string_views(opts.anchors@));
        strategy::fish::lemma_fish_suffix(
            info@,
            opts.dir_length as int,
            opts.full_length_dirs as int,
            string_views(opts.anchors@),
        );
    }

    match opts.strategy {
        Strategy::Fish => strategy::fish::shrink_fish(
            &info,
            opts.dir_length,
            opts.full_length_dirs,
            opts.anchors.as_slice(),
        ),
        Strategy::Ellipsis => strategy::ellipsis::shrink_ellipsis(
            &info,
            opts.max_len,
            opts.ellipsis.as_str(),
        ),
        Strategy::Hybrid => strategy::hybrid::shrink_hybrid_with_lengths(
            &info,
            opts.max_len,
            opts.ellipsis.as_str(),
            opts.anchors.as_slice(),
            opts.dir_length,
            opts.full_length_dirs,
        ),
        Strategy::Unique => strategy::unique::shrink_unique(&info, opts.anchors.as_slice()),
    }
}

// ── Convenience functions ────────────────────────────────────────────────────
/// What [`shrink_to`] returns: the empty string for an empty path, else
/// the Hybrid shortening with the default options.
pub open spec fn shrink_to_spec(path: Seq<char>, max_len: int) -> Seq<char> {
    if path.len() == 0 {
        Seq::empty()
    } else {
        hybrid_spec(parse_spec(path, None), max_len, default_ellipsis(), Seq::empty(), 1, 0)
    }
}

/// Shorten a path using the Hybrid strategy with a target max length.
pub fn shrink_to(path: &str, max_len: usize) -> (r: String)
    ensures
        r@ == shrink_to_spec(path@, max_len as int),
        is_suffix(parse_spec(path@, None).filename, r@),
        byte_len(parse_spec(path@, None).filename) <= max_len ==> byte_len(r@) <= max_len,
        byte_len(r@) <= max_len || r@ == parse_spec(path@, None).filename,
{
    let opts = ShrinkOptions::new(max_len);
    proof {
        assert(mapping_views(opts.mapped_locations@) =~= Seq::empty());
        assert(string_views(opts.anchors@) =~= Seq::empty());
        assert(mapped_spec(path@, mapping_views(opts.mapped_locations@)) == path@);
        if path@.len() == 0 {
            assert(parse_spec(path@, None).filename.len() == 0);
        }
    }
    let r = shrink(path, &opts);
    assert(r@.subrange(r@.len() as int, r@.len() as int) =~= Seq::<char>::empty());
    r
}

/// Shorten a path using Fish-style abbreviation (no length target).
pub fn shrink_fish(path: &str) -> (r: String)
    ensures
        r@ == fish_spec(parse_spec(path@, None), 1, 0, Seq::empty()),
        is_suffix(parse_spec(path@, None).filename, r@),
{
    let info = PathInfo::parse(path, None);
    let anchors: Vec<String> = Vec::new();
    proof {
        assert(string_views(anchors@) =~= Seq::empty());
        strategy::fish::lemma_fish_suffix(info@, 1, 0, Seq::empty());
    }
    strategy::fish::shrink_fish(&info, 1, 0, anchors.as_slice())
}

/// Shorten a path using ellipsis with a target max length.
pub fn shrink_ellipsis(path: &str, max_len: usize) -> (r: String)
    ensures
        r@ == (if path@.len() == 0 {
            Seq::empty()
        } else {
            ellipsis_spec(parse_spec(path@, None), max_len as int, default_ellipsis())
        }),
        is_suffix(parse_spec(path@, None).filename, r@),
        byte_len(parse_spec(path@, None).filename) <= max_len ==> byte_len(r@) <= max_len,
        byte_len(r@) <= max_len || r@ == parse_spec(path@, None).filename,
{
    let opts = ShrinkOptions::new(max_len).strategy(Strategy::Ellipsis);
    proof {
        assert(mapping_views(opts.mapped_locations@) =~= Seq::empty());
        assert(mapped_spec(path@, mapping_views(opts.mapped_locations@)) == path@);
        if path@.len() == 0 {
            assert(parse_spec(path@, None).filename.len() == 0);
        }
    }
    let r = shrink(path, &opts);
    assert(r@.subrange(r@.len() as int, r@.len() as int) =~= Seq::<char>::empty());
    r
}

/// Shorten a path using unique-prefix disambiguation (no length target).
pub fn shrink_unique(path: &str) -> (r: String)
    ensures
        r@ == (if path@.len() == 0 {
            Seq::empty()
        } else {
            unique_spec(parse_spec(path@, None), Seq::empty())
        }),
        is_suffix(parse_spec(path@, None).filename, r@),
{
    let opts = ShrinkOptions::new(usize::MAX).strategy(Strategy::Unique);
    proof {
        assert(mapping_views(opts.mapped_locations@) =~= Seq::empty());
        assert(string_views(opts.anchors@) =~= Seq::empty());
        assert(mapped_spec(path@, mapping_views(opts.mapped_locations@)) == path@);
        if path@.len() == 0 {
            assert(parse_spec(path@, None).filename.len() == 0);
        }
    }
    let r = shrink(path, &opts);
    assert(r@.subrange(r@.len() as int, r@.len() as int) =~= Seq::<char>::empty());
    r
}

} // verus!
