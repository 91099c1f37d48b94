//! Character-level text helpers shared by the parser and the strategies:
//! UTF-8 byte lengths, conversions between `str`/`String` and `Vec<char>`,
//! and a few comparisons.
use vstd::prelude::*;
use vstd::utf8::*;

verus! {

/// Number of bytes the UTF-8 encoding of `c` takes.
pub open spec fn char_width(c: char) -> nat {
    if (c as u32) <= 0x7F {
        1
    } else if (c as u32) <= 0x7FF {
        2
    } else if (c as u32) <= 0xFFFF {
        3
    } else {
        4
    }
}

/// Length in bytes of the UTF-8 encoding of `s` (what `str::len` returns).
pub open spec fn byte_len(s: Seq<char>) -> nat
    decreases s.len(),
{
    if s.len() == 0 {
        0
    } else {
        byte_len(s.drop_last()) + char_width(s.last())
    }
}

/// `p` is a prefix of `s`.
pub open spec fn is_prefix(p: Seq<char>, s: Seq<char>) -> bool {
    p.len() <= s.len() && s.subrange(0, p.len() as int) == p
}

/// `t` is a suffix of `s`.
pub open spec fn is_suffix(t: Seq<char>, s: Seq<char>) -> bool {
    t.len() <= s.len() && s.subrange(s.len() - t.len(), s.len() as int) == t
}

/// Code point of the ASCII lower-casing of `c` (other characters are unchanged).
pub open spec fn ascii_lower(c: char) -> int {
    if 'A' <= c && c <= 'Z' {
        (c as int) + 32
    } else {
        c as int
    }
}

/// ASCII case-insensitive equality of two character sequences.
pub open spec fn eq_ignore_ascii_case(a: Seq<char>, b: Seq<char>) -> bool {
    a.len() == b.len() && forall|i: int| 0 <= i < a.len() ==> ascii_lower(a[i]) == ascii_lower(
        b[i],
    )
}

/// Byte length is additive over concatenation.
pub proof fn lemma_byte_len_concat(a: Seq<char>, b: Seq<char>)
    ensures
        byte_len(a + b) == byte_len(a) + byte_len(b),
    decreases b.len(),
{
    if b.len() == 0 {
        assert(a + b =~= a);
    } else {
        lemma_byte_len_concat(a, b.drop_last());
        assert((a + b).drop_last() =~= a + b.drop_last());
    }
}

/// Byte length of a sequence grown by one character.
pub proof fn lemma_byte_len_push(a: Seq<char>, c: char)
    ensures
        byte_len(a.push(c)) == byte_len(a) + char_width(c),
{
    assert(a.push(c).drop_last() =~= a);
}

/// Every character takes at least one byte, so the byte length bounds the
/// character count.
pub proof fn lemma_byte_len_ge_len(a: Seq<char>)
    ensures
        byte_len(a) >= a.len(),
    decreases a.len(),
{
    if a.len() > 0 {
        lemma_byte_len_ge_len(a.drop_last());
    }
}

/// A prefix is no longer in bytes than the whole.
pub proof fn lemma_byte_len_prefix(s: Seq<char>, n: int)
    requires
        0 <= n <= s.len(),
    ensures
        byte_len(s.subrange(0, n)) <= byte_len(s),
        n < s.len() ==> byte_len(s.subrange(0, n)) < byte_len(s),
{
    lemma_byte_len_concat(s.subrange(0, n), s.subrange(n, s.len() as int));
    assert(s.subrange(0, n) + s.subrange(n, s.len() as int) =~= s);
    if n < s.len() {
        lemma_byte_len_ge_len(s.subrange(n, s.len() as int));
    }
}

/// `byte_len` is the length of the UTF-8 encoding that vstd specifies for
/// `str` (the value `str::len` returns).
pub proof fn lemma_byte_len_is_utf8_len(s: Seq<char>)
    ensures
        byte_len(s) == encode_utf8(s).len(),
    decreases s.len(),
{
    if s.len() > 0 {
        lemma_byte_len_is_utf8_len(s.drop_first());
        lemma_byte_len_concat(seq![s[0]], s.drop_first());
        assert(seq![s[0]] + s.drop_first() =~= s);
        assert(seq![s[0]].drop_last() =~= Seq::<char>::empty());
        char_is_scalar(s[0]);
        let u = s[0] as u32;
        assert(encode_scalar(u).len() == char_width(s[0]));
        assert(encode_utf8(s) == encode_scalar(u) + encode_utf8(s.drop_first()));
        assert(byte_len(seq![s[0]]) == byte_len(Seq::<char>::empty()) + char_width(s[0]));
        assert(byte_len(s) == byte_len(seq![s[0]]) + byte_len(s.drop_first()));
    }
}

/// Appends `c` to `s`. Trusted: calls `String::push`, whose documentation
/// says it appends the given `char` to the end of the string, so the
/// contents become the old contents followed by `c`.
#[verifier::external_body]
pub fn push_char(s: &mut String, c: char)
    ensures
        final(s)@ == old(s)@.push(c),
{
    s.push(c);
}

/// Appends the characters `v[from..to]` to `s`.
pub fn push_chars(s: &mut String, v: &Vec<char>, from: usize, to: usize)
    requires
        from <= to <= v.len(),
    ensures
        final(s)@ == old(s)@ + v@.subrange(from as int, to as int),
{
    let mut i = from;
    while i < to
        invariant
            from <= i <= to <= v.len(),
            s@ == old(s)@ + v@.subrange(from as int, i as int),
        decreases to - i,
    {
        push_char(s, v[i]);
        i = i + 1;
        assert(v@.subrange(from as int, i as int) =~= v@.subrange(from as int, i - 1).push(
            v@[i - 1],
        ));
    }
}


/// A new `String` holding the characters of `v[from..to]`.
pub fn string_from(v: &Vec<char>, from: usize, to: usize) -> (s: String)
    requires
        from <= to <= v.len(),
    ensures
        s@ == v@.subrange(from as int, to as int),
{
    let mut s = String::new();
    push_chars(&mut s, v, from, to);
    assert(Seq::<char>::empty() + v@.subrange(from as int, to as int) =~= v@.subrange(
        from as int,
        to as int,
    ));
    s
}

/// A new `String` holding the characters of `v`.
pub fn string_of(v: &Vec<char>) -> (s: String)
    ensures
        s@ == v@,
{
    let s = string_from(v, 0, v.len());
    assert(v@.subrange(0, v@.len() as int) =~= v@);
    s
}

/// The characters of a string slice.
pub fn chars_of(s: &str) -> (v: Vec<char>)
    ensures
        v@ == s@,
{
    let n = s.unicode_len();
    let mut v: Vec<char> = Vec::new();
    let mut i: usize = 0;
    while i < n
        invariant
            n == s@.len(),
            i <= n,
            v@ == s@.subrange(0, i as int),
        decreases n - i,
    {
        v.push(s.get_char(i));
        i = i + 1;
        assert(v@ =~= s@.subrange(0, i as int));
    }
    assert(v@ =~= s@);
    v
}

/// The characters of a `String`.
pub fn chars_of_string(s: &String) -> (v: Vec<char>)
    ensures
        v@ == s@,
{
    chars_of(s.as_str())
}


/// Number of bytes the UTF-8 encoding of `c` takes.
pub fn char_width_exec(c: char) -> (w: usize)
    ensures
        w == char_width(c),
{
    let u = c as u32;
    if u <= 0x7F {
        1
    } else if u <= 0x7FF {
        2
    } else if u <= 0xFFFF {
        3
    } else {
        4
    }
}

/// Byte length of `v`, saturated at `usize::MAX`.
pub fn byte_len_sat(v: &Vec<char>) -> (r: usize)
    ensures
        r as int == if byte_len(v@) < usize::MAX as int {
            byte_len(v@) as int
        } else {
            usize::MAX as int
        },
{
    let mut r: usize = 0;
    let mut i: usize = 0;
    while i < v.len()
        invariant
            i <= v.len(),
            r as int == if byte_len(v@.subrange(0, i as int)) < usize::MAX as int {
                byte_len(v@.subrange(0, i as int)) as int
            } else {
                usize::MAX as int
            },
        decreases v.len() - i,
    {
        let w = char_width_exec(v[i]);
        proof {
            assert(v@.subrange(0, i + 1) =~= v@.subrange(0, i as int).push(v@[i as int]));
            lemma_byte_len_push(v@.subrange(0, i as int), v@[i as int]);
        }
        r = r.saturating_add(w);
        i = i + 1;
    }
    assert(v@.subrange(0, v@.len() as int) =~= v@);
    r
}

/// Whether the UTF-8 encoding of `v` takes at most `max_len` bytes.
pub fn fits_within(v: &Vec<char>, max_len: usize) -> (r: bool)
    ensures
        r == (byte_len(v@) <= max_len),
{
    let mut acc: usize = 0;
    let mut i: usize = 0;
    while i < v.len()
        invariant
            i <= v.len(),
            acc == byte_len(v@.subrange(0, i as int)),
            acc <= max_len,
        decreases v.len() - i,
    {
        let w = char_width_exec(v[i]);
        proof {
            assert(v@.subrange(0, i + 1) =~= v@.subrange(0, i as int).push(v@[i as int]));
            lemma_byte_len_push(v@.subrange(0, i as int), v@[i as int]);
        }
        if w > max_len - acc {
            proof {
                lemma_byte_len_prefix(v@, i + 1);
            }
            return false;
        }
        acc = acc + w;
        i = i + 1;
    }
    assert(v@.subrange(0, v@.len() as int) =~= v@);
    true
}


fn ascii_lower_exec(c: char) -> (r: u32)
    ensures
        r == ascii_lower(c),
{
    if 'A' <= c && c <= 'Z' {
        (c as u32) + 32
    } else {
        c as u32
    }
}

/// ASCII case-insensitive equality.
pub fn eq_ignore_ascii_case_exec(a: &Vec<char>, b: &Vec<char>) -> (r: bool)
    ensures
        r == eq_ignore_ascii_case(a@, b@),
{
    if a.len() != b.len() {
        return false;
    }
    let mut i: usize = 0;
    while i < a.len()
        invariant
            a.len() == b.len(),
            i <= a.len(),
            forall|j: int| 0 <= j < i ==> ascii_lower(a@[j]) == ascii_lower(b@[j]),
        decreases a.len() - i,
    {
        if ascii_lower_exec(a[i]) != ascii_lower_exec(b[i]) {
            return false;
        }
        i = i + 1;
    }
    true
}

/// Whether `p` is a prefix of `s`.
pub fn starts_with_chars(s: &Vec<char>, p: &Vec<char>) -> (r: bool)
    ensures
        r == is_prefix(p@, s@),
{
    if p.len() > s.len() {
        return false;
    }
    let mut i: usize = 0;
    while i < p.len()
        invariant
            p.len() <= s.len(),
            i <= p.len(),
            forall|j: int| 0 <= j < i ==> s@[j] == p@[j],
        decreases p.len() - i,
    {
        if s[i] != p[i] {
            assert(s@.subrange(0, p@.len() as int)[i as int] != p@[i as int]);
            return false;
        }
        i = i + 1;
    }
    assert(s@.subrange(0, p@.len() as int) =~= p@);
    true
}

/// The character sequences held by a sequence of vectors.
pub open spec fn seq_views(v: Seq<Vec<char>>) -> Seq<Seq<char>> {
    v.map_values(|t: Vec<char>| t@)
}

/// Appends all characters of `t` to `r`.
pub fn append_chars(r: &mut Vec<char>, t: &Vec<char>)
    ensures
        final(r)@ == old(r)@ + t@,
{
    let mut i: usize = 0;
    while i < t.len()
        invariant
            i <= t.len(),
            r@ == old(r)@ + t@.subrange(0, i as int),
        decreases t.len() - i,
    {
        r.push(t[i]);
        i = i + 1;
        assert(r@ =~= old(r)@ + t@.subrange(0, i as int));
    }
    assert(t@.subrange(0, t@.len() as int) =~= t@);
}

/// A copy of `v[from..to]`.
pub fn copy_range(v: &Vec<char>, from: usize, to: usize) -> (r: Vec<char>)
    requires
        from <= to <= v.len(),
    ensures
        r@ == v@.subrange(from as int, to as int),
{
    let mut r: Vec<char> = Vec::new();
    let mut i = from;
    while i < to
        invariant
            from <= i <= to <= v.len(),
            r@ == v@.subrange(from as int, i as int),
        decreases to - i,
    {
        r.push(v[i]);
        i = i + 1;
        assert(r@ =~= v@.subrange(from as int, i as int));
    }
    r
}

/// A copy of `v`.
pub fn copy_chars(v: &Vec<char>) -> (r: Vec<char>)
    ensures
        r@ == v@,
{
    let r = copy_range(v, 0, v.len());
    assert(v@.subrange(0, v@.len() as int) =~= v@);
    r
}

/// Whether two character vectors are equal.
pub fn chars_eq(a: &Vec<char>, b: &Vec<char>) -> (r: bool)
    ensures
        r == (a@ == b@),
{
    if a.len() != b.len() {
        return false;
    }
    let mut i: usize = 0;
    while i < a.len()
        invariant
            a.len() == b.len(),
            i <= a.len(),
            forall|j: int| 0 <= j < i ==> a@[j] == b@[j],
        decreases a.len() - i,
    {
        if a[i] != b[i] {
            return false;
        }
        i = i + 1;
    }
    assert(a@ =~= b@);
    true
}

} // verus!
