//! Character-level text handling shared by the request parsers and the
//! interface-file reader: trimming, splitting, prefix and infix tests, and the
//! byte offsets of UTF-8 text.
use vstd::prelude::*;
use crate::number::ascii_digit;

verus! {

broadcast use vstd::string::group_string_axioms;

// ---------------------------------------------------------------------------
// std's character classes
// ---------------------------------------------------------------------------

/// The Unicode White_Space property, which `char::is_whitespace` answers:
/// U+0009 to U+000D, U+0020, U+0085, U+00A0, U+1680, U+2000 to U+200A,
/// U+2028, U+2029, U+202F, U+205F and U+3000.
pub open spec fn whitespace_char(c: char) -> bool {
    let u = c as u32;
    ||| 0x09 <= u <= 0x0D
    ||| u == 0x20
    ||| u == 0x85
    ||| u == 0xA0
    ||| u == 0x1680
    ||| 0x2000 <= u <= 0x200A
    ||| u == 0x2028
    ||| u == 0x2029
    ||| u == 0x202F
    ||| u == 0x205F
    ||| u == 0x3000
}

/// An ASCII letter, `A` to `Z` or `a` to `z`.
pub open spec fn ascii_letter(c: char) -> bool {
    (65 <= (c as u32) <= 90) || (97 <= (c as u32) <= 122)
}

/// What `char::is_alphabetic` answers for a character outside ASCII (the
/// Unicode Alphabetic property).
pub uninterp spec fn unicode_alphabetic(c: char) -> bool;

/// What `char::is_numeric` answers for a character outside ASCII (the Unicode
/// general categories Nd, Nl and No).
pub uninterp spec fn unicode_numeric(c: char) -> bool;

/// The Unicode Alphabetic property: within ASCII exactly the letters.
pub open spec fn alphabetic_char(c: char) -> bool {
    if (c as u32) < 0x80 {
        ascii_letter(c)
    } else {
        unicode_alphabetic(c)
    }
}

/// The Unicode general categories for numbers: within ASCII exactly the
/// digits.
pub open spec fn numeric_char(c: char) -> bool {
    if (c as u32) < 0x80 {
        ascii_digit(c)
    } else {
        unicode_numeric(c)
    }
}

/// The text that the `Debug` formatting of `char` writes for `c`.
pub uninterp spec fn char_debug_text(c: char) -> Seq<char>;

/// `char::is_whitespace`: whether `c` has the White_Space property.
pub(crate) fn is_whitespace(c: char) -> (r: bool)
    ensures
        r == whitespace_char(c),
{
    let u = c as u32;
    (0x09 <= u && u <= 0x0D) || u == 0x20 || u == 0x85 || u == 0xA0 || u == 0x1680 || (0x2000
        <= u && u <= 0x200A) || u == 0x2028 || u == 0x2029 || u == 0x202F || u == 0x205F || u
        == 0x3000
}

/// Calls `char::is_alphabetic`, the Alphabetic property: among ASCII
/// characters only the letters have it; outside ASCII the answer is named
/// `unicode_alphabetic`.
#[verifier::external_body]
pub(crate) fn is_alphabetic(c: char) -> (r: bool)
    ensures
        r == alphabetic_char(c),
        (c as u32) >= 0x80 ==> r == unicode_alphabetic(c),
{
    c.is_alphabetic()
}

/// Calls `char::is_numeric`, the general categories Nd, Nl and No: among
/// ASCII characters only the digits are in them; outside ASCII the answer is
/// named `unicode_numeric`.
#[verifier::external_body]
pub(crate) fn is_numeric(c: char) -> (r: bool)
    ensures
        r == numeric_char(c),
        (c as u32) >= 0x80 ==> r == unicode_numeric(c),
{
    c.is_numeric()
}

/// `char::is_alphanumeric`, which std documents as `is_alphabetic() ||
/// is_numeric()`.
pub(crate) fn is_alphanumeric(c: char) -> (r: bool)
    ensures
        r == (alphabetic_char(c) || numeric_char(c)),
{
    is_alphabetic(c) || is_numeric(c)
}

/// Formats `c` with `{:#?}` (for `char` the same as `{:?}`: the character in
/// single quotes, escaped where std escapes it); the text is named
/// `char_debug_text`.
#[verifier::external_body]
pub(crate) fn debug_char(c: char) -> (r: String)
    ensures
        r@ == char_debug_text(c),
{
    format!("{:#?}", c)
}

/// Collects the characters of `v` into a `String` (`FromIterator<&char>`).
#[verifier::external_body]
pub(crate) fn string_from(v: &[char]) -> (r: String)
    ensures
        r@ == v@,
{
    v.iter().collect()
}

// ---------------------------------------------------------------------------
// conversions and building blocks
// ---------------------------------------------------------------------------

/// The characters of a string slice.
pub fn chars_of(s: &str) -> (r: Vec<char>)
    ensures
        r@ == s@,
{
    let mut out: Vec<char> = Vec::new();
    for c in iter: s.chars()
        invariant
            out@ == iter.seq().take(iter.index()),
            iter.seq() == s@,
    {
        out.push(c);
    }
    out
}

/// An owned copy of a string slice.
pub fn string_of(s: &str) -> (r: String)
    ensures
        r@ == s@,
{
    s.to_string()
}

/// Appends the characters of a string slice.
pub fn push_str(out: &mut Vec<char>, s: &str)
    ensures
        final(out)@ == old(out)@ + s@,
{
    let ghost start = out@;
    for c in iter: s.chars()
        invariant
            out@ == start + iter.seq().take(iter.index()),
            iter.seq() == s@,
    {
        out.push(c);
    }
}

/// Appends a run of characters.
pub fn push_chars(out: &mut Vec<char>, s: &[char])
    ensures
        final(out)@ == old(out)@ + s@,
{
    let ghost start = out@;
    let n = s.len();
    for k in 0..n
        invariant
            n == s@.len(),
            out@ == start + s@.take(k as int),
    {
        out.push(s[k]);
        assert(s@.take(k + 1) =~= s@.take(k as int).push(s@[k as int]));
    }
    assert(s@.take(n as int) =~= s@);
}

/// The characters of `s` from `lo` up to `hi`.
pub fn sub_chars(s: &[char], lo: usize, hi: usize) -> (r: Vec<char>)
    requires
        lo <= hi <= s@.len(),
    ensures
        r@ == s@.subrange(lo as int, hi as int),
{
    let mut out: Vec<char> = Vec::new();
    for k in lo..hi
        invariant
            lo <= hi <= s@.len(),
            out@ == s@.subrange(lo as int, k as int),
    {
        out.push(s[k]);
        assert(s@.subrange(lo as int, k + 1) =~= s@.subrange(lo as int, k as int).push(s@[k as int]));
    }
    out
}

/// Whether two runs of characters are equal.
pub fn chars_eq(a: &[char], b: &[char]) -> (r: bool)
    ensures
        r == (a@ == b@),
{
    if a.len() != b.len() {
        return false;
    }
    let n = a.len();
    for k in 0..n
        invariant
            n == a@.len(),
            n == b@.len(),
            forall|j: int| 0 <= j < k ==> a@[j] == b@[j],
    {
        if a[k] != b[k] {
            return false;
        }
    }
    assert(a@ =~= b@);
    true
}

/// Whether `s` equals the string slice `lit`.
pub fn is_text(s: &[char], lit: &str) -> (r: bool)
    ensures
        r == (s@ == lit@),
{
    let l = chars_of(lit);
    chars_eq(s, l.as_slice())
}

/// The views of a sequence of character vectors.
pub open spec fn texts(v: Seq<Vec<char>>) -> Seq<Seq<char>> {
    v.map_values(|x: Vec<char>| x@)
}

/// Whether `list` holds `x`.
pub fn includes(list: &Vec<Vec<char>>, x: &[char]) -> (r: bool)
    ensures
        r == texts(list@).contains(x@),
{
    let n = list.len();
    for k in 0..n
        invariant
            n == list@.len(),
            forall|j: int| 0 <= j < k ==> texts(list@)[j] != x@,
    {
        if chars_eq(list[k].as_slice(), x) {
            assert(texts(list@)[k as int] == x@);
            return true;
        }
    }
    false
}

// ---------------------------------------------------------------------------
// prefixes and infixes
// ---------------------------------------------------------------------------

/// `str::starts_with` on characters.
pub fn starts_with(s: &[char], p: &[char]) -> (r: bool)
    ensures
        r == p@.is_prefix_of(s@),
{
    if p.len() > s.len() {
        return false;
    }
    let n = p.len();
    for k in 0..n
        invariant
            n == p@.len(),
            n <= s@.len(),
            forall|j: int| 0 <= j < k ==> p@[j] == s@[j],
    {
        if p[k] != s[k] {
            return false;
        }
    }
    assert(p@ =~= s@.subrange(0, n as int));
    true
}

/// Whether `s` starts with the string slice `lit`.
pub fn starts_with_str(s: &[char], lit: &str) -> (r: bool)
    ensures
        r == lit@.is_prefix_of(s@),
{
    let l = chars_of(lit);
    starts_with(s, l.as_slice())
}

/// `p` occurs in `s` at position `k`.
pub open spec fn occurs_at(p: Seq<char>, s: Seq<char>, k: int) -> bool {
    0 <= k && k + p.len() <= s.len() && s.subrange(k, k + p.len()) == p
}

/// `p` occurs somewhere in `s` (what `str::contains` answers for a pattern string).
pub open spec fn occurs_in(p: Seq<char>, s: Seq<char>) -> bool {
    exists|k: int| occurs_at(p, s, k)
}

/// Whether `lit` occurs in `s`.
pub fn contains_str(s: &[char], lit: &str) -> (r: bool)
    ensures
        r == occurs_in(lit@, s@),
{
    let p = chars_of(lit);
    let n = s.len();
    let m = p.len();
    if m > n {
        assert forall|k: int| !occurs_at(p@, s@, k) by {}
        return false;
    }
    let last = n - m;
    let mut k: usize = 0;
    while k <= last
        invariant
            n == s@.len(),
            m == p@.len(),
            m <= n,
            last == n - m,
            p@ == lit@,
            forall|j: int| 0 <= j < k ==> !occurs_at(p@, s@, j),
        decreases last + 1 - k,
    {
        let mut t: usize = 0;
        let mut same = true;
        while t < m
            invariant
                n == s@.len(),
                m == p@.len(),
                k + m <= n,
                t <= m,
                same == (forall|q: int| 0 <= q < t ==> s@[k + q] == p@[q]),
            decreases m - t,
        {
            if s[k + t] != p[t] {
                same = false;
            }
            t = t + 1;
        }
        if same {
            assert(s@.subrange(k as int, k + m) =~= p@);
            assert(occurs_at(p@, s@, k as int));
            return true;
        }
        assert(!occurs_at(p@, s@, k as int)) by {
            if s@.subrange(k as int, k + m) == p@ {
                assert forall|q: int| 0 <= q < m implies s@[k + q] == p@[q] by {
                    assert(s@.subrange(k as int, k + m)[q] == s@[k + q]);
                }
            }
        }
        k = k + 1;
    }
    assert forall|j: int| !occurs_at(p@, s@, j) by {
        if occurs_at(p@, s@, j) {
            assert(j <= last);
        }
    }
    false
}

// ---------------------------------------------------------------------------
// trimming
// ---------------------------------------------------------------------------

/// Drops the leading characters that satisfy `p`.
pub open spec fn strip_start(s: Seq<char>, p: spec_fn(char) -> bool) -> Seq<char>
    decreases s.len(),
{
    if s.len() > 0 && p(s[0]) {
        strip_start(s.drop_first(), p)
    } else {
        s
    }
}

/// Drops the trailing characters that satisfy `p`.
pub open spec fn strip_end(s: Seq<char>, p: spec_fn(char) -> bool) -> Seq<char>
    decreases s.len(),
{
    if s.len() > 0 && p(s.last()) {
        strip_end(s.drop_last(), p)
    } else {
        s
    }
}

/// The whitespace predicate of `str::trim`.
pub open spec fn white() -> spec_fn(char) -> bool {
    |c: char| whitespace_char(c)
}

/// The predicate of `trim_matches('\0')`.
pub open spec fn nul() -> spec_fn(char) -> bool {
    |c: char| c == '\0'
}

/// `str::trim`: leading and trailing whitespace removed.
pub open spec fn trimmed(s: Seq<char>) -> Seq<char> {
    strip_end(strip_start(s, white()), white())
}

/// `str::trim_matches('\0')`: leading and trailing NUL characters removed.
pub open spec fn nul_trimmed(s: Seq<char>) -> Seq<char> {
    strip_end(strip_start(s, nul()), nul())
}

/// Skipping characters that satisfy `p` does not change what `strip_start` keeps.
pub proof fn lemma_strip_start_skip(s: Seq<char>, p: spec_fn(char) -> bool, i: int)
    requires
        0 <= i <= s.len(),
        forall|j: int| 0 <= j < i ==> p(s[j]),
    ensures
        strip_start(s, p) == strip_start(s.skip(i), p),
    decreases i,
{
    if i == 0 {
        assert(s.skip(0) =~= s);
    } else {
        assert(p(s[0]));
        lemma_strip_start_skip(s.drop_first(), p, i - 1);
        assert(s.drop_first().skip(i - 1) =~= s.skip(i));
    }
}

/// Cutting off characters that satisfy `p` does not change what `strip_end` keeps.
pub proof fn lemma_strip_end_take(s: Seq<char>, p: spec_fn(char) -> bool, k: int)
    requires
        0 <= k <= s.len(),
        forall|j: int| k <= j < s.len() ==> p(s[j]),
    ensures
        strip_end(s, p) == strip_end(s.take(k), p),
    decreases s.len() - k,
{
    if k == s.len() {
        assert(s.take(k) =~= s);
    } else {
        assert(p(s.last()));
        lemma_strip_end_take(s.drop_last(), p, k);
        assert(s.drop_last().take(k) =~= s.take(k));
    }
}

/// The bounds `lo..hi` of the part that `strip_end(strip_start(s, p), p)` keeps.
proof fn lemma_strip_bounds(s: Seq<char>, p: spec_fn(char) -> bool, lo: int, hi: int)
    requires
        0 <= lo <= hi <= s.len(),
        forall|j: int| 0 <= j < lo ==> p(s[j]),
        lo < s.len() ==> !p(s[lo]),
        forall|j: int| hi <= j < s.len() ==> p(s[j]),
        hi > lo ==> !p(s[hi - 1]),
        hi == lo ==> lo == s.len(),
    ensures
        strip_end(strip_start(s, p), p) == s.subrange(lo, hi),
{
    lemma_strip_start_skip(s, p, lo);
    let t = s.skip(lo);
    assert(strip_start(t, p) == t);
    lemma_strip_end_take(t, p, hi - lo);
    let u = t.take(hi - lo);
    assert(u =~= s.subrange(lo, hi));
    if hi > lo {
        assert(u.last() == s[hi - 1]);
    }
    assert(strip_end(u, p) == u);
}

/// `strip_start` keeps a suffix of `s`, `strip_end` a prefix, and neither
/// keeps a first (last) character that satisfies `p`.
proof fn lemma_strip_shapes(s: Seq<char>, p: spec_fn(char) -> bool)
    ensures
        strip_start(s, p).len() <= s.len(),
        strip_end(s, p).len() <= s.len(),
        s.len() > 0 && p(s[0]) ==> strip_start(s, p).len() < s.len(),
        s.len() > 0 && p(s.last()) ==> strip_end(s, p).len() < s.len(),
        strip_end(s, p) == s.take(strip_end(s, p).len() as int),
    decreases s.len(),
{
    if s.len() > 0 {
        lemma_strip_shapes(s.drop_first(), p);
        lemma_strip_shapes(s.drop_last(), p);
        if p(s.last()) {
            let t = strip_end(s.drop_last(), p);
            assert(s.drop_last().take(t.len() as int) =~= s.take(t.len() as int));
        } else {
            assert(s.take(s.len() as int) =~= s);
        }
    } else {
        assert(s.take(0) =~= s);
    }
}

/// Leading characters that satisfy `p` are stripped alike; after a part
/// that `strip_start` does not empty, what follows is kept.
proof fn lemma_strip_start_concat(a: Seq<char>, b: Seq<char>, p: spec_fn(char) -> bool)
    ensures
        strip_start(a, p).len() > 0 ==> strip_start(a + b, p) == strip_start(a, p) + b,
        strip_start(a, p).len() == 0 ==> strip_start(a + b, p) == strip_start(b, p),
    decreases a.len(),
{
    if a.len() == 0 {
        assert(a + b =~= b);
    } else {
        assert((a + b)[0] == a[0]);
        if p(a[0]) {
            assert((a + b).drop_first() =~= a.drop_first() + b);
            lemma_strip_start_concat(a.drop_first(), b, p);
        }
    }
}

/// Surrounding whitespace before a text, and NUL characters after a text
/// that `trim` leaves as it is, change nothing that `trim` then
/// `trim_matches('\0')` keeps.
pub proof fn lemma_padding_cleaned(e: Seq<char>, w: Seq<char>, z: Seq<char>)
    requires
        forall|k: int| 0 <= k < w.len() ==> whitespace_char(#[trigger] w[k]),
        forall|k: int| 0 <= k < z.len() ==> #[trigger] z[k] == '\0',
    ensures
        nul_trimmed(trimmed(w + e)) == nul_trimmed(trimmed(e)),
        trimmed(e) == e ==> nul_trimmed(trimmed(e + z)) == nul_trimmed(trimmed(e)),
{
    lemma_strip_start_skip(w + e, white(), w.len() as int);
    assert((w + e).skip(w.len() as int) =~= e);
    if trimmed(e) == e && z.len() > 0 {
        let ez = e + z;
        lemma_strip_shapes(e, white());
        lemma_strip_shapes(strip_start(e, white()), white());
        assert(!whitespace_char('\0'));
        assert(ez.last() == z.last());
        if e.len() > 0 {
            assert(!whitespace_char(e[0]));
            assert(ez[0] == e[0]);
        } else {
            assert(ez =~= z);
            assert(ez[0] == z[0]);
        }
        assert(strip_start(ez, white()) == ez);
        assert(strip_end(ez, white()) == ez);
        assert(trimmed(ez) == ez);
        lemma_strip_start_concat(e, z, nul());
        let x = strip_start(e, nul());
        if x.len() > 0 {
            lemma_strip_end_take(x + z, nul(), x.len() as int);
            assert((x + z).take(x.len() as int) =~= x);
        } else {
            lemma_strip_start_skip(z, nul(), z.len() as int);
            assert(z.skip(z.len() as int) =~= Seq::<char>::empty());
        }
    } else if z.len() == 0 {
        assert(e + z =~= e);
    }
}

/// `str::trim`.
pub fn trim(s: &[char]) -> (r: Vec<char>)
    ensures
        r@ == trimmed(s@),
{
    let n = s.len();
    let mut lo: usize = 0;
    while lo < n && is_whitespace(s[lo])
        invariant
            n == s@.len(),
            lo <= n,
            forall|j: int| 0 <= j < lo ==> whitespace_char(s@[j]),
        decreases n - lo,
    {
        lo = lo + 1;
    }
    let mut hi: usize = n;
    while hi > lo && is_whitespace(s[hi - 1])
        invariant
            n == s@.len(),
            lo <= hi <= n,
            forall|j: int| hi <= j < n ==> whitespace_char(s@[j]),
        decreases hi - lo,
    {
        hi = hi - 1;
    }
    proof {
        if hi == lo && lo < n {
            assert(whitespace_char(s@[lo as int]));
        }
        lemma_strip_bounds(s@, white(), lo as int, hi as int);
    }
    sub_chars(s, lo, hi)
}

/// `str::trim_matches('\0')`.
pub fn trim_nul(s: &[char]) -> (r: Vec<char>)
    ensures
        r@ == nul_trimmed(s@),
{
    let n = s.len();
    let mut lo: usize = 0;
    while lo < n && s[lo] == '\0'
        invariant
            n == s@.len(),
            lo <= n,
            forall|j: int| 0 <= j < lo ==> s@[j] == '\0',
        decreases n - lo,
    {
        lo = lo + 1;
    }
    let mut hi: usize = n;
    while hi > lo && s[hi - 1] == '\0'
        invariant
            n == s@.len(),
            lo <= hi <= n,
            forall|j: int| hi <= j < n ==> s@[j] == '\0',
        decreases hi - lo,
    {
        hi = hi - 1;
    }
    proof {
        if hi == lo && lo < n {
            assert(s@[lo as int] == '\0');
        }
        lemma_strip_bounds(s@, nul(), lo as int, hi as int);
    }
    sub_chars(s, lo, hi)
}

// ---------------------------------------------------------------------------
// splitting
// ---------------------------------------------------------------------------

/// `str::split` with a one-character separator: the pieces between the
/// separators, `n + 1` of them for `n` separators.
pub open spec fn split_on(s: Seq<char>, sep: char) -> Seq<Seq<char>>
    decreases s.len(),
{
    if s.len() == 0 {
        seq![Seq::<char>::empty()]
    } else {
        let rest = split_on(s.drop_last(), sep);
        if s.last() == sep {
            rest.push(Seq::<char>::empty())
        } else {
            rest.update(rest.len() - 1, rest.last().push(s.last()))
        }
    }
}

/// There is always at least one piece.
pub proof fn lemma_split_nonempty(s: Seq<char>, sep: char)
    ensures
        split_on(s, sep).len() >= 1,
    decreases s.len(),
{
    if s.len() > 0 {
        lemma_split_nonempty(s.drop_last(), sep);
    }
}

/// A text without separators is its own single piece.
proof fn lemma_split_single(s: Seq<char>, sep: char)
    ensures
        split_on(s, sep).len() == 1 ==> split_on(s, sep)[0] == s,
    decreases s.len(),
{
    if s.len() > 0 {
        let t = s.drop_last();
        lemma_split_single(t, sep);
        lemma_split_nonempty(t, sep);
        if s.last() != sep && split_on(t, sep).len() == 1 {
            assert(t.push(s.last()) =~= s);
        }
    }
}

/// The first piece is a prefix of the text.
pub proof fn lemma_split_first_prefix(s: Seq<char>, sep: char)
    ensures
        split_on(s, sep).len() >= 1,
        split_on(s, sep)[0].is_prefix_of(s),
    decreases s.len(),
{
    lemma_split_nonempty(s, sep);
    if s.len() > 0 {
        let t = s.drop_last();
        lemma_split_first_prefix(t, sep);
        lemma_split_single(t, sep);
        let rest = split_on(t, sep);
        if s.last() != sep && rest.len() == 1 {
            assert(split_on(s, sep)[0] =~= s);
        } else {
            assert(split_on(s, sep)[0] == rest[0]);
            assert(rest[0] =~= s.subrange(0, rest[0].len() as int));
        }
    } else {
        assert(split_on(s, sep)[0] =~= s.subrange(0, 0));
    }
}

/// `str::split` on characters.
pub fn split(s: &[char], sep: char) -> (r: Vec<Vec<char>>)
    ensures
        texts(r@) == split_on(s@, sep),
{
    let n = s.len();
    let mut pieces: Vec<Vec<char>> = Vec::new();
    let mut cur: Vec<char> = Vec::new();
    assert(s@.take(0) =~= Seq::<char>::empty());
    assert(texts(pieces@).push(cur@) =~= split_on(s@.take(0), sep));
    for k in 0..n
        invariant
            n == s@.len(),
            texts(pieces@).push(cur@) == split_on(s@.take(k as int), sep),
    {
        let ghost t = s@.take(k + 1);
        assert(t.drop_last() =~= s@.take(k as int));
        assert(t.last() == s@[k as int]);
        proof {
            lemma_split_nonempty(s@.take(k as int), sep);
        }
        if s[k] == sep {
            let done = cur;
            pieces.push(done);
            cur = Vec::new();
            assert(texts(pieces@).push(cur@) =~= split_on(t, sep));
        } else {
            let ghost before = texts(pieces@).push(cur@);
            cur.push(s[k]);
            assert(texts(pieces@).push(cur@) =~= before.update(before.len() - 1, before.last().push(s@[k as int])));
        }
    }
    pieces.push(cur);
    assert(s@.take(n as int) =~= s@);
    assert(texts(pieces@) =~= split_on(s@, sep));
    pieces
}

// ---------------------------------------------------------------------------
// UTF-8 byte offsets
// ---------------------------------------------------------------------------

/// `char::len_utf8`.
pub open spec fn utf8_width(c: char) -> int {
    if (c as u32) < 0x80 {
        1
    } else if (c as u32) < 0x800 {
        2
    } else if (c as u32) < 0x10000 {
        3
    } else {
        4
    }
}

/// The byte length of the UTF-8 encoding of `s` (`str::len`).
pub open spec fn utf8_len(s: Seq<char>) -> int
    decreases s.len(),
{
    if s.len() == 0 {
        0
    } else {
        utf8_width(s[0]) + utf8_len(s.drop_first())
    }
}

/// The character index at byte offset `b` of the UTF-8 encoding of `s`, if
/// `b` falls on a character boundary inside or at the end of `s` (where
/// `&s[b..]` does not panic).
pub open spec fn char_index_at_byte(s: Seq<char>, b: int) -> Option<int>
    decreases s.len(),
{
    if b == 0 {
        Some(0)
    } else if b < 0 || s.len() == 0 {
        None
    } else {
        match char_index_at_byte(s.drop_first(), b - utf8_width(s[0])) {
            Some(k) => Some(k + 1),
            None => None,
        }
    }
}

/// `char::len_utf8`.
pub fn char_width(c: char) -> (w: usize)
    ensures
        w == utf8_width(c),
{
    let v = c as u32;
    if v < 0x80 {
        1
    } else if v < 0x800 {
        2
    } else if v < 0x10000 {
        3
    } else {
        4
    }
}

/// Every character takes at least one byte.
pub proof fn lemma_utf8_len_at_least(s: Seq<char>)
    ensures
        utf8_len(s) >= s.len(),
    decreases s.len(),
{
    if s.len() > 0 {
        lemma_utf8_len_at_least(s.drop_first());
    }
}

/// Whether the UTF-8 encoding of `s` is shorter than two bytes.
pub fn shorter_than_two_bytes(s: &[char]) -> (r: bool)
    ensures
        r == (utf8_len(s@) < 2),
{
    proof {
        lemma_utf8_len_at_least(s@);
        if s@.len() == 1 {
            assert(utf8_len(s@.drop_first()) == 0);
            assert(utf8_len(s@) == utf8_width(s@[0]));
        }
        if s@.len() == 0 {
            assert(utf8_len(s@) == 0);
        }
    }
    s.len() == 0 || (s.len() == 1 && char_width(s[0]) == 1)
}

/// Where `char_index_at_byte` continues after `k` characters.
proof fn lemma_char_index_step(s: Seq<char>, k: int, rem: int)
    requires
        0 <= k < s.len(),
        rem > 0,
    ensures
        char_index_at_byte(s.skip(k), rem) == match char_index_at_byte(
            s.skip(k + 1),
            rem - utf8_width(s[k]),
        ) {
            Some(x) => Some(x + 1),
            None => None::<int>,
        },
{
    assert(s.skip(k).drop_first() =~= s.skip(k + 1));
    assert(s.skip(k)[0] == s[k]);
}

/// The character index for the byte offset `b` (`None` where `&s[b..]` panics).
pub fn char_index_at(s: &[char], b: usize) -> (r: Option<usize>)
    ensures
        match r {
            Some(k) => char_index_at_byte(s@, b as int) == Some(k as int) && k <= s@.len(),
            None => char_index_at_byte(s@, b as int) is None,
        },
{
    let n = s.len();
    let mut k: usize = 0;
    let mut rem: usize = b;
    assert(s@.skip(0) =~= s@);
    while rem > 0 && k < n
        invariant
            n == s@.len(),
            k <= n,
            rem <= b,
            char_index_at_byte(s@, b as int) == match char_index_at_byte(s@.skip(k as int), rem as int) {
                Some(x) => Some(x + k),
                None => None::<int>,
            },
        decreases n - k,
    {
        let w = char_width(s[k]);
        proof {
            lemma_char_index_step(s@, k as int, rem as int);
        }
        if w > rem {
            assert(char_index_at_byte(s@.skip(k + 1), rem - w) is None);
            return None;
        }
        rem = rem - w;
        k = k + 1;
    }
    if rem == 0 {
        Some(k)
    } else {
        assert(s@.skip(k as int).len() == 0);
        None
    }
}

} // verus!
