//! Character-level building blocks shared by the request parsers: ASCII
//! lowercasing, Unicode whitespace trimming, prefix and suffix stripping, and
//! substring tests, each stated over `Seq<char>`.
use vstd::prelude::*;

verus! {

// ---------------------------------------------------------------------------
// Specifications
// ---------------------------------------------------------------------------

/// `c` is one of `A` to `Z`.
pub open spec fn is_ascii_upper(c: char) -> bool {
    'A' <= c && c <= 'Z'
}

/// ASCII lowercasing of one character; every other character is kept.
pub open spec fn lower_char(c: char) -> char {
    if is_ascii_upper(c) {
        ((c as u32) + 32) as char
    } else {
        c
    }
}

/// ASCII lowercasing of a whole text.
pub open spec fn ascii_lower(s: Seq<char>) -> Seq<char> {
    s.map_values(|c: char| lower_char(c))
}

/// The characters that carry the Unicode `White_Space` property.
pub open spec fn is_white_space(c: char) -> bool {
    ||| ('\u{9}' <= c && c <= '\u{d}')
    ||| c == ' '
    ||| c == '\u{85}'
    ||| c == '\u{a0}'
    ||| c == '\u{1680}'
    ||| ('\u{2000}' <= c && c <= '\u{200a}')
    ||| c == '\u{2028}'
    ||| c == '\u{2029}'
    ||| c == '\u{202f}'
    ||| c == '\u{205f}'
    ||| c == '\u{3000}'
}

/// `s` without its leading whitespace.
pub open spec fn trim_front(s: Seq<char>) -> Seq<char>
    decreases s.len(),
{
    if s.len() > 0 && is_white_space(s[0]) {
        trim_front(s.drop_first())
    } else {
        s
    }
}

/// `s` without its trailing whitespace.
pub open spec fn trim_back(s: Seq<char>) -> Seq<char>
    decreases s.len(),
{
    if s.len() > 0 && is_white_space(s.last()) {
        trim_back(s.drop_last())
    } else {
        s
    }
}

/// `s` without leading and trailing whitespace.
pub open spec fn trim(s: Seq<char>) -> Seq<char> {
    trim_back(trim_front(s))
}

/// `s` without any leading run of `c`.
pub open spec fn strip_front_char(s: Seq<char>, c: char) -> Seq<char>
    decreases s.len(),
{
    if s.len() > 0 && s[0] == c {
        strip_front_char(s.drop_first(), c)
    } else {
        s
    }
}

/// `s` without any trailing run of `c`.
pub open spec fn strip_back_char(s: Seq<char>, c: char) -> Seq<char>
    decreases s.len(),
{
    if s.len() > 0 && s.last() == c {
        strip_back_char(s.drop_last(), c)
    } else {
        s
    }
}

/// `p` is a prefix of `s`.
pub open spec fn is_prefix_of(p: Seq<char>, s: Seq<char>) -> bool {
    p.len() <= s.len() && s.take(p.len() as int) == p
}

/// `p` is a suffix of `s`.
pub open spec fn is_suffix_of(p: Seq<char>, s: Seq<char>) -> bool {
    p.len() <= s.len() && s.skip(s.len() - p.len()) == p
}

/// `p` occurs somewhere in `s` (the empty text occurs in every text).
pub open spec fn has_infix(s: Seq<char>, p: Seq<char>) -> bool {
    exists|i: int| 0 <= i && i + p.len() <= s.len() && #[trigger] s.subrange(i, i + p.len()) == p
}

/// `s` without any leading run of copies of the non-empty pattern `p`.
pub open spec fn strip_front_pattern(s: Seq<char>, p: Seq<char>) -> Seq<char>
    decreases s.len(),
{
    if p.len() > 0 && is_prefix_of(p, s) {
        strip_front_pattern(s.skip(p.len() as int), p)
    } else {
        s
    }
}

// ---------------------------------------------------------------------------
// Trusted access to `String`
// ---------------------------------------------------------------------------

/// Calls `String::push`, which appends one character to the string.
#[verifier::external_body]
fn push_char(s: &mut String, c: char)
    ensures
        final(s)@ == old(s)@.push(c),
{
    s.push(c);
}

// ---------------------------------------------------------------------------
// Executable helpers
// ---------------------------------------------------------------------------

/// The characters of `s`, in order.
pub fn chars_of(s: &str) -> (out: Vec<char>)
    ensures
        out@ == s@,
{
    let mut out: Vec<char> = Vec::new();
    for c in it: s.chars()
        invariant
            out@ == it.seq().take(it.index() as int),
            it.seq() == s@,
    {
        out.push(c);
    }
    out
}

/// A `String` holding exactly the characters of `v`.
pub fn string_from_chars(v: &Vec<char>) -> (s: String)
    ensures
        s@ == v@,
{
    let mut s = String::new();
    let mut i: usize = 0;
    while i < v.len()
        invariant
            i <= v.len(),
            s@ == v@.take(i as int),
        decreases v.len() - i,
    {
        push_char(&mut s, v[i]);
        assert(v@.take(i + 1) == v@.take(i as int).push(v@[i as int]));
        i = i + 1;
    }
    assert(v@.take(v.len() as int) == v@);
    s
}

/// The characters `v[lo..hi]`.
pub fn sub_chars(v: &Vec<char>, lo: usize, hi: usize) -> (out: Vec<char>)
    requires
        lo <= hi <= v.len(),
    ensures
        out@ == v@.subrange(lo as int, hi as int),
{
    let mut out: Vec<char> = Vec::new();
    let mut i: usize = lo;
    while i < hi
        invariant
            lo <= i <= hi <= v.len(),
            out@ == v@.subrange(lo as int, i as int),
        decreases hi - i,
    {
        out.push(v[i]);
        assert(v@.subrange(lo as int, i + 1) == v@.subrange(lo as int, i as int).push(v@[i as int]));
        i = i + 1;
    }
    out
}

/// ASCII lowercasing of one character.
pub fn lower_char_exec(c: char) -> (r: char)
    ensures
        r == lower_char(c),
{
    if 'A' <= c && c <= 'Z' {
        let code: u8 = c as u8;
        (code + 32) as char
    } else {
        c
    }
}

/// ASCII lowercasing of a text, as `str::to_ascii_lowercase` does it.
pub fn lowercase_ascii(s: &Vec<char>) -> (out: Vec<char>)
    ensures
        out@ == ascii_lower(s@),
{
    let mut out: Vec<char> = Vec::new();
    let mut i: usize = 0;
    while i < s.len()
        invariant
            i <= s.len(),
            out@ == ascii_lower(s@.take(i as int)),
        decreases s.len() - i,
    {
        let c = lower_char_exec(s[i]);
        out.push(c);
        assert(ascii_lower(s@.take(i + 1)) == ascii_lower(s@.take(i as int)).push(lower_char(s@[i as int])));
        i = i + 1;
    }
    assert(s@.take(s.len() as int) == s@);
    out
}

/// Whether `c` has the Unicode `White_Space` property (as `char::is_whitespace`).
pub fn is_whitespace_char(c: char) -> (r: bool)
    ensures
        r == is_white_space(c),
{
    ('\u{9}' <= c && c <= '\u{d}') || c == ' ' || c == '\u{85}' || c == '\u{a0}' || c == '\u{1680}'
        || ('\u{2000}' <= c && c <= '\u{200a}') || c == '\u{2028}' || c == '\u{2029}'
        || c == '\u{202f}' || c == '\u{205f}' || c == '\u{3000}'
}

/// `s` without leading and trailing whitespace, as `str::trim` does it.
pub fn trim_whitespace(s: &Vec<char>) -> (out: Vec<char>)
    ensures
        out@ == trim(s@),
{
    let mut lo: usize = 0;
    assert(s@.skip(0) == s@);
    while lo < s.len() && is_whitespace_char(s[lo])
        invariant
            lo <= s.len(),
            trim_front(s@) == trim_front(s@.skip(lo as int)),
        decreases s.len() - lo,
    {
        assert(s@.skip(lo as int).drop_first() == s@.skip(lo + 1));
        lo = lo + 1;
    }
    let ghost front = s@.skip(lo as int);
    assert(trim_front(s@) == front);
    let mut hi: usize = s.len();
    assert(s@.subrange(lo as int, hi as int) == front);
    while hi > lo && is_whitespace_char(s[hi - 1])
        invariant
            lo <= hi <= s.len(),
            front == s@.skip(lo as int),
            trim_back(front) == trim_back(s@.subrange(lo as int, hi as int)),
        decreases hi - lo,
    {
        assert(s@.subrange(lo as int, hi as int).drop_last() == s@.subrange(lo as int, hi - 1));
        hi = hi - 1;
    }
    sub_chars(s, lo, hi)
}

/// `s` without any leading run of `c` (as `str::trim_start_matches(c)`).
pub fn strip_front_char_exec(s: &Vec<char>, c: char) -> (out: Vec<char>)
    ensures
        out@ == strip_front_char(s@, c),
{
    let mut lo: usize = 0;
    assert(s@.skip(0) == s@);
    while lo < s.len() && s[lo] == c
        invariant
            lo <= s.len(),
            strip_front_char(s@, c) == strip_front_char(s@.skip(lo as int), c),
        decreases s.len() - lo,
    {
        assert(s@.skip(lo as int).drop_first() == s@.skip(lo + 1));
        lo = lo + 1;
    }
    sub_chars(s, lo, s.len())
}

/// `s` without any trailing run of `c` (as `str::trim_end_matches(c)`).
pub fn strip_back_char_exec(s: &Vec<char>, c: char) -> (out: Vec<char>)
    ensures
        out@ == strip_back_char(s@, c),
{
    let mut hi: usize = s.len();
    assert(s@.take(hi as int) == s@);
    while hi > 0 && s[hi - 1] == c
        invariant
            hi <= s.len(),
            strip_back_char(s@, c) == strip_back_char(s@.take(hi as int), c),
        decreases hi,
    {
        assert(s@.take(hi as int).drop_last() == s@.take(hi - 1));
        hi = hi - 1;
    }
    sub_chars(s, 0, hi)
}

/// Whether `p` occurs in `s` starting at index `at`.
pub fn occurs_at(s: &Vec<char>, at: usize, p: &Vec<char>) -> (r: bool)
    ensures
        r == (at + p.len() <= s.len() && s@.subrange(at as int, at + p.len()) == p@),
{
    if at > s.len() || p.len() > s.len() - at {
        return false;
    }
    let mut k: usize = 0;
    while k < p.len()
        invariant
            at + p.len() <= s.len(),
            k <= p.len(),
            forall|j: int| 0 <= j < k ==> s@[at + j] == p@[j],
        decreases p.len() - k,
    {
        if s[at + k] != p[k] {
            assert(s@.subrange(at as int, at + p.len())[k as int] != p@[k as int]);
            return false;
        }
        k = k + 1;
    }
    assert(s@.subrange(at as int, at + p.len()) == p@);
    true
}

/// Whether the two texts are equal.
pub fn chars_equal(a: &Vec<char>, b: &Vec<char>) -> (r: bool)
    ensures
        r == (a@ == b@),
{
    if a.len() != b.len() {
        return false;
    }
    let r = occurs_at(a, 0, b);
    assert(a@.subrange(0, a@.len() as int) == a@);
    r
}

/// Whether `p` is a suffix of `s` (as `str::ends_with`).
pub fn ends_with_chars(s: &Vec<char>, p: &Vec<char>) -> (r: bool)
    ensures
        r == is_suffix_of(p@, s@),
{
    if p.len() > s.len() {
        return false;
    }
    let at = s.len() - p.len();
    let r = occurs_at(s, at, p);
    assert(s@.subrange(at as int, at + p.len()) == s@.skip(at as int));
    r
}

/// Whether `p` occurs in `s` (as `str::contains`).
pub fn contains_chars(s: &Vec<char>, p: &Vec<char>) -> (r: bool)
    ensures
        r == has_infix(s@, p@),
{
    if p.len() > s.len() {
        return false;
    }
    if p.len() == 0 {
        assert(s@.subrange(0, 0 + p@.len() as int) == p@);
        return true;
    }
    let last = s.len() - p.len();
    let mut i: usize = 0;
    while i <= last
        invariant
            last == s.len() - p.len(),
            p.len() > 0,
            i <= last + 1,
            forall|j: int| 0 <= j < i ==> #[trigger] s@.subrange(j, j + p.len()) != p@,
        decreases last + 1 - i,
    {
        if occurs_at(s, i, p) {
            return true;
        }
        i = i + 1;
    }
    false
}

/// `s` without any leading run of copies of `p` (as `str::trim_start_matches(p)`).
pub fn strip_front_pattern_exec(s: &Vec<char>, p: &Vec<char>) -> (out: Vec<char>)
    requires
        p.len() > 0,
    ensures
        out@ == strip_front_pattern(s@, p@),
{
    let mut lo: usize = 0;
    assert(s@.skip(0) == s@);
    while occurs_at(s, lo, p)
        invariant
            lo <= s.len(),
            p.len() > 0,
            strip_front_pattern(s@, p@) == strip_front_pattern(s@.skip(lo as int), p@),
        decreases s.len() - lo,
    {
        assert(s@.skip(lo as int).take(p.len() as int) == s@.subrange(lo as int, lo + p.len()));
        assert(s@.skip(lo as int).skip(p.len() as int) == s@.skip(lo + p.len()));
        lo = lo + p.len();
    }
    assert(!is_prefix_of(p@, s@.skip(lo as int))) by {
        if p@.len() <= s@.skip(lo as int).len() {
            assert(s@.skip(lo as int).take(p.len() as int) == s@.subrange(lo as int, lo + p.len()));
        }
    }
    sub_chars(s, lo, s.len())
}

// ---------------------------------------------------------------------------
// Laws
// ---------------------------------------------------------------------------

/// ASCII lowercasing keeps the length, turns `A` to `Z` into `a` to `z`
/// (code plus 32) and leaves every other character as it is.
pub proof fn lemma_ascii_lower_chars(s: Seq<char>)
    ensures
        ascii_lower(s).len() == s.len(),
        forall|i: int| 0 <= i < s.len() && 'A' <= s[i] && s[i] <= 'Z' ==> (#[trigger] ascii_lower(s)[i]) as u32 == s[i] as u32 + 32,
        forall|i: int| 0 <= i < s.len() && !('A' <= s[i] && s[i] <= 'Z') ==> #[trigger] ascii_lower(s)[i] == s[i],
{
}

/// Lowercasing a joined text lowercases each part.
pub proof fn lemma_ascii_lower_concat(a: Seq<char>, b: Seq<char>)
    ensures
        ascii_lower(a + b) == ascii_lower(a) + ascii_lower(b),
{
    assert(ascii_lower(a + b) =~= ascii_lower(a) + ascii_lower(b));
}

/// Every character of `s` is whitespace.
pub open spec fn all_white_space(s: Seq<char>) -> bool {
    forall|i: int| 0 <= i < s.len() ==> is_white_space(#[trigger] s[i])
}

proof fn lemma_trim_front_of_white(w: Seq<char>, z: Seq<char>)
    requires
        all_white_space(w),
    ensures
        trim_front(w + z) == trim_front(z),
    decreases w.len(),
{
    if w.len() > 0 {
        assert((w + z)[0] == w[0]);
        assert((w + z).drop_first() == w.drop_first() + z);
        assert(all_white_space(w.drop_first())) by {
            assert forall|i: int| 0 <= i < w.drop_first().len() implies is_white_space(#[trigger] w.drop_first()[i]) by {
                assert(w.drop_first()[i] == w[i + 1]);
            }
        }
        lemma_trim_front_of_white(w.drop_first(), z);
    } else {
        assert(w + z == z);
    }
}

proof fn lemma_trim_back_of_white(z: Seq<char>, w: Seq<char>)
    requires
        all_white_space(w),
    ensures
        trim_back(z + w) == trim_back(z),
    decreases w.len(),
{
    if w.len() > 0 {
        assert((z + w).last() == w.last());
        assert((z + w).drop_last() == z + w.drop_last());
        assert(all_white_space(w.drop_last())) by {
            assert forall|i: int| 0 <= i < w.drop_last().len() implies is_white_space(#[trigger] w.drop_last()[i]) by {
                assert(w.drop_last()[i] == w[i]);
            }
        }
        lemma_trim_back_of_white(z, w.drop_last());
    } else {
        assert(z + w == z);
    }
}

proof fn lemma_trim_front_all_white(w: Seq<char>)
    requires
        all_white_space(w),
    ensures
        trim_front(w) == Seq::<char>::empty(),
{
    lemma_trim_front_of_white(w, Seq::<char>::empty());
    assert(w + Seq::<char>::empty() == w);
}

/// Trimming takes off exactly the whitespace around a text that neither
/// begins nor ends with whitespace, and leaves nothing of a text that is all
/// whitespace.
pub proof fn lemma_trim_takes_off_surrounding_white(before: Seq<char>, core: Seq<char>, after: Seq<char>)
    requires
        all_white_space(before),
        all_white_space(after),
        core.len() == 0 || (!is_white_space(core[0]) && !is_white_space(core.last())),
    ensures
        trim(before + core + after) == core,
{
    let z = core + after;
    assert(before + core + after == before + z);
    lemma_trim_front_of_white(before, z);
    if core.len() == 0 {
        assert(z == after);
        lemma_trim_front_all_white(after);
        assert(trim_back(Seq::<char>::empty()) == Seq::<char>::empty());
    } else {
        assert(z[0] == core[0]);
        assert(trim_front(z) == z);
        lemma_trim_back_of_white(core, after);
    }
}

} // verus!
