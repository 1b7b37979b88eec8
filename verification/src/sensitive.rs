//! Which header and query keys are sensitive: the configured patterns and
//! how a key is matched against them.
use vstd::prelude::*;
use crate::text::{
    ascii_lower, lower_char, is_ascii_upper, all_white_space, is_white_space, lemma_ascii_lower_concat,
    lemma_trim_takes_off_surrounding_white, chars_equal, chars_of, contains_chars, ends_with_chars, has_infix, is_suffix_of,
    lowercase_ascii, string_from_chars, strip_back_char, strip_back_char_exec, strip_front_char,
    strip_front_char_exec, trim, trim_whitespace,
};
use crate::dimensions::texts_of;

verus! {

/// Header keys redacted when no other list is configured.
pub const DEFAULT_SENSITIVE_HEADERS: &'static str = "authorization,proxy-authorization,cookie,set-cookie,x-api-key,api-key,x-auth-token,x-csrf-token,x-signature,stripe-signature,x-hub-signature,x-hub-signature-256,x-webhook-signature,x-amz-security-token";

/// Query keys redacted when no other list is configured.
pub const DEFAULT_SENSITIVE_QUERY_KEYS: &'static str = "auth,authorization,token,access_token,refresh_token,id_token,api_key,apikey,key,secret,client_secret,signature,sig,password,passwd,jwt";

/// The patterns against which keys are matched, each list in the order the
/// patterns were configured.
#[derive(Debug)]
pub struct SensitiveKeysConfig {
    /// Keys that match only when equal to the lowercased key.
    pub exact_matches: Vec<String>,
    /// Texts that match any lowercased key containing them.
    pub contains: Vec<String>,
    /// Texts that match any lowercased key ending with them.
    pub suffix: Vec<String>,
}

/// The texts of a sequence of strings.
pub open spec fn string_texts(v: Seq<String>) -> Seq<Seq<char>> {
    Seq::new(v.len(), |i: int| v[i]@)
}

/// The three pattern lists of a configuration: exact, contains, suffix.
pub type PatternLists = (Seq<Seq<char>>, Seq<Seq<char>>, Seq<Seq<char>>);

impl SensitiveKeysConfig {
    /// The configuration's pattern lists as texts.
    pub open spec fn lists(&self) -> PatternLists {
        (string_texts(self.exact_matches@), string_texts(self.contains@), string_texts(self.suffix@))
    }
}

/// A key is sensitive when its ASCII-lowercased form equals an exact
/// pattern, contains a contains-pattern, or ends with a suffix pattern.
pub open spec fn key_is_sensitive(key: Seq<char>, lists: PatternLists) -> bool {
    let lower = ascii_lower(key);
    ||| some_equal(lists.0, lower)
    ||| some_infix(lists.1, lower)
    ||| some_suffix(lists.2, lower)
}

/// One of `patterns` equals `text`.
pub open spec fn some_equal(patterns: Seq<Seq<char>>, text: Seq<char>) -> bool {
    exists|i: int| 0 <= i < patterns.len() && #[trigger] patterns[i] == text
}

/// One of `patterns` occurs in `text`.
pub open spec fn some_infix(patterns: Seq<Seq<char>>, text: Seq<char>) -> bool {
    exists|i: int| 0 <= i < patterns.len() && has_infix(text, #[trigger] patterns[i])
}

/// One of `patterns` is a suffix of `text`.
pub open spec fn some_suffix(patterns: Seq<Seq<char>>, text: Seq<char>) -> bool {
    exists|i: int| 0 <= i < patterns.len() && is_suffix_of(#[trigger] patterns[i], text)
}

/// The pieces of `cur + rest` between `sep` separators, where `cur` is a
/// piece already begun; empty pieces are kept.
pub open spec fn split_from(cur: Seq<char>, rest: Seq<char>, sep: char) -> Seq<Seq<char>>
    decreases rest.len(),
{
    if rest.len() == 0 {
        seq![cur]
    } else if rest[0] == sep {
        seq![cur] + split_from(seq![], rest.drop_first(), sep)
    } else {
        split_from(cur.push(rest[0]), rest.drop_first(), sep)
    }
}

/// The pieces of `s` between `sep` separators, as `str::split` yields them.
pub open spec fn split_on(s: Seq<char>, sep: char) -> Seq<Seq<char>> {
    split_from(seq![], s, sep)
}

/// One configured entry, trimmed and lowercased, added to the lists:
/// `*text*` is a contains pattern, `*text` a suffix pattern, `text*` a suffix
/// pattern too, anything else an exact key; an empty entry is skipped.
pub open spec fn add_pattern(lists: PatternLists, entry: Seq<char>) -> PatternLists {
    let t = ascii_lower(trim(entry));
    if t.len() == 0 {
        lists
    } else if t[0] == '*' && t.last() == '*' {
        (lists.0, lists.1.push(strip_back_char(strip_front_char(t, '*'), '*')), lists.2)
    } else if t[0] == '*' {
        (lists.0, lists.1, lists.2.push(strip_front_char(t, '*')))
    } else if t.last() == '*' {
        (lists.0, lists.1, lists.2.push(strip_back_char(t, '*')))
    } else {
        (lists.0.push(t), lists.1, lists.2)
    }
}

/// The lists built from the entries, in order.
pub open spec fn patterns_of(entries: Seq<Seq<char>>) -> PatternLists
    decreases entries.len(),
{
    if entries.len() == 0 {
        (seq![], seq![], seq![])
    } else {
        add_pattern(patterns_of(entries.drop_last()), entries.last())
    }
}

/// The lists configured by a comma-separated text.
pub open spec fn patterns_of_csv(csv: Seq<char>) -> PatternLists {
    patterns_of(split_on(csv, ','))
}

/// Splits `s` on `sep`, keeping empty pieces.
pub fn split_chars(s: &Vec<char>, sep: char) -> (out: Vec<Vec<char>>)
    ensures
        texts_of(out@) == split_on(s@, sep),
{
    let mut out: Vec<Vec<char>> = Vec::new();
    let mut cur: Vec<char> = Vec::new();
    let mut i: usize = 0;
    assert(s@.skip(0) == s@);
    assert(texts_of(out@) == Seq::<Seq<char>>::empty());
    assert(cur@ == Seq::<char>::empty());
    while i < s.len()
        invariant
            i <= s.len(),
            split_on(s@, sep) == texts_of(out@) + split_from(cur@, s@.skip(i as int), sep),
        decreases s.len() - i,
    {
        let ghost rest = s@.skip(i as int);
        assert(rest.drop_first() == s@.skip(i + 1));
        let c = s[i];
        if c == sep {
            let ghost before = texts_of(out@);
            let ghost piece = cur@;
            let done = cur;
            out.push(done);
            cur = Vec::new();
            assert(texts_of(out@) == before + seq![piece]);
            assert(cur@ == Seq::<char>::empty());
            assert(before + (seq![piece] + split_from(cur@, s@.skip(i + 1), sep))
                == (before + seq![piece]) + split_from(cur@, s@.skip(i + 1), sep));
        } else {
            cur.push(c);
        }
        i = i + 1;
    }
    let ghost before = texts_of(out@);
    out.push(cur);
    assert(texts_of(out@) == before + seq![cur@]);
    out
}

/// Whether any of `patterns` equals `text` (`mode` 0), occurs in `text`
/// (`mode` 1) or is a suffix of `text` (`mode` 2).
fn any_pattern_matches(patterns: &Vec<String>, text: &Vec<char>, mode: u8) -> (r: bool)
    requires
        mode <= 2,
    ensures
        mode == 0 ==> r == some_equal(string_texts(patterns@), text@),
        mode == 1 ==> r == some_infix(string_texts(patterns@), text@),
        mode == 2 ==> r == some_suffix(string_texts(patterns@), text@),
{
    let ghost pts = string_texts(patterns@);
    let mut i: usize = 0;
    while i < patterns.len()
        invariant
            i <= patterns.len(),
            mode <= 2,
            pts == string_texts(patterns@),
            forall|j: int| 0 <= j < i ==> {
                &&& mode == 0 ==> #[trigger] pts[j] != text@
                &&& mode == 1 ==> !has_infix(text@, pts[j])
                &&& mode == 2 ==> !is_suffix_of(pts[j], text@)
            },
        decreases patterns.len() - i,
    {
        let p = chars_of(patterns[i].as_str());
        assert(p@ == pts[i as int]);
        let hit = if mode == 0 {
            chars_equal(text, &p)
        } else if mode == 1 {
            contains_chars(text, &p)
        } else {
            ends_with_chars(text, &p)
        };
        if hit {
            return true;
        }
        i = i + 1;
    }
    false
}

/// Whether `key` matches one of the configured patterns; matching is
/// case-insensitive for ASCII letters.
pub fn is_sensitive_key(key: &str, config: &SensitiveKeysConfig) -> (r: bool)
    ensures
        r == key_is_sensitive(key@, config.lists()),
{
    let key_chars = chars_of(key);
    let lower = lowercase_ascii(&key_chars);
    if any_pattern_matches(&config.exact_matches, &lower, 0) {
        return true;
    }
    if any_pattern_matches(&config.contains, &lower, 1) {
        return true;
    }
    any_pattern_matches(&config.suffix, &lower, 2)
}

/// Builds the pattern lists from the configured comma-separated text, or from
/// `default` when none is configured. Entries are trimmed and lowercased;
/// `*text*` matches keys containing `text`, `*text` keys ending with `text`,
/// `text*` keys ending with `text`, and any other entry the key itself.
pub fn load_sensitive_keys_config(configured: Option<String>, default: &str) -> (config: SensitiveKeysConfig)
    ensures
        config.lists() == patterns_of_csv(
            match configured {
                Some(s) => s@,
                None => default@,
            },
        ),
{
    let csv = match configured {
        Some(s) => chars_of(s.as_str()),
        None => chars_of(default),
    };
    let entries = split_chars(&csv, ',');
    let mut exact_matches: Vec<String> = Vec::new();
    let mut contains: Vec<String> = Vec::new();
    let mut suffix: Vec<String> = Vec::new();
    let ghost all = texts_of(entries@);
    let mut k: usize = 0;
    while k < entries.len()
        invariant
            k <= entries.len(),
            all == texts_of(entries@),
            (string_texts(exact_matches@), string_texts(contains@), string_texts(suffix@))
                == patterns_of(all.take(k as int)),
        decreases entries.len() - k,
    {
        assert(all.take(k + 1).drop_last() == all.take(k as int));
        let ghost prev = patterns_of(all.take(k as int));
        let trimmed = trim_whitespace(&entries[k]);
        let t = lowercase_ascii(&trimmed);
        let n = t.len();
        if n == 0 {
        } else if t[0] == '*' && t[n - 1] == '*' {
            let inner = strip_back_char_exec(&strip_front_char_exec(&t, '*'), '*');
            contains.push(string_from_chars(&inner));
            assert(string_texts(contains@) == prev.1.push(inner@));
        } else if t[0] == '*' {
            let inner = strip_front_char_exec(&t, '*');
            suffix.push(string_from_chars(&inner));
            assert(string_texts(suffix@) == prev.2.push(inner@));
        } else if t[n - 1] == '*' {
            let inner = strip_back_char_exec(&t, '*');
            suffix.push(string_from_chars(&inner));
            assert(string_texts(suffix@) == prev.2.push(inner@));
        } else {
            exact_matches.push(string_from_chars(&t));
            assert(string_texts(exact_matches@) == prev.0.push(t@));
        }
        k = k + 1;
    }
    assert(all.take(entries.len() as int) == all);
    SensitiveKeysConfig { exact_matches, contains, suffix }
}

/// Every character of `s` is left as it is by ASCII lowercasing.
pub open spec fn is_lowercase(s: Seq<char>) -> bool {
    forall|i: int| 0 <= i < s.len() ==> lower_char(#[trigger] s[i]) == s[i]
}

proof fn lemma_lower_is_lowercase(s: Seq<char>)
    ensures
        is_lowercase(ascii_lower(s)),
{
    assert forall|i: int| 0 <= i < ascii_lower(s).len() implies lower_char(#[trigger] ascii_lower(s)[i]) == ascii_lower(s)[i] by {
        let c = s[i];
        assert(ascii_lower(s)[i] == lower_char(c));
    }
}

proof fn lemma_strip_front_keeps_lowercase(s: Seq<char>, c: char)
    requires
        is_lowercase(s),
    ensures
        is_lowercase(strip_front_char(s, c)),
    decreases s.len(),
{
    if s.len() > 0 {
        assert(is_lowercase(s.drop_first())) by {
            assert forall|i: int| 0 <= i < s.drop_first().len() implies lower_char(#[trigger] s.drop_first()[i]) == s.drop_first()[i] by {
                assert(s.drop_first()[i] == s[i + 1]);
            }
        }
        lemma_strip_front_keeps_lowercase(s.drop_first(), c);
    }
}

proof fn lemma_strip_back_keeps_lowercase(s: Seq<char>, c: char)
    requires
        is_lowercase(s),
    ensures
        is_lowercase(strip_back_char(s, c)),
    decreases s.len(),
{
    if s.len() > 0 {
        assert(is_lowercase(s.drop_last())) by {
            assert forall|i: int| 0 <= i < s.drop_last().len() implies lower_char(#[trigger] s.drop_last()[i]) == s.drop_last()[i] by {
                assert(s.drop_last()[i] == s[i]);
            }
        }
        lemma_strip_back_keeps_lowercase(s.drop_last(), c);
    }
}

proof fn lemma_strip_keeps_lowercase(s: Seq<char>, c: char)
    requires
        is_lowercase(s),
    ensures
        is_lowercase(strip_front_char(s, c)),
        is_lowercase(strip_back_char(s, c)),
        is_lowercase(strip_back_char(strip_front_char(s, c), c)),
{
    lemma_strip_front_keeps_lowercase(s, c);
    lemma_strip_back_keeps_lowercase(s, c);
    lemma_strip_back_keeps_lowercase(strip_front_char(s, c), c);
}

/// Whether a key is sensitive does not depend on the ASCII case of its
/// letters.
pub proof fn lemma_matching_ignores_key_case(key: Seq<char>, other: Seq<char>, lists: PatternLists)
    requires
        ascii_lower(key) == ascii_lower(other),
    ensures
        key_is_sensitive(key, lists) == key_is_sensitive(other, lists),
{
}

/// Every text of `ps` is in lowercase.
pub open spec fn all_lowercase(ps: Seq<Seq<char>>) -> bool {
    forall|i: int| 0 <= i < ps.len() ==> is_lowercase(#[trigger] ps[i])
}

proof fn lemma_push_lowercase(ps: Seq<Seq<char>>, p: Seq<char>)
    requires
        all_lowercase(ps),
        is_lowercase(p),
    ensures
        all_lowercase(ps.push(p)),
{
    assert forall|i: int| 0 <= i < ps.push(p).len() implies is_lowercase(#[trigger] ps.push(p)[i]) by {
        if i < ps.len() {
            assert(ps.push(p)[i] == ps[i]);
        }
    }
}

/// Every pattern configured from a comma-separated text is in lowercase, so
/// that configured names match keys whatever the case in which either was
/// written.
pub proof fn lemma_configured_patterns_lowercase(entries: Seq<Seq<char>>)
    ensures
        all_lowercase(patterns_of(entries).0),
        all_lowercase(patterns_of(entries).1),
        all_lowercase(patterns_of(entries).2),
    decreases entries.len(),
{
    if entries.len() > 0 {
        lemma_configured_patterns_lowercase(entries.drop_last());
        let prev = patterns_of(entries.drop_last());
        let t = ascii_lower(trim(entries.last()));
        lemma_lower_is_lowercase(trim(entries.last()));
        lemma_strip_keeps_lowercase(t, '*');
        if t.len() == 0 {
        } else if t[0] == '*' && t.last() == '*' {
            lemma_push_lowercase(prev.1, strip_back_char(strip_front_char(t, '*'), '*'));
        } else if t[0] == '*' {
            lemma_push_lowercase(prev.2, strip_front_char(t, '*'));
        } else if t.last() == '*' {
            lemma_push_lowercase(prev.2, strip_back_char(t, '*'));
        } else {
            lemma_push_lowercase(prev.0, t);
        }
    }
}

/// A key whose lowercase form equals an exact pattern is sensitive.
pub proof fn lemma_exact_pattern_matches(key: Seq<char>, lists: PatternLists, i: int)
    requires
        0 <= i < lists.0.len(),
        lists.0[i] == ascii_lower(key),
    ensures
        key_is_sensitive(key, lists),
{
}

/// A key whose lowercase form contains a contains-pattern anywhere is
/// sensitive.
pub proof fn lemma_contained_pattern_matches(key: Seq<char>, lists: PatternLists, i: int, before: Seq<char>, after: Seq<char>)
    requires
        0 <= i < lists.1.len(),
        ascii_lower(key) == before + lists.1[i] + after,
    ensures
        key_is_sensitive(key, lists),
{
    let lower = ascii_lower(key);
    let p = lists.1[i];
    assert(lower.subrange(before.len() as int, before.len() + p.len() as int) == p);
    assert(has_infix(lower, p));
}

/// A key whose lowercase form ends with a suffix pattern is sensitive.
pub proof fn lemma_suffix_pattern_matches(key: Seq<char>, lists: PatternLists, i: int, before: Seq<char>)
    requires
        0 <= i < lists.2.len(),
        ascii_lower(key) == before + lists.2[i],
    ensures
        key_is_sensitive(key, lists),
{
    let lower = ascii_lower(key);
    assert(lower.skip(lower.len() - lists.2[i].len()) == lists.2[i]);
}

/// A key is sensitive only through a pattern: its lowercase form equals an
/// exact pattern, or is some text, a contains-pattern and some text, or is
/// some text followed by a suffix pattern. With no patterns no key is
/// sensitive.
pub proof fn lemma_sensitive_only_through_a_pattern(key: Seq<char>, lists: PatternLists)
    requires
        key_is_sensitive(key, lists),
    ensures
        ({
            let lower = ascii_lower(key);
            ||| exists|i: int| 0 <= i < lists.0.len() && #[trigger] lists.0[i] == lower
            ||| exists|i: int, before: Seq<char>, after: Seq<char>|
                0 <= i < lists.1.len() && lower == #[trigger] (before + lists.1[i] + after)
            ||| exists|i: int, before: Seq<char>| 0 <= i < lists.2.len() && lower == #[trigger] (before + lists.2[i])
        }),
        lists.0.len() > 0 || lists.1.len() > 0 || lists.2.len() > 0,
{
    let lower = ascii_lower(key);
    if some_equal(lists.0, lower) {
    } else if some_infix(lists.1, lower) {
        let i = choose|i: int| 0 <= i < lists.1.len() && has_infix(lower, #[trigger] lists.1[i]);
        let p = lists.1[i];
        let j = choose|j: int| 0 <= j && j + p.len() <= lower.len() && #[trigger] lower.subrange(j, j + p.len()) == p;
        let before = lower.take(j);
        let after = lower.skip(j + p.len());
        assert(lower == before + p + after);
    } else {
        let i = choose|i: int| 0 <= i < lists.2.len() && is_suffix_of(#[trigger] lists.2[i], lower);
        let p = lists.2[i];
        let before = lower.take(lower.len() - p.len());
        assert(lower == before + p);
    }
}

/// The pattern lists of two texts joined with `,` are the lists of the first
/// followed by those of the second.
pub open spec fn joined_lists(a: PatternLists, b: PatternLists) -> PatternLists {
    (a.0 + b.0, a.1 + b.1, a.2 + b.2)
}

proof fn lemma_split_joined(cur: Seq<char>, a: Seq<char>, b: Seq<char>, sep: char)
    ensures
        split_from(cur, a + seq![sep] + b, sep) == split_from(cur, a, sep) + split_from(seq![], b, sep),
    decreases a.len(),
{
    let whole = a + seq![sep] + b;
    if a.len() == 0 {
        assert(whole == seq![sep] + b);
        assert(whole.drop_first() == b);
    } else {
        assert(whole[0] == a[0]);
        assert(whole.drop_first() == a.drop_first() + seq![sep] + b);
        if a[0] == sep {
            lemma_split_joined(seq![], a.drop_first(), b, sep);
            assert(seq![cur] + (split_from(seq![], a.drop_first(), sep) + split_from(seq![], b, sep))
                == (seq![cur] + split_from(seq![], a.drop_first(), sep)) + split_from(seq![], b, sep));
        } else {
            lemma_split_joined(cur.push(a[0]), a.drop_first(), b, sep);
        }
    }
}

proof fn lemma_split_without_separator(cur: Seq<char>, a: Seq<char>, sep: char)
    requires
        forall|i: int| 0 <= i < a.len() ==> a[i] != sep,
    ensures
        split_from(cur, a, sep) == seq![cur + a],
    decreases a.len(),
{
    if a.len() == 0 {
        assert(cur + a == cur);
    } else {
        lemma_split_without_separator(cur.push(a[0]), a.drop_first(), sep);
        assert(cur.push(a[0]) + a.drop_first() == cur + a);
    }
}

proof fn lemma_patterns_of_concat(x: Seq<Seq<char>>, y: Seq<Seq<char>>)
    ensures
        patterns_of(x + y) == joined_lists(patterns_of(x), patterns_of(y)),
    decreases y.len(),
{
    let px = patterns_of(x);
    if y.len() == 0 {
        assert(x + y == x);
        assert(px.0 + Seq::<Seq<char>>::empty() == px.0);
        assert(px.1 + Seq::<Seq<char>>::empty() == px.1);
        assert(px.2 + Seq::<Seq<char>>::empty() == px.2);
    } else {
        assert((x + y).drop_last() == x + y.drop_last());
        assert((x + y).last() == y.last());
        lemma_patterns_of_concat(x, y.drop_last());
        let q = patterns_of(y.drop_last());
        let e = y.last();
        let t = ascii_lower(trim(e));
        if t.len() == 0 {
        } else if t[0] == '*' && t.last() == '*' {
            let v = strip_back_char(strip_front_char(t, '*'), '*');
            assert((px.1 + q.1).push(v) == px.1 + q.1.push(v));
        } else if t[0] == '*' {
            let v = strip_front_char(t, '*');
            assert((px.2 + q.2).push(v) == px.2 + q.2.push(v));
        } else if t.last() == '*' {
            let v = strip_back_char(t, '*');
            assert((px.2 + q.2).push(v) == px.2 + q.2.push(v));
        } else {
            assert((px.0 + q.0).push(t) == px.0 + q.0.push(t));
        }
    }
}

/// Configuring two comma-separated texts joined by `,` gives the patterns of
/// the first followed by those of the second.
pub proof fn lemma_config_of_joined_texts(a: Seq<char>, b: Seq<char>)
    ensures
        patterns_of_csv(a + seq![','] + b) == joined_lists(patterns_of_csv(a), patterns_of_csv(b)),
{
    lemma_split_joined(seq![], a, b, ',');
    lemma_patterns_of_concat(split_on(a, ','), split_on(b, ','));
}

proof fn lemma_lower_keeps_star(s: Seq<char>)
    ensures
        ascii_lower(s).len() == s.len(),
        forall|i: int| 0 <= i < s.len() ==> (#[trigger] ascii_lower(s)[i] == '*' <==> s[i] == '*'),
{
    assert forall|i: int| 0 <= i < s.len() implies (#[trigger] ascii_lower(s)[i] == '*' <==> s[i] == '*') by {
        let c = s[i];
        assert(ascii_lower(s)[i] == lower_char(c));
        if is_ascii_upper(c) {
            assert((c as u32) + 32 != 42);
        }
    }
}

proof fn lemma_single_entry(before: Seq<char>, core: Seq<char>, after: Seq<char>)
    requires
        all_white_space(before),
        all_white_space(after),
        core.len() == 0 || (!is_white_space(core[0]) && !is_white_space(core.last())),
        forall|i: int| 0 <= i < (before + core + after).len() ==> (before + core + after)[i] != ',',
    ensures
        patterns_of_csv(before + core + after) == add_pattern((seq![], seq![], seq![]), before + core + after),
        ascii_lower(trim(before + core + after)) == ascii_lower(core),
{
    let e = before + core + after;
    lemma_split_without_separator(seq![], e, ',');
    assert(Seq::<char>::empty() + e == e);
    assert(split_on(e, ',') == seq![e]);
    assert(seq![e].drop_last() == Seq::<Seq<char>>::empty());
    assert(seq![e].last() == e);
    let empty_lists: PatternLists = (seq![], seq![], seq![]);
    assert(patterns_of(Seq::<Seq<char>>::empty()) == empty_lists);
    assert(patterns_of(seq![e]) == add_pattern(patterns_of(seq![e].drop_last()), seq![e].last()));
    lemma_trim_takes_off_surrounding_white(before, core, after);
}

proof fn lemma_strip_star_front(z: Seq<char>)
    requires
        z.len() == 0 || z[0] != '*',
    ensures
        strip_front_char(seq!['*'] + z, '*') == z,
        strip_front_char(z, '*') == z,
{
    assert((seq!['*'] + z)[0] == '*');
    assert((seq!['*'] + z).drop_first() == z);
    assert(strip_front_char(z, '*') == z);
}

proof fn lemma_strip_star_back(z: Seq<char>)
    requires
        z.len() == 0 || z.last() != '*',
    ensures
        strip_back_char(z + seq!['*'], '*') == z,
        strip_back_char(z, '*') == z,
{
    assert((z + seq!['*']).last() == '*');
    assert((z + seq!['*']).drop_last() == z);
    assert(strip_back_char(z, '*') == z);
}

/// One configured entry, with any whitespace around it: `*text*` adds the
/// lowercased `text` as a contains pattern, `*text` and `text*` add it as a
/// suffix pattern, any other non-empty text is an exact key, lowercased, and
/// an entry of whitespace adds nothing.
pub proof fn lemma_config_of_one_entry(before: Seq<char>, text: Seq<char>, after: Seq<char>)
    requires
        all_white_space(before),
        all_white_space(after),
        text.len() > 0,
        !is_white_space(text[0]) && !is_white_space(text.last()),
        text[0] != '*' && text.last() != '*',
        forall|i: int| 0 <= i < text.len() ==> text[i] != ',',
        forall|i: int| 0 <= i < before.len() ==> before[i] != ',',
        forall|i: int| 0 <= i < after.len() ==> after[i] != ',',
    ensures
        patterns_of_csv(before + text + after) == (seq![ascii_lower(text)], Seq::<Seq<char>>::empty(), Seq::<Seq<char>>::empty()),
        patterns_of_csv(before + (seq!['*'] + text + seq!['*']) + after)
            == (Seq::<Seq<char>>::empty(), seq![ascii_lower(text)], Seq::<Seq<char>>::empty()),
        patterns_of_csv(before + (seq!['*'] + text) + after)
            == (Seq::<Seq<char>>::empty(), Seq::<Seq<char>>::empty(), seq![ascii_lower(text)]),
        patterns_of_csv(before + (text + seq!['*']) + after)
            == (Seq::<Seq<char>>::empty(), Seq::<Seq<char>>::empty(), seq![ascii_lower(text)]),
        patterns_of_csv(before + after) == (Seq::<Seq<char>>::empty(), Seq::<Seq<char>>::empty(), Seq::<Seq<char>>::empty()),
{
    let lt = ascii_lower(text);
    lemma_lower_keeps_star(text);
    assert(lt[0] != '*' && lt.last() != '*') by {
        assert(lt.last() == lt[lt.len() - 1]);
    }
    let star = seq!['*'];
    lemma_ascii_lower_concat(star, text);
    lemma_ascii_lower_concat(star + text, star);
    lemma_ascii_lower_concat(text, star);
    assert(ascii_lower(star) == star);
    lemma_strip_star_front(lt);
    lemma_strip_star_back(lt);
    lemma_strip_star_front(lt + star);
    assert((lt + star)[0] == lt[0]);

    // Plain text.
    assert forall|i: int| 0 <= i < (before + text + after).len() implies (before + text + after)[i] != ',' by {
        if i < before.len() {
        } else if i < before.len() + text.len() {
            assert((before + text + after)[i] == text[i - before.len()]);
        } else {
            assert((before + text + after)[i] == after[i - before.len() - text.len()]);
        }
    }
    lemma_single_entry(before, text, after);

    // `*text*`.
    let both = star + text + star;
    assert(both[0] == '*' && both.last() == '*');
    assert(!is_white_space(both[0]) && !is_white_space(both.last()));
    assert forall|i: int| 0 <= i < (before + both + after).len() implies (before + both + after)[i] != ',' by {
        if i < before.len() {
        } else if i < before.len() + both.len() {
            let k = i - before.len();
            assert((before + both + after)[i] == both[k]);
            if k > 0 && k < both.len() - 1 {
                assert(both[k] == text[k - 1]);
            }
        } else {
            assert((before + both + after)[i] == after[i - before.len() - both.len()]);
        }
    }
    lemma_single_entry(before, both, after);
    assert(ascii_lower(both) == star + lt + star);
    assert((star + lt + star)[0] == '*');
    assert((star + lt + star).last() == '*');
    assert(star + lt + star == star + (lt + star));
    assert(strip_front_char(star + (lt + star), '*') == lt + star);

    // `*text`.
    let lead = star + text;
    assert(lead[0] == '*' && lead.last() == text.last());
    assert forall|i: int| 0 <= i < (before + lead + after).len() implies (before + lead + after)[i] != ',' by {
        if i < before.len() {
        } else if i < before.len() + lead.len() {
            let k = i - before.len();
            assert((before + lead + after)[i] == lead[k]);
            if k > 0 {
                assert(lead[k] == text[k - 1]);
            }
        } else {
            assert((before + lead + after)[i] == after[i - before.len() - lead.len()]);
        }
    }
    lemma_single_entry(before, lead, after);
    assert(ascii_lower(lead) == star + lt);
    assert((star + lt).last() == lt.last());

    // `text*`.
    let trail = text + star;
    assert(trail[0] == text[0] && trail.last() == '*');
    assert forall|i: int| 0 <= i < (before + trail + after).len() implies (before + trail + after)[i] != ',' by {
        if i < before.len() {
        } else if i < before.len() + trail.len() {
            let k = i - before.len();
            assert((before + trail + after)[i] == trail[k]);
            if k < text.len() {
                assert(trail[k] == text[k]);
            }
        } else {
            assert((before + trail + after)[i] == after[i - before.len() - trail.len()]);
        }
    }
    lemma_single_entry(before, trail, after);
    assert(ascii_lower(trail) == lt + star);
    assert((lt + star)[0] == lt[0]);

    // Whitespace only.
    assert(before + Seq::<char>::empty() + after == before + after);
    assert forall|i: int| 0 <= i < (before + Seq::<char>::empty() + after).len()
        implies (before + Seq::<char>::empty() + after)[i] != ',' by {
        if i < before.len() {
        } else {
            assert((before + Seq::<char>::empty() + after)[i] == after[i - before.len()]);
        }
    }
    lemma_single_entry(before, Seq::<char>::empty(), after);
}

} // verus!
