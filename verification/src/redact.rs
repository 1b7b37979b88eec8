//! The header and query fields stored with a captured webhook, with the
//! values of sensitive keys replaced by a marker.
use vstd::prelude::*;
use crate::sensitive::{is_sensitive_key, key_is_sensitive, string_texts, PatternLists, SensitiveKeysConfig};

verus! {

/// What is stored in place of the value of a sensitive key.
pub open spec fn redacted_marker() -> Seq<char> {
    "[REDACTED]"@
}

/// A header byte that a header value may hold as text: a visible ASCII
/// character, a space or a tab.
pub open spec fn is_visible_header_byte(b: u8) -> bool {
    (32 <= b && b < 127) || b == 9
}

/// Every byte of `bytes` is visible.
pub open spec fn all_visible(bytes: Seq<u8>) -> bool {
    forall|i: int| 0 <= i < bytes.len() ==> is_visible_header_byte(#[trigger] bytes[i])
}

/// The characters of ASCII bytes.
pub open spec fn ascii_text(bytes: Seq<u8>) -> Seq<char> {
    bytes.map_values(|b: u8| b as char)
}

/// Calls `axum::http::HeaderValue::from_bytes` and then `HeaderValue::to_str`:
/// the text is given exactly when every byte is visible ASCII (32 to 126) or a
/// tab, and then it holds those bytes as characters.
#[verifier::external_body]
fn header_value_text(bytes: &[u8]) -> (r: Option<String>)
    ensures
        r is Some <==> all_visible(bytes@),
        r matches Some(text) ==> text@ == ascii_text(bytes@),
{
    match axum::http::HeaderValue::from_bytes(bytes) {
        Ok(value) => match value.to_str() {
            Ok(text) => Some(text.to_string()),
            Err(_) => None,
        },
        Err(_) => None,
    }
}

/// What is stored for one header line: its text, or the marker when the
/// name is sensitive; nothing when the value is not visible ASCII.
pub open spec fn stored_header_value(name: Seq<char>, value: Seq<u8>, lists: PatternLists) -> Option<Seq<char>> {
    if all_visible(value) {
        Some(if key_is_sensitive(name, lists) { redacted_marker() } else { ascii_text(value) })
    } else {
        None
    }
}

/// The values stored under `key`, in the order of the header lines.
pub open spec fn header_values_for(entries: Seq<(String, Vec<u8>)>, key: Seq<char>, lists: PatternLists) -> Seq<Seq<char>>
    decreases entries.len(),
{
    if entries.len() == 0 {
        seq![]
    } else {
        let prev = header_values_for(entries.drop_last(), key, lists);
        let e = entries.last();
        match stored_header_value(e.0@, e.1@, lists) {
            Some(v) => if e.0@ == key { prev.push(v) } else { prev },
            None => prev,
        }
    }
}

/// No two names have the same text.
pub open spec fn distinct_names(names: Seq<String>) -> bool {
    forall|i: int, j: int| 0 <= i < names.len() && 0 <= j < names.len() && i != j ==> names[i]@ != names[j]@
}

/// The stored headers: each name once, with all values stored for it in order.
#[derive(Debug)]
pub struct HeaderFields {
    /// The header names, each once.
    pub names: Vec<String>,
    /// `values[i]` holds the values stored under `names[i]`.
    pub values: Vec<Vec<String>>,
}

/// The stored query parameters: each key once, with its stored value.
#[derive(Debug)]
pub struct QueryFields {
    /// The query keys, each once.
    pub names: Vec<String>,
    /// `values[i]` is the value stored under `names[i]`.
    pub values: Vec<String>,
}

/// `names` and `values` hold exactly the values stored for `entries`.
pub open spec fn header_fields_hold(
    names: Seq<String>,
    values: Seq<Vec<String>>,
    entries: Seq<(String, Vec<u8>)>,
    lists: PatternLists,
) -> bool {
    &&& names.len() == values.len()
    &&& distinct_names(names)
    &&& forall|i: int| 0 <= i < names.len() ==> {
        &&& string_texts(#[trigger] values[i]@) == header_values_for(entries, names[i]@, lists)
        &&& header_values_for(entries, names[i]@, lists).len() > 0
    }
    &&& forall|key: Seq<char>| #[trigger] header_values_for(entries, key, lists).len() > 0
        ==> exists|i: int| 0 <= i < names.len() && names[i]@ == key
}

impl HeaderFields {
    /// The fields hold exactly the values stored for `entries`.
    pub open spec fn holds(&self, entries: Seq<(String, Vec<u8>)>, lists: PatternLists) -> bool {
        header_fields_hold(self.names@, self.values@, entries, lists)
    }
}

/// The index of the name whose text is `key`, if there is one.
fn find_name(names: &Vec<String>, key: &String) -> (r: Option<usize>)
    ensures
        r matches Some(j) ==> j < names@.len() && names@[j as int]@ == key@,
        r is None ==> forall|i: int| 0 <= i < names@.len() ==> names@[i]@ != key@,
{
    let mut i: usize = 0;
    while i < names.len()
        invariant
            i <= names.len(),
            forall|j: int| 0 <= j < i ==> names@[j]@ != key@,
        decreases names.len() - i,
    {
        if names[i] == *key {
            return Some(i);
        }
        i = i + 1;
    }
    None
}

/// The marker stored for sensitive values.
fn redacted() -> (r: String)
    ensures
        r@ == redacted_marker(),
{
    "[REDACTED]".to_owned()
}

/// One more header line changes only the values stored under its own name.
proof fn lemma_header_step(next: Seq<(String, Vec<u8>)>, lists: PatternLists, key: Seq<char>)
    requires
        next.len() > 0,
    ensures
        header_values_for(next, key, lists) == match stored_header_value(next.last().0@, next.last().1@, lists) {
            Some(v) => if next.last().0@ == key {
                header_values_for(next.drop_last(), key, lists).push(v)
            } else {
                header_values_for(next.drop_last(), key, lists)
            },
            None => header_values_for(next.drop_last(), key, lists),
        },
{
}

/// A header line whose value is not stored leaves the fields as they are.
proof fn lemma_header_skip(
    names: Seq<String>,
    values: Seq<Vec<String>>,
    next: Seq<(String, Vec<u8>)>,
    lists: PatternLists,
)
    requires
        next.len() > 0,
        header_fields_hold(names, values, next.drop_last(), lists),
        stored_header_value(next.last().0@, next.last().1@, lists) is None,
    ensures
        header_fields_hold(names, values, next, lists),
{
    assert forall|key: Seq<char>| header_values_for(next, key, lists) == header_values_for(next.drop_last(), key, lists) by {
        lemma_header_step(next, lists, key);
    }
}

/// A stored value under a name already present is appended to its values.
proof fn lemma_header_append(
    names: Seq<String>,
    old_values: Seq<Vec<String>>,
    values: Seq<Vec<String>>,
    next: Seq<(String, Vec<u8>)>,
    lists: PatternLists,
    j: int,
    v: Seq<char>,
)
    requires
        next.len() > 0,
        header_fields_hold(names, old_values, next.drop_last(), lists),
        stored_header_value(next.last().0@, next.last().1@, lists) == Some(v),
        0 <= j < names.len(),
        names[j]@ == next.last().0@,
        values.len() == old_values.len(),
        string_texts(values[j]@) == string_texts(old_values[j]@).push(v),
        forall|i: int| 0 <= i < values.len() && i != j ==> values[i] == old_values[i],
    ensures
        header_fields_hold(names, values, next, lists),
{
    let seen = next.drop_last();
    assert forall|i: int| 0 <= i < names.len() implies {
        &&& string_texts(#[trigger] values[i]@) == header_values_for(next, names[i]@, lists)
        &&& header_values_for(next, names[i]@, lists).len() > 0
    } by {
        lemma_header_step(next, lists, names[i]@);
        if i != j {
            assert(names[i]@ != names[j]@);
            assert(values[i] == old_values[i]);
        }
    }
    assert forall|key: Seq<char>| #[trigger] header_values_for(next, key, lists).len() > 0
        implies exists|i: int| 0 <= i < names.len() && names[i]@ == key by {
        lemma_header_step(next, lists, key);
        if key == names[j]@ {
            assert(names[j]@ == key);
        } else {
            assert(header_values_for(seen, key, lists).len() > 0);
        }
    }
}

/// A stored value under a new name adds that name with this one value.
proof fn lemma_header_insert(
    old_names: Seq<String>,
    old_values: Seq<Vec<String>>,
    names: Seq<String>,
    values: Seq<Vec<String>>,
    next: Seq<(String, Vec<u8>)>,
    lists: PatternLists,
    v: Seq<char>,
)
    requires
        next.len() > 0,
        header_fields_hold(old_names, old_values, next.drop_last(), lists),
        stored_header_value(next.last().0@, next.last().1@, lists) == Some(v),
        forall|i: int| 0 <= i < old_names.len() ==> old_names[i]@ != next.last().0@,
        names.len() == old_names.len() + 1,
        values.len() == old_values.len() + 1,
        names[old_names.len() as int]@ == next.last().0@,
        string_texts(values[old_values.len() as int]@) == seq![v],
        forall|i: int| 0 <= i < old_names.len() ==> names[i] == old_names[i] && values[i] == old_values[i],
    ensures
        header_fields_hold(names, values, next, lists),
{
    let seen = next.drop_last();
    let name = next.last().0@;
    assert(header_values_for(seen, name, lists).len() == 0) by {
        if header_values_for(seen, name, lists).len() > 0 {
            let i = choose|i: int| 0 <= i < old_names.len() && old_names[i]@ == name;
        }
    }
    lemma_header_step(next, lists, name);
    assert(header_values_for(next, name, lists) == seq![v]);
    assert forall|i: int| 0 <= i < names.len() implies {
        &&& string_texts(#[trigger] values[i]@) == header_values_for(next, names[i]@, lists)
        &&& header_values_for(next, names[i]@, lists).len() > 0
    } by {
        if i < old_names.len() {
            lemma_header_step(next, lists, names[i]@);
            assert(names[i] == old_names[i]);
            assert(values[i] == old_values[i]);
        }
    }
    assert forall|a: int, b: int| 0 <= a < names.len() && 0 <= b < names.len() && a != b
        implies names[a]@ != names[b]@ by {
        if a < old_names.len() && b < old_names.len() {
            assert(names[a] == old_names[a]);
            assert(names[b] == old_names[b]);
        } else if a < old_names.len() {
            assert(names[a] == old_names[a]);
        } else if b < old_names.len() {
            assert(names[b] == old_names[b]);
        }
    }
    assert forall|key: Seq<char>| #[trigger] header_values_for(next, key, lists).len() > 0
        implies exists|i: int| 0 <= i < names.len() && names[i]@ == key by {
        lemma_header_step(next, lists, key);
        if key == name {
            assert(names[old_names.len() as int]@ == key);
        } else {
            assert(header_values_for(seen, key, lists).len() > 0);
            let i = choose|i: int| 0 <= i < old_names.len() && old_names[i]@ == key;
            assert(names[i] == old_names[i]);
        }
    }
}

/// Collects the header lines into the stored fields: lines whose value is
/// not visible ASCII are left out, values of sensitive names are replaced by
/// `[REDACTED]`, and the values of repeated names are gathered in order.
pub fn headers_to_json(headers: &Vec<(String, Vec<u8>)>, config: &SensitiveKeysConfig) -> (out: HeaderFields)
    ensures
        out.holds(headers@, config.lists()),
{
    let ghost lists = config.lists();
    let mut names: Vec<String> = Vec::new();
    let mut values: Vec<Vec<String>> = Vec::new();
    let mut k: usize = 0;
    while k < headers.len()
        invariant
            k <= headers.len(),
            lists == config.lists(),
            header_fields_hold(names@, values@, headers@.take(k as int), lists),
        decreases headers.len() - k,
    {
        let ghost next = headers@.take(k + 1);
        assert(next.drop_last() == headers@.take(k as int));
        assert(next.last() == headers@[k as int]);
        let name = &headers[k].0;
        let text = header_value_text(headers[k].1.as_slice());
        match text {
            None => {
                proof {
                    lemma_header_skip(names@, values@, next, lists);
                }
            },
            Some(text) => {
                let stored = if is_sensitive_key(name.as_str(), config) { redacted() } else { text };
                let ghost v = stored@;
                let ghost v_string = stored;
                assert(stored_header_value(name@, headers@[k as int].1@, lists) == Some(v));
                let ghost old_names = names@;
                let ghost old_values = values@;
                match find_name(&names, name) {
                    Some(j) => {
                        let mut cur = values.remove(j);
                        cur.push(stored);
                        let ghost cur_view = cur@;
                        values.insert(j, cur);
                        assert(values@ == old_values.update(j as int, values@[j as int]));
                        assert(cur_view == old_values[j as int]@.push(v_string));
                        assert(string_texts(values@[j as int]@) == string_texts(old_values[j as int]@).push(v));
                        proof {
                            lemma_header_append(names@, old_values, values@, next, lists, j as int, v);
                        }
                    },
                    None => {
                        let mut fresh: Vec<String> = Vec::new();
                        fresh.push(stored);
                        names.push(name.clone());
                        values.push(fresh);
                        assert(string_texts(values@[old_values.len() as int]@) == seq![v]);
                        proof {
                            lemma_header_insert(old_names, old_values, names@, values@, next, lists, v);
                        }
                    },
                }
            },
        }
        k = k + 1;
    }
    assert(headers@.take(headers.len() as int) == headers@);
    HeaderFields { names, values }
}

/// What is stored for one query parameter: its value, or the marker when
/// the key is sensitive.
pub open spec fn stored_query_value(key: Seq<char>, value: Seq<char>, lists: PatternLists) -> Seq<char> {
    if key_is_sensitive(key, lists) { redacted_marker() } else { value }
}

/// The value stored under `key`: that of the last parameter with this key.
pub open spec fn query_value_for(entries: Seq<(String, String)>, key: Seq<char>, lists: PatternLists) -> Option<Seq<char>>
    decreases entries.len(),
{
    if entries.len() == 0 {
        None
    } else if entries.last().0@ == key {
        Some(stored_query_value(key, entries.last().1@, lists))
    } else {
        query_value_for(entries.drop_last(), key, lists)
    }
}

/// `names` and `values` hold exactly the values stored for `entries`.
pub open spec fn query_fields_hold(
    names: Seq<String>,
    values: Seq<String>,
    entries: Seq<(String, String)>,
    lists: PatternLists,
) -> bool {
    &&& names.len() == values.len()
    &&& distinct_names(names)
    &&& forall|i: int| 0 <= i < names.len() ==> query_value_for(entries, #[trigger] names[i]@, lists) == Some(values[i]@)
    &&& forall|key: Seq<char>| #[trigger] query_value_for(entries, key, lists) is Some
        ==> exists|i: int| 0 <= i < names.len() && names[i]@ == key
}

impl QueryFields {
    /// The fields hold exactly the values stored for `entries`.
    pub open spec fn holds(&self, entries: Seq<(String, String)>, lists: PatternLists) -> bool {
        query_fields_hold(self.names@, self.values@, entries, lists)
    }
}

/// Collects the query parameters into the stored fields: each key once, the
/// value of a sensitive key replaced by `[REDACTED]`; when a key repeats, the
/// last value is kept.
pub fn query_to_json(query: &Vec<(String, String)>, config: &SensitiveKeysConfig) -> (out: QueryFields)
    ensures
        out.holds(query@, config.lists()),
{
    let ghost lists = config.lists();
    let mut names: Vec<String> = Vec::new();
    let mut values: Vec<String> = Vec::new();
    let mut k: usize = 0;
    while k < query.len()
        invariant
            k <= query.len(),
            lists == config.lists(),
            query_fields_hold(names@, values@, query@.take(k as int), lists),
        decreases query.len() - k,
    {
        let ghost seen = query@.take(k as int);
        let ghost next = query@.take(k + 1);
        assert(next.drop_last() == seen);
        assert(next.last() == query@[k as int]);
        let key = &query[k].0;
        let stored = if is_sensitive_key(key.as_str(), config) { redacted() } else { query[k].1.clone() };
        let ghost v = stored@;
        assert(query_value_for(next, key@, lists) == Some(v));
        assert forall|other: Seq<char>| other != key@ implies
            query_value_for(next, other, lists) == query_value_for(seen, other, lists) by {}
        let ghost old_names = names@;
        let ghost old_values = values@;
        match find_name(&names, key) {
            Some(j) => {
                values.set(j, stored);
                assert forall|i: int| 0 <= i < names@.len() implies
                    query_value_for(next, #[trigger] names@[i]@, lists) == Some(values@[i]@) by {
                    if i != j {
                        assert(names@[i]@ != names@[j as int]@);
                    }
                }
                assert forall|other: Seq<char>| #[trigger] query_value_for(next, other, lists) is Some
                    implies exists|i: int| 0 <= i < names@.len() && names@[i]@ == other by {
                    if other == key@ {
                        assert(names@[j as int]@ == other);
                    }
                }
            },
            None => {
                names.push(key.clone());
                values.push(stored);
                assert forall|i: int| 0 <= i < names@.len() implies
                    query_value_for(next, #[trigger] names@[i]@, lists) == Some(values@[i]@) by {
                    if i < old_names.len() {
                        assert(names@[i] == old_names[i]);
                        assert(values@[i] == old_values[i]);
                    }
                }
                assert forall|other: Seq<char>| #[trigger] query_value_for(next, other, lists) is Some
                    implies exists|i: int| 0 <= i < names@.len() && names@[i]@ == other by {
                    if other == key@ {
                        assert(names@[old_names.len() as int]@ == other);
                    } else {
                        let i = choose|i: int| 0 <= i < old_names.len() && old_names[i]@ == other;
                        assert(names@[i] == old_names[i]);
                    }
                }
            },
        }
        k = k + 1;
    }
    assert(query@.take(query.len() as int) == query@);
    QueryFields { names, values }
}

/// Every value stored under a sensitive header name is the marker, never
/// what was sent.
pub proof fn lemma_sensitive_header_values_redacted(entries: Seq<(String, Vec<u8>)>, key: Seq<char>, lists: PatternLists)
    requires
        key_is_sensitive(key, lists),
    ensures
        forall|i: int| 0 <= i < header_values_for(entries, key, lists).len()
            ==> #[trigger] header_values_for(entries, key, lists)[i] == redacted_marker(),
    decreases entries.len(),
{
    if entries.len() > 0 {
        lemma_sensitive_header_values_redacted(entries.drop_last(), key, lists);
        let prev = header_values_for(entries.drop_last(), key, lists);
        let cur = header_values_for(entries, key, lists);
        assert forall|i: int| 0 <= i < cur.len() implies #[trigger] cur[i] == redacted_marker() by {
            if i < prev.len() {
                assert(cur[i] == prev[i]);
            }
        }
    }
}

/// The value stored under a sensitive query key is the marker, never what
/// was sent.
pub proof fn lemma_sensitive_query_value_redacted(entries: Seq<(String, String)>, key: Seq<char>, lists: PatternLists)
    requires
        key_is_sensitive(key, lists),
    ensures
        query_value_for(entries, key, lists) matches Some(v) ==> v == redacted_marker(),
    decreases entries.len(),
{
    if entries.len() > 0 {
        lemma_sensitive_query_value_redacted(entries.drop_last(), key, lists);
    }
}

/// A header line whose value is visible ASCII and whose name is not
/// sensitive has its value stored as sent, after the values of the earlier
/// lines of that name.
pub proof fn lemma_plain_header_value_kept(entries: Seq<(String, Vec<u8>)>, lists: PatternLists)
    requires
        entries.len() > 0,
        all_visible(entries.last().1@),
        !key_is_sensitive(entries.last().0@, lists),
    ensures
        header_values_for(entries, entries.last().0@, lists)
            == header_values_for(entries.drop_last(), entries.last().0@, lists).push(ascii_text(entries.last().1@)),
{
}

/// The value stored under a query key is that of the last parameter sent
/// with this key: exactly as sent when the key is not sensitive, and
/// `[REDACTED]` when it is.
pub proof fn lemma_query_value_is_last_sent(entries: Seq<(String, String)>, key: Seq<char>, lists: PatternLists, i: int)
    requires
        0 <= i < entries.len(),
        entries[i].0@ == key,
        forall|j: int| i < j < entries.len() ==> entries[j].0@ != key,
    ensures
        !key_is_sensitive(key, lists) ==> query_value_for(entries, key, lists) == Some(entries[i].1@),
        key_is_sensitive(key, lists) ==> query_value_for(entries, key, lists) == Some("[REDACTED]"@),
    decreases entries.len(),
{
    if i < entries.len() - 1 {
        assert(entries.last() == entries[entries.len() - 1]);
        lemma_query_value_is_last_sent(entries.drop_last(), key, lists, i);
    }
}

/// A key sent with no parameter has no stored value.
pub proof fn lemma_query_value_absent(entries: Seq<(String, String)>, key: Seq<char>, lists: PatternLists)
    requires
        forall|j: int| 0 <= j < entries.len() ==> entries[j].0@ != key,
    ensures
        query_value_for(entries, key, lists) is None,
    decreases entries.len(),
{
    if entries.len() > 0 {
        assert(entries.last() == entries[entries.len() - 1]);
        lemma_query_value_absent(entries.drop_last(), key, lists);
    }
}

/// The characters of visible header bytes are those bytes, one for one.
pub proof fn lemma_header_text_is_the_bytes(bytes: Seq<u8>)
    ensures
        ascii_text(bytes).len() == bytes.len(),
        forall|i: int| 0 <= i < bytes.len() ==> (#[trigger] ascii_text(bytes)[i]) as u32 == bytes[i] as u32,
{
}

/// A header line whose value is not visible ASCII adds nothing under any
/// name, and a line of another name adds nothing under `key`.
pub proof fn lemma_header_line_affects_only_its_name(entries: Seq<(String, Vec<u8>)>, key: Seq<char>, lists: PatternLists)
    requires
        entries.len() > 0,
        !all_visible(entries.last().1@) || entries.last().0@ != key,
    ensures
        header_values_for(entries, key, lists) == header_values_for(entries.drop_last(), key, lists),
{
}

/// A visible header line under a sensitive name adds `[REDACTED]` after the
/// earlier values of that name.
pub proof fn lemma_sensitive_header_line_adds_marker(entries: Seq<(String, Vec<u8>)>, lists: PatternLists)
    requires
        entries.len() > 0,
        all_visible(entries.last().1@),
        key_is_sensitive(entries.last().0@, lists),
    ensures
        header_values_for(entries, entries.last().0@, lists)
            == header_values_for(entries.drop_last(), entries.last().0@, lists).push("[REDACTED]"@),
{
}

} // verus!
