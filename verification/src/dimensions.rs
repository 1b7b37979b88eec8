//! The tenant, app and event of a captured webhook, read from its request path.
use vstd::prelude::*;
use crate::text::{chars_of, is_prefix_of, string_from_chars, strip_front_char, strip_front_char_exec, strip_front_pattern, strip_front_pattern_exec};

verus! {

/// The non-empty pieces of `cur + rest` between `/` separators, where `cur`
/// is a piece already begun (it holds no `/`).
pub open spec fn segments_from(cur: Seq<char>, rest: Seq<char>) -> Seq<Seq<char>>
    decreases rest.len(),
{
    if rest.len() == 0 {
        if cur.len() > 0 { seq![cur] } else { seq![] }
    } else if rest[0] == '/' {
        (if cur.len() > 0 { seq![cur] } else { seq![] }) + segments_from(seq![], rest.drop_first())
    } else {
        segments_from(cur.push(rest[0]), rest.drop_first())
    }
}

/// The non-empty pieces of `s` between `/` separators, in order.
pub open spec fn path_segments(s: Seq<char>) -> Seq<Seq<char>> {
    segments_from(seq![], s)
}

/// A webhook path with its leading `/`, any run of `api/webhooks` prefixes
/// and the `/` that follows taken off.
pub open spec fn webhook_relative_path(path: Seq<char>) -> Seq<char> {
    strip_front_char(strip_front_pattern(strip_front_char(path, '/'), "api/webhooks"@), '/')
}

/// The `n`-th dimension (0: tenant, 1: app, 2: event) of a webhook path.
pub open spec fn path_dimension(path: Seq<char>, n: int) -> Option<Seq<char>> {
    let segs = path_segments(webhook_relative_path(path));
    if n < segs.len() { Some(segs[n]) } else { None }
}

/// The text of an optional string.
pub open spec fn opt_text(o: Option<String>) -> Option<Seq<char>> {
    match o {
        Some(s) => Some(s@),
        None => None,
    }
}

/// The texts of a sequence of character vectors.
pub open spec fn texts_of(v: Seq<Vec<char>>) -> Seq<Seq<char>> {
    Seq::new(v.len(), |i: int| v[i]@)
}

/// Splits `s` on `/` and keeps the non-empty pieces.
pub fn split_path_segments(s: &Vec<char>) -> (out: Vec<Vec<char>>)
    ensures
        texts_of(out@) == path_segments(s@),
{
    let mut out: Vec<Vec<char>> = Vec::new();
    let mut cur: Vec<char> = Vec::new();
    let mut i: usize = 0;
    assert(s@.skip(0) == s@);
    assert(texts_of(out@) == Seq::<Seq<char>>::empty());
    assert(cur@ == Seq::<char>::empty());
    while i < s.len()
        invariant
            i <= s.len(),
            path_segments(s@) == texts_of(out@) + segments_from(cur@, s@.skip(i as int)),
        decreases s.len() - i,
    {
        let ghost rest = s@.skip(i as int);
        assert(rest.drop_first() == s@.skip(i + 1));
        let c = s[i];
        if c == '/' {
            let ghost before = texts_of(out@);
            let ghost piece: Seq<Seq<char>> = if cur@.len() > 0 { seq![cur@] } else { seq![] };
            if cur.len() > 0 {
                let done = cur;
                out.push(done);
                cur = Vec::new();
            }
            assert(texts_of(out@) == before + piece);
            assert(cur@ == Seq::<char>::empty());
            assert(segments_from(seq![], s@.skip(i + 1)) == segments_from(cur@, s@.skip(i + 1)));
            assert(before + (piece + segments_from(cur@, s@.skip(i + 1)))
                == (before + piece) + segments_from(cur@, s@.skip(i + 1)));
        } else {
            cur.push(c);
        }
        i = i + 1;
    }
    let ghost before = texts_of(out@);
    if cur.len() > 0 {
        out.push(cur);
        assert(texts_of(out@) == before + seq![cur@]);
    } else {
        assert(before + Seq::<Seq<char>>::empty() == before);
    }
    out
}

/// The optional text of piece `n` of `segs`, as a `String`.
fn segment_string(segs: &Vec<Vec<char>>, n: usize) -> (r: Option<String>)
    ensures
        opt_text(r) == (if n < segs@.len() { Some(segs@[n as int]@) } else { None::<Seq<char>> }),
{
    if n < segs.len() {
        Some(string_from_chars(&segs[n]))
    } else {
        None
    }
}

/// Reads `(tenant, app, event)` from a webhook path such as
/// `/api/webhooks/{tenant}/{app}/{event}/...`: the first three non-empty
/// segments after the `api/webhooks` prefix; segments beyond the third are
/// ignored, and a missing one is `None`.
pub fn webhook_dimensions(path: &str) -> (dims: (Option<String>, Option<String>, Option<String>))
    ensures
        opt_text(dims.0) == path_dimension(path@, 0),
        opt_text(dims.1) == path_dimension(path@, 1),
        opt_text(dims.2) == path_dimension(path@, 2),
{
    let chars = chars_of(path);
    let pattern = chars_of("api/webhooks");
    proof {
        reveal_strlit("api/webhooks");
    }
    let a = strip_front_char_exec(&chars, '/');
    let b = strip_front_pattern_exec(&a, &pattern);
    let normalized = strip_front_char_exec(&b, '/');
    if normalized.len() == 0 {
        assert(path_segments(normalized@) == Seq::<Seq<char>>::empty());
        return (None, None, None);
    }
    let segs = split_path_segments(&normalized);
    let tenant = segment_string(&segs, 0);
    let app = segment_string(&segs, 1);
    let event = segment_string(&segs, 2);
    (tenant, app, event)
}

/// `s` as a one-piece list when it is not empty.
pub open spec fn piece(s: Seq<char>) -> Seq<Seq<char>> {
    if s.len() > 0 { seq![s] } else { seq![] }
}

/// `s` holds no `/`.
pub open spec fn no_slash(s: Seq<char>) -> bool {
    forall|i: int| 0 <= i < s.len() ==> s[i] != '/'
}

/// A `/`-free run followed by `/` closes the piece begun with `cur`.
proof fn lemma_segments_through_slash(cur: Seq<char>, x: Seq<char>, y: Seq<char>)
    requires
        no_slash(x),
    ensures
        segments_from(cur, x + seq!['/'] + y) == piece(cur + x) + segments_from(seq![], y),
    decreases x.len(),
{
    let rest = x + seq!['/'] + y;
    if x.len() == 0 {
        assert(rest == seq!['/'] + y);
        assert(rest.drop_first() == y);
        assert(cur + x == cur);
    } else {
        assert(rest[0] == x[0]);
        assert(rest.drop_first() == x.drop_first() + seq!['/'] + y);
        lemma_segments_through_slash(cur.push(x[0]), x.drop_first(), y);
        assert(cur.push(x[0]) + x.drop_first() == cur + x);
    }
}

/// A `/`-free run up to the end closes the piece begun with `cur`.
proof fn lemma_segments_to_end(cur: Seq<char>, x: Seq<char>)
    requires
        no_slash(x),
    ensures
        segments_from(cur, x) == piece(cur + x),
    decreases x.len(),
{
    if x.len() == 0 {
        assert(cur + x == cur);
    } else {
        lemma_segments_to_end(cur.push(x[0]), x.drop_first());
        assert(cur.push(x[0]) + x.drop_first() == cur + x);
    }
}

/// The path shape `/api/webhooks/{tenant}/{app}/{event}` followed by nothing
/// or by further `/`-separated segments gives exactly `tenant`, `app` and
/// `event` as the dimensions, for any non-empty segments without `/`.
pub proof fn lemma_path_shape_dimensions(tenant: Seq<char>, app: Seq<char>, event: Seq<char>, rest: Seq<char>)
    requires
        tenant.len() > 0 && no_slash(tenant),
        app.len() > 0 && no_slash(app),
        event.len() > 0 && no_slash(event),
        rest.len() == 0 || rest[0] == '/',
    ensures
        ({
            let path = seq!['/'] + "api/webhooks"@ + seq!['/'] + tenant + seq!['/'] + app + seq!['/'] + event + rest;
            &&& path_dimension(path, 0) == Some(tenant)
            &&& path_dimension(path, 1) == Some(app)
            &&& path_dimension(path, 2) == Some(event)
        }),
{
    reveal_strlit("api/webhooks");
    let prefix = "api/webhooks"@;
    let body = tenant + seq!['/'] + app + seq!['/'] + event + rest;
    let path = seq!['/'] + prefix + seq!['/'] + tenant + seq!['/'] + app + seq!['/'] + event + rest;
    let after_slash = prefix + seq!['/'] + body;
    assert(path == seq!['/'] + after_slash);
    assert(path.drop_first() == after_slash);
    assert(after_slash[0] == 'a');
    assert(strip_front_char(after_slash, '/') == after_slash);
    assert(strip_front_char(path, '/') == after_slash);
    assert(is_prefix_of(prefix, after_slash)) by {
        assert(after_slash.take(prefix.len() as int) == prefix);
    }
    let after_prefix = seq!['/'] + body;
    assert(after_slash.skip(prefix.len() as int) == after_prefix);
    assert(!is_prefix_of(prefix, after_prefix)) by {
        if is_prefix_of(prefix, after_prefix) {
            assert(after_prefix.take(prefix.len() as int)[0] == '/');
        }
    }
    assert(strip_front_pattern(after_prefix, prefix) == after_prefix);
    assert(strip_front_pattern(after_slash, prefix) == strip_front_pattern(after_prefix, prefix));
    assert(after_prefix.drop_first() == body);
    assert(body[0] == tenant[0]);
    assert(strip_front_char(body, '/') == body);
    assert(webhook_relative_path(path) == body);

    let tail_a = app + seq!['/'] + event + rest;
    assert(body == tenant + seq!['/'] + tail_a);
    lemma_segments_through_slash(seq![], tenant, tail_a);
    assert(Seq::<char>::empty() + tenant == tenant);
    let tail_e = event + rest;
    assert(tail_a == app + seq!['/'] + tail_e);
    lemma_segments_through_slash(seq![], app, tail_e);
    assert(Seq::<char>::empty() + app == app);
    assert(Seq::<char>::empty() + event == event);
    let last: Seq<Seq<char>> = if rest.len() == 0 {
        lemma_segments_to_end(seq![], event);
        assert(tail_e == event);
        seq![event]
    } else {
        assert(tail_e == event + seq!['/'] + rest.drop_first());
        lemma_segments_through_slash(seq![], event, rest.drop_first());
        seq![event] + segments_from(seq![], rest.drop_first())
    };
    assert(segments_from(seq![], tail_e) == last);
    let segs = path_segments(body);
    assert(segs == seq![tenant] + (seq![app] + last));
    assert(segs[0] == tenant);
    assert(segs[1] == app);
    assert(segs[2] == event);
}

/// The segments joined into a path: each preceded by `/`.
pub open spec fn slash_joined(segs: Seq<Seq<char>>) -> Seq<char>
    decreases segs.len(),
{
    if segs.len() == 0 {
        seq![]
    } else {
        seq!['/'] + segs[0] + slash_joined(segs.drop_first())
    }
}

/// `s` holds nothing but `/`.
pub open spec fn only_slashes(s: Seq<char>) -> bool {
    forall|i: int| 0 <= i < s.len() ==> s[i] == '/'
}

/// Every segment is non-empty and holds no `/`.
pub open spec fn proper_segments(segs: Seq<Seq<char>>) -> bool {
    forall|i: int| 0 <= i < segs.len() ==> (#[trigger] segs[i]).len() > 0 && no_slash(segs[i])
}

proof fn lemma_segments_feed(cur: Seq<char>, x: Seq<char>, z: Seq<char>)
    requires
        no_slash(x),
    ensures
        segments_from(cur, x + z) == segments_from(cur + x, z),
    decreases x.len(),
{
    if x.len() == 0 {
        assert(x + z == z);
        assert(cur + x == cur);
    } else {
        assert((x + z)[0] == x[0]);
        assert((x + z).drop_first() == x.drop_first() + z);
        lemma_segments_feed(cur.push(x[0]), x.drop_first(), z);
        assert(cur.push(x[0]) + x.drop_first() == cur + x);
    }
}

proof fn lemma_segments_slashes(cur: Seq<char>, t: Seq<char>)
    requires
        only_slashes(t),
    ensures
        segments_from(cur, t) == piece(cur),
    decreases t.len(),
{
    if t.len() > 0 {
        lemma_segments_slashes(seq![], t.drop_first());
        assert(piece(cur) + piece(seq![]) == piece(cur));
    }
}

proof fn lemma_segments_of_joined(cur: Seq<char>, segs: Seq<Seq<char>>, t: Seq<char>)
    requires
        proper_segments(segs),
        only_slashes(t),
    ensures
        segments_from(cur, slash_joined(segs) + t) == piece(cur) + segs,
    decreases segs.len(),
{
    if segs.len() == 0 {
        assert(slash_joined(segs) + t == t);
        lemma_segments_slashes(cur, t);
        assert(piece(cur) + segs == piece(cur));
    } else {
        let tail = segs.drop_first();
        assert(proper_segments(tail)) by {
            assert forall|i: int| 0 <= i < tail.len() implies (#[trigger] tail[i]).len() > 0 && no_slash(tail[i]) by {
                assert(tail[i] == segs[i + 1]);
            }
        }
        let z = slash_joined(tail) + t;
        let y = segs[0] + z;
        let whole = slash_joined(segs) + t;
        assert(whole == seq!['/'] + y);
        assert(whole[0] == '/');
        assert(whole.drop_first() == y);
        lemma_segments_feed(seq![], segs[0], z);
        assert(Seq::<char>::empty() + segs[0] == segs[0]);
        lemma_segments_of_joined(segs[0], tail, t);
        assert(piece(segs[0]) == seq![segs[0]]);
        assert(seq![segs[0]] + tail == segs);
        assert(piece(cur) + (seq![segs[0]] + tail) == piece(cur) + segs);
    }
}

proof fn lemma_segments_ignore_leading_slashes(s: Seq<char>)
    ensures
        path_segments(strip_front_char(s, '/')) == path_segments(s),
    decreases s.len(),
{
    if s.len() > 0 && s[0] == '/' {
        lemma_segments_ignore_leading_slashes(s.drop_first());
        assert(piece(seq![]) + path_segments(s.drop_first()) == path_segments(s.drop_first()));
    }
}

/// For any non-empty segments without `/`, the path `/api/webhooks` followed
/// by `/segment` for each of them (and any trailing `/`) has as dimension
/// `n` the `n`-th segment, and none when there are fewer segments: a path
/// with only a tenant gives that tenant, one with tenant and app gives both.
pub proof fn lemma_dimensions_of_joined_path(segs: Seq<Seq<char>>, trailing: Seq<char>, n: int)
    requires
        proper_segments(segs),
        only_slashes(trailing),
        0 <= n,
    ensures
        path_dimension(seq!['/'] + "api/webhooks"@ + slash_joined(segs) + trailing, n)
            == (if n < segs.len() { Some(segs[n]) } else { None::<Seq<char>> }),
{
    reveal_strlit("api/webhooks");
    let prefix = "api/webhooks"@;
    let after_prefix = slash_joined(segs) + trailing;
    let after_slash = prefix + after_prefix;
    let path = seq!['/'] + prefix + slash_joined(segs) + trailing;
    assert(path == seq!['/'] + after_slash);
    assert(path.drop_first() == after_slash);
    assert(after_slash[0] == 'a');
    assert(strip_front_char(after_slash, '/') == after_slash);
    assert(strip_front_char(path, '/') == after_slash);
    assert(is_prefix_of(prefix, after_slash)) by {
        assert(after_slash.take(prefix.len() as int) == prefix);
    }
    assert(after_slash.skip(prefix.len() as int) == after_prefix);
    assert(after_prefix.len() == 0 || after_prefix[0] == '/') by {
        if segs.len() > 0 {
            assert(slash_joined(segs)[0] == '/');
        } else {
            assert(after_prefix == trailing);
        }
    }
    assert(!is_prefix_of(prefix, after_prefix)) by {
        if is_prefix_of(prefix, after_prefix) {
            assert(after_prefix.take(prefix.len() as int)[0] == after_prefix[0]);
        }
    }
    assert(strip_front_pattern(after_prefix, prefix) == after_prefix);
    assert(strip_front_pattern(after_slash, prefix) == strip_front_pattern(after_prefix, prefix));
    assert(webhook_relative_path(path) == strip_front_char(after_prefix, '/'));
    lemma_segments_ignore_leading_slashes(after_prefix);
    lemma_segments_of_joined(seq![], segs, trailing);
    assert(piece(seq![]) + segs == segs);
}

} // verus!
