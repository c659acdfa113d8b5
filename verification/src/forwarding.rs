//! What becomes of the headers and of the target of a request on its way through the proxy.

use vstd::prelude::*;
use vstd::string::*;
use vstd::utf8::*;

use crate::headers;
use crate::headers::HeaderField;
use crate::text;
use crate::uri;
use crate::uri::{Uri, UriError};

verus! {

/// The headers that concern one connection only, in lower case.
pub open spec fn hop_by_hop_names() -> Seq<Seq<char>> {
    seq![
        "connection"@,
        "proxy-connection"@,
        "keep-alive"@,
        "te"@,
        "trailer"@,
        "transfer-encoding"@,
        "upgrade"@,
    ]
}

/// `name` is that of a hop-by-hop header, in upper or lower case.
pub open spec fn is_hop_by_hop(name: Seq<char>) -> bool {
    hop_by_hop_names().contains(text::lower(name))
}

/// The headers that concern one connection only.
pub fn hop_by_hop_headers() -> (r: Vec<&'static str>)
    ensures
        r@.map_values(|s: &'static str| s@) == hop_by_hop_names(),
{
    let r: Vec<&'static str> = vec![
        "connection",
        "proxy-connection",
        "keep-alive",
        "te",
        "trailer",
        "transfer-encoding",
        "upgrade",
    ];
    assert(r@.map_values(|s: &'static str| s@) =~= hop_by_hop_names());
    r
}

/// Whether `name` is that of a hop-by-hop header, in upper or lower case.
pub fn is_hop_by_hop_header(name: &str) -> (r: bool)
    ensures
        r == is_hop_by_hop(name@),
{
    let names = hop_by_hop_headers();
    let lowered = text::to_lower(name);
    let mut i: usize = 0;
    while i < names.len()
        invariant
            i <= names@.len(),
            lowered@ == text::lower(name@),
            names@.map_values(|s: &'static str| s@) == hop_by_hop_names(),
            forall|j: int| 0 <= j < i ==> hop_by_hop_names()[j] != lowered@,
        decreases names@.len() - i,
    {
        assert(hop_by_hop_names()[i as int] == names@[i as int]@);
        if text::same_text(names[i], lowered.as_str()) {
            return true;
        }
        i += 1;
    }
    false
}

/// The names of the hop-by-hop headers are names that a header map can have.
proof fn lemma_hop_by_hop_names()
    ensures
        forall|i: int|
            0 <= i < hop_by_hop_names().len() ==> headers::is_header_name(
                #[trigger] hop_by_hop_names()[i],
            ),
{
    reveal_strlit("connection");
    reveal_strlit("proxy-connection");
    reveal_strlit("keep-alive");
    reveal_strlit("te");
    reveal_strlit("trailer");
    reveal_strlit("transfer-encoding");
    reveal_strlit("upgrade");
}

/// Takes the hop-by-hop headers out and leaves the others as they are.
pub fn filter_hop_by_hop_headers(headers: &mut http::HeaderMap<http::HeaderValue>)
    ensures
        headers::contents(*final(headers)) == headers::without(
            headers::contents(*old(headers)),
            |n: Seq<char>| hop_by_hop_names().contains(n),
        ),
{
    let names = hop_by_hop_headers();
    let ghost before = headers::contents(*headers);
    let ghost all = hop_by_hop_names();
    let mut i: usize = 0;
    assert(headers::without(before, |n: Seq<char>| all.take(0).contains(n)) =~= before);
    while i < names.len()
        invariant
            i <= names@.len(),
            all == hop_by_hop_names(),
            names@.map_values(|s: &'static str| s@) == all,
            headers::contents(*headers) == headers::without(
                before,
                |n: Seq<char>| all.take(i as int).contains(n),
            ),
        decreases names@.len() - i,
    {
        proof {
            lemma_hop_by_hop_names();
            assert(all[i as int] == names@[i as int]@);
        }
        headers::remove_name(headers, names[i]);
        proof {
            assert(all.take(i + 1) =~= all.take(i as int).push(all[i as int]));
            assert(headers::contents(*headers) =~= headers::without(
                before,
                |n: Seq<char>| all.take(i + 1).contains(n),
            )) by {
                let taken = all.take(i as int);
                assert forall|n: Seq<char>| #[trigger]
                    all.take(i + 1).contains(n) <==> taken.contains(n) || n == all[i as int] by {
                    if taken.contains(n) {
                        let j = taken.index_of(n);
                        assert(all.take(i + 1)[j] == n);
                    }
                    if n == all[i as int] {
                        assert(all.take(i + 1)[i as int] == n);
                    }
                }
            }
        }
        i += 1;
    }
    assert(all.take(all.len() as int) =~= all);
}

/// The headers with `host` as the host, if it can be the value of a header.
pub open spec fn with_host(m: headers::Headers, host: Seq<char>) -> headers::Headers {
    if headers::is_header_value(encode_utf8(host)) {
        m.insert("host"@, seq![(encode_utf8(host), false)])
    } else {
        m
    }
}

/// Makes `host` the host; one that cannot be the value of a header changes nothing.
pub fn set_host_header(headers: &mut http::HeaderMap<http::HeaderValue>, host: &str)
    requires
        headers::fits(headers::contents(*old(headers)), 0),
    ensures
        headers::contents(*final(headers)) == with_host(
            headers::contents(*old(headers)),
            host@,
        ),
{
    if let Some(bytes) = headers::value_from_text(host) {
        proof {
            reveal_strlit("host");
        }
        headers::insert_field(
            headers,
            &HeaderField { name: "host".to_owned(), bytes, sensitive: false },
        );
    }
}

/// The headers that pass through the proxy.
pub open spec fn end_to_end(m: headers::Headers) -> headers::Headers {
    headers::without(m, |n: Seq<char>| is_hop_by_hop(n))
}

/// The headers with "unknown" as the origin of the request, if they tell none.
pub open spec fn with_origin(m: headers::Headers) -> headers::Headers {
    if m.contains_key("x-forwarded-for"@) {
        m
    } else {
        m.insert("x-forwarded-for"@, seq![(encode_utf8("unknown"@), false)])
    }
}

/// Adds the headers of a request, but for the hop-by-hop ones, makes `upstream_host` the host, and
/// puts in where the request came from, if that is not told.
pub fn forward_request_headers(
    src: &http::HeaderMap<http::HeaderValue>,
    dst: &mut http::HeaderMap<http::HeaderValue>,
    upstream_host: &str,
)
    requires
        headers::fit_together(headers::contents(*old(dst)), headers::contents(*src), 1),
    ensures
        headers::contents(*final(dst)) == with_origin(
            with_host(
                headers::merged(
                    headers::contents(*old(dst)),
                    end_to_end(headers::contents(*src)),
                ),
                upstream_host@,
            ),
        ),
{
    forward_response_headers(src, dst);
    let ghost passed = headers::contents(*dst);
    proof {
        headers::lemma_without_fits(
            headers::contents(*old(dst)),
            headers::contents(*src),
            |n: Seq<char>| is_hop_by_hop(n),
            1,
        );
        headers::lemma_merged_fits(
            headers::contents(*old(dst)),
            end_to_end(headers::contents(*src)),
            1,
        );
    }
    set_host_header(dst, upstream_host);
    proof {
        reveal_strlit("x-forwarded-for");
        reveal_strlit("unknown");
        headers::lemma_visible_is_value("unknown"@);
    }
    if !headers::has_name(dst, "x-forwarded-for") {
        headers::insert_field(
            dst,
            &HeaderField {
                name: "x-forwarded-for".to_owned(),
                bytes: text::bytes_of("unknown"),
                sensitive: false,
            },
        );
    }
}

/// Adds the headers of a response, but for the hop-by-hop ones. An empty map comes to hold what
/// filtering leaves of the headers.
pub fn forward_response_headers(
    src: &http::HeaderMap<http::HeaderValue>,
    dst: &mut http::HeaderMap<http::HeaderValue>,
)
    requires
        headers::fit_together(headers::contents(*old(dst)), headers::contents(*src), 0),
    ensures
        headers::contents(*final(dst)) == headers::merged(
            headers::contents(*old(dst)),
            end_to_end(headers::contents(*src)),
        ),
        headers::contents(*old(dst)) == headers::no_headers() ==> headers::contents(*final(dst))
            == headers::without(
            headers::contents(*src),
            |n: Seq<char>| hop_by_hop_names().contains(n),
        ),
{
    let skip = |name: &str| -> (b: bool)
        ensures
            b == is_hop_by_hop(name@),
    {
        is_hop_by_hop_header(name)
    };
    let fields = headers::fields_of(src);
    proof {
        headers::lemma_grouped_lower_case(fields@);
        law_filter_leaves_what_passes(headers::contents(*src));
        headers::lemma_merged_with_none(end_to_end(headers::contents(*src)));
    }
    let kept = headers::kept_fields(fields, skip, Ghost(|n: Seq<char>| is_hop_by_hop(n)));
    proof {
        headers::lemma_without_fits(
            headers::contents(*old(dst)),
            headers::contents(*src),
            |n: Seq<char>| is_hop_by_hop(n),
            0,
        );
    }
    headers::append_all(dst, &kept);
}

/// A path and a query: what stands before the first question mark and, where there is one, what
/// stands behind it.
pub fn split_path_and_query(path_and_query: &str) -> (r: (String, Option<String>))
    ensures
        r.0@ == text::before(path_and_query@, '?'),
        text::opt_view(r.1) == text::after(path_and_query@, '?'),
{
    let cs = text::chars_of(path_and_query);
    let mut i: usize = 0;
    proof {
        text::lemma_before(path_and_query@, '?');
    }
    while i < cs.len() && cs[i] != '?'
        invariant
            i <= cs@.len(),
            cs@ == path_and_query@,
            i <= text::before(cs@, '?').len() <= cs@.len(),
            text::before(cs@, '?') == cs@.take(text::before(cs@, '?').len() as int),
            forall|j: int| 0 <= j < text::before(cs@, '?').len() ==> cs@[j] != '?',
            text::before(cs@, '?').len() < cs@.len() ==> cs@[text::before(cs@, '?').len() as int]
                == '?',
        decreases cs@.len() - i,
    {
        i += 1;
    }
    let path = text::text_between(&cs, 0, i);
    assert(path@ =~= text::before(cs@, '?'));
    if i < cs.len() {
        let query = text::text_between(&cs, i + 1, cs.len());
        assert(query@ =~= cs@.skip(i + 1));
        (path, Some(query))
    } else {
        (path, None)
    }
}

/// A path joined to that of a base, where an empty base path stands for the root.
pub open spec fn joined_paths(base_path: Seq<char>, path_part: Seq<char>) -> Seq<char> {
    let base = if base_path.len() == 0 {
        "/"@
    } else {
        base_path
    };
    if path_part.len() == 0 {
        base
    } else {
        text::slash_joined(base, path_part)
    }
}

/// A path joined to that of a base with one slash between them.
pub fn join_paths(base_path: &str, path_part: &str) -> (r: String)
    ensures
        r@ == joined_paths(base_path@, path_part@),
{
    let base = if base_path.is_empty() {
        "/"
    } else {
        base_path
    };
    if path_part.is_empty() {
        base.to_owned()
    } else {
        text::join_slash(base, path_part)
    }
}

/// The target of a request, with the path of a base before its own.
pub open spec fn target_under(base_path: Seq<char>, path_and_query: Seq<char>) -> Seq<char> {
    let path = joined_paths(base_path, text::before(path_and_query, '?'));
    match text::after(path_and_query, '?') {
        Some(query) => path + "?"@ + query,
        None => path,
    }
}

/// The target of a request, with the path of a base before its own.
pub fn join_target(base_path: &str, path_and_query: &str) -> (r: String)
    ensures
        r@ == target_under(base_path@, path_and_query@),
{
    let (path_part, query_part) = split_path_and_query(path_and_query);
    let mut r = join_paths(base_path, path_part.as_str());
    if let Some(query) = query_part {
        r.append("?");
        r.append(query.as_str());
    }
    r
}

/// The URI under a base, or the error in its place.
pub open spec fn uri_under(
    base: uri::UriView,
    path_and_query: Seq<char>,
) -> Result<uri::UriView, Seq<char>> {
    uri::uri_build(
        base.scheme,
        base.authority_text(),
        target_under(base.path, path_and_query),
    )
}

/// A URI, or the message of the error in its place.
pub open spec fn url_outcome(r: Result<Uri, UriError>) -> Result<uri::UriView, Seq<char>> {
    match r {
        Ok(u) => Ok(u@),
        Err(e) => Err(e.message@),
    }
}

/// The URI that has the scheme and the authority of `base` and, behind the path of `base`, the
/// path and the query given.
pub fn extend_uri(base: &Uri, path_and_query: &str) -> (r: Result<Uri, UriError>)
    ensures
        url_outcome(r) == uri_under(base@, path_and_query@),
        (base@.scheme is Some) != (base@.authority is Some) ==> r is Err,
        uri::are_plain_parts(
            base@.scheme,
            base@.authority_text(),
            target_under(base@.path, path_and_query@),
        ) ==> r is Ok,
        r matches Ok(u) ==> uri::has_parts(
            u@,
            base@.scheme,
            base@.authority_text(),
            target_under(base@.path, path_and_query@),
        ),
{
    let target = join_target(base.path.as_str(), path_and_query);
    let scheme = match &base.scheme {
        Some(scheme) => Some(scheme.as_str()),
        None => None,
    };
    let authority = match &base.authority {
        Some(authority) => Some(authority.text.as_str()),
        None => None,
    };
    match uri::build_uri(scheme, authority, target.as_str()) {
        Ok(u) => Ok(u),
        Err(message) => Err(UriError { message }),
    }
}

/// The text of an `https` URL under a base that is written as one: what the base has before its
/// path, then the joined path and the query, without a fragment.
pub open spec fn https_url(base: Seq<char>, path_and_query: Seq<char>) -> Seq<char> {
    let rest = base.skip("https://"@.len() as int);
    let authority = rest.take(uri::authority_end(rest));
    let base_path = uri::path_of(rest.skip(uri::authority_end(rest)));
    "https://"@ + authority + text::before(target_under(base_path, path_and_query), '#')
}

/// A base and a path and query in plain characters, together no longer than a URI may be.
pub open spec fn are_plain(base: Seq<char>, path_and_query: Seq<char>) -> bool {
    &&& uri::is_plain_https(base)
    &&& uri::is_plain(path_and_query)
    &&& base.len() + path_and_query.len() <= uri::URI_LIMIT
}

/// The URL under the base `base` for a path and a query: it has the scheme and the authority of
/// the base, the path of the base with the path given behind it, and the query given.
pub fn build_upstream_url(base: &str, path_and_query: &str) -> (r: Result<Uri, UriError>)
    ensures
        url_outcome(r) == match uri::uri_parse(base@) {
            Ok(u) => uri_under(u, path_and_query@),
            Err(message) => Err(message),
        },
        r matches Ok(u) ==> ("https://"@.is_prefix_of(base@) ==> u@.text() == https_url(
            base@,
            path_and_query@,
        )),
        uri::uri_parse(base@) matches Ok(b) ==> ((b.scheme is Some) != (b.authority is Some)
            ==> r is Err),
        are_plain(base@, path_and_query@) ==> r is Ok,
        r matches Ok(u) ==> {
            let b = uri::uri_parse(base@)->Ok_0;
            &&& uri::uri_parse(base@) is Ok
            &&& uri::has_parts(
                u@,
                b.scheme,
                b.authority_text(),
                target_under(b.path, path_and_query@),
            )
            &&& b.scheme is Some && !path_and_query@.contains('#') ==> {
                &&& u@.path == joined_paths(b.path, text::before(path_and_query@, '?'))
                &&& u@.query == text::after(path_and_query@, '?')
            }
        },
{
    match uri::parse_uri(base) {
        Ok(base_uri) => {
            let r = extend_uri(&base_uri, path_and_query);
            proof {
                if are_plain(base@, path_and_query@) {
                    uri::lemma_plain_parts(base@, base_uri@);
                    lemma_plain_target(base_uri@.path, path_and_query@);
                }
                if r is Ok && base_uri@.scheme is Some && !path_and_query@.contains('#') {
                    lemma_joined_target(base_uri@.path, path_and_query@);
                }
                if r is Ok && "https://"@.is_prefix_of(base@) {
                    lemma_https_url(base@, base_uri@, path_and_query@, r->Ok_0@);
                }
            }
            r
        },
        Err(message) => Err(UriError { message }),
    }
}

/// Whatever is joined to a path that begins with a slash begins with one too.
proof fn lemma_target_starts_with_slash(base_path: Seq<char>, path_and_query: Seq<char>)
    requires
        text::starts_with_slash(base_path),
    ensures
        text::starts_with_slash(target_under(base_path, path_and_query)),
{
    text::lemma_trim_end_slashes(base_path);
    let trimmed = text::trim_end_slashes(base_path);
    if trimmed.len() > 0 {
        assert(trimmed[0] == base_path.subrange(0, trimmed.len() as int)[0]);
    }
}

/// The target under a base is read as the joined path and the query: nothing in either ends them
/// early.
proof fn lemma_joined_target(base_path: Seq<char>, path_and_query: Seq<char>)
    requires
        text::starts_with_slash(base_path),
        forall|i: int|
            0 <= i < base_path.len() ==> #[trigger] base_path[i] != '?' && base_path[i] != '#',
        !path_and_query.contains('#'),
    ensures
        text::starts_with_slash(target_under(base_path, path_and_query)),
        uri::path_of(target_under(base_path, path_and_query)) == joined_paths(
            base_path,
            text::before(path_and_query, '?'),
        ),
        uri::query_of(target_under(base_path, path_and_query)) == text::after(path_and_query, '?'),
{
    reveal_strlit("/");
    reveal_strlit("?");
    lemma_target_starts_with_slash(base_path, path_and_query);
    let path = text::before(path_and_query, '?');
    let query = text::after(path_and_query, '?');
    let joined = joined_paths(base_path, path);
    let target = target_under(base_path, path_and_query);
    text::lemma_before(path_and_query, '?');
    text::lemma_trim_end_slashes(base_path);
    let trimmed = text::trim_end_slashes(base_path);
    assert(trimmed =~= base_path.take(trimmed.len() as int));
    assert forall|i: int| 0 <= i < path_and_query.len() implies #[trigger] path_and_query[i]
        != '#' by {
        assert(path_and_query.contains(path_and_query[i]));
    }
    assert forall|i: int| 0 <= i < joined.len() implies #[trigger] joined[i] != '?' && joined[i]
        != '#' by {
        if path.len() > 0 {
            let k = joined.len() - path.len();
            if i >= k {
                assert(joined[i] == path[i - k]);
                assert(path[i - k] == path_and_query[i - k]);
            } else if i < trimmed.len() {
                assert(trimmed[i] == base_path[i]);
                assert(joined[i] == base_path[i]);
            } else if i < base_path.len() {
                assert(joined[i] == base_path[i]);
            } else {
                assert(joined[i] == '/');
            }
        }
    }
    assert forall|i: int| 0 <= i < target.len() implies #[trigger] target[i] != '#' by {
        if i < joined.len() {
            assert(target[i] == joined[i]);
        } else if i > joined.len() {
            let j = i - joined.len() - 1;
            assert(target[i] == query->Some_0[j]);
            assert(query->Some_0[j] == path_and_query[path.len() + 1 + j]);
        }
    }
    text::lemma_before(target, '#');
    assert(text::before(target, '#') =~= target);
    text::lemma_before(target, '?');
    let cut = text::before(target, '?');
    if cut.len() < joined.len() {
        assert(target[cut.len() as int] == joined[cut.len() as int]);
    }
    if query is Some {
        assert(target[joined.len() as int] == '?');
        assert(cut.len() == joined.len());
        assert(target.skip(joined.len() as int + 1) =~= query->Some_0);
    } else {
        assert(target =~= joined);
    }
    assert(cut =~= joined);
}

/// The target under a plain base for a plain path and query is plain, and longer than the two by a
/// slash at most.
pub proof fn lemma_plain_target(base_path: Seq<char>, path_and_query: Seq<char>)
    requires
        text::starts_with_slash(base_path),
        uri::is_plain(base_path),
        uri::is_plain(path_and_query),
    ensures
        text::starts_with_slash(target_under(base_path, path_and_query)),
        uri::is_plain(target_under(base_path, path_and_query)),
        target_under(base_path, path_and_query).len() <= base_path.len() + 1
            + path_and_query.len(),
{
    reveal_strlit("/");
    reveal_strlit("?");
    lemma_target_starts_with_slash(base_path, path_and_query);
    let path = text::before(path_and_query, '?');
    let query = text::after(path_and_query, '?');
    let joined = joined_paths(base_path, path);
    let target = target_under(base_path, path_and_query);
    text::lemma_before(path_and_query, '?');
    text::lemma_trim_end_slashes(base_path);
    let trimmed = text::trim_end_slashes(base_path);
    assert(trimmed =~= base_path.take(trimmed.len() as int));
    assert forall|i: int| 0 <= i < joined.len() implies uri::is_target_char(
        #[trigger] joined[i],
    ) by {
        let k = joined.len() - path.len();
        if path.len() > 0 && i >= k {
            assert(joined[i] == path[i - k]);
            assert(path[i - k] == path_and_query[i - k]);
        } else if i < trimmed.len() {
            assert(trimmed[i] == base_path[i]);
            assert(joined[i] == base_path[i]);
        } else if i < base_path.len() {
            assert(joined[i] == base_path[i]);
        } else {
            assert(joined[i] == '/');
        }
    }
    assert forall|i: int| 0 <= i < target.len() implies uri::is_target_char(
        #[trigger] target[i],
    ) by {
        if i < joined.len() {
            assert(target[i] == joined[i]);
        } else if i > joined.len() {
            let j = i - joined.len() - 1;
            assert(target[i] == query->Some_0[j]);
            assert(query->Some_0[j] == path_and_query[path.len() + 1 + j]);
        }
    }
}

/// A path joined to the root stays as it is.
pub proof fn lemma_target_under_root(path_and_query: Seq<char>)
    requires
        text::starts_with_slash(path_and_query),
    ensures
        target_under("/"@, path_and_query) == path_and_query,
{
    reveal_strlit("/");
    reveal_strlit("?");
    let path = text::before(path_and_query, '?');
    text::lemma_before(path_and_query, '?');
    assert(path.len() > 0);
    assert(text::starts_with_slash(path));
    assert("/"@.drop_last() =~= Seq::empty());
    reveal_with_fuel(text::trim_end_slashes, 2);
    assert(joined_paths("/"@, path) =~= path);
    assert(target_under("/"@, path_and_query) =~= path_and_query);
}

/// The text of a URI that has the parts of a base that is written as an `https` URL.
pub proof fn lemma_https_url(
    base: Seq<char>,
    base_uri: uri::UriView,
    path_and_query: Seq<char>,
    u: uri::UriView,
)
    requires
        uri::spells_https(base, base_uri),
        uri::has_parts(
            u,
            base_uri.scheme,
            base_uri.authority_text(),
            target_under(base_uri.path, path_and_query),
        ),
    ensures
        u.text() == https_url(base, path_and_query),
{
    let rest = base.skip("https://"@.len() as int);
    let end = uri::authority_end(rest);
    uri::lemma_authority_end(rest);
    uri::lemma_path_starts_with_slash(rest.skip(end));
    let target = target_under(base_uri.path, path_and_query);
    lemma_target_starts_with_slash(base_uri.path, path_and_query);
    uri::lemma_target_parts(target);
    reveal_strlit("https://");
    reveal_strlit("https");
    reveal_strlit("://");
    assert("https://"@ =~= "https"@ + "://"@);
    assert(u.text() =~= https_url(base, path_and_query));
}

/// Whether a header is a hop-by-hop one does not depend on the case of its name.
pub proof fn law_case_does_not_matter(a: Seq<char>, b: Seq<char>)
    requires
        text::lower(a) == text::lower(b),
    ensures
        is_hop_by_hop(a) == is_hop_by_hop(b),
        is_hop_by_hop(text::lower(a)) == is_hop_by_hop(a),
{
    text::lemma_lower_twice(a);
}

/// The headers with which `forward_request_headers` fills an empty map.
pub open spec fn forwarded(m: headers::Headers, host: Seq<char>) -> headers::Headers {
    with_origin(with_host(end_to_end(m), host))
}

/// What `forward_request_headers` makes of an empty map.
pub proof fn law_forwarded_into_empty(m: headers::Headers, host: Seq<char>)
    ensures
        with_origin(with_host(headers::merged(headers::no_headers(), end_to_end(m)), host))
            == forwarded(m, host),
{
    headers::lemma_merged_with_none(end_to_end(m));
}

/// A name that forwarding sets is no hop-by-hop one.
proof fn lemma_set_name_passes(name: Seq<char>)
    requires
        name == "host"@ || name == "x-forwarded-for"@,
    ensures
        !is_hop_by_hop(name),
{
    reveal_strlit("host");
    reveal_strlit("x-forwarded-for");
    reveal_strlit("connection");
    reveal_strlit("proxy-connection");
    reveal_strlit("keep-alive");
    reveal_strlit("te");
    reveal_strlit("trailer");
    reveal_strlit("transfer-encoding");
    reveal_strlit("upgrade");
    let lowered = text::lower(name);
    assert(lowered.len() == name.len());
    assert(lowered[0] == name[0]);
    assert forall|i: int| 0 <= i < hop_by_hop_names().len() implies hop_by_hop_names()[i]
        != lowered by {
        assert(hop_by_hop_names()[i].len() != lowered.len() || hop_by_hop_names()[i][0]
            != lowered[0]);
    }
}

/// No hop-by-hop header passes, in a request or in a response.
pub proof fn law_hop_by_hop_headers_stay_behind(
    m: headers::Headers,
    host: Seq<char>,
    name: Seq<char>,
)
    requires
        is_hop_by_hop(name),
    ensures
        !forwarded(m, host).contains_key(name),
        !end_to_end(m).contains_key(name),
{
    if name == "host"@ || name == "x-forwarded-for"@ {
        lemma_set_name_passes(name);
    }
}

/// Every other header passes with its values as they are, and no header comes in but the host and
/// the origin of a request.
pub proof fn law_other_headers_pass(m: headers::Headers, host: Seq<char>, name: Seq<char>)
    requires
        !is_hop_by_hop(name),
    ensures
        end_to_end(m).contains_key(name) <==> m.contains_key(name),
        m.contains_key(name) ==> end_to_end(m)[name] == m[name],
        name != "host"@ && name != "x-forwarded-for"@ ==> {
            &&& forwarded(m, host).contains_key(name) <==> m.contains_key(name)
            &&& m.contains_key(name) ==> forwarded(m, host)[name] == m[name]
        },
{
}

/// A request that is forwarded names the upstream as its one host, and tells one or more origins:
/// those that it told, or "unknown".
pub proof fn law_host_and_origin(m: headers::Headers, host: Seq<char>)
    requires
        headers::is_header_value(encode_utf8(host)),
    ensures
        headers::values_of(forwarded(m, host), "host"@) == seq![(encode_utf8(host), false)],
        headers::values_of(forwarded(m, host), "x-forwarded-for"@) == (if m.contains_key(
            "x-forwarded-for"@,
        ) {
            m["x-forwarded-for"@]
        } else {
            seq![(encode_utf8("unknown"@), false)]
        }),
{
    lemma_set_name_passes("x-forwarded-for"@);
    reveal_strlit("host");
    reveal_strlit("x-forwarded-for");
    assert("host"@.len() != "x-forwarded-for"@.len());
}

/// Filtering a map leaves what would pass through the proxy, and filtering it again changes
/// nothing.
pub proof fn law_filter_leaves_what_passes(m: headers::Headers)
    requires
        forall|n: Seq<char>| #[trigger] m.contains_key(n) ==> text::lower(n) == n,
    ensures
        headers::without(m, |n: Seq<char>| hop_by_hop_names().contains(n)) == end_to_end(m),
        headers::without(end_to_end(m), |n: Seq<char>| hop_by_hop_names().contains(n))
            == end_to_end(m),
{
    assert(headers::without(m, |n: Seq<char>| hop_by_hop_names().contains(n)) =~= end_to_end(m));
    assert(headers::without(end_to_end(m), |n: Seq<char>| hop_by_hop_names().contains(n))
        =~= end_to_end(m));
}

/// The hop-by-hop headers are these seven, in upper or lower case, and no other.
pub proof fn law_seven_hop_by_hop_headers(name: Seq<char>)
    ensures
        is_hop_by_hop(name) <==> {
            let lowered = text::lower(name);
            ||| lowered == "connection"@
            ||| lowered == "proxy-connection"@
            ||| lowered == "keep-alive"@
            ||| lowered == "te"@
            ||| lowered == "trailer"@
            ||| lowered == "transfer-encoding"@
            ||| lowered == "upgrade"@
        },
        hop_by_hop_names().contains(name) <==> {
            ||| name == "connection"@
            ||| name == "proxy-connection"@
            ||| name == "keep-alive"@
            ||| name == "te"@
            ||| name == "trailer"@
            ||| name == "transfer-encoding"@
            ||| name == "upgrade"@
        },
{
    let names = hop_by_hop_names();
    assert(names[0] == "connection"@ && names[1] == "proxy-connection"@ && names[2]
        == "keep-alive"@ && names[3] == "te"@ && names[4] == "trailer"@ && names[5]
        == "transfer-encoding"@ && names[6] == "upgrade"@);
}

/// The path given is all there behind the path of the base: a join ends with it, and begins with
/// the base path but for slashes at the end of that. A path from the root behind a base path
/// without a slash at its end gives the two, one behind the other; an empty base path is the root,
/// and an empty path adds nothing.
pub proof fn law_joined_paths(base: Seq<char>, path: Seq<char>)
    ensures
        path.is_suffix_of(joined_paths(base, path)),
        base.len() > 0 && base.last() != '/' ==> base.is_prefix_of(joined_paths(base, path)),
        path.len() == 0 && base.len() > 0 ==> joined_paths(base, path) == base,
        path.len() == 0 && base.len() == 0 ==> joined_paths(base, path) == seq!['/'],
        path.len() > 0 && path[0] == '/' && base.len() > 0 && base.last() != '/' ==> joined_paths(
            base,
            path,
        ) == base + path,
        path.len() > 0 && path[0] != '/' && base.len() > 0 && base.last() != '/' ==> joined_paths(
            base,
            path,
        ) == base + seq!['/'] + path,
        path.len() > 0 && path[0] != '/' && base.len() > 0 && base.last() == '/' ==> joined_paths(
            base,
            path,
        ) == base + path,
        path.len() > 0 && path[0] == '/' && base.len() > 0 && base.last() == '/' ==> exists|n: int|
            0 <= n < base.len() && joined_paths(base, path) == #[trigger] base.take(n) + path && (n
                == 0 || base[n - 1] != '/') && forall|i: int|
                n <= i < base.len() ==> #[trigger] base[i] == '/',
        path.len() > 0 && path[0] == '/' && base.len() == 0 ==> joined_paths(base, path) == path,
        path.len() > 0 && path[0] != '/' && base.len() == 0 ==> joined_paths(base, path) == seq![
            '/',
        ] + path,
{
    reveal_strlit("/");
    assert("/"@ =~= seq!['/']);
    let joined = joined_paths(base, path);
    if path.len() == 0 {
        assert(path =~= joined.subrange(joined.len() as int, joined.len() as int));
        if base.len() > 0 {
            assert(base =~= joined.subrange(0, base.len() as int));
        }
    } else if base.len() > 0 {
        text::law_slash_join(base, path);
    } else {
        text::law_slash_join("/"@, path);
        if path[0] == '/' {
            assert("/"@.take(0) + path =~= path);
        }
    }
}

/// The target under a base is the joined path, and behind a question mark the query as it was
/// given.
pub proof fn law_target(base: Seq<char>, path: Seq<char>, query: Seq<char>)
    requires
        !path.contains('?'),
    ensures
        target_under(base, path) == joined_paths(base, path),
        target_under(base, path + "?"@ + query) == joined_paths(base, path) + "?"@ + query,
{
    reveal_strlit("?");
    text::law_before_and_after(path, '?');
    let whole = path + "?"@ + query;
    text::lemma_before(whole, '?');
    let cut = text::before(whole, '?');
    assert(whole[path.len() as int] == '?');
    assert(cut.len() == path.len()) by {
        if cut.len() < path.len() {
            assert(path[cut.len() as int] == whole[cut.len() as int]);
            assert(path.contains('?'));
        }
    }
    assert(cut =~= path);
    assert(whole.skip(path.len() as int + 1) =~= query);
}

/// A request for a path from the root goes to the URL of its upstream with the path, and the query,
/// behind it: whatever the upstream has for a path stands before the path that was asked for, with
/// one slash between them.
pub proof fn law_url_of_a_request(
    authority: Seq<char>,
    base_path: Seq<char>,
    path: Seq<char>,
    query: Seq<char>,
)
    requires
        forall|i: int|
            0 <= i < authority.len() ==> #[trigger] authority[i] != '/' && authority[i] != '?'
                && authority[i] != '#',
        base_path.len() == 0 || base_path[0] == '/' && base_path.last() != '/',
        forall|i: int|
            0 <= i < base_path.len() ==> #[trigger] base_path[i] != '?' && base_path[i] != '#',
        path.len() > 0 && path[0] == '/',
        forall|i: int| 0 <= i < path.len() ==> #[trigger] path[i] != '?' && path[i] != '#',
        !query.contains('#'),
    ensures
        https_url("https://"@ + authority + base_path, path) == "https://"@ + authority + base_path
            + path,
        https_url("https://"@ + authority + base_path, path + "?"@ + query) == "https://"@
            + authority + base_path + path + "?"@ + query,
{
    reveal_strlit("https://");
    reveal_strlit("/");
    reveal_strlit("?");
    let base = "https://"@ + authority + base_path;
    let rest = base.skip(8);
    assert(rest =~= authority + base_path);
    uri::lemma_authority_ends_at(authority, base_path);
    assert(rest.take(authority.len() as int) =~= authority);
    assert(rest.skip(authority.len() as int) =~= base_path);
    text::law_before_and_after(base_path, '#');
    text::law_before_and_after(base_path, '?');
    assert(!base_path.contains('#') && !base_path.contains('?'));
    let read_path = uri::path_of(base_path);
    assert(!path.contains('?') && !path.contains('#'));
    law_joined_paths(read_path, path);
    law_target(read_path, path, query);
    assert(base_path.len() == 0 ==> read_path == "/"@);
    let joined = joined_paths(read_path, path);
    if base_path.len() == 0 {
        assert("/"@.last() == '/');
        let n = choose|n: int|
            0 <= n < read_path.len() && joined == #[trigger] read_path.take(n) + path && (n == 0
                || read_path[n - 1] != '/') && forall|i: int|
                n <= i < read_path.len() ==> #[trigger] read_path[i] == '/';
        assert(n == 0);
        assert(joined =~= path);
    }
    assert(joined =~= base_path + path);
    text::law_before_and_after(joined, '#');
    assert(!joined.contains('#')) by {
        if joined.contains('#') {
            let j = joined.index_of('#');
            if j < base_path.len() {
                assert(joined[j] == base_path[j]);
            } else {
                assert(joined[j] == path[j - base_path.len()]);
            }
        }
    }
    let whole = joined + "?"@ + query;
    text::law_before_and_after(whole, '#');
    assert(!whole.contains('#')) by {
        if whole.contains('#') {
            let j = whole.index_of('#');
            if j < joined.len() {
                assert(whole[j] == joined[j]);
                assert(joined.contains('#'));
            } else if j > joined.len() {
                assert(whole[j] == query[j - joined.len() - 1]);
                assert(query.contains('#'));
            }
        }
    }
    assert(https_url(base, path) =~= "https://"@ + authority + base_path + path);
    assert(https_url(base, path + "?"@ + query) =~= "https://"@ + authority + base_path + path
        + "?"@ + query);
}

/// What becomes of the URL is handed on as it is: the URI, or the words of the error.
pub proof fn law_url_outcome(r: Result<Uri, UriError>)
    ensures
        r matches Ok(u) ==> url_outcome(r) == Ok::<uri::UriView, Seq<char>>(u@),
        r matches Err(e) ==> url_outcome(r) == Err::<uri::UriView, Seq<char>>(e.message@),
{
}

/// A URL under a base is built of the scheme and the authority of the base and of the joined path.
pub proof fn law_url_under_a_base(base: uri::UriView, path: Seq<char>)
    requires
        !path.contains('?'),
    ensures
        uri_under(base, path) == uri::uri_build(
            base.scheme,
            (match base.authority {
                Some(a) => Some(a.text),
                None => None,
            }),
            joined_paths(base.path, path),
        ),
{
    law_target(base.path, path, Seq::empty());
}

/// A plain base and a plain path and query that are together no longer than 65534 characters.
pub proof fn law_are_plain(base: Seq<char>, path_and_query: Seq<char>)
    requires
        uri::is_plain_https(base),
        uri::is_plain(path_and_query),
        base.len() + path_and_query.len() <= 65_534,
    ensures
        are_plain(base, path_and_query),
{
}

/// Setting the host sets that header to the one value, if it can be one, and changes no other.
pub proof fn law_with_host(m: headers::Headers, host: Seq<char>, name: Seq<char>)
    ensures
        headers::is_header_value(encode_utf8(host)) ==> headers::values_of(
            with_host(m, host),
            "host"@,
        ) == seq![(encode_utf8(host), false)],
        !headers::is_header_value(encode_utf8(host)) ==> with_host(m, host) == m,
        name != "host"@ ==> headers::values_of(with_host(m, host), name) == headers::values_of(
            m,
            name,
        ),
        name != "host"@ ==> (with_host(m, host).contains_key(name) <==> m.contains_key(name)),
{
}

/// A request that tells its origins keeps them, and one that tells none is given the one origin
/// "unknown"; no other header changes.
pub proof fn law_with_origin(m: headers::Headers, name: Seq<char>)
    ensures
        m.contains_key("x-forwarded-for"@) ==> with_origin(m) == m,
        !m.contains_key("x-forwarded-for"@) ==> headers::values_of(
            with_origin(m),
            "x-forwarded-for"@,
        ) == seq![(encode_utf8("unknown"@), false)],
        name != "x-forwarded-for"@ ==> headers::values_of(with_origin(m), name)
            == headers::values_of(m, name),
        name != "x-forwarded-for"@ ==> (with_origin(m).contains_key(name) <==> m.contains_key(
            name,
        )),
{
}

/// Adding a request's headers to others puts the values of each name that passes behind those that
/// are there, and leaves the values of a hop-by-hop name as they are.
pub proof fn law_request_headers_added(
    dst: headers::Headers,
    src: headers::Headers,
    host: Seq<char>,
    name: Seq<char>,
)
    requires
        name != "host"@,
        name != "x-forwarded-for"@,
    ensures
        is_hop_by_hop(name) ==> headers::values_of(
            with_origin(with_host(headers::merged(dst, end_to_end(src)), host)),
            name,
        ) == headers::values_of(dst, name),
        !is_hop_by_hop(name) ==> headers::values_of(
            with_origin(with_host(headers::merged(dst, end_to_end(src)), host)),
            name,
        ) == headers::values_of(dst, name) + headers::values_of(src, name),
{
    let passed = headers::merged(dst, end_to_end(src));
    law_with_origin(with_host(passed, host), name);
    law_with_host(passed, host, name);
    assert(headers::values_of(passed, name) =~= headers::values_of(dst, name)
        + headers::values_of(end_to_end(src), name));
}

} // verus!
