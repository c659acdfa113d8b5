//! URIs in their parts. Reading and building one is the `http` crate's work; the two calls stand
//! at the end of this file.

use vstd::prelude::*;
use vstd::string::*;

use crate::text;

verus! {

/// The authority of a URI: as written, and the host and the port in it.
#[derive(Debug, Clone)]
pub struct Authority {
    pub text: String,
    pub host: String,
    pub port: Option<u16>,
}

/// A URI in its parts.
#[derive(Debug, Clone)]
pub struct Uri {
    pub scheme: Option<String>,
    pub authority: Option<Authority>,
    pub path: String,
    pub query: Option<String>,
}

/// Why a text is no URI, in words.
#[derive(Debug)]
pub struct UriError {
    pub message: String,
}

pub struct AuthorityView {
    pub text: Seq<char>,
    pub host: Seq<char>,
    pub port: Option<u16>,
}

pub struct UriView {
    pub scheme: Option<Seq<char>>,
    pub authority: Option<AuthorityView>,
    pub path: Seq<char>,
    pub query: Option<Seq<char>>,
}

impl View for Authority {
    type V = AuthorityView;

    open spec fn view(&self) -> AuthorityView {
        AuthorityView { text: self.text@, host: self.host@, port: self.port }
    }
}

impl View for Uri {
    type V = UriView;

    open spec fn view(&self) -> UriView {
        UriView {
            scheme: text::opt_view(self.scheme),
            authority: match self.authority {
                Some(a) => Some(a@),
                None => None,
            },
            path: self.path@,
            query: text::opt_view(self.query),
        }
    }
}

impl UriView {
    /// The authority as written, where there is one.
    pub open spec fn authority_text(self) -> Option<Seq<char>> {
        match self.authority {
            Some(a) => Some(a.text),
            None => None,
        }
    }

    /// The URI as text.
    pub open spec fn text(self) -> Seq<char> {
        let scheme = match self.scheme {
            Some(s) => s + "://"@,
            None => Seq::empty(),
        };
        let authority = match self.authority {
            Some(a) => a.text,
            None => Seq::empty(),
        };
        let query = match self.query {
            Some(q) => "?"@ + q,
            None => Seq::empty(),
        };
        scheme + authority + self.path + query
    }
}

/// The position of the first character that ends an authority, or the length.
pub open spec fn authority_end(s: Seq<char>) -> int
    decreases s.len(),
{
    if s.len() == 0 || s[0] == '/' || s[0] == '?' || s[0] == '#' {
        0
    } else {
        1 + authority_end(s.drop_first())
    }
}

/// The path of a request target, which is never empty.
pub open spec fn path_of(target: Seq<char>) -> Seq<char> {
    let path = text::before(text::before(target, '#'), '?');
    if path.len() == 0 {
        "/"@
    } else {
        path
    }
}

/// The query of a request target, where there is one.
pub open spec fn query_of(target: Seq<char>) -> Option<Seq<char>> {
    text::after(text::before(target, '#'), '?')
}

/// An authority ends within the text, before a character that can follow it.
pub proof fn lemma_authority_end(s: Seq<char>)
    ensures
        0 <= authority_end(s) <= s.len(),
        authority_end(s) < s.len() ==> {
            let c = s[authority_end(s)];
            c == '/' || c == '?' || c == '#'
        },
    decreases s.len(),
{
    if s.len() > 0 && s[0] != '/' && s[0] != '?' && s[0] != '#' {
        lemma_authority_end(s.drop_first());
    }
}

/// The path behind an authority begins with a slash.
pub proof fn lemma_path_starts_with_slash(target: Seq<char>)
    requires
        target.len() > 0 ==> target[0] == '/' || target[0] == '?' || target[0] == '#',
    ensures
        text::starts_with_slash(path_of(target)),
{
    reveal_strlit("/");
    text::lemma_before(target, '#');
    text::lemma_before(text::before(target, '#'), '?');
}

/// The path and the query of a target that begins with a slash are all of it but the fragment.
pub proof fn lemma_target_parts(target: Seq<char>)
    requires
        text::starts_with_slash(target),
    ensures
        text::before(target, '#') == path_of(target) + (match query_of(target) {
            Some(query) => "?"@ + query,
            None => Seq::empty(),
        }),
{
    reveal_strlit("?");
    let whole = text::before(target, '#');
    text::lemma_before(target, '#');
    text::lemma_before(whole, '?');
    assert(whole =~= path_of(target) + (match query_of(target) {
        Some(query) => "?"@ + query,
        None => Seq::empty(),
    }));
}

/// The URI is the one that `raw`, an absolute `https` URI, spells.
pub open spec fn spells_https(raw: Seq<char>, uri: UriView) -> bool {
    let rest = raw.skip("https://"@.len() as int);
    &&& uri.scheme == Some("https"@)
    &&& uri.authority_text() == Some(rest.take(authority_end(rest)))
    &&& uri.path == path_of(rest.skip(authority_end(rest)))
    &&& uri.query == query_of(rest.skip(authority_end(rest)))
}

/// The URI has these parts: the scheme, the authority as written, and the request target.
pub open spec fn has_parts(
    uri: UriView,
    scheme: Option<Seq<char>>,
    authority: Option<Seq<char>>,
    target: Seq<char>,
) -> bool {
    &&& uri.scheme == scheme
    &&& uri.authority_text() == authority
    &&& text::starts_with_slash(target) ==> {
        &&& uri.path == path_of(target)
        &&& uri.query == query_of(target)
    }
}

/// What stands behind the last `c` of `s`, or all of it.
pub open spec fn behind_last(s: Seq<char>, c: char) -> Seq<char>
    decreases s.len(),
{
    if s.len() == 0 || s.last() == c {
        Seq::empty()
    } else {
        behind_last(s.drop_last(), c).push(s.last())
    }
}

/// The host in an authority: what stands behind the user and before the port, an IPv6 address with
/// its square brackets.
pub open spec fn host_in(authority: Seq<char>) -> Seq<char> {
    let host_port = behind_last(authority, '@');
    if host_port.len() > 0 && host_port[0] == '[' {
        text::before(host_port, ']') + "]"@
    } else {
        text::before(host_port, ':')
    }
}

/// The port in an authority: the number behind its last colon, if that is one in range.
pub open spec fn port_in(authority: Seq<char>) -> Option<u16> {
    let digits = text::unsigned(behind_last(authority, ':'));
    if authority.contains(':') && text::all_digits(digits) && text::decimal_value(digits)
        <= u16::MAX {
        Some(text::decimal_value(digits) as u16)
    } else {
        None
    }
}

/// The parts of an authority that was read: the text holds printable ASCII characters without the
/// space, and the host and the port are those in it.
pub open spec fn is_read_authority(a: AuthorityView) -> bool {
    &&& forall|i: int| 0 <= i < a.text.len() ==> '!' <= #[trigger] a.text[i] <= '~'
    &&& a.host == host_in(a.text)
    &&& a.port == port_in(a.text)
}

/// What holds of a URI that was read from `raw`: `raw` is not blank, a path has neither a query nor
/// a fragment, and one with a scheme has an authority and a path from the root.
pub open spec fn is_read_from(raw: Seq<char>, uri: UriView) -> bool {
    &&& text::trimmed(raw).len() > 0
    &&& forall|i: int|
        0 <= i < uri.path.len() ==> #[trigger] uri.path[i] != '?' && uri.path[i] != '#'
    &&& uri.scheme is Some ==> uri.authority is Some && text::starts_with_slash(uri.path)
    &&& uri.authority matches Some(a) ==> is_read_authority(a)
}

/// The characters of a host name.
pub open spec fn is_host_char(c: char) -> bool {
    ||| 'a' <= c && c <= 'z'
    ||| 'A' <= c && c <= 'Z'
    ||| '0' <= c && c <= '9'
    ||| c == '-'
    ||| c == '.'
}

/// The characters of a host name, and the slash.
pub open spec fn is_path_char(c: char) -> bool {
    is_host_char(c) || c == '/'
}

/// The characters of a path, and those of a query in its plainest form.
pub open spec fn is_target_char(c: char) -> bool {
    is_path_char(c) || c == '_' || c == '?' || c == '=' || c == '&'
}

/// No URI is longer than this.
pub const URI_LIMIT: usize = 65_534;

/// `https://`, the name of a host and perhaps a path, no longer than a URI may be.
pub open spec fn is_plain_https(raw: Seq<char>) -> bool {
    &&& "https://"@.is_prefix_of(raw)
    &&& "https://"@.len() < raw.len() <= URI_LIMIT
    &&& is_host_char(raw["https://"@.len() as int])
    &&& forall|i: int| "https://"@.len() <= i < raw.len() ==> is_path_char(#[trigger] raw[i])
}

/// The name of a host.
pub open spec fn is_plain_authority(authority: Seq<char>) -> bool {
    &&& authority.len() > 0
    &&& forall|i: int| 0 <= i < authority.len() ==> is_host_char(#[trigger] authority[i])
}

/// A part of a target in plain characters.
pub open spec fn is_plain(s: Seq<char>) -> bool {
    forall|i: int| 0 <= i < s.len() ==> is_target_char(#[trigger] s[i])
}

/// A target from the root in plain characters, no longer than a URI may be.
pub open spec fn is_plain_target(target: Seq<char>) -> bool {
    text::starts_with_slash(target) && is_plain(target) && target.len() <= URI_LIMIT
}

/// The parts of a plain `https` URI.
pub open spec fn are_plain_parts(
    scheme: Option<Seq<char>>,
    authority: Option<Seq<char>>,
    target: Seq<char>,
) -> bool {
    &&& scheme == Some("https"@)
    &&& authority is Some
    &&& is_plain_authority(authority->Some_0)
    &&& is_plain_target(target)
}

/// The parts of a URI that a plain text spells are plain ones.
pub proof fn lemma_plain_parts(raw: Seq<char>, uri: UriView)
    requires
        is_plain_https(raw),
        spells_https(raw, uri),
    ensures
        uri.authority is Some,
        is_plain_authority(uri.authority->Some_0.text),
        text::starts_with_slash(uri.path),
        is_plain(uri.path),
        uri.path.len() < raw.len(),
{
    reveal_strlit("https://");
    reveal_strlit("/");
    let rest = raw.skip(8);
    let end = authority_end(rest);
    let tail = rest.skip(end);
    assert forall|i: int| 0 <= i < rest.len() implies is_path_char(#[trigger] rest[i]) by {
        assert(rest[i] == raw[i + 8]);
    }
    lemma_authority_end(rest);
    lemma_before_authority_end(rest);
    assert(rest[0] == raw[8]);
    let authority = rest.take(end);
    assert forall|i: int| 0 <= i < authority.len() implies is_host_char(
        #[trigger] authority[i],
    ) by {
        assert(authority[i] == rest[i]);
    }
    assert forall|i: int| 0 <= i < tail.len() implies is_path_char(#[trigger] tail[i]) by {
        assert(tail[i] == rest[i + end]);
    }
    text::lemma_before(tail, '#');
    assert(text::before(tail, '#') =~= tail);
    text::lemma_before(tail, '?');
    assert(text::before(tail, '?') =~= tail);
    lemma_path_starts_with_slash(tail);
}

/// An authority holds none of the characters that end one.
proof fn lemma_before_authority_end(s: Seq<char>)
    ensures
        forall|i: int|
            0 <= i < authority_end(s) ==> #[trigger] s[i] != '/' && s[i] != '?' && s[i] != '#',
        authority_end(s) == 0 ==> s.len() == 0 || s[0] == '/' || s[0] == '?' || s[0] == '#',
    decreases s.len(),
{
    if s.len() > 0 && s[0] != '/' && s[0] != '?' && s[0] != '#' {
        let tail = s.drop_first();
        lemma_before_authority_end(tail);
        lemma_authority_end(tail);
        assert forall|i: int| 0 <= i < authority_end(s) implies #[trigger] s[i] != '/' && s[i]
            != '?' && s[i] != '#' by {
            if i > 0 {
                assert(tail[i - 1] == s[i]);
            }
        }
    }
}

/// A URI, or the message of the error in its place.
pub open spec fn outcome(r: Result<Uri, String>) -> Result<UriView, Seq<char>> {
    match r {
        Ok(uri) => Ok(uri@),
        Err(message) => Err(message@),
    }
}

impl Uri {
    /// The URI as text.
    pub fn to_string(&self) -> (r: String)
        ensures
            r@ == self@.text(),
    {
        let mut r = String::new();
        if let Some(scheme) = &self.scheme {
            r.append(scheme.as_str());
            r.append("://");
        }
        if let Some(authority) = &self.authority {
            r.append(authority.text.as_str());
        }
        r.append(self.path.as_str());
        if let Some(query) = &self.query {
            r.append("?");
            r.append(query.as_str());
        }
        assert(r@ =~= self@.text());
        r
    }
}

/// What `Uri::from_str` makes of a text.
pub uninterp spec fn uri_parse(raw: Seq<char>) -> Result<UriView, Seq<char>>;

/// What `Uri::builder` makes of a scheme, an authority and a request target.
pub uninterp spec fn uri_build(
    scheme: Option<Seq<char>>,
    authority: Option<Seq<char>>,
    target: Seq<char>,
) -> Result<UriView, Seq<char>>;

/// `Uri::from_str` reads a URI or gives an error, here its message. A text that begins with
/// `https://` and is read has that scheme, and its authority ends at the first slash, question
/// mark or number sign; a fragment is left out. `https://` with the name of a host and a plain path
/// is always read, a blank text never. A path ends before the query, a scheme comes with an
/// authority and a path from the root, and an authority is printable ASCII, with its host and its
/// port in it.
#[verifier::external_body]
pub(crate) fn parse_uri(raw: &str) -> (r: Result<Uri, String>)
    ensures
        outcome(r) == uri_parse(raw@),
        r matches Ok(uri) ==> ("https://"@.is_prefix_of(raw@) ==> spells_https(raw@, uri@)),
        r matches Ok(uri) ==> is_read_from(raw@, uri@),
        is_plain_https(raw@) ==> r is Ok,
{
    let uri: http::Uri = raw.parse().map_err(|e: http::uri::InvalidUri| e.to_string())?;
    Ok(Uri {
        scheme: uri.scheme_str().map(String::from),
        authority: uri.authority().map(|a| Authority {
            text: String::from(a.as_str()),
            host: String::from(a.host()),
            port: a.port_u16(),
        }),
        path: String::from(uri.path()),
        query: uri.query().map(String::from),
    })
}

/// `Uri::builder` makes a URI of its parts or gives an error, here its message. What it makes has
/// the scheme and the authority that it was given and, of a target that begins with a slash, the
/// path and the query; a fragment is left out. It takes no scheme without an authority and no
/// authority without a scheme, and it takes every `https` URI of plain parts.
#[verifier::external_body]
pub(crate) fn build_uri(
    scheme: Option<&str>,
    authority: Option<&str>,
    target: &str,
) -> (r: Result<Uri, String>)
    ensures
        outcome(r) == uri_build(text::opt_str(scheme), text::opt_str(authority), target@),
        r matches Ok(uri) ==> has_parts(
            uri@,
            text::opt_str(scheme),
            text::opt_str(authority),
            target@,
        ),
        (scheme is Some) != (authority is Some) ==> r is Err,
        are_plain_parts(text::opt_str(scheme), text::opt_str(authority), target@) ==> r is Ok,
{
    let builder = http::Uri::builder();
    let builder = scheme.into_iter().fold(builder, |b, s| b.scheme(s));
    let builder = authority.into_iter().fold(builder, |b, a| b.authority(a));
    let uri = builder.path_and_query(target).build().map_err(|e| e.to_string())?;
    Ok(Uri {
        scheme: uri.scheme_str().map(String::from),
        authority: uri.authority().map(|a| Authority {
            text: String::from(a.as_str()),
            host: String::from(a.host()),
            port: a.port_u16(),
        }),
        path: String::from(uri.path()),
        query: uri.query().map(String::from),
    })
}

/// A URI as text is its parts with what stands between them, each once and in order.
pub proof fn law_uri_text(u: Uri)
    ensures
        u.scheme is Some && u.authority is Some && u.query is None ==> u@.text()
            == u.scheme->Some_0@ + "://"@ + u.authority->Some_0.text@ + u.path@,
        u.scheme is Some && u.authority is Some && u.query is Some ==> u@.text()
            == u.scheme->Some_0@ + "://"@ + u.authority->Some_0.text@ + u.path@ + "?"@
            + u.query->Some_0@,
        u.scheme is None && u.authority is None && u.query is None ==> u@.text() == u.path@,
        u.scheme is None && u.authority is None && u.query is Some ==> u@.text() == u.path@ + "?"@
            + u.query->Some_0@,
        u.scheme is None && u.authority is Some && u.query is None ==> u@.text()
            == u.authority->Some_0.text@ + u.path@,
{
    if u.scheme is Some && u.authority is Some && u.query is Some {
        assert(u@.text() =~= u.scheme->Some_0@ + "://"@ + u.authority->Some_0.text@ + u.path@ + "?"@
            + u.query->Some_0@);
    }
    if u.query is None {
        assert(u@.text() =~= (match u.scheme {
            Some(s) => s@ + "://"@,
            None => Seq::empty(),
        }) + (match u.authority {
            Some(a) => a.text@,
            None => Seq::empty(),
        }) + u.path@);
        assert(u.scheme is None && u.authority is None ==> u@.text() =~= u.path@);
        assert(u.scheme is None && u.authority is Some ==> u@.text() =~= u.authority->Some_0.text@
            + u.path@);
    }
    if u.scheme is None && u.authority is None && u.query is Some {
        assert(u@.text() =~= u.path@ + "?"@ + u.query->Some_0@);
    }
}

/// The outcome of reading is the URI that was read, or the message in its place.
pub proof fn law_outcome(r: Result<Uri, String>)
    ensures
        r matches Ok(u) ==> outcome(r) == Ok::<UriView, Seq<char>>(u@),
        r matches Err(message) ==> outcome(r) == Err::<UriView, Seq<char>>(message@),
        r matches Ok(u) ==> u@.path == u.path@,
        r matches Ok(u) ==> (u.scheme matches Some(s) ==> u@.scheme == Some(s@)),
        r matches Ok(u) ==> (u.scheme is None ==> u@.scheme is None),
        r matches Ok(u) ==> (u.query matches Some(q) ==> u@.query == Some(q@)),
        r matches Ok(u) ==> (u.query is None ==> u@.query is None),
        r matches Ok(u) ==> (u.authority is Some <==> u@.authority is Some),
        r matches Ok(u) ==> (u.authority matches Some(a) ==> u@.authority_text() == Some(a.text@)
            && u@.authority->Some_0.host == a.host@ && u@.authority->Some_0.port == a.port),
{
}

/// An authority ends where it does, whatever follows it.
pub proof fn lemma_authority_ends_at(a: Seq<char>, tail: Seq<char>)
    requires
        forall|i: int| 0 <= i < a.len() ==> #[trigger] a[i] != '/' && a[i] != '?' && a[i] != '#',
        tail.len() == 0 || tail[0] == '/' || tail[0] == '?' || tail[0] == '#',
    ensures
        authority_end(a + tail) == a.len(),
    decreases a.len(),
{
    if a.len() == 0 {
        assert(a + tail =~= tail);
    } else {
        assert((a + tail)[0] == a[0]);
        assert((a + tail).drop_first() =~= a.drop_first() + tail);
        assert forall|i: int| 0 <= i < a.drop_first().len() implies #[trigger] a.drop_first()[i]
            != '/' && a.drop_first()[i] != '?' && a.drop_first()[i] != '#' by {
            assert(a.drop_first()[i] == a[i + 1]);
        }
        lemma_authority_ends_at(a.drop_first(), tail);
    }
}

/// A URI that an `https` URL spells has what stands between `https://` and the first slash or
/// question mark for its authority, and is written as that URL is, but for a slash that a missing
/// path is given.
pub proof fn law_https_spelling(authority: Seq<char>, tail: Seq<char>, u: UriView)
    requires
        forall|i: int|
            0 <= i < authority.len() ==> #[trigger] authority[i] != '/' && authority[i] != '?'
                && authority[i] != '#',
        tail.len() == 0 || tail[0] == '/' || tail[0] == '?',
        !tail.contains('#'),
        spells_https("https://"@ + authority + tail, u),
    ensures
        u.scheme == Some("https"@),
        u.authority_text() == Some(authority),
        tail.len() > 0 && tail[0] == '/' ==> u.text() == "https://"@ + authority + tail,
        tail.len() == 0 || tail[0] == '?' ==> u.text() == "https://"@ + authority + "/"@ + tail,
{
    reveal_strlit("https://");
    reveal_strlit("https");
    reveal_strlit("://");
    reveal_strlit("/");
    reveal_strlit("?");
    let raw = "https://"@ + authority + tail;
    let rest = raw.skip(8);
    assert(rest =~= authority + tail);
    lemma_authority_ends_at(authority, tail);
    assert(rest.take(authority.len() as int) =~= authority);
    assert(rest.skip(authority.len() as int) =~= tail);
    assert("https://"@ =~= "https"@ + "://"@);
    text::law_before_and_after(tail, '#');
    text::law_before_and_after(tail, '?');
    text::lemma_before(tail, '?');
    let path = text::before(tail, '?');
    if tail.len() > 0 && tail[0] == '/' {
        assert(path.len() > 0);
        match text::after(tail, '?') {
            Some(q) => {
                assert(tail =~= path + "?"@ + q);
            },
            None => {},
        }
        assert(u.text() =~= "https://"@ + authority + tail);
    } else if tail.len() == 0 {
        assert(u.text() =~= "https://"@ + authority + "/"@ + tail);
    } else {
        assert(path.len() == 0);
        let q = text::after(tail, '?')->Some_0;
        assert(tail =~= "?"@ + q);
        assert(u.text() =~= "https://"@ + authority + "/"@ + tail);
    }
}

/// A URI that was built of a scheme, an authority and a target from the root without a fragment is
/// written as these, one behind the other.
pub proof fn law_built_text(
    u: UriView,
    scheme: Seq<char>,
    authority: Seq<char>,
    target: Seq<char>,
)
    requires
        has_parts(u, Some(scheme), Some(authority), target),
        target.len() > 0 && target[0] == '/',
        !target.contains('#'),
    ensures
        u.text() == scheme + "://"@ + authority + target,
{
    reveal_strlit("?");
    lemma_target_parts(target);
    text::law_before_and_after(target, '#');
    assert(u.text() =~= scheme + "://"@ + authority + target);
}

/// Behind the last `c` stands what follows it, or all where there is none.
proof fn lemma_behind_last(a: Seq<char>, b: Seq<char>, c: char)
    requires
        !b.contains(c),
    ensures
        behind_last(b, c) == b,
        behind_last(a + seq![c] + b, c) == b,
    decreases b.len(),
{
    if b.len() == 0 {
        assert((a + seq![c] + b).last() == c);
        assert(behind_last(b, c) =~= b);
        assert(behind_last(a + seq![c] + b, c) =~= b);
    } else {
        let front = b.drop_last();
        assert(b.contains(b.last()));
        assert(!front.contains(c)) by {
            if front.contains(c) {
                let j = front.index_of(c);
                assert(b[j] == c);
            }
        }
        lemma_behind_last(a, front, c);
        assert((a + seq![c] + b).drop_last() =~= a + seq![c] + front);
        assert((a + seq![c] + b).last() == b.last());
        assert(front.push(b.last()) =~= b);
    }
}

/// An authority without a user has the text before the colon for its host and the number behind it
/// for its port, or all of it for its host and no port.
pub proof fn law_host_and_port(host: Seq<char>, port: u16)
    requires
        host.len() > 0,
        forall|i: int|
            0 <= i < host.len() ==> #[trigger] host[i] != ':' && host[i] != '@' && host[i] != '[',
    ensures
        host_in(host) == host,
        port_in(host) is None,
        host_in(host + ":"@ + text::decimal(port as nat)) == host,
        port_in(host + ":"@ + text::decimal(port as nat)) == Some(port),
{
    reveal_strlit(":");
    let digits = text::decimal(port as nat);
    let whole = host + ":"@ + digits;
    text::lemma_decimal_digits(port as nat);
    text::lemma_decimal_value(port as nat);
    assert(!host.contains('@') && !host.contains(':'));
    assert(!digits.contains(':'));
    assert(!whole.contains('@')) by {
        if whole.contains('@') {
            let j = whole.index_of('@');
            if j < host.len() {
                assert(whole[j] == host[j]);
            } else if j > host.len() {
                assert(whole[j] == digits[j - host.len() - 1]);
            }
        }
    }
    lemma_behind_last(Seq::empty(), host, '@');
    lemma_behind_last(Seq::empty(), whole, '@');
    lemma_behind_last(host, digits, ':');
    assert(":"@ =~= seq![':']);
    text::law_before_and_after(host, ':');
    text::lemma_before(whole, ':');
    let cut = text::before(whole, ':');
    assert(whole[host.len() as int] == ':');
    assert(cut.len() == host.len()) by {
        if cut.len() < host.len() {
            assert(whole[cut.len() as int] == host[cut.len() as int]);
        }
    }
    assert(cut =~= host);
    assert(whole[0] == host[0]);
    assert(whole.contains(':'));
    assert(text::all_digits(digits)) by {
        assert forall|i: int| 0 <= i < digits.len() implies text::is_digit(
            #[trigger] digits[i],
        ) by {}
    }
    assert(digits[0] != '+');
}

/// A user before an at sign changes neither the host nor, where the authority ends in one, the
/// port.
pub proof fn law_user_is_no_host(user: Seq<char>, rest: Seq<char>)
    requires
        !rest.contains('@'),
        rest.contains(':'),
    ensures
        host_in(user + "@"@ + rest) == host_in(rest),
        port_in(user + "@"@ + rest) == port_in(rest),
{
    reveal_strlit("@");
    assert("@"@ =~= seq!['@']);
    lemma_behind_last(user, rest, '@');
    let whole = user + "@"@ + rest;
    text::law_before_and_after(rest, ':');
    lemma_behind_last_of_tail(user + "@"@, rest, ':');
    let j = rest.index_of(':');
    assert(whole[user.len() + 1 + j] == ':');
    assert(whole.contains(':'));
}

/// What stands behind the last `c` does not depend on what stands before a text that has one.
proof fn lemma_behind_last_of_tail(front: Seq<char>, s: Seq<char>, c: char)
    requires
        s.contains(c),
    ensures
        behind_last(front + s, c) == behind_last(s, c),
    decreases s.len(),
{
    assert((front + s).last() == s.last());
    if s.last() != c {
        let j = s.index_of(c);
        assert(s.drop_last()[j] == c);
        lemma_behind_last_of_tail(front, s.drop_last(), c);
        assert((front + s).drop_last() =~= front + s.drop_last());
    }
}

/// An IPv6 address keeps its square brackets as a host.
pub proof fn law_bracketed_host(address: Seq<char>, tail: Seq<char>)
    requires
        !address.contains(']') && !address.contains('@') && !tail.contains('@'),
    ensures
        host_in("["@ + address + "]"@ + tail) == "["@ + address + "]"@,
{
    reveal_strlit("[");
    reveal_strlit("]");
    let whole = "["@ + address + "]"@ + tail;
    assert(!whole.contains('@')) by {
        if whole.contains('@') {
            let j = whole.index_of('@');
            if 1 <= j <= address.len() {
                assert(whole[j] == address[j - 1]);
            } else if j > address.len() + 1 {
                assert(whole[j] == tail[j - address.len() - 2]);
            }
        }
    }
    lemma_behind_last(Seq::empty(), whole, '@');
    text::lemma_before(whole, ']');
    let cut = text::before(whole, ']');
    let n = address.len() as int + 1;
    assert(whole[n] == ']');
    assert(cut.len() == n) by {
        if cut.len() < n && cut.len() > 0 {
            assert(whole[cut.len() as int] == address[cut.len() - 1]);
        }
    }
    assert(cut =~= "["@ + address);
    assert(whole[0] == '[');
}

/// `https://` with letters, digits, hyphens and dots for a host, and with such characters and
/// slashes from a slash on for a path, is plain.
pub proof fn law_plain_url(host: Seq<char>, path: Seq<char>)
    requires
        host.len() > 0,
        host.len() + path.len() <= 65_526,
        forall|i: int|
            0 <= i < host.len() ==> ('a' <= #[trigger] host[i] <= 'z' || 'A' <= host[i] <= 'Z'
                || '0' <= host[i] <= '9' || host[i] == '-' || host[i] == '.'),
        forall|i: int|
            0 <= i < path.len() ==> ('a' <= #[trigger] path[i] <= 'z' || 'A' <= path[i] <= 'Z'
                || '0' <= path[i] <= '9' || path[i] == '-' || path[i] == '.' || path[i] == '/'),
    ensures
        is_plain_https("https://"@ + host + path),
        is_plain_authority(host),
{
    reveal_strlit("https://");
    let raw = "https://"@ + host + path;
    assert("https://"@ =~= raw.subrange(0, 8));
    assert(raw[8] == host[0]);
    assert forall|i: int| 8 <= i < raw.len() implies is_path_char(#[trigger] raw[i]) by {
        if i < 8 + host.len() {
            assert(raw[i] == host[i - 8]);
        } else {
            assert(raw[i] == path[i - 8 - host.len()]);
        }
    }
}

/// Letters, digits, and the characters of paths and simple queries are plain in a target.
pub proof fn law_plain_target(target: Seq<char>)
    requires
        forall|i: int|
            0 <= i < target.len() ==> ('a' <= #[trigger] target[i] <= 'z' || 'A' <= target[i] <= 'Z'
                || '0' <= target[i] <= '9' || target[i] == '-' || target[i] == '.' || target[i]
                == '/' || target[i] == '_' || target[i] == '?' || target[i] == '=' || target[i]
                == '&'),
    ensures
        is_plain(target),
        target.len() > 0 && target[0] == '/' && target.len() <= 65_534 ==> is_plain_target(target),
{
}

/// What is plain is nothing more than that: a host of letters, digits, hyphens and dots, a target
/// from the root with these, slashes, underscores and the signs of a simple query, and a URL that
/// begins with `https://` and the first character of a host; none is longer than 65,534 characters.
pub proof fn law_only_plain_is_plain(s: Seq<char>)
    ensures
        is_plain_authority(s) <==> s.len() > 0 && forall|i: int|
            0 <= i < s.len() ==> ('a' <= #[trigger] s[i] <= 'z' || 'A' <= s[i] <= 'Z' || '0' <= s[i]
                <= '9' || s[i] == '-' || s[i] == '.'),
        is_plain(s) <==> forall|i: int|
            0 <= i < s.len() ==> ('a' <= #[trigger] s[i] <= 'z' || 'A' <= s[i] <= 'Z' || '0' <= s[i]
                <= '9' || s[i] == '-' || s[i] == '.' || s[i] == '/' || s[i] == '_' || s[i] == '?'
                || s[i] == '=' || s[i] == '&'),
        is_plain_target(s) <==> is_plain(s) && s.len() > 0 && s[0] == '/' && s.len() <= 65_534,
        is_plain_https(s) ==> "https://"@.is_prefix_of(s) && 8 < s.len() <= 65_534 && s[8] != '/'
            && forall|i: int|
            8 <= i < s.len() ==> ('a' <= #[trigger] s[i] <= 'z' || 'A' <= s[i] <= 'Z' || '0' <= s[i]
                <= '9' || s[i] == '-' || s[i] == '.' || s[i] == '/'),
{
    reveal_strlit("https://");
    if is_plain_authority(s) {
        assert forall|i: int| 0 <= i < s.len() implies is_host_char(#[trigger] s[i]) by {}
    }
    if is_plain(s) {
        assert forall|i: int| 0 <= i < s.len() implies is_target_char(#[trigger] s[i]) by {}
    }
    if is_plain_https(s) {
        assert forall|i: int| 8 <= i < s.len() implies is_path_char(#[trigger] s[i]) by {}
    }
}

/// The parts of a plain URI are `https`, a plain authority and a plain target, all three.
pub proof fn law_plain_parts(
    scheme: Option<Seq<char>>,
    authority: Option<Seq<char>>,
    target: Seq<char>,
)
    ensures
        are_plain_parts(scheme, authority, target) <==> scheme == Some("https"@) && (
        authority matches Some(a) && is_plain_authority(a)) && is_plain_target(target),
{
}

/// A URI that was read comes from a text that is not blank; with a scheme it has an authority and a
/// path from the root; its path holds no query and no fragment, and its authority neither a space
/// nor a character beyond ASCII, and its own host and port.
pub proof fn law_what_was_read(raw: Seq<char>, uri: UriView, c: char)
    requires
        is_read_from(raw, uri),
    ensures
        text::trimmed(raw).len() > 0,
        !uri.path.contains('?'),
        !uri.path.contains('#'),
        uri.scheme is Some ==> uri.authority is Some && uri.path.len() > 0 && uri.path[0] == '/',
        uri.authority matches Some(a) ==> (a.text.contains(c) ==> '!' <= c <= '~'),
        uri.authority matches Some(a) ==> a.host == host_in(a.text) && a.port == port_in(a.text),
{
}

} // verus!
