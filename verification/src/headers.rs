//! Header maps as the `http` crate keeps them: for each name, in lower case, the values given for
//! it, in order. The crate's calls stand at the end of this file, behind the contracts that the
//! rest of the library is proved from.

use vstd::prelude::*;
use vstd::set_lib::*;
use vstd::utf8::*;

use crate::text;

verus! {

/// A header map that the `http` crate keeps.
#[verifier::external_type_specification]
#[verifier::external_body]
#[verifier::reject_recursive_types(T)]
pub struct ExHeaderMap<T>(http::HeaderMap<T>);

/// A value in such a map.
#[verifier::external_type_specification]
#[verifier::external_body]
pub struct ExHeaderValue(http::HeaderValue);

/// One value: its bytes, and whether it is marked as sensitive.
pub type Value = (Seq<u8>, bool);

/// For each name the values given for it, in order.
pub type Headers = Map<Seq<char>, Seq<Value>>;

/// One header line: a name and one value.
#[derive(Debug)]
pub struct HeaderField {
    pub name: String,
    pub bytes: Vec<u8>,
    pub sensitive: bool,
}

impl View for HeaderField {
    type V = (Seq<char>, Value);

    open spec fn view(&self) -> (Seq<char>, Value) {
        (self.name@, (self.bytes@, self.sensitive))
    }
}

/// The lines that the fields stand for.
pub open spec fn lines(fields: Seq<HeaderField>) -> Seq<(Seq<char>, Value)> {
    fields.map_values(|f: HeaderField| f@)
}

/// A map never holds this many names, so that it never has to grow beyond what the `http` crate
/// can index, however the names collide.
pub const NAME_LIMIT: usize = 6554;

/// The characters of a name in a header map.
pub open spec fn is_name_char(c: char) -> bool {
    ||| 'a' <= c && c <= 'z'
    ||| '0' <= c && c <= '9'
    ||| '!' <= c && c <= '\''
    ||| c == '*'
    ||| c == '+'
    ||| c == '-'
    ||| c == '.'
    ||| '^' <= c && c <= '`'
    ||| c == '|'
    ||| c == '~'
}

/// A name as a header map holds it.
pub open spec fn is_header_name(s: Seq<char>) -> bool {
    &&& 0 < s.len() <= 0xffff
    &&& forall|i: int| 0 <= i < s.len() ==> is_name_char(#[trigger] s[i])
}

/// The bytes that a value can hold: all but the control characters, the tab excepted.
pub open spec fn is_value_byte(b: u8) -> bool {
    (b >= 32 && b != 127) || b == 9
}

pub open spec fn is_header_value(bytes: Seq<u8>) -> bool {
    forall|i: int| 0 <= i < bytes.len() ==> is_value_byte(#[trigger] bytes[i])
}

/// The bytes of a value that can be read as text.
pub open spec fn is_visible_byte(b: u8) -> bool {
    (32 <= b < 127) || b == 9
}

pub open spec fn is_visible(bytes: Seq<u8>) -> bool {
    forall|i: int| 0 <= i < bytes.len() ==> is_visible_byte(#[trigger] bytes[i])
}

/// The text that visible bytes spell.
pub open spec fn ascii_text(bytes: Seq<u8>) -> Seq<char> {
    bytes.map_values(|b: u8| b as char)
}

/// A map without names.
pub open spec fn no_headers() -> Headers {
    Map::empty()
}

/// The values given for `name`.
pub open spec fn values_of(m: Headers, name: Seq<char>) -> Seq<Value> {
    if m.contains_key(name) {
        m[name]
    } else {
        Seq::empty()
    }
}

/// `m` with one more value for `name`.
pub open spec fn appended(m: Headers, name: Seq<char>, v: Value) -> Headers {
    m.insert(name, values_of(m, name).push(v))
}

/// The map that the lines make, each added behind those before it.
pub open spec fn grouped(ls: Seq<(Seq<char>, Value)>) -> Headers
    decreases ls.len(),
{
    if ls.len() == 0 {
        Map::empty()
    } else {
        appended(grouped(ls.drop_last()), ls.last().0, ls.last().1)
    }
}

/// The values of `a` and, behind them, those of `b`.
pub open spec fn merged(a: Headers, b: Headers) -> Headers {
    Map::new(
        |n: Seq<char>| a.contains_key(n) || b.contains_key(n),
        |n: Seq<char>| values_of(a, n) + values_of(b, n),
    )
}

/// `m` without the names that `skip` holds of.
pub open spec fn without(m: Headers, skip: spec_fn(Seq<char>) -> bool) -> Headers {
    Map::new(|n: Seq<char>| m.contains_key(n) && !skip(n), |n: Seq<char>| m[n])
}

/// There are `n` names in `m`.
pub open spec fn has_names(m: Headers, n: nat) -> bool {
    m.dom().finite() && m.dom().len() == n
}

/// There are fewer than `NAME_LIMIT` names in `m`, even with `extra` more.
pub open spec fn fits(m: Headers, extra: nat) -> bool {
    m.dom().finite() && m.dom().len() + extra < NAME_LIMIT
}

/// The names of `a` and `b` together, and `extra` more, are fewer than `NAME_LIMIT`.
pub open spec fn fit_together(a: Headers, b: Headers, extra: nat) -> bool {
    &&& a.dom().finite()
    &&& b.dom().finite()
    &&& a.dom().len() + b.dom().len() + extra < NAME_LIMIT
}

/// A merged map has no more names than the two together.
pub proof fn lemma_merged_fits(a: Headers, b: Headers, extra: nat)
    requires
        fit_together(a, b, extra),
    ensures
        fits(merged(a, b), extra),
{
    assert(merged(a, b).dom() =~= a.dom().union(b.dom()));
    lemma_len_union(a.dom(), b.dom());
}

/// Merging with a map without names changes nothing.
pub proof fn lemma_merged_with_none(m: Headers)
    ensures
        merged(no_headers(), m) == m,
        merged(m, no_headers()) == m,
{
    assert forall|n: Seq<char>| m.contains_key(n) implies #[trigger] merged(no_headers(), m)[n]
        == m[n] && merged(m, no_headers())[n] == m[n] by {
        assert(merged(no_headers(), m)[n] =~= m[n]);
        assert(merged(m, no_headers())[n] =~= m[n]);
    }
    assert(merged(no_headers(), m) =~= m);
    assert(merged(m, no_headers()) =~= m);
}

/// Leaving names out makes no map larger.
pub proof fn lemma_without_fits(
    a: Headers,
    b: Headers,
    skip: spec_fn(Seq<char>) -> bool,
    extra: nat,
)
    requires
        fit_together(a, b, extra),
    ensures
        fit_together(a, without(b, skip), extra),
{
    assert(without(b, skip).dom().subset_of(b.dom()));
    lemma_set_subset_finite(b.dom(), without(b, skip).dom());
    lemma_len_subset(without(b, skip).dom(), b.dom());
}

/// Adding a line to a map is merging the map with that line.
pub proof fn lemma_merged_push(a: Headers, ls: Seq<(Seq<char>, Value)>, l: (Seq<char>, Value))
    ensures
        appended(merged(a, grouped(ls)), l.0, l.1) == merged(a, grouped(ls.push(l))),
{
    assert(ls.push(l).drop_last() =~= ls);
    let left = appended(merged(a, grouped(ls)), l.0, l.1);
    let right = merged(a, grouped(ls.push(l)));
    assert(left.dom() =~= right.dom());
    assert forall|n: Seq<char>| left.contains_key(n) implies #[trigger] left[n] == right[n] by {
        if n == l.0 {
            assert(left[n] =~= right[n]);
        }
    }
    assert(left =~= right);
}

/// The lines of the kept names make the map of the kept names.
pub proof fn lemma_without_push(
    all: Seq<(Seq<char>, Value)>,
    kept: Seq<(Seq<char>, Value)>,
    l: (Seq<char>, Value),
    skip: spec_fn(Seq<char>) -> bool,
)
    requires
        grouped(kept) == without(grouped(all), skip),
    ensures
        skip(l.0) ==> grouped(kept) == without(grouped(all.push(l)), skip),
        !skip(l.0) ==> grouped(kept.push(l)) == without(grouped(all.push(l)), skip),
{
    assert(all.push(l).drop_last() =~= all);
    assert(kept.push(l).drop_last() =~= kept);
    if skip(l.0) {
        assert(grouped(kept) =~= without(grouped(all.push(l)), skip));
    } else {
        assert(grouped(kept.push(l)) =~= without(grouped(all.push(l)), skip));
    }
}

/// The names of grouped lines are finitely many.
pub proof fn lemma_grouped_finite(ls: Seq<(Seq<char>, Value)>)
    ensures
        grouped(ls).dom().finite(),
    decreases ls.len(),
{
    if ls.len() > 0 {
        lemma_grouped_finite(ls.drop_last());
    }
}

/// The names of a map are in lower case, as those of its fields are.
pub proof fn lemma_grouped_lower_case(fields: Seq<HeaderField>)
    requires
        forall|i: int| 0 <= i < fields.len() ==> is_header_name((#[trigger] fields[i]).name@),
    ensures
        forall|n: Seq<char>| #[trigger]
            grouped(lines(fields)).contains_key(n) ==> text::lower(n) == n,
    decreases fields.len(),
{
    if fields.len() > 0 {
        assert(lines(fields).drop_last() =~= lines(fields.drop_last()));
        lemma_grouped_lower_case(fields.drop_last());
        let name = fields.last().name@;
        assert(is_header_name(fields[fields.len() - 1].name@));
        assert(text::lower(name) =~= name);
        assert(lines(fields).last().0 == name);
        assert forall|n: Seq<char>| #[trigger]
            grouped(lines(fields)).contains_key(n) implies text::lower(n) == n by {
            assert(n == name || grouped(lines(fields.drop_last())).contains_key(n));
        }
    }
}

/// A character that a value can hold and that can be read as text: a printable ASCII character or
/// the tab.
pub open spec fn is_visible_char(c: char) -> bool {
    (' ' <= c && c <= '~') || c == '\t'
}

/// A text of visible characters can be the value of a header.
pub proof fn lemma_visible_is_value(s: Seq<char>)
    requires
        forall|i: int| 0 <= i < s.len() ==> is_visible_char(#[trigger] s[i]),
    ensures
        is_header_value(encode_utf8(s)),
{
    assert(is_ascii_chars(s));
    is_ascii_chars_encode_utf8(s);
}

/// What a header map of the `http` crate holds.
pub uninterp spec fn contents(map: http::HeaderMap<http::HeaderValue>) -> Headers;

/// `HeaderMap::iter` hands out every value with its name, those of one name in order. The names
/// are in lower case, the values without control characters.
#[verifier::external_body]
pub(crate) fn fields_of(map: &http::HeaderMap<http::HeaderValue>) -> (r: Vec<HeaderField>)
    ensures
        grouped(lines(r@)) == contents(*map),
        forall|i: int|
            0 <= i < r@.len() ==> is_header_name((#[trigger] r@[i]).name@) && is_header_value(
                r@[i].bytes@,
            ),
{
    map.iter()
        .map(|(name, value)| HeaderField {
            name: name.as_str().to_owned(),
            bytes: value.as_bytes().to_vec(),
            sensitive: value.is_sensitive(),
        })
        .collect()
}

/// `HeaderMap::append` adds one value behind those that its name has.
#[verifier::external_body]
pub(crate) fn append_field(map: &mut http::HeaderMap<http::HeaderValue>, field: &HeaderField)
    requires
        is_header_name(field.name@),
        is_header_value(field.bytes@),
        fits(contents(*old(map)), 0),
    ensures
        contents(*final(map)) == appended(contents(*old(map)), field@.0, field@.1),
{
    let name = http::HeaderName::from_lowercase(field.name.as_bytes()).expect("a header name");
    let mut value = http::HeaderValue::from_bytes(&field.bytes).expect("a header value");
    value.set_sensitive(field.sensitive);
    map.append(name, value);
}

/// `HeaderMap::insert` gives its name one value in place of those that it had.
#[verifier::external_body]
pub(crate) fn insert_field(map: &mut http::HeaderMap<http::HeaderValue>, field: &HeaderField)
    requires
        is_header_name(field.name@),
        is_header_value(field.bytes@),
        fits(contents(*old(map)), 0),
    ensures
        contents(*final(map)) == contents(*old(map)).insert(field@.0, seq![field@.1]),
{
    let name = http::HeaderName::from_lowercase(field.name.as_bytes()).expect("a header name");
    let mut value = http::HeaderValue::from_bytes(&field.bytes).expect("a header value");
    value.set_sensitive(field.sensitive);
    map.insert(name, value);
}

/// `HeaderMap::remove` takes out a name with all its values.
#[verifier::external_body]
pub(crate) fn remove_name(map: &mut http::HeaderMap<http::HeaderValue>, name: &str)
    requires
        is_header_name(name@),
    ensures
        contents(*final(map)) == contents(*old(map)).remove(name@),
{
    map.remove(http::HeaderName::from_lowercase(name.as_bytes()).expect("a header name"));
}

/// `HeaderMap::get` gives the first value of a name, where the map has that name.
#[verifier::external_body]
pub(crate) fn first_field(
    map: &http::HeaderMap<http::HeaderValue>,
    name: &str,
) -> (r: Option<HeaderField>)
    requires
        is_header_name(name@),
    ensures
        r is Some <==> contents(*map).contains_key(name@),
        r matches Some(f) ==> {
            &&& contents(*map)[name@].len() > 0
            &&& f@ == (name@, contents(*map)[name@][0])
            &&& is_header_value(f.bytes@)
        },
{
    let value = map.get(http::HeaderName::from_lowercase(name.as_bytes()).ok()?)?;
    Some(HeaderField {
        name: name.to_owned(),
        bytes: value.as_bytes().to_vec(),
        sensitive: value.is_sensitive(),
    })
}

/// `HeaderMap::contains_key` tells whether the map has a name.
#[verifier::external_body]
pub(crate) fn has_name(map: &http::HeaderMap<http::HeaderValue>, name: &str) -> (r: bool)
    requires
        is_header_name(name@),
    ensures
        r == contents(*map).contains_key(name@),
{
    map.contains_key(http::HeaderName::from_lowercase(name.as_bytes()).expect("a header name"))
}

/// `HeaderMap::keys_len` counts the names.
#[verifier::external_body]
pub(crate) fn name_count(map: &http::HeaderMap<http::HeaderValue>) -> (r: usize)
    ensures
        has_names(contents(*map), r as nat),
{
    map.keys_len()
}

/// `HeaderMap::new` makes a map without names.
#[verifier::external_body]
pub(crate) fn empty_map() -> (r: http::HeaderMap<http::HeaderValue>)
    ensures
        contents(r) == no_headers(),
{
    http::HeaderMap::new()
}

/// `HeaderValue::from_str` takes a text whose UTF-8 bytes a value can hold, and no other.
#[verifier::external_body]
pub(crate) fn value_from_text(text: &str) -> (r: Option<Vec<u8>>)
    ensures
        r is Some <==> is_header_value(encode_utf8(text@)),
        r matches Some(bytes) ==> bytes@ == encode_utf8(text@),
{
    http::HeaderValue::from_str(text).ok().map(|value| value.as_bytes().to_vec())
}

/// `HeaderValue::to_str` reads a value of visible bytes as text, and no other.
#[verifier::external_body]
pub(crate) fn text_of_value(bytes: &Vec<u8>) -> (r: Option<String>)
    requires
        is_header_value(bytes@),
    ensures
        r is Some <==> is_visible(bytes@),
        r matches Some(text) ==> text@ == ascii_text(bytes@),
{
    let value = http::HeaderValue::from_bytes(bytes).ok()?;
    value.to_str().ok().map(|text| text.to_owned())
}

/// Whether the names of two maps together, and `extra` more, stay below `NAME_LIMIT`.
pub fn can_merge(
    a: &http::HeaderMap<http::HeaderValue>,
    b: &http::HeaderMap<http::HeaderValue>,
    extra: usize,
) -> (r: bool)
    ensures
        r == fit_together(contents(*a), contents(*b), extra as nat),
{
    let first = name_count(a);
    let second = name_count(b);
    first < NAME_LIMIT && second < NAME_LIMIT - first && extra < NAME_LIMIT - first - second
}

/// The fields but those whose names are to be skipped.
pub(crate) fn kept_fields<F: Fn(&str) -> bool>(
    fields: Vec<HeaderField>,
    skip: F,
    Ghost(skipped): Ghost<spec_fn(Seq<char>) -> bool>,
) -> (r: Vec<HeaderField>)
    requires
        forall|name: &str| call_requires(skip, (name,)),
        forall|name: &str, b: bool| call_ensures(skip, (name,), b) ==> b == skipped(name@),
        forall|i: int|
            0 <= i < fields@.len() ==> is_header_name((#[trigger] fields@[i]).name@)
                && is_header_value(fields@[i].bytes@),
    ensures
        grouped(lines(r@)) == without(grouped(lines(fields@)), skipped),
        forall|i: int|
            0 <= i < r@.len() ==> is_header_name((#[trigger] r@[i]).name@) && is_header_value(
                r@[i].bytes@,
            ),
{
    let ghost all = fields@;
    let mut r: Vec<HeaderField> = Vec::new();
    proof {
        assert(lines(all.take(0)) =~= Seq::empty());
        assert(lines(r@) =~= Seq::empty());
        assert(without(no_headers(), skipped) =~= no_headers());
    }
    for field in it: fields
        invariant
            it.seq() == all,
            forall|name: &str| call_requires(skip, (name,)),
            forall|name: &str, b: bool| call_ensures(skip, (name,), b) ==> b == skipped(name@),
            forall|i: int|
                0 <= i < all.len() ==> is_header_name((#[trigger] all[i]).name@)
                    && is_header_value(all[i].bytes@),
            grouped(lines(r@)) == without(grouped(lines(all.take(it.index()))), skipped),
            forall|i: int|
                0 <= i < r@.len() ==> is_header_name((#[trigger] r@[i]).name@)
                    && is_header_value(r@[i].bytes@),
    {
        let ghost kept = r@;
        let ghost n = it.index();
        proof {
            assert(all[n] == field);
            lemma_without_push(lines(all.take(n)), lines(kept), field@, skipped);
            assert(lines(all.take(n + 1)) =~= lines(all.take(n)).push(field@));
            assert(lines(kept.push(field)) =~= lines(kept).push(field@));
        }
        if !skip(field.name.as_str()) {
            r.push(field);
        }
    }
    assert(all.take(all.len() as int) =~= all);
    r
}

/// Adds every field behind the values that its name has.
pub(crate) fn append_all(map: &mut http::HeaderMap<http::HeaderValue>, fields: &Vec<HeaderField>)
    requires
        fit_together(contents(*old(map)), grouped(lines(fields@)), 0),
        forall|i: int|
            0 <= i < fields@.len() ==> is_header_name((#[trigger] fields@[i]).name@)
                && is_header_value(fields@[i].bytes@),
    ensures
        contents(*final(map)) == merged(contents(*old(map)), grouped(lines(fields@))),
{
    let ghost before = contents(*map);
    let ghost all = lines(fields@);
    let mut i: usize = 0;
    assert(all.take(0) =~= Seq::empty());
    assert(merged(before, grouped(all.take(0))) =~= before);
    while i < fields.len()
        invariant
            i <= fields@.len(),
            all == lines(fields@),
            before == contents(*old(map)),
            fit_together(before, grouped(all), 0),
            forall|j: int|
                0 <= j < fields@.len() ==> is_header_name((#[trigger] fields@[j]).name@)
                    && is_header_value(fields@[j].bytes@),
            contents(*map) == merged(before, grouped(all.take(i as int))),
        decreases fields@.len() - i,
    {
        proof {
            lemma_grouped_prefix(all, i as int);
            lemma_len_subset(grouped(all.take(i as int)).dom(), grouped(all).dom());
            lemma_merged_fits(before, grouped(all.take(i as int)), 0);
            lemma_merged_push(before, all.take(i as int), all[i as int]);
            assert(all.take(i + 1) =~= all.take(i as int).push(all[i as int]));
        }
        append_field(map, &fields[i]);
        i += 1;
    }
    assert(all.take(all.len() as int) =~= all);
}

/// The first lines bring no name that all the lines do not.
proof fn lemma_grouped_prefix(ls: Seq<(Seq<char>, Value)>, i: int)
    requires
        0 <= i <= ls.len(),
    ensures
        grouped(ls.take(i)).dom().subset_of(grouped(ls).dom()),
        grouped(ls.take(i)).dom().finite(),
        grouped(ls).dom().finite(),
    decreases ls.len(),
{
    lemma_grouped_finite(ls);
    lemma_grouped_finite(ls.take(i));
    if i == ls.len() {
        assert(ls.take(i) =~= ls);
    } else {
        lemma_grouped_prefix(ls.drop_last(), i);
        assert(ls.drop_last().take(i) =~= ls.take(i));
    }
}

/// A field shows its name, its bytes and its mark, and a name without values has none.
pub proof fn law_fields_and_values(f: HeaderField, m: Headers, name: Seq<char>)
    ensures
        f@.0 == f.name@,
        f@.1.0 == f.bytes@,
        f@.1.1 == f.sensitive,
        m.contains_key(name) ==> values_of(m, name) == m[name],
        !m.contains_key(name) ==> values_of(m, name).len() == 0,
        !no_headers().contains_key(name),
{
}

/// Merging two maps gives each name of either the values of the first and then those of the second,
/// and no other name any.
pub proof fn law_merged(a: Headers, b: Headers, name: Seq<char>)
    ensures
        merged(a, b).contains_key(name) <==> a.contains_key(name) || b.contains_key(name),
        a.contains_key(name) && !b.contains_key(name) ==> merged(a, b)[name] == a[name],
        !a.contains_key(name) && b.contains_key(name) ==> merged(a, b)[name] == b[name],
        a.contains_key(name) && b.contains_key(name) ==> merged(a, b)[name] == a[name] + b[name],
{
    if a.contains_key(name) && !b.contains_key(name) {
        assert(merged(a, b)[name] =~= a[name]);
    }
    if !a.contains_key(name) && b.contains_key(name) {
        assert(merged(a, b)[name] =~= b[name]);
    }
}

/// Leaving names out takes those names, and changes no value of another.
pub proof fn law_without(m: Headers, skip: spec_fn(Seq<char>) -> bool, name: Seq<char>)
    ensures
        without(m, skip).contains_key(name) <==> m.contains_key(name) && !skip(name),
        without(m, skip).contains_key(name) ==> without(m, skip)[name] == m[name],
{
}

/// The values among the lines that are given for a name, in order.
pub open spec fn given_for(ls: Seq<(Seq<char>, Value)>, name: Seq<char>) -> Seq<Value>
    decreases ls.len(),
{
    if ls.len() == 0 {
        Seq::empty()
    } else if ls.last().0 == name {
        given_for(ls.drop_last(), name).push(ls.last().1)
    } else {
        given_for(ls.drop_last(), name)
    }
}

/// Lines make a map in which each name has the values given for it, in order, and no name is there
/// without one.
pub proof fn law_grouped(ls: Seq<(Seq<char>, Value)>, name: Seq<char>)
    ensures
        values_of(grouped(ls), name) == given_for(ls, name),
        grouped(ls).contains_key(name) <==> given_for(ls, name).len() > 0,
    decreases ls.len(),
{
    if ls.len() > 0 {
        law_grouped(ls.drop_last(), name);
    }
}

/// Maps fit together just while their names, and those that are to come, are fewer than 6554.
pub proof fn law_name_limit(a: Headers, b: Headers, extra: nat)
    requires
        a.dom().finite(),
        b.dom().finite(),
    ensures
        fit_together(a, b, extra) <==> a.dom().len() + b.dom().len() + extra < 6554,
        fits(a, extra) <==> a.dom().len() + extra < 6554,
{
}

/// A value holds the tab and every byte from the space on but the delete character; it can be read
/// as text if its bytes are ASCII, and the text has a character for each byte.
pub proof fn law_value_bytes(bytes: Seq<u8>)
    ensures
        is_header_value(bytes) <==> forall|i: int|
            0 <= i < bytes.len() ==> (#[trigger] bytes[i] == 9 || bytes[i] >= 32) && bytes[i] != 127,
        is_visible(bytes) <==> forall|i: int|
            0 <= i < bytes.len() ==> #[trigger] bytes[i] == 9 || 32 <= bytes[i] <= 126,
        ascii_text(bytes).len() == bytes.len(),
        forall|i: int| 0 <= i < bytes.len() ==> #[trigger] ascii_text(bytes)[i] == bytes[i] as char,
{
    if is_header_value(bytes) {
        assert forall|i: int| 0 <= i < bytes.len() implies (#[trigger] bytes[i] == 9 || bytes[i]
            >= 32) && bytes[i] != 127 by {
            assert(is_value_byte(bytes[i]));
        }
    }
    if is_visible(bytes) {
        assert forall|i: int| 0 <= i < bytes.len() implies #[trigger] bytes[i] == 9 || 32
            <= bytes[i] <= 126 by {
            assert(is_visible_byte(bytes[i]));
        }
    }
}

/// A name has from 1 to 65,535 characters, and each is a lower case letter, a digit, or one of the
/// signs that a name may hold.
pub proof fn law_header_names(s: Seq<char>)
    ensures
        is_header_name(s) <==> s.len() > 0 && s.len() <= 65_535 && forall|i: int|
            0 <= i < s.len() ==> ('a' <= #[trigger] s[i] <= 'z' || '0' <= s[i] <= '9' || s[i] == '!'
                || s[i] == '"' || s[i] == '#' || s[i] == '$' || s[i] == '%' || s[i] == '&' || s[i]
                == '\'' || s[i] == '*' || s[i] == '+' || s[i] == '-' || s[i] == '.' || s[i] == '^'
                || s[i] == '_' || s[i] == '`' || s[i] == '|' || s[i] == '~'),
{
    if is_header_name(s) {
        assert forall|i: int| 0 <= i < s.len() implies is_name_char(#[trigger] s[i]) by {}
    }
}

/// A visible character is the tab, or one from the space to the tilde.
pub proof fn law_visible_char(c: char)
    ensures
        is_visible_char(c) <==> c == '\t' || ' ' <= c <= '~',
{
}

/// A map has as many names as there are in it.
pub proof fn law_count_of_names(m: Headers, n: nat)
    ensures
        has_names(m, n) ==> m.dom().finite() && m.dom().len() == n,
        m.dom().finite() ==> has_names(m, m.dom().len()),
{
}

} // verus!
