//! Text as a sequence of characters: the few operations on it that the other modules share.

use vstd::prelude::*;
use vstd::string::*;
use vstd::utf8::*;

verus! {

/// `String::push` adds the character at the end.
pub assume_specification[ String::push ](s: &mut String, c: char)
    ensures
        final(s)@ == old(s)@.push(c),
;

/// The text in `o`, where there is one.
pub open spec fn opt_view(o: Option<String>) -> Option<Seq<char>> {
    match o {
        Some(s) => Some(s@),
        None => None,
    }
}

/// The text in `o`, where there is one.
pub open spec fn opt_str(o: Option<&str>) -> Option<Seq<char>> {
    match o {
        Some(s) => Some(s@),
        None => None,
    }
}

/// The ASCII lower case form of `c`; any other character is its own.
pub open spec fn lower_char(c: char) -> char {
    if 'A' <= c && c <= 'Z' {
        ((c as u8) + 32) as char
    } else {
        c
    }
}

/// `s` with its ASCII letters in lower case.
pub open spec fn lower(s: Seq<char>) -> Seq<char> {
    s.map_values(|c: char| lower_char(c))
}

/// `s` without the slashes at its end.
pub open spec fn trim_end_slashes(s: Seq<char>) -> Seq<char>
    decreases s.len(),
{
    if s.len() > 0 && s.last() == '/' {
        trim_end_slashes(s.drop_last())
    } else {
        s
    }
}

pub open spec fn starts_with_slash(s: Seq<char>) -> bool {
    s.len() > 0 && s[0] == '/'
}

pub open spec fn ends_with_slash(s: Seq<char>) -> bool {
    s.len() > 0 && s.last() == '/'
}

/// The characters with the Unicode property `White_Space`.
pub open spec fn is_white_space(c: char) -> bool {
    ||| '\u{9}' <= c && c <= '\u{d}'
    ||| c == ' '
    ||| c == '\u{85}'
    ||| c == '\u{a0}'
    ||| c == '\u{1680}'
    ||| '\u{2000}' <= c && c <= '\u{200a}'
    ||| c == '\u{2028}'
    ||| c == '\u{2029}'
    ||| c == '\u{202f}'
    ||| c == '\u{205f}'
    ||| c == '\u{3000}'
}

/// `s` without the white space at its start.
pub open spec fn trim_start(s: Seq<char>) -> Seq<char>
    decreases s.len(),
{
    if s.len() > 0 && is_white_space(s[0]) {
        trim_start(s.drop_first())
    } else {
        s
    }
}

/// `s` without the white space at its end.
pub open spec fn trim_end(s: Seq<char>) -> Seq<char>
    decreases s.len(),
{
    if s.len() > 0 && is_white_space(s.last()) {
        trim_end(s.drop_last())
    } else {
        s
    }
}

/// `s` without the white space around it.
pub open spec fn trimmed(s: Seq<char>) -> Seq<char> {
    trim_end(trim_start(s))
}

pub open spec fn digit_char(d: nat) -> char {
    (('0' as u8) + d) as char
}

/// `n` in decimal, without leading zeros.
pub open spec fn decimal(n: nat) -> Seq<char>
    decreases n,
{
    if n < 10 {
        seq![digit_char(n)]
    } else {
        decimal(n / 10).push(digit_char(n % 10))
    }
}

/// The characters of `s`, in order.
pub fn chars_of(s: &str) -> (r: Vec<char>)
    ensures
        r@ == s@,
{
    let mut r: Vec<char> = Vec::new();
    for c in it: s.chars()
        invariant
            r@ == s@.take(it.index()),
            it.seq() == s@,
    {
        r.push(c);
        assert(s@.take(it.index() + 1) =~= s@.take(it.index()).push(c));
    }
    assert(s@.take(s@.len() as int) =~= s@);
    r
}

/// The text made of the characters `from` up to `to` of `cs`.
pub fn text_between(cs: &Vec<char>, from: usize, to: usize) -> (r: String)
    requires
        from <= to <= cs@.len(),
    ensures
        r@ == cs@.subrange(from as int, to as int),
{
    let mut r = String::new();
    let mut i: usize = from;
    while i < to
        invariant
            from <= i <= to <= cs@.len(),
            r@ == cs@.subrange(from as int, i as int),
        decreases to - i,
    {
        r.push(cs[i]);
        i += 1;
        assert(cs@.subrange(from as int, i as int) =~= cs@.subrange(from as int, i - 1).push(
            cs@[i - 1],
        ));
    }
    r
}

/// The UTF-8 bytes of a text.
pub fn bytes_of(s: &str) -> (r: Vec<u8>)
    ensures
        r@ == encode_utf8(s@),
{
    let bytes = s.as_bytes();
    let mut r: Vec<u8> = Vec::new();
    let mut i: usize = 0;
    while i < bytes.len()
        invariant
            i <= bytes@.len(),
            r@ == bytes@.take(i as int),
        decreases bytes@.len() - i,
    {
        r.push(bytes[i]);
        i += 1;
        assert(bytes@.take(i as int) =~= bytes@.take(i - 1).push(bytes@[i - 1]));
    }
    assert(bytes@.take(bytes@.len() as int) =~= bytes@);
    r
}

/// Whether two texts are the same.
pub fn same_text(a: &str, b: &str) -> (r: bool)
    ensures
        r == (a@ == b@),
{
    let left = chars_of(a);
    let right = chars_of(b);
    if left.len() != right.len() {
        return false;
    }
    let mut i: usize = 0;
    while i < left.len()
        invariant
            i <= left@.len(),
            left@.len() == right@.len(),
            left@ == a@,
            right@ == b@,
            forall|j: int| 0 <= j < i ==> left@[j] == right@[j],
        decreases left@.len() - i,
    {
        if left[i] != right[i] {
            return false;
        }
        i += 1;
    }
    assert(left@ =~= right@);
    true
}

/// One character in ASCII lower case.
pub fn to_lower_char(c: char) -> (r: char)
    ensures
        r == lower_char(c),
{
    if 'A' <= c && c <= 'Z' {
        ((c as u8) + 32) as char
    } else {
        c
    }
}

/// A text in ASCII lower case.
pub fn to_lower(s: &str) -> (r: String)
    ensures
        r@ == lower(s@),
{
    let cs = chars_of(s);
    let mut r = String::new();
    let mut i: usize = 0;
    while i < cs.len()
        invariant
            i <= cs@.len(),
            cs@ == s@,
            r@ == lower(s@.take(i as int)),
        decreases cs@.len() - i,
    {
        r.push(to_lower_char(cs[i]));
        i += 1;
        assert(lower(s@.take(i as int)) =~= lower(s@.take(i - 1)).push(lower_char(s@[i - 1])));
    }
    assert(s@.take(s@.len() as int) =~= s@);
    r
}

/// Whether `s` begins with `prefix`.
pub fn has_prefix(s: &str, prefix: &str) -> (r: bool)
    ensures
        r == prefix@.is_prefix_of(s@),
{
    let cs = chars_of(s);
    let ps = chars_of(prefix);
    if ps.len() > cs.len() {
        return false;
    }
    let mut i: usize = 0;
    while i < ps.len()
        invariant
            i <= ps@.len() <= cs@.len(),
            cs@ == s@,
            ps@ == prefix@,
            forall|j: int| 0 <= j < i ==> cs@[j] == ps@[j],
        decreases ps@.len() - i,
    {
        if cs[i] != ps[i] {
            assert(prefix@ != s@.subrange(0, prefix@.len() as int));
            return false;
        }
        i += 1;
    }
    assert(prefix@ =~= s@.subrange(0, prefix@.len() as int));
    true
}

/// A text without the slashes at its end.
pub fn without_end_slashes(s: &str) -> (r: String)
    ensures
        r@ == trim_end_slashes(s@),
{
    let cs = chars_of(s);
    let mut n: usize = cs.len();
    assert(s@.take(s@.len() as int) =~= s@);
    while n > 0 && cs[n - 1] == '/'
        invariant
            n <= cs@.len(),
            cs@ == s@,
            trim_end_slashes(s@) == trim_end_slashes(s@.take(n as int)),
        decreases n,
    {
        assert(s@.take(n as int).drop_last() =~= s@.take(n - 1));
        n -= 1;
    }
    assert(cs@.subrange(0, n as int) =~= s@.take(n as int));
    text_between(&cs, 0, n)
}

/// Whether `c` has the Unicode property `White_Space`.
pub fn is_space(c: char) -> (r: bool)
    ensures
        r == is_white_space(c),
{
    ('\u{9}' <= c && c <= '\u{d}') || c == ' ' || c == '\u{85}' || c == '\u{a0}'
        || c == '\u{1680}' || ('\u{2000}' <= c && c <= '\u{200a}') || c == '\u{2028}'
        || c == '\u{2029}' || c == '\u{202f}' || c == '\u{205f}' || c == '\u{3000}'
}

/// A text without the white space around it.
pub fn trim(s: &str) -> (r: String)
    ensures
        r@ == trimmed(s@),
{
    let cs = chars_of(s);
    let (from, to) = trim_bounds(&cs, 0, cs.len());
    assert(cs@.subrange(0, cs@.len() as int) =~= s@);
    text_between(&cs, from, to)
}

/// The part of `cs` from `start` to `end` without the white space around it.
pub fn trim_bounds(cs: &Vec<char>, start: usize, end: usize) -> (r: (usize, usize))
    requires
        start <= end <= cs@.len(),
    ensures
        start <= r.0 <= r.1 <= end,
        cs@.subrange(r.0 as int, r.1 as int) == trimmed(cs@.subrange(start as int, end as int)),
{
    let mut from: usize = start;
    while from < end && is_space(cs[from])
        invariant
            start <= from <= end <= cs@.len(),
            trim_start(cs@.subrange(start as int, end as int)) == trim_start(
                cs@.subrange(from as int, end as int),
            ),
        decreases end - from,
    {
        assert(cs@.subrange(from as int, end as int).drop_first() =~= cs@.subrange(
            from + 1,
            end as int,
        ));
        from += 1;
    }
    let mut to: usize = end;
    while to > from && is_space(cs[to - 1])
        invariant
            from <= to <= end <= cs@.len(),
            trim_end(cs@.subrange(from as int, end as int)) == trim_end(
                cs@.subrange(from as int, to as int),
            ),
        decreases to - from,
    {
        assert(cs@.subrange(from as int, to as int).drop_last() =~= cs@.subrange(
            from as int,
            to - 1,
        ));
        to -= 1;
    }
    (from, to)
}

/// A number in decimal.
pub fn decimal_text(n: u64) -> (r: String)
    ensures
        r@ == decimal(n as nat),
    decreases n,
{
    if n < 10 {
        let mut r = String::new();
        r.push((48 + n as u8) as char);
        assert(r@ =~= decimal(n as nat));
        r
    } else {
        let mut r = decimal_text(n / 10);
        r.push((48 + (n % 10) as u8) as char);
        r
    }
}

/// The characters of a decimal number are digits.
pub proof fn lemma_decimal_digits(n: nat)
    ensures
        decimal(n).len() > 0,
        forall|i: int| 0 <= i < decimal(n).len() ==> '0' <= #[trigger] decimal(n)[i] <= '9',
    decreases n,
{
    if n >= 10 {
        lemma_decimal_digits(n / 10);
    }
}

/// Two parts of a path with one slash between them, where both are not empty: slashes at the end
/// of the first give way to one at the start of the second, and a missing one is put in.
pub open spec fn slash_joined(base: Seq<char>, path: Seq<char>) -> Seq<char> {
    if ends_with_slash(base) && starts_with_slash(path) {
        trim_end_slashes(base) + path
    } else if ends_with_slash(base) || starts_with_slash(path) {
        base + path
    } else {
        base + "/"@ + path
    }
}

/// Two parts of a path with one slash between them.
pub fn join_slash(base: &str, path: &str) -> (r: String)
    ensures
        r@ == slash_joined(base@, path@),
{
    let base_chars = chars_of(base);
    let path_chars = chars_of(path);
    let base_slash = base_chars.len() > 0 && base_chars[base_chars.len() - 1] == '/';
    let path_slash = path_chars.len() > 0 && path_chars[0] == '/';
    let mut r = if base_slash && path_slash {
        without_end_slashes(base)
    } else {
        base.to_owned()
    };
    if !base_slash && !path_slash {
        r.append("/");
    }
    r.append(path);
    r
}

/// What trimming leaves ends in no slash, and only slashes were taken.
pub proof fn lemma_trim_end_slashes(s: Seq<char>)
    ensures
        trim_end_slashes(s).is_prefix_of(s),
        !ends_with_slash(trim_end_slashes(s)),
        forall|i: int| trim_end_slashes(s).len() <= i < s.len() ==> s[i] == '/',
    decreases s.len(),
{
    if ends_with_slash(s) {
        lemma_trim_end_slashes(s.drop_last());
        let t = trim_end_slashes(s);
        assert(t =~= s.subrange(0, t.len() as int));
        assert forall|i: int| t.len() <= i < s.len() implies s[i] == '/' by {
            if i < s.len() - 1 {
                assert(s.drop_last()[i] == s[i]);
            }
        }
    } else {
        assert(s =~= s.subrange(0, s.len() as int));
    }
}

/// The texts in `v`.
pub open spec fn texts(v: Seq<String>) -> Seq<Seq<char>> {
    v.map_values(|s: String| s@)
}

/// Whether `v` holds the text `s`.
pub fn holds_text(v: &Vec<String>, s: &str) -> (r: bool)
    ensures
        r == texts(v@).contains(s@),
{
    let mut i: usize = 0;
    while i < v.len()
        invariant
            i <= v@.len(),
            forall|j: int| 0 <= j < i ==> texts(v@)[j] != s@,
        decreases v@.len() - i,
    {
        if same_text(v[i].as_str(), s) {
            assert(texts(v@)[i as int] == s@);
            return true;
        }
        i += 1;
    }
    false
}

/// What trimming the end leaves is a first part of the text.
pub proof fn lemma_trim_end(s: Seq<char>)
    ensures
        trim_end(s).len() <= s.len(),
        trim_end(s) == s.take(trim_end(s).len() as int),
    decreases s.len(),
{
    if s.len() > 0 && is_white_space(s.last()) {
        lemma_trim_end(s.drop_last());
        assert(trim_end(s) =~= s.take(trim_end(s).len() as int));
    } else {
        assert(s =~= s.take(s.len() as int));
    }
}

/// Lower case stays as it is.
pub proof fn lemma_lower_twice(s: Seq<char>)
    ensures
        lower(lower(s)) == lower(s),
{
    assert(lower(lower(s)) =~= lower(s));
}

/// Two parts of a path join to the same path whichever of them, or both, has the slash between
/// them, and if neither has it.
pub proof fn law_slash_spellings(base: Seq<char>, path: Seq<char>)
    requires
        base.len() > 0,
        !ends_with_slash(base),
        path.len() > 0,
        !starts_with_slash(path),
    ensures
        slash_joined(base, path) == base + "/"@ + path,
        slash_joined(base + "/"@, path) == base + "/"@ + path,
        slash_joined(base, "/"@ + path) == base + "/"@ + path,
        slash_joined(base + "/"@, "/"@ + path) == base + "/"@ + path,
{
    reveal_strlit("/");
    let with_slash = base + "/"@;
    assert(with_slash.last() == '/');
    assert(with_slash.drop_last() =~= base);
    assert(("/"@ + path)[0] == '/');
    assert(trim_end_slashes(with_slash) == trim_end_slashes(base));
    assert(base + ("/"@ + path) =~= base + "/"@ + path);
}

/// `s` up to its first `c`, or all of it.
pub open spec fn before(s: Seq<char>, c: char) -> Seq<char>
    decreases s.len(),
{
    if s.len() == 0 || s[0] == c {
        Seq::empty()
    } else {
        seq![s[0]] + before(s.drop_first(), c)
    }
}

/// What stands behind the first `c` of `s`, where there is one.
pub open spec fn after(s: Seq<char>, c: char) -> Option<Seq<char>> {
    if before(s, c).len() < s.len() {
        Some(s.skip(before(s, c).len() as int + 1))
    } else {
        None
    }
}

/// What stands before the first `c` has none, and a `c` follows it unless it is all.
pub proof fn lemma_before(s: Seq<char>, c: char)
    ensures
        before(s, c).len() <= s.len(),
        before(s, c) == s.take(before(s, c).len() as int),
        forall|j: int| 0 <= j < before(s, c).len() ==> s[j] != c,
        before(s, c).len() < s.len() ==> s[before(s, c).len() as int] == c,
    decreases s.len(),
{
    if s.len() > 0 && s[0] != c {
        let tail = s.drop_first();
        lemma_before(tail, c);
        assert(before(s, c) =~= s.take(before(s, c).len() as int));
        assert forall|j: int| 0 <= j < before(s, c).len() implies s[j] != c by {
            if j > 0 {
                assert(tail[j - 1] == s[j]);
            }
        }
    } else {
        assert(before(s, c) =~= s.take(0));
    }
}

/// The parts of `s` between commas.
pub open spec fn comma_parts(s: Seq<char>) -> Seq<Seq<char>>
    decreases s.len(),
{
    match after(s, ',') {
        Some(rest) => if rest.len() < s.len() {
            seq![before(s, ',')] + comma_parts(rest)
        } else {
            seq![s]
        },
        None => seq![s],
    }
}

/// The first comma from `start` on, or the end.
pub(crate) fn next_comma(cs: &Vec<char>, start: usize) -> (r: usize)
    requires
        start <= cs@.len(),
    ensures
        start <= r <= cs@.len(),
        r - start == before(cs@.skip(start as int), ',').len(),
{
    let ghost rest = cs@.skip(start as int);
    proof {
        lemma_before(rest, ',');
    }
    let mut i: usize = start;
    while i < cs.len() && cs[i] != ','
        invariant
            start <= i <= cs@.len(),
            rest == cs@.skip(start as int),
            i - start <= before(rest, ',').len() <= rest.len(),
            forall|j: int| 0 <= j < before(rest, ',').len() ==> rest[j] != ',',
            before(rest, ',').len() < rest.len() ==> rest[before(
                rest,
                ',',
            ).len() as int] == ',',
        decreases cs@.len() - i,
    {
        assert(rest[i - start] == cs@[i as int]);
        i += 1;
    }
    proof {
        if i < cs@.len() {
            assert(rest[i - start] == cs@[i as int]);
        }
    }
    i
}

pub open spec fn is_digit(c: char) -> bool {
    '0' <= c && c <= '9'
}

/// The number that digits spell.
pub open spec fn decimal_value(s: Seq<char>) -> nat
    decreases s.len(),
{
    if s.len() == 0 {
        0
    } else {
        (decimal_value(s.drop_last()) * 10 + (s.last() as int - '0' as int)) as nat
    }
}

/// `s` is one digit or more.
pub open spec fn all_digits(s: Seq<char>) -> bool {
    s.len() > 0 && forall|i: int| 0 <= i < s.len() ==> is_digit(#[trigger] s[i])
}

/// `s` without a plus sign at its start.
pub open spec fn unsigned(s: Seq<char>) -> Seq<char> {
    if s.len() > 0 && s[0] == '+' {
        s.drop_first()
    } else {
        s
    }
}

/// The views of optional texts and of lists of texts leave nothing out.
pub proof fn law_views(o: Option<String>, b: Option<&str>, v: Seq<String>)
    ensures
        o matches Some(s) ==> opt_view(o) == Some(s@),
        o is None ==> opt_view(o) is None,
        b matches Some(s) ==> opt_str(b) == Some(s@),
        b is None ==> opt_str(b) is None,
        texts(v).len() == v.len(),
        forall|i: int| 0 <= i < v.len() ==> #[trigger] texts(v)[i] == v[i]@,
{
}

/// Lower case keeps the length, moves the capital letters of ASCII up by 32, and keeps every other
/// character.
pub proof fn law_lower_case(s: Seq<char>)
    ensures
        lower(s).len() == s.len(),
        forall|i: int|
            0 <= i < s.len() && 65 <= s[i] as u32 <= 90 ==> #[trigger] lower(s)[i] as u32 == s[i] as u32
                + 32,
        forall|i: int|
            0 <= i < s.len() && !(65 <= s[i] as u32 <= 90) ==> #[trigger] lower(s)[i] == s[i],
        lower(lower(s)) == lower(s),
{
    lemma_lower_twice(s);
}

/// White space is the control characters from tab to carriage return, the space, the next line, and
/// the separators of Unicode.
pub proof fn law_white_space(c: char)
    ensures
        is_white_space(c) <==> {
            let u = c as u32;
            ||| 9 <= u <= 13
            ||| u == 32
            ||| u == 133
            ||| u == 160
            ||| u == 5760
            ||| 8192 <= u <= 8202
            ||| u == 8232
            ||| u == 8233
            ||| u == 8239
            ||| u == 8287
            ||| u == 12288
        },
{
}

/// What trimming the start leaves is the rest of the text, behind white space alone.
proof fn lemma_trim_start(s: Seq<char>)
    ensures
        trim_start(s).len() <= s.len(),
        trim_start(s) == s.skip(s.len() - trim_start(s).len()),
        forall|i: int|
            0 <= i < s.len() - trim_start(s).len() ==> is_white_space(#[trigger] s[i]),
        trim_start(s).len() > 0 ==> !is_white_space(trim_start(s)[0]),
    decreases s.len(),
{
    if s.len() > 0 && is_white_space(s[0]) {
        let tail = s.drop_first();
        lemma_trim_start(tail);
        assert(trim_start(s) =~= s.skip(s.len() - trim_start(s).len()));
        assert forall|i: int| 0 <= i < s.len() - trim_start(s).len() implies is_white_space(
            #[trigger] s[i],
        ) by {
            if i > 0 {
                assert(tail[i - 1] == s[i]);
            }
        }
    } else {
        assert(s.skip(0) =~= s);
    }
}

/// What trimming the end takes is white space alone.
proof fn lemma_trim_end_rest(s: Seq<char>)
    ensures
        forall|i: int| trim_end(s).len() <= i < s.len() ==> is_white_space(#[trigger] s[i]),
        trim_end(s).len() > 0 ==> !is_white_space(trim_end(s).last()),
    decreases s.len(),
{
    lemma_trim_end(s);
    if s.len() > 0 && is_white_space(s.last()) {
        let front = s.drop_last();
        lemma_trim_end_rest(front);
        assert forall|i: int| trim_end(s).len() <= i < s.len() implies is_white_space(
            #[trigger] s[i],
        ) by {
            if i < s.len() - 1 {
                assert(front[i] == s[i]);
            }
        }
    }
}

/// Trimming takes white space from both ends and nothing else: what is left stands between two
/// runs of white space, and neither begins nor ends with any.
pub proof fn law_trimmed(s: Seq<char>)
    ensures
        exists|a: int, b: int|
            0 <= a <= b <= s.len() && trimmed(s) == #[trigger] s.subrange(a, b) && (forall|i: int|
                0 <= i < a || b <= i < s.len() ==> is_white_space(#[trigger] s[i])),
        trimmed(s).len() > 0 ==> !is_white_space(trimmed(s)[0]) && !is_white_space(
            trimmed(s).last(),
        ),
        trimmed(s).len() == 0 <==> (forall|i: int|
            0 <= i < s.len() ==> is_white_space(#[trigger] s[i])),
{
    lemma_trim_start(s);
    let rest = trim_start(s);
    lemma_trim_end(rest);
    lemma_trim_end_rest(rest);
    let a = s.len() - rest.len();
    let b = a + trimmed(s).len();
    assert(trimmed(s) =~= s.subrange(a, b));
    assert forall|i: int| 0 <= i < a || b <= i < s.len() implies is_white_space(
        #[trigger] s[i],
    ) by {
        if i >= b {
            assert(rest[i - a] == s[i]);
        }
    }
    if trimmed(s).len() > 0 {
        assert(trimmed(s)[0] == rest[0]);
        assert(s[a] == rest[0]);
    } else {
        assert(a == b);
    }
}

/// A number below ten is its digit, and any other is the number without its last digit, and that
/// digit behind it.
pub proof fn law_decimal(q: nat, d: nat)
    requires
        d < 10,
    ensures
        decimal(d).len() == 1,
        decimal(d)[0] as u32 == 48 + d,
        q > 0 ==> decimal(10 * q + d).len() == decimal(q).len() + 1,
        q > 0 ==> decimal(10 * q + d).last() as u32 == 48 + d,
        q > 0 ==> decimal(10 * q + d).drop_last() == decimal(q),
{
    if q > 0 {
        assert((10 * q + d) / 10 == q);
        assert((10 * q + d) % 10 == d);
        assert(decimal(10 * q + d).drop_last() =~= decimal(q));
    }
}

/// The value of digits grows by ten for each digit behind them.
pub proof fn law_decimal_value(s: Seq<char>, d: nat)
    requires
        d < 10,
    ensures
        decimal_value(Seq::empty()) == 0,
        decimal_value(s + decimal(d)) == 10 * decimal_value(s) + d,
{
    assert((s + decimal(d)).drop_last() =~= s);
}

/// Digits are one or more of the ten ASCII digits.
pub proof fn law_digits(s: Seq<char>)
    ensures
        all_digits(s) <==> s.len() > 0 && forall|i: int|
            0 <= i < s.len() ==> '0' <= #[trigger] s[i] <= '9',
        s.len() > 0 && s[0] == '+' ==> unsigned(s) == s.skip(1),
        s.len() == 0 || s[0] != '+' ==> unsigned(s) == s,
{
    assert forall|i: int| 0 <= i < s.len() implies (is_digit(s[i]) <==> '0' <= #[trigger] s[i]
        <= '9') by {}
    if s.len() > 0 && s[0] == '+' {
        assert(s.drop_first() =~= s.skip(1));
    }
}

/// What stands before the first `c`, that `c`, and what stands behind it make up the text; without
/// a `c` all of it stands before.
pub proof fn law_before_and_after(s: Seq<char>, c: char)
    ensures
        !before(s, c).contains(c),
        after(s, c) is Some <==> s.contains(c),
        after(s, c) matches Some(rest) ==> s == before(s, c) + seq![c] + rest,
        after(s, c) is None ==> before(s, c) == s,
{
    lemma_before(s, c);
    let n = before(s, c).len() as int;
    if n < s.len() {
        assert(s[n] == c);
        assert(s =~= before(s, c) + seq![c] + s.skip(n + 1));
    } else {
        assert(before(s, c) =~= s);
    }
}

/// The parts of a list with the commas between them.
pub open spec fn comma_joined(parts: Seq<Seq<char>>) -> Seq<char>
    decreases parts.len(),
{
    if parts.len() == 0 {
        Seq::empty()
    } else if parts.len() == 1 {
        parts[0]
    } else {
        parts[0] + seq![','] + comma_joined(parts.drop_first())
    }
}

/// The parts between commas hold no comma, and with the commas between them they are the text.
pub proof fn law_comma_parts(s: Seq<char>)
    ensures
        comma_parts(s).len() > 0,
        comma_joined(comma_parts(s)) == s,
        forall|i: int| 0 <= i < comma_parts(s).len() ==> !(#[trigger] comma_parts(s)[i]).contains(','),
    decreases s.len(),
{
    law_before_and_after(s, ',');
    if let Some(rest) = after(s, ',') {
        law_comma_parts(rest);
        let parts = comma_parts(s);
        let tail = comma_parts(rest);
        assert(parts.drop_first() =~= tail);
        assert forall|i: int| 0 <= i < parts.len() implies !(#[trigger] parts[i]).contains(',') by {
            if i > 0 {
                assert(parts[i] == tail[i - 1]);
            }
        }
    }
}

/// Two parts of a path that are not empty join to a path that ends with the second and begins with
/// the first but for the slashes at its end. Between them stands one slash: the join is no longer
/// than the two and a slash, and neither part is changed where one of them, and not both, has the
/// slash.
pub proof fn law_slash_join(base: Seq<char>, path: Seq<char>)
    requires
        base.len() > 0,
        path.len() > 0,
    ensures
        path.is_suffix_of(slash_joined(base, path)),
        base.last() != '/' ==> base.is_prefix_of(slash_joined(base, path)),
        base.last() != '/' && path[0] == '/' ==> slash_joined(base, path) == base + path,
        base.last() == '/' && path[0] != '/' ==> slash_joined(base, path) == base + path,
        base.last() != '/' && path[0] != '/' ==> slash_joined(base, path) == base + seq!['/']
            + path,
        base.last() == '/' && path[0] == '/' ==> exists|n: int|
            0 <= n < base.len() && slash_joined(base, path) == #[trigger] base.take(n) + path && (
            n == 0 || base[n - 1] != '/') && forall|i: int|
                n <= i < base.len() ==> #[trigger] base[i] == '/',
{
    reveal_strlit("/");
    let joined = slash_joined(base, path);
    assert("/"@ =~= seq!['/']);
    assert(path =~= joined.subrange(joined.len() - path.len(), joined.len() as int));
    if base.last() != '/' {
        assert(base =~= joined.subrange(0, base.len() as int));
    }
    if base.last() == '/' && path[0] == '/' {
        lemma_trim_end_slashes(base);
        let n = trim_end_slashes(base).len() as int;
        let trimmed_base = trim_end_slashes(base);
        assert(trimmed_base =~= base.take(n));
        if n > 0 {
            assert(trimmed_base.last() == base[n - 1]);
        }
        assert(joined == base.take(n) + path);
        assert(n < base.len());
    }
}

/// The value of a number in decimal is the number.
pub proof fn lemma_decimal_value(n: nat)
    ensures
        decimal_value(decimal(n)) == n,
    decreases n,
{
    if n < 10 {
        let s = decimal(n);
        assert(s.drop_last() =~= Seq::empty());
        assert(decimal_value(s.drop_last()) == 0);
    } else {
        lemma_decimal_value(n / 10);
        let s = decimal(n);
        assert(s.drop_last() =~= decimal(n / 10));
    }
}

} // verus!
