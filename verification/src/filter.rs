//! The filter that decides which lines of the log are kept, and the texts that are taken as one.

use vstd::prelude::*;
use vstd::string::*;
use vstd::utf8::*;

use crate::text;

verus! {

/// Whether `EnvFilter::try_new` takes a text as a filter.
pub uninterp spec fn is_filter(directives: Seq<char>) -> bool;

/// How many bytes a text takes in UTF-8.
pub open spec fn width(s: Seq<char>) -> nat {
    encode_utf8(s).len()
}

/// A cut behind the first `offset` bytes of `s` goes between two characters, or is at an end.
pub open spec fn can_cut(s: Seq<char>, offset: nat) -> bool {
    exists|j: int| 0 <= j <= s.len() && offset == width(#[trigger] s.take(j))
}

/// What is being read of a directive `target[span{field=value}]=level`, whose parts can be left out.
#[derive(Debug, Clone, Copy, PartialEq, Eq, Structural)]
pub enum Reading {
    Start,
    Target,
    Span,
    Field,
    BehindField,
    BehindSpan,
}

/// A directive is read in `core`, the text without the white space around it, but its parts are cut
/// out of `whole`, the text with that: the target before `=` or `[`, the span before `]` or `{`, the
/// field before `}`, and the level behind `=`. Each cut that is made from the character `k` of
/// `core` on goes between two characters of `whole`.
pub open spec fn cuts_fit(whole: Seq<char>, core: Seq<char>, k: int, reading: Reading) -> bool
    decreases core.len() - k,
{
    if k < 0 || k >= core.len() {
        true
    } else {
        let c = core[k];
        let here = can_cut(whole, width(core.take(k)));
        let behind = can_cut(whole, width(core.take(k)) + 1);
        match reading {
            Reading::Start => if c == '[' {
                behind && cuts_fit(whole, core, k + 1, Reading::Span)
            } else {
                cuts_fit(whole, core, k + 1, Reading::Target)
            },
            Reading::Target => if c == '=' {
                here && behind
            } else if c == '[' {
                here && behind && cuts_fit(whole, core, k + 1, Reading::Span)
            } else {
                cuts_fit(whole, core, k + 1, Reading::Target)
            },
            Reading::Span => if c == ']' {
                here && cuts_fit(whole, core, k + 1, Reading::BehindSpan)
            } else if c == '{' {
                here && behind && cuts_fit(whole, core, k + 1, Reading::Field)
            } else {
                cuts_fit(whole, core, k + 1, Reading::Span)
            },
            Reading::Field => if c == '}' {
                here && cuts_fit(whole, core, k + 1, Reading::BehindField)
            } else {
                cuts_fit(whole, core, k + 1, Reading::Field)
            },
            Reading::BehindField => c == ']' ==> cuts_fit(
                whole,
                core,
                k + 1,
                Reading::BehindSpan,
            ),
            Reading::BehindSpan => c == '=' ==> behind,
        }
    }
}

/// No part of the directive is cut out inside a character.
pub open spec fn is_sliceable(directive: Seq<char>) -> bool {
    cuts_fit(directive, text::trimmed(directive), 0, Reading::Start)
}

/// Every directive of a filter, between commas, can be taken apart.
pub open spec fn can_be_read(directives: Seq<char>) -> bool {
    forall|i: int|
        0 <= i < text::comma_parts(directives).len() ==> is_sliceable(
            #[trigger] text::comma_parts(directives)[i],
        )
}

/// The text can be taken apart and is a filter.
pub open spec fn is_accepted(directives: Seq<char>) -> bool {
    can_be_read(directives) && is_filter(directives)
}

/// `EnvFilter::try_new` takes a text of valid directives as a filter, and no other. It panics where
/// it cuts a directive inside a character, which white space before the directive can bring about:
/// such a text is left out. One is also left out if `try_new` would fail before it made that cut,
/// and so is no filter either way. A pattern for the value of a field is compiled, and takes the
/// memory that its automaton needs.
#[verifier::external_body]
pub(crate) fn filter_is_valid(directives: &str) -> (r: bool)
    requires
        can_be_read(directives@),
    ensures
        r == is_filter(directives@),
{
    tracing_subscriber::EnvFilter::try_new(directives).is_ok()
}

/// One more character adds the bytes of its own.
proof fn lemma_width_push(s: Seq<char>, c: char)
    ensures
        encode_utf8(s.push(c)) == encode_utf8(s) + encode_scalar(c as u32),
    decreases s.len(),
{
    if s.len() == 0 {
        assert(s.push(c).drop_first() =~= s);
        assert(encode_utf8(s) =~= Seq::empty());
        assert(encode_utf8(s.push(c)) =~= encode_scalar(c as u32));
    } else {
        assert(s.push(c).drop_first() =~= s.drop_first().push(c));
        lemma_width_push(s.drop_first(), c);
        assert(encode_utf8(s.push(c)) =~= encode_utf8(s) + encode_scalar(c as u32));
    }
}

/// How the bytes grow with one more character of `s`.
proof fn lemma_width_step(s: Seq<char>, k: int)
    requires
        0 <= k < s.len(),
    ensures
        width(s.take(k + 1)) == width(s.take(k)) + encode_scalar(s[k] as u32).len(),
        1 <= encode_scalar(s[k] as u32).len() <= 4,
{
    lemma_width_push(s.take(k), s[k]);
    assert(s.take(k + 1) =~= s.take(k).push(s[k]));
}

/// A longer part of `s` takes more bytes.
proof fn lemma_width_grows(s: Seq<char>, j: int, k: int)
    requires
        0 <= j <= k <= s.len(),
    ensures
        width(s.take(j)) + (k - j) <= width(s.take(k)) <= 4 * k,
    decreases k,
{
    if k == 0 {
        assert(s.take(0) =~= Seq::empty());
    } else if j == k {
        lemma_width_grows(s, k - 1, k - 1);
        lemma_width_step(s, k - 1);
    } else {
        lemma_width_grows(s, j, k - 1);
        lemma_width_step(s, k - 1);
    }
}

/// How many bytes a character takes in UTF-8.
fn char_width(c: char) -> (r: u128)
    ensures
        r == encode_scalar(c as u32).len(),
{
    if c <= '\u{7f}' {
        1
    } else if c <= '\u{7ff}' {
        2
    } else if c <= '\u{ffff}' {
        3
    } else {
        4
    }
}

/// Whether the text from `start` to `end` can be cut behind its first `offset` bytes.
fn is_boundary(cs: &Vec<char>, start: usize, end: usize, offset: u128) -> (r: bool)
    requires
        start <= end <= cs@.len(),
    ensures
        r == can_cut(cs@.subrange(start as int, end as int), offset as nat),
{
    let ghost s = cs@.subrange(start as int, end as int);
    let mut i: usize = start;
    let mut bytes: u128 = 0;
    assert(s.take(0) =~= Seq::empty());
    while i < end && bytes < offset
        invariant
            start <= i <= end <= cs@.len(),
            s == cs@.subrange(start as int, end as int),
            bytes == width(s.take(i - start)),
            forall|j: int| 0 <= j < i - start ==> width(#[trigger] s.take(j)) < offset,
        decreases end - i,
    {
        proof {
            lemma_width_step(s, i - start);
            lemma_width_grows(s, i - start, i - start);
        }
        bytes = bytes + char_width(cs[i]);
        i += 1;
    }
    proof {
        let n = i - start;
        if bytes == offset {
            assert(can_cut(s, offset as nat)) by {
                assert(offset == width(s.take(n)));
            }
        } else {
            assert forall|j: int| 0 <= j <= s.len() implies width(#[trigger] s.take(j))
                != offset by {
                if j >= n {
                    lemma_width_grows(s, n, j);
                }
            }
        }
    }
    bytes == offset
}

/// Whether the directive from `start` to `end` can be taken apart.
fn part_is_sliceable(cs: &Vec<char>, start: usize, end: usize) -> (r: bool)
    requires
        start <= end <= cs@.len(),
    ensures
        r == is_sliceable(cs@.subrange(start as int, end as int)),
{
    let (from, to) = text::trim_bounds(cs, start, end);
    let ghost whole = cs@.subrange(start as int, end as int);
    let ghost core = cs@.subrange(from as int, to as int);
    let mut reading = Reading::Start;
    let mut i: usize = from;
    let mut bytes: u128 = 0;
    assert(core.take(0) =~= Seq::empty());
    while i < to
        invariant
            start <= from <= i <= to <= end <= cs@.len(),
            whole == cs@.subrange(start as int, end as int),
            core == cs@.subrange(from as int, to as int),
            core == text::trimmed(whole),
            bytes == width(core.take(i - from)),
            is_sliceable(whole) == cuts_fit(whole, core, i - from, reading),
        decreases to - i,
    {
        let c = cs[i];
        proof {
            assert(core[i - from] == c);
            lemma_width_step(core, i - from);
            lemma_width_grows(core, i - from, i - from);
        }
        match reading {
            Reading::Start => {
                if c == '[' {
                    if !is_boundary(cs, start, end, bytes + 1) {
                        return false;
                    }
                    reading = Reading::Span;
                } else {
                    reading = Reading::Target;
                }
            },
            Reading::Target => {
                if c == '=' || c == '[' {
                    if !is_boundary(cs, start, end, bytes) || !is_boundary(
                        cs,
                        start,
                        end,
                        bytes + 1,
                    ) {
                        return false;
                    }
                    if c == '=' {
                        return true;
                    }
                    reading = Reading::Span;
                }
            },
            Reading::Span => {
                if c == ']' || c == '{' {
                    if !is_boundary(cs, start, end, bytes) {
                        return false;
                    }
                    if c == ']' {
                        reading = Reading::BehindSpan;
                    } else {
                        if !is_boundary(cs, start, end, bytes + 1) {
                            return false;
                        }
                        reading = Reading::Field;
                    }
                }
            },
            Reading::Field => {
                if c == '}' {
                    if !is_boundary(cs, start, end, bytes) {
                        return false;
                    }
                    reading = Reading::BehindField;
                }
            },
            Reading::BehindField => {
                if c != ']' {
                    return true;
                }
                reading = Reading::BehindSpan;
            },
            Reading::BehindSpan => {
                return c != '=' || is_boundary(cs, start, end, bytes + 1);
            },
        }
        bytes = bytes + char_width(c);
        i += 1;
    }
    true
}

/// A filter can be read if its first directive can be taken apart and the rest can be read.
proof fn lemma_can_be_read_step(s: Seq<char>)
    ensures
        match text::after(s, ',') {
            Some(rest) => can_be_read(s) <==> is_sliceable(text::before(s, ',')) && can_be_read(
                rest,
            ),
            None => can_be_read(s) <==> is_sliceable(s),
        },
{
    text::lemma_before(s, ',');
    let parts = text::comma_parts(s);
    match text::after(s, ',') {
        Some(rest) => {
            let tail = text::comma_parts(rest);
            assert(parts == seq![text::before(s, ',')] + tail);
            assert(parts[0] == text::before(s, ','));
            if can_be_read(s) {
                assert forall|i: int| 0 <= i < tail.len() implies is_sliceable(
                    #[trigger] tail[i],
                ) by {
                    assert(parts[i + 1] == tail[i]);
                }
            }
            if is_sliceable(text::before(s, ',')) && can_be_read(rest) {
                assert forall|i: int| 0 <= i < parts.len() implies is_sliceable(
                    #[trigger] parts[i],
                ) by {
                    if i > 0 {
                        assert(tail[i - 1] == parts[i]);
                    }
                }
            }
        },
        None => {
            assert(parts[0] == s);
        },
    }
}

/// Whether every directive of a filter can be taken apart.
fn is_readable(directives: &str) -> (r: bool)
    ensures
        r == can_be_read(directives@),
{
    let cs = text::chars_of(directives);
    let mut start: usize = 0;
    let ghost mut rest = directives@;
    assert(cs@.skip(0) =~= cs@);
    loop
        invariant
            start <= cs@.len(),
            cs@ == directives@,
            rest == cs@.skip(start as int),
            can_be_read(directives@) == can_be_read(rest),
        decreases cs@.len() - start,
    {
        proof {
            text::lemma_before(rest, ',');
            lemma_can_be_read_step(rest);
        }
        let end = text::next_comma(&cs, start);
        let ghost part = cs@.subrange(start as int, end as int);
        assert(part =~= text::before(rest, ','));
        if !part_is_sliceable(&cs, start, end) {
            assert(end == cs.len() ==> part =~= rest);
            return false;
        }
        if end == cs.len() {
            assert(part =~= rest);
            return true;
        }
        start = end + 1;
        proof {
            assert(rest.skip(part.len() as int + 1) =~= cs@.skip(start as int));
            rest = cs@.skip(start as int);
        }
    }
}

/// Whether a text can be read as a filter and is one.
pub fn accepts_filter(directives: &str) -> (r: bool)
    ensures
        r == is_accepted(directives@),
{
    is_readable(directives) && filter_is_valid(directives)
}

/// The filter that holds, given whether that of the environment and the level are accepted.
pub fn choose_filter(
    env: Option<&str>,
    env_accepted: bool,
    level: &str,
    level_accepted: bool,
) -> (r: String)
    ensures
        r@ == chosen_filter(text::opt_str(env), env_accepted, level@, level_accepted),
{
    if env_accepted {
        if let Some(directives) = env {
            return directives.to_owned();
        }
    }
    if level_accepted {
        level.to_owned()
    } else {
        "info".to_owned()
    }
}

/// The filter that holds where the environment has `env` for one and `level` is asked for.
pub fn filter_for(level: &str, env: Option<&str>) -> (r: String)
    ensures
        r@ == chosen_filter(
            text::opt_str(env),
            is_some_accepted(text::opt_str(env)),
            level@,
            is_accepted(level@),
        ),
{
    let env_accepted = match env {
        Some(directives) => accepts_filter(directives),
        None => false,
    };
    let level_accepted = !env_accepted && accepts_filter(level);
    choose_filter(env, env_accepted, level, level_accepted)
}

/// The filter that holds: that of the environment if it is accepted, else the level if that is,
/// else `info`.
pub open spec fn chosen_filter(
    env: Option<Seq<char>>,
    env_accepted: bool,
    level: Seq<char>,
    level_accepted: bool,
) -> Seq<char> {
    if env is Some && env_accepted {
        env->Some_0
    } else if level_accepted {
        level
    } else {
        "info"@
    }
}

/// `directives` are there and are accepted as a filter.
pub open spec fn is_some_accepted(directives: Option<Seq<char>>) -> bool {
    directives is Some && is_accepted(directives->Some_0)
}

/// Where nothing was trimmed from the start, each cut goes where it was found.
proof fn lemma_cuts_of_first_part(whole: Seq<char>, core: Seq<char>, k: int, reading: Reading)
    requires
        core.len() <= whole.len(),
        core == whole.take(core.len() as int),
        0 <= k,
    ensures
        cuts_fit(whole, core, k, reading),
    decreases core.len() - k,
{
    if k < core.len() {
        assert(core.take(k) =~= whole.take(k));
        assert(core[k] == whole[k]);
        lemma_width_step(whole, k);
        assert(can_cut(whole, width(whole.take(k))));
        assert(can_cut(whole, width(whole.take(k + 1))));
        lemma_cuts_of_first_part(whole, core, k + 1, Reading::Target);
        lemma_cuts_of_first_part(whole, core, k + 1, Reading::Span);
        lemma_cuts_of_first_part(whole, core, k + 1, Reading::Field);
        lemma_cuts_of_first_part(whole, core, k + 1, Reading::BehindField);
        lemma_cuts_of_first_part(whole, core, k + 1, Reading::BehindSpan);
    }
}

/// A directive that does not begin with white space can always be taken apart.
pub proof fn law_directive_without_indent(directive: Seq<char>)
    requires
        directive.len() == 0 || !text::is_white_space(directive[0]),
    ensures
        is_sliceable(directive),
{
    text::lemma_trim_end(directive);
    lemma_cuts_of_first_part(directive, text::trimmed(directive), 0, Reading::Start);
}

/// Cuts in ASCII text go between characters, wherever they are.
proof fn lemma_ascii_cuts(whole: Seq<char>, offset: nat)
    requires
        is_ascii_chars(whole),
        offset <= whole.len(),
    ensures
        can_cut(whole, offset),
{
    lemma_ascii_width(whole, offset as int);
    assert(width(whole.take(offset as int)) == offset);
}

/// ASCII text takes a byte for each character.
proof fn lemma_ascii_width(s: Seq<char>, k: int)
    requires
        is_ascii_chars(s),
        0 <= k <= s.len(),
    ensures
        width(s.take(k)) == k,
{
    let part = s.take(k);
    assert(is_ascii_chars(part)) by {
        assert forall|i: int| 0 <= i < part.len() implies '\0' <= #[trigger] part[i] <= '\u{7f}' by {
            assert(part[i] == s[i]);
        }
    }
    is_ascii_chars_encode_utf8(part);
}

/// Every cut in ASCII text goes between characters.
proof fn lemma_ascii_cuts_fit(whole: Seq<char>, core: Seq<char>, k: int, reading: Reading)
    requires
        is_ascii_chars(whole),
        is_ascii_chars(core),
        core.len() <= whole.len(),
        0 <= k,
    ensures
        cuts_fit(whole, core, k, reading),
    decreases core.len() - k,
{
    if k < core.len() {
        lemma_ascii_width(core, k);
        lemma_ascii_cuts(whole, k as nat);
        lemma_ascii_cuts(whole, (k + 1) as nat);
        lemma_ascii_cuts_fit(whole, core, k + 1, Reading::Target);
        lemma_ascii_cuts_fit(whole, core, k + 1, Reading::Span);
        lemma_ascii_cuts_fit(whole, core, k + 1, Reading::Field);
        lemma_ascii_cuts_fit(whole, core, k + 1, Reading::BehindField);
        lemma_ascii_cuts_fit(whole, core, k + 1, Reading::BehindSpan);
    }
}

/// Every ASCII text can be taken apart, so it is accepted just where it is a filter.
pub proof fn law_ascii_filter(directives: Seq<char>)
    requires
        is_ascii_chars(directives),
    ensures
        is_accepted(directives) <==> is_filter(directives),
{
    let parts = text::comma_parts(directives);
    assert forall|i: int| 0 <= i < parts.len() implies is_sliceable(#[trigger] parts[i]) by {
        lemma_part_is_ascii(directives, i);
        text::law_trimmed(parts[i]);
        let (a, b) = choose|a: int, b: int|
            0 <= a <= b <= parts[i].len() && text::trimmed(parts[i]) == #[trigger] parts[i].subrange(
                a,
                b,
            ) && (forall|k: int|
                0 <= k < a || b <= k < parts[i].len() ==> text::is_white_space(
                    #[trigger] parts[i][k],
                ));
        let core = text::trimmed(parts[i]);
        assert forall|k: int| 0 <= k < core.len() implies '\0' <= #[trigger] core[k] <= '\u{7f}' by {
            assert(core[k] == parts[i][a + k]);
        }
        lemma_ascii_cuts_fit(parts[i], core, 0, Reading::Start);
    }
}

/// The parts of an ASCII text are ASCII.
proof fn lemma_part_is_ascii(s: Seq<char>, i: int)
    requires
        is_ascii_chars(s),
        0 <= i < text::comma_parts(s).len(),
    ensures
        is_ascii_chars(text::comma_parts(s)[i]),
    decreases s.len(),
{
    text::lemma_before(s, ',');
    let first = text::before(s, ',');
    if let Some(rest) = text::after(s, ',') {
        assert(text::comma_parts(s) == seq![first] + text::comma_parts(rest));
        if i == 0 {
            assert forall|k: int| 0 <= k < first.len() implies '\0' <= #[trigger] first[k] <= '\u{7f}' by {
                assert(first[k] == s[k]);
            }
        } else {
            assert forall|k: int| 0 <= k < rest.len() implies '\0' <= #[trigger] rest[k] <= '\u{7f}' by {
                assert(rest[k] == s[first.len() + 1 + k]);
            }
            lemma_part_is_ascii(rest, i - 1);
            assert(text::comma_parts(s)[i] == text::comma_parts(rest)[i - 1]);
        }
    }
}

/// A filter without white space at the start of any directive is accepted just where it is one.
pub proof fn law_filter_without_indents(directives: Seq<char>)
    requires
        forall|i: int|
            0 <= i < text::comma_parts(directives).len() ==> {
                let part = #[trigger] text::comma_parts(directives)[i];
                part.len() == 0 || !text::is_white_space(part[0])
            },
    ensures
        is_accepted(directives) <==> is_filter(directives),
{
    let parts = text::comma_parts(directives);
    assert forall|i: int| 0 <= i < parts.len() implies is_sliceable(#[trigger] parts[i]) by {
        law_directive_without_indent(parts[i]);
    }
}

/// The filter in force is that of the environment if there is one that is accepted, else the level
/// if that is accepted, else `info`.
pub proof fn law_filter_in_force(
    env: Option<Seq<char>>,
    env_accepted: bool,
    level: Seq<char>,
    level_accepted: bool,
)
    ensures
        env matches Some(directives) ==> (env_accepted ==> chosen_filter(
            env,
            env_accepted,
            level,
            level_accepted,
        ) == directives),
        (env is None || !env_accepted) && level_accepted ==> chosen_filter(
            env,
            env_accepted,
            level,
            level_accepted,
        ) == level,
        (env is None || !env_accepted) && !level_accepted ==> chosen_filter(
            env,
            env_accepted,
            level,
            level_accepted,
        ) == "info"@,
        env matches Some(directives) ==> (is_some_accepted(env) <==> is_accepted(directives)),
        env is None ==> !is_some_accepted(env),
{
}

/// A text can be cut behind any number of its characters, and neither inside a character nor behind
/// the end.
pub proof fn law_cuts(s: Seq<char>, j: int, offset: nat)
    requires
        0 <= j <= s.len(),
    ensures
        can_cut(s, encode_utf8(s.take(j)).len()),
        j < s.len() && encode_utf8(s.take(j)).len() < offset < encode_utf8(s.take(j + 1)).len()
            ==> !can_cut(s, offset),
        offset > encode_utf8(s).len() ==> !can_cut(s, offset),
{
    assert(can_cut(s, width(s.take(j))));
    assert(s.take(s.len() as int) =~= s);
    assert forall|i: int|
        0 <= i <= s.len() && (offset > width(s) || (j < s.len() && width(s.take(j)) < offset < width(
            s.take(j + 1),
        ))) implies offset != width(#[trigger] s.take(i)) by {
        lemma_width_grows(s, i, s.len() as int);
        if i <= j {
            lemma_width_grows(s, i, j);
        } else {
            lemma_width_grows(s, j + 1, i);
        }
    }
}

/// Up to its first `=` or `[` a directive is its target.
proof fn lemma_target_goes_on(whole: Seq<char>, core: Seq<char>, from: int, k: int)
    requires
        1 <= from <= k < core.len(),
        forall|i: int| from <= i < k ==> #[trigger] core[i] != '=' && core[i] != '[',
    ensures
        cuts_fit(whole, core, from, Reading::Target) == cuts_fit(whole, core, k, Reading::Target),
    decreases k - from,
{
    if from < k {
        lemma_target_goes_on(whole, core, from + 1, k);
    }
}

/// Up to its first `]` or `{` a span is its name.
proof fn lemma_span_goes_on(whole: Seq<char>, core: Seq<char>, from: int, k: int)
    requires
        1 <= from <= k < core.len(),
        forall|i: int| from <= i < k ==> #[trigger] core[i] != ']' && core[i] != '{',
    ensures
        cuts_fit(whole, core, from, Reading::Span) == cuts_fit(whole, core, k, Reading::Span),
    decreases k - from,
{
    if from < k {
        lemma_span_goes_on(whole, core, from + 1, k);
    }
}

/// `target=level` can be taken apart just where the bytes of the target, and those of the target
/// and the `=`, end a character of the text with its indent; where `[` ends the target, it cannot
/// be unless they do.
pub proof fn law_target_and_level(directive: Seq<char>, k: int)
    requires
        0 < k < text::trimmed(directive).len(),
        text::trimmed(directive)[0] != '[',
        forall|i: int|
            0 < i < k ==> #[trigger] text::trimmed(directive)[i] != '=' && text::trimmed(
                directive,
            )[i] != '[',
    ensures
        ({
            let core = text::trimmed(directive);
            let target = encode_utf8(core.take(k)).len();
            let fits = can_cut(directive, target) && can_cut(directive, target + 1);
            &&& core[k] == '=' ==> (is_sliceable(directive) <==> fits)
            &&& core[k] == '[' && !fits ==> !is_sliceable(directive)
        }),
{
    let core = text::trimmed(directive);
    lemma_target_goes_on(directive, core, 1, k);
    assert(is_sliceable(directive) == cuts_fit(directive, core, 1, Reading::Target));
}

/// `[span]`, `[span]=level` and the like can be taken apart only where the `[`, and the bytes before
/// the `]` or the `{`, end a character of the text with its indent, and so does the `{`; `[span]`
/// with nothing behind it needs no more than that.
pub proof fn law_span(directive: Seq<char>, k: int)
    requires
        0 < k < text::trimmed(directive).len(),
        text::trimmed(directive)[0] == '[',
        forall|i: int|
            0 < i < k ==> #[trigger] text::trimmed(directive)[i] != ']' && text::trimmed(
                directive,
            )[i] != '{',
    ensures
        ({
            let core = text::trimmed(directive);
            let name = encode_utf8(core.take(k)).len();
            let fits = can_cut(directive, 1) && can_cut(directive, name);
            &&& core[k] == ']' && k + 1 == core.len() ==> (is_sliceable(directive) <==> fits)
            &&& core[k] == ']' && k + 1 < core.len() && core[k + 1] == '=' ==> (is_sliceable(
                directive,
            ) <==> fits && can_cut(directive, encode_utf8(core.take(k + 1)).len() + 1))
            &&& core[k] == ']' && k + 1 < core.len() && core[k + 1] != '=' ==> (is_sliceable(
                directive,
            ) <==> fits)
            &&& core[k] == '{' && !(fits && can_cut(directive, name + 1)) ==> !is_sliceable(
                directive,
            )
        }),
{
    let core = text::trimmed(directive);
    assert(core.take(0) =~= Seq::empty());
    assert(width(core.take(0)) == 0);
    lemma_span_goes_on(directive, core, 1, k);
    reveal_with_fuel(cuts_fit, 3);
}

/// A filter can be read just where its first directive can be taken apart and the rest can be read.
pub proof fn law_each_directive_counts(first: Seq<char>, rest: Seq<char>)
    requires
        !first.contains(','),
    ensures
        can_be_read(first) <==> is_sliceable(first),
        can_be_read(first + seq![','] + rest) <==> is_sliceable(first) && can_be_read(rest),
        is_accepted(rest) <==> can_be_read(rest) && is_filter(rest),
{
    let whole = first + seq![','] + rest;
    text::law_before_and_after(first, ',');
    lemma_can_be_read_step(first);
    text::lemma_before(whole, ',');
    lemma_can_be_read_step(whole);
    let cut = text::before(whole, ',');
    assert(whole[first.len() as int] == ',');
    if cut.len() < first.len() {
        assert(first[cut.len() as int] == whole[cut.len() as int]);
    }
    assert(cut =~= first);
    assert(text::after(whole, ',')->Some_0 =~= rest);
}

} // verus!
