//! The properties file of a module: its lines, the value of a key, and the
//! form an identifier must have.

use vstd::prelude::*;
use vstd::string::StrSliceExecFns;
use crate::planner::{is_reserved, is_reserved_id};
use crate::text::text_chars;

verus! {

/// Whether an identifier may begin with the character.
pub open spec fn is_id_start(c: char) -> bool {
    ('A' <= c && c <= 'Z') || ('a' <= c && c <= 'z') || ('0' <= c && c <= '9') || c == '_'
}

/// Whether an identifier may hold the character.
pub open spec fn is_id_char(c: char) -> bool {
    is_id_start(c) || c == '.' || c == '-'
}

/// Whether `id` can be the identifier of a module: a letter, a digit or an
/// underscore, followed by any number of those, dots and hyphens, and no
/// reserved name.
pub open spec fn is_valid_id(id: Seq<char>) -> bool {
    &&& id.len() > 0
    &&& is_id_start(id[0])
    &&& forall|i: int| 0 <= i < id.len() ==> is_id_char(#[trigger] id[i])
    &&& !is_reserved(id)
}

/// An identifier that is not well-formed.
#[derive(Clone, Copy, Debug, PartialEq, Eq, Structural)]
pub struct InvalidId;

/// Whether an identifier may begin with the character.
fn id_start(c: char) -> (r: bool)
    ensures
        r == is_id_start(c),
{
    ('A' <= c && c <= 'Z') || ('a' <= c && c <= 'z') || ('0' <= c && c <= '9') || c == '_'
}

/// Whether an identifier may hold the character.
fn id_char(c: char) -> (r: bool)
    ensures
        r == is_id_char(c),
{
    id_start(c) || c == '.' || c == '-'
}

/// Checks the form of a module's identifier.
pub fn validate_module_id(id: &str) -> (r: Result<(), InvalidId>)
    ensures
        r is Ok <==> is_valid_id(id@),
{
    let chars = text_chars(id);
    if chars.len() == 0 || !id_start(chars[0]) {
        return Err(InvalidId);
    }
    let mut i: usize = 0;
    while i < chars.len()
        invariant
            i <= chars.len(),
            chars@ == id@,
            forall|j: int| 0 <= j < i ==> is_id_char(#[trigger] id@[j]),
        decreases chars.len() - i,
    {
        if !id_char(chars[i]) {
            return Err(InvalidId);
        }
        i = i + 1;
    }
    if is_reserved_id(id) {
        return Err(InvalidId);
    }
    Ok(())
}

/// Whether the character is white space: the code points with the Unicode
/// property White_Space.
pub open spec fn is_space(c: char) -> bool {
    let u = c as u32;
    (0x09 <= u && u <= 0x0d) || u == 0x20 || u == 0x85 || u == 0xa0 || u == 0x1680 || (0x2000 <= u
        && u <= 0x200a) || u == 0x2028 || u == 0x2029 || u == 0x202f || u == 0x205f || u == 0x3000
}

/// Whether the character is white space.
fn space(c: char) -> (r: bool)
    ensures
        r == is_space(c),
{
    let u = c as u32;
    (0x09 <= u && u <= 0x0d) || u == 0x20 || u == 0x85 || u == 0xa0 || u == 0x1680 || (0x2000 <= u
        && u <= 0x200a) || u == 0x2028 || u == 0x2029 || u == 0x202f || u == 0x205f || u == 0x3000
}

/// Where the first line of `s` ends: at its first line feed, or at its end.
pub open spec fn line_end(s: Seq<char>) -> int
    decreases s.len(),
{
    if s.len() == 0 || s[0] == '\n' {
        0
    } else {
        1 + line_end(s.drop_first())
    }
}

/// `line_end` finds the first line feed.
pub proof fn lemma_line_end(s: Seq<char>)
    ensures
        0 <= line_end(s) <= s.len(),
        line_end(s) < s.len() ==> s[line_end(s)] == '\n',
        forall|j: int| 0 <= j < line_end(s) ==> s[j] != '\n',
    decreases s.len(),
{
    if s.len() > 0 && s[0] != '\n' {
        let rest = s.drop_first();
        lemma_line_end(rest);
        assert forall|j: int| 0 <= j < line_end(s) implies s[j] != '\n' by {
            if j > 0 {
                assert(rest[j - 1] == s[j]);
            }
        }
    }
}

/// A place before which there is no line feed, and which holds one or is
/// the end, is where the first line ends.
proof fn lemma_line_end_is(s: Seq<char>, e: int)
    requires
        0 <= e <= s.len(),
        forall|j: int| 0 <= j < e ==> s[j] != '\n',
        e < s.len() ==> s[e] == '\n',
    ensures
        line_end(s) == e,
{
    lemma_line_end(s);
}

/// The first line of `s`, without its line feed and without a carriage
/// return before the line feed.
pub open spec fn first_line(s: Seq<char>) -> Seq<char> {
    let e = line_end(s);
    if 0 < e < s.len() && s[e - 1] == '\r' {
        s.take(e - 1)
    } else {
        s.take(e)
    }
}

/// What follows the first line of `s`.
pub open spec fn after_first_line(s: Seq<char>) -> Seq<char> {
    let e = line_end(s);
    if e < s.len() {
        s.skip(e + 1)
    } else {
        Seq::<char>::empty()
    }
}

/// Whether `s` begins with `prefix`.
pub open spec fn starts_with(s: Seq<char>, prefix: Seq<char>) -> bool {
    prefix.len() <= s.len() && s.take(prefix.len() as int) == prefix
}

/// The place of the first `c` in `s`, or the length of `s` where there is
/// none.
pub open spec fn index_of(s: Seq<char>, c: char) -> int
    decreases s.len(),
{
    if s.len() == 0 || s[0] == c {
        0
    } else {
        1 + index_of(s.drop_first(), c)
    }
}

/// `index_of` finds the first place that holds the character.
pub proof fn lemma_index_of(s: Seq<char>, c: char)
    ensures
        0 <= index_of(s, c) <= s.len(),
        index_of(s, c) < s.len() ==> s[index_of(s, c)] == c,
        forall|j: int| 0 <= j < index_of(s, c) ==> s[j] != c,
    decreases s.len(),
{
    if s.len() > 0 && s[0] != c {
        let rest = s.drop_first();
        lemma_index_of(rest, c);
        assert forall|j: int| 0 <= j < index_of(s, c) implies s[j] != c by {
            if j > 0 {
                assert(rest[j - 1] == s[j]);
            }
        }
    }
}

/// A place before which the character does not stand, and which holds it
/// or is the end, is the one `index_of` finds.
proof fn lemma_index_of_is(s: Seq<char>, c: char, e: int)
    requires
        0 <= e <= s.len(),
        forall|j: int| 0 <= j < e ==> s[j] != c,
        e < s.len() ==> s[e] == c,
    ensures
        index_of(s, c) == e,
{
    lemma_index_of(s, c);
}

/// How many characters of white space `s` begins with.
pub open spec fn leading_space(s: Seq<char>) -> int
    decreases s.len(),
{
    if s.len() == 0 || !is_space(s[0]) {
        0
    } else {
        1 + leading_space(s.drop_first())
    }
}

/// How many characters of white space `s` ends with.
pub open spec fn trailing_space(s: Seq<char>) -> int
    decreases s.len(),
{
    if s.len() == 0 || !is_space(s.last()) {
        0
    } else {
        1 + trailing_space(s.drop_last())
    }
}

/// `s` without the white space at its ends.
pub open spec fn trimmed(s: Seq<char>) -> Seq<char> {
    let a = leading_space(s);
    if a == s.len() {
        Seq::<char>::empty()
    } else {
        s.subrange(a, s.len() - trailing_space(s))
    }
}

/// `leading_space` counts the white space before the first other character.
pub proof fn lemma_leading_space(s: Seq<char>)
    ensures
        0 <= leading_space(s) <= s.len(),
        leading_space(s) < s.len() ==> !is_space(s[leading_space(s)]),
        forall|j: int| 0 <= j < leading_space(s) ==> is_space(s[j]),
    decreases s.len(),
{
    if s.len() > 0 && is_space(s[0]) {
        let rest = s.drop_first();
        lemma_leading_space(rest);
        assert forall|j: int| 0 <= j < leading_space(s) implies is_space(s[j]) by {
            if j > 0 {
                assert(rest[j - 1] == s[j]);
            }
        }
    }
}

/// `trailing_space` counts the white space behind the last other character.
pub proof fn lemma_trailing_space(s: Seq<char>)
    ensures
        0 <= trailing_space(s) <= s.len(),
        trailing_space(s) < s.len() ==> !is_space(s[s.len() - 1 - trailing_space(s)]),
        forall|j: int| s.len() - trailing_space(s) <= j < s.len() ==> is_space(s[j]),
    decreases s.len(),
{
    if s.len() > 0 && is_space(s.last()) {
        let rest = s.drop_last();
        lemma_trailing_space(rest);
        assert forall|j: int| s.len() - trailing_space(s) <= j < s.len() implies is_space(s[j]) by {
            if j < s.len() - 1 {
                assert(rest[j] == s[j]);
            }
        }
    }
}

/// A run of white space at the beginning that ends at another character or
/// at the end is all the leading white space.
proof fn lemma_leading_space_is(s: Seq<char>, a: int)
    requires
        0 <= a <= s.len(),
        forall|j: int| 0 <= j < a ==> is_space(s[j]),
        a < s.len() ==> !is_space(s[a]),
    ensures
        leading_space(s) == a,
{
    lemma_leading_space(s);
}

/// A run of white space at the end that begins behind another character or
/// at the beginning is all the trailing white space.
proof fn lemma_trailing_space_is(s: Seq<char>, t: int)
    requires
        0 <= t <= s.len(),
        forall|j: int| s.len() - t <= j < s.len() ==> is_space(s[j]),
        t < s.len() ==> !is_space(s[s.len() - 1 - t]),
    ensures
        trailing_space(s) == t,
{
    lemma_trailing_space(s);
}

/// The value that a line gives to `key`: the line begins with `key` and
/// holds an equals sign, and the value is what follows the first one.
pub open spec fn line_value(line: Seq<char>, key: Seq<char>) -> Option<Seq<char>> {
    if starts_with(line, key) && index_of(line, '=') < line.len() {
        Some(line.skip(index_of(line, '=') + 1))
    } else {
        None
    }
}

/// The value of `key` in the text of a properties file: that of the first
/// line that gives it one, without the white space at its ends.
pub open spec fn prop_value(text: Seq<char>, key: Seq<char>) -> Option<Seq<char>>
    decreases text.len(),
{
    if text.len() == 0 {
        None
    } else {
        proof {
            lemma_line_end(text);
        }
        match line_value(first_line(text), key) {
            Some(v) => Some(trimmed(v)),
            None => prop_value(after_first_line(text), key),
        }
    }
}

/// Whether every identifier that the text of a properties file states is
/// well-formed: the value of each line that gives one to `id`.
pub open spec fn states_valid_ids(text: Seq<char>) -> bool
    decreases text.len(),
{
    if text.len() == 0 {
        true
    } else {
        proof {
            lemma_line_end(text);
        }
        (match line_value(first_line(text), "id"@) {
            Some(v) => is_valid_id(v),
            None => true,
        }) && states_valid_ids(after_first_line(text))
    }
}

/// A line of a text, by the places of its first character and of the one
/// behind its last, and the place where the rest of the text begins.
struct LineBounds {
    start: usize,
    end: usize,
    next: usize,
}

/// Finds the line of `chars` that begins at `from`.
fn next_line(chars: &Vec<char>, from: usize) -> (r: LineBounds)
    requires
        from < chars@.len(),
    ensures
        r.start == from,
        from <= r.end <= r.next <= chars@.len(),
        from < r.next,
        chars@.subrange(r.start as int, r.end as int) == first_line(chars@.skip(from as int)),
        chars@.skip(r.next as int) == after_first_line(chars@.skip(from as int)),
{
    let ghost rest = chars@.skip(from as int);
    let mut e: usize = from;
    while e < chars.len() && chars[e] != '\n'
        invariant
            from <= e <= chars.len(),
            rest == chars@.skip(from as int),
            forall|j: int| 0 <= j < e - from ==> rest[j] != '\n',
        decreases chars.len() - e,
    {
        e = e + 1;
    }
    proof {
        lemma_line_end_is(rest, e - from);
    }
    if e < chars.len() {
        let end = if e > from && chars[e - 1] == '\r' {
            e - 1
        } else {
            e
        };
        proof {
            assert(chars@.subrange(from as int, end as int) =~= rest.take(end - from));
            assert(chars@.skip(e as int + 1) =~= rest.skip(e - from + 1));
        }
        LineBounds { start: from, end, next: e + 1 }
    } else {
        proof {
            assert(chars@.subrange(from as int, e as int) =~= rest.take(e - from));
            assert(chars@.skip(e as int) =~= Seq::<char>::empty());
        }
        LineBounds { start: from, end: e, next: e }
    }
}

/// Where the value begins that the line from `start` to `end` gives to
/// `key`, if it gives one.
fn value_start(chars: &Vec<char>, start: usize, end: usize, key: &Vec<char>) -> (r: Option<usize>)
    requires
        start <= end <= chars@.len(),
    ensures
        match line_value(chars@.subrange(start as int, end as int), key@) {
            Some(v) => r is Some && start < r->0 <= end && chars@.subrange(r->0 as int, end as int)
                == v,
            None => r is None,
        },
{
    let ghost line = chars@.subrange(start as int, end as int);
    if key.len() > end - start {
        return None;
    }
    let mut k: usize = 0;
    while k < key.len()
        invariant
            k <= key.len(),
            key.len() <= end - start,
            start <= end <= chars@.len(),
            line == chars@.subrange(start as int, end as int),
            forall|j: int| 0 <= j < k ==> line[j] == key@[j],
        decreases key.len() - k,
    {
        if chars[start + k] != key[k] {
            proof {
                assert(line.take(key@.len() as int)[k as int] != key@[k as int]);
            }
            return None;
        }
        k = k + 1;
    }
    proof {
        assert(line.take(key@.len() as int) =~= key@);
    }
    let mut e: usize = start;
    while e < end && chars[e] != '='
        invariant
            start <= e <= end,
            start <= end <= chars@.len(),
            line == chars@.subrange(start as int, end as int),
            forall|j: int| 0 <= j < e - start ==> line[j] != '=',
        decreases end - e,
    {
        e = e + 1;
    }
    proof {
        lemma_index_of_is(line, '=', e - start);
    }
    if e < end {
        proof {
            assert(chars@.subrange(e as int + 1, end as int) =~= line.skip(e - start + 1));
        }
        Some(e + 1)
    } else {
        None
    }
}

/// The value of `key` in the text of a properties file.
pub fn read_prop(text: &str, key: &str) -> (r: Option<String>)
    ensures
        match prop_value(text@, key@) {
            Some(v) => r is Some && r->0@ == v,
            None => r is None,
        },
{
    let chars = text_chars(text);
    let key_chars = text_chars(key);
    let mut from: usize = 0;
    proof {
        assert(chars@.skip(0) =~= chars@);
    }
    while from < chars.len()
        invariant
            from <= chars.len(),
            chars@ == text@,
            key_chars@ == key@,
            prop_value(text@, key@) == prop_value(chars@.skip(from as int), key@),
        decreases chars.len() - from,
    {
        let line = next_line(&chars, from);
        match value_start(&chars, line.start, line.end, &key_chars) {
            Some(begin) => {
                let ghost v = chars@.subrange(begin as int, line.end as int);
                let mut a: usize = begin;
                while a < line.end && space(chars[a])
                    invariant
                        begin <= a <= line.end <= chars@.len(),
                        v == chars@.subrange(begin as int, line.end as int),
                        forall|j: int| 0 <= j < a - begin ==> is_space(v[j]),
                    decreases line.end - a,
                {
                    a = a + 1;
                }
                proof {
                    lemma_leading_space_is(v, a - begin);
                }
                if a == line.end {
                    proof {
                        assert(text@.subrange(a as int, a as int) =~= Seq::<char>::empty());
                    }
                    return Some(text.substring_char(a, a).to_string());
                }
                let mut b: usize = line.end;
                while b > a && space(chars[b - 1])
                    invariant
                        begin <= a < line.end <= chars@.len(),
                        a < b <= line.end,
                        !is_space(chars@[a as int]),
                        v == chars@.subrange(begin as int, line.end as int),
                        forall|j: int| b - begin <= j < v.len() ==> is_space(v[j]),
                    decreases b,
                {
                    b = b - 1;
                }
                proof {
                    assert(b > a);
                    assert(v[b - 1 - begin] == chars@[b - 1]);
                    lemma_trailing_space_is(v, line.end - b);
                    assert(text@.subrange(a as int, b as int) =~= trimmed(v));
                }
                return Some(text.substring_char(a, b).to_string());
            },
            None => {},
        }
        from = line.next;
    }
    proof {
        assert(chars@.skip(from as int) =~= Seq::<char>::empty());
    }
    None
}

/// Checks every identifier that the text of a properties file states.
pub fn validate_prop_ids(text: &str) -> (r: Result<(), InvalidId>)
    ensures
        r is Ok <==> states_valid_ids(text@),
{
    let chars = text_chars(text);
    let key_chars = text_chars("id");
    let mut from: usize = 0;
    proof {
        assert(chars@.skip(0) =~= chars@);
    }
    while from < chars.len()
        invariant
            from <= chars.len(),
            chars@ == text@,
            key_chars@ == "id"@,
            states_valid_ids(text@) == states_valid_ids(chars@.skip(from as int)),
        decreases chars.len() - from,
    {
        let line = next_line(&chars, from);
        match value_start(&chars, line.start, line.end, &key_chars) {
            Some(begin) => {
                let value = text.substring_char(begin, line.end);
                if validate_module_id(value).is_err() {
                    return Err(InvalidId);
                }
            },
            None => {},
        }
        from = line.next;
    }
    proof {
        assert(chars@.skip(from as int) =~= Seq::<char>::empty());
    }
    Ok(())
}

} // verus!
