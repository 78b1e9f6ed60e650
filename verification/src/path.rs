//! Request paths and object keys as text: trimming separators, joining
//! components, and the extension of a key.
//!
//! Keys are sequences of segments separated by `/`. The file name of a key
//! is its last segment that is neither empty nor `.`; a key whose last such
//! segment is `..` has none. The extension is what follows the last dot of
//! the file name, unless that dot is the file name's first character.

use vstd::prelude::*;
use vstd::string::*;
use crate::text::{
    chars_of, last_index_of, lemma_last_index_of, lemma_last_index_of_range, SEPARATOR,
};

verus! {

/// Index of the first character at or after `from` that is no separator, or
/// `s.len()` when there is none.
pub open spec fn skip_separators(s: Seq<char>, from: int) -> int
    decreases s.len() - from,
{
    if from < 0 || from >= s.len() {
        s.len() as int
    } else if s[from] != SEPARATOR {
        from
    } else {
        skip_separators(s, from + 1)
    }
}

/// `s` without the separators it starts with.
pub open spec fn trim_start_separators(s: Seq<char>) -> Seq<char> {
    s.skip(skip_separators(s, 0))
}

/// `s` without the separators it ends with.
pub open spec fn trim_end_separators(s: Seq<char>) -> Seq<char>
    decreases s.len(),
{
    if s.len() > 0 && s.last() == SEPARATOR {
        trim_end_separators(s.drop_last())
    } else {
        s
    }
}

/// `s` without the separators around it.
pub open spec fn trim_separators(s: Seq<char>) -> Seq<char> {
    trim_end_separators(trim_start_separators(s))
}

/// The components trimmed of the separators around them, the empty ones
/// left out, joined by single separators.
pub open spec fn join_slash_spec(components: Seq<Seq<char>>) -> Seq<char>
    decreases components.len(),
{
    if components.len() == 0 {
        Seq::empty()
    } else {
        let before = join_slash_spec(components.drop_last());
        let part = trim_separators(components.last());
        if part.len() == 0 {
            before
        } else if before.len() == 0 {
            part
        } else {
            before + seq![SEPARATOR] + part
        }
    }
}

/// The views of a list of string slices.
pub open spec fn str_views(parts: Seq<&str>) -> Seq<Seq<char>> {
    parts.map_values(|p: &str| p@)
}

/// The file name of a key: its last segment that is neither empty nor `.`,
/// unless that segment is `..`.
pub open spec fn file_name(path: Seq<char>) -> Option<Seq<char>>
    decreases path.len(),
{
    if path.len() == 0 {
        None
    } else {
        let start = last_index_of(path, SEPARATOR) + 1;
        let name = path.skip(start);
        if name.len() == 0 || name == seq!['.'] {
            if 0 < start <= path.len() {
                file_name(path.take(start - 1))
            } else {
                None
            }
        } else if name == seq!['.', '.'] {
            None
        } else {
            Some(name)
        }
    }
}

/// The extension of a key: what follows the last dot of its file name. A
/// file name without a dot, or whose only dot is its first character, has
/// none.
pub open spec fn extension(path: Seq<char>) -> Option<Seq<char>> {
    match file_name(path) {
        None => None,
        Some(name) => {
            let dot = last_index_of(name, '.');
            if dot <= 0 {
                None
            } else {
                Some(name.skip(dot + 1))
            }
        },
    }
}

/// The view of an optional string.
pub open spec fn text_view(text: Option<String>) -> Option<Seq<char>> {
    match text {
        Some(t) => Some(t@),
        None => None,
    }
}

/// What `skip_separators` is, stated without recursion.
proof fn lemma_skip_separators(s: Seq<char>, from: int, at: int)
    requires
        0 <= from <= at <= s.len(),
        forall|j: int| from <= j < at ==> s[j] == SEPARATOR,
        at < s.len() ==> s[at] != SEPARATOR,
    ensures
        skip_separators(s, from) == at,
    decreases at - from,
{
    if from < at {
        lemma_skip_separators(s, from + 1, at);
    }
}

/// What `trim_end_separators` is, stated without recursion.
proof fn lemma_trim_end_separators(s: Seq<char>, end: int)
    requires
        0 <= end <= s.len(),
        forall|j: int| end <= j < s.len() ==> s[j] == SEPARATOR,
        end > 0 ==> s[end - 1] != SEPARATOR,
    ensures
        trim_end_separators(s) == s.take(end),
    decreases s.len(),
{
    if end < s.len() {
        let rest = s.drop_last();
        lemma_trim_end_separators(rest, end);
        assert(rest.take(end) =~= s.take(end));
    } else {
        assert(s.take(end) =~= s);
    }
}

/// The bounds of what is left of the characters once the separators around
/// them are gone.
fn trimmed_bounds(chars: &Vec<char>) -> (bounds: (usize, usize))
    ensures
        bounds.0 <= bounds.1 <= chars.len(),
        chars@.subrange(bounds.0 as int, bounds.1 as int) == trim_separators(chars@),
{
    let n = chars.len();
    let mut start: usize = 0;
    while start < n && chars[start] == SEPARATOR
        invariant
            start <= n,
            n == chars.len(),
            forall|j: int| 0 <= j < start ==> chars@[j] == SEPARATOR,
        decreases n - start,
    {
        start += 1;
    }
    let mut end: usize = n;
    while end > start && chars[end - 1] == SEPARATOR
        invariant
            start <= end <= n,
            n == chars.len(),
            forall|j: int| end <= j < n ==> chars@[j] == SEPARATOR,
        decreases end,
    {
        end -= 1;
    }
    proof {
        lemma_skip_separators(chars@, 0, start as int);
        let rest = chars@.skip(start as int);
        lemma_trim_end_separators(rest, end - start);
        assert(rest.take(end - start) =~= chars@.subrange(start as int, end as int));
    }
    (start, end)
}

/// A request path or component without the separators around it.
pub fn trim_slashes(text: &str) -> (trimmed: String)
    ensures
        trimmed@ == trim_separators(text@),
{
    let chars = chars_of(text);
    let (start, end) = trimmed_bounds(&chars);
    String::from_str(text.substring_char(start, end))
}

/// Joins components with single separators: each component is trimmed of
/// the separators around it, and those that are then empty are left out.
pub fn join_slash(components: &[&str]) -> (joined: String)
    ensures
        joined@ == join_slash_spec(str_views(components@)),
{
    let mut joined = String::new();
    let mut empty = true;
    let mut i: usize = 0;
    let ghost parts = str_views(components@);
    assert(parts.take(0) =~= Seq::<Seq<char>>::empty());
    while i < components.len()
        invariant
            i <= components.len(),
            parts == str_views(components@),
            joined@ == join_slash_spec(parts.take(i as int)),
            empty == (joined@.len() == 0),
        decreases components.len() - i,
    {
        let component = components[i];
        let chars = chars_of(component);
        let (start, end) = trimmed_bounds(&chars);
        proof {
            let upto = parts.take(i + 1);
            assert(upto.drop_last() =~= parts.take(i as int));
            assert(upto.last() == component@);
        }
        if end > start {
            if !empty {
                proof {
                    reveal_strlit("/");
                    assert("/"@ =~= seq![SEPARATOR]);
                }
                joined.append("/");
            }
            joined.append(component.substring_char(start, end));
            empty = false;
        }
        i += 1;
    }
    assert(parts.take(i as int) =~= parts);
    joined
}

/// The bounds of the file name among the characters of a key.
fn file_name_bounds(chars: &Vec<char>) -> (bounds: Option<(usize, usize)>)
    ensures
        match bounds {
            Some((start, end)) => start < end <= chars.len() && file_name(chars@) == Some(
                chars@.subrange(start as int, end as int),
            ),
            None => file_name(chars@) is None,
        },
{
    let mut end: usize = chars.len();
    assert(chars@.take(end as int) =~= chars@);
    loop
        invariant
            end <= chars.len(),
            file_name(chars@) == file_name(chars@.take(end as int)),
        decreases end,
    {
        if end == 0 {
            return None;
        }
        let mut start: usize = end;
        while start > 0 && chars[start - 1] != SEPARATOR
            invariant
                start <= end <= chars.len(),
                forall|j: int| start <= j < end ==> chars@[j] != SEPARATOR,
            decreases start,
        {
            start -= 1;
        }
        let ghost prefix = chars@.take(end as int);
        let ghost name = chars@.subrange(start as int, end as int);
        proof {
            lemma_last_index_of(prefix, SEPARATOR, start - 1);
            assert(prefix.skip(start as int) =~= name);
        }
        let length = end - start;
        if length == 0 || (length == 1 && chars[start] == '.') {
            proof {
                if length == 1 {
                    assert(name =~= seq!['.']);
                }
            }
            if start == 0 {
                return None;
            }
            proof {
                assert(prefix.take(start - 1) =~= chars@.take(start - 1));
            }
            end = start - 1;
        } else if length == 2 && chars[start] == '.' && chars[start + 1] == '.' {
            proof {
                assert(name =~= seq!['.', '.']);
            }
            return None;
        } else {
            proof {
                assert(name[0] == chars@[start as int]);
                if length == 2 {
                    assert(name[1] == chars@[start + 1]);
                }
                assert(name != seq!['.']);
                assert(name != seq!['.', '.']);
            }
            return Some((start, end));
        }
    }
}

/// The extension of a key, as it is written in the key.
pub fn key_extension(path: &str) -> (ext: Option<String>)
    ensures
        text_view(ext) == extension(path@),
{
    let chars = chars_of(path);
    match file_name_bounds(&chars) {
        None => None,
        Some((start, end)) => {
            let mut after: usize = end;
            while after > start && chars[after - 1] != '.'
                invariant
                    start <= after <= end <= chars.len(),
                    forall|j: int| after <= j < end ==> chars@[j] != '.',
                decreases after,
            {
                after -= 1;
            }
            let ghost name = chars@.subrange(start as int, end as int);
            proof {
                lemma_last_index_of(name, '.', after - start - 1);
            }
            if after <= start + 1 {
                None
            } else {
                proof {
                    assert(name.skip(after - start) =~= chars@.subrange(after as int, end as int));
                }
                Some(String::from_str(path.substring_char(after, end)))
            }
        },
    }
}

/// What `str::to_lowercase` makes of a text: its lower-case form by the
/// Unicode rules, which depend on the text alone.
pub uninterp spec fn lowercase(text: Seq<char>) -> Seq<char>;

/// `str::to_lowercase` of std. The result is named, not described: it is
/// the lower-case form that std computes for these characters.
#[verifier::external_body]
fn to_lowercase(text: &str) -> (lower: String)
    ensures
        lower@ == lowercase(text@),
{
    text.to_lowercase()
}

/// The extension of a path or file name in lower case; empty when there is
/// none.
pub fn get_extension_lowercase(path: &str) -> (ext: String)
    ensures
        ext@ == match extension(path@) {
            Some(e) => lowercase(e),
            None => Seq::<char>::empty(),
        },
{
    match key_extension(path) {
        Some(e) => to_lowercase(e.as_str()),
        None => String::new(),
    }
}

/// The file name of a key is one segment of it: it has at least one
/// character and holds no separator.
pub proof fn law_file_name_is_a_segment(path: Seq<char>)
    requires
        file_name(path) is Some,
    ensures
        file_name(path)->0.len() > 0,
        !file_name(path)->0.contains(SEPARATOR),
    decreases path.len(),
{
    lemma_last_index_of_range(path, SEPARATOR);
    let start = last_index_of(path, SEPARATOR) + 1;
    let name = path.skip(start);
    if name.len() == 0 || name == seq!['.'] {
        law_file_name_is_a_segment(path.take(start - 1));
    } else {
        assert forall|i: int| 0 <= i < name.len() implies name[i] != SEPARATOR by {
            assert(name[i] == path[start + i]);
        }
    }
}

} // verus!
