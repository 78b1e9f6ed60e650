//! Header lists and the filters that decide which headers travel.
//!
//! A header is a name and the bytes of its value. Names are compared
//! without regard to the case of ASCII letters, as HTTP asks. A filter
//! keeps the headers of a list whose names are on a list of names, or those
//! whose names are not, each with its value, in the order in which they
//! came.

use vstd::prelude::*;
use crate::text::{chars_of, eq_ignore_ascii_case, equals_ignore_ascii_case};
use crate::path::str_views;

verus! {

/// One header line: its name and the bytes of its value.
#[derive(Debug, PartialEq, Eq)]
pub struct Header {
    pub name: String,
    pub value: Vec<u8>,
}

impl View for Header {
    type V = (Seq<char>, Seq<u8>);

    open spec fn view(&self) -> (Seq<char>, Seq<u8>) {
        (self.name@, self.value@)
    }
}

impl Header {
    /// A header of this name and value.
    pub fn new(name: &str, value: &[u8]) -> (header: Header)
        ensures
            header@ == (name@, value@),
    {
        Header { name: name.to_owned(), value: vstd::slice::slice_to_vec(value) }
    }

    /// A header with the same name and value.
    pub fn duplicate(&self) -> (header: Header)
        ensures
            header@ == self@,
    {
        let name = self.name.clone();
        let value = self.value.clone();
        assert(value@ =~= self.value@);
        Header { name, value }
    }
}

/// The views of a list of headers.
pub open spec fn header_views(headers: Seq<Header>) -> Seq<(Seq<char>, Seq<u8>)> {
    headers.map_values(|h: Header| h@)
}

/// `name` is one of `names`, the case of ASCII letters aside.
pub open spec fn listed(name: Seq<char>, names: Seq<Seq<char>>) -> bool {
    exists|i: int| 0 <= i < names.len() && eq_ignore_ascii_case(name, #[trigger] names[i])
}

/// The headers whose names are among `names` (`keep`), or those whose names
/// are not (`!keep`), in their order.
pub open spec fn select(
    headers: Seq<(Seq<char>, Seq<u8>)>,
    names: Seq<Seq<char>>,
    keep: bool,
) -> Seq<(Seq<char>, Seq<u8>)> {
    headers.filter(|h: (Seq<char>, Seq<u8>)| listed(h.0, names) == keep)
}

/// The headers whose names are among `allowed`, in their order.
pub open spec fn keep_listed(
    headers: Seq<(Seq<char>, Seq<u8>)>,
    allowed: Seq<Seq<char>>,
) -> Seq<(Seq<char>, Seq<u8>)> {
    select(headers, allowed, true)
}

/// The headers whose names are not among `blocked`, in their order.
pub open spec fn drop_listed(
    headers: Seq<(Seq<char>, Seq<u8>)>,
    blocked: Seq<Seq<char>>,
) -> Seq<(Seq<char>, Seq<u8>)> {
    select(headers, blocked, false)
}

/// Some header of the list has this name.
pub open spec fn has_header(headers: Seq<(Seq<char>, Seq<u8>)>, name: Seq<char>) -> bool {
    exists|i: int| 0 <= i < headers.len() && eq_ignore_ascii_case((#[trigger] headers[i]).0, name)
}

/// Whether `name` is one of `names`, the case of ASCII letters aside.
pub fn is_listed(name: &str, names: &[&str]) -> (r: bool)
    ensures
        r == listed(name@, str_views(names@)),
{
    let wanted = chars_of(name);
    let mut i: usize = 0;
    while i < names.len()
        invariant
            i <= names.len(),
            wanted@ == name@,
            forall|j: int|
                0 <= j < i ==> !eq_ignore_ascii_case(name@, #[trigger] str_views(names@)[j]),
        decreases names.len() - i,
    {
        let candidate = chars_of(names[i]);
        assert(str_views(names@)[i as int] == candidate@);
        if equals_ignore_ascii_case(&wanted, &candidate) {
            return true;
        }
        i += 1;
    }
    false
}

/// Whether the list has a header of this name.
pub fn contains_header(headers: &Vec<Header>, name: &str) -> (r: bool)
    ensures
        r == has_header(header_views(headers@), name@),
{
    let wanted = chars_of(name);
    let mut i: usize = 0;
    while i < headers.len()
        invariant
            i <= headers.len(),
            wanted@ == name@,
            forall|j: int|
                0 <= j < i ==> !eq_ignore_ascii_case(
                    (#[trigger] header_views(headers@)[j]).0,
                    name@,
                ),
        decreases headers.len() - i,
    {
        let candidate = chars_of(headers[i].name.as_str());
        assert(header_views(headers@)[i as int].0 == candidate@);
        if equals_ignore_ascii_case(&candidate, &wanted) {
            return true;
        }
        i += 1;
    }
    false
}

/// The headers of `source` whose names are among `names` (`keep`), or those
/// whose names are not (`!keep`).
fn select_headers(source: &Vec<Header>, names: &[&str], keep: bool) -> (selected: Vec<Header>)
    ensures
        header_views(selected@) == select(header_views(source@), str_views(names@), keep),
{
    let mut selected: Vec<Header> = Vec::new();
    let mut i: usize = 0;
    let ghost all = header_views(source@);
    let ghost list = str_views(names@);
    let ghost wanted = |h: (Seq<char>, Seq<u8>)| listed(h.0, list) == keep;
    assert(all.take(0) =~= Seq::<(Seq<char>, Seq<u8>)>::empty());
    assert(header_views(selected@) =~= all.take(0).filter(wanted));
    while i < source.len()
        invariant
            i <= source.len(),
            all == header_views(source@),
            list == str_views(names@),
            wanted == |h: (Seq<char>, Seq<u8>)| listed(h.0, list) == keep,
            header_views(selected@) == all.take(i as int).filter(wanted),
        decreases source.len() - i,
    {
        let ghost before = header_views(selected@);
        proof {
            Seq::lemma_filter_push(all.take(i as int), all[i as int], wanted);
            assert(all.take(i + 1) =~= all.take(i as int).push(all[i as int]));
        }
        if is_listed(source[i].name.as_str(), names) == keep {
            selected.push(source[i].duplicate());
            assert(header_views(selected@) =~= before.push(all[i as int]));
        }
        i += 1;
    }
    assert(all.take(i as int) =~= all);
    selected
}

/// Copies the headers whose names are on the allow-list, and no others.
pub fn clone_headers(source: &Vec<Header>, allowed: &[&str]) -> (kept: Vec<Header>)
    ensures
        header_views(kept@) == keep_listed(header_views(source@), str_views(allowed@)),
{
    select_headers(source, allowed, true)
}

/// Copies the headers whose names are not on the deny-list.
pub fn filter_headers_blacklist(source: &Vec<Header>, blocked_headers: &[&str]) -> (kept: Vec<
    Header,
>)
    ensures
        header_views(kept@) == drop_listed(header_views(source@), str_views(blocked_headers@)),
{
    select_headers(source, blocked_headers, false)
}

/// Every header that a filter lets through was in the source, and it is
/// on the list of names exactly when the filter keeps the listed ones.
pub proof fn law_select_is_sound(
    headers: Seq<(Seq<char>, Seq<u8>)>,
    names: Seq<Seq<char>>,
    keep: bool,
    i: int,
)
    requires
        0 <= i < select(headers, names, keep).len(),
    ensures
        headers.contains(select(headers, names, keep)[i]),
        listed(select(headers, names, keep)[i].0, names) == keep,
{
    let wanted = |h: (Seq<char>, Seq<u8>)| listed(h.0, names) == keep;
    headers.lemma_filter_pred(wanted, i);
    let kept = headers.filter(wanted);
    assert(kept.contains(kept[i]));
    headers.lemma_filter_contains_rev(wanted, kept[i]);
}

/// A filter loses no header that it is meant to keep.
pub proof fn law_select_is_complete(
    headers: Seq<(Seq<char>, Seq<u8>)>,
    names: Seq<Seq<char>>,
    keep: bool,
    i: int,
)
    requires
        0 <= i < headers.len(),
        listed(headers[i].0, names) == keep,
    ensures
        select(headers, names, keep).contains(headers[i]),
{
    let wanted = |h: (Seq<char>, Seq<u8>)| listed(h.0, names) == keep;
    assert(wanted(headers[i]));
    headers.lemma_filter_contains(wanted, i);
}

} // verus!
