//! The key resolver: from a request path to the object key to serve.
//!
//! A request path is tried against a fixed chain of candidate keys and the
//! first candidate that the store holds wins:
//!
//! * a directory-style path (empty, or ending in `/`) has one candidate,
//!   the `index.html` under it, and no further fallback;
//! * any other path is tried as it stands, then with `.html` appended
//!   (unless it ends so already), then as the `index.html` of its first
//!   segment, then as the `index.html` at the root of the store.
//!
//! Asking the store is the caller's part. [`Resolver`] names the key to ask
//! for and takes the answer; [`find_exists_key`] runs the chain against an
//! oracle that can be called directly.

use vstd::prelude::*;
use vstd::string::*;
use crate::text::{chars_of, ends_with, find_first, first_index_of, SEPARATOR};

verus! {

/// Name of the index document.
pub const INDEX_FILE: &'static str = "index.html";

/// The path is empty or ends in a separator.
pub open spec fn is_directory_path(path: Seq<char>) -> bool {
    path.len() == 0 || path.last() == SEPARATOR
}

/// The index document under a directory-style path.
pub open spec fn directory_index(path: Seq<char>) -> Seq<char> {
    path + "index.html"@
}

/// The path itself when it ends in `.html`, else the path with `.html` appended.
pub open spec fn html_candidate(path: Seq<char>) -> Seq<char> {
    if ends_with(path, ".html"@) {
        path
    } else {
        path + ".html"@
    }
}

/// What stands before the first separator; the whole path when it has none.
pub open spec fn first_segment(path: Seq<char>) -> Seq<char> {
    path.take(first_index_of(path, SEPARATOR))
}

/// The index document of the path's first segment.
pub open spec fn segment_index(path: Seq<char>) -> Seq<char> {
    first_segment(path) + "/index.html"@
}

/// The index document at the root of the store.
pub open spec fn root_index() -> Seq<char> {
    "index.html"@
}

/// The keys tried for a request path, in the order in which they are tried.
pub open spec fn candidates(path: Seq<char>) -> Seq<Seq<char>> {
    if is_directory_path(path) {
        seq![directory_index(path)]
    } else if first_segment(path).len() > 0 {
        seq![path, html_candidate(path), segment_index(path), root_index()]
    } else {
        seq![path, html_candidate(path), root_index()]
    }
}

/// The first of `keys` that `store` holds.
pub open spec fn first_existing(store: Set<Seq<char>>, keys: Seq<Seq<char>>) -> Option<Seq<char>>
    decreases keys.len(),
{
    if keys.len() == 0 {
        None
    } else if store.contains(keys[0]) {
        Some(keys[0])
    } else {
        first_existing(store, keys.drop_first())
    }
}

/// The key that a request path resolves to in a store that holds exactly
/// the keys of `store`.
pub open spec fn resolve(store: Set<Seq<char>>, path: Seq<char>) -> Option<Seq<char>> {
    first_existing(store, candidates(path))
}

/// The views of a list of keys.
pub open spec fn key_views(keys: Seq<String>) -> Seq<Seq<char>> {
    keys.map_values(|k: String| k@)
}

/// The view of a resolution's result.
pub open spec fn key_view(key: Option<String>) -> Option<Seq<char>> {
    match key {
        Some(k) => Some(k@),
        None => None,
    }
}

/// The oracle may say `answer` when asked for `key`.
pub open spec fn said<F: Fn(&String) -> bool>(oracle: &F, key: Seq<char>, answer: bool) -> bool {
    exists|k: String| k@ == key && call_ensures(oracle, (&k,), answer)
}

/// The oracle answers for `store`: whatever it says of a key is whether
/// `store` holds it.
pub open spec fn answers_for<F: Fn(&String) -> bool>(oracle: &F, store: Set<Seq<char>>) -> bool {
    forall|k: String, answer: bool| #[trigger]
        call_ensures(oracle, (&k,), answer) ==> answer == store.contains(k@)
}

/// `key` is what probing `keys` in order gives: the first key of which the
/// oracle said yes, after it said no of every key before it; or nothing,
/// after it said no of them all.
pub open spec fn probe_outcome<F: Fn(&String) -> bool>(
    oracle: &F,
    keys: Seq<Seq<char>>,
    key: Option<Seq<char>>,
) -> bool {
    match key {
        Some(k) => exists|i: int|
            0 <= i < keys.len() && #[trigger] keys[i] == k && said(oracle, k, true) && forall|
                j: int,
            | 0 <= j < i ==> said(oracle, #[trigger] keys[j], false),
        None => forall|j: int| 0 <= j < keys.len() ==> said(oracle, #[trigger] keys[j], false),
    }
}

/// Whether the characters end in `.html`.
fn has_html_suffix(chars: &Vec<char>) -> (r: bool)
    ensures
        r == ends_with(chars@, ".html"@),
{
    proof {
        reveal_strlit(".html");
    }
    let n = chars.len();
    if n < 5 {
        return false;
    }
    let r = chars[n - 5] == '.' && chars[n - 4] == 'h' && chars[n - 3] == 't' && chars[n - 2]
        == 'm' && chars[n - 1] == 'l';
    proof {
        let tail = chars@.subrange(n - 5, n as int);
        if r {
            assert(tail =~= ".html"@);
        } else {
            assert(tail[0] == chars@[n - 5]);
            assert(tail[1] == chars@[n - 4]);
            assert(tail[2] == chars@[n - 3]);
            assert(tail[3] == chars@[n - 2]);
            assert(tail[4] == chars@[n - 1]);
        }
    }
    r
}

/// The keys to try for a request path, in the order in which to try them.
pub fn candidate_keys(path: &str) -> (keys: Vec<String>)
    ensures
        key_views(keys@) == candidates(path@),
{
    let chars = chars_of(path);
    let n = chars.len();
    let mut keys: Vec<String> = Vec::new();
    if n == 0 || chars[n - 1] == SEPARATOR {
        keys.push(String::from_str(path).concat(INDEX_FILE));
        assert(key_views(keys@) =~= candidates(path@));
        return keys;
    }
    keys.push(String::from_str(path));
    if has_html_suffix(&chars) {
        keys.push(String::from_str(path));
    } else {
        keys.push(String::from_str(path).concat(".html"));
    }
    let cut = find_first(&chars, SEPARATOR);
    if cut > 0 {
        let segment = path.substring_char(0, cut);
        keys.push(String::from_str(segment).concat("/index.html"));
    }
    keys.push(String::from_str(INDEX_FILE));
    assert(key_views(keys@) =~= candidates(path@));
    keys
}

/// A resolution under way: the candidates not yet ruled out, the one to ask
/// the store for first.
pub struct Resolver {
    keys: Vec<String>,
    cursor: usize,
}

/// What follows an answer of the store.
pub enum Step {
    /// The key was not there: ask for the current key of this resolver.
    Probe(Resolver),
    /// The resolution is over: the key to serve, or nothing to serve.
    Done(Option<String>),
}

impl Resolver {
    #[verifier::type_invariant]
    spec fn cursor_in_range(self) -> bool {
        self.cursor < self.keys.len()
    }

    /// The candidates not yet ruled out, the current one first.
    pub closed spec fn remaining(self) -> Seq<Seq<char>> {
        key_views(self.keys@).skip(self.cursor as int)
    }

    /// Starts the resolution of a request path at its first candidate.
    pub fn start(path: &str) -> (r: Resolver)
        ensures
            r.remaining() == candidates(path@),
    {
        let keys = candidate_keys(path);
        assert(key_views(keys@).skip(0) =~= key_views(keys@));
        assert(key_views(keys@).len() == keys@.len());
        Resolver { keys, cursor: 0 }
    }

    /// The key to ask the store for.
    pub fn current(&self) -> (key: &String)
        ensures
            self.remaining().len() > 0,
            key@ == self.remaining()[0],
    {
        proof {
            use_type_invariant(self);
        }
        &self.keys[self.cursor]
    }

    /// Takes the store's answer for the current key. A key that is there
    /// ends the resolution with that key; one that is not moves on to the
    /// next candidate, and ends the resolution with nothing after the last.
    pub fn answer(self, found: bool) -> (step: Step)
        ensures
            self.remaining().len() > 0,
            found ==> (step matches Step::Done(Some(key)) && key@ == self.remaining()[0]),
            !found && self.remaining().len() > 1 ==> (step matches Step::Probe(next)
                && next.remaining() == self.remaining().drop_first()),
            !found && self.remaining().len() == 1 ==> step matches Step::Done(None),
    {
        proof {
            use_type_invariant(&self);
        }
        let ghost before = self.remaining();
        if found {
            let key = self.keys[self.cursor].clone();
            Step::Done(Some(key))
        } else if self.cursor + 1 < self.keys.len() {
            let next = Resolver { keys: self.keys, cursor: self.cursor + 1 };
            assert(next.remaining() =~= before.drop_first());
            Step::Probe(next)
        } else {
            Step::Done(None)
        }
    }
}

/// Resolves a request path against an oracle that says of a key whether the
/// store holds it: asks for the candidates in order and stops at the first
/// that is there.
pub fn find_exists_key<F: Fn(&String) -> bool>(oracle: &F, path: &str) -> (key: Option<String>)
    requires
        forall|k: &String| call_requires(oracle, (k,)),
    ensures
        probe_outcome(oracle, candidates(path@), key_view(key)),
{
    let ghost keys = candidates(path@);
    let mut resolver = Resolver::start(path);
    let ghost mut tried: int = 0;
    loop
        invariant
            forall|k: &String| call_requires(oracle, (k,)),
            keys == candidates(path@),
            0 <= tried < keys.len(),
            resolver.remaining() == keys.skip(tried),
            forall|j: int| 0 <= j < tried ==> said(oracle, #[trigger] keys[j], false),
        decreases keys.len() - tried,
    {
        let current = resolver.current();
        let found = oracle(current);
        let ghost asked = resolver.remaining()[0];
        assert(said(oracle, asked, found)) by {
            assert(current@ == asked && call_ensures(oracle, (current,), found));
        }
        assert(asked == keys[tried]);
        match resolver.answer(found) {
            Step::Done(result) => {
                proof {
                    if found {
                        assert(keys[tried] == key_view(result)->0);
                    } else {
                        assert(keys.skip(tried).len() == 1);
                    }
                }
                return result;
            },
            Step::Probe(next) => {
                proof {
                    assert(keys.skip(tried).drop_first() =~= keys.skip(tried + 1));
                    tried = tried + 1;
                }
                resolver = next;
            },
        }
    }
}

/// Each answer of the store narrows the resolution as the chain says: when
/// the store holds the first of the remaining candidates, that candidate
/// is the result; when it does not, the result is that of the candidates
/// after it.
pub proof fn law_answer_follows_chain(store: Set<Seq<char>>, remaining: Seq<Seq<char>>)
    requires
        remaining.len() > 0,
    ensures
        store.contains(remaining[0]) ==> first_existing(store, remaining) == Some(remaining[0]),
        !store.contains(remaining[0]) ==> first_existing(store, remaining) == first_existing(
            store,
            remaining.drop_first(),
        ),
{
}

/// Against an oracle that answers for a store, probing the candidates of a
/// path gives what the path resolves to in that store.
pub proof fn law_probe_outcome_is_resolution<F: Fn(&String) -> bool>(
    oracle: &F,
    store: Set<Seq<char>>,
    path: Seq<char>,
    key: Option<Seq<char>>,
)
    requires
        answers_for(oracle, store),
        probe_outcome(oracle, candidates(path), key),
    ensures
        key == resolve(store, path),
{
    lemma_probe_outcome_first_existing(oracle, store, candidates(path), key);
}

/// Against an oracle that answers for a store, probing a list of keys gives
/// the first of them that the store holds.
pub proof fn lemma_probe_outcome_first_existing<F: Fn(&String) -> bool>(
    oracle: &F,
    store: Set<Seq<char>>,
    keys: Seq<Seq<char>>,
    key: Option<Seq<char>>,
)
    requires
        answers_for(oracle, store),
        probe_outcome(oracle, keys, key),
    ensures
        key == first_existing(store, keys),
    decreases keys.len(),
{
    if keys.len() == 0 {
    } else {
        let rest = keys.drop_first();
        match key {
            Some(k) => {
                let i = choose|i: int|
                    0 <= i < keys.len() && #[trigger] keys[i] == k && said(oracle, k, true)
                        && forall|j: int| 0 <= j < i ==> said(oracle, #[trigger] keys[j], false);
                lemma_said_is_held(oracle, store, k, true);
                if i > 0 {
                    assert(said(oracle, keys[0], false));
                    lemma_said_is_held(oracle, store, keys[0], false);
                    assert(rest[i - 1] == k);
                    assert forall|j: int| 0 <= j < i - 1 implies said(
                        oracle,
                        #[trigger] rest[j],
                        false,
                    ) by {
                        assert(rest[j] == keys[j + 1]);
                    }
                    lemma_probe_outcome_first_existing(oracle, store, rest, key);
                }
            },
            None => {
                assert(said(oracle, keys[0], false));
                lemma_said_is_held(oracle, store, keys[0], false);
                assert forall|j: int| 0 <= j < rest.len() implies said(
                    oracle,
                    #[trigger] rest[j],
                    false,
                ) by {
                    assert(rest[j] == keys[j + 1]);
                }
                lemma_probe_outcome_first_existing(oracle, store, rest, key);
            },
        }
    }
}

/// A path that is not directory-style and that the store holds resolves to
/// itself: the exact match wins over every fallback.
pub proof fn law_exact_match_wins(store: Set<Seq<char>>, path: Seq<char>)
    requires
        !is_directory_path(path),
        store.contains(path),
    ensures
        resolve(store, path) == Some(path),
{
}

/// A directory-style path resolves to the index document under it when the
/// store holds that document, and to nothing otherwise.
pub proof fn law_directory_index_only(store: Set<Seq<char>>, path: Seq<char>)
    requires
        is_directory_path(path),
    ensures
        resolve(store, path) == if store.contains(directory_index(path)) {
            Some(directory_index(path))
        } else {
            None
        },
{
    reveal_with_fuel(first_existing, 2);
}

/// A path that the store does not hold resolves to its `.html` form when
/// the store holds that.
pub proof fn law_html_form_is_next(store: Set<Seq<char>>, path: Seq<char>)
    requires
        !is_directory_path(path),
        !store.contains(path),
        store.contains(html_candidate(path)),
    ensures
        resolve(store, path) == Some(html_candidate(path)),
{
    reveal_with_fuel(first_existing, 2);
    let keys = candidates(path);
    assert(keys.drop_first()[0] == html_candidate(path));
}

/// When the store holds neither the path nor its `.html` form, a path with
/// a first segment resolves to the index document of that segment when the
/// store holds it.
pub proof fn law_segment_index_is_next(store: Set<Seq<char>>, path: Seq<char>)
    requires
        !is_directory_path(path),
        first_segment(path).len() > 0,
        !store.contains(path),
        !store.contains(html_candidate(path)),
        store.contains(segment_index(path)),
    ensures
        resolve(store, path) == Some(segment_index(path)),
{
    lemma_first_existing_at(store, candidates(path), 2);
}

/// When nothing before it matches, a path that is not directory-style
/// resolves to the index document at the root when the store holds it. So
/// does the empty path, of which the root index is the only candidate.
pub proof fn law_root_index_is_last(store: Set<Seq<char>>, path: Seq<char>)
    requires
        path.len() == 0 || !is_directory_path(path),
        path.len() > 0 ==> !store.contains(path),
        path.len() > 0 ==> !store.contains(html_candidate(path)),
        path.len() > 0 && first_segment(path).len() > 0 ==> !store.contains(segment_index(path)),
        store.contains(root_index()),
    ensures
        resolve(store, path) == Some(root_index()),
{
    let keys = candidates(path);
    if path.len() == 0 {
        assert(directory_index(path) =~= root_index());
        lemma_first_existing_at(store, keys, 0);
    } else if first_segment(path).len() > 0 {
        lemma_first_existing_at(store, keys, 3);
    } else {
        lemma_first_existing_at(store, keys, 2);
    }
}

/// A path resolves to nothing when the store holds none of its candidates,
/// and only then.
pub proof fn law_not_found(store: Set<Seq<char>>, path: Seq<char>)
    ensures
        resolve(store, path) is None <==> forall|i: int|
            0 <= i < candidates(path).len() ==> !store.contains(#[trigger] candidates(path)[i]),
{
    lemma_first_existing_none(store, candidates(path));
}

/// Whatever a path resolves to is one of its candidates and is in the store.
pub proof fn law_resolved_key_exists(store: Set<Seq<char>>, path: Seq<char>)
    requires
        resolve(store, path) is Some,
    ensures
        store.contains(resolve(store, path)->0),
        candidates(path).contains(resolve(store, path)->0),
{
    lemma_first_existing_some(store, candidates(path));
}

/// The key at `at` is the first existing one when the store holds it and
/// none of the keys before it.
pub proof fn lemma_first_existing_at(store: Set<Seq<char>>, keys: Seq<Seq<char>>, at: int)
    requires
        0 <= at < keys.len(),
        store.contains(keys[at]),
        forall|j: int| 0 <= j < at ==> !store.contains(#[trigger] keys[j]),
    ensures
        first_existing(store, keys) == Some(keys[at]),
    decreases keys.len(),
{
    if at > 0 {
        let rest = keys.drop_first();
        assert(!store.contains(keys[0]));
        assert(rest[at - 1] == keys[at]);
        assert forall|j: int| 0 <= j < at - 1 implies !store.contains(#[trigger] rest[j]) by {
            assert(rest[j] == keys[j + 1]);
        }
        lemma_first_existing_at(store, rest, at - 1);
    }
}

/// There is no first existing key exactly when the store holds none.
pub proof fn lemma_first_existing_none(store: Set<Seq<char>>, keys: Seq<Seq<char>>)
    ensures
        first_existing(store, keys) is None <==> forall|i: int|
            0 <= i < keys.len() ==> !store.contains(#[trigger] keys[i]),
    decreases keys.len(),
{
    if keys.len() > 0 {
        let rest = keys.drop_first();
        lemma_first_existing_none(store, rest);
        if !store.contains(keys[0]) {
            if first_existing(store, rest) is None {
                assert forall|i: int| 0 <= i < keys.len() implies !store.contains(
                    #[trigger] keys[i],
                ) by {
                    if i > 0 {
                        assert(rest[i - 1] == keys[i]);
                    }
                }
            } else {
                let i = choose|i: int| 0 <= i < rest.len() && store.contains(#[trigger] rest[i]);
                assert(keys[i + 1] == rest[i]);
            }
        }
    }
}

/// The first existing key is one of the keys and is in the store.
pub proof fn lemma_first_existing_some(store: Set<Seq<char>>, keys: Seq<Seq<char>>)
    requires
        first_existing(store, keys) is Some,
    ensures
        store.contains(first_existing(store, keys)->0),
        keys.contains(first_existing(store, keys)->0),
    decreases keys.len(),
{
    if store.contains(keys[0]) {
        assert(keys[0] == first_existing(store, keys)->0);
    } else {
        let rest = keys.drop_first();
        lemma_first_existing_some(store, rest);
        let i = choose|i: int| 0 <= i < rest.len() && rest[i] == first_existing(store, rest)->0;
        assert(keys[i + 1] == rest[i]);
    }
}

/// What an oracle that answers for a store said of a key is whether the
/// store holds the key.
proof fn lemma_said_is_held<F: Fn(&String) -> bool>(
    oracle: &F,
    store: Set<Seq<char>>,
    key: Seq<char>,
    answer: bool,
)
    requires
        answers_for(oracle, store),
        said(oracle, key, answer),
    ensures
        answer == store.contains(key),
{
    let k = choose|k: String| k@ == key && call_ensures(oracle, (&k,), answer);
    assert(call_ensures(oracle, (&k,), answer));
}

} // verus!
