//! Looking a password up: the keys that a pattern matches, what they
//! resolve to, and the dialogue that narrows them down to one entry.

use crate::command::{FAILURE, SUCCESS};
use crate::pattern::{compile, is_match, pattern_compiles, pattern_matches};
use crate::store::{
    distinct_keys, has_key, key_index, keys_of, lemma_key_index, lemma_key_index_of, lookup, Record,
    Store,
};
use crate::text::{lemma_first_index, texts_of, to_chars, trim, trim_bounds, trimmed};
use vstd::prelude::*;

verus! {

/// What a session is in contracts.
pub enum SessionView {
    NoMatch { available: Seq<Seq<char>> },
    Ambiguous { candidates: Seq<Seq<char>> },
    AwaitingConfirmation { key: Seq<char>, password: Seq<char> },
    Resolved { key: Seq<char>, password: Seq<char> },
    Cancelled,
    InvalidPattern,
}

/// Where a lookup stands, and with it what its caller is to do next.
#[derive(Clone, Debug, PartialEq, Eq)]
pub enum Session {
    /// The pattern matched no key. The caller lists `available`, all the
    /// keys of the store, and asks for another pattern.
    NoMatch { available: Vec<String> },
    /// The pattern matched several keys, none of them the pattern itself.
    /// The caller lists `candidates`, the keys that matched, and asks for
    /// another pattern.
    Ambiguous { candidates: Vec<String> },
    /// One entry was found. The caller asks whether its password is to be
    /// retrieved.
    AwaitingConfirmation { key: String, password: String },
    /// The user agreed. The caller hands `password` to the clipboard; the
    /// lookup has succeeded.
    Resolved { key: String, password: String },
    /// The user declined; the lookup has ended without a password.
    Cancelled,
    /// The pattern is no regular expression; the lookup has failed.
    InvalidPattern,
}

impl View for Session {
    type V = SessionView;

    open spec fn view(&self) -> SessionView {
        match self {
            Session::NoMatch { available } => SessionView::NoMatch {
                available: texts_of(available@),
            },
            Session::Ambiguous { candidates } => SessionView::Ambiguous {
                candidates: texts_of(candidates@),
            },
            Session::AwaitingConfirmation { key, password } => SessionView::AwaitingConfirmation {
                key: key@,
                password: password@,
            },
            Session::Resolved { key, password } => SessionView::Resolved {
                key: key@,
                password: password@,
            },
            Session::Cancelled => SessionView::Cancelled,
            Session::InvalidPattern => SessionView::InvalidPattern,
        }
    }
}

/// For each entry, whether `pattern` matches its key.
pub open spec fn flags_of(entries: Seq<Record>, pattern: Seq<char>) -> Seq<bool> {
    entries.map_values(|r: Record| pattern_matches(pattern, r.key))
}

/// The entries whose flag is set, in order. An entry without a flag counts
/// as not set.
pub open spec fn picked(entries: Seq<Record>, flags: Seq<bool>) -> Seq<Record>
    decreases entries.len(),
{
    if entries.len() == 0 {
        Seq::empty()
    } else if entries.len() <= flags.len() && flags[entries.len() - 1] {
        picked(entries.drop_last(), flags).push(entries.last())
    } else {
        picked(entries.drop_last(), flags)
    }
}

/// The entries whose key `pattern` matches, in order.
pub open spec fn matching(entries: Seq<Record>, pattern: Seq<char>) -> Seq<Record> {
    entries.filter(|r: Record| pattern_matches(pattern, r.key))
}

/// What the entries that a pattern matched resolve to. None: the keys of
/// the store are offered. One: that entry. Several: the entry whose key is
/// the pattern itself, if there is one; else the keys that matched are
/// offered.
pub open spec fn resolution(entries: Seq<Record>, found: Seq<Record>, pattern: Seq<char>)
    -> SessionView {
    if found.len() == 0 {
        SessionView::NoMatch { available: keys_of(entries) }
    } else if found.len() == 1 {
        SessionView::AwaitingConfirmation { key: found[0].key, password: found[0].password }
    } else if has_key(found, pattern) {
        SessionView::AwaitingConfirmation {
            key: pattern,
            password: found[key_index(found, pattern)].password,
        }
    } else {
        SessionView::Ambiguous { candidates: keys_of(found) }
    }
}

/// What a search for `pattern` in `entries` comes to.
pub open spec fn search(entries: Seq<Record>, pattern: Seq<char>) -> SessionView {
    if pattern_compiles(pattern) {
        resolution(entries, matching(entries, pattern), pattern)
    } else {
        SessionView::InvalidPattern
    }
}

/// Picking by the flags of a pattern is filtering by the pattern.
pub proof fn lemma_picked_is_matching(entries: Seq<Record>, pattern: Seq<char>)
    ensures
        picked(entries, flags_of(entries, pattern)) == matching(entries, pattern),
    decreases entries.len(),
{
    reveal(Seq::filter);
    if entries.len() > 0 {
        let front = entries.drop_last();
        lemma_picked_agree(front, flags_of(entries, pattern), flags_of(front, pattern));
        lemma_picked_is_matching(front, pattern);
    }
}

/// Flags that agree on the entries pick the same entries.
pub proof fn lemma_picked_agree(entries: Seq<Record>, a: Seq<bool>, b: Seq<bool>)
    requires
        a.len() >= entries.len(),
        b.len() >= entries.len(),
        forall|i: int| 0 <= i < entries.len() ==> a[i] == b[i],
    ensures
        picked(entries, a) == picked(entries, b),
    decreases entries.len(),
{
    if entries.len() > 0 {
        lemma_picked_agree(entries.drop_last(), a, b);
    }
}

/// Why a search could not be made.
#[derive(Clone, Copy, Debug, PartialEq, Eq, Structural)]
pub enum SearchError {
    /// The pattern is no regular expression.
    InvalidPattern,
}

/// The entries at the positions `at`, in that order.
pub open spec fn entries_at(entries: Seq<Record>, at: Seq<usize>) -> Seq<Record> {
    at.map_values(|i: usize| entries[i as int])
}

/// For each entry of the store, whether `pattern` matches its key.
pub fn match_flags(store: &Store, pattern: &str) -> (r: Result<Vec<bool>, SearchError>)
    ensures
        r is Ok <==> pattern_compiles(pattern@),
        r matches Ok(flags) ==> flags@ == flags_of(store@, pattern@),
{
    if compile(pattern).is_err() {
        return Err(SearchError::InvalidPattern);
    }
    let mut flags: Vec<bool> = Vec::new();
    let mut i: usize = 0;
    while i < store.len()
        invariant
            i <= store@.len(),
            pattern_compiles(pattern@),
            flags@ == flags_of(store@.take(i as int), pattern@),
        decreases store@.len() - i,
    {
        match is_match(pattern, store.entry(i).key.as_str()) {
            Ok(found) => {
                flags.push(found);
            },
            Err(_) => {
                return Err(SearchError::InvalidPattern);
            },
        }
        assert(flags@ =~= flags_of(store@.take(i as int + 1), pattern@));
        i += 1;
    }
    assert(store@.take(i as int) =~= store@);
    Ok(flags)
}

/// The positions of the entries whose flag is set, in rising order.
fn flagged(store: &Store, flags: &Vec<bool>) -> (at: Vec<usize>)
    ensures
        forall|k: int| 0 <= k < at@.len() ==> at@[k] < store@.len(),
        entries_at(store@, at@) == picked(store@, flags@),
{
    let mut at: Vec<usize> = Vec::new();
    let mut i: usize = 0;
    assert(entries_at(store@, at@) =~= picked(store@.take(0), flags@));
    while i < store.len()
        invariant
            i <= store@.len(),
            forall|k: int| 0 <= k < at@.len() ==> at@[k] < i,
            entries_at(store@, at@) == picked(store@.take(i as int), flags@),
        decreases store@.len() - i,
    {
        let ghost before = at@;
        assert(store@.take(i as int + 1).drop_last() =~= store@.take(i as int));
        if i < flags.len() && flags[i] {
            at.push(i);
            assert(entries_at(store@, at@) =~= entries_at(store@, before).push(store@[i as int]));
        }
        i += 1;
    }
    assert(store@.take(i as int) =~= store@);
    at
}

/// The keys of the entries at the positions `at`.
fn keys_at(store: &Store, at: &Vec<usize>) -> (keys: Vec<String>)
    requires
        forall|k: int| 0 <= k < at@.len() ==> at@[k] < store@.len(),
    ensures
        texts_of(keys@) == keys_of(entries_at(store@, at@)),
{
    let mut keys: Vec<String> = Vec::new();
    let mut k: usize = 0;
    while k < at.len()
        invariant
            k <= at@.len(),
            keys@.len() == k,
            forall|j: int| 0 <= j < at@.len() ==> at@[j] < store@.len(),
            forall|j: int| 0 <= j < k ==> keys@[j]@ == store@[at@[j] as int].key,
        decreases at@.len() - k,
    {
        keys.push(store.entry(at[k]).key.clone());
        k += 1;
    }
    assert(texts_of(keys@) =~= keys_of(entries_at(store@, at@)));
    keys
}

/// What the entries whose flag is set resolve to, for a search with
/// `pattern`. None: the keys of the store are offered. One: that entry.
/// Several: the entry whose key is `pattern` itself, if there is one; else
/// the keys of the flagged entries are offered.
pub fn resolve(store: &Store, flags: &Vec<bool>, pattern: &str) -> (session: Session)
    ensures
        session@ == resolution(store@, picked(store@, flags@), pattern@),
{
    let at = flagged(store, flags);
    let ghost found = picked(store@, flags@);
    if at.len() == 0 {
        return Session::NoMatch { available: store.keys() };
    }
    if at.len() == 1 {
        let entry = store.entry(at[0]);
        assert(found[0] == store@[at@[0] as int]);
        return Session::AwaitingConfirmation {
            key: entry.key.clone(),
            password: entry.password.clone(),
        };
    }
    let wanted = pattern.to_owned();
    let mut k: usize = 0;
    while k < at.len()
        invariant
            k <= at@.len(),
            at@.len() >= 2,
            wanted@ == pattern@,
            found == picked(store@, flags@),
            found == entries_at(store@, at@),
            forall|j: int| 0 <= j < at@.len() ==> at@[j] < store@.len(),
            forall|j: int| 0 <= j < k ==> keys_of(found)[j] != pattern@,
        decreases at@.len() - k,
    {
        let entry = store.entry(at[k]);
        assert(found[k as int] == store@[at@[k as int] as int]);
        if entry.key == wanted {
            proof {
                assert(keys_of(found)[k as int] == pattern@);
                lemma_first_index(keys_of(found), pattern@, k as int);
            }
            return Session::AwaitingConfirmation {
                key: entry.key.clone(),
                password: entry.password.clone(),
            };
        }
        k += 1;
    }
    proof {
        lemma_first_index(keys_of(found), pattern@, found.len() as int);
    }
    Session::Ambiguous { candidates: keys_at(store, &at) }
}

/// Searches the store for the keys that `pattern` matches and resolves
/// them. A pattern that is no regular expression ends the lookup.
pub fn handle_search(store: &Store, pattern: &str) -> (session: Session)
    ensures
        session@ == search(store@, pattern@),
{
    match match_flags(store, pattern) {
        Ok(flags) => {
            proof {
                lemma_picked_is_matching(store@, pattern@);
            }
            resolve(store, &flags, pattern)
        },
        Err(_) => Session::InvalidPattern,
    }
}

/// `c` is the letter written `lower` in lower case and `upper` in upper
/// case.
pub open spec fn is_letter(c: char, lower: char, upper: char) -> bool {
    c == lower || c == upper
}

/// Whether `answer` agrees: without the white space around it, it is `y`
/// or `yes`, in either case of each letter.
pub open spec fn is_yes(answer: Seq<char>) -> bool {
    let t = trim(answer);
    ||| t.len() == 1 && is_letter(t[0], 'y', 'Y')
    ||| t.len() == 3 && is_letter(t[0], 'y', 'Y') && is_letter(t[1], 'e', 'E') && is_letter(
        t[2],
        's',
        'S',
    )
}

/// What the answer to the question of retrieval comes to: the password
/// is released on a yes, and on any other answer the lookup is cancelled.
pub open spec fn confirmation(key: Seq<char>, password: Seq<char>, answer: Seq<char>)
    -> SessionView {
    if is_yes(answer) {
        SessionView::Resolved { key, password }
    } else {
        SessionView::Cancelled
    }
}

/// The session after the user's `line` is taken in. Where a pattern was
/// asked for, the line, without the white space around it, is searched for
/// in all the entries of the store. Where a confirmation was asked for, the
/// line is the answer. A lookup that has ended stays as it is.
pub open spec fn step(entries: Seq<Record>, session: SessionView, line: Seq<char>)
    -> SessionView {
    match session {
        SessionView::NoMatch { .. } | SessionView::Ambiguous { .. } => search(
            entries,
            trim(line),
        ),
        SessionView::AwaitingConfirmation { key, password } => confirmation(key, password, line),
        _ => session,
    }
}

/// The status with which the program ends once the lookup has ended: 0
/// where a password was released, 1 where the user declined or the pattern
/// was refused. A lookup that goes on has none.
pub open spec fn status(session: SessionView) -> Option<i32> {
    match session {
        SessionView::Resolved { .. } => Some(SUCCESS),
        SessionView::Cancelled | SessionView::InvalidPattern => Some(FAILURE),
        _ => None,
    }
}

/// Decides `is_yes`.
pub fn agrees(answer: &str) -> (yes: bool)
    ensures
        yes == is_yes(answer@),
{
    let chars = to_chars(answer);
    assert(chars@.subrange(0, chars@.len() as int) =~= chars@);
    let (start, end) = trim_bounds(&chars, 0, chars.len());
    let ghost t = chars@.subrange(start as int, end as int);
    if end - start == 1 {
        assert(t[0] == chars@[start as int]);
        chars[start] == 'y' || chars[start] == 'Y'
    } else if end - start == 3 {
        assert(t[0] == chars@[start as int]);
        assert(t[1] == chars@[start as int + 1]);
        assert(t[2] == chars@[start as int + 2]);
        (chars[start] == 'y' || chars[start] == 'Y') && (chars[start + 1] == 'e' || chars[start
            + 1] == 'E') && (chars[start + 2] == 's' || chars[start + 2] == 'S')
    } else {
        false
    }
}

/// Takes the answer to the question whether the password of the entry
/// that was found is to be retrieved.
pub fn handle_single_match(key: String, password: String, answer: &str) -> (session: Session)
    ensures
        session@ == confirmation(key@, password@, answer@),
{
    if agrees(answer) {
        Session::Resolved { key, password }
    } else {
        Session::Cancelled
    }
}

/// Takes in the next line of the user and gives the session that follows.
pub fn advance(store: &Store, session: Session, line: &str) -> (next: Session)
    ensures
        next@ == step(store@, session@, line@),
{
    match session {
        Session::NoMatch { .. } | Session::Ambiguous { .. } => {
            let pattern = trimmed(line);
            handle_search(store, pattern.as_str())
        },
        Session::AwaitingConfirmation { key, password } => handle_single_match(
            key,
            password,
            line,
        ),
        Session::Resolved { key, password } => Session::Resolved { key, password },
        Session::Cancelled => Session::Cancelled,
        Session::InvalidPattern => Session::InvalidPattern,
    }
}

/// The status with which the program ends, once the lookup has ended.
pub fn exit_code(session: &Session) -> (code: Option<i32>)
    ensures
        code == status(session@),
{
    match session {
        Session::Resolved { .. } => Some(SUCCESS),
        Session::Cancelled => Some(FAILURE),
        Session::InvalidPattern => Some(FAILURE),
        _ => None,
    }
}

/// What `matching` keeps: entries of the store whose key the pattern
/// matches, each of them, and with no key twice where the store has none
/// twice.
pub proof fn lemma_matching_members(entries: Seq<Record>, pattern: Seq<char>)
    ensures
        forall|j: int|
            0 <= j < matching(entries, pattern).len() ==> pattern_matches(
                pattern,
                (#[trigger] matching(entries, pattern)[j]).key,
            ) && entries.contains(matching(entries, pattern)[j]),
        forall|i: int|
            0 <= i < entries.len() && pattern_matches(pattern, entries[i].key) ==> matching(
                entries,
                pattern,
            ).contains(#[trigger] entries[i]),
        distinct_keys(entries) ==> distinct_keys(matching(entries, pattern)),
    decreases entries.len(),
{
    let found = matching(entries, pattern);
    reveal(Seq::filter);
    if entries.len() > 0 {
        let front = entries.drop_last();
        let kept = matching(front, pattern);
        lemma_matching_members(front, pattern);
        assert forall|j: int| 0 <= j < found.len() implies pattern_matches(
            pattern,
            (#[trigger] found[j]).key,
        ) && entries.contains(found[j]) by {
            if j < kept.len() {
                assert(found[j] == kept[j]);
                let i = choose|i: int| 0 <= i < front.len() && front[i] == kept[j];
                assert(entries[i] == found[j]);
            } else {
                assert(entries[entries.len() - 1] == found[j]);
            }
        }
        assert forall|i: int|
            0 <= i < entries.len() && pattern_matches(pattern, entries[i].key) implies found.contains(
            #[trigger] entries[i],
        ) by {
            if i < front.len() {
                assert(front[i] == entries[i]);
                let j = choose|j: int| 0 <= j < kept.len() && kept[j] == front[i];
                assert(found[j] == entries[i]);
            } else {
                assert(found[found.len() - 1] == entries[i]);
            }
        }
        if distinct_keys(entries) {
            assert(distinct_keys(front)) by {
                assert forall|a: int, b: int| 0 <= a < b < front.len() implies front[a].key
                    != front[b].key by {
                    assert(front[a] == entries[a] && front[b] == entries[b]);
                }
            }
            assert forall|a: int, b: int| 0 <= a < b < found.len() implies found[a].key
                != found[b].key by {
                assert(found[a] == kept[a]);
                if b < kept.len() {
                    assert(found[b] == kept[b]);
                } else {
                    let i = choose|i: int| 0 <= i < front.len() && front[i] == kept[a];
                    assert(entries[i] == front[i]);
                    assert(found[b] == entries[entries.len() - 1]);
                }
            }
        }
    }
}

/// A search for a pattern that matches no key offers all the keys of the
/// store.
pub proof fn lemma_no_match_offers_all_keys(entries: Seq<Record>, pattern: Seq<char>)
    requires
        pattern_compiles(pattern),
        forall|i: int| 0 <= i < entries.len() ==> !pattern_matches(pattern, entries[i].key),
    ensures
        search(entries, pattern) == (SessionView::NoMatch { available: keys_of(entries) }),
{
    let found = matching(entries, pattern);
    lemma_matching_members(entries, pattern);
    if found.len() > 0 {
        let i = choose|i: int| 0 <= i < entries.len() && entries[i] == found[0];
        assert(pattern_matches(pattern, entries[i].key));
    }
}

/// A search for a pattern that matches the key of one entry and of no
/// other asks for confirmation of that entry.
pub proof fn lemma_single_match_is_found(entries: Seq<Record>, pattern: Seq<char>, i: int)
    requires
        distinct_keys(entries),
        pattern_compiles(pattern),
        0 <= i < entries.len(),
        forall|j: int|
            0 <= j < entries.len() ==> (pattern_matches(pattern, entries[j].key) <==> j == i),
    ensures
        search(entries, pattern) == (SessionView::AwaitingConfirmation {
            key: entries[i].key,
            password: entries[i].password,
        }),
{
    let found = matching(entries, pattern);
    lemma_matching_members(entries, pattern);
    let at = choose|j: int| 0 <= j < found.len() && found[j] == entries[i];
    assert forall|j: int| 0 <= j < found.len() implies found[j] == entries[i] by {
        let k = choose|k: int| 0 <= k < entries.len() && entries[k] == found[j];
        assert(pattern_matches(pattern, entries[k].key));
    }
    if found.len() > 1 {
        assert(found[0].key == found[1].key);
    }
}

/// A key that is the pattern itself, and that the pattern matches, ends
/// the search at once: its entry is the one to confirm, whatever other keys
/// the pattern matches.
pub proof fn lemma_exact_match_short_circuits(entries: Seq<Record>, pattern: Seq<char>)
    requires
        distinct_keys(entries),
        pattern_compiles(pattern),
        has_key(entries, pattern),
        pattern_matches(pattern, pattern),
    ensures
        search(entries, pattern) == (SessionView::AwaitingConfirmation {
            key: pattern,
            password: lookup(entries, pattern)->0,
        }),
{
    let found = matching(entries, pattern);
    lemma_matching_members(entries, pattern);
    lemma_key_index(entries, pattern);
    let i = key_index(entries, pattern);
    let at = choose|j: int| 0 <= j < found.len() && found[j] == entries[i];
    lemma_key_index_of(found, at);
}

/// The entry that a search asks to confirm is an entry of the store, and
/// its key is one that the pattern matches.
pub proof fn lemma_found_entry_is_stored(entries: Seq<Record>, pattern: Seq<char>)
    requires
        distinct_keys(entries),
        search(entries, pattern) is AwaitingConfirmation,
    ensures
        ({
            let key = search(entries, pattern)->AwaitingConfirmation_key;
            let password = search(entries, pattern)->AwaitingConfirmation_password;
            &&& pattern_compiles(pattern)
            &&& pattern_matches(pattern, key)
            &&& lookup(entries, key) == Some(password)
        }),
{
    let found = matching(entries, pattern);
    lemma_matching_members(entries, pattern);
    lemma_key_index(found, pattern);
    let at = if found.len() == 1 {
        0
    } else {
        key_index(found, pattern)
    };
    let i = choose|i: int| 0 <= i < entries.len() && entries[i] == found[at];
    lemma_key_index_of(entries, i);
}

/// Only a yes releases a password: after any other answer the lookup has
/// ended, nothing is handed out, and the program ends with a status other
/// than 0.
pub proof fn lemma_declined_is_cancelled(
    entries: Seq<Record>,
    key: Seq<char>,
    password: Seq<char>,
    answer: Seq<char>,
)
    requires
        !is_yes(answer),
    ensures
        step(entries, SessionView::AwaitingConfirmation { key, password }, answer)
            == SessionView::Cancelled,
        status(SessionView::Cancelled) == Some(FAILURE),
        FAILURE != 0,
{
}

/// A pattern that is no regular expression ends the lookup, whatever the
/// store holds, and the program ends with a status other than 0.
pub proof fn lemma_invalid_pattern_fails(entries: Seq<Record>, pattern: Seq<char>)
    requires
        !pattern_compiles(pattern),
    ensures
        search(entries, pattern) == SessionView::InvalidPattern,
        status(search(entries, pattern)) == Some(FAILURE),
{
}

} // verus!
