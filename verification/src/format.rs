//! The store file: one entry per line, written `key=password;`.

use crate::store::{
    as_map, distinct_keys, lemma_put_distinct, lemma_put_lookup, lemma_put_map, lookup, put, Entry,
    Record, Store,
};
use crate::text::{
    find_char, first_index, is_space, lemma_first_index, lemma_first_index_is_first,
    lemma_trim_fixed, lemma_trim_nonempty, skip_trailing, string_of, strip_trailing, to_chars,
    trim, trim_bounds,
};
use vstd::prelude::*;
use vstd::string::StringExecFns;

verus! {

/// What a line of the store file is in contracts.
pub enum LineView {
    /// Nothing but white space.
    Blank,
    /// Text without a `=`.
    Malformed,
    /// An entry.
    Pair(Record),
}

/// What a line of the store file says.
#[derive(Clone, Debug, PartialEq, Eq)]
pub enum Line {
    /// Nothing but white space.
    Blank,
    /// Text without a `=`.
    Malformed,
    /// An entry.
    Pair(Entry),
}

impl View for Line {
    type V = LineView;

    open spec fn view(&self) -> LineView {
        match self {
            Line::Blank => LineView::Blank,
            Line::Malformed => LineView::Malformed,
            Line::Pair(e) => LineView::Pair(e@),
        }
    }
}

/// How a line reads. The key is what stands before the first `=`, without
/// the white space around it; the password is all that follows the `=`,
/// without the `;` at its end.
pub open spec fn classify(line: Seq<char>) -> LineView {
    let at = first_index(line, '=');
    if trim(line).len() == 0 {
        LineView::Blank
    } else if at == line.len() {
        LineView::Malformed
    } else {
        LineView::Pair(
            Record { key: trim(line.take(at)), password: strip_trailing(line.skip(at + 1), ';') },
        )
    }
}

/// The line that records `password` under `key`.
pub open spec fn entry_line(key: Seq<char>, password: Seq<char>) -> Seq<char> {
    key + seq!['='] + password + seq![';']
}

/// Reads the line `chars[from..to]`.
pub fn parse_span(chars: &Vec<char>, from: usize, to: usize) -> (line: Line)
    requires
        from <= to <= chars@.len(),
    ensures
        line@ == classify(chars@.subrange(from as int, to as int)),
{
    let ghost text = chars@.subrange(from as int, to as int);
    let (start, end) = trim_bounds(chars, from, to);
    if start == end {
        return Line::Blank;
    }
    let at = find_char(chars, from, to, '=');
    if at == to {
        return Line::Malformed;
    }
    let (key_start, key_end) = trim_bounds(chars, from, at);
    let password_end = skip_trailing(chars, at + 1, to, ';');
    assert(text.take(at - from) =~= chars@.subrange(from as int, at as int));
    assert(text.skip(at - from + 1) =~= chars@.subrange(at as int + 1, to as int));
    Line::Pair(
        Entry {
            key: string_of(chars, key_start, key_end),
            password: string_of(chars, at + 1, password_end),
        },
    )
}

/// Reads one line.
pub fn parse_line(line: &str) -> (parsed: Line)
    ensures
        parsed@ == classify(line@),
{
    let chars = to_chars(line);
    assert(chars@.subrange(0, chars@.len() as int) =~= chars@);
    parse_span(&chars, 0, chars.len())
}

/// Writes the line that records `password` under `key`.
pub fn handle_add_key(key: &str, password: &str) -> (line: String)
    ensures
        line@ == entry_line(key@, password@),
{
    let mut line = String::new();
    line.append(key);
    line.push('=');
    line.append(password);
    line.push(';');
    assert(line@ =~= entry_line(key@, password@));
    line
}

/// Appends `line` and its line ending to `content`, which stands for what
/// the store file holds.
pub fn add_line_to_file(content: &mut String, line: &str)
    ensures
        final(content)@ == old(content)@ + line@ + seq!['\n'],
{
    content.append(line);
    content.push('\n');
}

/// `line` without the carriage return at its end, if it has one.
pub open spec fn strip_cr(line: Seq<char>) -> Seq<char> {
    if line.len() > 0 && line.last() == '\r' {
        line.drop_last()
    } else {
        line
    }
}

/// The lines of `content`. A line ends at a line feed, or at a carriage
/// return and a line feed; neither belongs to the line. What follows the
/// last line feed is a line too unless it is empty.
pub open spec fn split_lines(content: Seq<char>) -> Seq<Seq<char>>
    decreases content.len(),
{
    let at = first_index(content, '\n');
    if content.len() == 0 {
        Seq::empty()
    } else if at < 0 || at >= content.len() {
        seq![content]
    } else {
        seq![strip_cr(content.take(at))] + split_lines(content.skip(at + 1))
    }
}

/// The entries after `line` is read into `entries`: an entry is recorded,
/// any other line changes nothing.
pub open spec fn apply_line(entries: Seq<Record>, line: Seq<char>) -> Seq<Record> {
    match classify(line) {
        LineView::Pair(r) => put(entries, r.key, r.password),
        _ => entries,
    }
}

/// The entries that `lines` give, read from the first to the last.
pub open spec fn load_lines(lines: Seq<Seq<char>>) -> Seq<Record>
    decreases lines.len(),
{
    if lines.len() == 0 {
        Seq::empty()
    } else {
        apply_line(load_lines(lines.drop_last()), lines.last())
    }
}

/// The numbers of the lines without a `=`, in rising order; the first line
/// has the number 1.
pub open spec fn malformed_in(lines: Seq<Seq<char>>) -> Seq<int>
    decreases lines.len(),
{
    if lines.len() == 0 {
        Seq::empty()
    } else if classify(lines.last()) is Malformed {
        malformed_in(lines.drop_last()).push(lines.len() as int)
    } else {
        malformed_in(lines.drop_last())
    }
}

/// The entries that a store file with this content holds.
pub open spec fn load(content: Seq<char>) -> Seq<Record> {
    load_lines(split_lines(content))
}

/// What loading a store file gives.
#[derive(Debug, PartialEq, Eq)]
pub struct Loaded {
    /// The entries.
    pub store: Store,
    /// The numbers of the lines that were passed over for want of a `=`.
    pub malformed: Vec<usize>,
}

/// What a list of line numbers is in contracts.
pub open spec fn numbers_of(v: Seq<usize>) -> Seq<int> {
    v.map_values(|n: usize| n as int)
}

/// Unfolds `split_lines` at `pos`, where a line starts: the line runs to
/// `end`, the next line feed or the end of the content.
proof fn lemma_split_step(content: Seq<char>, pos: int, end: int)
    requires
        0 <= pos < content.len(),
        pos <= end <= content.len(),
        end - pos == first_index(content.subrange(pos, content.len() as int), '\n'),
    ensures
        end < content.len() ==> split_lines(content.skip(pos)) == seq![
            strip_cr(content.subrange(pos, end)),
        ] + split_lines(content.skip(end + 1)),
        end == content.len() ==> split_lines(content.skip(pos)) == seq![
            content.subrange(pos, end),
        ],
{
    let rest = content.skip(pos);
    assert(rest =~= content.subrange(pos, content.len() as int));
    if end < content.len() {
        assert(rest.take(end - pos) =~= content.subrange(pos, end));
        assert(rest.skip(end - pos + 1) =~= content.skip(end + 1));
    } else {
        assert(rest =~= content.subrange(pos, end));
    }
}

/// Reads a store file. Every line with a `=` is recorded, a later one
/// over an earlier one with the same key; blank lines are passed over, and
/// so are lines without a `=`, whose numbers are reported.
pub fn get_all_safe_keys(content: &str) -> (loaded: Loaded)
    ensures
        loaded.store@ == load(content@),
        numbers_of(loaded.malformed@) == malformed_in(split_lines(content@)),
{
    let chars = to_chars(content);
    let n = chars.len();
    let mut store = Store::new();
    let mut malformed: Vec<usize> = Vec::new();
    let mut pos: usize = 0;
    let mut number: usize = 0;
    let ghost mut done: Seq<Seq<char>> = Seq::empty();
    assert(chars@.skip(0) =~= chars@);
    assert(numbers_of(malformed@) =~= malformed_in(done));
    while pos < n
        invariant
            pos <= n == chars@.len(),
            split_lines(chars@) == done + split_lines(chars@.skip(pos as int)),
            store@ == load_lines(done),
            numbers_of(malformed@) == malformed_in(done),
            number == done.len(),
            number <= pos,
        decreases n - pos,
    {
        let end = find_char(&chars, pos, n, '\n');
        let line_end = if end < n && pos < end && chars[end - 1] == '\r' {
            end - 1
        } else {
            end
        };
        let line = parse_span(&chars, pos, line_end);
        number += 1;
        proof {
            lemma_split_step(chars@, pos as int, end as int);
            let text = chars@.subrange(pos as int, line_end as int);
            if end < n {
                assert(text =~= strip_cr(chars@.subrange(pos as int, end as int)));
            }
            let after: int = if end < n { end + 1 } else { end as int };
            assert(split_lines(chars@.skip(after)) == if end < n {
                split_lines(chars@.skip(end + 1))
            } else {
                Seq::<Seq<char>>::empty()
            });
            assert(done + split_lines(chars@.skip(pos as int)) =~= done.push(text) + split_lines(
                chars@.skip(after),
            ));
            assert(done.push(text).drop_last() =~= done);
            done = done.push(text);
        }
        let ghost reported = malformed@;
        match line {
            Line::Pair(entry) => {
                store.insert(entry.key, entry.password);
            },
            Line::Malformed => {
                malformed.push(number);
                assert(numbers_of(malformed@) =~= numbers_of(reported).push(number as int));
            },
            Line::Blank => {},
        }
        pos = if end < n {
            end + 1
        } else {
            end
        };
    }
    assert(chars@.skip(n as int) =~= Seq::<char>::empty());
    assert(done + Seq::<Seq<char>>::empty() =~= done);
    Loaded { store, malformed }
}

/// Every line of `content` is ended by a line feed.
pub open spec fn terminated(content: Seq<char>) -> bool {
    content.len() > 0 ==> content.last() == '\n'
}

/// `text` holds no `c`.
pub open spec fn free_of(text: Seq<char>, c: char) -> bool {
    forall|i: int| 0 <= i < text.len() ==> text[i] != c
}

/// Whatever the store file holds, loading it gives no key twice.
pub proof fn lemma_load_lines_distinct(lines: Seq<Seq<char>>)
    ensures
        distinct_keys(load_lines(lines)),
    decreases lines.len(),
{
    if lines.len() > 0 {
        let before = load_lines(lines.drop_last());
        lemma_load_lines_distinct(lines.drop_last());
        match classify(lines.last()) {
            LineView::Pair(r) => {
                lemma_put_distinct(before, r.key, r.password);
            },
            _ => {},
        }
    }
}

/// A line appended to a file whose lines are all ended becomes its last
/// line, and leaves the lines before it as they were.
pub proof fn lemma_split_lines_append(content: Seq<char>, line: Seq<char>)
    requires
        terminated(content),
        free_of(line, '\n'),
    ensures
        split_lines(content + line + seq!['\n']) == split_lines(content).push(strip_cr(line)),
    decreases content.len(),
{
    let whole = content + line + seq!['\n'];
    if content.len() == 0 {
        assert forall|j: int| 0 <= j < line.len() implies whole[j] != '\n' by {
            assert(whole[j] == line[j]);
        }
        lemma_first_index(whole, '\n', line.len() as int);
        assert(whole.take(line.len() as int) =~= line);
        assert(whole.skip(line.len() as int + 1) =~= Seq::<char>::empty());
        assert(split_lines(whole.skip(line.len() as int + 1)) == Seq::<Seq<char>>::empty());
        assert(split_lines(whole) == seq![strip_cr(line)] + Seq::<Seq<char>>::empty());
        assert(split_lines(content) == Seq::<Seq<char>>::empty());
        assert(seq![strip_cr(line)] + Seq::<Seq<char>>::empty() =~= split_lines(content).push(
            strip_cr(line),
        ));
    } else {
        lemma_first_index_is_first(content, '\n');
        let at = first_index(content, '\n');
        if at == content.len() {
            assert(content[content.len() - 1] == '\n');
        }
        assert(whole[at] == content[at]);
        assert forall|j: int| 0 <= j < at implies whole[j] != '\n' by {
            assert(whole[j] == content[j]);
        }
        lemma_first_index(whole, '\n', at);
        let rest = content.skip(at + 1);
        assert(whole.take(at) =~= content.take(at));
        assert(whole.skip(at + 1) =~= rest + line + seq!['\n']);
        if rest.len() > 0 {
            assert(rest.last() == content.last());
        }
        lemma_split_lines_append(rest, line);
        let head = seq![strip_cr(content.take(at))];
        assert(split_lines(content) == head + split_lines(rest));
        assert(split_lines(whole) == head + split_lines(rest + line + seq!['\n']));
        assert(head + split_lines(rest).push(strip_cr(line)) =~= (head + split_lines(rest)).push(
            strip_cr(line),
        ));
    }
}

/// The line written for `key` and `password` reads as an entry: its key
/// is `key` without the white space around it, its password is `password`
/// without the `;` at its end.
pub proof fn lemma_entry_line_reads_back(key: Seq<char>, password: Seq<char>)
    requires
        free_of(key, '='),
    ensures
        classify(entry_line(key, password)) == LineView::Pair(
            Record { key: trim(key), password: strip_trailing(password, ';') },
        ),
{
    let line = entry_line(key, password);
    let at = key.len() as int;
    assert(line[at] == '=');
    assert forall|j: int| 0 <= j < at implies line[j] != '=' by {
        assert(line[j] == key[j]);
    }
    lemma_first_index(line, '=', at);
    lemma_trim_nonempty(line, at);
    assert(line.take(at) =~= key);
    let tail = line.skip(at + 1);
    assert(tail =~= password + seq![';']);
    assert(tail.drop_last() =~= password);
    assert(tail.last() == ';');
}

/// An entry that is added to a store file is there when the file is
/// loaded again. Adding the line written for `key` and `password` to a file
/// whose lines are all ended, and loading the file, gives what loading the
/// file before gave, with the password recorded under the key. The key is
/// taken without the white space around it and the password without the `;`
/// at its end, as for any line.
pub proof fn lemma_added_entry_is_loaded(
    content: Seq<char>,
    key: Seq<char>,
    password: Seq<char>,
)
    requires
        terminated(content),
        free_of(key, '='),
        free_of(key, '\n'),
        free_of(password, '\n'),
    ensures
        ({
            let after = load(content + entry_line(key, password) + seq!['\n']);
            let stored = strip_trailing(password, ';');
            &&& after == put(load(content), trim(key), stored)
            &&& lookup(after, trim(key)) == Some(stored)
            &&& as_map(after) == as_map(load(content)).insert(trim(key), stored)
        }),
{
    let line = entry_line(key, password);
    assert(free_of(line, '\n')) by {
        assert forall|i: int| 0 <= i < line.len() implies line[i] != '\n' by {
            if i < key.len() {
                assert(line[i] == key[i]);
            } else if key.len() < i < line.len() - 1 {
                assert(line[i] == password[i - key.len() - 1]);
            }
        }
    }
    lemma_split_lines_append(content, line);
    assert(line.last() == ';');
    let lines = split_lines(content).push(line);
    assert(lines.drop_last() =~= split_lines(content));
    lemma_entry_line_reads_back(key, password);
    let stored = strip_trailing(password, ';');
    lemma_put_lookup(load(content), trim(key), stored, trim(key));
    lemma_put_map(load(content), trim(key), stored);
}

/// The round trip of an entry. A key without `=`, line feed or white space
/// at either end, and a password without line feed or `;` at its end, come
/// back from the file as they went in: after the line written for them is
/// added to a file whose lines are all ended, loading the file gives the
/// password under the key, and every other key leads to what it led to
/// before.
pub proof fn lemma_round_trip(content: Seq<char>, key: Seq<char>, password: Seq<char>)
    requires
        terminated(content),
        free_of(key, '='),
        free_of(key, '\n'),
        free_of(password, '\n'),
        key.len() > 0 ==> !is_space(key[0]) && !is_space(key.last()),
        password.len() > 0 ==> password.last() != ';',
    ensures
        ({
            let after = load(content + entry_line(key, password) + seq!['\n']);
            &&& lookup(after, key) == Some(password)
            &&& as_map(after) == as_map(load(content)).insert(key, password)
        }),
{
    lemma_trim_fixed(key);
    lemma_added_entry_is_loaded(content, key, password);
}

} // verus!
