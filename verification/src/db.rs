//! The derived SQLite index: its open connections and its query language.
//!
//! Markdown files and `metadata.json` are the authority for notes; the SQLite
//! index is derived and can always be rebuilt. This module keeps one open
//! connection per data directory (a process may briefly touch an old and a
//! new one while migrating), decides whether the index is current, and how
//! a user's search text becomes a full-text query that exposes none of the
//! index's own operators.

use vstd::prelude::*;

use crate::notes::{joined_prefix, joined_words_prefix};
use crate::outside::{parse_rfc3339, rfc3339_instant_of};
use crate::time::Timestamp;
use crate::text::{append_str, join, str_eq, split_whitespace, string_from_chars, string_of, to_chars, words};

verus! {

/// `t` with every double quote doubled.
pub open spec fn double_quotes(t: Seq<char>) -> Seq<char>
    decreases t.len(),
{
    if t.len() == 0 {
        seq![]
    } else if t[0] == '"' {
        seq!['"', '"'] + double_quotes(t.drop_first())
    } else {
        seq![t[0]] + double_quotes(t.drop_first())
    }
}

/// A search term as a strict phrase: in double quotes, inner quotes doubled.
pub open spec fn quoted_term(t: Seq<char>) -> Seq<char> {
    seq!['"'] + double_quotes(t) + seq!['"']
}

/// The phrase that matches no note; an empty phrase would match every row.
pub open spec fn no_match_query() -> Seq<char> {
    "\"__floral_no_match__\""@
}

/// The full-text query for the search text `q`: each whitespace-separated
/// word as a quoted phrase, all of them joined by `AND`.
pub open spec fn fts_query(q: Seq<char>) -> Seq<char> {
    let terms = words(q);
    if terms.len() == 0 {
        no_match_query()
    } else {
        join(terms.map_values(|t: Seq<char>| quoted_term(t)), " AND "@)
    }
}

fn push_quoted(r: &mut Vec<char>, t: &[char])
    ensures
        final(r)@ == old(r)@ + quoted_term(t@),
{
    r.push('"');
    let mut i: usize = 0;
    while i < t.len()
        invariant
            i <= t@.len(),
            r@ == old(r)@ + seq!['"'] + double_quotes(t@.take(i as int)),
        decreases t@.len() - i,
    {
        proof {
            lemma_double_quotes_push(t@.take(i as int), t@[i as int]);
            assert(t@.take(i + 1) == t@.take(i as int).push(t@[i as int]));
        }
        if t[i] == '"' {
            r.push('"');
            r.push('"');
        } else {
            r.push(t[i]);
        }
        i = i + 1;
    }
    r.push('"');
    assert(t@.take(t@.len() as int) == t@);
}

proof fn lemma_double_quotes_push(t: Seq<char>, c: char)
    ensures
        double_quotes(t.push(c)) == double_quotes(t) + (if c == '"' { seq!['"', '"'] } else { seq![c] }),
    decreases t.len(),
{
    if t.len() == 0 {
        assert(t.push(c).drop_first() == t);
    } else {
        assert(t.push(c).drop_first() == t.drop_first().push(c));
        lemma_double_quotes_push(t.drop_first(), c);
    }
}

/// Escapes a search text for the full-text index: every word becomes a
/// quoted phrase and the phrases are joined by `AND`, so that neither the
/// `OR`/`NOT`/wildcard syntax nor an accidental phrase with spaces leaks
/// through. An empty search text becomes a phrase that matches nothing.
pub fn escape_fts_query(query: &str) -> (r: String)
    ensures
        r@ == fts_query(query@),
{
    let chars = to_chars(query);
    let terms = split_whitespace(chars.as_slice());
    if terms.len() == 0 {
        return string_of("\"__floral_no_match__\"");
    }
    let ghost mapped = words(query@).map_values(|t: Seq<char>| quoted_term(t));
    let mut r: Vec<char> = Vec::new();
    let mut i: usize = 0;
    while i < terms.len()
        invariant
            i <= terms@.len(),
            terms@.len() == words(query@).len(),
            forall|k: int| 0 <= k < terms@.len() ==> #[trigger] terms@[k]@ == words(query@)[k],
            mapped == words(query@).map_values(|t: Seq<char>| quoted_term(t)),
            i > 0 ==> r@ == join(mapped.take(i as int), " AND "@),
            i == 0 ==> r@.len() == 0,
        decreases terms@.len() - i,
    {
        let ghost before = r@;
        if i > 0 {
            append_str(&mut r, " AND ");
        }
        push_quoted(&mut r, terms[i].as_slice());
        proof {
            let m = mapped.take(i + 1);
            assert(m.drop_last() == mapped.take(i as int));
            assert(m.last() == quoted_term(terms@[i as int]@));
            if i == 0 {
                assert(m.len() == 1);
                assert(r@ == quoted_term(terms@[0]@));
            }
        }
        i = i + 1;
    }
    assert(mapped.take(terms@.len() as int) == mapped);
    string_from_chars(r.as_slice())
}


/// An open SQLite connection of the `rusqlite` crate; opaque here.
#[verifier::external_type_specification]
#[verifier::external_body]
pub struct ExConnection(rusqlite::Connection);

/// The open connections, one per data directory (by its canonical path).
pub struct DbRegistry {
    entries: Vec<(String, rusqlite::Connection)>,
}

/// Whether no key occurs twice.
pub open spec fn keys_distinct(keys: Seq<Seq<char>>) -> bool {
    forall|i: int, j: int| 0 <= i < j < keys.len() ==> #[trigger] keys[i] != #[trigger] keys[j]
}

/// The data directories of registry entries.
spec fn entry_keys(v: Seq<(String, rusqlite::Connection)>) -> Seq<Seq<char>> {
    v.map_values(|e: (String, rusqlite::Connection)| e.0@)
}

impl DbRegistry {
    /// The data directories with an open connection, in order of opening.
    pub closed spec fn keys(&self) -> Seq<Seq<char>> {
        entry_keys(self.entries@)
    }

    /// The open connections, each with its data directory, in order of
    /// opening.
    pub closed spec fn connections(&self) -> Seq<(Seq<char>, rusqlite::Connection)> {
        self.entries@.map_values(|e: (String, rusqlite::Connection)| (e.0@, e.1))
    }

    /// Each data directory has at most one connection.
    #[verifier::type_invariant]
    spec fn one_per_directory(self) -> bool {
        keys_distinct(entry_keys(self.entries@))
    }

    /// No connection open.
    pub fn new() -> (r: DbRegistry)
        ensures
            r.keys() == Seq::<Seq<char>>::empty(),
    {
        assert(entry_keys(Seq::<(String, rusqlite::Connection)>::empty()) =~= Seq::<Seq<char>>::empty());
        DbRegistry { entries: Vec::new() }
    }

    fn index_of(&self, key: &str) -> (r: Option<usize>)
        ensures
            match r {
                Some(i) => i < self.keys().len() && self.keys()[i as int] == key@,
                None => !self.keys().contains(key@),
            },
    {
        let mut i: usize = 0;
        while i < self.entries.len()
            invariant
                i <= self.entries@.len(),
                forall|k: int| 0 <= k < i ==> #[trigger] self.keys()[k] != key@,
            decreases self.entries@.len() - i,
        {
            assert(self.keys()[i as int] == self.entries@[i as int].0@);
            if str_eq(self.entries[i].0.as_str(), key) {
                return Some(i);
            }
            i = i + 1;
        }
        assert(!self.keys().contains(key@)) by {
            if self.keys().contains(key@) {
                let k = choose|k: int| 0 <= k < self.keys().len() && self.keys()[k] == key@;
                assert(self.keys()[k] != key@);
            }
        }
        None
    }

    /// Keeps `conn` as the connection of `key`, unless one is open there
    /// already (then `conn` is dropped and `false` returned): opening the
    /// index of a directory twice keeps the first connection.
    pub fn register(&mut self, key: String, conn: rusqlite::Connection) -> (added: bool)
        ensures
            added == !old(self).keys().contains(key@),
            added ==> final(self).keys() == old(self).keys().push(key@),
            added ==> final(self).connections() == old(self).connections().push((key@, conn)),
            !added ==> final(self).keys() == old(self).keys(),
            !added ==> *final(self) == *old(self),
    {
        proof {
            use_type_invariant(&*self);
        }
        match self.index_of(key.as_str()) {
            Some(_) => false,
            None => {
                let ghost before = self.keys();
                let ghost before_conns = self.connections();
                let ghost k = key@;
                let ghost c = conn;
                let mut entries: Vec<(String, rusqlite::Connection)> = Vec::new();
                assert(entry_keys(entries@) =~= Seq::<Seq<char>>::empty());
                std::mem::swap(&mut entries, &mut self.entries);
                assert(entry_keys(entries@) == before);
                entries.push((key, conn));
                assert(entry_keys(entries@) =~= before.push(k));
                assert forall|i: int, j: int| 0 <= i < j < entry_keys(entries@).len() implies #[trigger] entry_keys(
                    entries@,
                )[i] != #[trigger] entry_keys(entries@)[j] by {
                    if j == before.len() {
                        assert(before.contains(before[i]));
                    } else {
                        assert(entry_keys(entries@)[i] == before[i]);
                        assert(entry_keys(entries@)[j] == before[j]);
                    }
                }
                self.entries = entries;
                assert(self.connections() =~= before_conns.push((k, c)));
                true
            },
        }
    }

    /// The connection of `key`, if one is open.
    pub fn connection(&self, key: &str) -> (r: Option<&rusqlite::Connection>)
        ensures
            r is Some <==> self.keys().contains(key@),
            r matches Some(c) ==> exists|i: int|
                0 <= i < self.connections().len() && #[trigger] self.connections()[i] == (key@, *c),
    {
        match self.index_of(key) {
            Some(i) => {
                assert(self.connections()[i as int] == (key@, self.entries@[i as int].1));
                Some(&self.entries[i].1)
            },
            None => None,
        }
    }
}

/// Whether the index of the data directory `key` is open.
pub fn is_initialized(registry: &DbRegistry, key: &str) -> (r: bool)
    ensures
        r == registry.keys().contains(key@),
{
    registry.index_of(key).is_some()
}

/// Closes the connection of the data directory `key`, if one is open, so
/// that the directory can be moved or deleted; every other stays open.
pub fn close_db(registry: &mut DbRegistry, key: &str)
    ensures
        !final(registry).keys().contains(key@),
        !old(registry).keys().contains(key@) ==> *final(registry) == *old(registry),
        old(registry).keys().contains(key@) ==> exists|i: int|
            0 <= i < old(registry).keys().len() && #[trigger] old(registry).keys()[i] == key@
                && final(registry).connections() == old(registry).connections().remove(i),
        forall|k: Seq<char>| k != key@ ==> (final(registry).keys().contains(k) <==> old(
            registry,
        ).keys().contains(k)),
{
    proof {
        use_type_invariant(&*registry);
    }
    match registry.index_of(key) {
        None => {},
        Some(i) => {
            let ghost before = registry.keys();
            let ghost before_conns = registry.connections();
            let mut entries: Vec<(String, rusqlite::Connection)> = Vec::new();
            assert(entry_keys(entries@) =~= Seq::<Seq<char>>::empty());
            std::mem::swap(&mut entries, &mut registry.entries);
            assert(entry_keys(entries@) == before);
            let _closed = entries.remove(i);
            assert(entry_keys(entries@) =~= before.remove(i as int));
            assert forall|a: int, b: int| 0 <= a < b < entry_keys(entries@).len() implies #[trigger] entry_keys(
                entries@,
            )[a] != #[trigger] entry_keys(entries@)[b] by {
                let x = if a < i { a } else { a + 1 };
                let y = if b < i { b } else { b + 1 };
                assert(entry_keys(entries@)[a] == before[x]);
                assert(entry_keys(entries@)[b] == before[y]);
            }
            registry.entries = entries;
            assert(registry.keys() =~= before.remove(i as int));
            assert(registry.connections() =~= before_conns.remove(i as int));
            assert forall|k: Seq<char>| k != key@ implies (registry.keys().contains(k) <==> before.contains(k)) by {
                if before.contains(k) {
                    let j = choose|j: int| 0 <= j < before.len() && before[j] == k;
                    if j < i {
                        assert(registry.keys()[j] == k);
                    } else {
                        assert(registry.keys()[j - 1] == k);
                    }
                }
                if registry.keys().contains(k) {
                    let j = choose|j: int| 0 <= j < registry.keys().len() && registry.keys()[j] == k;
                    if j < i {
                        assert(before[j] == k);
                    } else {
                        assert(before[j + 1] == k);
                    }
                }
            }
            assert(!registry.keys().contains(key@)) by {
                if registry.keys().contains(key@) {
                    let j = choose|j: int| 0 <= j < registry.keys().len() && registry.keys()[j] == key@;
                    if j < i {
                        assert(before[j] == before[i as int]);
                    } else {
                        assert(before[j + 1] == before[i as int]);
                    }
                }
            }
        },
    }
}

/// Whether the full-text index is current: the fingerprint stored with it
/// (if any) is the fingerprint of the authoritative notes.
pub fn db_fts_is_current(stored: &Option<String>, fingerprint: &str) -> (r: bool)
    ensures
        r == (stored matches Some(s) && s@ == fingerprint@),
{
    match stored {
        Some(s) => str_eq(s.as_str(), fingerprint),
        None => false,
    }
}

/// Whether the metadata mirror is empty, given its row count.
pub fn db_notes_is_empty(count: i64) -> (r: bool)
    ensures
        r == (count == 0),
{
    count == 0
}

/// The preview that the index's mirror of a note keeps: its words joined
/// by single spaces, at most 140 characters.
pub fn index_preview(content: &str) -> (r: String)
    ensures
        r@ == joined_prefix(content@, 140),
{
    joined_words_prefix(content, 140)
}

/// The instant stored in the index as RFC 3339 text: the instant chrono
/// reads from it, or the Unix epoch when the text cannot be read.
pub open spec fn stored_instant_of(text: Seq<char>) -> Timestamp {
    match rfc3339_instant_of(text) {
        Some((secs, nanos)) => Timestamp { secs, nanos },
        None => Timestamp { secs: 0, nanos: 0 },
    }
}

/// Reads a stored instant of a note's metadata row; a damaged value reads
/// as the Unix epoch.
pub fn stored_instant(text: &str) -> (r: Timestamp)
    ensures
        r == stored_instant_of(text@),
{
    match parse_rfc3339(text) {
        Some((secs, nanos)) => Timestamp { secs, nanos },
        None => Timestamp { secs: 0, nanos: 0 },
    }
}

} // verus!
