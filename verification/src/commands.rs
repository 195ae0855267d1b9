//! A palette of named commands: a typed query, the registered entries that match it
//! ordered by the fuzzy matcher's score, lowest first, and the selected entry.
use vstd::prelude::*;

use fuzzy_matcher::skim::SkimMatcherV2;
use fuzzy_matcher::FuzzyMatcher;

use crate::app::{KeyCode, KeyEvent};
use crate::point::Point;

verus! {

#[verifier::external_type_specification]
#[verifier::external_body]
pub struct ExDefaultKey(slotmap::DefaultKey);

#[verifier::external_type_specification]
#[verifier::external_body]
#[verifier::reject_recursive_types(T)]
pub struct ExSender<T>(tokio::sync::mpsc::Sender<T>);

/// Identifies a registered entry.
pub type EntryId = slotmap::DefaultKey;

#[derive(Debug, Clone, Copy)]
pub enum Command {
    Open,
    Close,
    Select(EntryId),
}

#[derive(Clone, Copy, Debug, PartialEq, Eq, Structural)]
pub enum Mode {
    Command,
}

/// A registered command: its name, other names, and the message it sends.
#[derive(Debug)]
pub struct Entry<T> {
    pub id: EntryId,
    pub command: String,
    pub aliases: Vec<String>,
    pub send: T,
}

impl<T> Entry<T> {
    pub fn new(id: EntryId, command: String, aliases: Vec<String>, send: T) -> (r: Entry<T>)
        ensures
            r == (Entry { id, command, aliases, send }),
    {
        Entry { id, command, aliases, send }
    }
}

/// An entry that matches the query, with its score and the matched chars of its name.
#[derive(Debug)]
pub struct Result<'a, T> {
    pub entry: &'a Entry<T>,
    pub score: i64,
    pub indices: Vec<usize>,
}

/// A match of the query: the entry, its score and the matched chars of its name.
#[derive(Debug)]
pub struct SearchResult {
    pub entry: EntryId,
    pub score: i64,
    pub indices: Vec<usize>,
}

/// A match as a plain value.
pub open spec fn result_view(r: SearchResult) -> (EntryId, i64, Seq<usize>) {
    (r.entry, r.score, r.indices@)
}

/// What the default skim matcher makes of `choice` against `pattern`: none where the
/// pattern does not match, else the score and the indices of the matched chars.
pub uninterp spec fn skim_match(choice: Seq<char>, pattern: Seq<char>) -> Option<(i64, Seq<usize>)>;

/// Matches `pattern` against `choice` with `SkimMatcherV2::default().fuzzy_indices`.
#[verifier::external_body]
fn fuzzy_indices(choice: &str, pattern: &str) -> (r: Option<(i64, Vec<usize>)>)
    ensures
        match r {
            None => skim_match(choice@, pattern@) is None,
            Some((score, indices)) => skim_match(choice@, pattern@) == Some((score, indices@)),
        },
{
    SkimMatcherV2::default().fuzzy_indices(choice, pattern)
}

/// `after` holds the items of `before` ordered by score, items of equal score in the
/// order they had.
pub open spec fn stably_sorted(
    before: Seq<(EntryId, i64, Seq<usize>)>,
    after: Seq<(EntryId, i64, Seq<usize>)>,
) -> bool {
    exists|p: Seq<int>|
        {
            &&& p.len() == before.len()
            &&& after.len() == before.len()
            &&& forall|i: int| 0 <= i < p.len() ==> 0 <= #[trigger] p[i] < before.len()
            &&& forall|i: int, j: int| 0 <= i < j < p.len() ==> #[trigger] p[i] != #[trigger] p[j]
            &&& forall|i: int| 0 <= i < after.len() ==> #[trigger] after[i] == before[p[i]]
            &&& forall|i: int, j: int|
                0 <= i < j < after.len() ==> (#[trigger] after[i]).1 < (#[trigger] after[j]).1
                    || (after[i].1 == after[j].1 && p[i] < p[j])
        }
}

/// Orders the matches by score with `sort_by_key`, a stable sort.
#[verifier::external_body]
fn sort_by_score(results: &mut Vec<SearchResult>)
    ensures
        stably_sorted(old(results)@.map_values(|r| result_view(r)), final(results)@.map_values(|r| result_view(r))),
{
    results.sort_by_key(|entry| entry.score)
}

/// Appends `c`; `String::push` adds it at the end.
#[verifier::external_body]
fn string_push(s: &mut String, c: char)
    ensures
        final(s)@ == old(s)@.push(c),
{
    s.push(c)
}

/// Removes the last char; `String::pop` gives it, or none for an empty string.
#[verifier::external_body]
fn string_pop(s: &mut String) -> (r: Option<char>)
    ensures
        old(s)@.len() == 0 ==> r is None && final(s)@ == old(s)@,
        old(s)@.len() > 0 ==> r == Some(old(s)@.last()) && final(s)@ == old(s)@.drop_last(),
{
    s.pop()
}

/// The keys of the registered entries, from a `slotmap::SlotMap` that holds, under
/// each key, where its entry stands among the entries.
#[verifier::external_body]
#[derive(Debug)]
pub struct EntrySlots {
    map: slotmap::SlotMap<EntryId, usize>,
}

/// What the slot map holds: each key it gave, with the value stored under it.
pub uninterp spec fn slots_of(slots: EntrySlots) -> Map<EntryId, usize>;

impl EntrySlots {
    /// What the map holds.
    pub open spec fn held(&self) -> Map<EntryId, usize> {
        slots_of(*self)
    }

    /// An empty map; `SlotMap::with_key` holds nothing.
    #[verifier::external_body]
    fn new() -> (r: EntrySlots)
        ensures
            r.held().dom() == Set::<EntryId>::empty(),
    {
        EntrySlots { map: slotmap::SlotMap::with_key() }
    }

    /// Stores `index` under a key that the map did not hold, and gives that key;
    /// `SlotMap::insert`, which panics only where the map already holds
    /// `u32::MAX - 1` values.
    #[verifier::external_body]
    fn insert(&mut self, index: usize) -> (r: EntryId)
        requires
            slots_of(*old(self)).dom().finite(),
            slots_of(*old(self)).dom().len() < 0xffff_fffe,
        ensures
            !slots_of(*old(self)).dom().contains(r),
            slots_of(*final(self)) == slots_of(*old(self)).insert(r, index),
    {
        self.map.insert(index)
    }

    /// The value stored under `id`; `SlotMap::get` has none for a key the map does not
    /// hold.
    #[verifier::external_body]
    fn get(&self, id: EntryId) -> (r: Option<usize>)
        ensures
            match r {
                Some(i) => slots_of(*self).dom().contains(id) && slots_of(*self)[id] == i,
                None => !slots_of(*self).dom().contains(id),
            },
    {
        self.map.get(id).copied()
    }
}

/// The entry of `entries` with the key `id`, if there is one.
pub open spec fn entry_with_id<T>(entries: Seq<Entry<T>>, id: EntryId) -> Option<Entry<T>> {
    if exists|i: int| 0 <= i < entries.len() && (#[trigger] entries[i]).id == id {
        Some(entries[choose|i: int| 0 <= i < entries.len() && (#[trigger] entries[i]).id == id])
    } else {
        None
    }
}

/// The key and name of each entry, in order.
pub open spec fn names_of<T>(entries: Seq<Entry<T>>) -> Seq<(EntryId, Seq<char>)> {
    entries.map_values(|e: Entry<T>| (e.id, e.command@))
}

/// The registered entries, in the order they were registered, each found by its key
/// through the slot map.
#[verifier::reject_recursive_types(T)]
#[derive(Debug)]
pub struct EntryMap<T> {
    slots: EntrySlots,
    entries: Vec<Entry<T>>,
}

impl<T> View for EntryMap<T> {
    type V = Seq<Entry<T>>;

    closed spec fn view(&self) -> Seq<Entry<T>> {
        self.entries@
    }
}

impl<T> EntryMap<T> {
    /// The slot map holds the key of each entry, and, under it, where the entry stands.
    #[verifier::type_invariant]
    closed spec fn slots_match(self) -> bool {
        let m = slots_of(self.slots);
        &&& m.dom().finite()
        &&& m.dom().len() == self.entries@.len()
        &&& forall|k: EntryId| #[trigger]
            m.dom().contains(k) ==> m[k] < self.entries@.len() && self.entries@[m[k] as int].id
                == k
        &&& forall|i: int| #![trigger self.entries@[i]]
            0 <= i < self.entries@.len() ==> m.dom().contains(self.entries@[i].id) && m[self.entries@[i].id]
                == i
    }

    fn new() -> (r: EntryMap<T>)
        ensures
            r@ == Seq::<Entry<T>>::empty(),
    {
        EntryMap { slots: EntrySlots::new(), entries: Vec::new() }
    }

    /// Appends an entry built for the key the slot map gives it, and gives that key.
    fn insert(&mut self, command: String, aliases: Vec<String>, send: T) -> (r: EntryId)
        requires
            old(self)@.len() < 0xffff_fffe,
        ensures
            forall|i: int| 0 <= i < old(self)@.len() ==> (#[trigger] old(self)@[i]).id != r,
            final(self)@ == old(self)@.push(Entry { id: r, command, aliases, send }),
    {
        proof { use_type_invariant(&*self); }
        let index = self.entries.len();
        let mut taken = EntryMap::new();
        std::mem::swap(&mut taken, self);
        let EntryMap { mut slots, mut entries } = taken;
        let ghost m0 = slots_of(slots);
        let ghost old_entries = entries@;
        let id = slots.insert(index);
        entries.push(Entry::new(id, command, aliases, send));
        proof {
            let m = slots_of(slots);
            assert(m.dom() =~= m0.dom().insert(id));
            assert forall|k: EntryId| #[trigger] m.dom().contains(k) implies m[k] < entries@.len()
                && entries@[m[k] as int].id == k by {
                if k != id {
                    assert(entries@[m0[k] as int] == old_entries[m0[k] as int]);
                }
            }
            assert forall|i: int| #![trigger entries@[i]]
                0 <= i < entries@.len() implies m.dom().contains(entries@[i].id) && m[entries@[i].id]
                == i by {
                if i < old_entries.len() {
                    assert(entries@[i] == old_entries[i]);
                }
            }
        }
        *self = EntryMap { slots, entries };
        id
    }

    /// The key and name of each entry, in order.
    fn commands(&self) -> (r: Vec<(EntryId, String)>)
        ensures
            r@.map_values(|p: (EntryId, String)| (p.0, p.1@)) == names_of(self@),
    {
        let mut out: Vec<(EntryId, String)> = Vec::new();
        let mut i: usize = 0;
        while i < self.entries.len()
            invariant
                i <= self.entries@.len(),
                out@.map_values(|p: (EntryId, String)| (p.0, p.1@)) == names_of(
                    self.entries@.take(i as int),
                ),
            decreases self.entries@.len() - i,
        {
            let e = &self.entries[i];
            let ghost before = out@;
            out.push((e.id, e.command.clone()));
            proof {
                assert(self.entries@.take(i + 1) =~= self.entries@.take(i as int).push(*e));
                assert(out@.map_values(|p: (EntryId, String)| (p.0, p.1@)) =~= before.map_values(
                    |p: (EntryId, String)| (p.0, p.1@),
                ).push((e.id, e.command@)));
                assert(names_of(self.entries@.take(i + 1)) =~= names_of(
                    self.entries@.take(i as int),
                ).push((e.id, e.command@)));
            }
            i += 1;
        }
        proof {
            assert(self.entries@.take(i as int) =~= self.entries@);
        }
        out
    }

    /// The entry with the key `id`; none where no entry has it.
    fn get(&self, id: EntryId) -> (r: Option<&Entry<T>>)
        ensures
            match r {
                Some(e) => entry_with_id(self@, id) == Some(*e),
                None => entry_with_id(self@, id) is None,
            },
    {
        proof { use_type_invariant(self); }
        match self.slots.get(id) {
            Some(i) => {
                let e = &self.entries[i];
                proof {
                    let w = choose|j: int| 0 <= j < self@.len() && (#[trigger] self@[j]).id == id;
                    assert(self@[i as int].id == id);
                    assert(self@[w] == self@[i as int]);
                }
                Some(e)
            },
            None => {
                proof {
                    if exists|j: int| 0 <= j < self@.len() && (#[trigger] self@[j]).id == id {
                        let w = choose|j: int| 0 <= j < self@.len() && (#[trigger] self@[j]).id == id;
                        assert(self.entries@[w].id == id);
                    }
                }
                None
            },
        }
    }
}

/// The matches of `query` among `names`, in the order of `names`.
pub open spec fn matches(names: Seq<(EntryId, Seq<char>)>, query: Seq<char>) -> Seq<(EntryId, i64, Seq<usize>)>
    decreases names.len(),
{
    if names.len() == 0 {
        Seq::empty()
    } else {
        let rest = matches(names.drop_last(), query);
        match skim_match(names.last().1, query) {
            Some((score, indices)) => rest.push((names.last().0, score, indices)),
            None => rest,
        }
    }
}

/// The matches of `query` among `names`, ordered by score, matches of equal score in
/// the order of `names`.
pub fn search_results(names: &Vec<(EntryId, String)>, query: &String) -> (r: Vec<SearchResult>)
    ensures
        stably_sorted(
            matches(names@.map_values(|p: (EntryId, String)| (p.0, p.1@)), query@),
            r@.map_values(|r| result_view(r)),
        ),
{
    let ghost named = names@.map_values(|p: (EntryId, String)| (p.0, p.1@));
    let mut results: Vec<SearchResult> = Vec::new();
    let mut i: usize = 0;
    while i < names.len()
        invariant
            i <= names.len(),
            named == names@.map_values(|p: (EntryId, String)| (p.0, p.1@)),
            results@.map_values(|r| result_view(r)) == matches(named.take(i as int), query@),
        decreases names.len() - i,
    {
        let (id, command) = &names[i];
        let result = fuzzy_indices(command.as_str(), query.as_str());
        proof {
            assert(named.take(i + 1).drop_last() =~= named.take(i as int));
            assert(named.take(i + 1).last() == (*id, command@));
        }
        match result {
            Some((score, indices)) => {
                let ghost before = results@.map_values(|r| result_view(r));
                results.push(SearchResult { entry: *id, score, indices });
                proof {
                    assert(results@.map_values(|r| result_view(r)) =~= before.push(
                        (*id, score, indices@),
                    ));
                }
            },
            None => {},
        }
        i += 1;
    }
    proof {
        assert(named.take(names@.len() as int) =~= named);
    }
    sort_by_score(&mut results);
    results
}

/// Every match is of a key among the names.
pub proof fn lemma_matches_keys(names: Seq<(EntryId, Seq<char>)>, query: Seq<char>)
    ensures
        forall|k: int|
            0 <= k < matches(names, query).len() ==> exists|j: int|
                0 <= j < names.len() && (#[trigger] names[j]).0 == (#[trigger] matches(
                    names,
                    query,
                )[k]).0,
    decreases names.len(),
{
    if names.len() > 0 {
        let rest = names.drop_last();
        lemma_matches_keys(rest, query);
        let m = matches(names, query);
        assert forall|k: int| 0 <= k < m.len() implies exists|j: int|
            0 <= j < names.len() && (#[trigger] names[j]).0 == (#[trigger] m[k]).0 by {
            let mr = matches(rest, query);
            if k < mr.len() {
                assert(m[k] == mr[k]);
                let j = choose|j: int| 0 <= j < rest.len() && (#[trigger] rest[j]).0 == mr[k].0;
                assert(names[j] == rest[j]);
            } else {
                assert(names[names.len() - 1].0 == m[k].0);
            }
        }
    }
}

/// The query, its cursor, the registered entries, the matches and the selected one.
#[verifier::reject_recursive_types(T)]
#[derive(Debug)]
pub struct Commands<T> {
    pub sender: tokio::sync::mpsc::Sender<T>,
    pub query: String,
    pub cursor: Point,
    pub entries: EntryMap<T>,
    pub selected: Option<EntryId>,
    pub filtered: Vec<SearchResult>,
}

impl<T> Commands<T> {
    pub fn new(tx: tokio::sync::mpsc::Sender<T>) -> (r: Commands<T>)
        ensures
            r.sender == tx,
            r.query@ == Seq::<char>::empty(),
            r.cursor == (Point { line: 0, column: 0 }),
            r.entries@ == Seq::<Entry<T>>::empty(),
            r.selected is None,
            r.filtered@ == Seq::<SearchResult>::empty(),
    {
        Commands {
            sender: tx,
            query: String::new(),
            cursor: Point { line: 0, column: 0 },
            entries: EntryMap::new(),
            selected: None,
            filtered: Vec::new(),
        }
    }

    /// Registers a command under its name and other names, and gives its key.
    pub fn register(&mut self, command: &str, aliases: Vec<&str>, msg: T) -> (r: EntryId)
        requires
            old(self).entries@.len() < 0xffff_fffe,
        ensures
            forall|i: int|
                0 <= i < old(self).entries@.len() ==> (#[trigger] old(self).entries@[i]).id != r,
            final(self).entries@.len() == old(self).entries@.len() + 1,
            final(self).entries@.drop_last() == old(self).entries@,
            final(self).entries@.last().id == r,
            final(self).entries@.last().command@ == command@,
            final(self).entries@.last().aliases@.map_values(|a: String| a@) == aliases@.map_values(
                |a: &str| a@,
            ),
            final(self).entries@.last().send == msg,
            final(self).sender == old(self).sender,
            final(self).query == old(self).query,
            final(self).cursor == old(self).cursor,
            final(self).selected == old(self).selected,
            final(self).filtered == old(self).filtered,
    {
        let command = command.to_owned();
        let mut names: Vec<String> = Vec::new();
        let mut i: usize = 0;
        while i < aliases.len()
            invariant
                i <= aliases.len(),
                names@.len() == i,
                forall|j: int| 0 <= j < i ==> (#[trigger] names@[j])@ == aliases@[j]@,
            decreases aliases.len() - i,
        {
            names.push(aliases[i].to_owned());
            i += 1;
        }
        proof {
            assert(names@.map_values(|a: String| a@) =~= aliases@.map_values(|a: &str| a@));
        }
        let id = self.entries.insert(command, names, msg);
        proof {
            assert(self.entries@.drop_last() =~= old(self).entries@);
        }
        id
    }

    /// Edits the query by the key, or picks the selected entry with Enter; an edited
    /// query is searched again.
    pub fn process_key(&mut self, key: KeyEvent) -> (r: Option<Command>)
        requires
            old(self).cursor.column < usize::MAX,
        ensures
            key.code == KeyCode::Enter ==> {
                &&& r == match old(self).selected {
                    Some(id) => Some(Command::Select(id)),
                    None => None::<Command>,
                }
                &&& final(self).query@ == old(self).query@
                &&& final(self).cursor == old(self).cursor
                &&& final(self).selected == old(self).selected
                &&& final(self).filtered == old(self).filtered
            },
            final(self).entries@ == old(self).entries@,
            key.code != KeyCode::Enter ==> {
                &&& r is None
                &&& final(self).query@ == match key.code {
                    KeyCode::Backspace => if old(self).query@.len() > 0 {
                        old(self).query@.drop_last()
                    } else {
                        old(self).query@
                    },
                    KeyCode::Char(c) => old(self).query@.push(c),
                    _ => old(self).query@,
                }
                &&& final(self).cursor.line == old(self).cursor.line
                &&& final(self).cursor.column == match key.code {
                    KeyCode::Backspace => if old(self).cursor.column > 0 {
                        old(self).cursor.column - 1
                    } else {
                        0
                    },
                    KeyCode::Char(_) => old(self).cursor.column + 1,
                    _ => old(self).cursor.column as int,
                }
                &&& stably_sorted(
                    matches(names_of(old(self).entries@), final(self).query@),
                    final(self).filtered@.map_values(|r| result_view(r)),
                )
                &&& forall|i: int|
                    0 <= i < final(self).filtered@.len() ==> entry_with_id(
                        final(self).entries@,
                        (#[trigger] final(self).filtered@[i]).entry,
                    ) is Some
                &&& final(self).selected == if final(self).filtered@.len() > 0 {
                    Some(final(self).filtered@[0].entry)
                } else {
                    None
                }
            },
    {
        match key.code {
            KeyCode::Backspace => {
                string_pop(&mut self.query);
                self.cursor.move_prev_column();
            },
            KeyCode::Char(c) => {
                string_push(&mut self.query, c);
                self.cursor.move_next_column();
            },
            KeyCode::Enter => {
                return match self.selected {
                    Some(id) => Some(Command::Select(id)),
                    None => None,
                };
            },
            _ => {},
        }
        self.search();
        None
    }

    pub fn reset(&mut self)
        ensures
            final(self).query@ == Seq::<char>::empty(),
            final(self).cursor == old(self).cursor,
            final(self).entries@ == old(self).entries@,
            final(self).selected == old(self).selected,
            final(self).filtered == old(self).filtered,
    {
        self.query = String::new();
    }

    /// Each match with the entry of its key, in the order of the matches. Every match's
    /// key must be that of an entry, as it is after a search.
    pub fn results(&self) -> (r: Vec<Result<'_, T>>)
        requires
            forall|i: int|
                0 <= i < self.filtered@.len() ==> entry_with_id(
                    self.entries@,
                    (#[trigger] self.filtered@[i]).entry,
                ) is Some,
        ensures
            r@.len() == self.filtered@.len(),
            forall|i: int|
                #![trigger r@[i]]
                0 <= i < r@.len() ==> {
                    &&& entry_with_id(self.entries@, self.filtered@[i].entry) == Some(*r@[i].entry)
                    &&& r@[i].score == self.filtered@[i].score
                    &&& r@[i].indices@ == self.filtered@[i].indices@
                },
    {
        let mut out: Vec<Result<'_, T>> = Vec::new();
        let mut i: usize = 0;
        while i < self.filtered.len()
            invariant
                i <= self.filtered.len(),
                out@.len() == i,
                forall|k: int|
                    0 <= k < self.filtered@.len() ==> entry_with_id(
                        self.entries@,
                        (#[trigger] self.filtered@[k]).entry,
                    ) is Some,
                forall|k: int|
                    #![trigger out@[k]]
                    0 <= k < i ==> {
                        &&& entry_with_id(self.entries@, self.filtered@[k].entry) == Some(
                            *out@[k].entry,
                        )
                        &&& out@[k].score == self.filtered@[k].score
                        &&& out@[k].indices@ == self.filtered@[k].indices@
                    },
            decreases self.filtered.len() - i,
        {
            let SearchResult { entry, score, indices } = &self.filtered[i];
            proof {
                assert(entry_with_id(self.entries@, self.filtered@[i as int].entry) is Some);
            }
            match self.entries.get(*entry) {
                Some(e) => {
                    let copied = indices.clone();
                    proof {
                        assert forall|k: int| 0 <= k < indices@.len() implies copied@[k]
                            == indices@[k] by {
                            assert(cloned::<usize>(indices@[k], copied@[k]));
                        }
                        assert(copied@ =~= indices@);
                    }
                    out.push(Result { entry: e, score: *score, indices: copied });
                },
                None => {
                    proof { assert(false); }
                },
            }
            i += 1;
        }
        out
    }

    /// Matches the query against the names of the entries, keeps the matches ordered by
    /// score, and selects the first.
    pub fn search(&mut self)
        ensures
            final(self).sender == old(self).sender,
            final(self).query == old(self).query,
            final(self).cursor == old(self).cursor,
            final(self).entries@ == old(self).entries@,
            stably_sorted(
                matches(names_of(old(self).entries@), old(self).query@),
                final(self).filtered@.map_values(|r| result_view(r)),
            ),
            forall|i: int|
                0 <= i < final(self).filtered@.len() ==> entry_with_id(
                    final(self).entries@,
                    (#[trigger] final(self).filtered@[i]).entry,
                ) is Some,
            final(self).selected == if final(self).filtered@.len() > 0 {
                Some(final(self).filtered@[0].entry)
            } else {
                None
            },
            forall|i: int, j: int|
                0 <= i < j < final(self).filtered@.len() ==> (#[trigger] final(self).filtered@[i]).score
                    <= (#[trigger] final(self).filtered@[j]).score,
    {
        let names = self.entries.commands();
        let results = search_results(&names, &self.query);
        proof {
            let v = results@.map_values(|r| result_view(r));
            assert forall|i: int, j: int|
                0 <= i < j < results@.len() implies (#[trigger] results@[i]).score
                    <= (#[trigger] results@[j]).score by {
                assert(v[i].1 == results@[i].score);
                assert(v[j].1 == results@[j].score);
            }
        }
        proof {
            let named = names@.map_values(|p: (EntryId, String)| (p.0, p.1@));
            let before = matches(named, self.query@);
            let after = results@.map_values(|r| result_view(r));
            lemma_matches_keys(named, self.query@);
            let p = choose|p: Seq<int>|
                {
                    &&& p.len() == before.len()
                    &&& after.len() == before.len()
                    &&& forall|i: int| 0 <= i < p.len() ==> 0 <= #[trigger] p[i] < before.len()
                    &&& forall|i: int, j: int| 0 <= i < j < p.len() ==> #[trigger] p[i] != #[trigger] p[j]
                    &&& forall|i: int| 0 <= i < after.len() ==> #[trigger] after[i] == before[p[i]]
                    &&& forall|i: int, j: int|
                        0 <= i < j < after.len() ==> (#[trigger] after[i]).1 < (#[trigger] after[j]).1
                            || (after[i].1 == after[j].1 && p[i] < p[j])
                };
            assert forall|i: int| 0 <= i < results@.len() implies entry_with_id(
                self.entries@,
                (#[trigger] results@[i]).entry,
            ) is Some by {
                assert(after[i] == before[p[i]]);
                let j = choose|j: int| 0 <= j < named.len() && named[j].0 == before[p[i]].0;
                assert(self.entries@[j].id == results@[i].entry);
            }
        }
        self.selected = if results.len() > 0 {
            Some(results[0].entry)
        } else {
            None
        };
        self.filtered = results;
    }
}

} // verus!
