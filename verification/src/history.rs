//! The history of applied wallpapers, newest first.

use vstd::prelude::*;

use crate::text::same;

verus! {

/// The oldest entries beyond this number are dropped.
pub const MAX_ENTRIES: usize = 200;

#[derive(Debug)]
pub struct HistoryEntry {
    pub file: String,
    pub source: String,
    pub title: String,
    pub copyright: Option<String>,
    /// Unix timestamp.
    pub applied_at: i64,
}

/// The applied wallpapers, newest first.
pub struct History {
    entries: Vec<HistoryEntry>,
}

impl View for History {
    type V = Seq<HistoryEntry>;

    closed spec fn view(&self) -> Seq<HistoryEntry> {
        self.entries@
    }
}

/// The first entry for a file at or behind `from`, or the number of entries.
pub open spec fn position_of(s: Seq<HistoryEntry>, file: Seq<char>, from: int) -> int
    decreases s.len() - from,
{
    if from >= s.len() {
        s.len() as int
    } else if s[from].file@ == file {
        from
    } else {
        position_of(s, file, from + 1)
    }
}

/// The entries without the first one for `file`.
pub open spec fn without_file(s: Seq<HistoryEntry>, file: Seq<char>) -> Seq<HistoryEntry> {
    let i = position_of(s, file, 0);
    if i < s.len() {
        s.remove(i)
    } else {
        s
    }
}

pub open spec fn capped(s: Seq<HistoryEntry>) -> Seq<HistoryEntry> {
    if s.len() > MAX_ENTRIES {
        s.take(MAX_ENTRIES as int)
    } else {
        s
    }
}

/// The entries with `entry` in front, in place of an older one for its file.
pub open spec fn pushed(s: Seq<HistoryEntry>, entry: HistoryEntry) -> Seq<HistoryEntry> {
    capped(seq![entry] + without_file(s, entry.file@))
}

/// The entries with the one at `i` moved to the front.
pub open spec fn fronted(s: Seq<HistoryEntry>, i: int) -> Seq<HistoryEntry> {
    seq![s[i]] + s.remove(i)
}

/// No file comes twice.
pub open spec fn distinct(s: Seq<HistoryEntry>) -> bool {
    forall|i: int, j: int| 0 <= i < j < s.len() ==> #[trigger] s[i].file@ != #[trigger] s[j].file@
}

/// The first entry of a source at or behind `from`: its newest one.
pub open spec fn newest_of(
    entries: Seq<HistoryEntry>,
    source: Seq<char>,
    from: int,
) -> Option<HistoryEntry>
    decreases entries.len() - from,
{
    if from >= entries.len() {
        None
    } else if entries[from].source@ == source {
        Some(entries[from])
    } else {
        newest_of(entries, source, from + 1)
    }
}

impl History {
    pub fn from_entries(entries: Vec<HistoryEntry>) -> (r: History)
        ensures
            r@ == entries@,
    {
        History { entries }
    }

    pub fn entries(&self) -> (r: &Vec<HistoryEntry>)
        ensures
            r@ == self@,
    {
        &self.entries
    }

    /// The current wallpaper: the one applied last.
    pub fn current(&self) -> (r: Option<&HistoryEntry>)
        ensures
            match r {
                Some(e) => self@.len() > 0 && *e == self@[0],
                None => self@.len() == 0,
            },
    {
        if self.entries.len() > 0 {
            Some(&self.entries[0])
        } else {
            None
        }
    }

    /// Puts an entry in front. An older entry for the same file goes.
    pub fn push(&mut self, entry: HistoryEntry)
        ensures
            final(self)@ == pushed(old(self)@, entry),
            final(self)@.len() <= MAX_ENTRIES,
            distinct(old(self)@) ==> distinct(final(self)@),
    {
        let ghost s = self@;
        let mut i: usize = 0;
        while i < self.entries.len() && !same(
            self.entries[i].file.as_str(),
            entry.file.as_str(),
        )
            invariant
                i <= self.entries.len(),
                self.entries@ == s,
                position_of(s, entry.file@, 0) == position_of(s, entry.file@, i as int),
            decreases self.entries.len() - i,
        {
            i += 1;
        }
        proof {
            lemma_position_of(s, entry.file@, 0);
        }
        if i < self.entries.len() {
            self.entries.remove(i);
        }
        assert(self.entries@ == without_file(s, entry.file@));
        self.entries.insert(0, entry);
        assert(self.entries@ =~= seq![entry] + without_file(s, entry.file@));
        if self.entries.len() > MAX_ENTRIES {
            self.entries.truncate(MAX_ENTRIES);
        }
        assert(self@ =~= pushed(s, entry));
        proof {
            if distinct(s) {
                lemma_pushed_distinct(s, entry);
            }
        }
    }

    /// Moves an entry to the front; says whether anything changed.
    pub fn move_to_front(&mut self, idx: usize) -> (changed: bool)
        ensures
            changed == (0 < idx < old(self)@.len()),
            changed ==> final(self)@ == fronted(old(self)@, idx as int),
            !changed ==> final(self)@ == old(self)@,
    {
        if idx == 0 || idx >= self.entries.len() {
            return false;
        }
        let ghost s = self@;
        let entry = self.entries.remove(idx);
        self.entries.insert(0, entry);
        assert(self@ =~= fronted(s, idx as int));
        true
    }

    /// Removes an entry; says whether anything changed.
    pub fn remove(&mut self, idx: usize) -> (changed: bool)
        ensures
            changed == (idx < old(self)@.len()),
            changed ==> final(self)@ == old(self)@.remove(idx as int),
            !changed ==> final(self)@ == old(self)@,
    {
        if idx < self.entries.len() {
            self.entries.remove(idx);
            true
        } else {
            false
        }
    }

    /// The next step of clearing the history: the newest entry goes, and the
    /// history is to be saved before the step after that. `saved` says how the
    /// last save went; clearing ends where it failed, or where nothing is left.
    pub fn clear_step(&mut self, saved: bool) -> (removed: bool)
        ensures
            removed == (saved && old(self)@.len() > 0),
            final(self)@ == (if removed {
                old(self)@.skip(1)
            } else {
                old(self)@
            }),
    {
        if !saved || self.entries.len() == 0 {
            return false;
        }
        let ghost before = self@;
        self.entries.remove(0);
        assert(self@ =~= before.skip(1));
        true
    }

    pub fn is_empty(&self) -> (r: bool)
        ensures
            r == (self@.len() == 0),
    {
        self.entries.len() == 0
    }

    /// The newest entry of a source.
    pub fn latest_of(&self, source: &str) -> (r: Option<&HistoryEntry>)
        ensures
            match r {
                Some(e) => newest_of(self@, source@, 0) == Some(*e),
                None => newest_of(self@, source@, 0) is None,
            },
    {
        let mut i: usize = 0;
        while i < self.entries.len()
            invariant
                i <= self.entries.len(),
                newest_of(self@, source@, 0) == newest_of(self@, source@, i as int),
            decreases self.entries.len() - i,
        {
            if same(self.entries[i].source.as_str(), source) {
                assert(self@[i as int] == self.entries@[i as int]);
                return Some(&self.entries[i]);
            }
            i += 1;
        }
        None
    }
}

proof fn lemma_position_of(s: Seq<HistoryEntry>, file: Seq<char>, from: int)
    requires
        0 <= from <= s.len(),
    ensures
        from <= position_of(s, file, from) <= s.len(),
        position_of(s, file, from) < s.len() ==> s[position_of(s, file, from)].file@ == file,
        forall|i: int| from <= i < position_of(s, file, from) ==> (#[trigger] s[i]).file@ != file,
    decreases s.len() - from,
{
    if from < s.len() && s[from].file@ != file {
        lemma_position_of(s, file, from + 1);
    }
}

/// Pushing keeps every file in the history at most once.
pub proof fn lemma_pushed_distinct(s: Seq<HistoryEntry>, entry: HistoryEntry)
    requires
        distinct(s),
    ensures
        distinct(pushed(s, entry)),
        pushed(s, entry)[0] == entry,
{
    lemma_position_of(s, entry.file@, 0);
    let p = position_of(s, entry.file@, 0);
    let rest = without_file(s, entry.file@);
    let t = pushed(s, entry);
    assert forall|i: int, j: int| 0 <= i < j < t.len() implies #[trigger] t[i].file@
        != #[trigger] t[j].file@ by {
        let b = if j - 1 < p || p >= s.len() {
            j - 1
        } else {
            j
        };
        assert(t[j] == rest[j - 1]);
        assert(rest[j - 1] == s[b]);
        if i == 0 {
            if b < p {
                assert(s[b].file@ != entry.file@);
            } else {
                assert(s[p].file@ != s[b].file@);
            }
        } else {
            let a = if i - 1 < p || p >= s.len() {
                i - 1
            } else {
                i
            };
            assert(t[i] == rest[i - 1]);
            assert(rest[i - 1] == s[a]);
            assert(s[a].file@ != s[b].file@);
        }
    }
}

/// Moving an entry to the front keeps all entries, and each file once.
pub proof fn lemma_fronted(s: Seq<HistoryEntry>, i: int)
    requires
        0 <= i < s.len(),
    ensures
        fronted(s, i).len() == s.len(),
        fronted(s, i).to_multiset() =~= s.to_multiset(),
        distinct(s) ==> distinct(fronted(s, i)),
{
    let t = fronted(s, i);
    s.to_multiset_ensures();
    s.remove(i).to_multiset_ensures();
    vstd::seq_lib::lemma_multiset_commutative(seq![s[i]], s.remove(i));
    assert(s.remove(i).to_multiset() =~= s.to_multiset().remove(s[i]));
    assert(seq![s[i]].to_multiset() =~= vstd::multiset::Multiset::singleton(s[i])) by {
        Seq::<HistoryEntry>::empty().to_multiset_ensures();
        assert(seq![s[i]] =~= Seq::<HistoryEntry>::empty().push(s[i]));
    }
    assert(s.contains(s[i]));
    assert(s.to_multiset().count(s[i]) > 0);
    if distinct(s) {
        assert forall|a: int, b: int| 0 <= a < b < t.len() implies #[trigger] t[a].file@
            != #[trigger] t[b].file@ by {
            let y = if b - 1 < i {
                b - 1
            } else {
                b
            };
            assert(t[b] == s[y]);
            if a == 0 {
                assert(t[0] == s[i]);
                if y < i {
                    assert(s[y].file@ != s[i].file@);
                } else {
                    assert(s[i].file@ != s[y].file@);
                }
            } else {
                let x = if a - 1 < i {
                    a - 1
                } else {
                    a
                };
                assert(t[a] == s[x]);
                assert(s[x].file@ != s[y].file@);
            }
        }
    }
}

/// What is left of the history once it was cleared, where the first `saves`
/// saves went well and the one after them fails.
pub open spec fn cleared(history: Seq<HistoryEntry>, saves: nat) -> Seq<HistoryEntry>
    decreases history.len(),
{
    if history.len() == 0 {
        history
    } else if saves == 0 {
        history.skip(1)
    } else {
        cleared(history.skip(1), (saves - 1) as nat)
    }
}

/// Clearing leaves nothing where every save goes well; where one fails, the
/// entries that were not reached stay.
pub proof fn lemma_cleared(history: Seq<HistoryEntry>, saves: nat)
    ensures
        saves + 1 >= history.len() ==> cleared(history, saves).len() == 0,
        saves + 1 < history.len() ==> cleared(history, saves) == history.skip(saves as int + 1),
    decreases history.len(),
{
    if history.len() > 0 && saves > 0 {
        lemma_cleared(history.skip(1), (saves - 1) as nat);
        if saves + 1 < history.len() {
            assert(history.skip(1).skip(saves as int) =~= history.skip(saves as int + 1));
        }
    }
}

} // verus!
