//! The history, the task log and the queue.

use vstd::prelude::*;

use crate::daemon::{kind_text, title_for, update_text};
use crate::history::{fronted, newest_of, position_of, pushed, HistoryEntry};
use crate::storage::MetaView;
use crate::supervisor::command_for;
use crate::tasklog::{logged, open_entry, TaskLogEntry};

verus! {

/// A new wallpaper stands first in the history. Where its file is not in it, all
/// the others follow in their order; at most two hundred stay.
pub proof fn lemma_new_comes_first(s: Seq<HistoryEntry>, e: HistoryEntry)
    requires
        forall|i: int| 0 <= i < s.len() ==> (#[trigger] s[i]).file@ != e.file@,
    ensures
        pushed(s, e).len() == (if s.len() < 200 {
            s.len() as int + 1
        } else {
            200
        }),
        pushed(s, e)[0] == e,
        forall|i: int| 1 <= i < pushed(s, e).len() ==> #[trigger] pushed(s, e)[i] == s[i - 1],
{
    lemma_no_position(s, e.file@, 0);
}

/// A file that is in the history moves to the front, as it is now applied: its
/// old entry goes, and the others keep their order.
pub proof fn lemma_known_moves_to_front(s: Seq<HistoryEntry>, e: HistoryEntry, k: int)
    requires
        0 <= k < s.len() <= 200,
        s[k].file@ == e.file@,
        forall|i: int| 0 <= i < k ==> (#[trigger] s[i]).file@ != e.file@,
    ensures
        pushed(s, e).len() == s.len(),
        pushed(s, e)[0] == e,
        forall|i: int| 0 <= i < k ==> #[trigger] pushed(s, e)[i + 1] == s[i],
        forall|i: int| k < i < s.len() ==> #[trigger] pushed(s, e)[i] == s[i],
{
    lemma_position_here(s, e.file@, 0, k);
    assert forall|i: int| 0 <= i < k implies #[trigger] pushed(s, e)[i + 1] == s[i] by {
        assert(s.remove(k)[i] == s[i]);
    }
    assert forall|i: int| k < i < s.len() implies #[trigger] pushed(s, e)[i] == s[i] by {
        assert(s.remove(k)[i - 1] == s[i]);
    }
}

proof fn lemma_no_position(s: Seq<HistoryEntry>, file: Seq<char>, from: int)
    requires
        0 <= from <= s.len(),
        forall|i: int| 0 <= i < s.len() ==> (#[trigger] s[i]).file@ != file,
    ensures
        position_of(s, file, from) == s.len(),
    decreases s.len() - from,
{
    if from < s.len() {
        assert(s[from].file@ != file);
        lemma_no_position(s, file, from + 1);
    }
}

proof fn lemma_position_here(s: Seq<HistoryEntry>, file: Seq<char>, from: int, k: int)
    requires
        0 <= from <= k < s.len(),
        s[k].file@ == file,
        forall|i: int| from <= i < k ==> (#[trigger] s[i]).file@ != file,
    ensures
        position_of(s, file, from) == k,
    decreases k - from,
{
    if from < k {
        assert(s[from].file@ != file);
        lemma_position_here(s, file, from + 1, k);
    }
}

/// Moving an entry to the front shifts those before it by one, and no other.
pub proof fn lemma_moved_to_front(s: Seq<HistoryEntry>, i: int, j: int)
    requires
        0 <= i < s.len(),
        0 <= j < s.len(),
    ensures
        fronted(s, i).len() == s.len(),
        fronted(s, i)[0] == s[i],
        j < i ==> fronted(s, i)[j + 1] == s[j],
        j > i ==> fronted(s, i)[j] == s[j],
{
    if j < i {
        assert(s.remove(i)[j] == s[j]);
    }
    if j > i {
        assert(s.remove(i)[j - 1] == s[j]);
    }
}

/// The newest wallpaper of a source is its first in the history.
pub proof fn lemma_newest_is_first(s: Seq<HistoryEntry>, source: Seq<char>, k: int)
    requires
        0 <= k <= s.len(),
        forall|i: int| 0 <= i < k ==> (#[trigger] s[i]).source@ != source,
    ensures
        k < s.len() && s[k].source@ == source ==> newest_of(s, source, 0) == Some(s[k]),
        k == s.len() ==> newest_of(s, source, 0) is None,
{
    lemma_newest_from(s, source, 0, k);
}

proof fn lemma_newest_from(s: Seq<HistoryEntry>, source: Seq<char>, from: int, k: int)
    requires
        0 <= from <= k <= s.len(),
        forall|i: int| from <= i < k ==> (#[trigger] s[i]).source@ != source,
    ensures
        k < s.len() && s[k].source@ == source ==> newest_of(s, source, from) == Some(s[k]),
        k == s.len() ==> newest_of(s, source, from) is None,
    decreases k - from,
{
    if from < k {
        assert(s[from].source@ != source);
        lemma_newest_from(s, source, from + 1, k);
    }
}

/// A task is logged before those that were logged; of more than two hundred the
/// oldest goes.
pub proof fn lemma_logged_first(s: Seq<TaskLogEntry>, e: TaskLogEntry, i: int)
    ensures
        logged(s, e)[0] == e,
        logged(s, e).len() == (if s.len() < 200 {
            s.len() as int + 1
        } else {
            200
        }),
        0 <= i < s.len() && i < 199 ==> logged(s, e)[i + 1] == s[i],
{
}

/// The entry of a task that runs is the first with its id that has no end.
pub proof fn lemma_open_is_first(s: Seq<TaskLogEntry>, id: u64, k: int)
    requires
        0 <= k <= s.len(),
        forall|i: int| 0 <= i < k ==> !((#[trigger] s[i]).id == id && s[i].end_ts == 0),
    ensures
        k < s.len() && s[k].id == id && s[k].end_ts == 0 ==> open_entry(s, id, 0) == k,
        k == s.len() ==> open_entry(s, id, 0) == s.len(),
{
    lemma_open_from(s, id, 0, k);
}

proof fn lemma_open_from(s: Seq<TaskLogEntry>, id: u64, from: int, k: int)
    requires
        0 <= from <= k <= s.len(),
        forall|i: int| from <= i < k ==> !((#[trigger] s[i]).id == id && s[i].end_ts == 0),
    ensures
        k < s.len() && s[k].id == id && s[k].end_ts == 0 ==> open_entry(s, id, from) == k,
        k == s.len() ==> open_entry(s, id, from) == s.len(),
    decreases k - from,
{
    if from < k {
        assert(!(s[from].id == id && s[from].end_ts == 0));
        lemma_open_from(s, id, from + 1, k);
    }
}

/// A task's label names what is updated, and its kind who asked.
pub proof fn lemma_labels(updating: Seq<char>, name: Seq<char>)
    ensures
        update_text(updating, name) == updating + seq![' '] + name,
        kind_text(true) == "scheduled"@,
        kind_text(false) == "manual"@,
{
    reveal_strlit(" ");
    assert(" "@ =~= seq![' ']);
}

/// A wallpaper is titled by its description, and without one by the name of its
/// file without the ending.
pub proof fn lemma_titles(dir: Seq<char>, stem: Seq<char>, ext: Seq<char>, meta: MetaView)
    requires
        stem.len() > 0,
        crate::text::free_of(stem, '/'),
        ext.len() > 0,
        crate::text::free_of(ext, '/'),
        crate::text::free_of(ext, '.'),
    ensures
        title_for(dir + seq!['/'] + stem + seq!['.'] + ext, Some(meta)) == meta.title,
        title_for(dir + seq!['/'] + stem + seq!['.'] + ext, None) == stem,
{
    let name = stem + seq!['.'] + ext;
    let path = dir + seq!['/'] + stem + seq!['.'] + ext;
    assert(path =~= dir + seq!['/'] + name);
    assert(path.last() == ext.last());
    assert(ext.last() != '.' && ext.last() != '/');
    assert(crate::path::settled(path) == path);
    assert(crate::text::free_of(name, '/')) by {
        assert forall|k: int| 0 <= k < name.len() implies #[trigger] name[k] != '/' by {
            if k < stem.len() {
                assert(name[k] == stem[k]);
            } else if k > stem.len() {
                assert(name[k] == ext[k - stem.len() - 1]);
            }
        }
    }
    crate::storage_laws::lemma_after_last_is(dir, name, '/');
    assert(path.skip((dir.len() + 1) as int) =~= name);
    assert(name.len() > 2);
    crate::storage_laws::lemma_after_last_is(stem, ext, '.');
    assert(name.take(stem.len() as int) =~= stem);
    assert(crate::path::file_stem_of(path) == Some(stem));
}

/// The daemon is started beside the program; in a Flatpak through its runner,
/// and else from the search path.
pub proof fn lemma_daemon_command(path: Seq<char>, app: Seq<char>, any: Option<Seq<char>>)
    ensures
        command_for(Some(path), any) == (path, Seq::<Seq<char>>::empty()),
        app.len() > 0 ==> command_for(None, Some(app)).0 == "flatpak"@ && command_for(
            None,
            Some(app),
        ).1.len() == 3 && command_for(None, Some(app)).1[0] == "run"@ && command_for(
            None,
            Some(app),
        ).1[1] == "--command="@ + "equinox-daemon"@ && command_for(None, Some(app)).1[2] == app,
        command_for(None, None) == ("equinox-daemon"@, Seq::<Seq<char>>::empty()),
        command_for(None, Some(Seq::empty())) == ("equinox-daemon"@, Seq::<Seq<char>>::empty()),
{
}

} // verus!
