//! The wallpaper page: the carousel of a source's images, the switch between
//! sources and the switch between modes.

use vstd::prelude::*;

use crate::source::{built_ins, registry, BuiltIn, Source};
use crate::text::{opt_text, same};

verus! {

/// The position of a file counted from the end, or the number of files.
pub open spec fn back_position(files: Seq<Seq<char>>, file: Seq<char>, from: int) -> int
    decreases files.len() - from,
{
    if from >= files.len() {
        files.len() as int
    } else if files[files.len() - 1 - from] == file {
        from
    } else {
        back_position(files, file, from + 1)
    }
}

/// The page to start at. The files come newest first, the pages oldest first:
/// the page of the current wallpaper, else the newest.
pub open spec fn start_page(files: Seq<Seq<char>>, current: Seq<char>) -> int {
    let i = back_position(files, current, 0);
    if i < files.len() {
        i
    } else if files.len() == 0 {
        0
    } else {
        files.len() - 1
    }
}

/// The page to start at.
pub fn start_index(files: &Vec<String>, current: &str) -> (r: usize)
    ensures
        r == start_page(crate::text::texts(files@), current@),
        files.len() > 0 ==> r < files.len(),
{
    let ghost all = crate::text::texts(files@);
    let n: usize = files.len();
    let mut i: usize = 0;
    while i < n
        invariant
            i <= n == files.len(),
            all == crate::text::texts(files@),
            back_position(all, current@, 0) == back_position(all, current@, i as int),
        decreases n - i,
    {
        assert(all[n - 1 - i] == files@[n - 1 - i]@);
        if same(files[n - 1 - i].as_str(), current) {
            return i;
        }
        i += 1;
    }
    if n == 0 {
        0
    } else {
        n - 1
    }
}

/// The index of a source, or the number of sources.
pub open spec fn source_index(id: Seq<char>, from: int) -> int
    decreases built_ins().len() - from,
{
    if from >= built_ins().len() {
        built_ins().len() as int
    } else if built_ins()[from].spec_id() == id {
        from
    } else {
        source_index(id, from + 1)
    }
}

/// The slot of a source in the rotation: no source is slot 0, the others
/// follow in their order; an unknown one has none.
pub open spec fn slot_of(id: Seq<char>) -> Option<int> {
    if id.len() == 0 {
        Some(0)
    } else if source_index(id, 0) < built_ins().len() {
        Some(source_index(id, 0) + 1)
    } else {
        None
    }
}

fn find_source(id: &str) -> (r: usize)
    ensures
        r == source_index(id@, 0),
        r <= built_ins().len(),
{
    let all = registry();
    let mut i: usize = 0;
    while i < all.len() && !same(all[i].id(), id)
        invariant
            i <= all.len(),
            all@ == built_ins(),
            source_index(id@, 0) == source_index(id@, i as int),
        decreases all.len() - i,
    {
        i += 1;
    }
    i
}

fn find_slot(id: &str) -> (r: Option<usize>)
    ensures
        match r {
            Some(s) => slot_of(id@) == Some(s as int) && s <= built_ins().len(),
            None => slot_of(id@) is None,
        },
{
    if id.is_empty() {
        return Some(0);
    }
    let i = find_source(id);
    if i < registry().len() {
        Some(i + 1)
    } else {
        None
    }
}

/// The slot that is shown for a source: an unknown one counts as the first.
pub open spec fn shown_slot(id: Seq<char>) -> int {
    match slot_of(id) {
        Some(s) => s,
        None => 1,
    }
}

/// The slot that is shown for a source, and whether the buttons to the
/// previous and the next one are on.
pub fn source_slot(id: &str) -> (r: (usize, bool, bool))
    ensures
        r.0 == shown_slot(id@),
        r.1 == (r.0 > 0),
        r.2 == (r.0 + 1 < built_ins().len() + 1),
        r.0 <= built_ins().len(),
{
    let slot: usize = match find_slot(id) {
        Some(s) => s,
        None => 1,
    };
    let n: usize = registry().len();
    (slot, slot > 0, slot < n)
}

/// Where a switch goes.
#[derive(Clone, Copy, Debug, PartialEq, Eq, Structural)]
pub enum SwitchTo {
    /// There is nothing further in that direction.
    Nowhere,
    /// No source.
    NoSource,
    Source(BuiltIn),
}

/// The slot from which a switch starts: that of the source, else that of the
/// page that is shown, else the first.
pub open spec fn from_slot(id: Seq<char>, shown: Option<Seq<char>>) -> int {
    match slot_of(id) {
        Some(s) => s,
        None => match shown {
            Some(page) => if source_index(page, 0) < built_ins().len() {
                source_index(page, 0) + 1
            } else {
                1
            },
            None => 1,
        },
    }
}

pub open spec fn switched(slot: int, forward: bool) -> SwitchTo {
    let target = if forward {
        slot + 1
    } else {
        slot - 1
    };
    if target < 0 || target > built_ins().len() {
        SwitchTo::Nowhere
    } else if target == 0 {
        SwitchTo::NoSource
    } else {
        SwitchTo::Source(built_ins()[target - 1])
    }
}

/// The source before or behind the current one. `shown` is the source of the
/// page that is shown, for a current source that is unknown.
pub fn switch_source(id: &str, shown: Option<&str>, forward: bool) -> (r: SwitchTo)
    ensures
        r == switched(from_slot(id@, crate::i18n::opt_str(shown)), forward),
{
    let all = registry();
    let slot: usize = match find_slot(id) {
        Some(s) => s,
        None => match shown {
            Some(page) => {
                let i = find_source(page);
                if i < all.len() {
                    i + 1
                } else {
                    1
                }
            },
            None => 1,
        },
    };
    if forward {
        if slot < all.len() {
            SwitchTo::Source(all[slot])
        } else {
            SwitchTo::Nowhere
        }
    } else if slot == 0 {
        SwitchTo::Nowhere
    } else if slot == 1 {
        SwitchTo::NoSource
    } else {
        SwitchTo::Source(all[slot - 2])
    }
}

/// The mode behind a mode: latest, random, manual, and latest again.
pub open spec fn mode_after(mode: Seq<char>) -> Seq<char> {
    if mode == "latest"@ {
        "random"@
    } else if mode == "random"@ {
        "manual"@
    } else {
        "latest"@
    }
}

/// The source that a click on the mode concerns: the configured one, else the
/// one that is shown, if it has images.
pub open spec fn source_of_click(
    configured: Seq<char>,
    shown: Seq<char>,
    has_images: bool,
) -> Option<Seq<char>> {
    if configured.len() > 0 {
        Some(configured)
    } else if has_images && shown.len() > 0 {
        Some(shown)
    } else {
        None
    }
}

/// The source that a click on the mode concerns.
pub fn clicked_source(configured: &str, shown: &str, has_images: bool) -> (r: Option<String>)
    ensures
        opt_text(r) == source_of_click(configured@, shown@, has_images),
{
    if !configured.is_empty() {
        Some(configured.to_owned())
    } else if has_images && !shown.is_empty() {
        Some(shown.to_owned())
    } else {
        None
    }
}

/// The mode behind a mode.
pub fn next_mode(mode: &str) -> (r: &'static str)
    ensures
        r@ == mode_after(mode@),
{
    if same(mode, "latest") {
        "random"
    } else if same(mode, "random") {
        "manual"
    } else {
        "latest"
    }
}

/// Three clicks on the mode go round.
pub proof fn lemma_modes_cycle(mode: Seq<char>)
    requires
        mode == "latest"@ || mode == "random"@ || mode == "manual"@,
    ensures
        mode_after(mode_after(mode_after(mode))) == mode,
{
    reveal_strlit("latest");
    reveal_strlit("random");
    reveal_strlit("manual");
    assert("latest"@[0] != "random"@[0]);
    assert("latest"@[0] != "manual"@[0]);
    assert("random"@[0] != "manual"@[0]);
}

/// The message that names a mode, to be translated.
pub fn mode_message(mode: &str) -> (r: &'static str)
    ensures
        r@ == (if mode@ == "random"@ {
            "Random"@
        } else if mode@ == "manual"@ {
            "Manual"@
        } else {
            "Latest"@
        }),
{
    if same(mode, "random") {
        "Random"
    } else if same(mode, "manual") {
        "Manual"
    } else {
        "Latest"
    }
}

/// Whether a page that stays in view is a pick to apply: it was not put there
/// by the program, no later page came, and it is not the wallpaper already.
pub fn is_pick(syncing: bool, superseded: bool, file: &str, applied: &str) -> (r: bool)
    ensures
        r == (!syncing && !superseded && file@ != applied@),
{
    !syncing && !superseded && !same(file, applied)
}

/// Whether a new image concerns the page: it is of the wallpaper source, or
/// there is none yet.
pub fn image_concerns_page(wallpaper_source: &str, added_to: &str) -> (r: bool)
    ensures
        r == (wallpaper_source@.len() == 0 || added_to@ == wallpaper_source@),
{
    wallpaper_source.is_empty() || same(added_to, wallpaper_source)
}

} // verus!
