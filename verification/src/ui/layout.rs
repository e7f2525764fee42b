//! Sizes and positions: grid tiles, carousel pages, monitors.

use vstd::prelude::*;

verus! {

/// The least width of a tile, in pixels.
pub const TILE_MIN: i32 = 220;

/// The most columns of a grid.
pub const TILE_MAX_COLS: i32 = 6;

/// The columns of a grid of a width.
pub open spec fn columns_in(width: int) -> int {
    let w = if width < 1 {
        1
    } else {
        width
    };
    let fit = if w < 24 {
        0
    } else {
        (w - 24) / TILE_MIN as int
    };
    if fit < 2 {
        2
    } else if fit > TILE_MAX_COLS {
        TILE_MAX_COLS as int
    } else {
        fit
    }
}

/// The width of the tiles in a grid of a width.
pub open spec fn tile_in(width: int) -> int {
    let w = if width < 1 {
        1
    } else {
        width
    };
    let room = w - 24 - columns_in(width) * 6;
    let each = if room < 0 {
        0
    } else {
        room / columns_in(width)
    };
    if each < TILE_MIN {
        TILE_MIN as int
    } else {
        each
    }
}

/// The columns and the width of the tiles in a grid.
pub fn tile_size(width: i32) -> (r: (i32, i32))
    ensures
        r.0 == columns_in(width as int),
        r.1 == tile_in(width as int),
        2 <= r.0 <= TILE_MAX_COLS,
        r.1 >= TILE_MIN,
{
    let w: i32 = if width < 1 {
        1
    } else {
        width
    };
    let fit: i32 = if w < 24 {
        0
    } else {
        (w - 24) / TILE_MIN
    };
    let cols: i32 = if fit < 2 {
        2
    } else if fit > TILE_MAX_COLS {
        TILE_MAX_COLS
    } else {
        fit
    };
    let room: i32 = w - 24 - cols * 6;
    let each: i32 = if room < 0 {
        0
    } else {
        room / cols
    };
    let tile: i32 = if each < TILE_MIN {
        TILE_MIN
    } else {
        each
    };
    (cols, tile)
}

/// Tiles that are wide enough always fit their row, gaps and all.
pub proof fn lemma_tiles_fit(width: int)
    requires
        width >= 24 + 2 * (TILE_MIN + 6),
    ensures
        columns_in(width) * (tile_in(width) + 6) + 24 <= width || tile_in(width) == TILE_MIN,
{
    let c = columns_in(width);
    let t = tile_in(width);
    let room = width - 24 - c * 6;
    assert(c * (room / c) <= room) by (nonlinear_arith)
        requires
            c > 0,
            room >= 0,
    ;
    if t != TILE_MIN {
        assert(c * (t + 6) == c * t + c * 6) by (nonlinear_arith);
    }
}

/// Whether the grid is laid out again: its tiles would change by 8 pixels or
/// more.
pub fn should_relayout(tile: i32, current: i32) -> (r: bool)
    ensures
        r == (tile - current >= 8 || current - tile >= 8),
{
    let d: i64 = tile as i64 - current as i64;
    d >= 8 || d <= -8
}

/// Whether the buttons to the previous and the next of `n` pages are on.
pub fn nav_state(n: usize, idx: usize) -> (r: (bool, bool))
    ensures
        r.0 == (idx > 0),
        r.1 == (idx + 1 < n),
{
    (idx > 0, n > 0 && idx < n - 1)
}

/// The entry that a carousel page shows, where there is one.
pub fn carousel_to_entry(entries: usize, page: usize) -> (r: Option<usize>)
    ensures
        r == (if page < entries {
            Some(page)
        } else {
            None
        }),
{
    if page < entries {
        Some(page)
    } else {
        None
    }
}

pub open spec fn is_near(i: int, active: int, keep: int) -> bool {
    -keep <= i - active <= keep
}

/// What becomes of the texture of a page.
#[derive(Clone, Copy, Debug, PartialEq, Eq, Structural)]
pub enum TextureChange {
    Keep,
    Load,
    Release,
}

/// Which pages load their texture and which release it, once another page is
/// active: pages within `keep` of it hold one, the others do not.
pub fn texture_window(active: usize, keep: usize, loaded: &mut Vec<bool>) -> (r: Vec<
    TextureChange,
>)
    ensures
        r.len() == old(loaded).len(),
        final(loaded).len() == old(loaded).len(),
        forall|i: int|
            0 <= i < r.len() ==> #[trigger] final(loaded)@[i] == is_near(
                i,
                active as int,
                keep as int,
            ),
        forall|i: int|
            0 <= i < r.len() ==> #[trigger] r@[i] == (if is_near(i, active as int, keep as int)
                && !old(loaded)@[i] {
                TextureChange::Load
            } else if !is_near(i, active as int, keep as int) && old(loaded)@[i] {
                TextureChange::Release
            } else {
                TextureChange::Keep
            }),
{
    let mut out: Vec<TextureChange> = Vec::new();
    let n: usize = loaded.len();
    let ghost before = loaded@;
    let mut i: usize = 0;
    while i < n
        invariant
            i <= n == loaded.len(),
            n == before.len(),
            out.len() == i,
            forall|j: int| i <= j < n ==> #[trigger] loaded@[j] == before[j],
            forall|j: int|
                0 <= j < i ==> #[trigger] loaded@[j] == is_near(j, active as int, keep as int),
            forall|j: int|
                0 <= j < i ==> #[trigger] out@[j] == (if is_near(j, active as int, keep as int)
                    && !before[j] {
                    TextureChange::Load
                } else if !is_near(j, active as int, keep as int) && before[j] {
                    TextureChange::Release
                } else {
                    TextureChange::Keep
                }),
        decreases n - i,
    {
        let distance: usize = if i >= active {
            i - active
        } else {
            active - i
        };
        let near = distance <= keep;
        let had = loaded[i];
        out.push(
            if near && !had {
                TextureChange::Load
            } else if !near && had {
                TextureChange::Release
            } else {
                TextureChange::Keep
            },
        );
        loaded.set(i, near);
        i += 1;
    }
    out
}

/// Where a monitor lies on the desktop.
#[derive(Clone, Copy, Debug, PartialEq, Eq, Structural)]
pub struct Geometry {
    pub x: i32,
    pub y: i32,
    pub width: i32,
    pub height: i32,
}

/// The monitor shows the origin of the desktop.
pub open spec fn holds_origin(g: Geometry) -> bool {
    g.x <= 0 && 0 < g.x + g.width && g.y <= 0 && 0 < g.y + g.height
}

/// The first monitor that shows the origin at or behind `from`, or their number.
pub open spec fn origin_monitor(all: Seq<Geometry>, from: int) -> int
    decreases all.len() - from,
{
    if from >= all.len() {
        all.len() as int
    } else if holds_origin(all[from]) {
        from
    } else {
        origin_monitor(all, from + 1)
    }
}

/// The primary monitor: the one that shows the origin, else the first.
pub open spec fn primary(all: Seq<Geometry>) -> Option<int> {
    if all.len() == 0 {
        None
    } else if origin_monitor(all, 0) < all.len() {
        Some(origin_monitor(all, 0))
    } else {
        Some(0)
    }
}

/// The primary monitor: the one that shows the origin, else the first.
pub fn primary_monitor(all: &Vec<Geometry>) -> (r: Option<usize>)
    ensures
        match r {
            Some(i) => primary(all@) == Some(i as int) && i < all.len(),
            None => primary(all@) is None,
        },
{
    if all.len() == 0 {
        return None;
    }
    let mut i: usize = 0;
    while i < all.len()
        invariant
            i <= all.len(),
            all.len() > 0,
            origin_monitor(all@, 0) == origin_monitor(all@, i as int),
        decreases all.len() - i,
    {
        let g = all[i];
        if g.x <= 0 && g.x as i64 + g.width as i64 > 0 && g.y <= 0 && g.y as i64 + g.height as i64
            > 0 {
            return Some(i);
        }
        i += 1;
    }
    Some(0)
}

/// The size of a monitor that is set up.
pub fn monitor_size(g: Geometry) -> (r: Option<(i32, i32)>)
    ensures
        r == (if g.width > 0 && g.height > 0 {
            Some((g.width, g.height))
        } else {
            None
        }),
{
    if g.width > 0 && g.height > 0 {
        Some((g.width, g.height))
    } else {
        None
    }
}

/// The extent that a box of a fixed size reports; `None` where it has none.
pub fn fixed_extent(width: i32, height: i32, horizontal: bool) -> (r: Option<i32>)
    ensures
        r == (if width > 0 && height > 0 {
            Some(
                if horizontal {
                    width
                } else {
                    height
                },
            )
        } else {
            None
        }),
{
    if width > 0 && height > 0 {
        Some(
            if horizontal {
                width
            } else {
                height
            },
        )
    } else {
        None
    }
}

} // verus!
