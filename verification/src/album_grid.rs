//! The library's album grid: a scrolling, selectable grid of album cards.
//!
//! - Hovering a cover selects its album; the cursor leaving every cover deselects. The action
//!   bubbles floating over a cover capture their clicks first, so they act without the grid reacting.
//! - Arrow-key navigation in two dimensions; when nothing is selected, an arrow key picks up the
//!   first album in view. The selection is always scrolled fully into view, minimally.
//! - Alt+Space queues the selected album and Ctrl+Space plays it. A bare Space is left to whoever toggles
//!   playback.
//! - Left-clicking a cover, or Enter on the selection, asks for the album's track menu (the menu itself is
//!   the caller's).
//!
//! Where cards are on the screen, and how far the grid is scrolled, is the business of whoever draws it:
//! here a grid is a number of cards in a number of columns, and the card under the cursor.

use crate::keys::{Modifiers, Named};
use vstd::prelude::*;

verus! {

/// A direction to move the selection.
#[derive(Debug, Clone, Copy, PartialEq, Eq, Structural)]
pub enum Dir {
    Left,
    Right,
    Up,
    Down,
}

/// The grid index one step from `cur`.
pub open spec fn selection_after(cur: int, n: int, cols: int, dir: Dir) -> int {
    match dir {
        Dir::Left => if cur > 0 {
            cur - 1
        } else {
            cur
        },
        Dir::Right => if cur + 1 < n {
            cur + 1
        } else {
            n - 1
        },
        Dir::Up => if cur >= cols {
            cur - cols
        } else {
            cur
        },
        Dir::Down => if cur + cols < n {
            cur + cols
        } else if cur / cols < (n - 1) / cols {
            n - 1
        } else {
            cur
        },
    }
}

/// The grid index one step from `cur` in `dir`, given `n` albums in `cols` columns. Up/Down move
/// by a row; Left/Right by one album, crossing row boundaries. Up from the top row and Down from
/// the last row stay put; Down into a shorter final row that has no cell in this column lands on
/// the last album.
pub fn next_selection(cur: usize, n: usize, cols: usize, dir: Dir) -> (next: usize)
    requires
        cols >= 1,
        cur < n,
    ensures
        next == selection_after(cur as int, n as int, cols as int, dir),
        next < n,
{
    match dir {
        Dir::Left => cur.saturating_sub(1),
        Dir::Right => if cur < n - 1 {
            cur + 1
        } else {
            n - 1
        },
        Dir::Up => if cur >= cols {
            cur - cols
        } else {
            cur
        },
        Dir::Down => if n - cur > cols {
            cur + cols
        } else if cur / cols < (n - 1) / cols {
            n - 1
        } else {
            cur
        },
    }
}

/// A step never leaves the grid.
pub proof fn law_steps_stay_in_the_grid(cur: int, n: int, cols: int, dir: Dir)
    requires
        0 <= cur < n,
        cols >= 1,
    ensures
        0 <= selection_after(cur, n, cols, dir) < n,
{
}

/// A step that goes all the way is undone by the opposite one.
pub proof fn law_opposite_steps_cancel(cur: int, n: int, cols: int)
    requires
        0 <= cur < n,
        cols >= 1,
    ensures
        cur + 1 < n ==> selection_after(selection_after(cur, n, cols, Dir::Right), n, cols, Dir::Left) == cur,
        cur + cols < n ==> selection_after(selection_after(cur, n, cols, Dir::Down), n, cols, Dir::Up) == cur,
{
}

/// Going down often enough ends in the last row, and stays there.
pub proof fn law_down_ends_in_the_last_row(cur: int, n: int, cols: int)
    requires
        0 <= cur < n,
        cols >= 1,
    ensures
        selection_after(cur, n, cols, Dir::Down) == cur <==> cur / cols == (n - 1) / cols,
{
    assert(cur / cols <= (n - 1) / cols) by (nonlinear_arith)
        requires
            0 <= cur <= n - 1,
            cols >= 1,
    ;
    if cur + cols < n {
        assert(cur / cols < (n - 1) / cols) by (nonlinear_arith)
            requires
                0 <= cur,
                cur + cols <= n - 1,
                cols >= 1,
        ;
    }
}

/// The grid's selection, and whether a restored one has been brought into view.
#[derive(Debug, Clone, Copy, PartialEq, Eq, Structural)]
pub struct Grid {
    pub selected: Option<usize>,
    /// Whether the fresh-mount pass ran: a restored selection is
    /// scrolled back into view on the first event after the widget (re)mounts.
    pub restored: bool,
}

/// Something that happens to the grid.
#[derive(Debug, Clone, Copy, PartialEq, Eq, Structural)]
pub enum GridEvent {
    CursorMoved,
    /// The wheel turned, with the cursor over the grid or not.
    WheelScrolled { over: bool },
    /// The left button was pressed, with the cursor over the grid or not.
    LeftPressed { over: bool },
    KeyPressed { named: Named, modifiers: Modifiers, repeat: bool },
    Other,
}

/// What the grid is like when something happens to it.
#[derive(Debug, Clone, Copy, PartialEq, Eq, Structural)]
pub struct Around {
    /// The number of cards, and of columns that they are laid out in.
    pub cards: usize,
    pub cols: usize,
    /// The card whose cover is under the cursor.
    pub hovered: Option<usize>,
    /// The first card in view: the leftmost of the topmost row extending below the top of the viewport,
    /// however slightly.
    pub first_visible: usize,
    /// Whether a card (an action bubble's click or hover) captured the event.
    pub captured: bool,
    /// Whether the grid reacts to input at all. A modal backdrop only blocks button
    /// presses -- cursor moves, wheel scrolls, and keyboard events still reach every widget in
    /// the tree -- so the caller disables this while a modal covers the grid.
    pub interactive: bool,
    /// Whether the caller has a track menu to offer.
    pub menu: bool,
    /// Whether the caller keeps the selection, and is told of its changes.
    pub externalized: bool,
}

/// What the grid tells its caller.
#[derive(Debug, Clone, Copy, PartialEq, Eq, Structural)]
pub enum GridMsg {
    /// Play the album (replacing the queue).
    Play(usize),
    /// Append the album to the queue.
    Queue(usize),
    /// An album's track menu is asked for.
    Menu(usize),
    /// The selection changed.
    Selected(Option<usize>),
}

/// What comes of an event.
#[derive(Debug, Clone, Copy, PartialEq, Eq, Structural)]
pub struct Reaction {
    pub grid: Grid,
    /// What is asked of the caller, and then what it is told of the selection.
    pub action: Option<GridMsg>,
    pub notice: Option<GridMsg>,
    /// The row to scroll into view, leaving it clear of what floats above and below the grid.
    pub reveal: Option<usize>,
    /// The grid scrolls by as much as the wheel turned.
    pub scrolls: bool,
    pub capture: bool,
    pub redraw: bool,
}

/// Nothing comes of an event.
pub open spec fn no_reaction(grid: Grid) -> Reaction {
    Reaction {
        grid,
        action: None,
        notice: None,
        reveal: None,
        scrolls: false,
        capture: false,
        redraw: false,
    }
}

/// The selection moves one step, or starts at the first card in view.
pub open spec fn stepped(grid: Grid, around: Around, dir: Dir) -> Reaction {
    let last = (around.cards - 1) as usize;
    let selected = match grid.selected {
        Some(cur) => selection_after(
            if cur < last {
                cur as int
            } else {
                last as int
            },
            around.cards as int,
            around.cols as int,
            dir,
        ) as usize,
        None => around.first_visible,
    };
    Reaction {
        grid: Grid { selected: Some(selected), ..grid },
        reveal: Some((selected as int / around.cols as int) as usize),
        capture: true,
        redraw: true,
        ..no_reaction(grid)
    }
}

/// An action on an album, if one is selected.
pub open spec fn acted(grid: Grid, action: Option<GridMsg>) -> Reaction {
    if action is Some {
        Reaction { action, capture: true, redraw: true, ..no_reaction(grid) }
    } else {
        no_reaction(grid)
    }
}

/// What comes of a key.
pub open spec fn key_reaction(grid: Grid, around: Around, named: Named, modifiers: Modifiers, repeat: bool) -> Reaction {
    let ctrl = modifiers == (Modifiers { shift: false, control: true, alt: false, logo: false });
    let alt = modifiers == (Modifiers { shift: false, control: false, alt: true, logo: false });
    match named {
        Named::ArrowLeft if modifiers.none() => stepped(grid, around, Dir::Left),
        Named::ArrowRight if modifiers.none() => stepped(grid, around, Dir::Right),
        Named::ArrowUp if modifiers.none() => stepped(grid, around, Dir::Up),
        Named::ArrowDown if modifiers.none() => stepped(grid, around, Dir::Down),
        // One album per press: holding Alt+Space must not machine-gun the queue.
        Named::Space if alt && !repeat => acted(
            grid,
            match grid.selected {
                Some(ix) => Some(GridMsg::Queue(ix)),
                None => None,
            },
        ),
        Named::Space if ctrl && !repeat => acted(
            grid,
            match grid.selected {
                Some(ix) => Some(GridMsg::Play(ix)),
                None => None,
            },
        ),
        Named::Enter if modifiers.none() && !repeat => acted(
            grid,
            match grid.selected {
                Some(ix) if around.menu => Some(GridMsg::Menu(ix)),
                _ => None,
            },
        ),
        _ => no_reaction(grid),
    }
}

/// What comes of an event that the grid reacts to, before the caller is told of the selection.
pub open spec fn reacted(grid: Grid, event: GridEvent, around: Around) -> Reaction {
    match event {
        // Hover drives the selection: the album whose cover is under the cursor, or
        // nothing when the cursor is over none. Reacting to actual cursor movement (not
        // per-frame hit tests) keeps keyboard navigation stable while it scrolls content
        // under a stationary mouse.
        GridEvent::CursorMoved => if grid.selected != around.hovered {
            Reaction { grid: Grid { selected: around.hovered, ..grid }, redraw: true, ..no_reaction(grid) }
        } else {
            no_reaction(grid)
        },
        GridEvent::WheelScrolled { over } => if over {
            Reaction { scrolls: true, capture: true, redraw: true, ..no_reaction(grid) }
        } else {
            no_reaction(grid)
        },
        // A click on a cover asks for its track menu. Hover has normally already selected
        // it, but select anyway: a click can land without a preceding move (e.g. through a
        // just-focused window).
        GridEvent::LeftPressed { over } => match around.hovered {
            Some(ix) if over && around.menu => Reaction {
                grid: Grid { selected: Some(ix), ..grid },
                action: Some(GridMsg::Menu(ix)),
                capture: true,
                redraw: true,
                ..no_reaction(grid)
            },
            _ => no_reaction(grid),
        },
        GridEvent::KeyPressed { named, modifiers, repeat } => if around.cards > 0 {
            key_reaction(grid, around, named, modifiers, repeat)
        } else {
            no_reaction(grid)
        },
        GridEvent::Other => no_reaction(grid),
    }
}

/// What comes of an event.
pub open spec fn reaction_of(grid: Grid, event: GridEvent, around: Around) -> Reaction {
    if around.captured || !around.interactive {
        no_reaction(grid)
    } else {
        let reaction = reacted(grid, event, around);
        if around.externalized && reaction.grid.selected != grid.selected {
            Reaction { notice: Some(GridMsg::Selected(reaction.grid.selected)), ..reaction }
        } else {
            reaction
        }
    }
}

impl Grid {
    /// A grid that has just been mounted. Seeded from the externalized selection: the fresh state must
    /// already carry it, or the first frame after a view switch would briefly lose the selection.
    pub fn mounted(selected: Option<usize>) -> (grid: Grid)
        ensures
            grid == (Grid { selected, restored: false }),
    {
        Grid { selected, restored: false }
    }

    /// Brings the state in line with the cards about to be shown: an externalized selection is the source of
    /// truth, and a rescan can shrink the library under the selection, which then goes to the last album.
    pub fn sync(&mut self, external: Option<Option<usize>>, cards: usize)
        ensures
            ({
                let selected = match external {
                    Some(selected) => selected,
                    None => old(self).selected,
                };
                *final(self) == (Grid {
                    selected: match selected {
                        Some(s) if s >= cards => if cards == 0 {
                            None
                        } else {
                            Some((cards - 1) as usize)
                        },
                        other => other,
                    },
                    ..*old(self)
                })
            }),
    {
        if let Some(selected) = external {
            self.selected = selected;
        }
        if let Some(s) = self.selected {
            if s >= cards {
                self.selected = if cards == 0 {
                    None
                } else {
                    Some(cards - 1)
                };
            }
        }
    }

    /// Fresh mount: an externally persisted selection may sit anywhere in the grid while the
    /// scroll offset starts at zero, so scroll it back into view before anything is shown (the
    /// first event through here is the pre-paint redraw request). The row to scroll to, once.
    pub fn restore(&mut self, cols: usize) -> (row: Option<usize>)
        requires
            cols >= 1,
        ensures
            *final(self) == (Grid { restored: true, ..*old(self) }),
            row == (match old(self).selected {
                Some(selected) if !old(self).restored => Some((selected as int / cols as int) as usize),
                _ => None,
            }),
    {
        if self.restored {
            return None;
        }
        self.restored = true;
        match self.selected {
            Some(selected) => Some(selected / cols),
            None => None,
        }
    }

    fn step(self, around: Around, dir: Dir) -> (r: Reaction)
        requires
            around.cards > 0,
            around.cols >= 1,
        ensures
            r == stepped(self, around, dir),
    {
        let n: usize = around.cards;
        let selected: usize = match self.selected {
            Some(cur) => next_selection(
                if cur < n - 1 {
                    cur
                } else {
                    n - 1
                },
                n,
                around.cols,
                dir,
            ),
            None => around.first_visible,
        };
        Reaction {
            grid: Grid { selected: Some(selected), restored: self.restored },
            action: None,
            notice: None,
            reveal: Some(selected / around.cols),
            scrolls: false,
            capture: true,
            redraw: true,
        }
    }

    fn act(self, action: Option<GridMsg>) -> (r: Reaction)
        ensures
            r == acted(self, action),
    {
        let is_some: bool = action.is_some();
        Reaction {
            grid: self,
            action,
            notice: None,
            reveal: None,
            scrolls: false,
            capture: is_some,
            redraw: is_some,
        }
    }

    fn nothing(self) -> (r: Reaction)
        ensures
            r == no_reaction(self),
    {
        self.act(None)
    }

    fn press(self, around: Around, named: Named, modifiers: Modifiers, repeat: bool) -> (r: Reaction)
        requires
            around.cards > 0,
            around.cols >= 1,
        ensures
            r == key_reaction(self, around, named, modifiers, repeat),
    {
        let bare: bool = modifiers.is_empty();
        let ctrl: bool = modifiers.control && !modifiers.shift && !modifiers.alt && !modifiers.logo;
        let alt: bool = modifiers.alt && !modifiers.shift && !modifiers.control && !modifiers.logo;
        match named {
            Named::ArrowLeft if bare => self.step(around, Dir::Left),
            Named::ArrowRight if bare => self.step(around, Dir::Right),
            Named::ArrowUp if bare => self.step(around, Dir::Up),
            Named::ArrowDown if bare => self.step(around, Dir::Down),
            Named::Space if alt && !repeat => match self.selected {
                Some(ix) => self.act(Some(GridMsg::Queue(ix))),
                None => self.nothing(),
            },
            Named::Space if ctrl && !repeat => match self.selected {
                Some(ix) => self.act(Some(GridMsg::Play(ix))),
                None => self.nothing(),
            },
            Named::Enter if bare && !repeat => match self.selected {
                Some(ix) if around.menu => self.act(Some(GridMsg::Menu(ix))),
                _ => self.nothing(),
            },
            _ => self.nothing(),
        }
    }

    fn react(self, event: GridEvent, around: Around) -> (r: Reaction)
        requires
            around.cols >= 1,
        ensures
            r == reacted(self, event, around),
    {
        let mut r: Reaction = self.nothing();
        match event {
            GridEvent::CursorMoved => {
                if self.selected != around.hovered {
                    r.grid.selected = around.hovered;
                    r.redraw = true;
                }
            },
            GridEvent::WheelScrolled { over } => {
                if over {
                    r.scrolls = true;
                    r.capture = true;
                    r.redraw = true;
                }
            },
            GridEvent::LeftPressed { over } => {
                if let Some(ix) = around.hovered {
                    if over && around.menu {
                        r.grid.selected = Some(ix);
                        r.action = Some(GridMsg::Menu(ix));
                        r.capture = true;
                        r.redraw = true;
                    }
                }
            },
            GridEvent::KeyPressed { named, modifiers, repeat } => {
                if around.cards > 0 {
                    r = self.press(around, named, modifiers, repeat);
                }
            },
            GridEvent::Other => {},
        }
        r
    }

    /// Reacts to an event, once the cards have: they may capture it, in which case the grid stays out of it.
    pub fn update(&mut self, event: GridEvent, around: Around) -> (reaction: Reaction)
        requires
            around.cols >= 1,
        ensures
            reaction == reaction_of(*old(self), event, around),
            *final(self) == reaction.grid,
    {
        if around.captured || !around.interactive {
            return self.nothing();
        }
        let before: Option<usize> = self.selected;
        let mut reaction: Reaction = self.react(event, around);
        *self = reaction.grid;
        // Mirror every selection change back to the externalized store.
        if around.externalized && self.selected != before {
            reaction.notice = Some(GridMsg::Selected(self.selected));
        }
        reaction
    }
}

/// While a modal covers the grid, or a card has captured the event, nothing comes of it.
pub proof fn law_a_covered_grid_does_not_react(grid: Grid, event: GridEvent, around: Around)
    requires
        around.captured || !around.interactive,
    ensures
        reaction_of(grid, event, around) == no_reaction(grid),
{
}

/// A caller that keeps the selection is told of every change of it, and of nothing else.
pub proof fn law_the_caller_mirrors_the_selection(grid: Grid, event: GridEvent, around: Around)
    requires
        around.externalized,
    ensures
        ({
            let r = reaction_of(grid, event, around);
            r.notice == if r.grid.selected != grid.selected {
                Some(GridMsg::Selected(r.grid.selected))
            } else {
                None
            }
        }),
{
}

/// The grid leaves a bare Space alone, whatever is selected: it toggles playback.
pub proof fn law_the_grid_leaves_space_alone(grid: Grid, around: Around, repeat: bool)
    ensures
        ({
            let bare = Modifiers { shift: false, control: false, alt: false, logo: false };
            let event = GridEvent::KeyPressed { named: Named::Space, modifiers: bare, repeat };
            reaction_of(grid, event, around) == no_reaction(grid)
        }),
{
}

/// Where a key moves the selection, the selected row is brought into view, and the selection is in the
/// grid.
pub proof fn law_arrows_keep_the_selection_in_view(grid: Grid, around: Around, named: Named)
    requires
        !around.captured,
        around.interactive,
        around.cards > 0,
        around.cols >= 1,
        around.first_visible < around.cards,
        named == Named::ArrowLeft || named == Named::ArrowRight || named == Named::ArrowUp || named
            == Named::ArrowDown,
    ensures
        ({
            let bare = Modifiers { shift: false, control: false, alt: false, logo: false };
            let event = GridEvent::KeyPressed { named, modifiers: bare, repeat: false };
            let r = reaction_of(grid, event, around);
            &&& r.grid.selected matches Some(s) && s < around.cards && r.reveal == Some(
                (s as int / around.cols as int) as usize,
            )
        }),
{
}

/// The arrows move the selection by one album to the sides, across the rows, and by one row up and down, as far
/// as there are albums; its row is brought into view. Without a selection, any arrow selects the first album in
/// view.
pub proof fn law_arrows_move_the_selection(grid: Grid, around: Around, repeat: bool, cur: usize)
    requires
        !around.captured,
        around.interactive,
        around.cols >= 1,
        cur < around.cards,
        around.cards + around.cols <= usize::MAX,
    ensures
        ({
            let none = Modifiers { shift: false, control: false, alt: false, logo: false };
            let at = Grid { selected: Some(cur), ..grid };
            let left = reaction_of(at, GridEvent::KeyPressed { named: Named::ArrowLeft, modifiers: none, repeat }, around);
            let right = reaction_of(at, GridEvent::KeyPressed { named: Named::ArrowRight, modifiers: none, repeat }, around);
            let up = reaction_of(at, GridEvent::KeyPressed { named: Named::ArrowUp, modifiers: none, repeat }, around);
            let down = reaction_of(at, GridEvent::KeyPressed { named: Named::ArrowDown, modifiers: none, repeat }, around);
            &&& cur > 0 ==> left.grid.selected == Some((cur - 1) as usize)
            &&& cur == 0 ==> left.grid.selected == Some(0usize)
            &&& cur + 1 < around.cards ==> right.grid.selected == Some((cur + 1) as usize)
            &&& cur + 1 == around.cards ==> right.grid.selected == Some(cur)
            &&& cur >= around.cols ==> up.grid.selected == Some((cur - around.cols) as usize)
            &&& cur < around.cols ==> up.grid.selected == Some(cur)
            &&& cur + around.cols < around.cards ==> down.grid.selected == Some((cur + around.cols) as usize)
            &&& down.grid.selected is Some && (down.grid.selected == Some(cur) || cur + around.cols < around.cards
                || down.grid.selected == Some((around.cards - 1) as usize))
            &&& right.reveal == Some((right.grid.selected->0 as int / around.cols as int) as usize)
            &&& left.capture && right.capture && up.capture && down.capture
        }),
        ({
            let none = Modifiers { shift: false, control: false, alt: false, logo: false };
            let at = Grid { selected: None, ..grid };
            let right = reaction_of(at, GridEvent::KeyPressed { named: Named::ArrowRight, modifiers: none, repeat }, around);
            let up = reaction_of(at, GridEvent::KeyPressed { named: Named::ArrowUp, modifiers: none, repeat }, around);
            right.grid.selected == Some(around.first_visible) && up.grid.selected == Some(around.first_visible)
        }),
{
}

/// Alt+Space queues the selected album, Ctrl+Space plays it, and Enter asks for its tracks, once per press; a held
/// key, or no selection, does nothing.
pub proof fn law_keys_act_on_the_selection(grid: Grid, around: Around, repeat: bool)
    requires
        !around.captured,
        around.interactive,
        around.menu,
        around.cards > 0,
    ensures
        ({
            let none = Modifiers { shift: false, control: false, alt: false, logo: false };
            let alt = Modifiers { alt: true, ..none };
            let ctrl = Modifiers { control: true, ..none };
            let queue = reaction_of(grid, GridEvent::KeyPressed { named: Named::Space, modifiers: alt, repeat }, around);
            let play = reaction_of(grid, GridEvent::KeyPressed { named: Named::Space, modifiers: ctrl, repeat }, around);
            let menu = reaction_of(grid, GridEvent::KeyPressed { named: Named::Enter, modifiers: none, repeat }, around);
            &&& repeat || grid.selected is None ==> queue.action is None && play.action is None && menu.action is None
            &&& !repeat && grid.selected is Some ==> {
                &&& queue.action == Some(GridMsg::Queue(grid.selected->0))
                &&& play.action == Some(GridMsg::Play(grid.selected->0))
                &&& menu.action == Some(GridMsg::Menu(grid.selected->0))
            }
            &&& queue.grid.selected == grid.selected && play.grid.selected == grid.selected && menu.grid.selected
                == grid.selected
        }),
{
}

/// The album under the cursor is the selected one once the cursor moves, and none where there is none; a click on
/// it asks for its tracks; the wheel scrolls where it turns over the grid.
pub proof fn law_the_cursor_selects(grid: Grid, around: Around, over: bool)
    requires
        !around.captured,
        around.interactive,
        around.menu,
    ensures
        ({
            let moved = reaction_of(grid, GridEvent::CursorMoved, around);
            let clicked = reaction_of(grid, GridEvent::LeftPressed { over }, around);
            let wheel = reaction_of(grid, GridEvent::WheelScrolled { over }, around);
            &&& moved.grid.selected == around.hovered
            &&& moved.action is None && moved.reveal is None
            &&& over && around.hovered is Some ==> {
                &&& clicked.action == Some(GridMsg::Menu(around.hovered->0))
                &&& clicked.grid.selected == around.hovered
            }
            &&& !over || around.hovered is None ==> clicked.action is None
            &&& wheel.scrolls == over
        }),
{
}

} // verus!
