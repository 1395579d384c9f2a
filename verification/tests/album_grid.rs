use phonoscule::album_grid::{next_selection, Around, Dir, Grid, GridEvent, GridMsg};
use phonoscule::keys::{Modifiers, Named};

// A 13-album grid laid out 5 columns wide: rows [0..4], [5..9], [10..12] (a short last row).
const N: usize = 13;
const COLS: usize = 5;

#[test]
fn horizontal_selection_is_linear_and_clamped() {
    assert_eq!(next_selection(0, N, COLS, Dir::Left), 0, "left saturates at the first album");
    assert_eq!(next_selection(5, N, COLS, Dir::Left), 4, "left crosses the row boundary");
    assert_eq!(next_selection(4, N, COLS, Dir::Right), 5, "right crosses the row boundary");
    assert_eq!(next_selection(N - 1, N, COLS, Dir::Right), N - 1, "right clamps at the last album");
}

#[test]
fn vertical_selection_moves_by_a_row() {
    assert_eq!(next_selection(2, N, COLS, Dir::Up), 2, "up from the top row stays put");
    assert_eq!(next_selection(7, N, COLS, Dir::Up), 2, "up moves back one row, same column");
    assert_eq!(next_selection(2, N, COLS, Dir::Down), 7, "down moves forward one row, same column");
    assert_eq!(next_selection(7, N, COLS, Dir::Down), 12, "down into a full cell below");
}

#[test]
fn down_into_a_short_last_row_lands_on_the_last_album() {
    // Album 9 (row 1, col 4) has no cell directly below -- the last row ends at 12 (col 2).
    assert_eq!(next_selection(9, N, COLS, Dir::Down), N - 1, "no cell below: land on the last album");
    // Album 11 is already in the last row: down stays put.
    assert_eq!(next_selection(11, N, COLS, Dir::Down), 11, "down from the last row stays put");
}

#[test]
fn space_acts_on_the_selection_with_a_modifier_only() {
    let around = Around {
        cards: N,
        cols: COLS,
        hovered: None,
        first_visible: 0,
        captured: false,
        interactive: true,
        menu: true,
        externalized: false,
    };
    let none = Modifiers { shift: false, control: false, alt: false, logo: false };
    let press = |selected: Option<usize>, modifiers: Modifiers, repeat: bool| {
        Grid::mounted(selected).update(GridEvent::KeyPressed { named: Named::Space, modifiers, repeat }, around)
    };
    let alt = Modifiers { alt: true, ..none };
    assert_eq!(press(Some(3), alt, false).action, Some(GridMsg::Queue(3)));
    assert_eq!(press(Some(3), alt, true).action, None, "one album per press");
    assert!(!press(None, alt, false).capture, "nothing is selected");
    assert_eq!(press(Some(3), Modifiers { control: true, ..none }, false).action, Some(GridMsg::Play(3)));
    let bare = press(Some(3), none, false);
    assert!(bare.action.is_none() && !bare.capture, "left to toggle playback");
    assert_eq!(press(Some(3), Modifiers { control: true, ..alt }, false).action, None);
}
