//! What the views say, and what of the model they show: texts, labels, and which part of a list is in
//! sight. How that looks is up to whoever draws it.

use crate::browse::PickerSubject;
use crate::model::{App, AppView, ModalKind, ModalView, ScanState, Screen};
use crate::player::{Nanos, Repeat};
use crate::text::{copy, decimal, decimal2, digit, push_decimal2};
use core::ops::Range;
use vstd::prelude::*;
use vstd::string::*;

verus! {

/// Minutes and seconds of a number of seconds.
pub open spec fn clock(secs: nat) -> Seq<char> {
    decimal2(secs / 60) + ":"@ + decimal2(secs % 60)
}

/// Appends minutes and seconds, each of two digits at least.
pub fn push_clock(s: &mut String, secs: u64)
    ensures
        final(s)@ == old(s)@ + clock(secs as nat),
{
    push_decimal2(s, secs / 60);
    s.append(":");
    push_decimal2(s, secs % 60);
    assert(s@ =~= old(s)@ + clock(secs as nat));
}

/// A time within a track, as minutes and seconds.
pub fn fmt_time(t: Nanos) -> (s: String)
    ensures
        s@ == clock(t as nat / 1_000_000_000),
{
    let mut s: String = String::new();
    push_clock(&mut s, t / 1_000_000_000);
    assert(s@ =~= clock(t as nat / 1_000_000_000));
    s
}

/// The length of the playing track, as far as it is known.
pub fn fmt_len(len: Option<Nanos>) -> (s: String)
    ensures
        s@ == (match len {
            Some(t) => clock(t as nat / 1_000_000_000),
            None => "--:--"@,
        }),
{
    match len {
        Some(t) => fmt_time(t),
        None => copy("--:--"),
    }
}

/// The artist and the album of a track, in one line. A freshly restored queue has placeholder items with
/// empty tags until the scan hydrates them: nothing rather than a dangling dot.
pub fn byline(artist: &str, album: &str) -> (s: String)
    ensures
        s@ == (if artist@.len() > 0 && album@.len() > 0 {
            artist@ + " \u{b7} "@ + album@
        } else {
            artist@ + album@
        }),
{
    let mut s: String = copy(artist);
    if artist.unicode_len() > 0 && album.unicode_len() > 0 {
        s.append(" \u{b7} ");
    }
    s.append(album);
    s
}

/// The glyph that the repeat button is tagged with: one per mode (equal widths, so the button doesn't
/// shift as it cycles).
pub open spec fn repeat_glyph(repeat: Repeat) -> char {
    match repeat {
        Repeat::Off => '\u{d7}',
        Repeat::Track => '\u{2219}',
        Repeat::Album => '\u{25ce}',
        Repeat::Playlist => '\u{221e}',
    }
}

/// The glyph that the repeat button is tagged with.
pub fn repeat_tag(repeat: Repeat) -> (c: char)
    ensures
        c == repeat_glyph(repeat),
{
    match repeat {
        Repeat::Off => '\u{d7}',
        Repeat::Track => '\u{2219}',
        Repeat::Album => '\u{25ce}',
        Repeat::Playlist => '\u{221e}',
    }
}

/// The repeat button tells the modes apart.
pub proof fn law_repeat_modes_look_different(a: Repeat, b: Repeat)
    requires
        a != b,
    ensures
        repeat_glyph(a) != repeat_glyph(b),
{
}

/// What is said while the library is empty.
pub fn empty_status(scan: ScanState) -> (s: &'static str)
    ensures
        s@ == (match scan {
            ScanState::Scanning => "Scanning"@,
            ScanState::Complete => "No albums found under"@,
        }),
{
    match scan {
        ScanState::Scanning => "Scanning",
        ScanState::Complete => "No albums found under",
    }
}

/// The label of a filter's chip: its value, or that it shows everything.
pub fn chip_label(value: &Option<String>, subject: PickerSubject) -> (s: String)
    ensures
        s@ == (match *value {
            Some(value) => value@,
            None => match subject {
                PickerSubject::Genre => "All genres"@,
                PickerSubject::Artist => "All artists"@,
            },
        }),
{
    match value {
        Some(value) => value.clone(),
        None => match subject {
            PickerSubject::Genre => copy("All genres"),
            PickerSubject::Artist => copy("All artists"),
        },
    }
}

/// What the picker's query field says while it is empty.
pub fn picker_placeholder(subject: PickerSubject) -> (s: &'static str)
    ensures
        s@ == (match subject {
            PickerSubject::Genre => "Search genres\u{2026}"@,
            PickerSubject::Artist => "Search artists\u{2026}"@,
        }),
{
    match subject {
        PickerSubject::Genre => "Search genres\u{2026}",
        PickerSubject::Artist => "Search artists\u{2026}",
    }
}

impl AppView {
    /// The queue slot that the player bar shows: none, where nothing is queued.
    pub open spec fn shown_slot(self) -> Option<int> {
        if self.queue.len() == 0 {
            None
        } else if self.current < self.queue.len() {
            Some(self.current as int)
        } else {
            Some(self.queue.len() - 1)
        }
    }

    /// The modal that is drawn. The track menu and the pickers belong to the library view, the actions menu
    /// to either.
    pub open spec fn drawn_modal(self) -> Option<ModalKind> {
        match self.modal {
            Some(ModalView::Actions) => Some(ModalKind::Actions),
            Some(ModalView::Tracks(menu)) => if self.screen == Screen::Library && menu.album < self.albums.len() {
                Some(ModalKind::Tracks)
            } else {
                None
            },
            Some(modal) => if self.screen == Screen::Library {
                Some(modal.kind_of())
            } else {
                None
            },
            None => None,
        }
    }
}

/// The queue slot that the player bar shows.
pub fn shown_slot(app: &App) -> (slot: Option<usize>)
    ensures
        match slot {
            Some(slot) => app@.shown_slot() == Some(slot as int),
            None => app@.shown_slot() is None,
        },
{
    if app.queue.len() == 0 {
        None
    } else if app.current < app.queue.len() {
        Some(app.current)
    } else {
        Some(app.queue.len() - 1)
    }
}

/// The modal that is drawn. (A rescan can drop the album from under a track menu.)
pub fn drawn_modal(app: &App) -> (kind: Option<ModalKind>)
    ensures
        kind == app@.drawn_modal(),
{
    match &app.modal {
        Some(modal) => {
            let kind: ModalKind = modal.kind();
            match kind {
                ModalKind::Actions => Some(ModalKind::Actions),
                ModalKind::Tracks => match app.track_menu() {
                    Some(menu) => if app.screen == Screen::Library && menu.album < app.albums.len() {
                        Some(ModalKind::Tracks)
                    } else {
                        None
                    },
                    None => None,
                },
                _ => if app.screen == Screen::Library {
                    Some(kind)
                } else {
                    None
                },
            }
        },
        None => None,
    }
}

/// The part of an album run that a list of `rows` rows shows, with the track at `pos` of it in the row
/// `row`, as far as the run reaches.
pub open spec fn window_of(run: Range<usize>, rows: usize, pos: usize, row: usize) -> (int, int) {
    let len = run.end - run.start;
    if len <= rows {
        (run.start as int, run.end as int)
    } else {
        let above = if pos > row {
            pos - row
        } else {
            0
        };
        let first = run.start + if above < len - rows {
            above
        } else {
            len - rows
        };
        (first, first + rows)
    }
}

/// The part of an album run that a list of `rows` rows shows. When the run holds more tracks than that, a
/// window of them shows, placed so the selection sits in the given row.
pub fn track_window(run: Range<usize>, rows: usize, pos: usize, row: usize) -> (r: Range<usize>)
    requires
        run.start <= run.end,
    ensures
        (r.start as int, r.end as int) == window_of(run, rows, pos, row),
{
    let len: usize = run.end - run.start;
    if len <= rows {
        return run;
    }
    let above: usize = pos.saturating_sub(row);
    let most: usize = len - rows;
    let first: usize = run.start + (if above < most {
        above
    } else {
        most
    });
    Range { start: first, end: first + rows }
}

/// The window lies in the run, is as long as the list, and shows the selection.
pub proof fn law_the_window_shows_the_selection(run: Range<usize>, rows: usize, pos: usize, row: usize)
    requires
        run.start <= run.end,
        pos < run.end - run.start,
        row < rows,
    ensures
        ({
            let (first, end) = window_of(run, rows, pos, row);
            &&& run.start <= first <= end <= run.end
            &&& end - first == (if run.end - run.start < rows {
                run.end - run.start
            } else {
                rows as int
            })
            &&& first <= run.start + pos
            &&& pos - (first - run.start) <= row ==> run.start + pos < end
            &&& pos >= row && pos - row <= run.end - run.start - rows && run.end - run.start > rows ==> run.start
                + pos == first + row
        }),
{
}

/// The label of a slot of a picker: slot 0 is the standing entry that clears the filter.
pub fn slot_label<'a>(found: &'a Vec<String>, slot: usize) -> (s: &'a str)
    requires
        slot <= found@.len(),
    ensures
        s@ == (if slot == 0 {
            "(all)"@
        } else {
            found@[slot - 1]@
        }),
{
    if slot == 0 {
        "(all)"
    } else {
        found[slot - 1].as_str()
    }
}

/// A clock reads as minutes and seconds: the digits before the colon are the whole minutes, and two digits
/// behind it the seconds that are left of the minute.
pub proof fn law_a_clock_reads_minutes_and_seconds(minutes: nat, secs: nat)
    requires
        secs < 60,
    ensures
        ({
            let text = clock(minutes * 60 + secs);
            let n = text.len();
            &&& n >= 5
            &&& text[n - 3] == ':'
            &&& text[n - 2] == digit(secs as int / 10)
            &&& text[n - 1] == digit(secs as int % 10)
            &&& text.take(n - 3) == if minutes < 10 {
                seq!['0', digit(minutes as int)]
            } else {
                decimal(minutes)
            }
        }),
{
    let all = minutes * 60 + secs;
    assert(all / 60 == minutes && all % 60 == secs);
    reveal_strlit(":");
    reveal_with_fuel(decimal, 3);
    let head = decimal2(minutes);
    let tail = decimal2(secs);
    assert(tail.len() == 2);
    if minutes >= 10 {
        assert(decimal(minutes / 10).len() >= 1);
    }
    assert(head.len() >= 2);
    assert(clock(all).take(clock(all).len() - 3) =~= head);
}

/// What is shown as playing is the current track, or the last one where the queue has become shorter.
pub proof fn law_the_current_track_is_shown(app: AppView)
    ensures
        app.queue.len() == 0 ==> app.shown_slot() is None,
        app.current < app.queue.len() ==> app.shown_slot() == Some(app.current as int),
        0 < app.queue.len() <= app.current ==> app.shown_slot() == Some(app.queue.len() - 1),
{
}

/// The menus of the library are shown there alone, and that of the player everywhere.
pub proof fn law_modals_belong_to_their_view(app: AppView)
    ensures
        app.modal is None ==> app.drawn_modal() is None,
        app.modal == Some(ModalView::Actions) ==> app.drawn_modal() == Some(ModalKind::Actions),
        app.screen == Screen::Player && app.modal != Some(ModalView::Actions) ==> app.drawn_modal() is None,
        app.screen == Screen::Library && (app.modal matches Some(ModalView::Picker(_))) ==> app.drawn_modal() == Some(
            ModalKind::Picker,
        ),
        app.screen == Screen::Library && (app.modal matches Some(ModalView::Sort(_))) ==> app.drawn_modal() == Some(
            ModalKind::Sort,
        ),
        app.screen == Screen::Library && (app.modal matches Some(ModalView::Tracks(menu)) && menu.album
            < app.albums.len()) ==> app.drawn_modal() == Some(ModalKind::Tracks),
{
}

} // verus!
