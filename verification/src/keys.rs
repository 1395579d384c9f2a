//! The keyboard: which key press is which message.

use crate::model::{ModalKind, Screen, Zoom};
use crate::player::Nanos;
use crate::queue::{Grouping, Scope};
use crate::text::same;
use crate::update::{MenuDir, Msg, QueueEdge, Seek, SeekDir};
use vstd::prelude::*;
use vstd::string::*;

verus! {

/// How far a single Left/Right tap seeks.
pub const SEEK_STEP: Nanos = 5_000_000_000;

/// How far a single Up/Down tap nudges the volume, in percent.
pub const VOLUME_STEP: i32 = 5;

/// A key that types nothing.
#[derive(Debug, Clone, Copy, PartialEq, Eq, Structural)]
pub enum Named {
    Space,
    Enter,
    Escape,
    Tab,
    ArrowUp,
    ArrowDown,
    ArrowLeft,
    ArrowRight,
    Home,
    End,
    PageUp,
    PageDown,
    /// A key that is not bound to anything.
    Other,
}

/// A key, by what it is or what it types.
#[derive(Debug, Clone)]
pub enum Key {
    Named(Named),
    Character(String),
    Unidentified,
}

/// The modifier keys held down with another.
#[derive(Debug, Clone, Copy, PartialEq, Eq, Structural)]
pub struct Modifiers {
    pub shift: bool,
    pub control: bool,
    pub alt: bool,
    pub logo: bool,
}

impl Modifiers {
    /// No modifier is held.
    pub open spec fn none(self) -> bool {
        !self.shift && !self.control && !self.alt && !self.logo
    }

    pub fn is_empty(self) -> (r: bool)
        ensures
            r == self.none(),
    {
        !self.shift && !self.control && !self.alt && !self.logo
    }
}

/// What a key is bound to: a message, and whether holding the key repeats it. Continuous actions repeat
/// (seek/scrub, walking the queue), while one-shot ones don't (holding
/// Space must not machine-gun play/pause).
#[derive(Debug)]
pub struct Bound {
    pub msg: Msg,
    pub repeats: bool,
}

/// Bound to a message, once per press.
pub open spec fn once(msg: Msg) -> Option<Bound> {
    Some(Bound { msg, repeats: false })
}

/// Bound to a message, again while the key is held.
pub open spec fn repeating(msg: Msg) -> Option<Bound> {
    Some(Bound { msg, repeats: true })
}

/// The first binding, or else the second.
pub open spec fn or_else(first: Option<Bound>, second: Option<Bound>) -> Option<Bound> {
    match first {
        Some(_) => first,
        None => second,
    }
}

fn one_shot(msg: Msg) -> (b: Option<Bound>)
    ensures
        b == once(msg),
{
    Some(Bound { msg, repeats: false })
}

fn held(msg: Msg) -> (b: Option<Bound>)
    ensures
        b == repeating(msg),
{
    Some(Bound { msg, repeats: true })
}

/// A key types the given text.
pub open spec fn types(key: Key, text: Seq<char>) -> bool {
    key matches Key::Character(c) && c@ == text
}

fn is_typed(key: &Key, text: &str) -> (r: bool)
    ensures
        r == types(*key, text@),
{
    match key {
        Key::Character(c) => same(c.as_str(), text),
        _ => false,
    }
}

fn is_named(key: &Key, named: Named) -> (r: bool)
    ensures
        r == (*key == Key::Named(named)),
{
    match key {
        Key::Named(n) => *n == named,
        _ => false,
    }
}

/// A shuffle: Alt shuffles the others, Ctrl shuffles all.
pub open spec fn shuffle_of(grouping: Grouping, control: bool) -> Msg {
    Msg::Shuffle {
        grouping,
        scope: if control {
            Scope::All
        } else {
            Scope::Others
        },
    }
}

fn shuffle(grouping: Grouping, control: bool) -> (msg: Msg)
    ensures
        msg == shuffle_of(grouping, control),
{
    let scope: Scope = if control {
        Scope::All
    } else {
        Scope::Others
    };
    Msg::Shuffle { grouping, scope }
}

/// The keys of the track menu. It is modal: it gets its own bindings and everything else is suppressed.
/// They mirror the grid's vocabulary one level down -- arrows move the selection, Alt+Space
/// queues it, Ctrl+Space (or Enter, which opened the menu) plays it -- and Escape
/// dismisses. Bare Space stays the global play/pause toggle even here.
pub open spec fn tracks_binding(key: Key, mods: Modifiers) -> Option<Bound> {
    if key == Key::Named(Named::Escape) && !mods.control {
        once(Msg::CloseModal)
    } else if key == Key::Named(Named::ArrowUp) && mods.none() {
        repeating(Msg::MenuMove(MenuDir::Up))
    } else if key == Key::Named(Named::ArrowDown) && mods.none() {
        repeating(Msg::MenuMove(MenuDir::Down))
    } else if key == Key::Named(Named::Space) && !mods.control && mods.alt {
        // One queue per press: holding Alt+Space must not machine-gun the queue.
        once(Msg::MenuQueue)
    } else if key == Key::Named(Named::Space) && mods.none() {
        once(Msg::Toggle)
    } else if key == Key::Named(Named::Space) && mods.control {
        once(Msg::MenuPlay)
    } else if key == Key::Named(Named::Enter) && mods.none() {
        once(Msg::MenuPlay)
    } else {
        None
    }
}

fn tracks_key(key: &Key, mods: Modifiers) -> (b: Option<Bound>)
    ensures
        b == tracks_binding(*key, mods),
{
    if is_named(key, Named::Escape) && !mods.control {
        one_shot(Msg::CloseModal)
    } else if is_named(key, Named::ArrowUp) && mods.is_empty() {
        held(Msg::MenuMove(MenuDir::Up))
    } else if is_named(key, Named::ArrowDown) && mods.is_empty() {
        held(Msg::MenuMove(MenuDir::Down))
    } else if is_named(key, Named::Space) && !mods.control && mods.alt {
        one_shot(Msg::MenuQueue)
    } else if is_named(key, Named::Space) && mods.is_empty() {
        one_shot(Msg::Toggle)
    } else if is_named(key, Named::Space) && mods.control {
        one_shot(Msg::MenuPlay)
    } else if is_named(key, Named::Enter) && mods.is_empty() {
        one_shot(Msg::MenuPlay)
    } else {
        None
    }
}

/// The keys of the actions menu: Escape dismisses; its actions keep their global keys (the entries
/// display them as hints, and the handlers dismiss the menu themselves), and so does the
/// play/pause toggle.
pub open spec fn actions_binding(key: Key, mods: Modifiers) -> Option<Bound> {
    if key == Key::Named(Named::Escape) && !mods.control {
        once(Msg::CloseModal)
    } else if key == Key::Named(Named::Space) && mods.none() {
        once(Msg::Toggle)
    } else if types(key, "r"@) && !mods.control && mods.alt {
        once(Msg::CycleRepeat)
    } else if types(key, "s"@) && mods.alt != mods.control {
        // Exactly one modifier, like the global bindings: Alt = others, Ctrl = all.
        once(shuffle_of(Grouping::Albums, mods.control))
    } else if types(key, "z"@) && mods.alt != mods.control {
        once(shuffle_of(Grouping::Tracks, mods.control))
    } else if types(key, "k"@) && mods.control {
        once(Msg::ClearQueue)
    } else {
        None
    }
}

fn actions_key(key: &Key, mods: Modifiers) -> (b: Option<Bound>)
    ensures
        b == actions_binding(*key, mods),
{
    if is_named(key, Named::Escape) && !mods.control {
        one_shot(Msg::CloseModal)
    } else if is_named(key, Named::Space) && mods.is_empty() {
        one_shot(Msg::Toggle)
    } else if is_typed(key, "r") && !mods.control && mods.alt {
        one_shot(Msg::CycleRepeat)
    } else if is_typed(key, "s") && mods.alt != mods.control {
        one_shot(shuffle(Grouping::Albums, mods.control))
    } else if is_typed(key, "z") && mods.alt != mods.control {
        one_shot(shuffle(Grouping::Tracks, mods.control))
    } else if is_typed(key, "k") && mods.control {
        one_shot(Msg::ClearQueue)
    } else {
        None
    }
}

/// The keys of a list that filters or sorts: arrows move, Enter picks, Escape and Ctrl+W dismiss, and Tab
/// moves along the filter inputs, not between the views, while one is open.
pub open spec fn list_binding(key: Key, mods: Modifiers, up: Msg, down: Msg, pick: Msg) -> Option<Bound> {
    if key == Key::Named(Named::Escape) && !mods.control {
        once(Msg::CloseModal)
    } else if key == Key::Named(Named::ArrowUp) && mods.none() {
        repeating(up)
    } else if key == Key::Named(Named::ArrowDown) && mods.none() {
        repeating(down)
    } else if key == Key::Named(Named::Enter) && mods.none() {
        once(pick)
    } else if types(key, "w"@) && mods.control && !mods.alt {
        // Clearing every filter includes the one being picked: the handler dismisses us.
        once(Msg::ClearFilters)
    } else if key == Key::Named(Named::Tab) && !mods.control && !mods.alt {
        once(Msg::CycleFilterInput { backwards: mods.shift })
    } else {
        None
    }
}

fn list_key(key: &Key, mods: Modifiers, up: Msg, down: Msg, pick: Msg) -> (b: Option<Bound>)
    ensures
        b == list_binding(*key, mods, up, down, pick),
{
    if is_named(key, Named::Escape) && !mods.control {
        one_shot(Msg::CloseModal)
    } else if is_named(key, Named::ArrowUp) && mods.is_empty() {
        held(up)
    } else if is_named(key, Named::ArrowDown) && mods.is_empty() {
        held(down)
    } else if is_named(key, Named::Enter) && mods.is_empty() {
        one_shot(pick)
    } else if is_typed(key, "w") && mods.control && !mods.alt {
        one_shot(Msg::ClearFilters)
    } else if is_named(key, Named::Tab) && !mods.control && !mods.alt {
        one_shot(Msg::CycleFilterInput { backwards: mods.shift })
    } else {
        None
    }
}

/// The keys of an open modal; everything else is suppressed.
pub open spec fn modal_binding(modal: ModalKind, key: Key, mods: Modifiers) -> Option<Bound> {
    match modal {
        ModalKind::Tracks => tracks_binding(key, mods),
        ModalKind::Actions => actions_binding(key, mods),
        // The filter picker: its focused search field captures typing (and Enter);
        // arrows pass through it, so the list navigates while typing. Escape reaches here once the
        // field is unfocused (the field captures the first press to unfocus itself).
        ModalKind::Picker => list_binding(
            key,
            mods,
            Msg::PickerMove(MenuDir::Up),
            Msg::PickerMove(MenuDir::Down),
            Msg::PickerPick,
        ),
        // The sort picker: a fixed list, so no search field.
        ModalKind::Sort => list_binding(
            key,
            mods,
            Msg::SortMove(MenuDir::Up),
            Msg::SortMove(MenuDir::Down),
            Msg::SortPick,
        ),
    }
}

/// Live UI zoom, matched on the resolved character `modified` -- so `+`,
/// `-` and `=` land as actually typed on any layout, unlike the base key the other bindings
/// read. Ctrl+plus zooms in, Ctrl+minus out, Ctrl+= resets. View-independent, so it works in the
/// player too (which drops its own Ctrl chords).
pub open spec fn zoom_binding(modified: Key, mods: Modifiers) -> Option<Bound> {
    if !mods.control {
        None
    } else if types(modified, "+"@) {
        once(Msg::Zoom(Zoom::In))
    } else if types(modified, "-"@) {
        once(Msg::Zoom(Zoom::Out))
    } else if types(modified, "="@) {
        once(Msg::Zoom(Zoom::Reset))
    } else {
        None
    }
}

fn zoom_key(modified: &Key, mods: Modifiers) -> (b: Option<Bound>)
    ensures
        b == zoom_binding(*modified, mods),
{
    if !mods.control {
        None
    } else if is_typed(modified, "+") {
        one_shot(Msg::Zoom(Zoom::In))
    } else if is_typed(modified, "-") {
        one_shot(Msg::Zoom(Zoom::Out))
    } else if is_typed(modified, "=") {
        one_shot(Msg::Zoom(Zoom::Reset))
    } else {
        None
    }
}

/// The view-independent keys. Bare Space
/// toggles play/pause in every view (an uncaptured Alt+Space -- no grid selection -- is a
/// missed enqueue, not a toggle request).
pub open spec fn global_binding(key: Key, mods: Modifiers) -> Option<Bound> {
    if key == Key::Named(Named::Space) && mods.none() {
        once(Msg::Toggle)
    } else if key == Key::Named(Named::Tab) && !mods.control {
        once(Msg::TabPressed { backwards: mods.shift })
    } else if key == Key::Named(Named::Escape) && !mods.control {
        once(Msg::Show(Screen::Library))
    } else if types(key, "r"@) && !mods.shift && !mods.control && mods.alt {
        once(Msg::CycleRepeat)
    } else if types(key, "s"@) && !mods.shift && mods.alt != mods.control {
        // Exactly one modifier: Alt shuffles the others, Ctrl shuffles all -- Ctrl+Alt is nothing.
        once(shuffle_of(Grouping::Albums, mods.control))
    } else if types(key, "z"@) && !mods.shift && mods.alt != mods.control {
        once(shuffle_of(Grouping::Tracks, mods.control))
    } else if key == Key::Named(Named::Home) && !mods.shift && mods.control {
        once(Msg::RestAt(QueueEdge::First))
    } else if key == Key::Named(Named::End) && !mods.shift && mods.control {
        once(Msg::RestAt(QueueEdge::Last))
    } else if types(key, "k"@) && !mods.shift && mods.control {
        once(Msg::ClearQueue)
    } else if types(key, "f"@) && !mods.shift && mods.control {
        once(Msg::FocusSearch)
    } else if types(key, "w"@) && !mods.shift && mods.control {
        once(Msg::ClearFilters)
    } else {
        None
    }
}

fn global_key(key: &Key, mods: Modifiers) -> (b: Option<Bound>)
    ensures
        b == global_binding(*key, mods),
{
    if is_named(key, Named::Space) && mods.is_empty() {
        one_shot(Msg::Toggle)
    } else if is_named(key, Named::Tab) && !mods.control {
        one_shot(Msg::TabPressed { backwards: mods.shift })
    } else if is_named(key, Named::Escape) && !mods.control {
        one_shot(Msg::Show(Screen::Library))
    } else if is_typed(key, "r") && !mods.shift && !mods.control && mods.alt {
        one_shot(Msg::CycleRepeat)
    } else if is_typed(key, "s") && !mods.shift && mods.alt != mods.control {
        one_shot(shuffle(Grouping::Albums, mods.control))
    } else if is_typed(key, "z") && !mods.shift && mods.alt != mods.control {
        one_shot(shuffle(Grouping::Tracks, mods.control))
    } else if is_named(key, Named::Home) && !mods.shift && mods.control {
        one_shot(Msg::RestAt(QueueEdge::First))
    } else if is_named(key, Named::End) && !mods.shift && mods.control {
        one_shot(Msg::RestAt(QueueEdge::Last))
    } else if is_typed(key, "k") && !mods.shift && mods.control {
        one_shot(Msg::ClearQueue)
    } else if is_typed(key, "f") && !mods.shift && mods.control {
        one_shot(Msg::FocusSearch)
    } else if is_typed(key, "w") && !mods.shift && mods.control {
        one_shot(Msg::ClearFilters)
    } else {
        None
    }
}

/// The keys of the library: play or queue every album the current filter lets through (the whole library
/// when it is empty), in displayed order -- the keyboard forms of the filter bar's ▶/＋ buttons. And
/// starting to type searches: the first character rides along to the field, which
/// takes over (as the focused widget) for the rest. Letters can carry bindings only
/// with a modifier, exactly so that this works. Repeats welcome -- held keys repeat
/// in a text field.
pub open spec fn library_binding(key: Key, mods: Modifiers) -> Option<Bound> {
    match key {
        Key::Named(Named::Enter) => if !mods.alt && mods.control {
            once(Msg::PlayAll)
        } else if mods.alt && !mods.control {
            once(Msg::QueueAll)
        } else {
            None
        },
        Key::Character(c) => if !mods.alt && !mods.control {
            repeating(Msg::SearchTyped(c))
        } else {
            None
        },
        _ => None,
    }
}

fn library_key(key: &Key, mods: Modifiers) -> (b: Option<Bound>)
    ensures
        b == library_binding(*key, mods),
{
    match key {
        Key::Named(Named::Enter) => if !mods.alt && mods.control {
            one_shot(Msg::PlayAll)
        } else if mods.alt && !mods.control {
            one_shot(Msg::QueueAll)
        } else {
            None
        },
        Key::Character(c) => if !mods.alt && !mods.control {
            held(Msg::SearchTyped(c.clone()))
        } else {
            None
        },
        _ => None,
    }
}

/// The keys of the player, which binds no Ctrl chords of its own. The skips repeat, and are told that they
/// do: their handler limits the rate.
pub open spec fn player_binding(key: Key, mods: Modifiers, repeat: bool) -> Option<Bound> {
    if mods.control {
        None
    } else {
        match key {
            Key::Named(Named::ArrowLeft) => repeating(Msg::Seek(Seek::By(SeekDir::Backward, SEEK_STEP))),
            Key::Named(Named::ArrowRight) => repeating(Msg::Seek(Seek::By(SeekDir::Forward, SEEK_STEP))),
            Key::Named(Named::ArrowUp) => repeating(Msg::BumpVolume(VOLUME_STEP)),
            Key::Named(Named::ArrowDown) => repeating(Msg::BumpVolume((-VOLUME_STEP) as i32)),
            Key::Named(Named::Home) => repeating(Msg::PrevOrRestart { repeat }),
            Key::Named(Named::End) => repeating(Msg::Next { repeat }),
            // One album per press: a held key mustn't fly through the whole queue.
            Key::Named(Named::PageUp) => once(Msg::PrevAlbum),
            Key::Named(Named::PageDown) => once(Msg::NextAlbum),
            _ => None,
        }
    }
}

fn player_key(key: &Key, mods: Modifiers, repeat: bool) -> (b: Option<Bound>)
    ensures
        b == player_binding(*key, mods, repeat),
{
    if mods.control {
        return None;
    }
    match key {
        Key::Named(Named::ArrowLeft) => held(Msg::Seek(Seek::By(SeekDir::Backward, SEEK_STEP))),
        Key::Named(Named::ArrowRight) => held(Msg::Seek(Seek::By(SeekDir::Forward, SEEK_STEP))),
        Key::Named(Named::ArrowUp) => held(Msg::BumpVolume(VOLUME_STEP)),
        Key::Named(Named::ArrowDown) => held(Msg::BumpVolume(-VOLUME_STEP)),
        Key::Named(Named::Home) => held(Msg::PrevOrRestart { repeat }),
        Key::Named(Named::End) => held(Msg::Next { repeat }),
        Key::Named(Named::PageUp) => one_shot(Msg::PrevAlbum),
        Key::Named(Named::PageDown) => one_shot(Msg::NextAlbum),
        _ => None,
    }
}

/// Alt/Logo chords belong to the window manager -- all but the few that are bound here: Alt+Space, Alt+Enter,
/// the Alt+s/Alt+z shuffles, and the Alt+r repeat cycle.
pub open spec fn is_ours(key: Key, mods: Modifiers) -> bool {
    &&& !mods.logo
    &&& mods.alt ==> key == Key::Named(Named::Space) || key == Key::Named(Named::Enter) || types(key, "s"@)
        || types(key, "z"@) || types(key, "r"@)
}

/// What a key is bound to, where it is pressed.
pub open spec fn binding(
    screen: Screen,
    modal: Option<ModalKind>,
    key: Key,
    modified: Key,
    mods: Modifiers,
    repeat: bool,
) -> Option<Bound> {
    if !is_ours(key, mods) {
        None
    } else {
        match modal {
            Some(modal) => modal_binding(modal, key, mods),
            None => or_else(
                zoom_binding(modified, mods),
                or_else(
                    global_binding(key, mods),
                    match screen {
                        Screen::Library => library_binding(key, mods),
                        Screen::Player => player_binding(key, mods, repeat),
                    },
                ),
            ),
        }
    }
}

/// What a key press means, given what the key is bound to: a one-shot binding means nothing while the key
/// is held.
pub open spec fn pressed(bound: Option<Bound>, repeat: bool) -> Option<Msg> {
    match bound {
        Some(bound) => if repeat && !bound.repeats {
            None
        } else {
            Some(bound.msg)
        },
        None => None,
    }
}

fn bound_key(
    screen: Screen,
    modal: Option<ModalKind>,
    key: &Key,
    modified: &Key,
    mods: Modifiers,
    repeat: bool,
) -> (b: Option<Bound>)
    ensures
        b == binding(screen, modal, *key, *modified, mods, repeat),
{
    if mods.logo {
        return None;
    }
    if mods.alt && !(is_named(key, Named::Space) || is_named(key, Named::Enter) || is_typed(key, "s") || is_typed(
        key,
        "z",
    ) || is_typed(key, "r")) {
        return None;
    }
    match modal {
        Some(ModalKind::Tracks) => return tracks_key(key, mods),
        Some(ModalKind::Actions) => return actions_key(key, mods),
        Some(ModalKind::Picker) => return list_key(
            key,
            mods,
            Msg::PickerMove(MenuDir::Up),
            Msg::PickerMove(MenuDir::Down),
            Msg::PickerPick,
        ),
        Some(ModalKind::Sort) => return list_key(
            key,
            mods,
            Msg::SortMove(MenuDir::Up),
            Msg::SortMove(MenuDir::Down),
            Msg::SortPick,
        ),
        None => {},
    }
    let zoom: Option<Bound> = zoom_key(modified, mods);
    if zoom.is_some() {
        return zoom;
    }
    // View-independent navigation takes precedence over the per-view bindings below.
    let global: Option<Bound> = global_key(key, mods);
    if global.is_some() {
        return global;
    }
    match screen {
        Screen::Library => library_key(key, mods),
        Screen::Player => player_key(key, mods, repeat),
    }
}

/// Translates a key press into a message for the current `screen`, or `None` for keys that are not bound.
/// Only keys no widget captured arrive here: the library grid handles its own navigation and
/// selection actions internally (see [`album_grid`](crate::album_grid)), so this covers the global view
/// switching, the
/// playback-mode keys, and the player bindings. `repeat` marks auto-repeat from a held key:
/// continuous actions honor it, while one-shot ones don't.
///
/// Global: Space toggles play/pause (too central a function to belong to one view); Tab /
/// Shift-Tab cycle the view tabs -- unless a filter input holds focus (the album search, or an
/// open filter picker), in which case they move between the filter inputs instead, following the
/// bar; Escape returns to the library; Alt+r cycles the repeat mode;
/// Alt+s/Alt+z shuffle the other albums/tracks in behind
/// the playing one (Ctrl instead of Alt shuffles literally everything); Ctrl+Home / Ctrl+End rest
/// playback at the queue's first / last track, paused. With a modal open, Escape dismisses it, the track
/// menu gets its own bindings, and everything else is suppressed. Ctrl+F brings up the library with the album
/// search focused; Ctrl+W clears every filter (unfocusing its inputs). In the library: Ctrl+Enter plays and
/// Alt+Enter queues everything the filter shows, and typing any plain character starts the album
/// search. In the player: Left/Right seek by
/// [`SEEK_STEP`], Up/Down nudge the volume by 5%, Home
/// restarts the track (or steps back near the start), End steps to the next track, PageUp restarts
/// the album (or steps to the previous one), PageDown jumps to the next album.
pub fn key_to_msg(
    screen: Screen,
    modal: Option<ModalKind>,
    key: Key,
    modified_key: Key,
    modifiers: Modifiers,
    repeat: bool,
) -> (msg: Option<Msg>)
    ensures
        msg == pressed(binding(screen, modal, key, modified_key, modifiers, repeat), repeat),
{
    match bound_key(screen, modal, &key, &modified_key, modifiers, repeat) {
        Some(bound) => if repeat && !bound.repeats {
            None
        } else {
            Some(bound.msg)
        },
        None => None,
    }
}

/// Escape never does anything but dismiss what is open: a modal, or the player.
pub proof fn law_escape_only_dismisses(
    screen: Screen,
    modal: Option<ModalKind>,
    modified: Key,
    mods: Modifiers,
    repeat: bool,
)
    requires
        modified == Key::Named(Named::Escape),
    ensures
        match pressed(binding(screen, modal, Key::Named(Named::Escape), modified, mods, repeat), repeat) {
            None => true,
            Some(msg) => msg == (match modal {
                Some(_) => Msg::CloseModal,
                None => Msg::Show(Screen::Library),
            }),
        },
{
}

/// A bare Space toggles playback in every view, and in the menus that are not being typed into; holding it does
/// so once. (The album grid leaves it alone, see
/// [`law_the_grid_leaves_space_alone`](crate::album_grid::law_the_grid_leaves_space_alone).)
pub proof fn law_space_toggles_playback(screen: Screen, modal: Option<ModalKind>, mods: Modifiers)
    requires
        mods.none(),
        modal == None::<ModalKind> || modal == Some(ModalKind::Tracks) || modal == Some(ModalKind::Actions),
    ensures
        ({
            let space = Key::Named(Named::Space);
            &&& pressed(binding(screen, modal, space, space, mods, false), false) == Some(Msg::Toggle)
            &&& pressed(binding(screen, modal, space, space, mods, true), true) is None
        }),
{
}

/// A chord with the Logo key is the window manager's.
pub proof fn law_logo_chords_pass_through(
    screen: Screen,
    modal: Option<ModalKind>,
    key: Key,
    modified: Key,
    mods: Modifiers,
    repeat: bool,
)
    requires
        mods.logo,
    ensures
        pressed(binding(screen, modal, key, modified, mods, repeat), repeat) is None,
{
}

/// In the library a plain character starts a search, whatever it is.
pub proof fn law_typing_searches(c: String, shift: bool, repeat: bool, modified: Key)
    ensures
        ({
            let mods = Modifiers { shift, control: false, alt: false, logo: false };
            pressed(binding(Screen::Library, None, Key::Character(c), modified, mods, repeat), repeat) == Some(
                Msg::SearchTyped(c),
            )
        }),
{
}

/// The keys of the player: the arrows seek five seconds and move the volume by five percent, again while they
/// are held. Home and End skip within the queue, and are told whether they are held; the page keys skip by
/// albums, once per press.
pub proof fn law_the_player_has_its_keys(named: Named, mods: Modifiers, repeat: bool)
    requires
        !mods.control,
        !mods.alt,
        !mods.logo,
    ensures
        ({
            let key = Key::Named(named);
            let msg = pressed(binding(Screen::Player, None, key, key, mods, repeat), repeat);
            match named {
                Named::ArrowLeft => msg == Some(Msg::Seek(Seek::By(SeekDir::Backward, 5_000_000_000))),
                Named::ArrowRight => msg == Some(Msg::Seek(Seek::By(SeekDir::Forward, 5_000_000_000))),
                Named::ArrowUp => msg == Some(Msg::BumpVolume(5)),
                Named::ArrowDown => msg == Some(Msg::BumpVolume((0 - 5) as i32)),
                Named::Home => msg == Some(Msg::PrevOrRestart { repeat }),
                Named::End => msg == Some(Msg::Next { repeat }),
                Named::PageUp => msg == if repeat {
                    None
                } else {
                    Some(Msg::PrevAlbum)
                },
                Named::PageDown => msg == if repeat {
                    None
                } else {
                    Some(Msg::NextAlbum)
                },
                Named::Enter => msg is None,
                Named::Other => msg is None,
                _ => true,
            }
        }),
{
}

/// Tab goes through the views, backwards with Shift.
pub proof fn law_tab_goes_through_the_views(screen: Screen, shift: bool)
    ensures
        ({
            let mods = Modifiers { shift, control: false, alt: false, logo: false };
            let key = Key::Named(Named::Tab);
            pressed(binding(screen, None, key, key, mods, false), false) == Some(Msg::TabPressed { backwards: shift })
        }),
{
}

/// The chords that work in every view. With Alt, `r` changes the repeat mode, and `s` and `z` shuffle the other
/// albums and tracks; with Ctrl these shuffle everything, `k` clears the queue, `f` searches, `w` clears the
/// filters, and Home and End go to the edges of the queue. With both, a letter does nothing.
pub proof fn law_chords_work_in_every_view(screen: Screen, c: String, modified: Key, alt: bool, control: bool)
    requires
        alt || control,
        !(modified is Character),
    ensures
        ({
            let mods = Modifiers { shift: false, control, alt, logo: false };
            let msg = pressed(binding(screen, None, Key::Character(c), modified, mods, false), false);
            let home = pressed(binding(screen, None, Key::Named(Named::Home), modified, mods, false), false);
            let end = pressed(binding(screen, None, Key::Named(Named::End), modified, mods, false), false);
            &&& c@ == "r"@ && !control ==> msg == Some(Msg::CycleRepeat)
            &&& c@ == "s"@ && !control ==> msg == Some(
                Msg::Shuffle { grouping: Grouping::Albums, scope: Scope::Others },
            )
            &&& c@ == "z"@ && !control ==> msg == Some(
                Msg::Shuffle { grouping: Grouping::Tracks, scope: Scope::Others },
            )
            &&& c@ == "s"@ && !alt ==> msg == Some(Msg::Shuffle { grouping: Grouping::Albums, scope: Scope::All })
            &&& c@ == "z"@ && !alt ==> msg == Some(Msg::Shuffle { grouping: Grouping::Tracks, scope: Scope::All })
            &&& c@ == "k"@ && !alt ==> msg == Some(Msg::ClearQueue)
            &&& c@ == "f"@ && !alt ==> msg == Some(Msg::FocusSearch)
            &&& c@ == "w"@ && !alt ==> msg == Some(Msg::ClearFilters)
            &&& alt && control ==> msg is None
            &&& !alt ==> home == Some(Msg::RestAt(QueueEdge::First)) && end == Some(Msg::RestAt(QueueEdge::Last))
        }),
{
    reveal_strlit("r");
    reveal_strlit("s");
    reveal_strlit("z");
    reveal_strlit("k");
    reveal_strlit("f");
    reveal_strlit("w");
    assert("r"@[0] == 'r' && "s"@[0] == 's' && "z"@[0] == 'z' && "k"@[0] == 'k' && "f"@[0] == 'f' && "w"@[0] == 'w');
}

/// Ctrl with what types a plus or a minus makes everything larger or smaller, and with an equals sign as it was,
/// whatever the key, in every view.
pub proof fn law_the_zoom_goes_by_what_is_typed(screen: Screen, key: Key, c: String, shift: bool)
    ensures
        ({
            let mods = Modifiers { shift, control: true, alt: false, logo: false };
            let msg = pressed(binding(screen, None, key, Key::Character(c), mods, false), false);
            &&& c@ == "+"@ ==> msg == Some(Msg::Zoom(Zoom::In))
            &&& c@ == "-"@ ==> msg == Some(Msg::Zoom(Zoom::Out))
            &&& c@ == "="@ ==> msg == Some(Msg::Zoom(Zoom::Reset))
        }),
{
    reveal_strlit("+");
    reveal_strlit("-");
    reveal_strlit("=");
    assert("+"@[0] == '+' && "-"@[0] == '-' && "="@[0] == '=');
}

/// In the library, Enter with Ctrl plays all that is shown, and with Alt queues it.
pub proof fn law_enter_takes_all_that_is_shown(modified: Key, shift: bool)
    requires
        !(modified is Character),
    ensures
        ({
            let key = Key::Named(Named::Enter);
            let ctrl = Modifiers { shift, control: true, alt: false, logo: false };
            let alt = Modifiers { shift, control: false, alt: true, logo: false };
            &&& pressed(binding(Screen::Library, None, key, modified, ctrl, false), false) == Some(Msg::PlayAll)
            &&& pressed(binding(Screen::Library, None, key, modified, alt, false), false) == Some(Msg::QueueAll)
        }),
{
}

/// In the track menu the arrows move, also while they are held, Enter and Ctrl+Space play, and Alt+Space queues,
/// once per press.
pub proof fn law_the_track_menu_has_its_keys(screen: Screen, modified: Key, repeat: bool)
    ensures
        ({
            let none = Modifiers { shift: false, control: false, alt: false, logo: false };
            let ctrl = Modifiers { control: true, ..none };
            let alt = Modifiers { alt: true, ..none };
            let open = Some(ModalKind::Tracks);
            let up = pressed(binding(screen, open, Key::Named(Named::ArrowUp), modified, none, repeat), repeat);
            let down = pressed(binding(screen, open, Key::Named(Named::ArrowDown), modified, none, repeat), repeat);
            let enter = pressed(binding(screen, open, Key::Named(Named::Enter), modified, none, repeat), repeat);
            let play = pressed(binding(screen, open, Key::Named(Named::Space), modified, ctrl, repeat), repeat);
            let queue = pressed(binding(screen, open, Key::Named(Named::Space), modified, alt, repeat), repeat);
            &&& up == Some(Msg::MenuMove(MenuDir::Up))
            &&& down == Some(Msg::MenuMove(MenuDir::Down))
            &&& repeat ==> enter is None && play is None && queue is None
            &&& !repeat ==> enter == Some(Msg::MenuPlay) && play == Some(Msg::MenuPlay) && queue == Some(Msg::MenuQueue)
        }),
{
}

/// In a list that filters or sorts, the arrows move, also while they are held, Enter picks, Tab goes on to the
/// next filter, and back with Shift, and Escape closes it.
pub proof fn law_the_lists_have_their_keys(screen: Screen, modified: Key, shift: bool)
    ensures
        ({
            let none = Modifiers { shift: false, control: false, alt: false, logo: false };
            let pick = Some(ModalKind::Picker);
            let sort = Some(ModalKind::Sort);
            let up = Key::Named(Named::ArrowUp);
            let down = Key::Named(Named::ArrowDown);
            let enter = Key::Named(Named::Enter);
            let tab = Key::Named(Named::Tab);
            let shifted = Modifiers { shift, ..none };
            &&& pressed(binding(screen, pick, up, modified, none, true), true) == Some(Msg::PickerMove(MenuDir::Up))
            &&& pressed(binding(screen, pick, down, modified, none, true), true) == Some(Msg::PickerMove(MenuDir::Down))
            &&& pressed(binding(screen, pick, enter, modified, none, false), false) == Some(Msg::PickerPick)
            &&& pressed(binding(screen, sort, up, modified, none, true), true) == Some(Msg::SortMove(MenuDir::Up))
            &&& pressed(binding(screen, sort, down, modified, none, true), true) == Some(Msg::SortMove(MenuDir::Down))
            &&& pressed(binding(screen, sort, enter, modified, none, false), false) == Some(Msg::SortPick)
            &&& pressed(binding(screen, pick, tab, modified, shifted, false), false) == Some(
                Msg::CycleFilterInput { backwards: shift },
            )
            &&& pressed(binding(screen, sort, tab, modified, shifted, false), false) == Some(
                Msg::CycleFilterInput { backwards: shift },
            )
        }),
{
}

/// An open modal takes all keys but its own: nothing else moves, seeks, searches or changes the volume.
pub proof fn law_a_modal_takes_the_keys(screen: Screen, modal: ModalKind, key: Key, modified: Key, repeat: bool)
    requires
        key != Key::Named(Named::Escape),
        key != Key::Named(Named::ArrowUp),
        key != Key::Named(Named::ArrowDown),
        key != Key::Named(Named::Enter),
        key != Key::Named(Named::Space),
        key != Key::Named(Named::Tab),
    ensures
        ({
            let none = Modifiers { shift: false, control: false, alt: false, logo: false };
            pressed(binding(screen, Some(modal), key, modified, none, repeat), repeat) is None
        }),
{
}

} // verus!
