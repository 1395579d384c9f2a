//! The Linux [`media`](crate::media) backend: what a small MPRIS server on the D-Bus session bus says
//! and takes, giving a player media keys, `playerctl -p <name>`, and desktop media widgets. Only the
//! subset of MPRIS actually used is here.

use crate::media::{Control, Meta, MetaView, Playback};
use crate::player::Nanos;
use vstd::prelude::*;
use vstd::string::*;

verus! {

/// The single object every MPRIS player exposes its two interfaces at.
pub const OBJECT_PATH: &'static str = "/org/mpris/MediaPlayer2";

/// A valid, stable track id -- required for `SetPosition`; there is only ever one "track".
pub const TRACK_ID: &'static str = "/org/mpris/MediaPlayer2/track";

/// The bus name of the player `name`.
pub fn bus_name(name: &str) -> (r: String)
    ensures
        r@ == "org.mpris.MediaPlayer2."@ + name@,
{
    let mut r: String = "org.mpris.MediaPlayer2.".to_owned();
    r.append(name);
    r
}

/// What an absolute seek of the given microseconds asks for; a negative one is not a position.
pub open spec fn positioned(micros: int) -> Option<Control> {
    if micros < 0 {
        None
    } else if micros * 1000 <= u64::MAX {
        Some(Control::SetPosition((micros * 1000) as u64))
    } else {
        Some(Control::SetPosition(u64::MAX))
    }
}

/// The `SetPosition` method.
pub fn set_position(micros: i64) -> (r: Option<Control>)
    ensures
        r == positioned(micros as int),
{
    if micros < 0 {
        None
    } else {
        let nanos: Option<u64> = (micros as u64).checked_mul(1000);
        match nanos {
            Some(nanos) => Some(Control::SetPosition(nanos)),
            None => Some(Control::SetPosition(u64::MAX)),
        }
    }
}

/// The `PlaybackStatus` property.
pub open spec fn status_text(state: Playback) -> Seq<char> {
    match state {
        Playback::Playing => "Playing"@,
        Playback::Paused => "Paused"@,
        Playback::Stopped => "Stopped"@,
    }
}

/// The `PlaybackStatus` property.
pub fn playback_status(state: Playback) -> (s: &'static str)
    ensures
        s@ == status_text(state),
{
    match state {
        Playback::Playing => "Playing",
        Playback::Paused => "Paused",
        Playback::Stopped => "Stopped",
    }
}

/// A time in the microseconds that MPRIS counts in: the `Position` property, and a track's length.
pub fn micros(t: Nanos) -> (m: i64)
    ensures
        m == t / 1000,
{
    (t / 1000) as i64
}

/// A value of the `Metadata` dictionary.
#[derive(Debug)]
pub enum Value {
    ObjectPath(&'static str),
    Int(i64),
    Text(String),
    List(Vec<String>),
}

/// A value of the `Metadata` dictionary, by its texts.
pub enum ValueView {
    ObjectPath(Seq<char>),
    Int(int),
    Text(Seq<char>),
    List(Seq<Seq<char>>),
}

impl View for Value {
    type V = ValueView;

    open spec fn view(&self) -> ValueView {
        match self {
            Value::ObjectPath(path) => ValueView::ObjectPath(path@),
            Value::Int(n) => ValueView::Int(*n as int),
            Value::Text(s) => ValueView::Text(s@),
            Value::List(l) => ValueView::List(crate::text::texts(l@)),
        }
    }
}

/// An entry of the `Metadata` dictionary.
#[derive(Debug)]
pub struct Field {
    pub key: &'static str,
    pub value: Value,
}

/// The keys and values of some entries.
pub open spec fn fields_view(fields: Seq<Field>) -> Seq<(Seq<char>, ValueView)> {
    fields.map_values(|f: Field| (f.key@, f.value@))
}

/// The `Metadata` property: a track id, and of a loaded track what is known of it.
pub open spec fn metadata_of(meta: Option<MetaView>) -> Seq<(Seq<char>, ValueView)> {
    let track = seq![("mpris:trackid"@, ValueView::ObjectPath(TRACK_ID@))];
    match meta {
        None => track,
        Some(meta) => {
            let length = match meta.duration {
                Some(d) => seq![("mpris:length"@, ValueView::Int((d / 1000) as int))],
                None => Seq::empty(),
            };
            let art = match meta.cover_url {
                Some(url) => seq![("mpris:artUrl"@, ValueView::Text(url))],
                None => Seq::empty(),
            };
            track + length + art + seq![
                ("xesam:title"@, ValueView::Text(meta.title)),
                ("xesam:artist"@, ValueView::List(seq![meta.artist])),
                ("xesam:album"@, ValueView::Text(meta.album)),
            ]
        },
    }
}

/// The `Metadata` property.
pub fn metadata(meta: &Option<Meta>) -> (fields: Vec<Field>)
    ensures
        fields_view(fields@) == metadata_of(crate::media::opt_meta(*meta)),
{
    let mut fields: Vec<Field> = Vec::new();
    fields.push(Field { key: "mpris:trackid", value: Value::ObjectPath(TRACK_ID) });
    if let Some(meta) = meta {
        if let Some(duration) = meta.duration {
            fields.push(Field { key: "mpris:length", value: Value::Int(micros(duration)) });
        }
        if let Some(url) = &meta.cover_url {
            fields.push(Field { key: "mpris:artUrl", value: Value::Text(url.clone()) });
        }
        fields.push(Field { key: "xesam:title", value: Value::Text(meta.title.clone()) });
        let mut artists: Vec<String> = Vec::new();
        artists.push(meta.artist.clone());
        assert(crate::text::texts(artists@) =~= seq![meta.artist@]);
        fields.push(Field { key: "xesam:artist", value: Value::List(artists) });
        fields.push(Field { key: "xesam:album", value: Value::Text(meta.album.clone()) });
    }
    assert(fields_view(fields@) =~= metadata_of(crate::media::opt_meta(*meta)));
    fields
}

/// A position is in microseconds, and none is before the beginning; the status is the name of the state.
pub proof fn law_positions_are_in_microseconds(micros: int, state: Playback)
    ensures
        micros < 0 ==> positioned(micros) is None,
        0 <= micros <= 1_000_000_000_000_000 ==> positioned(micros) == Some(
            Control::SetPosition((1000 * micros) as u64),
        ),
        status_text(state) == (match state {
            Playback::Playing => "Playing"@,
            Playback::Paused => "Paused"@,
            Playback::Stopped => "Stopped"@,
        }),
{
}

/// What other programs are told of a track is its title, artist and album, its cover and its length in
/// microseconds, under the names that they know; without a track just that there is a player.
pub proof fn law_metadata_says_what_plays(meta: MetaView)
    ensures
        ({
            let told = metadata_of(Some(meta));
            &&& told.contains(("xesam:title"@, ValueView::Text(meta.title)))
            &&& told.contains(("xesam:artist"@, ValueView::List(seq![meta.artist])))
            &&& told.contains(("xesam:album"@, ValueView::Text(meta.album)))
            &&& meta.duration is Some ==> told.contains(
                ("mpris:length"@, ValueView::Int(meta.duration->0 as int / 1000)),
            )
            &&& meta.cover_url is Some ==> told.contains(("mpris:artUrl"@, ValueView::Text(meta.cover_url->0)))
        }),
        metadata_of(None).len() == 1,
{
    let told = metadata_of(Some(meta));
    let n = told.len();
    assert(told[n - 3] == ("xesam:title"@, ValueView::Text(meta.title)));
    assert(told[n - 2] == ("xesam:artist"@, ValueView::List(seq![meta.artist])));
    assert(told[n - 1] == ("xesam:album"@, ValueView::Text(meta.album)));
    if meta.duration is Some {
        assert(told[1] == ("mpris:length"@, ValueView::Int(meta.duration->0 as int / 1000)));
    }
    if meta.cover_url is Some {
        assert(told[n - 4] == ("mpris:artUrl"@, ValueView::Text(meta.cover_url->0)));
    }
}

} // verus!
